//! Finding the caller's public address: endpoints are asked one after
//! another, in the order given, until one answers.
//!
//! The library decides; the caller does the asking. `Discovery::begin` and
//! `Discovery::resume` say which endpoint to ask next or how the round ended.

use vstd::prelude::*;
use crate::error::{failure_views, EndpointFailure, FailureView, UpdateError, UpdateErrorView};
use crate::text::views_of;

verus! {

/// What asking one endpoint gave.
#[derive(Debug)]
pub enum Outcome {
    /// The request went through; this is the response body, as it came.
    Body(String),
    /// The request, its status or the reading of its body failed; these are
    /// the client's words on it.
    Failed(String),
}

/// An `Outcome` as plain character sequences.
pub ghost enum OutcomeView {
    Body(Seq<char>),
    Failed(Seq<char>),
}

impl View for Outcome {
    type V = OutcomeView;

    open spec fn view(&self) -> OutcomeView {
        match self {
            Outcome::Body(body) => OutcomeView::Body(body@),
            Outcome::Failed(detail) => OutcomeView::Failed(detail@),
        }
    }
}

/// A round in which one endpoint is being asked: the endpoints in their
/// order of priority, and the failures of those asked so far.
pub struct Discovery {
    endpoints: Vec<String>,
    failures: Vec<EndpointFailure>,
}

/// A `Discovery` as plain character sequences.
pub ghost struct DiscoveryView {
    pub endpoints: Seq<Seq<char>>,
    pub failures: Seq<FailureView>,
}

impl DiscoveryView {
    /// Fewer failures than endpoints, and the `i`-th failure is that of the
    /// `i`-th endpoint: so the endpoint at `failures.len()` is the one asked.
    pub open spec fn wf(self) -> bool {
        &&& self.failures.len() < self.endpoints.len()
        &&& forall|i: int|
            0 <= i < self.failures.len() ==> (#[trigger] self.failures[i]).endpoint
                == self.endpoints[i]
    }

    /// The endpoint that is being asked.
    pub open spec fn current(self) -> Seq<char> {
        self.endpoints[self.failures.len() as int]
    }
}

/// How a round goes on.
pub enum Step {
    /// Ask `Discovery::endpoint`, then `Discovery::resume` with what it gave.
    Ask(Discovery),
    /// The round is over: the body of the first endpoint that answered, or
    /// the failures of all of them.
    Done(Result<String, UpdateError>),
}

/// A `Step` as plain character sequences.
pub ghost enum StepView {
    Ask(DiscoveryView),
    Done(Result<Seq<char>, UpdateErrorView>),
}

impl View for Step {
    type V = StepView;

    open spec fn view(&self) -> StepView {
        match self {
            Step::Ask(discovery) => StepView::Ask(discovery@),
            Step::Done(Ok(body)) => StepView::Done(Ok(body@)),
            Step::Done(Err(error)) => StepView::Done(Err(error@)),
        }
    }
}

/// The step that opens a round: ask the first endpoint, or fail with no
/// entry where there is none to ask.
pub open spec fn begin_step(endpoints: Seq<Seq<char>>) -> StepView {
    if endpoints.len() == 0 {
        StepView::Done(Err(UpdateErrorView::FailedToGetPublicIp(Seq::empty())))
    } else {
        StepView::Ask(DiscoveryView { endpoints, failures: Seq::empty() })
    }
}

/// The step that follows an outcome. A body ends the round at once. A
/// failure is recorded under the endpoint that was asked; then the next
/// endpoint is asked, or the round fails with every failure where none is
/// left.
pub open spec fn resume_step(state: DiscoveryView, outcome: OutcomeView) -> StepView {
    match outcome {
        OutcomeView::Body(body) => StepView::Done(Ok(body)),
        OutcomeView::Failed(detail) => {
            let failures = state.failures.push(
                FailureView { endpoint: state.current(), detail },
            );
            if failures.len() == state.endpoints.len() {
                StepView::Done(Err(UpdateErrorView::FailedToGetPublicIp(failures)))
            } else {
                StepView::Ask(DiscoveryView { endpoints: state.endpoints, failures })
            }
        },
    }
}

impl View for Discovery {
    type V = DiscoveryView;

    closed spec fn view(&self) -> DiscoveryView {
        DiscoveryView {
            endpoints: views_of(self.endpoints@),
            failures: failure_views(self.failures@),
        }
    }
}

impl Discovery {
    #[verifier::type_invariant]
    closed spec fn inv(&self) -> bool {
        self@.wf()
    }

    /// Opens a round over `endpoints`, which are asked in the order given.
    pub fn begin(endpoints: Vec<String>) -> (step: Step)
        ensures
            step@ == begin_step(views_of(endpoints@)),
            step@ matches StepView::Ask(state) ==> state.wf(),
    {
        if endpoints.len() == 0 {
            let none: Vec<EndpointFailure> = Vec::new();
            assert(failure_views(none@) == Seq::<FailureView>::empty());
            Step::Done(Err(UpdateError::FailedToGetPublicIp(none)))
        } else {
            let failures: Vec<EndpointFailure> = Vec::new();
            assert(failure_views(failures@) == Seq::<FailureView>::empty());
            Step::Ask(Discovery { endpoints, failures })
        }
    }

    /// The URL to ask now.
    pub fn endpoint(&self) -> (url: &str)
        ensures
            self@.wf(),
            url@ == self@.current(),
    {
        proof {
            use_type_invariant(self);
        }
        self.endpoints[self.failures.len()].as_str()
    }

    /// Takes what the endpoint gave and says how the round goes on.
    pub fn resume(self, outcome: Outcome) -> (step: Step)
        ensures
            self@.wf(),
            step@ == resume_step(self@, outcome@),
            step@ matches StepView::Ask(state) ==> state.wf(),
    {
        proof {
            use_type_invariant(&self);
        }
        match outcome {
            Outcome::Body(body) => Step::Done(Ok(body)),
            Outcome::Failed(detail) => {
                let Discovery { endpoints, mut failures } = self;
                let ghost before = failure_views(failures@);
                let at: usize = failures.len();
                let failure = EndpointFailure { endpoint: endpoints[at].clone(), detail };
                failures.push(failure);
                assert(failure_views(failures@) == before.push(failure@));
                if failures.len() == endpoints.len() {
                    Step::Done(Err(UpdateError::FailedToGetPublicIp(failures)))
                } else {
                    Step::Ask(Discovery { endpoints, failures })
                }
            },
        }
    }
}

/// How many endpoints are still to be asked, the current one included.
pub open spec fn left_to_ask(step: StepView) -> nat {
    match step {
        StepView::Ask(state) => if state.wf() {
            (state.endpoints.len() - state.failures.len()) as nat
        } else {
            0
        },
        StepView::Done(_) => 0,
    }
}

/// A round played to its end, where `answers[i]` is what the `i`-th endpoint
/// gives if it is asked: the last step, and how many endpoints were asked on
/// the way to it.
pub open spec fn play(step: StepView, answers: Seq<OutcomeView>) -> (StepView, nat)
    decreases left_to_ask(step),
{
    match step {
        StepView::Ask(state) => if state.wf() && state.failures.len() < answers.len() {
            let (last, asked) = play(
                resume_step(state, answers[state.failures.len() as int]),
                answers,
            );
            (last, asked + 1)
        } else {
            (step, 0)
        },
        StepView::Done(_) => (step, 0),
    }
}

/// The failures of the first `n` endpoints, each with what its answer said.
pub open spec fn failures_of(
    endpoints: Seq<Seq<char>>,
    answers: Seq<OutcomeView>,
    n: int,
) -> Seq<FailureView> {
    Seq::new(
        n as nat,
        |i: int| FailureView { endpoint: endpoints[i], detail: answers[i]->Failed_0 },
    )
}

/// A step that follows a well-formed state is well formed where it asks.
pub proof fn lemma_resume_keeps_wf(state: DiscoveryView, outcome: OutcomeView)
    requires
        state.wf(),
    ensures
        resume_step(state, outcome) matches StepView::Ask(next) ==> next.wf()
            && next.endpoints == state.endpoints && next.failures.len() == state.failures.len()
            + 1,
{
}

/// Where the endpoint at `k` is the first to answer, the round ends with its
/// body, as it came, after `k + 1` endpoints were asked: none after it is.
pub proof fn lemma_round_succeeds(endpoints: Seq<Seq<char>>, answers: Seq<OutcomeView>, k: int)
    requires
        answers.len() == endpoints.len(),
        0 <= k < answers.len(),
        answers[k] is Body,
        forall|j: int| 0 <= j < k ==> answers[j] is Failed,
    ensures
        play(begin_step(endpoints), answers) == (
            StepView::Done(Ok(answers[k]->Body_0)),
            (k + 1) as nat,
        ),
{
    let start = DiscoveryView { endpoints, failures: Seq::empty() };
    assert(start.failures == failures_of(endpoints, answers, 0));
    lemma_play_from(endpoints, answers, 0, start);
}

/// Where every endpoint fails, the round ends with one failure for each, in
/// the order of the endpoints, after all of them were asked. With no
/// endpoint at all it ends at once, with no failure.
pub proof fn lemma_round_fails(endpoints: Seq<Seq<char>>, answers: Seq<OutcomeView>)
    requires
        answers.len() == endpoints.len(),
        forall|j: int| 0 <= j < answers.len() ==> answers[j] is Failed,
    ensures
        play(begin_step(endpoints), answers) == (
            StepView::Done(
                Err(
                    UpdateErrorView::FailedToGetPublicIp(
                        failures_of(endpoints, answers, endpoints.len() as int),
                    ),
                ),
            ),
            endpoints.len(),
        ),
{
    if endpoints.len() == 0 {
        assert(failures_of(endpoints, answers, 0) == Seq::<FailureView>::empty());
    } else {
        let start = DiscoveryView { endpoints, failures: Seq::empty() };
        assert(start.failures == failures_of(endpoints, answers, 0));
        lemma_play_from(endpoints, answers, 0, start);
    }
}

/// The rest of a round in which the first `m` endpoints have failed.
proof fn lemma_play_from(
    endpoints: Seq<Seq<char>>,
    answers: Seq<OutcomeView>,
    m: int,
    state: DiscoveryView,
)
    requires
        answers.len() == endpoints.len(),
        0 <= m < endpoints.len(),
        forall|j: int| 0 <= j < m ==> answers[j] is Failed,
        state.endpoints == endpoints,
        state.failures == failures_of(endpoints, answers, m),
    ensures
        state.wf(),
        forall|k: int|
            m <= k < answers.len() && answers[k] is Body && (forall|j: int|
                m <= j < k ==> answers[j] is Failed) ==> play(StepView::Ask(state), answers) == (
                StepView::Done(Ok(answers[k]->Body_0)),
                (k + 1 - m) as nat,
            ),
        (forall|j: int| m <= j < answers.len() ==> answers[j] is Failed) ==> play(
            StepView::Ask(state),
            answers,
        ) == (
            StepView::Done(
                Err(
                    UpdateErrorView::FailedToGetPublicIp(
                        failures_of(endpoints, answers, endpoints.len() as int),
                    ),
                ),
            ),
            (endpoints.len() - m) as nat,
        ),
    decreases endpoints.len() - m,
{
    assert(state.wf());
    let next = resume_step(state, answers[m]);
    match answers[m] {
        OutcomeView::Body(body) => {
            assert(play(next, answers) == (next, 0nat));
            assert forall|k: int|
                m <= k < answers.len() && answers[k] is Body && (forall|j: int|
                    m <= j < k ==> answers[j] is Failed) implies k == m by {
                if k > m {
                    assert(answers[m] is Failed);
                }
            }
        },
        OutcomeView::Failed(detail) => {
            let failures = state.failures.push(FailureView { endpoint: endpoints[m], detail });
            assert(failures == failures_of(endpoints, answers, m + 1));
            if m + 1 == endpoints.len() {
                assert(play(next, answers) == (next, 0nat));
            } else {
                let after = DiscoveryView { endpoints, failures };
                lemma_play_from(endpoints, answers, m + 1, after);
            }
        },
    }
}

} // verus!
