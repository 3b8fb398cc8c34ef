//! What can go wrong while the updater starts or looks for its address.

use vstd::prelude::*;

verus! {

/// One endpoint that was asked and gave no address.
#[derive(Debug)]
pub struct EndpointFailure {
    /// The URL that was asked.
    pub endpoint: String,
    /// What the HTTP client said of the failure.
    pub detail: String,
}

/// An `EndpointFailure` as plain character sequences.
pub ghost struct FailureView {
    pub endpoint: Seq<char>,
    pub detail: Seq<char>,
}

impl View for EndpointFailure {
    type V = FailureView;

    open spec fn view(&self) -> FailureView {
        FailureView { endpoint: self.endpoint@, detail: self.detail@ }
    }
}

/// Why the updater stops.
#[derive(Debug)]
pub enum UpdateError {
    /// A profile token ended before the named field.
    MissingArg(&'static str),
    /// Every endpoint was asked and every one failed: one entry for each, in
    /// the order in which they were asked.
    FailedToGetPublicIp(Vec<EndpointFailure>),
}

/// An `UpdateError` as plain character sequences.
pub ghost enum UpdateErrorView {
    MissingArg(Seq<char>),
    FailedToGetPublicIp(Seq<FailureView>),
}

/// The views of a vector of failures, element by element.
pub open spec fn failure_views(v: Seq<EndpointFailure>) -> Seq<FailureView> {
    Seq::new(v.len(), |i: int| v[i]@)
}

impl View for UpdateError {
    type V = UpdateErrorView;

    open spec fn view(&self) -> UpdateErrorView {
        match self {
            UpdateError::MissingArg(name) => UpdateErrorView::MissingArg(name@),
            UpdateError::FailedToGetPublicIp(failures) => UpdateErrorView::FailedToGetPublicIp(
                failure_views(failures@),
            ),
        }
    }
}

/// The items written one after another, with a comma and a space between
/// neighbours.
pub open spec fn listed(items: Seq<Seq<char>>) -> Seq<char>
    decreases items.len(),
{
    if items.len() == 0 {
        Seq::empty()
    } else if items.len() == 1 {
        items[0]
    } else {
        listed(items.drop_last()) + seq![',', ' '] + items.last()
    }
}

/// What the client said of each failure, in order.
pub open spec fn details_of(failures: Seq<FailureView>) -> Seq<Seq<char>> {
    Seq::new(failures.len(), |i: int| failures[i].detail)
}

/// The line that tells a person why the updater stopped.
pub open spec fn message_text(error: UpdateErrorView) -> Seq<char> {
    match error {
        UpdateErrorView::MissingArg(name) => "Missing required argument: "@ + name,
        UpdateErrorView::FailedToGetPublicIp(failures) => "Failed to get public IP: "@ + seq!['[']
            + listed(details_of(failures)) + seq![']'],
    }
}

impl UpdateError {
    /// The error as one line of text: the missing field's name, or the
    /// client's words on every failed endpoint, in a bracketed list.
    pub fn message(&self) -> (text: String)
        ensures
            text@ == message_text(self@),
    {
        match self {
            UpdateError::MissingArg(name) => {
                let mut text = String::from_str("Missing required argument: ");
                text.append(name);
                text
            },
            UpdateError::FailedToGetPublicIp(failures) => {
                let mut text = String::from_str("Failed to get public IP: ");
                let ghost head = text@;
                let ghost details = details_of(failure_views(failures@));
                proof {
                    reveal_strlit("[");
                    reveal_strlit("]");
                    reveal_strlit(", ");
                }
                text.append("[");
                assert("["@ == seq!['[']);
                assert("]"@ == seq![']']);
                assert(", "@ == seq![',', ' ']);
                let n: usize = failures.len();
                let mut i: usize = 0;
                while i < n
                    invariant
                        n == failures@.len(),
                        i <= n,
                        details == details_of(failure_views(failures@)),
                        text@ == head + seq!['['] + listed(details.take(i as int)),
                        ", "@ == seq![',', ' '],
                    decreases n - i,
                {
                    if i > 0 {
                        text.append(", ");
                    }
                    text.append(failures[i].detail.as_str());
                    proof {
                        let now = details.take(i + 1);
                        assert(now.drop_last() == details.take(i as int));
                        assert(now.last() == failures@[i as int].detail@);
                    }
                    i = i + 1;
                }
                assert(details.take(n as int) == details);
                text.append("]");
                text
            },
        }
    }
}

} // verus!
