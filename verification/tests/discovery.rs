use ddns_updater::discovery::{Discovery, Outcome, Step};
use ddns_updater::error::{EndpointFailure, UpdateError};

fn endpoints(urls: &[&str]) -> Vec<String> {
    urls.iter().map(|u| u.to_string()).collect()
}

fn asking(step: Step) -> Discovery {
    match step {
        Step::Ask(state) => state,
        Step::Done(result) => panic!("the round ended with {:?}", result),
    }
}

fn failures(step: Step) -> Vec<EndpointFailure> {
    match step {
        Step::Done(Err(UpdateError::FailedToGetPublicIp(failures))) => failures,
        Step::Done(other) => panic!("the round ended with {:?}", other),
        Step::Ask(state) => panic!("the round goes on with {}", state.endpoint()),
    }
}

#[test]
fn second_endpoint_answers_and_third_is_not_asked() {
    let state = asking(Discovery::begin(endpoints(&["http://e1", "http://e2", "http://e3"])));
    assert_eq!(state.endpoint(), "http://e1");
    let state = asking(state.resume(Outcome::Failed("refused".to_string())));
    assert_eq!(state.endpoint(), "http://e2");
    match state.resume(Outcome::Body("1.2.3.4".to_string())) {
        Step::Done(Ok(body)) => assert_eq!(body, "1.2.3.4"),
        Step::Done(Err(error)) => panic!("{}", error.message()),
        Step::Ask(state) => panic!("{} was asked", state.endpoint()),
    }
}

#[test]
fn two_failures_come_back_in_the_order_asked() {
    let state = asking(Discovery::begin(endpoints(&["http://e1", "http://e2"])));
    let state = asking(state.resume(Outcome::Failed("first".to_string())));
    let failed = failures(state.resume(Outcome::Failed("second".to_string())));
    assert_eq!(failed.len(), 2);
    assert_eq!(failed[0].endpoint, "http://e1");
    assert_eq!(failed[0].detail, "first");
    assert_eq!(failed[1].endpoint, "http://e2");
    assert_eq!(failed[1].detail, "second");
}

#[test]
fn no_endpoint_fails_at_once_with_no_entry() {
    let failed = failures(Discovery::begin(Vec::new()));
    assert_eq!(failed.len(), 0);
}

#[test]
fn first_endpoint_answers() {
    let state = asking(Discovery::begin(endpoints(&["http://only"])));
    match state.resume(Outcome::Body("203.0.113.7".to_string())) {
        Step::Done(Ok(body)) => assert_eq!(body, "203.0.113.7"),
        other => panic!("{:?}", matches!(other, Step::Ask(_))),
    }
}

#[test]
fn body_comes_back_as_it_came() {
    let state = asking(Discovery::begin(endpoints(&["http://only"])));
    match state.resume(Outcome::Body("  not an address\n".to_string())) {
        Step::Done(Ok(body)) => assert_eq!(body, "  not an address\n"),
        other => panic!("{:?}", matches!(other, Step::Ask(_))),
    }
    let state = asking(Discovery::begin(endpoints(&["http://only"])));
    match state.resume(Outcome::Body(String::new())) {
        Step::Done(Ok(body)) => assert_eq!(body, ""),
        other => panic!("{:?}", matches!(other, Step::Ask(_))),
    }
}

#[test]
fn single_endpoint_that_fails_ends_the_round() {
    let state = asking(Discovery::begin(endpoints(&["http://only"])));
    let failed = failures(state.resume(Outcome::Failed("timeout".to_string())));
    assert_eq!(failed.len(), 1);
    assert_eq!(failed[0].endpoint, "http://only");
    assert_eq!(failed[0].detail, "timeout");
}

#[test]
fn endpoints_are_asked_in_the_order_given() {
    let urls = ["c", "a", "", "b", "a"];
    let mut state = asking(Discovery::begin(endpoints(&urls)));
    for (i, url) in urls.iter().enumerate() {
        assert_eq!(state.endpoint(), *url);
        let step = state.resume(Outcome::Failed(format!("failure {}", i)));
        if i + 1 < urls.len() {
            state = asking(step);
        } else {
            let failed = failures(step);
            assert_eq!(failed.len(), urls.len());
            for (j, failure) in failed.iter().enumerate() {
                assert_eq!(failure.endpoint, urls[j]);
                assert_eq!(failure.detail, format!("failure {}", j));
            }
            return;
        }
    }
    unreachable!();
}

#[test]
fn last_endpoint_answers_after_all_others_failed() {
    let state = asking(Discovery::begin(endpoints(&["e1", "e2", "e3"])));
    let state = asking(state.resume(Outcome::Failed("a".to_string())));
    let state = asking(state.resume(Outcome::Failed("b".to_string())));
    assert_eq!(state.endpoint(), "e3");
    match state.resume(Outcome::Body("9.9.9.9".to_string())) {
        Step::Done(Ok(body)) => assert_eq!(body, "9.9.9.9"),
        other => panic!("{:?}", matches!(other, Step::Ask(_))),
    }
}
