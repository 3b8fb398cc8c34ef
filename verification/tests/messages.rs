use ddns_updater::driver::{after_round, Next, SLEEP_SECONDS};
use ddns_updater::error::{EndpointFailure, UpdateError};
use ddns_updater::profile::Profile;

fn failure(endpoint: &str, detail: &str) -> EndpointFailure {
    EndpointFailure { endpoint: endpoint.to_string(), detail: detail.to_string() }
}

fn profile(host: &str) -> Profile {
    Profile { host: host.to_string(), domain: "example.org".to_string(), api_key: "k".to_string() }
}

#[test]
fn missing_argument_message_names_the_field() {
    assert_eq!(UpdateError::MissingArg("host").message(), "Missing required argument: host");
    assert_eq!(UpdateError::MissingArg("domain").message(), "Missing required argument: domain");
    assert_eq!(UpdateError::MissingArg("api_key").message(), "Missing required argument: api_key");
}

#[test]
fn failure_message_lists_every_detail_in_order() {
    let error = UpdateError::FailedToGetPublicIp(vec![
        failure("http://e1", "refused"),
        failure("http://e2", "timed out"),
        failure("http://e3", "status 500"),
    ]);
    assert_eq!(error.message(), "Failed to get public IP: [refused, timed out, status 500]");
}

#[test]
fn failure_message_of_one_and_of_none() {
    let one = UpdateError::FailedToGetPublicIp(vec![failure("http://e1", "refused")]);
    assert_eq!(one.message(), "Failed to get public IP: [refused]");
    let none = UpdateError::FailedToGetPublicIp(Vec::new());
    assert_eq!(none.message(), "Failed to get public IP: []");
}

#[test]
fn failure_message_is_the_list_as_debug_writes_it() {
    let details = vec![17u32, 4, 99];
    let error = UpdateError::FailedToGetPublicIp(
        details.iter().map(|d| failure("e", &format!("{:?}", d))).collect(),
    );
    assert_eq!(error.message(), format!("Failed to get public IP: {:?}", details));
}

#[test]
fn address_is_reported_once_for_each_profile() {
    let profiles = vec![profile("a"), profile("b"), profile("c")];
    match after_round(&profiles, &Ok("1.2.3.4".to_string())) {
        Next::Report { lines, sleep_seconds } => {
            assert_eq!(lines, vec!["public IP = 1.2.3.4"; 3]);
            assert_eq!(sleep_seconds, 300);
            assert_eq!(sleep_seconds, SLEEP_SECONDS);
        },
        Next::Abort(text) => panic!("{}", text),
    }
}

#[test]
fn no_profile_gives_no_line_but_the_wait() {
    let profiles: Vec<Profile> = Vec::new();
    match after_round(&profiles, &Ok("1.2.3.4".to_string())) {
        Next::Report { lines, sleep_seconds } => {
            assert!(lines.is_empty());
            assert_eq!(sleep_seconds, 5 * 60);
        },
        Next::Abort(text) => panic!("{}", text),
    }
}

#[test]
fn failed_round_stops_with_the_message() {
    let profiles = vec![profile("a")];
    let round = Err(UpdateError::FailedToGetPublicIp(vec![failure("e1", "x"), failure("e2", "y")]));
    match after_round(&profiles, &round) {
        Next::Abort(text) => assert_eq!(text, "Failed to get public IP: [x, y]"),
        Next::Report { lines, .. } => panic!("{:?}", lines),
    }
}
