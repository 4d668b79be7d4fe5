use pcloud_sync::error::Error;
use pcloud_sync::request::Error as RemoteError;
use pcloud_sync::retry::Retry;

fn io(text: &str) -> Error {
    Error::Io(text.to_string())
}

#[test]
fn fresh_retry_has_full_budget_and_no_failures() {
    let retry = Retry::new(5);
    assert_eq!(retry.remaining, 5);
    assert!(retry.errors.is_empty());
}

#[test]
fn budget_of_two_allows_three_attempts() {
    let mut retry = Retry::new(2);
    let mut attempts = 1;
    while retry.fail(io("again")) {
        attempts += 1;
    }
    assert_eq!(attempts, 3);
    assert_eq!(retry.remaining, 0);
    assert_eq!(retry.into_error(), Error::Retry(vec![io("again"), io("again"), io("again")]));
}

#[test]
fn budget_of_zero_allows_one_attempt() {
    let mut retry = Retry::new(0);
    assert!(!retry.fail(io("once")));
    assert_eq!(retry.into_error(), Error::Retry(vec![io("once")]));
}

#[test]
fn failures_are_kept_in_the_order_of_the_attempts() {
    let mut retry = Retry::new(3);
    assert!(retry.fail(io("first")));
    assert_eq!(retry.remaining, 2);
    assert!(retry.fail(Error::PCloud(RemoteError::ResponseFormat)));
    assert_eq!(retry.remaining, 1);
    assert_eq!(retry.errors, vec![io("first"), Error::PCloud(RemoteError::ResponseFormat)]);
}

#[test]
fn error_constructors_wrap_their_cause() {
    assert_eq!(
        Error::from_remote(RemoteError::Payload(2005, "Directory does not exist.".to_string())),
        Error::PCloud(RemoteError::Payload(2005, "Directory does not exist.".to_string()))
    );
    assert_eq!(Error::from_io("denied".to_string()), io("denied"));
}
