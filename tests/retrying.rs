use lilyenv::retry::{Action, Attempt, RetryState};

/// Runs the policy over the given outcomes, returning the waits and the final action.
fn drive(outcomes: &[Attempt]) -> (Vec<u64>, Option<Action>) {
    let mut state = RetryState::new();
    let mut waits = Vec::new();
    for a in outcomes {
        match state.next(a) {
            Action::Retry(ms) => waits.push(ms),
            other => return (waits, Some(other)),
        }
    }
    (waits, None)
}

#[test]
fn server_errors_then_success_back_off_doubling() {
    let outcomes = [Attempt::Status(502), Attempt::Status(500), Attempt::Decode, Attempt::Success];
    assert_eq!(drive(&outcomes), (vec![500, 1000, 2000], Some(Action::Finish)));
}

#[test]
fn rate_limit_stops_at_once() {
    assert_eq!(drive(&[Attempt::Status(429), Attempt::Success]), (vec![], Some(Action::RateLimited)));
    assert_eq!(drive(&[Attempt::Status(403)]), (vec![], Some(Action::RateLimited)));
    assert_eq!(
        drive(&[Attempt::Status(503), Attempt::Status(429)]),
        (vec![500], Some(Action::RateLimited))
    );
}

#[test]
fn retries_run_out_after_five_waits() {
    let waits = vec![500, 1000, 2000, 4000, 8000];
    assert_eq!(drive(&[Attempt::Status(503); 7]), (waits.clone(), Some(Action::Fail)));
    assert_eq!(drive(&[Attempt::Decode; 7]), (waits.clone(), Some(Action::DecodeFailed)));
    let mut five_then_success = vec![Attempt::Status(500); 5];
    five_then_success.push(Attempt::Success);
    assert_eq!(drive(&five_then_success), (waits, Some(Action::Finish)));
}

#[test]
fn other_failures_are_not_retried() {
    assert_eq!(drive(&[Attempt::Status(404)]), (vec![], Some(Action::Fail)));
    assert_eq!(drive(&[Attempt::Other]), (vec![], Some(Action::Fail)));
    assert_eq!(drive(&[Attempt::Status(499)]), (vec![], Some(Action::Fail)));
    assert_eq!(drive(&[Attempt::Status(600)]), (vec![], Some(Action::Fail)));
}
