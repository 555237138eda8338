use data_scraper::retry::{
    base_backoff_ms, body_is_json, decide_exec, parse_retry_after, retry_delay_ms, AttemptOutcome,
    RetryAction, RetryState,
};

fn response(status: u16) -> AttemptOutcome {
    AttemptOutcome::Response { status, retry_after_secs: 0 }
}

/// Feeds the outcomes to a fresh retry loop until it stops asking for a
/// retry; returns the number of attempts made and the final action.
fn run_attempts(max_retries: u32, outcomes: &[AttemptOutcome]) -> (usize, RetryAction) {
    let mut state = RetryState::new(max_retries);
    let mut made = 0;
    for outcome in outcomes {
        made += 1;
        let action = state.on_outcome(*outcome);
        if !matches!(action, RetryAction::Retry { .. }) {
            assert!(state.is_finished());
            return (made, action);
        }
    }
    panic!("the retry loop asked for more attempts than were given");
}

#[test]
fn four_xx_is_not_retried() {
    let (made, action) = run_attempts(2, &[response(404), response(200)]);
    assert_eq!(action, RetryAction::FailClientError);
    assert_eq!(made, 1, "4xx must not be retried");
}

#[test]
fn five_xx_is_retried_until_success() {
    let (made, action) = run_attempts(2, &[response(500), response(200)]);
    assert_eq!(action, RetryAction::Deliver);
    assert_eq!(made, 2, "5xx must be retried");
}

#[test]
fn rate_limit_is_retried() {
    let mut state = RetryState::new(2);
    let first = state.on_outcome(AttemptOutcome::Response { status: 429, retry_after_secs: 0 });
    assert_eq!(first, RetryAction::Retry { attempt: 0, retry_after_secs: 0 });
    assert_eq!(state.attempt(), 1);
    let second = state.on_outcome(response(200));
    assert_eq!(second, RetryAction::Deliver, "429 must be retried");
}

#[test]
fn four_oh_eight_is_retried() {
    let (made, action) = run_attempts(2, &[response(408), response(200)]);
    assert_eq!(action, RetryAction::Deliver);
    assert_eq!(made, 2, "408 must be retried");
}

#[test]
fn transport_errors_give_up_after_all_attempts() {
    let errs = [AttemptOutcome::TransportError; 5];
    let (made, action) = run_attempts(3, &errs);
    assert_eq!(action, RetryAction::GiveUp);
    assert_eq!(made, 4);
}

#[test]
fn server_errors_without_retries_give_up_at_once() {
    let (made, action) = run_attempts(0, &[response(503)]);
    assert_eq!(action, RetryAction::GiveUp);
    assert_eq!(made, 1);
}

#[test]
fn decide_passes_retry_after_on() {
    let a = decide_exec(1, 3, AttemptOutcome::Response { status: 503, retry_after_secs: 17 });
    assert_eq!(a, RetryAction::Retry { attempt: 1, retry_after_secs: 17 });
    assert_eq!(decide_exec(0, 3, response(204)), RetryAction::Deliver);
    assert_eq!(decide_exec(0, 3, response(401)), RetryAction::FailClientError);
    assert_eq!(decide_exec(3, 3, response(429)), RetryAction::GiveUp);
    assert_eq!(decide_exec(0, 3, response(301)), RetryAction::Retry { attempt: 0, retry_after_secs: 0 });
}

#[test]
fn backoff_doubles_from_half_a_second() {
    assert_eq!(base_backoff_ms(0), 500);
    assert_eq!(base_backoff_ms(1), 1000);
    assert_eq!(base_backoff_ms(3), 4000);
    assert_eq!(base_backoff_ms(10), 512_000);
}

#[test]
fn retry_delay_takes_the_longer_wait() {
    assert_eq!(retry_delay_ms(1200, 0), 1200);
    assert_eq!(retry_delay_ms(1200, 5), 5000);
    assert_eq!(retry_delay_ms(7000, 5), 7000);
    assert_eq!(retry_delay_ms(100, 600), 60_000);
    assert_eq!(retry_delay_ms(90_000, 600), 90_000);
}

#[test]
fn retry_after_values_are_read_as_seconds() {
    assert_eq!(parse_retry_after("12"), 12);
    assert_eq!(parse_retry_after("  30 \t"), 30);
    assert_eq!(parse_retry_after("+7"), 7);
    assert_eq!(parse_retry_after(""), 0);
    assert_eq!(parse_retry_after("soon"), 0);
    assert_eq!(parse_retry_after("-3"), 0);
    assert_eq!(parse_retry_after("1.5"), 0);
    assert_eq!(parse_retry_after("18446744073709551615"), u64::MAX);
    assert_eq!(parse_retry_after("18446744073709551616"), 0);
    assert_eq!(parse_retry_after("Wed, 21 Oct 2015 07:28:00 GMT"), 0);
}

#[test]
fn json_bodies_are_recognised() {
    assert!(body_is_json("{\"hello\":\"world\"}"));
    assert!(body_is_json("  \n[1, 2]"));
    assert!(!body_is_json("name=value"));
    assert!(!body_is_json("   "));
    assert!(!body_is_json(""));
}
