use website_checker::retry::{push_decimal, status_failure, transport_failure, ProbeEvent, RetryPolicy, RetryStep};

fn run(url: &str, max_retries: u32, events: Vec<ProbeEvent>) -> (u64, Result<u16, String>) {
    let mut policy = RetryPolicy::new(url.to_string(), max_retries);
    for ev in events {
        assert!(policy.is_open());
        match policy.record(ev) {
            RetryStep::Retry => {}
            RetryStep::Finished(outcome) => return (policy.attempts(), outcome),
        }
    }
    panic!("the policy asked for more probes than were scripted");
}

#[test]
fn success_on_first_attempt_is_not_retried() {
    let (attempts, outcome) = run("https://example.com", 3, vec![ProbeEvent::Status(200)]);
    assert_eq!(attempts, 1);
    assert_eq!(outcome, Ok(200));
}

#[test]
fn any_2xx_code_is_a_success() {
    let (attempts, outcome) = run("https://example.com", 0, vec![ProbeEvent::Status(204)]);
    assert_eq!(attempts, 1);
    assert_eq!(outcome, Ok(204));
    let (_, outcome) = run("https://example.com", 0, vec![ProbeEvent::Status(299)]);
    assert_eq!(outcome, Ok(299));
}

#[test]
fn error_status_is_not_retried() {
    let (attempts, outcome) = run("https://example.com", 5, vec![ProbeEvent::Status(500)]);
    assert_eq!(attempts, 1);
    assert_eq!(outcome, Err("status 500".to_string()));
}

#[test]
fn redirect_and_client_codes_are_failures() {
    let (_, outcome) = run("u", 2, vec![ProbeEvent::Status(301)]);
    assert_eq!(outcome, Err("status 301".to_string()));
    let (_, outcome) = run("u", 2, vec![ProbeEvent::Status(404)]);
    assert_eq!(outcome, Err("status 404".to_string()));
    let (_, outcome) = run("u", 2, vec![ProbeEvent::Status(199)]);
    assert_eq!(outcome, Err("status 199".to_string()));
}

#[test]
fn transport_failures_make_max_retries_plus_one_attempts() {
    let events = vec![
        ProbeEvent::Transport("refused".to_string()),
        ProbeEvent::Transport("timed out".to_string()),
        ProbeEvent::Transport("dns".to_string()),
        ProbeEvent::Transport("never reached".to_string()),
    ];
    let (attempts, outcome) = run("https://bad.invalid", 2, events);
    assert_eq!(attempts, 3);
    assert_eq!(outcome, Err("Failed to process https://bad.invalid: Error: dns".to_string()));
}

#[test]
fn zero_retries_means_one_attempt() {
    let (attempts, outcome) = run("h", 0, vec![ProbeEvent::Transport("x".to_string()), ProbeEvent::Status(200)]);
    assert_eq!(attempts, 1);
    assert_eq!(outcome, Err("Failed to process h: Error: x".to_string()));
}

#[test]
fn transport_error_then_success() {
    let events = vec![ProbeEvent::Transport("reset".to_string()), ProbeEvent::Status(200)];
    let (attempts, outcome) = run("h", 1, events);
    assert_eq!(attempts, 2);
    assert_eq!(outcome, Ok(200));
}

#[test]
fn policy_closes_after_last_retry() {
    let mut policy = RetryPolicy::new("h".to_string(), 1);
    assert!(policy.is_open());
    assert!(matches!(policy.record(ProbeEvent::Transport("a".to_string())), RetryStep::Retry));
    assert!(policy.is_open());
    assert!(matches!(policy.record(ProbeEvent::Transport("b".to_string())), RetryStep::Finished(_)));
    assert!(!policy.is_open());
}

#[test]
fn messages_are_built_exactly() {
    assert_eq!(status_failure(503), "status 503");
    assert_eq!(status_failure(0), "status 0");
    assert_eq!(transport_failure("https://a.b", "boom"), "Failed to process https://a.b: Error: boom");
    let mut s = String::from("n=");
    push_decimal(&mut s, 18446744073709551615);
    assert_eq!(s, "n=18446744073709551615");
}

#[test]
fn policy_closes_after_a_status_code() {
    let mut policy = RetryPolicy::new("h".to_string(), 2);
    assert!(matches!(policy.record(ProbeEvent::Status(200)), RetryStep::Finished(Ok(200))));
    assert!(!policy.is_open());
    let mut policy = RetryPolicy::new("h".to_string(), 2);
    assert!(matches!(policy.record(ProbeEvent::Status(500)), RetryStep::Finished(Err(_))));
    assert!(!policy.is_open());
}
