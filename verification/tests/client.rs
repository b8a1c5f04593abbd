use seclab_suite_runtime::{
    OperationEvent, OperationImpact, OperationOutcome, Submission, agent_error, request_url, status_is_client_error, status_is_success, submit_step,
    AttemptOutcome, Error, SubmitStep, DEFAULT_RUNTIME_PATH, MAX_ATTEMPTS, OPERATION_EVENT_PATH,
};

#[test]
fn request_urls_drop_trailing_slashes_of_the_base() {
    assert_eq!(
        request_url("http://local", OPERATION_EVENT_PATH),
        "http://local/api/v1/agent/suite-runtime/operation-events"
    );
    assert_eq!(request_url("http://local///", "/x"), "http://local/x");
    assert_eq!(request_url("https://agent:8443/base/", "/y"), "https://agent:8443/base/y");
    assert_eq!(request_url("", "/z"), "/z");
    assert_eq!(request_url("///", "/z"), "/z");
    assert_eq!(DEFAULT_RUNTIME_PATH, "/run/seclab-agent/runtime.json");
}

#[test]
fn statuses_are_classified() {
    assert!(status_is_success(200));
    assert!(status_is_success(204));
    assert!(!status_is_success(199));
    assert!(!status_is_success(300));
    assert!(status_is_client_error(400));
    assert!(status_is_client_error(429));
    assert!(!status_is_client_error(500));
    assert!(!status_is_client_error(399));
}

#[test]
fn submission_steps() {
    assert_eq!(MAX_ATTEMPTS, 3);
    assert_eq!(submit_step(0, AttemptOutcome::Status(202)), SubmitStep::Accepted);
    assert_eq!(submit_step(2, AttemptOutcome::Status(200)), SubmitStep::Accepted);
    assert_eq!(submit_step(0, AttemptOutcome::Status(403)), SubmitStep::Rejected);
    assert_eq!(submit_step(0, AttemptOutcome::Status(503)), SubmitStep::Retry { delay_ms: 100 });
    assert_eq!(submit_step(1, AttemptOutcome::Status(503)), SubmitStep::Retry { delay_ms: 200 });
    assert_eq!(submit_step(2, AttemptOutcome::Status(503)), SubmitStep::Rejected);
    assert_eq!(submit_step(0, AttemptOutcome::TransportFailed), SubmitStep::Retry { delay_ms: 100 });
    assert_eq!(submit_step(1, AttemptOutcome::TransportFailed), SubmitStep::Retry { delay_ms: 200 });
    assert_eq!(submit_step(2, AttemptOutcome::TransportFailed), SubmitStep::Failed);
    assert_eq!(submit_step(1, AttemptOutcome::Status(301)), SubmitStep::Retry { delay_ms: 200 });
}

/// Drives the retry loop the way the client does and counts the attempts.
fn run(outcomes: &[AttemptOutcome]) -> (usize, SubmitStep) {
    let mut attempt = 0;
    loop {
        let step = submit_step(attempt, outcomes[attempt]);
        match step {
            SubmitStep::Retry { .. } => attempt += 1,
            other => return (attempt + 1, other),
        }
    }
}

#[test]
fn submission_ends_within_three_attempts() {
    assert_eq!(run(&[AttemptOutcome::Status(503), AttemptOutcome::Status(503), AttemptOutcome::Status(200)]), (3, SubmitStep::Accepted));
    assert_eq!(run(&[AttemptOutcome::Status(503), AttemptOutcome::Status(503), AttemptOutcome::Status(503)]), (3, SubmitStep::Rejected));
    assert_eq!(run(&[AttemptOutcome::TransportFailed, AttemptOutcome::TransportFailed, AttemptOutcome::TransportFailed]), (3, SubmitStep::Failed));
    assert_eq!(run(&[AttemptOutcome::Status(400), AttemptOutcome::Status(200), AttemptOutcome::Status(200)]), (1, SubmitStep::Rejected));
    assert_eq!(run(&[AttemptOutcome::TransportFailed, AttemptOutcome::Status(201), AttemptOutcome::Status(200)]), (2, SubmitStep::Accepted));
}

#[test]
fn agent_errors_keep_a_single_line_of_at_most_512_characters() {
    match agent_error(503, "busy\r\nretry later") {
        Error::Agent { status, message } => {
            assert_eq!(status, 503);
            assert_eq!(message, "busy  retry later");
        }
        other => panic!("unexpected {:?}", other),
    }
    match agent_error(400, &"é".repeat(700)) {
        Error::Agent { status, message } => {
            assert_eq!(status, 400);
            assert_eq!(message, "é".repeat(512));
        }
        other => panic!("unexpected {:?}", other),
    }
    assert!(matches!(agent_error(500, ""), Error::Agent { status: 500, message } if message.is_empty()));
}

#[test]
fn error_messages() {
    assert_eq!(
        agent_error(503, "busy").message(),
        "Agent rejected the request with HTTP 503: busy"
    );
    assert_eq!(
        Error::Agent { status: 0, message: String::new() }.message(),
        "Agent rejected the request with HTTP 0: "
    );
    assert_eq!(
        Error::Agent { status: 65535, message: "m".to_string() }.message(),
        "Agent rejected the request with HTTP 65535: m"
    );
    assert_eq!(
        Error::InvalidDescriptor("x".to_string()).message(),
        "runtime descriptor is invalid: x"
    );
    assert_eq!(
        Error::CapabilityDenied("c".to_string()).message(),
        "runtime capability is not granted: c"
    );
    assert_eq!(
        Error::InvalidCredential("token is empty".to_string()).message(),
        "runtime credential is invalid: token is empty"
    );
    assert_eq!(
        Error::InvalidEvent("e".to_string()).message(),
        "operation event is invalid: e"
    );
    assert_eq!(seclab_suite_runtime::error::decimal_string(1070), "1070");
}

#[test]
fn a_submission_sends_the_same_event_on_every_attempt() {
    let event = OperationEvent::builder(
        "scan_submitted",
        "提交扫描",
        "Submit scan",
        OperationOutcome::Success,
        OperationImpact::Info,
    )
    .build()
    .unwrap();
    let id = event.event_id.clone();
    let mut submission = Submission::new(event).unwrap();
    assert_eq!(submission.attempts(), 0);
    assert_eq!(submission.record(AttemptOutcome::Status(503)), SubmitStep::Retry { delay_ms: 100 });
    assert_eq!(submission.event().event_id, id);
    assert_eq!(submission.record(AttemptOutcome::TransportFailed), SubmitStep::Retry { delay_ms: 200 });
    assert_eq!(submission.event().event_id, id);
    assert_eq!(submission.record(AttemptOutcome::Status(200)), SubmitStep::Accepted);
    assert_eq!(submission.attempts(), 3);
    assert_eq!(submission.event().event_id, id);

    let mut invalid = OperationEvent::builder(
        "scan_submitted",
        "提交扫描",
        "Submit scan",
        OperationOutcome::Success,
        OperationImpact::Info,
    )
    .build()
    .unwrap();
    invalid.event_code = "Bad".to_string();
    assert!(matches!(
        Submission::new(invalid),
        Err(Error::InvalidEvent(m)) if m == "eventCode must use lower snake case"
    ));
}
