use seclab_suite_runtime::{
    operation_context_from_header, redact_error, sensitive_key, Error, OperationEvent,
    OperationEventLabel, OperationImpact, OperationOutcome, OperationTarget, ParameterValue,
    Parameters,
};

fn scan_builder() -> seclab_suite_runtime::OperationEventBuilder {
    OperationEvent::builder(
        "scan_submitted",
        "提交扫描",
        "Submit scan",
        OperationOutcome::Success,
        OperationImpact::Info,
    )
}

fn invalid_event_message(result: Result<OperationEvent, Error>) -> String {
    match result {
        Err(Error::InvalidEvent(message)) => message,
        Err(other) => panic!("unexpected error {:?}", other),
        Ok(_) => panic!("event was accepted"),
    }
}

fn event_with_id(event_id: &str) -> OperationEvent {
    let mut event = scan_builder().build().unwrap();
    event.event_id = event_id.to_string();
    event
}

#[test]
fn rejects_sensitive_parameters() {
    let result = OperationEvent::builder(
        "scan_submitted",
        "提交扫描",
        "Submit scan",
        OperationOutcome::Success,
        OperationImpact::Info,
    )
    .parameter("accessToken", ParameterValue::String("secret".to_string()))
    .build();
    assert!(result.is_err());
}

#[test]
fn operation_context_is_copied_from_trusted_proxy_header() {
    let context = operation_context_from_header(Some(" context-1 ")).unwrap();
    let event = OperationEvent::builder(
        "scan_submitted",
        "提交扫描",
        "Submit scan",
        OperationOutcome::Success,
        OperationImpact::Info,
    )
    .operation_context_id(&context)
    .build()
    .unwrap();
    assert_eq!(event.operation_context_id.as_deref(), Some("context-1"));
}

#[test]
fn header_context_edge_cases() {
    assert_eq!(operation_context_from_header(None), None);
    assert_eq!(operation_context_from_header(Some("   \t ")), None);
    assert_eq!(operation_context_from_header(Some("")), None);
    let longest = "a".repeat(128);
    assert_eq!(
        operation_context_from_header(Some(&format!("  {longest}\n"))),
        Some(longest.clone())
    );
    assert_eq!(operation_context_from_header(Some(&"a".repeat(129))), None);
    // 43 three-byte characters are 129 bytes: too long, though only 43 characters.
    assert_eq!(operation_context_from_header(Some(&"扫".repeat(43))), None);
    assert_eq!(
        operation_context_from_header(Some(&"扫".repeat(42))),
        Some("扫".repeat(42))
    );
    assert_eq!(
        operation_context_from_header(Some("\u{3000}ctx\u{a0}")),
        Some("ctx".to_string())
    );
}

#[test]
fn header_context_is_accepted_by_validation() {
    for header in [" context-1 ", "x", "\u{2003}y z\u{2029}", &"é".repeat(64)] {
        let context = operation_context_from_header(Some(header)).unwrap();
        assert!(scan_builder().operation_context_id(&context).build().is_ok());
    }
}

#[test]
fn builder_gives_a_fresh_uuid_v7() {
    let first = scan_builder().build().unwrap();
    let second = scan_builder().build().unwrap();
    let id = uuid::Uuid::parse_str(&first.event_id).unwrap();
    assert_eq!(id.get_version_num(), 7);
    assert_ne!(first.event_id, second.event_id);
    assert_eq!(first.event_code, "scan_submitted");
    assert_eq!(first.event_label.zh_cn, "提交扫描");
    assert_eq!(first.event_label.en_us, "Submit scan");
    assert!(first.operation_context_id.is_none());
    assert!(first.target.is_none());
    assert!(first.task_id.is_none());
    assert_eq!(first.parameters.len(), 0);
    assert!(first.error_code.is_none());
    assert!(first.error_summary.is_none());
}

#[test]
fn event_id_must_be_a_uuid_v7() {
    let v4 = "550e8400-e29b-41d4-a716-446655440000";
    assert!(matches!(
        event_with_id(v4).validate(),
        Err(Error::InvalidEvent(m)) if m == "eventId must be a UUIDv7"
    ));
    let garbage = event_with_id("not-a-uuid");
    assert!(matches!(
        garbage.validate(),
        Err(Error::InvalidEvent(m)) if m == "eventId must be a UUIDv7"
    ));
    // The simple (unhyphenated) form of a version 7 UUID is accepted as well.
    let simple = uuid::Uuid::now_v7().simple().to_string();
    assert!(event_with_id(&simple).validate().is_ok());
    // The bytes of a parsed id decide: the version nibble must be 7.
    let event = scan_builder().build().unwrap();
    let mut bytes = *uuid::Uuid::parse_str(&event.event_id).unwrap().as_bytes();
    assert!(event.validate_parsed(Some(bytes)).is_ok());
    bytes[6] = 0x4f;
    assert!(matches!(event.validate_parsed(Some(bytes)), Err(Error::InvalidEvent(_))));
    assert!(matches!(event.validate_parsed(None), Err(Error::InvalidEvent(_))));
}

#[test]
fn context_id_constraints() {
    assert_eq!(
        invalid_event_message(scan_builder().operation_context_id("  ").build()),
        "operationContextId must contain 1 to 128 characters"
    );
    assert_eq!(
        invalid_event_message(scan_builder().operation_context_id(&"b".repeat(129)).build()),
        "operationContextId must contain 1 to 128 characters"
    );
    assert!(scan_builder().operation_context_id(&"b".repeat(128)).build().is_ok());
}

#[test]
fn event_code_constraints() {
    let build = |code: &str| {
        OperationEvent::builder(code, "提交", "Submit", OperationOutcome::Failure, OperationImpact::Error)
            .build()
    };
    for bad in ["ab", "Scan_submitted", "1scan", "scan-submitted", "_scan", "scän_x", &"a".repeat(65)] {
        assert_eq!(invalid_event_message(build(bad)), "eventCode must use lower snake case");
    }
    for good in ["abc", "a_1", "scan_submitted", &"a".repeat(64)] {
        assert!(build(good).is_ok());
    }
}

#[test]
fn label_constraints() {
    let build = |zh: &str, en: &str| {
        OperationEvent::builder("scan_submitted", zh, en, OperationOutcome::Partial, OperationImpact::Warning)
            .build()
    };
    assert_eq!(
        invalid_event_message(build(" ", "Submit")),
        "event labels must contain 1 to 128 characters"
    );
    assert_eq!(
        invalid_event_message(build("提交", &"x".repeat(129))),
        "event labels must contain 1 to 128 characters"
    );
    // 128 characters are accepted even when they take more bytes.
    assert!(build(&"扫".repeat(128), "Submit").is_ok());
}

#[test]
fn parameter_constraints() {
    let mut builder = scan_builder();
    for i in 0..32 {
        builder = builder.parameter(&format!("p{i}"), ParameterValue::Boolean(true));
    }
    let accepted = builder.build().unwrap();
    assert_eq!(accepted.parameters.len(), 32);

    let mut builder = scan_builder();
    for i in 0..33 {
        builder = builder.parameter(&format!("p{i}"), ParameterValue::Boolean(true));
    }
    assert_eq!(
        invalid_event_message(builder.build()),
        "operation parameters contain unsupported fields"
    );

    for key in ["PASSWORD", "x-Authorization", "clientSecret", "Cookie", "shellCommand", "ENVIRONMENT_VARS", "apiToken"] {
        assert_eq!(
            invalid_event_message(scan_builder().parameter(key, ParameterValue::Number(1.5f64.to_bits())).build()),
            "operation parameters contain unsupported fields"
        );
    }
}

#[test]
fn sensitive_key_examples() {
    assert!(sensitive_key("accessToken"));
    assert!(sensitive_key("PassWord_hint"));
    assert!(sensitive_key("environment"));
    assert!(!sensitive_key("target_host"));
    assert!(!sensitive_key("tok"));
    assert!(!sensitive_key("pass word"));
    assert!(!sensitive_key(""));
}

#[test]
fn parameter_insert_replaces_existing_key() {
    let event = scan_builder()
        .parameter("port", ParameterValue::Number(80f64.to_bits()))
        .parameter("host", ParameterValue::String("a".to_string()))
        .parameter("port", ParameterValue::Number(443f64.to_bits()))
        .build()
        .unwrap();
    let entries = event.parameters.entries();
    assert_eq!(entries.len(), 2);
    assert_eq!(entries[0].0, "host");
    assert_eq!(entries[1].0, "port");
    assert!(matches!(entries[1].1, ParameterValue::Number(bits) if f64::from_bits(bits) == 443.0));

    let mut params = Parameters::new();
    params.insert("k".to_string(), ParameterValue::Boolean(false));
    params.insert("k".to_string(), ParameterValue::Boolean(true));
    assert_eq!(params.len(), 1);
    let copy = params.clone();
    assert_eq!(copy.entries()[0].0, "k");
    assert!(matches!(copy.entries()[0].1, ParameterValue::Boolean(true)));
}

#[test]
fn parameters_are_kept_in_key_order() {
    let keys = ["b", "a", "é", "Z", "aa", "😀", "ä", "a_b", "", "B", "zz", "ab"];
    let mut params = Parameters::new();
    let mut reference = std::collections::BTreeMap::new();
    for (i, key) in keys.iter().enumerate() {
        params.insert(key.to_string(), ParameterValue::Boolean(i % 2 == 0));
        reference.insert(key.to_string(), i % 2 == 0);
    }
    params.insert("a".to_string(), ParameterValue::Boolean(true));
    reference.insert("a".to_string(), true);
    let ours: Vec<(String, bool)> = params
        .entries()
        .iter()
        .map(|(k, v)| (k.clone(), matches!(v, ParameterValue::Boolean(true))))
        .collect();
    let expected: Vec<(String, bool)> = reference.into_iter().collect();
    assert_eq!(ours, expected);
}

#[test]
fn builder_id_is_hyphenated_lower_case_v7_text() {
    for _ in 0..20 {
        let id = scan_builder().build().unwrap().event_id;
        let chars: Vec<char> = id.chars().collect();
        assert_eq!(chars.len(), 36);
        for (i, c) in chars.iter().enumerate() {
            if [8, 13, 18, 23].contains(&i) {
                assert_eq!(*c, '-');
            } else {
                assert!(c.is_ascii_digit() || ('a'..='f').contains(c), "{id}");
            }
        }
        assert_eq!(chars[14], '7');
        assert_eq!(id, uuid::Uuid::parse_str(&id).unwrap().hyphenated().to_string());
    }
}

#[test]
fn target_and_task_are_set() {
    let event = scan_builder()
        .target(OperationTarget {
            kind: "host".to_string(),
            id: "h-1".to_string(),
            display_name: Some("Host".to_string()),
            ownership: None,
        })
        .task_id("task-9")
        .build()
        .unwrap();
    assert_eq!(event.target.unwrap().id, "h-1");
    assert_eq!(event.task_id.as_deref(), Some("task-9"));
}

#[test]
fn error_code_and_summary_are_cut_and_redacted() {
    let code = "e".repeat(200);
    let event = scan_builder()
        .error(&code, "connect failed:\r\nAuthorization: bearer abc.def")
        .build()
        .unwrap();
    assert_eq!(event.error_code.as_deref(), Some("e".repeat(128).as_str()));
    assert_eq!(
        event.error_summary.as_deref(),
        Some("connect failed:  Authorization: [REDACTED]")
    );
}

#[test]
fn redaction_examples() {
    assert_eq!(redact_error("plain message"), "plain message");
    assert_eq!(redact_error("line1\nline2\rline3"), "line1 line2 line3");
    assert_eq!(redact_error("url?TOKEN=abc&x=1"), "url?[REDACTED]");
    assert_eq!(redact_error("user=a password=b token=c"), "user=a [REDACTED]");
    assert_eq!(redact_error("Bearer x token=y"), "[REDACTED]");
    assert_eq!(redact_error("password=p then Bearer q"), "[REDACTED]");
    let long = "z".repeat(600);
    assert_eq!(redact_error(&long), "z".repeat(512));
    assert_eq!(redact_error(&format!("{}token=1", "y".repeat(600))), "y".repeat(512));
    assert_eq!(redact_error("扫描失败"), "扫描失败");
}

#[test]
fn redacted_summaries_hold_no_marker() {
    let inputs = [
        "a Bearer b",
        "TOKEN=1 token=2 Token=3",
        "x\npassword=\rBEARER y",
        "bearer\ttab is not a marker",
        &"w ".repeat(400),
    ];
    for input in inputs {
        let out = redact_error(input);
        let lower = out.to_ascii_lowercase();
        assert!(out.chars().count() <= 512);
        assert!(!out.contains('\r') && !out.contains('\n'));
        for marker in ["bearer ", "token=", "password="] {
            assert!(!lower.contains(marker), "{out}");
        }
    }
}

#[test]
fn labels_are_kept() {
    let label = OperationEventLabel { zh_cn: "甲".to_string(), en_us: "A".to_string() };
    let mut event = scan_builder().build().unwrap();
    event.event_label = label.clone();
    assert!(event.validate().is_ok());
    assert_eq!(event.event_label.zh_cn, "甲");
}
