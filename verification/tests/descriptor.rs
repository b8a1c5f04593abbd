use seclab_suite_runtime::{
    authorize_descriptor, instance_token, Error, RuntimeCredential, RuntimeDescriptor,
    RuntimeEndpoint,
};

fn descriptor(capabilities: &[&str]) -> RuntimeDescriptor {
    RuntimeDescriptor {
        schema_version: 1,
        platform_version: "0.1.0-alpha.3".to_string(),
        suite_id: "seclab.host-scanner".to_string(),
        instance_id: "instance-1".to_string(),
        endpoint: RuntimeEndpoint::Unix {
            socket_path: "/run/seclab-agent/agent.sock".to_string(),
            base_url: "http://local".to_string(),
        },
        credential: RuntimeCredential { token_path: "/run/seclab-agent/token".to_string() },
        capabilities: capabilities.iter().map(|c| c.to_string()).collect(),
    }
}

fn descriptor_message(result: Result<(), Error>) -> String {
    match result {
        Err(Error::InvalidDescriptor(m)) => m,
        other => panic!("unexpected {:?}", other),
    }
}

#[test]
fn valid_descriptor_passes() {
    assert!(descriptor(&["operation-logs.write"]).validate().is_ok());
    assert!(descriptor(&[]).validate().is_ok());
}

#[test]
fn schema_version_platform_version_and_identity_are_required() {
    let required = "schema version and instance identity are required";
    let mut d = descriptor(&[]);
    d.schema_version = 2;
    assert_eq!(descriptor_message(d.validate()), required);
    let mut d = descriptor(&[]);
    d.platform_version = "0.1".to_string();
    assert_eq!(descriptor_message(d.validate()), required);
    let mut d = descriptor(&[]);
    d.platform_version = "v1.0.0".to_string();
    assert_eq!(descriptor_message(d.validate()), required);
    let mut d = descriptor(&[]);
    d.suite_id = String::new();
    assert_eq!(descriptor_message(d.validate()), required);
    let mut d = descriptor(&[]);
    d.instance_id = String::new();
    assert_eq!(descriptor_message(d.validate()), required);
    // The SemVer answer is what decides.
    let d = descriptor(&[]);
    assert_eq!(descriptor_message(d.validate_with(false)), required);
    assert!(d.validate_with(true).is_ok());
}

#[test]
fn blank_capabilities_are_rejected() {
    let d = descriptor(&["workloads.manage", " \t"]);
    assert_eq!(descriptor_message(d.validate()), "capabilities must not contain empty values");
    let d = descriptor(&[""]);
    assert_eq!(descriptor_message(d.validate()), "capabilities must not contain empty values");
}

#[test]
fn capabilities_must_be_granted() {
    let d = descriptor(&["workloads.manage", "captures.manage"]);
    assert!(d.require_capability("captures.manage").is_ok());
    assert!(matches!(
        d.require_capability("operation-logs.write"),
        Err(Error::CapabilityDenied(c)) if c == "operation-logs.write"
    ));
    assert!(matches!(d.require_capability("workloads"), Err(Error::CapabilityDenied(_))));
}

#[test]
fn identity_must_match() {
    let d = descriptor(&[]);
    assert!(d.require_identity("seclab.host-scanner", "instance-1").is_ok());
    assert_eq!(
        descriptor_message(d.require_identity("seclab.packet", "instance-1")),
        "runtime descriptor identity does not match suite instance"
    );
    assert!(d.require_identity("seclab.host-scanner", "instance-2").is_err());
}

#[test]
fn authorization_checks_identity_then_capability() {
    let d = descriptor(&["operation-logs.write"]);
    assert!(authorize_descriptor(&d, None, None, "operation-logs.write").is_ok());
    // A declared identity counts only where both ids are declared.
    assert!(authorize_descriptor(&d, Some("other"), None, "operation-logs.write").is_ok());
    assert!(authorize_descriptor(&d, Some("seclab.host-scanner"), Some("instance-1"), "operation-logs.write").is_ok());
    assert!(matches!(
        authorize_descriptor(&d, Some("other"), Some("instance-1"), "missing"),
        Err(Error::InvalidDescriptor(_))
    ));
    assert!(matches!(
        authorize_descriptor(&d, None, None, "missing"),
        Err(Error::CapabilityDenied(c)) if c == "missing"
    ));
}

#[test]
fn instance_token_is_trimmed_and_required() {
    assert_eq!(instance_token("trusted-token\n").unwrap(), "trusted-token");
    assert_eq!(instance_token("  a b  ").unwrap(), "a b");
    assert!(matches!(
        instance_token(" \n\t"),
        Err(Error::InvalidCredential(m)) if m == "token is empty"
    ));
    assert!(matches!(instance_token(""), Err(Error::InvalidCredential(_))));
}
