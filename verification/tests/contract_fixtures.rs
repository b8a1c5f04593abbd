use seclab_suite_runtime::{
    OperationEvent, OperationImpact, OperationOutcome, RuntimeCredential, RuntimeDescriptor,
    RuntimeEndpoint,
};
use serde_json::Value;

const UDS_VALID: &str = r#"{
  "schemaVersion": 1,
  "platformVersion": "0.1.0-alpha.3",
  "suiteId": "seclab.host-scanner",
  "instanceId": "instance-1",
  "endpoint": {"kind": "unix", "socketPath": "/run/seclab-agent/agent.sock", "baseUrl": "http://local"},
  "credential": {"tokenPath": "/run/seclab-agent/token"},
  "capabilities": ["operation-logs.write"]
}"#;

const HTTPS_VALID: &str = r#"{
  "schemaVersion": 1,
  "platformVersion": "0.1.0-alpha.3",
  "suiteId": "seclab.packet",
  "instanceId": "instance-1",
  "endpoint": {"kind": "https", "baseUrl": "https://agent.local:8443", "caPath": "/etc/seclab/ca.pem",
               "clientCertPath": "/etc/seclab/client.pem", "clientKeyPath": "/etc/seclab/client.key"},
  "credential": {"tokenPath": "/run/seclab-agent/token"},
  "capabilities": ["captures.manage"]
}"#;

const SUCCESS_EVENT: &str = r#"{
  "eventId": "01890a5d-ac96-774b-bcce-b302099a8057",
  "operationContextId": "context-1",
  "eventCode": "scan_submitted",
  "eventLabel": {"zhCn": "提交扫描", "enUs": "Submit scan"},
  "outcome": "success",
  "impact": "info",
  "parameters": {}
}"#;

fn text(value: &Value, key: &str) -> String {
    value[key].as_str().unwrap().to_string()
}

fn descriptor_from_json(json: &str) -> RuntimeDescriptor {
    let value: Value = serde_json::from_str(json).unwrap();
    let endpoint = &value["endpoint"];
    let endpoint = match endpoint["kind"].as_str().unwrap() {
        "unix" => RuntimeEndpoint::Unix {
            socket_path: text(endpoint, "socketPath"),
            base_url: text(endpoint, "baseUrl"),
        },
        "https" => RuntimeEndpoint::Https {
            base_url: text(endpoint, "baseUrl"),
            ca_path: text(endpoint, "caPath"),
            client_cert_path: text(endpoint, "clientCertPath"),
            client_key_path: text(endpoint, "clientKeyPath"),
        },
        other => panic!("unknown endpoint kind {other}"),
    };
    RuntimeDescriptor {
        schema_version: value["schemaVersion"].as_u64().unwrap() as u32,
        platform_version: text(&value, "platformVersion"),
        suite_id: text(&value, "suiteId"),
        instance_id: text(&value, "instanceId"),
        endpoint,
        credential: RuntimeCredential { token_path: text(&value["credential"], "tokenPath") },
        capabilities: value["capabilities"]
            .as_array()
            .unwrap()
            .iter()
            .map(|c| c.as_str().unwrap().to_string())
            .collect(),
    }
}

#[test]
fn shared_fixtures_match_rust_types() {
    let descriptor = descriptor_from_json(UDS_VALID);
    assert_eq!(descriptor.schema_version, 1);
    assert!(
        descriptor
            .require_identity("seclab.host-scanner", "instance-1")
            .is_ok()
    );
    assert!(
        descriptor
            .require_identity("seclab.packet", "instance-1")
            .is_err()
    );
    let https = descriptor_from_json(HTTPS_VALID);
    assert_eq!(https.suite_id, "seclab.packet");

    let value: Value = serde_json::from_str(SUCCESS_EVENT).unwrap();
    let mut event = OperationEvent::builder(
        value["eventCode"].as_str().unwrap(),
        value["eventLabel"]["zhCn"].as_str().unwrap(),
        value["eventLabel"]["enUs"].as_str().unwrap(),
        OperationOutcome::Success,
        OperationImpact::Info,
    )
    .operation_context_id(value["operationContextId"].as_str().unwrap())
    .build()
    .unwrap();
    event.event_id = text(&value, "eventId");
    assert_eq!(event.event_code, "scan_submitted");
    assert!(event.validate().is_ok());
    assert!(descriptor.validate().is_ok());
    assert!(https.validate().is_ok());
}
