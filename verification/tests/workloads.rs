use seclab_suite_runtime::{
    captures_path, finish_capture_path, workload_path, CaptureEndpoint, StartCaptureResponse,
    WorkloadPort, WorkloadResources, WorkloadTransport, WORKLOADS_PATH,
};

#[test]
fn transports_have_wire_names() {
    assert_eq!(WorkloadTransport::Tcp.as_str(), "tcp");
    assert_eq!(WorkloadTransport::Udp.as_str(), "udp");
    assert_ne!(WorkloadTransport::Tcp, WorkloadTransport::Udp);
}

#[test]
fn workload_routes() {
    assert_eq!(WORKLOADS_PATH, "/api/v1/agent/suite-runtime/workloads");
    assert_eq!(workload_path("workload-1"), "/api/v1/agent/suite-runtime/workloads/workload-1");
    assert_eq!(
        captures_path("workload-1"),
        "/api/v1/agent/suite-runtime/workloads/workload-1/captures"
    );
    assert_eq!(
        finish_capture_path("workload-1", "capture-1"),
        "/api/v1/agent/suite-runtime/workloads/workload-1/captures/capture-1/finish"
    );
}

#[test]
fn workload_values() {
    let resources = WorkloadResources::default();
    assert!(resources.memory_mb.is_none() && resources.cpu_shares.is_none());
    let port = WorkloadPort {
        endpoint_id: "dns-tcp".to_string(),
        host_port: 1053,
        container_port: 53,
        protocol: WorkloadTransport::Tcp,
    };
    assert_eq!(port.clone(), port);
    let capture = StartCaptureResponse {
        capture_id: "capture-1".to_string(),
        status: "capturing".to_string(),
        endpoints: vec![CaptureEndpoint {
            endpoint_id: "dns-udp".to_string(),
            host_port: 1053,
            protocol: WorkloadTransport::Udp,
        }],
    };
    assert_eq!(capture.endpoints[0].protocol, WorkloadTransport::Udp);
}
