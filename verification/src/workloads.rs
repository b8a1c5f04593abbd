//! Controlled workloads of a suite and their traffic captures: wire data and
//! the Agent routes that address them.
use vstd::prelude::*;

verus! {

/// Route of the workload collection of the Agent API.
pub const WORKLOADS_PATH: &'static str = "/api/v1/agent/suite-runtime/workloads";

/// Transport protocol of a workload endpoint.
#[derive(Debug, Clone, Copy, PartialEq, Eq, Hash, Structural)]
pub enum WorkloadTransport {
    Tcp,
    Udp,
}

/// The wire name of a transport.
pub open spec fn transport_name(t: WorkloadTransport) -> Seq<char> {
    match t {
        WorkloadTransport::Tcp => "tcp"@,
        WorkloadTransport::Udp => "udp"@,
    }
}

impl WorkloadTransport {
    /// The wire name: `tcp` or `udp`.
    pub fn as_str(self) -> (r: &'static str)
        ensures
            r@ == transport_name(self),
    {
        match self {
            WorkloadTransport::Tcp => "tcp",
            WorkloadTransport::Udp => "udp",
        }
    }
}

/// A named endpoint that a workload exposes.
#[derive(Debug, Clone, PartialEq, Eq)]
pub struct WorkloadPort {
    pub endpoint_id: String,
    pub host_port: u16,
    pub container_port: u16,
    pub protocol: WorkloadTransport,
}

/// Resource limits of a workload.
#[derive(Debug, Clone)]
pub struct WorkloadResources {
    pub memory_mb: Option<u32>,
    pub cpu_shares: Option<u32>,
}

impl Default for WorkloadResources {
    /// No limits.
    fn default() -> (r: WorkloadResources)
        ensures
            r.memory_mb is None,
            r.cpu_shares is None,
    {
        WorkloadResources { memory_mb: None, cpu_shares: None }
    }
}

/// The Agent's answer to a workload start.
#[derive(Debug, Clone)]
pub struct StartWorkloadResponse {
    pub workload_id: String,
    pub container_id: String,
    pub status: String,
}

/// A workload of the current suite instance.
#[derive(Debug, Clone)]
pub struct WorkloadSummary {
    pub workload_id: String,
    pub suite_id: String,
    pub suite_instance_id: String,
    pub workload_kind: String,
    pub name: String,
    pub image: String,
    pub status: String,
    pub container_id: String,
}

/// A workload endpoint that a capture covers.
#[derive(Debug, Clone, PartialEq, Eq)]
pub struct CaptureEndpoint {
    pub endpoint_id: String,
    pub host_port: u16,
    pub protocol: WorkloadTransport,
}

/// The Agent's answer to a capture start.
#[derive(Debug, Clone)]
pub struct StartCaptureResponse {
    pub capture_id: String,
    pub status: String,
    pub endpoints: Vec<CaptureEndpoint>,
}

/// Route of one workload.
pub open spec fn workload_route(workload_id: Seq<char>) -> Seq<char> {
    WORKLOADS_PATH@ + "/"@ + workload_id
}

/// Route of the captures of one workload.
pub open spec fn captures_route(workload_id: Seq<char>) -> Seq<char> {
    workload_route(workload_id) + "/captures"@
}

/// Route that finishes one capture of one workload.
pub open spec fn finish_capture_route(workload_id: Seq<char>, capture_id: Seq<char>) -> Seq<
    char,
> {
    captures_route(workload_id) + "/"@ + capture_id + "/finish"@
}

/// The route of one workload (its deletion).
pub fn workload_path(workload_id: &str) -> (r: String)
    ensures
        r@ == workload_route(workload_id@),
{
    let mut r = WORKLOADS_PATH.to_owned();
    r.append("/");
    r.append(workload_id);
    r
}

/// The route that starts a capture on every endpoint of a workload.
pub fn captures_path(workload_id: &str) -> (r: String)
    ensures
        r@ == captures_route(workload_id@),
{
    let mut r = workload_path(workload_id);
    r.append("/captures");
    r
}

/// The route that stops a capture and hands back its PCAP bytes.
pub fn finish_capture_path(workload_id: &str, capture_id: &str) -> (r: String)
    ensures
        r@ == finish_capture_route(workload_id@, capture_id@),
{
    let mut r = captures_path(workload_id);
    r.append("/");
    r.append(capture_id);
    r.append("/finish");
    r
}

} // verus!
