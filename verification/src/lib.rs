//! SecLab suite runtime SDK, verified core.
//!
//! A suite backend reads the runtime descriptor that the Agent injects,
//! checks the capabilities and identity of its instance, talks to the Agent
//! over a Unix socket or mutual-TLS HTTPS with its instance token, manages
//! named multi-endpoint workloads with whole-workload traffic capture, and
//! submits semantic operation events. This crate holds the data model and
//! every decision of that SDK, with their contracts; the asynchronous
//! transport around it lives outside.
pub mod client;
pub mod descriptor;
pub mod error;
pub mod operation_logs;
pub mod text;
pub mod types;
pub mod workloads;

pub use client::{
    agent_error, authorize_descriptor, instance_token, request_url, status_is_client_error,
    status_is_success, submit_step, AttemptOutcome, SubmitStep, Submission, DEFAULT_RUNTIME_PATH, MAX_ATTEMPTS,
    OPERATION_EVENT_PATH,
};
pub use descriptor::{RuntimeCredential, RuntimeDescriptor, RuntimeEndpoint};
pub use error::{Error, Result};
pub use operation_logs::{
    operation_context_from_header, redact_error, sensitive_key, OperationEvent,
    OperationEventBuilder, OperationEventLabel, OPERATION_CONTEXT_HEADER,
};
pub use types::{OperationImpact, OperationOutcome, OperationTarget, ParameterValue, Parameters};
pub use workloads::{
    captures_path, finish_capture_path, workload_path, CaptureEndpoint, StartCaptureResponse,
    StartWorkloadResponse, WorkloadPort, WorkloadResources, WorkloadSummary, WorkloadTransport,
    WORKLOADS_PATH,
};
