//! A read-only request engine for Opto Sync artifacts: validation of JSON documents,
//! policy traces and Cargo lock files, deterministic replay of policy traces, and
//! redacted inspection of JSON shape, each answered with a bounded, versioned JSON
//! response.
pub mod bytes;
pub mod error;
pub mod input;
pub mod json;
pub mod laws;
pub mod lock;
pub mod request;
pub mod text;
pub mod traces;

pub use error::CliError;
pub use input::InputPolicy;
pub use json::{inspect_json, is_sensitive_key, parse_json, JsonMember, JsonShape, JsonValue};
pub use lock::{validate_cargo_lock, CargoLock, LockPackage, LockReport};
pub use request::{
    execute, render_failure, Artifact, Cli, Command, ValidationKind, INTERFACES_REVISION,
    OUTPUT_SCHEMA, POLICY_REVISION,
};
pub use traces::{replay_traces, ReplaySummary, Trace, TraceSet};
