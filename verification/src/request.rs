use vstd::prelude::*;
use vstd::utf8::encode_utf8;

use crate::error::CliError;
use crate::json::{inspect_json, value_tally, JsonShape, JsonValue, Tally, MAX_JSON_NODES};
use crate::lock::{
    engine_count, pinned_count, unpinned_count, validate_cargo_lock, CargoLock, LockReport,
    MAX_LOCK_PACKAGES,
};
use crate::text::{decimal_text, json_string_text, push_json_string, push_number};
use crate::traces::{replay_result, replay_traces, ReplaySummary, TraceSet, TRACE_SCHEMA};

verus! {

pub const OUTPUT_SCHEMA: &'static str = "opto-sync.cli.output.v1";

pub const INTERFACES_REVISION: &'static str = "b92b3a2eb43eeb183144521a188ae465a013951e";

pub const POLICY_REVISION: &'static str = "f2ea017328aff58401d38a6d36480c45b39d3c15";

/// The kind of artifact that `validate` checks.
#[derive(Clone, Copy, Debug, PartialEq, Eq, Structural)]
pub enum ValidationKind {
    Json,
    Traces,
    CargoLock,
}

/// A read-only request.
pub enum Command {
    /// Validate a bounded local artifact without changing it.
    Validate { kind: ValidationKind, input: String },
    /// Deterministically replay bounded policy traces.
    Replay { input: String },
    /// Report redacted JSON shape metrics without echoing keys or values.
    Inspect { input: String },
}

/// A parsed command line: the trust root for input paths, the input and output bounds,
/// and the command.
pub struct Cli {
    pub root: String,
    pub max_input_bytes: u64,
    pub max_output_bytes: u64,
    pub command: Command,
}

/// The input of a command once read and parsed: a JSON document, a trace set with the
/// policy's decisions, or a Cargo lock file.
pub enum Artifact {
    Json(JsonValue),
    Traces(TraceSet),
    CargoLock(CargoLock),
}

impl Command {
    pub open spec fn spec_name(self) -> Seq<char> {
        match self {
            Command::Validate { .. } => "validate"@,
            Command::Replay { .. } => "replay"@,
            Command::Inspect { .. } => "inspect"@,
        }
    }

    /// The command's name as it appears in responses.
    pub fn name(&self) -> (name: &'static str)
        ensures
            name@ == self.spec_name(),
    {
        match self {
            Command::Validate { .. } => "validate",
            Command::Replay { .. } => "replay",
            Command::Inspect { .. } => "inspect",
        }
    }
}

/// The JSON object of shape metrics, with its keys in sorted order.
pub open spec fn shape_text(t: Tally) -> Seq<char> {
    "{\"arrays\":"@ + decimal_text(t.arrays) + ",\"maximumDepth\":"@ + decimal_text(t.depth)
        + ",\"nodes\":"@ + decimal_text(t.nodes) + ",\"objects\":"@ + decimal_text(t.objects)
        + ",\"scalarValues\":"@ + decimal_text(t.scalars) + ",\"sensitiveKeyCount\":"@
        + decimal_text(t.sensitive) + "}"@
}

/// The data of `validate --kind json`.
pub open spec fn json_data_text(t: Tally) -> Seq<char> {
    "{\"kind\":\"json\",\"shape\":"@ + shape_text(t) + "}"@
}

/// The data of `inspect`.
pub open spec fn inspect_data_text(t: Tally) -> Seq<char> {
    "{\"redacted\":true,\"shape\":"@ + shape_text(t) + "}"@
}

/// The data of a replay.
pub open spec fn traces_data_text(traces: nat, events: nat) -> Seq<char> {
    "{\"deterministic\":true,\"eventCount\":"@ + decimal_text(events)
        + ",\"kind\":\"traces\",\"schema\":\""@ + TRACE_SCHEMA@ + "\",\"traceCount\":"@
        + decimal_text(traces) + "}"@
}

/// The data of `validate --kind cargo-lock`.
pub open spec fn lock_data_text(version: nat, packages: nat, engines: nat, pinned: nat) -> Seq<
    char,
> {
    "{\"enginePackageCount\":"@ + decimal_text(engines) + ",\"engineUnique\":true,\"formatVersion\":"@
        + decimal_text(version) + ",\"kind\":\"cargo_lock\",\"packageCount\":"@ + decimal_text(
        packages,
    ) + ",\"pinnedGitSourceCount\":"@ + decimal_text(pinned) + ",\"unpinnedGitSourceCount\":0}"@
}

/// The versioned envelope of a successful response: the output schema, the command,
/// the interfaces and policy revisions, and the command's data.
pub open spec fn success_text(command: Seq<char>, data: Seq<char>) -> Seq<char> {
    "{\"schema\":\""@ + OUTPUT_SCHEMA@ + "\",\"ok\":true,\"command\":\""@ + command
        + "\",\"interfacesRevision\":\""@ + INTERFACES_REVISION@ + "\",\"policyRevision\":\""@
        + POLICY_REVISION@ + "\",\"data\":"@ + data + "}"@
}

/// The versioned envelope of a failed response.
pub open spec fn failure_text(command: Seq<char>, error: CliError) -> Seq<char> {
    "{\"schema\":\""@ + OUTPUT_SCHEMA@ + "\",\"ok\":false,\"command\":"@ + json_string_text(
        command,
    ) + ",\"error\":{\"code\":\""@ + error.spec_code() + "\",\"message\":\""@
        + error.spec_message() + "\"}}"@
}

/// The inspected shape of a JSON document, or the validation error of one that is too
/// large.
pub open spec fn shape_result(v: JsonValue) -> Result<Tally, CliError> {
    if value_tally(v, 1).nodes <= MAX_JSON_NODES {
        Ok(value_tally(v, 1))
    } else {
        Err(CliError::Validation)
    }
}

pub open spec fn lock_result(lock: CargoLock) -> Result<Seq<char>, CliError> {
    let ps = lock.package@;
    if 3 <= lock.version <= 4 && ps.len() <= MAX_LOCK_PACKAGES && engine_count(ps) <= 1
        && unpinned_count(ps) == 0 {
        Ok(lock_data_text(lock.version as nat, ps.len(), engine_count(ps), pinned_count(ps)))
    } else {
        Err(CliError::Validation)
    }
}

/// The data that `command` reports on `artifact`. An artifact of another kind than the
/// command reads is not a valid input for it.
pub open spec fn response_data(command: Command, artifact: Artifact) -> Result<Seq<char>, CliError> {
    match (command, artifact) {
        (Command::Validate { kind: ValidationKind::Json, .. }, Artifact::Json(v)) => match shape_result(v) {
            Ok(t) => Ok(json_data_text(t)),
            Err(e) => Err(e),
        },
        (Command::Inspect { .. }, Artifact::Json(v)) => match shape_result(v) {
            Ok(t) => Ok(inspect_data_text(t)),
            Err(e) => Err(e),
        },
        (Command::Validate { kind: ValidationKind::Traces, .. }, Artifact::Traces(s)) => match replay_result(s) {
            Ok((traces, events)) => Ok(traces_data_text(traces, events)),
            Err(e) => Err(e),
        },
        (Command::Replay { .. }, Artifact::Traces(s)) => match replay_result(s) {
            Ok((traces, events)) => Ok(traces_data_text(traces, events)),
            Err(e) => Err(e),
        },
        (Command::Validate { kind: ValidationKind::CargoLock, .. }, Artifact::CargoLock(l)) => lock_result(l),
        _ => Err(CliError::Validation),
    }
}

/// The response to `cli` on `artifact`: the versioned envelope around the command's
/// data, refused when its UTF-8 encoding is longer than `max_output_bytes`.
pub open spec fn response(cli: Cli, artifact: Artifact) -> Result<Seq<char>, CliError> {
    match response_data(cli.command, artifact) {
        Ok(data) => {
            let text = success_text(cli.command.spec_name(), data);
            if encode_utf8(text).len() > cli.max_output_bytes {
                Err(CliError::OutputBound)
            } else {
                Ok(text)
            }
        },
        Err(e) => Err(e),
    }
}

fn push_shape(out: &mut String, shape: &JsonShape)
    ensures
        final(out)@ == old(out)@ + shape_text(shape.tally()),
{
    out.append("{\"arrays\":");
    push_number(out, shape.arrays);
    out.append(",\"maximumDepth\":");
    push_number(out, shape.maximum_depth);
    out.append(",\"nodes\":");
    push_number(out, shape.nodes);
    out.append(",\"objects\":");
    push_number(out, shape.objects);
    out.append(",\"scalarValues\":");
    push_number(out, shape.scalar_values);
    out.append(",\"sensitiveKeyCount\":");
    push_number(out, shape.sensitive_key_count);
    out.append("}");
}

fn json_data(shape: &JsonShape, redacted: bool) -> (r: String)
    ensures
        r@ == if redacted { inspect_data_text(shape.tally()) } else { json_data_text(shape.tally()) },
{
    let mut out = String::new();
    if redacted {
        out.append("{\"redacted\":true,\"shape\":");
    } else {
        out.append("{\"kind\":\"json\",\"shape\":");
    }
    push_shape(&mut out, shape);
    out.append("}");
    out
}

fn traces_data(summary: &ReplaySummary) -> (r: String)
    ensures
        r@ == traces_data_text(summary.trace_count as nat, summary.event_count as nat),
{
    let mut out = String::new();
    out.append("{\"deterministic\":true,\"eventCount\":");
    push_number(&mut out, summary.event_count);
    out.append(",\"kind\":\"traces\",\"schema\":\"");
    out.append(TRACE_SCHEMA);
    out.append("\",\"traceCount\":");
    push_number(&mut out, summary.trace_count);
    out.append("}");
    out
}

fn lock_data(report: &LockReport) -> (r: String)
    ensures
        r@ == lock_data_text(
            report.format_version as nat,
            report.package_count as nat,
            report.engine_package_count as nat,
            report.pinned_git_source_count as nat,
        ),
{
    let mut out = String::new();
    out.append("{\"enginePackageCount\":");
    push_number(&mut out, report.engine_package_count);
    out.append(",\"engineUnique\":true,\"formatVersion\":");
    push_number(&mut out, report.format_version as usize);
    out.append(",\"kind\":\"cargo_lock\",\"packageCount\":");
    push_number(&mut out, report.package_count);
    out.append(",\"pinnedGitSourceCount\":");
    push_number(&mut out, report.pinned_git_source_count);
    out.append(",\"unpinnedGitSourceCount\":0}");
    out
}

fn command_data(command: &Command, artifact: &Artifact) -> (r: Result<String, CliError>)
    ensures
        match response_data(*command, *artifact) {
            Ok(data) => r matches Ok(s) && s@ == data,
            Err(e) => r == Err::<String, CliError>(e),
        },
{
    match (command, artifact) {
        (Command::Validate { kind: ValidationKind::Json, .. }, Artifact::Json(v)) => {
            let shape = inspect_json(v)?;
            Ok(json_data(&shape, false))
        },
        (Command::Inspect { .. }, Artifact::Json(v)) => {
            let shape = inspect_json(v)?;
            Ok(json_data(&shape, true))
        },
        (Command::Validate { kind: ValidationKind::Traces, .. }, Artifact::Traces(s)) => {
            let summary = replay_traces(s)?;
            Ok(traces_data(&summary))
        },
        (Command::Replay { .. }, Artifact::Traces(s)) => {
            let summary = replay_traces(s)?;
            Ok(traces_data(&summary))
        },
        (Command::Validate { kind: ValidationKind::CargoLock, .. }, Artifact::CargoLock(l)) => {
            let report = validate_cargo_lock(l)?;
            Ok(lock_data(&report))
        },
        _ => Err(CliError::Validation),
    }
}

/// Answers `cli` on the artifact that its input held: checks or replays the artifact,
/// renders the versioned JSON response, and refuses a response longer than
/// `cli.max_output_bytes`.
pub fn execute(cli: &Cli, artifact: &Artifact) -> (r: Result<String, CliError>)
    ensures
        match response(*cli, *artifact) {
            Ok(text) => r matches Ok(s) && s@ == text,
            Err(e) => r == Err::<String, CliError>(e),
        },
{
    let data = command_data(&cli.command, artifact)?;
    let mut out = String::new();
    out.append("{\"schema\":\"");
    out.append(OUTPUT_SCHEMA);
    out.append("\",\"ok\":true,\"command\":\"");
    out.append(cli.command.name());
    out.append("\",\"interfacesRevision\":\"");
    out.append(INTERFACES_REVISION);
    out.append("\",\"policyRevision\":\"");
    out.append(POLICY_REVISION);
    out.append("\",\"data\":");
    out.append(data.as_str());
    out.append("}");
    let length = out.as_str().as_bytes().len();
    if length as u64 > cli.max_output_bytes {
        return Err(CliError::OutputBound);
    }
    Ok(out)
}

/// Renders the versioned failure envelope for `error` on `command`.
pub fn render_failure(command: &str, error: &CliError) -> (r: String)
    ensures
        r@ == failure_text(command@, *error),
{
    let mut out = String::new();
    out.append("{\"schema\":\"");
    out.append(OUTPUT_SCHEMA);
    out.append("\",\"ok\":false,\"command\":");
    push_json_string(&mut out, command);
    out.append(",\"error\":{\"code\":\"");
    out.append(error.code());
    out.append("\",\"message\":\"");
    out.append(error.message());
    out.append("\"}}");
    out
}

} // verus!
