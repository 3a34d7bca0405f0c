use opto_sync_cli::{
    execute, inspect_json, is_sensitive_key, parse_json, render_failure, replay_traces, validate_cargo_lock,
    Artifact, CargoLock, Cli, CliError, Command, InputPolicy, JsonMember, JsonValue,
    LockPackage, Trace, TraceSet, ValidationKind, INTERFACES_REVISION, OUTPUT_SCHEMA,
    POLICY_REVISION,
};

fn request(command: Command) -> Cli {
    Cli {
        root: String::from("."),
        max_input_bytes: 1_048_576,
        max_output_bytes: 32_768,
        command,
    }
}

fn member(key: &str, value: JsonValue) -> JsonMember {
    JsonMember { key: key.to_string(), value }
}

fn strings(items: &[&str]) -> Vec<String> {
    items.iter().map(|s| s.to_string()).collect()
}

fn trace(name: &str, events: &[&str], states: &[&str], outcomes: &[Option<&str>]) -> Trace {
    Trace {
        name: name.to_string(),
        strategy: "remote_confirmed".to_string(),
        events: strings(events),
        states: strings(states),
        outcomes: outcomes.iter().map(|o| o.map(|s| s.to_string())).collect(),
    }
}

fn trace_set(traces: Vec<Trace>) -> TraceSet {
    TraceSet { schema: "opto-sync.optimism-traces.v1".to_string(), traces }
}

fn package(name: &str, source: Option<&str>) -> LockPackage {
    LockPackage { name: name.to_string(), source: source.map(|s| s.to_string()) }
}

fn components(parts: &[&str]) -> Vec<Vec<u8>> {
    parts.iter().map(|p| p.as_bytes().to_vec()).collect()
}

/// `{"authorization":"Bearer TOP_SECRET","tenantId":"TENANT-42","payload":{"email":"private@example.test"}}`
fn diagnostic_document() -> JsonValue {
    JsonValue::Object(vec![
        member("authorization", JsonValue::Scalar),
        member("payload", JsonValue::Object(vec![member("email", JsonValue::Scalar)])),
        member("tenantId", JsonValue::Scalar),
    ])
}

const PINNED: &str = "git+https://example.test/engine#0123456789abcdef0123456789ABCDEF01234567";

#[test]
fn exit_codes_are_stable() {
    assert_eq!(CliError::Input.exit_code(), 3);
    assert_eq!(CliError::Validation.exit_code(), 4);
    assert_eq!(CliError::Replay.exit_code(), 5);
    assert_eq!(CliError::OutputBound.exit_code(), 6);
    assert_eq!(CliError::Internal.exit_code(), 70);
}

#[test]
fn error_codes_and_messages() {
    assert_eq!(CliError::Input.code(), "input_policy");
    assert_eq!(CliError::Validation.code(), "validation");
    assert_eq!(CliError::Replay.code(), "replay");
    assert_eq!(CliError::OutputBound.code(), "output_bound");
    assert_eq!(CliError::Internal.code(), "internal");
    assert_eq!(CliError::Input.message(), "input rejected by bounded path policy");
    assert_eq!(CliError::Validation.message(), "artifact failed validation");
    assert_eq!(CliError::Replay.message(), "deterministic replay failed");
    assert_eq!(CliError::OutputBound.message(), "response exceeded the configured output bound");
    assert_eq!(CliError::Internal.message(), "internal serialization failed");
}

#[test]
fn command_names() {
    let validate = Command::Validate { kind: ValidationKind::Json, input: "a.json".to_string() };
    assert_eq!(validate.name(), "validate");
    assert_eq!(Command::Replay { input: "t.json".to_string() }.name(), "replay");
    assert_eq!(Command::Inspect { input: "d.json".to_string() }.name(), "inspect");
}

#[test]
fn sensitive_keys_ignore_ascii_case() {
    assert!(is_sensitive_key("authorization"));
    assert!(is_sensitive_key("tenantId"));
    assert!(is_sensitive_key("X-Auth-TOKEN"));
    assert!(is_sensitive_key("userEmail"));
    assert!(is_sensitive_key("Set-Cookie"));
    assert!(is_sensitive_key("resourceOwner"));
    assert!(is_sensitive_key("PAYLOAD"));
    assert!(is_sensitive_key("client_secret"));
    assert!(!is_sensitive_key("name"));
    assert!(!is_sensitive_key(""));
    assert!(!is_sensitive_key("tenan"));
    assert!(!is_sensitive_key("ÉMAIL"));
}

#[test]
fn inspect_counts_shape_metrics() {
    let shape = inspect_json(&diagnostic_document()).expect("small document");
    assert_eq!(shape.nodes, 5);
    assert_eq!(shape.maximum_depth, 3);
    assert_eq!(shape.objects, 2);
    assert_eq!(shape.arrays, 0);
    assert_eq!(shape.scalar_values, 3);
    assert_eq!(shape.sensitive_key_count, 4);

    let nested = JsonValue::Array(vec![
        JsonValue::Scalar,
        JsonValue::Array(vec![JsonValue::Array(vec![]), JsonValue::Scalar]),
        JsonValue::Object(vec![]),
    ]);
    let shape = inspect_json(&nested).expect("small document");
    assert_eq!(shape.nodes, 6);
    assert_eq!(shape.maximum_depth, 3);
    assert_eq!(shape.objects, 1);
    assert_eq!(shape.arrays, 3);
    assert_eq!(shape.scalar_values, 2);
    assert_eq!(shape.sensitive_key_count, 0);
}

#[test]
fn inspect_refuses_documents_over_the_node_limit() {
    let at_limit = JsonValue::Array((0..99_999).map(|_| JsonValue::Scalar).collect());
    assert_eq!(inspect_json(&at_limit).expect("at the limit").nodes, 100_000);
    let over_limit = JsonValue::Array((0..100_000).map(|_| JsonValue::Scalar).collect());
    assert!(matches!(inspect_json(&over_limit), Err(CliError::Validation)));
}

#[test]
fn inspect_never_echoes_secret_or_tenant_content() {
    let document = parse_json(
        br#"{"authorization":"Bearer TOP_SECRET","tenantId":"TENANT-42","payload":{"email":"private@example.test"}}"#,
    )
    .expect("fixture");
    let cli = request(Command::Inspect { input: "diagnostic.json".to_string() });
    let output = execute(&cli, &Artifact::Json(document)).expect("redacted inspection");
    assert!(!output.contains("TOP_SECRET"));
    assert!(!output.contains("TENANT-42"));
    assert!(!output.contains("private@example.test"));
    assert!(output.contains("sensitiveKeyCount"));
}

#[test]
fn inspect_response_is_the_versioned_envelope() {
    let cli = request(Command::Inspect { input: "diagnostic.json".to_string() });
    let output = execute(&cli, &Artifact::Json(diagnostic_document())).expect("inspection");
    let expected = format!(
        "{{\"schema\":\"{}\",\"ok\":true,\"command\":\"inspect\",\"interfacesRevision\":\"{}\",\"policyRevision\":\"{}\",\"data\":{{\"redacted\":true,\"shape\":{{\"arrays\":0,\"maximumDepth\":3,\"nodes\":5,\"objects\":2,\"scalarValues\":3,\"sensitiveKeyCount\":4}}}}}}",
        OUTPUT_SCHEMA, INTERFACES_REVISION, POLICY_REVISION
    );
    assert_eq!(output, expected);
    let value: serde_json::Value = serde_json::from_str(&output).expect("valid JSON");
    assert_eq!(value["schema"], OUTPUT_SCHEMA);
    assert_eq!(value["data"]["shape"]["sensitiveKeyCount"], 4);
}

#[test]
fn validate_json_reports_kind_and_shape() {
    let cli = request(Command::Validate { kind: ValidationKind::Json, input: "a.json".to_string() });
    let items = JsonValue::Array((0..12).map(|_| JsonValue::Scalar).collect());
    let output = execute(&cli, &Artifact::Json(items)).expect("valid document");
    assert!(output.contains(
        "\"command\":\"validate\",\"interfacesRevision\""
    ));
    assert!(output.ends_with(
        "\"data\":{\"kind\":\"json\",\"shape\":{\"arrays\":1,\"maximumDepth\":2,\"nodes\":13,\"objects\":0,\"scalarValues\":12,\"sensitiveKeyCount\":0}}}"
    ));
}

#[test]
fn output_bound_refuses_long_responses() {
    let mut cli = request(Command::Inspect { input: "input.json".to_string() });
    cli.max_output_bytes = 64;
    let empty = JsonValue::Object(vec![]);
    assert!(matches!(execute(&cli, &Artifact::Json(empty)), Err(CliError::OutputBound)));

    let full = request(Command::Inspect { input: "input.json".to_string() });
    let exact = execute(&full, &Artifact::Json(JsonValue::Object(vec![]))).expect("fits");
    let mut tight = request(Command::Inspect { input: "input.json".to_string() });
    tight.max_output_bytes = exact.len() as u64;
    assert!(execute(&tight, &Artifact::Json(JsonValue::Object(vec![]))).is_ok());
    tight.max_output_bytes = exact.len() as u64 - 1;
    assert!(matches!(
        execute(&tight, &Artifact::Json(JsonValue::Object(vec![]))),
        Err(CliError::OutputBound)
    ));
}

#[test]
fn artifact_of_another_kind_is_invalid() {
    let cli = request(Command::Replay { input: "t.json".to_string() });
    assert!(matches!(
        execute(&cli, &Artifact::Json(JsonValue::Scalar)),
        Err(CliError::Validation)
    ));
}

#[test]
fn replay_counts_traces_and_events() {
    let set = trace_set(vec![
        trace(
            "accept",
            &["local_accepted", "remote_confirmed"],
            &["proposed", "pending", "confirmed"],
            &[Some("pending"), Some("confirmed")],
        ),
        trace("reject", &["remote_rejected"], &["proposed", "rejected"], &[Some("rejected")]),
    ]);
    let summary = replay_traces(&set).expect("matching histories");
    assert_eq!(summary.trace_count, 2);
    assert_eq!(summary.event_count, 3);

    let cli = request(Command::Replay { input: "traces.json".to_string() });
    let output = execute(&cli, &Artifact::Traces(set)).expect("replay");
    assert!(output.ends_with(
        "\"data\":{\"deterministic\":true,\"eventCount\":3,\"kind\":\"traces\",\"schema\":\"opto-sync.optimism-traces.v1\",\"traceCount\":2}}"
    ));
}

#[test]
fn replay_refuses_malformed_trace_sets() {
    let good = || trace("t", &["e"], &["proposed", "confirmed"], &[Some("confirmed")]);
    let mut wrong_schema = trace_set(vec![good()]);
    wrong_schema.schema = "opto-sync.optimism-traces.v2".to_string();
    assert!(matches!(replay_traces(&wrong_schema), Err(CliError::Validation)));
    assert!(matches!(replay_traces(&trace_set(vec![])), Err(CliError::Validation)));
    let too_many: Vec<Trace> = (0..129)
        .map(|i| trace(&format!("t{i}"), &["e"], &["proposed", "confirmed"], &[Some("confirmed")]))
        .collect();
    assert!(matches!(replay_traces(&trace_set(too_many)), Err(CliError::Validation)));
    assert!(matches!(replay_traces(&trace_set(vec![good(), good()])), Err(CliError::Validation)));
    let unnamed = trace("", &["e"], &["proposed", "confirmed"], &[Some("confirmed")]);
    assert!(matches!(replay_traces(&trace_set(vec![unnamed])), Err(CliError::Validation)));
    let long_name = trace(&"n".repeat(129), &["e"], &["proposed", "confirmed"], &[Some("confirmed")]);
    assert!(matches!(replay_traces(&trace_set(vec![long_name])), Err(CliError::Validation)));
    let name_128 = trace(&"n".repeat(128), &["e"], &["proposed", "confirmed"], &[Some("confirmed")]);
    assert!(replay_traces(&trace_set(vec![name_128])).is_ok());
    let no_events = trace("t", &[], &["proposed"], &[]);
    assert!(matches!(replay_traces(&trace_set(vec![no_events])), Err(CliError::Validation)));
    let short_states = trace("t", &["e"], &["proposed"], &[Some("confirmed")]);
    assert!(matches!(replay_traces(&trace_set(vec![short_states])), Err(CliError::Validation)));
    let bad_start = trace("t", &["e"], &["pending", "confirmed"], &[Some("confirmed")]);
    assert!(matches!(replay_traces(&trace_set(vec![bad_start])), Err(CliError::Validation)));
}

#[test]
fn replay_reports_the_first_failing_trace() {
    let diverging = trace("a", &["e"], &["proposed", "confirmed"], &[Some("pending")]);
    let malformed = trace("b", &["e"], &["pending", "confirmed"], &[Some("confirmed")]);
    let set = trace_set(vec![diverging, malformed]);
    assert!(matches!(replay_traces(&set), Err(CliError::Replay)));
    let diverging = trace("a", &["e"], &["proposed", "confirmed"], &[Some("pending")]);
    let malformed = trace("b", &["e"], &["pending", "confirmed"], &[Some("confirmed")]);
    let set = trace_set(vec![malformed, diverging]);
    assert!(matches!(replay_traces(&set), Err(CliError::Validation)));
    let missing_decision = trace("a", &["e", "f"], &["proposed", "pending", "confirmed"], &[Some("pending")]);
    assert!(matches!(replay_traces(&trace_set(vec![missing_decision])), Err(CliError::Replay)));
}

#[test]
fn rejects_trace_divergence_and_duplicate_engine_ownership() {
    let bad = trace("bad", &["local_accepted"], &["proposed", "confirmed"], &[None]);
    let replay = request(Command::Replay { input: "bad-trace.json".to_string() });
    assert!(matches!(execute(&replay, &Artifact::Traces(trace_set(vec![bad]))), Err(CliError::Replay)));

    let lock = CargoLock {
        version: 4,
        package: vec![package("syncer-rs", None), package("syncer-c", None)],
    };
    let validate = request(Command::Validate {
        kind: ValidationKind::CargoLock,
        input: "Cargo.lock".to_string(),
    });
    assert!(matches!(execute(&validate, &Artifact::CargoLock(lock)), Err(CliError::Validation)));
}

#[test]
fn cargo_lock_checks_version_engines_and_git_pins() {
    let ok = CargoLock {
        version: 3,
        package: vec![
            package("serde", Some("registry+https://github.com/rust-lang/crates.io-index")),
            package("syncer", Some(PINNED)),
            package("local", None),
        ],
    };
    let report = validate_cargo_lock(&ok).expect("acceptable lock");
    assert_eq!(report.format_version, 3);
    assert_eq!(report.package_count, 3);
    assert_eq!(report.engine_package_count, 1);
    assert_eq!(report.pinned_git_source_count, 1);
    assert_eq!(report.unpinned_git_source_count, 0);

    let cli = request(Command::Validate { kind: ValidationKind::CargoLock, input: "Cargo.lock".to_string() });
    let output = execute(&cli, &Artifact::CargoLock(ok)).expect("lock validates");
    assert!(output.ends_with(
        "\"data\":{\"enginePackageCount\":1,\"engineUnique\":true,\"formatVersion\":3,\"kind\":\"cargo_lock\",\"packageCount\":3,\"pinnedGitSourceCount\":1,\"unpinnedGitSourceCount\":0}}"
    ));

    for version in [2u32, 5] {
        let lock = CargoLock { version, package: vec![] };
        assert!(matches!(validate_cargo_lock(&lock), Err(CliError::Validation)));
    }
    let unpinned_sources = [
        "git+https://example.test/engine",
        "git+https://example.test/engine#main",
        "git+https://example.test/engine#0123456789abcdef0123456789abcdef0123456",
        "git+https://example.test/engine#0123456789abcdef0123456789abcdef012345678",
        "git+https://example.test/engine#0123456789abcdef0123456789abcdef0123456g",
        "git+https://example.test/e#0123456789abcdef0123456789abcdef01234567#x",
    ];
    for source in unpinned_sources {
        let lock = CargoLock { version: 4, package: vec![package("dep", Some(source))] };
        assert!(matches!(validate_cargo_lock(&lock), Err(CliError::Validation)), "{source}");
    }
    let not_git = CargoLock { version: 4, package: vec![package("dep", Some("path+file:///x#main"))] };
    assert_eq!(validate_cargo_lock(&not_git).expect("not a git source").pinned_git_source_count, 0);
    let hash_then_pin = CargoLock {
        version: 4,
        package: vec![package("dep", Some("git+https://x#y#0123456789abcdef0123456789abcdef01234567"))],
    };
    assert_eq!(validate_cargo_lock(&hash_then_pin).expect("pinned").pinned_git_source_count, 1);
}

#[test]
fn rejects_paths_outside_the_canonical_root() {
    let policy = InputPolicy::new(components(&["/", "tmp", "root"]), true, 1_048_576).expect("root");
    let outside = components(&["/", "tmp", "outside", "outside.json"]);
    assert!(matches!(policy.check_candidate(&outside, true, 2), Err(CliError::Input)));
    let sibling = components(&["/", "tmp", "rootx", "a.json"]);
    assert!(matches!(policy.check_candidate(&sibling, true, 2), Err(CliError::Input)));
    let above = components(&["/", "tmp"]);
    assert!(matches!(policy.check_candidate(&above, false, 0), Err(CliError::Input)));
    let inside = components(&["/", "tmp", "root", "sub", "inside.json"]);
    assert!(policy.check_candidate(&inside, true, 2).is_ok());
}

#[test]
fn input_policy_bounds_files() {
    assert!(matches!(InputPolicy::new(components(&["/", "f"]), false, 64), Err(CliError::Input)));
    let policy = InputPolicy::new(components(&["/", "root"]), true, 64).expect("root");
    assert_eq!(policy.maximum_bytes(), 64);
    let large = components(&["/", "root", "large.json"]);
    assert!(matches!(policy.check_candidate(&large, true, 65), Err(CliError::Input)));
    assert!(policy.check_candidate(&large, true, 64).is_ok());
    assert!(matches!(policy.check_candidate(&large, false, 10), Err(CliError::Input)));
    assert!(matches!(policy.accept(vec![b' '; 65]), Err(CliError::Input)));
    assert_eq!(policy.accept(vec![b' '; 64]).expect("within bound").len(), 64);
}

#[test]
fn failure_envelope_escapes_the_command() {
    assert_eq!(
        render_failure("request", &CliError::Input),
        "{\"schema\":\"opto-sync.cli.output.v1\",\"ok\":false,\"command\":\"request\",\"error\":{\"code\":\"input_policy\",\"message\":\"input rejected by bounded path policy\"}}"
    );
    assert_eq!(
        render_failure("a\"b\\c\n", &CliError::OutputBound),
        "{\"schema\":\"opto-sync.cli.output.v1\",\"ok\":false,\"command\":\"a\\\"b\\\\c\\n\",\"error\":{\"code\":\"output_bound\",\"message\":\"response exceeded the configured output bound\"}}"
    );
    let value: serde_json::Value =
        serde_json::from_str(&render_failure("$(touch owned)", &CliError::Replay)).expect("JSON");
    assert_eq!(value["command"], "$(touch owned)");
    assert_eq!(value["error"]["code"], "replay");
}

#[test]
fn rejects_malformed_and_oversized_inputs() {
    assert!(matches!(parse_json(b"{not-json"), Err(CliError::Validation)));

    let policy = InputPolicy::new(components(&["/", "root"]), true, 64).expect("root");
    let large = components(&["/", "root", "large.json"]);
    assert!(matches!(policy.check_candidate(&large, true, 65), Err(CliError::Input)));
}

#[test]
fn parse_json_reads_structure_and_keys() {
    let document = parse_json(
        br#"{"authorization":"Bearer TOP_SECRET","tenantId":"TENANT-42","payload":{"email":"private@example.test"}}"#,
    )
    .expect("valid JSON");
    match &document {
        JsonValue::Object(members) => {
            let keys: Vec<&str> = members.iter().map(|m| m.key.as_str()).collect();
            assert_eq!(keys, vec!["authorization", "payload", "tenantId"]);
        }
        _ => panic!("expected an object"),
    }
    let shape = inspect_json(&document).expect("small document");
    assert_eq!(shape.nodes, 5);
    assert_eq!(shape.sensitive_key_count, 4);

    let mixed = parse_json(b"[1, \"a\", null, true, {}, [[]]]").expect("valid JSON");
    let shape = inspect_json(&mixed).expect("small document");
    assert_eq!(shape.nodes, 8);
    assert_eq!(shape.maximum_depth, 3);
    assert_eq!(shape.arrays, 3);
    assert_eq!(shape.objects, 1);
    assert_eq!(shape.scalar_values, 4);

    for malformed in [&b""[..], b"{", b"[1,]", b"{\"a\" 1}", b"nul", b"\xff"] {
        assert!(matches!(parse_json(malformed), Err(CliError::Validation)));
    }
}

#[test]
fn replays_a_set_of_three_traces_and_fourteen_events() {
    let lengths = [3usize, 5, 6];
    let traces: Vec<Trace> = lengths
        .iter()
        .enumerate()
        .map(|(index, &length)| {
            let events: Vec<&str> = (0..length).map(|_| "local_accepted").collect();
            let mut states = vec!["proposed"];
            states.extend((0..length).map(|_| "pending"));
            let outcomes: Vec<Option<&str>> = (0..length).map(|_| Some("pending")).collect();
            trace(&format!("trace-{index}"), &events, &states, &outcomes)
        })
        .collect();
    let cli = request(Command::Replay { input: "fixtures/traces.v1.json".to_string() });
    let output = execute(&cli, &Artifact::Traces(trace_set(traces))).expect("fixture should replay");
    let value: serde_json::Value = serde_json::from_str(&output).expect("versioned JSON output");
    assert_eq!(value["schema"], OUTPUT_SCHEMA);
    assert_eq!(value["data"]["traceCount"], 3);
    assert_eq!(value["data"]["eventCount"], 14);
}

#[test]
fn failure_envelope_escapes_control_characters() {
    assert_eq!(
        render_failure("\u{1}\u{1f}\u{7f}é\t\u{8}\u{c}\r/", &CliError::Internal),
        "{\"schema\":\"opto-sync.cli.output.v1\",\"ok\":false,\"command\":\"\\u0001\\u001f\u{7f}é\\t\\b\\f\\r/\",\"error\":{\"code\":\"internal\",\"message\":\"internal serialization failed\"}}"
    );
}

#[test]
fn failure_envelope_decodes_back_to_command_and_error() {
    for command in ["request", "", "a\"b", "back\\slash", "\u{0}\u{1f}\n\t", "é\u{7f}/", "{\"x\":1}"] {
        for error in [CliError::Input, CliError::Validation, CliError::Replay, CliError::OutputBound, CliError::Internal] {
            let text = render_failure(command, &error);
            let value: serde_json::Value = serde_json::from_str(&text).expect("valid JSON");
            assert_eq!(value["schema"], OUTPUT_SCHEMA);
            assert_eq!(value["ok"], false);
            assert_eq!(value["command"], command);
            assert_eq!(value["error"]["code"], error.code());
            assert_eq!(value["error"]["message"], error.message());
        }
    }
}

#[test]
fn sensitivity_survives_ascii_case_mapping() {
    for key in ["Authorization", "tenantId", "x-token", "name", "Émail", "owner_ID"] {
        assert_eq!(is_sensitive_key(key), is_sensitive_key(&key.to_ascii_uppercase()));
        assert_eq!(is_sensitive_key(key), is_sensitive_key(&key.to_ascii_lowercase()));
    }
}

#[test]
fn wrapping_a_document_adds_one_level() {
    let inner = diagnostic_document();
    let base = inspect_json(&inner).expect("small");
    let in_array = inspect_json(&JsonValue::Array(vec![diagnostic_document()])).expect("small");
    assert_eq!(in_array.nodes, base.nodes + 1);
    assert_eq!(in_array.maximum_depth, base.maximum_depth + 1);
    assert_eq!(in_array.arrays, base.arrays + 1);
    assert_eq!(in_array.objects, base.objects);
    assert_eq!(in_array.scalar_values, base.scalar_values);
    assert_eq!(in_array.sensitive_key_count, base.sensitive_key_count);
    let in_object = inspect_json(&JsonValue::Object(vec![member("secretBox", diagnostic_document())]))
        .expect("small");
    assert_eq!(in_object.nodes, base.nodes + 1);
    assert_eq!(in_object.maximum_depth, base.maximum_depth + 1);
    assert_eq!(in_object.objects, base.objects + 1);
    assert_eq!(in_object.sensitive_key_count, base.sensitive_key_count + 1);
}

#[test]
fn replay_ignores_trace_order() {
    let make = |order: &[usize]| {
        let all = [
            trace("a", &["e"], &["proposed", "confirmed"], &[Some("confirmed")]),
            trace("b", &["e", "f"], &["proposed", "pending", "confirmed"], &[Some("pending"), Some("confirmed")]),
            trace("c", &["e"], &["proposed", "rejected"], &[Some("rejected")]),
        ];
        let mut all: Vec<Option<Trace>> = all.into_iter().map(Some).collect();
        trace_set(order.iter().map(|&i| all[i].take().expect("each once")).collect())
    };
    let first = replay_traces(&make(&[0, 1, 2])).expect("replays");
    let second = replay_traces(&make(&[2, 0, 1])).expect("replays");
    assert_eq!((first.trace_count, first.event_count), (second.trace_count, second.event_count));
    assert_eq!((first.trace_count, first.event_count), (3, 4));
}

#[test]
fn deleting_one_of_two_identical_packages_keeps_the_lock_valid() {
    let full = CargoLock {
        version: 4,
        package: vec![package("syncer", Some(PINNED)), package("dep", Some(PINNED)), package("dep", Some(PINNED))],
    };
    let before = validate_cargo_lock(&full).expect("valid");
    let fewer = CargoLock {
        version: 4,
        package: vec![package("syncer", Some(PINNED)), package("dep", Some(PINNED))],
    };
    let after = validate_cargo_lock(&fewer).expect("still valid");
    assert!(after.package_count <= before.package_count);
    assert!(after.engine_package_count <= before.engine_package_count);
    assert!(after.pinned_git_source_count <= before.pinned_git_source_count);
}
