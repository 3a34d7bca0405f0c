use vstd::prelude::*;
use vstd::utf8::encode_utf8;

use crate::bytes::{is_hex_digit, lower_bytes, occurs_at, occurs_in, upper_bytes};
use crate::text::{decimal_text, decode_string, escaped_text, lemma_decode_escaped_text};
use crate::error::CliError;
use crate::json::{
    combine, flag_tally, items_tally, key_is_sensitive, lemma_value_nodes, member_tally, members_tally, tally_zero, value_tally,
    JsonMember, JsonValue, Tally,
};
use crate::lock::{engine_count, git_source_of, is_engine_name, is_pinned_bytes, lock_accepted, pinned_count, is_pinned_source, unpinned_count, CargoLock, LockPackage};
use crate::request::{failure_text, response, response_data, success_text, OUTPUT_SCHEMA, Artifact, Cli, Command, ValidationKind};
use crate::traces::{
    event_total, first_failure, replay_result, step_matches, trace_failure, trace_replays, trace_well_formed, Trace,
    TraceSet,
};

verus! {

/// Every successful response is the versioned envelope (output schema, command name,
/// interfaces and policy revisions) around the command's data, and its UTF-8 encoding
/// is no longer than `max_output_bytes`.
pub proof fn lemma_success_is_versioned_and_bounded(cli: Cli, artifact: Artifact)
    requires
        response(cli, artifact) is Ok,
    ensures
        ({
            let text = response(cli, artifact)->Ok_0;
            &&& exists|data: Seq<char>| text == success_text(cli.command.spec_name(), data)
            &&& encode_utf8(text).len() <= cli.max_output_bytes
        }),
{
    let data = response_data(cli.command, artifact)->Ok_0;
    assert(response(cli, artifact)->Ok_0 == success_text(cli.command.spec_name(), data));
}

/// The response to a JSON document, for `inspect` and for `validate --kind json`,
/// depends on the document only through its shape metrics: two documents with the same
/// metrics get the same response, whatever their keys and values.
pub proof fn lemma_json_response_reveals_only_shape(cli: Cli, a: JsonValue, b: JsonValue)
    requires
        value_tally(a, 1) == value_tally(b, 1),
    ensures
        response(cli, Artifact::Json(a)) == response(cli, Artifact::Json(b)),
{
}

/// A replay that succeeds has checked every trace: each is well formed and each of its
/// events leads to the state recorded after it.
pub proof fn lemma_replay_success_matches_every_state(set: TraceSet)
    requires
        replay_result(set) is Ok,
    ensures
        forall|i: int|
            0 <= i < set.traces@.len() ==> trace_well_formed(set.traces@, i) && trace_replays(
                #[trigger] set.traces@[i],
            ),
{
    lemma_no_first_failure(set.traces@, set.traces@.len() as int);
    assert forall|i: int| 0 <= i < set.traces@.len() implies trace_well_formed(set.traces@, i)
        && trace_replays(#[trigger] set.traces@[i]) by {
        assert(trace_failure(set.traces@, i) is None);
    }
}

proof fn lemma_no_first_failure(ts: Seq<Trace>, n: int)
    requires
        0 <= n <= ts.len(),
        first_failure(ts, n) is None,
    ensures
        forall|i: int| 0 <= i < n ==> #[trigger] trace_failure(ts, i) is None,
    decreases n,
{
    if n > 0 {
        lemma_no_first_failure(ts, n - 1);
    }
}

/// A Cargo lock file that validates names at most one merge-engine package and pins every
/// Git source to a full revision.
pub proof fn lemma_accepted_lock_is_pinned_and_engine_unique(lock: CargoLock)
    requires
        3 <= lock.version <= 4,
        engine_count(lock.package@) <= 1,
        unpinned_count(lock.package@) == 0,
    ensures
        forall|i: int|
            0 <= i < lock.package@.len() ==> (#[trigger] git_source_of(lock.package@[i]) matches Some(
                s,
            ) ==> is_pinned_source(s)),
{
    lemma_unpinned_zero(lock.package@);
}

proof fn lemma_unpinned_zero(ps: Seq<LockPackage>)
    requires
        unpinned_count(ps) == 0,
    ensures
        forall|i: int|
            0 <= i < ps.len() ==> (#[trigger] git_source_of(ps[i]) matches Some(s)
                ==> is_pinned_source(s)),
    decreases ps.len(),
{
    if ps.len() > 0 {
        lemma_unpinned_zero(ps.drop_last());
        assert forall|i: int| 0 <= i < ps.len() implies (#[trigger] git_source_of(ps[i]) matches Some(
            s,
        ) ==> is_pinned_source(s)) by {
            if i < ps.len() - 1 {
                assert(ps[i] == ps.drop_last()[i]);
            }
        }
    }
}

/// A lock file that names two or more merge-engine packages is refused.
pub proof fn lemma_duplicate_engines_refused(cli: Cli, lock: CargoLock)
    requires
        engine_count(lock.package@) >= 2,
        cli.command matches Command::Validate { kind: ValidationKind::CargoLock, .. },
    ensures
        response(cli, Artifact::CargoLock(lock)) == Err::<Seq<char>, CliError>(CliError::Validation),
{
}

/// Each failure class has its own exit status, none of them that of success (0) or of a
/// usage error (2).
pub proof fn lemma_exit_codes_distinct(a: CliError, b: CliError)
    ensures
        a != b ==> a.spec_exit_code() != b.spec_exit_code(),
        a.spec_exit_code() != 0,
        a.spec_exit_code() != 2,
{
}

/// Whether a key is sensitive does not depend on the case of its ASCII letters: a key
/// and its ASCII upper-case or lower-case form are sensitive alike.
pub proof fn lemma_sensitivity_ignores_ascii_case(key: Seq<char>, other: Seq<char>)
    requires
        encode_utf8(other) == upper_bytes(encode_utf8(key)) || encode_utf8(other) == lower_bytes(
            encode_utf8(key),
        ),
    ensures
        key_is_sensitive(key) == key_is_sensitive(other),
{
    let b = encode_utf8(key);
    assert(lower_bytes(upper_bytes(b)) =~= lower_bytes(b));
    assert(lower_bytes(lower_bytes(b)) =~= lower_bytes(b));
}

/// Two documents of the same structure: scalars, arrays and objects at the same places,
/// arrays and objects of the same sizes, and keys at the same places either both
/// sensitive or both not. Key text and scalar values may differ.
pub open spec fn same_structure(a: JsonValue, b: JsonValue) -> bool
    decreases a,
{
    match (a, b) {
        (JsonValue::Scalar, JsonValue::Scalar) => true,
        (JsonValue::Array(x), JsonValue::Array(y)) => same_items(x@, y@),
        (JsonValue::Object(x), JsonValue::Object(y)) => same_members(x@, y@),
        _ => false,
    }
}

pub open spec fn same_items(x: Seq<JsonValue>, y: Seq<JsonValue>) -> bool
    decreases x,
{
    &&& x.len() == y.len()
    &&& x.len() > 0 ==> same_items(x.drop_last(), y.drop_last()) && same_structure(x.last(), y.last())
}

pub open spec fn same_members(x: Seq<JsonMember>, y: Seq<JsonMember>) -> bool
    decreases x,
{
    &&& x.len() == y.len()
    &&& x.len() > 0 ==> same_members(x.drop_last(), y.drop_last()) && same_member(x.last(), y.last())
}

pub open spec fn same_member(m: JsonMember, n: JsonMember) -> bool
    decreases m,
{
    key_is_sensitive(m.key@) == key_is_sensitive(n.key@) && same_structure(m.value, n.value)
}

proof fn lemma_same_structure_tally(a: JsonValue, b: JsonValue, depth: nat)
    requires
        same_structure(a, b),
    ensures
        value_tally(a, depth) == value_tally(b, depth),
    decreases a,
{
    match (a, b) {
        (JsonValue::Array(x), JsonValue::Array(y)) => lemma_same_items_tally(x@, y@, depth + 1),
        (JsonValue::Object(x), JsonValue::Object(y)) => lemma_same_members_tally(x@, y@, depth + 1),
        _ => {},
    }
}

proof fn lemma_same_items_tally(x: Seq<JsonValue>, y: Seq<JsonValue>, depth: nat)
    requires
        same_items(x, y),
    ensures
        items_tally(x, depth) == items_tally(y, depth),
    decreases x,
{
    if x.len() > 0 {
        lemma_same_items_tally(x.drop_last(), y.drop_last(), depth);
        lemma_same_structure_tally(x.last(), y.last(), depth);
    }
}

proof fn lemma_same_members_tally(x: Seq<JsonMember>, y: Seq<JsonMember>, depth: nat)
    requires
        same_members(x, y),
    ensures
        members_tally(x, depth) == members_tally(y, depth),
    decreases x,
{
    if x.len() > 0 {
        lemma_same_members_tally(x.drop_last(), y.drop_last(), depth);
        lemma_same_member_tally(x.last(), y.last(), depth);
    }
}

proof fn lemma_same_member_tally(m: JsonMember, n: JsonMember, depth: nat)
    requires
        same_member(m, n),
    ensures
        member_tally(m, depth) == member_tally(n, depth),
    decreases m,
{
    lemma_same_structure_tally(m.value, n.value, depth);
}

/// Inspection reads only a document's structure and which of its keys are sensitive:
/// two documents of the same structure have the same metrics, and so the same inspection
/// result and the same response, whatever their key text and scalar values.
pub proof fn lemma_inspection_reads_only_structure(cli: Cli, a: JsonValue, b: JsonValue)
    requires
        same_structure(a, b),
    ensures
        value_tally(a, 1) == value_tally(b, 1),
        response(cli, Artifact::Json(a)) == response(cli, Artifact::Json(b)),
{
    lemma_same_structure_tally(a, b, 1);
}

/// A tally taken one level deeper: the same counts, the depth one more.
pub open spec fn deeper(t: Tally) -> Tally {
    Tally { depth: t.depth + 1, ..t }
}

proof fn lemma_value_tally_deeper(v: JsonValue, depth: nat)
    ensures
        value_tally(v, depth + 1) == deeper(value_tally(v, depth)),
    decreases v,
{
    match v {
        JsonValue::Array(x) => lemma_items_tally_deeper(x@, depth + 1),
        JsonValue::Object(x) => lemma_members_tally_deeper(x@, depth + 1),
        JsonValue::Scalar => {},
    }
}

proof fn lemma_items_tally_deeper(x: Seq<JsonValue>, depth: nat)
    ensures
        items_tally(x, depth + 1) == if x.len() == 0 { tally_zero() } else { deeper(items_tally(x, depth)) },
    decreases x,
{
    if x.len() > 0 {
        lemma_items_tally_deeper(x.drop_last(), depth);
        lemma_value_tally_deeper(x.last(), depth);
        lemma_value_nodes(x.last(), depth);
    }
}

proof fn lemma_members_tally_deeper(x: Seq<JsonMember>, depth: nat)
    ensures
        members_tally(x, depth + 1) == if x.len() == 0 { tally_zero() } else { deeper(members_tally(x, depth)) },
    decreases x,
{
    if x.len() > 0 {
        lemma_members_tally_deeper(x.drop_last(), depth);
        lemma_value_tally_deeper(x.last().value, depth);
        lemma_value_nodes(x.last().value, depth);
        assert(member_tally(x.last(), depth + 1) == combine(
            value_tally(x.last().value, depth + 1),
            flag_tally(key_is_sensitive(x.last().key@)),
        ));
        assert(member_tally(x.last(), depth) == combine(
            value_tally(x.last().value, depth),
            flag_tally(key_is_sensitive(x.last().key@)),
        ));
    }
}

/// Wrapping a document in a one-element array adds one node, one array and one level of
/// depth to its metrics, and nothing else.
pub proof fn lemma_wrapping_in_array(v: JsonValue, wrapped: JsonValue)
    requires
        wrapped matches JsonValue::Array(items) && items@ == seq![v],
    ensures
        ({
            let t = value_tally(v, 1);
            value_tally(wrapped, 1) == Tally {
                nodes: t.nodes + 1,
                depth: t.depth + 1,
                arrays: t.arrays + 1,
                ..t
            }
        }),
{
    let items = wrapped->Array_0@;
    assert(items.drop_last() =~= Seq::<JsonValue>::empty());
    assert(items.last() == v);
    assert(items_tally(items, 2) == combine(items_tally(items.drop_last(), 2), value_tally(v, 2)));
    lemma_value_tally_deeper(v, 1);
    lemma_value_nodes(v, 1);
}

/// Wrapping a document in a one-member object adds one node, one object, one level of
/// depth, and one sensitive key when the member's key is sensitive, and nothing else.
pub proof fn lemma_wrapping_in_object(v: JsonValue, wrapped: JsonValue)
    requires
        wrapped matches JsonValue::Object(members) && members@.len() == 1 && members@[0].value == v,
    ensures
        ({
            let t = value_tally(v, 1);
            let key = wrapped->Object_0@[0].key@;
            value_tally(wrapped, 1) == Tally {
                nodes: t.nodes + 1,
                depth: t.depth + 1,
                objects: t.objects + 1,
                sensitive: t.sensitive + if key_is_sensitive(key) { 1nat } else { 0nat },
                ..t
            }
        }),
{
    let members = wrapped->Object_0@;
    assert(members.drop_last() =~= Seq::<JsonMember>::empty());
    assert(members.last() == members[0]);
    assert(members_tally(members, 2) == combine(
        members_tally(members.drop_last(), 2),
        member_tally(members[0], 2),
    ));
    assert(member_tally(members[0], 2) == combine(
        value_tally(v, 2),
        flag_tally(key_is_sensitive(members[0].key@)),
    ));
    lemma_value_tally_deeper(v, 1);
    lemma_value_nodes(v, 1);
}

/// Every count of a lock file grows by what its last package adds.
proof fn lemma_counts_push(ps: Seq<LockPackage>, p: LockPackage)
    ensures
        engine_count(ps.push(p)) == engine_count(ps) + engine_count(seq![p]),
        pinned_count(ps.push(p)) == pinned_count(ps) + pinned_count(seq![p]),
        unpinned_count(ps.push(p)) == unpinned_count(ps) + unpinned_count(seq![p]),
{
    let single = seq![p];
    let empty = Seq::<LockPackage>::empty();
    assert(ps.push(p).drop_last() =~= ps);
    assert(ps.push(p).last() == p);
    assert(single.drop_last() =~= empty);
    assert(single.last() == p);
    assert(engine_count(empty) == 0 && pinned_count(empty) == 0 && unpinned_count(empty) == 0);
    assert(engine_count(single) == engine_count(empty) + if is_engine_name(p.name@) { 1nat } else { 0nat });
}

/// The packages of `ps` at the positions that `keep` marks, in their order: `ps` with the
/// unmarked packages deleted.
pub open spec fn kept_packages(ps: Seq<LockPackage>, keep: Seq<bool>) -> Seq<LockPackage>
    decreases ps.len(),
{
    if ps.len() == 0 || keep.len() == 0 {
        Seq::empty()
    } else {
        let rest = kept_packages(ps.drop_last(), keep.drop_last());
        if keep.last() {
            rest.push(ps.last())
        } else {
            rest
        }
    }
}

proof fn lemma_kept_counts(ps: Seq<LockPackage>, keep: Seq<bool>)
    requires
        keep.len() == ps.len(),
    ensures
        kept_packages(ps, keep).len() <= ps.len(),
        engine_count(kept_packages(ps, keep)) <= engine_count(ps),
        pinned_count(kept_packages(ps, keep)) <= pinned_count(ps),
        unpinned_count(kept_packages(ps, keep)) <= unpinned_count(ps),
    decreases ps.len(),
{
    if ps.len() > 0 {
        let rest = ps.drop_last();
        lemma_kept_counts(rest, keep.drop_last());
        assert(ps =~= rest.push(ps.last()));
        lemma_counts_push(rest, ps.last());
        if keep.last() {
            lemma_counts_push(kept_packages(rest, keep.drop_last()), ps.last());
        }
    }
}

/// Deleting packages, at any positions, from a lock file that validates leaves one that
/// validates, with no more packages, engine packages or pinned Git sources than before.
pub proof fn lemma_deleting_packages_keeps_lock_valid(lock: CargoLock, keep: Seq<bool>)
    requires
        lock_accepted(lock.version, lock.package@),
        keep.len() == lock.package@.len(),
    ensures
        lock_accepted(lock.version, kept_packages(lock.package@, keep)),
        kept_packages(lock.package@, keep).len() <= lock.package@.len(),
        engine_count(kept_packages(lock.package@, keep)) <= engine_count(lock.package@),
        pinned_count(kept_packages(lock.package@, keep)) <= pinned_count(lock.package@),
{
    lemma_kept_counts(lock.package@, keep);
}

/// `other` holds the traces of `ts` in another order: `other[i]` is `ts[perm[i]]` for a
/// permutation `perm` of the indices.
pub open spec fn is_reordering(ts: Seq<Trace>, other: Seq<Trace>, perm: Seq<int>) -> bool {
    &&& other.len() == ts.len()
    &&& perm.len() == ts.len()
    &&& forall|i: int| 0 <= i < perm.len() ==> 0 <= #[trigger] perm[i] < ts.len()
    &&& forall|i: int, j: int|
        0 <= i < perm.len() && 0 <= j < perm.len() && i != j ==> #[trigger] perm[i] != #[trigger] perm[j]
    &&& forall|i: int| 0 <= i < other.len() ==> #[trigger] other[i] == ts[perm[i]]
}

proof fn lemma_total_remove(ts: Seq<Trace>, k: int)
    requires
        0 <= k < ts.len(),
    ensures
        event_total(ts) == event_total(ts.remove(k)) + ts[k].events@.len(),
    decreases ts.len(),
{
    if k == ts.len() - 1 {
        assert(ts.remove(k) =~= ts.drop_last());
    } else {
        lemma_total_remove(ts.drop_last(), k);
        assert(ts.remove(k).drop_last() =~= ts.drop_last().remove(k));
        assert(ts.remove(k).last() == ts.last());
    }
}

proof fn lemma_total_reorder(ts: Seq<Trace>, other: Seq<Trace>, perm: Seq<int>)
    requires
        is_reordering(ts, other, perm),
    ensures
        event_total(other) == event_total(ts),
    decreases ts.len(),
{
    let n = ts.len() as int;
    if n > 0 {
        let k = perm[n - 1];
        let rest = ts.remove(k);
        let shorter = other.drop_last();
        let sub = Seq::new((n - 1) as nat, |i: int| if perm[i] < k { perm[i] } else { perm[i] - 1 });
        assert forall|i: int| 0 <= i < sub.len() implies 0 <= #[trigger] sub[i] < rest.len() by {
            assert(perm[i] != perm[n - 1]);
        }
        assert forall|i: int, j: int|
            0 <= i < sub.len() && 0 <= j < sub.len() && i != j implies #[trigger] sub[i] != #[trigger] sub[j] by {
            assert(perm[i] != perm[j]);
            assert(perm[i] != perm[n - 1]);
            assert(perm[j] != perm[n - 1]);
        }
        assert forall|i: int| 0 <= i < shorter.len() implies #[trigger] shorter[i] == rest[sub[i]] by {
            assert(perm[i] != perm[n - 1]);
            assert(other[i] == ts[perm[i]]);
        }
        lemma_total_reorder(rest, shorter, sub);
        lemma_total_remove(ts, k);
        assert(other.last() == ts[k]);
    }
}

proof fn lemma_all_pass(ts: Seq<Trace>, n: int)
    requires
        0 <= n <= ts.len(),
        forall|i: int| 0 <= i < n ==> #[trigger] trace_failure(ts, i) is None,
    ensures
        first_failure(ts, n) is None,
    decreases n,
{
    if n > 0 {
        lemma_all_pass(ts, n - 1);
    }
}

/// Replay does not depend on the order of the traces: a trace set that replays, with its
/// traces reordered, replays to the same counts.
pub proof fn lemma_replay_ignores_trace_order(set: TraceSet, other: TraceSet, perm: Seq<int>)
    requires
        replay_result(set) is Ok,
        other.schema@ == set.schema@,
        is_reordering(set.traces@, other.traces@, perm),
    ensures
        replay_result(other) == replay_result(set),
{
    let ts = set.traces@;
    let os = other.traces@;
    let n = ts.len() as int;
    lemma_no_first_failure(ts, n);
    assert forall|i: int| 0 <= i < n implies #[trigger] trace_failure(os, i) is None by {
        let p = perm[i];
        assert(os[i] == ts[p]);
        assert(trace_failure(ts, p) is None);
        assert forall|j: int| 0 <= j < i implies (#[trigger] os[j]).name@ != os[i].name@ by {
            let q = perm[j];
            assert(os[j] == ts[q]);
            assert(q != p);
            assert(trace_failure(ts, q) is None);
            if q < p {
                assert(ts[q].name@ != ts[p].name@);
            } else {
                assert(ts[p].name@ != ts[q].name@);
            }
        }
    }
    lemma_all_pass(os, n);
    lemma_total_reorder(ts, os, perm);
}

/// A text that JSON string escaping leaves as it is: no quote, no backslash, no character
/// below U+0020.
pub open spec fn is_plain_text(s: Seq<char>) -> bool {
    forall|i: int| 0 <= i < s.len() ==> #[trigger] s[i] != '"' && s[i] != '\\' && (s[i] as u32) >= 0x20
}

proof fn lemma_plain_escapes_to_itself(s: Seq<char>)
    requires
        is_plain_text(s),
    ensures
        escaped_text(s) == s,
    decreases s.len(),
{
    if s.len() > 0 {
        let rest = s.drop_first();
        assert forall|i: int| 0 <= i < rest.len() implies #[trigger] rest[i] != '"' && rest[i] != '\\'
            && (rest[i] as u32) >= 0x20 by {
            assert(rest[i] == s[i + 1]);
        }
        lemma_plain_escapes_to_itself(rest);
        assert(s[0] != '"' && s[0] != '\\' && (s[0] as u32) >= 0x20);
        assert(seq![s[0]] + rest =~= s);
    }
}

proof fn lemma_error_texts_plain(error: CliError)
    ensures
        is_plain_text(error.spec_code()),
        is_plain_text(error.spec_message()),
{
    reveal_strlit("input_policy");
    reveal_strlit("validation");
    reveal_strlit("replay");
    reveal_strlit("output_bound");
    reveal_strlit("internal");
    reveal_strlit("input rejected by bounded path policy");
    reveal_strlit("artifact failed validation");
    reveal_strlit("deterministic replay failed");
    reveal_strlit("response exceeded the configured output bound");
    reveal_strlit("internal serialization failed");
}

/// What the failure envelope holds before the command's string literal.
pub open spec fn failure_head() -> Seq<char> {
    "{\"schema\":\""@ + OUTPUT_SCHEMA@ + "\",\"ok\":false,\"command\":"@
}

/// A JSON string literal standing after `prefix` in `text` decodes to `s` and ends where
/// `after` begins.
proof fn lemma_literal_at(text: Seq<char>, prefix: Seq<char>, s: Seq<char>, after: Seq<char>)
    requires
        text == prefix + (escaped_text(s) + (seq!['"'] + after)),
    ensures
        decode_string(text.skip(prefix.len() as int)) == Some((s, escaped_text(s).len() + 1)),
        text.skip(prefix.len() + escaped_text(s).len() + 1int) == after,
{
    assert(text.skip(prefix.len() as int) =~= escaped_text(s) + seq!['"'] + after);
    lemma_decode_escaped_text(s, after);
    assert(text.skip(prefix.len() + escaped_text(s).len() + 1int) =~= after);
}

/// Where the three string literals of an envelope laid out as `head`, the command, the
/// code and the message stand, and what they decode to.
#[verifier::rlimit(50)]
proof fn lemma_layout_decodes(head: Seq<char>, command: Seq<char>, code: Seq<char>, message: Seq<char>)
    requires
        escaped_text(code) == code,
        escaped_text(message) == message,
    ensures
        ({
            let a = ",\"error\":{\"code\":\""@;
            let b = ",\"message\":\""@;
            let c = "}}"@;
            let text = head + seq!['"'] + escaped_text(command) + seq!['"'] + a + code + seq!['"'] + b
                + message + seq!['"'] + c;
            let h = head.len() as int + 1;
            let n = escaped_text(command).len() as int + 1;
            let code_at = h + n + a.len() as int;
            let m = code.len() as int + 1;
            let message_at = code_at + m + b.len() as int;
            &&& text.take(h) == head + seq!['"']
            &&& decode_string(text.skip(h)) == Some((command, n as nat))
            &&& text.subrange(h + n, code_at) == a
            &&& decode_string(text.skip(code_at)) == Some((code, m as nat))
            &&& text.subrange(code_at + m, message_at) == b
            &&& decode_string(text.skip(message_at)) == Some((message, message.len() + 1))
            &&& text.skip(message_at + message.len() + 1) == c
        }),
{
    let esc = escaped_text(command);
    let a = ",\"error\":{\"code\":\""@;
    let b = ",\"message\":\""@;
    let c = "}}"@;
    let text = head + seq!['"'] + esc + seq!['"'] + a + code + seq!['"'] + b + message + seq!['"'] + c;
    let after_code = b + (message + (seq!['"'] + c));
    let after_command = a + (code + (seq!['"'] + after_code));
    let p1 = head + seq!['"'];
    let p2 = p1 + esc + seq!['"'] + a;
    let p3 = p2 + code + seq!['"'] + b;
    assert(text =~= p1 + (esc + (seq!['"'] + after_command)));
    lemma_literal_at(text, p1, command, after_command);
    assert(text =~= p2 + (escaped_text(code) + (seq!['"'] + after_code)));
    lemma_literal_at(text, p2, code, after_code);
    assert(text =~= p3 + (escaped_text(message) + (seq!['"'] + c)));
    lemma_literal_at(text, p3, message, c);
    assert(text.take(p1.len() as int) =~= p1);
    assert(text.subrange(p1.len() + esc.len() + 1int, p2.len() as int) =~= a);
    assert(text.subrange(p2.len() + code.len() + 1int, p3.len() as int) =~= b);
}

/// The failure envelope decodes back to what it reports: after a fixed head, the command
/// stands as a JSON string literal that decodes to the command, whatever characters it
/// holds, and after it come the error's code and message as JSON string literals that
/// decode to them.
pub proof fn lemma_failure_envelope_decodes(command: Seq<char>, error: CliError)
    ensures
        ({
            let text = failure_text(command, error);
            let h = failure_head().len() as int + 1;
            let n = escaped_text(command).len() as int + 1;
            let code_at = h + n + ",\"error\":{\"code\":\""@.len() as int;
            let m = error.spec_code().len() as int + 1;
            let message_at = code_at + m + ",\"message\":\""@.len() as int;
            &&& text.take(h) == failure_head() + seq!['"']
            &&& decode_string(text.skip(h)) == Some((command, n as nat))
            &&& text.subrange(h + n, code_at) == ",\"error\":{\"code\":\""@
            &&& decode_string(text.skip(code_at)) == Some((error.spec_code(), m as nat))
            &&& text.subrange(code_at + m, message_at) == ",\"message\":\""@
            &&& decode_string(text.skip(message_at)) == Some(
                (error.spec_message(), error.spec_message().len() + 1),
            )
            &&& text.skip(message_at + error.spec_message().len() + 1) == "}}"@
        }),
{
    let code = error.spec_code();
    let message = error.spec_message();
    lemma_error_texts_plain(error);
    lemma_plain_escapes_to_itself(code);
    lemma_plain_escapes_to_itself(message);
    lemma_failure_layout(command, error);
    lemma_layout_decodes(failure_head(), command, code, message);
}

/// The failure envelope spelled out piece by piece, each closing quote on its own.
proof fn lemma_failure_layout(command: Seq<char>, error: CliError)
    ensures
        failure_text(command, error) == failure_head() + seq!['"'] + escaped_text(command)
            + seq!['"'] + ",\"error\":{\"code\":\""@ + error.spec_code() + seq!['"']
            + ",\"message\":\""@ + error.spec_message() + seq!['"'] + "}}"@,
{
    reveal_strlit("\",\"error\":{\"code\":\"");
    reveal_strlit(",\"error\":{\"code\":\"");
    reveal_strlit("\",\"message\":\"");
    reveal_strlit(",\"message\":\"");
    reveal_strlit("\"}}");
    reveal_strlit("}}");
    let a = ",\"error\":{\"code\":\""@;
    let b = ",\"message\":\""@;
    let c = "}}"@;
    assert("\",\"message\":\""@ =~= seq!['"'] + b);
    assert("\"}}"@ =~= seq!['"'] + c);
    assert(failure_text(command, error) =~= failure_head() + seq!['"'] + escaped_text(command)
        + seq!['"'] + a + error.spec_code() + seq!['"'] + b + error.spec_message() + seq!['"'] + c);
}

/// The checks that a replay makes of the trace at index `i` before replaying it, spelled
/// out on the trace's fields: a name of 1 to 128 bytes that no earlier trace carries, 1 to
/// 1024 events, one recorded state more than events, and `proposed` first.
pub open spec fn trace_shape_passes(ts: Seq<Trace>, i: int) -> bool {
    &&& ts[i].name@.len() != 0
    &&& encode_utf8(ts[i].name@).len() <= 128
    &&& forall|j: int| 0 <= j < i ==> (#[trigger] ts[j]).name@ != ts[i].name@
    &&& 1 <= ts[i].events@.len() <= 1024
    &&& ts[i].states@.len() == ts[i].events@.len() + 1
    &&& ts[i].states@[0]@ == "proposed"@
}

/// Every event of `t`, the first, the last and each between, has a decided successor
/// state, and that state is the one recorded right after the event.
pub open spec fn history_followed(t: Trace) -> bool {
    forall|j: int|
        0 <= j < t.events@.len() ==> j < t.outcomes@.len() && (#[trigger] t.outcomes@[j] matches Some(
            next,
        ) && next@ == t.states@[j + 1]@)
}

proof fn lemma_trace_checks_agree(ts: Seq<Trace>, i: int)
    requires
        0 <= i < ts.len(),
    ensures
        trace_well_formed(ts, i) == trace_shape_passes(ts, i),
        trace_replays(ts[i]) == history_followed(ts[i]),
{
    let t = ts[i];
    if history_followed(t) {
        assert forall|j: int| 0 <= j < t.events@.len() implies #[trigger] step_matches(t, j) by {
            assert(j < t.outcomes@.len());
            assert(t.outcomes@[j] matches Some(next) && next@ == t.states@[j + 1]@);
        }
    }
    if trace_replays(t) {
        assert forall|j: int| 0 <= j < t.events@.len() implies j < t.outcomes@.len() && (
        #[trigger] t.outcomes@[j] matches Some(next) && next@ == t.states@[j + 1]@) by {
            assert(step_matches(t, j));
        }
    }
}

/// A replay succeeds exactly when the set carries the trace schema and 1 to 128 traces,
/// every trace passes its checks, and every event of every trace, not only the last,
/// leads to the state recorded after it; it then reports the number of traces and the
/// sum of their event counts.
pub proof fn lemma_replay_accepts_exactly_followed_histories(set: TraceSet)
    ensures
        replay_result(set) is Ok <==> ({
            &&& set.schema@ == "opto-sync.optimism-traces.v1"@
            &&& 1 <= set.traces@.len() <= 128
            &&& forall|i: int|
                0 <= i < set.traces@.len() ==> #[trigger] trace_shape_passes(set.traces@, i)
                    && history_followed(set.traces@[i])
        }),
        replay_result(set) matches Ok((traces, events)) ==> traces == set.traces@.len() && events
            == event_total(set.traces@),
{
    let ts = set.traces@;
    let n = ts.len() as int;
    reveal_strlit("opto-sync.optimism-traces.v1");
    if replay_result(set) is Ok {
        lemma_no_first_failure(ts, n);
        assert forall|i: int| 0 <= i < n implies #[trigger] trace_shape_passes(ts, i)
            && history_followed(ts[i]) by {
            assert(trace_failure(ts, i) is None);
            lemma_trace_checks_agree(ts, i);
        }
    }
    if set.schema@ == "opto-sync.optimism-traces.v1"@ && 1 <= n <= 128 && (forall|i: int|
        0 <= i < n ==> #[trigger] trace_shape_passes(ts, i) && history_followed(ts[i])) {
        assert forall|i: int| 0 <= i < n implies #[trigger] trace_failure(ts, i) is None by {
            assert(trace_shape_passes(ts, i));
            lemma_trace_checks_agree(ts, i);
        }
        lemma_all_pass(ts, n);
    }
}

/// A divergence at any step, the first or a middle one as much as the last, is a replay
/// error: when every trace before trace `i` passes, and trace `i` passes its checks but
/// its event `j` leads elsewhere than the state recorded after it, the replay fails with
/// `Replay`.
pub proof fn lemma_divergent_step_is_replay_error(set: TraceSet, i: int, j: int)
    requires
        set.schema@ == "opto-sync.optimism-traces.v1"@,
        1 <= set.traces@.len() <= 128,
        0 <= i < set.traces@.len(),
        forall|k: int|
            0 <= k < i ==> #[trigger] trace_shape_passes(set.traces@, k) && history_followed(
                set.traces@[k],
            ),
        trace_shape_passes(set.traces@, i),
        0 <= j < set.traces@[i].events@.len(),
        !(j < set.traces@[i].outcomes@.len() && (set.traces@[i].outcomes@[j] matches Some(next)
            && next@ == set.traces@[i].states@[j + 1]@)),
    ensures
        replay_result(set) == Err::<(nat, nat), CliError>(CliError::Replay),
{
    let ts = set.traces@;
    reveal_strlit("opto-sync.optimism-traces.v1");
    assert forall|k: int| 0 <= k < i implies #[trigger] trace_failure(ts, k) is None by {
        assert(trace_shape_passes(ts, k));
        lemma_trace_checks_agree(ts, k);
    }
    lemma_all_pass(ts, i);
    lemma_trace_checks_agree(ts, i);
    assert(!history_followed(ts[i]));
    assert(first_failure(ts, i + 1) == Some(CliError::Replay));
    lemma_failure_persists(ts, i + 1, ts.len() as int);
}

proof fn lemma_failure_persists(ts: Seq<Trace>, m: int, n: int)
    requires
        0 <= m <= n,
        first_failure(ts, m) is Some,
    ensures
        first_failure(ts, n) == first_failure(ts, m),
    decreases n - m,
{
    if n > m {
        lemma_failure_persists(ts, m, n - 1);
    }
}

/// `validate --kind traces` reports what `replay` reports on the same trace set, and on
/// success that data gives the number of traces as `traceCount` and the sum of their event
/// counts as `eventCount`.
pub proof fn lemma_trace_validation_reports_the_replay(
    validate: Command,
    replay: Command,
    set: TraceSet,
)
    requires
        validate matches Command::Validate { kind: ValidationKind::Traces, .. },
        replay matches Command::Replay { .. },
    ensures
        response_data(validate, Artifact::Traces(set)) == response_data(replay, Artifact::Traces(set)),
        replay_result(set) is Ok ==> response_data(replay, Artifact::Traces(set)) == Ok::<Seq<char>, CliError>(
            "{\"deterministic\":true,\"eventCount\":"@ + decimal_text(event_total(set.traces@))
                + ",\"kind\":\"traces\",\"schema\":\""@ + "opto-sync.optimism-traces.v1"@
                + "\",\"traceCount\":"@ + decimal_text(set.traces@.len()) + "}"@,
        ),
        replay_result(set) matches Err(e) ==> response_data(replay, Artifact::Traces(set)) == Err::<
            Seq<char>,
            CliError,
        >(e),
{
    lemma_replay_accepts_exactly_followed_histories(set);
}

/// Sensitivity is containment: a key whose bytes, with ASCII letters lowered, contain one
/// of the eight sensitive words anywhere, at the start, the end or inside, is sensitive.
pub proof fn lemma_sensitive_word_anywhere(key: Seq<char>, before: Seq<u8>, word: Seq<char>, after: Seq<u8>)
    requires
        word == "authorization"@ || word == "cookie"@ || word == "email"@ || word == "owner"@
            || word == "payload"@ || word == "secret"@ || word == "tenant"@ || word == "token"@,
        lower_bytes(encode_utf8(key)) == before + encode_utf8(word) + after,
    ensures
        key_is_sensitive(key),
{
    let hay = lower_bytes(encode_utf8(key));
    let needle = encode_utf8(word);
    assert(hay.subrange(before.len() as int, before.len() + needle.len() as int) =~= needle);
    assert(occurs_at(hay, needle, before.len() as int));
}

/// Conversely, a sensitive key contains, after ASCII lowering, one of the eight words.
pub proof fn lemma_sensitive_key_contains_a_word(key: Seq<char>)
    requires
        key_is_sensitive(key),
    ensures
        exists|before: Seq<u8>, word: Seq<char>, after: Seq<u8>|
            (word == "authorization"@ || word == "cookie"@ || word == "email"@ || word == "owner"@
                || word == "payload"@ || word == "secret"@ || word == "tenant"@ || word == "token"@)
                && lower_bytes(encode_utf8(key)) == before + encode_utf8(word) + after,
{
    let hay = lower_bytes(encode_utf8(key));
    let words = seq![
        "authorization"@,
        "cookie"@,
        "email"@,
        "owner"@,
        "payload"@,
        "secret"@,
        "tenant"@,
        "token"@,
    ];
    assert(exists|k: int| 0 <= k < 8 && occurs_in(hay, encode_utf8(#[trigger] words[k])));
    let k = choose|k: int| 0 <= k < 8 && occurs_in(hay, encode_utf8(#[trigger] words[k]));
    let word = words[k];
    let needle = encode_utf8(word);
    let i = choose|i: int| occurs_at(hay, needle, i);
    let before = hay.take(i);
    let after = hay.skip(i + needle.len());
    assert(hay =~= before + needle + after);
}

/// A source is pinned exactly when the bytes after its last `#` are 40 hexadecimal
/// digits; what comes before that `#` does not matter.
pub proof fn lemma_pinned_means_hex_revision_at_end(b: Seq<u8>)
    ensures
        is_pinned_bytes(b) <==> (b.len() >= 41 && b[b.len() - 41] == 35 && forall|j: int|
            b.len() - 40 <= j < b.len() ==> (48 <= #[trigger] b[j] <= 57 || 65 <= b[j] <= 70 || 97
                <= b[j] <= 102)),
{
    if b.len() >= 41 && b[b.len() - 41] == 35 && (forall|j: int|
        b.len() - 40 <= j < b.len() ==> (48 <= #[trigger] b[j] <= 57 || 65 <= b[j] <= 70 || 97
            <= b[j] <= 102)) {
        let k = b.len() - 41;
        assert(forall|j: int| k < j < b.len() ==> is_hex_digit(#[trigger] b[j]));
    }
}

/// Any bytes, followed by `#` and a 40-digit hexadecimal revision, form a pinned source.
pub proof fn lemma_revision_after_hash_pins(prefix: Seq<u8>, revision: Seq<u8>)
    requires
        revision.len() == 40,
        forall|j: int|
            0 <= j < 40 ==> (48 <= #[trigger] revision[j] <= 57 || 65 <= revision[j] <= 70 || 97
                <= revision[j] <= 102),
    ensures
        is_pinned_bytes(prefix + seq![35u8] + revision),
{
    let b = prefix + seq![35u8] + revision;
    let k = prefix.len() as int;
    assert(b[k] == 35);
    assert forall|j: int| k < j < b.len() implies is_hex_digit(#[trigger] b[j]) by {
        assert(b[j] == revision[j - k - 1]);
    }
}

/// A package name that marks a merge engine.
pub open spec fn names_an_engine(name: Seq<char>) -> bool {
    name == "syncer"@ || name == "syncer-c"@ || name == "syncer-rs"@
}

/// A Git source (its bytes begin with `git+`) whose bytes end in `#` and 40 hexadecimal
/// digits, or a source that is not a Git source.
pub open spec fn source_is_acceptable(source: Seq<char>) -> bool {
    let b = encode_utf8(source);
    occurs_at(b, encode_utf8("git+"@), 0) ==> (b.len() >= 41 && b[b.len() - 41] == 35 && forall|j: int|
        b.len() - 40 <= j < b.len() ==> (48 <= #[trigger] b[j] <= 57 || 65 <= b[j] <= 70 || 97 <= b[j]
            <= 102))
}

proof fn lemma_engine_count_pairwise(ps: Seq<LockPackage>)
    ensures
        engine_count(ps) == 0 <==> forall|i: int| 0 <= i < ps.len() ==> !names_an_engine(#[trigger] ps[i].name@),
        engine_count(ps) <= 1 <==> forall|i: int, j: int|
            0 <= i < j < ps.len() && names_an_engine(#[trigger] ps[i].name@) ==> !names_an_engine(
                #[trigger] ps[j].name@,
            ),
    decreases ps.len(),
{
    if ps.len() > 0 {
        let rest = ps.drop_last();
        let n = ps.len() - 1;
        lemma_engine_count_pairwise(rest);
        assert forall|i: int| 0 <= i < rest.len() implies #[trigger] rest[i] == ps[i] by {}
        assert(ps.last() == ps[n]);
        if engine_count(ps) <= 1 {
            assert forall|i: int, j: int|
                0 <= i < j < ps.len() && names_an_engine(#[trigger] ps[i].name@) implies !names_an_engine(
                #[trigger] ps[j].name@,
            ) by {
                if j == n {
                    assert(names_an_engine(rest[i].name@));
                } else {
                    assert(rest[i] == ps[i] && rest[j] == ps[j]);
                }
            }
        }
        if forall|i: int, j: int|
            0 <= i < j < ps.len() && names_an_engine(#[trigger] ps[i].name@) ==> !names_an_engine(
                #[trigger] ps[j].name@,
            ) {
            assert forall|i: int, j: int|
                0 <= i < j < rest.len() && names_an_engine(#[trigger] rest[i].name@) implies !names_an_engine(
                #[trigger] rest[j].name@,
            ) by {
                assert(rest[i] == ps[i] && rest[j] == ps[j]);
            }
            if names_an_engine(ps[n].name@) {
                assert forall|i: int| 0 <= i < rest.len() implies !names_an_engine(#[trigger] rest[i].name@) by {
                    assert(rest[i] == ps[i]);
                }
            }
        }
        if engine_count(ps) == 0 {
            assert forall|i: int| 0 <= i < ps.len() implies !names_an_engine(#[trigger] ps[i].name@) by {
                if i < n {
                    assert(rest[i] == ps[i]);
                }
            }
        }
        if forall|i: int| 0 <= i < ps.len() ==> !names_an_engine(#[trigger] ps[i].name@) {
            assert forall|i: int| 0 <= i < rest.len() implies !names_an_engine(#[trigger] rest[i].name@) by {
                assert(rest[i] == ps[i]);
            }
        }
    }
}

proof fn lemma_unpinned_count_zero(ps: Seq<LockPackage>)
    ensures
        unpinned_count(ps) == 0 <==> forall|i: int|
            0 <= i < ps.len() ==> (#[trigger] ps[i].source matches Some(s) ==> source_is_acceptable(s@)),
    decreases ps.len(),
{
    if ps.len() > 0 {
        let rest = ps.drop_last();
        let n = ps.len() - 1;
        lemma_unpinned_count_zero(rest);
        assert(ps.last() == ps[n]);
        assert forall|i: int| 0 <= i < rest.len() implies #[trigger] rest[i] == ps[i] by {}
        match ps[n].source {
            Some(src) => lemma_pinned_means_hex_revision_at_end(encode_utf8(src@)),
            None => {},
        }
        if forall|i: int| 0 <= i < ps.len() ==> (#[trigger] ps[i].source matches Some(s) ==> source_is_acceptable(s@)) {
            assert forall|i: int| 0 <= i < rest.len() implies (#[trigger] rest[i].source matches Some(s)
                ==> source_is_acceptable(s@)) by {
                assert(rest[i] == ps[i]);
            }
        }
        if unpinned_count(ps) == 0 {
            assert forall|i: int| 0 <= i < ps.len() implies (#[trigger] ps[i].source matches Some(s)
                ==> source_is_acceptable(s@)) by {
                if i < n {
                    assert(rest[i] == ps[i]);
                }
            }
        }
    }
}

/// A lock file is accepted exactly when its format version is 3 or 4, it lists at most
/// 100 000 packages, no two packages are named `syncer`, `syncer-c` or `syncer-rs`, and
/// every source whose bytes begin with `git+` ends in `#` and 40 hexadecimal digits,
/// whatever comes before that `#`.
pub proof fn lemma_lock_accepted_exactly(version: u32, ps: Seq<LockPackage>)
    ensures
        lock_accepted(version, ps) <==> ({
            &&& 3 <= version <= 4
            &&& ps.len() <= 100_000
            &&& forall|i: int, j: int|
                0 <= i < j < ps.len() && names_an_engine(#[trigger] ps[i].name@) ==> !names_an_engine(
                    #[trigger] ps[j].name@,
                )
            &&& forall|i: int|
                0 <= i < ps.len() ==> (#[trigger] ps[i].source matches Some(s) ==> source_is_acceptable(s@))
        }),
{
    lemma_engine_count_pairwise(ps);
    lemma_unpinned_count_zero(ps);
}

} // verus!
