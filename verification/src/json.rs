use vstd::prelude::*;
use vstd::utf8::encode_utf8;

use crate::bytes::{lower_ascii, lower_bytes, occurs, occurs_in};
use crate::error::CliError;

verus! {

/// A parsed JSON document, holding what the shape inspection reads: the nesting
/// of objects and arrays and the keys of object members.
pub enum JsonValue {
    Object(Vec<JsonMember>),
    Array(Vec<JsonValue>),
    Scalar,
}

pub struct JsonMember {
    pub key: String,
    pub value: JsonValue,
}

pub struct Tally {
    pub nodes: nat,
    pub depth: nat,
    pub objects: nat,
    pub arrays: nat,
    pub scalars: nat,
    pub sensitive: nat,
}

pub open spec fn tally_zero() -> Tally {
    Tally { nodes: 0, depth: 0, objects: 0, arrays: 0, scalars: 0, sensitive: 0 }
}

pub open spec fn combine(a: Tally, b: Tally) -> Tally {
    Tally {
        nodes: a.nodes + b.nodes,
        depth: if a.depth >= b.depth { a.depth } else { b.depth },
        objects: a.objects + b.objects,
        arrays: a.arrays + b.arrays,
        scalars: a.scalars + b.scalars,
        sensitive: a.sensitive + b.sensitive,
    }
}

pub open spec fn value_tally(v: JsonValue, depth: nat) -> Tally
    decreases v,
{
    match v {
        JsonValue::Scalar => Tally { nodes: 1, depth, objects: 0, arrays: 0, scalars: 1, sensitive: 0 },
        JsonValue::Array(items) => combine(
            Tally { nodes: 1, depth, objects: 0, arrays: 1, scalars: 0, sensitive: 0 },
            items_tally(items@, depth + 1),
        ),
        JsonValue::Object(members) => combine(
            Tally { nodes: 1, depth, objects: 1, arrays: 0, scalars: 0, sensitive: 0 },
            members_tally(members@, depth + 1),
        ),
    }
}

pub open spec fn items_tally(items: Seq<JsonValue>, depth: nat) -> Tally
    decreases items,
{
    if items.len() == 0 {
        tally_zero()
    } else {
        combine(items_tally(items.drop_last(), depth), value_tally(items.last(), depth))
    }
}

pub open spec fn members_tally(members: Seq<JsonMember>, depth: nat) -> Tally
    decreases members,
{
    if members.len() == 0 {
        tally_zero()
    } else {
        combine(
            members_tally(members.drop_last(), depth),
            member_tally(members.last(), depth),
        )
    }
}

pub open spec fn member_tally(member: JsonMember, depth: nat) -> Tally
    decreases member,
{
    combine(value_tally(member.value, depth), flag_tally(key_is_sensitive(member.key@)))
}

/// One sensitive key when `flagged`, nothing else.
pub open spec fn flag_tally(flagged: bool) -> Tally {
    Tally {
        nodes: 0,
        depth: 0,
        objects: 0,
        arrays: 0,
        scalars: 0,
        sensitive: if flagged { 1 } else { 0 },
    }
}

/// A key is sensitive when its bytes, with ASCII letters lowered, contain one of the
/// words that mark credentials, identities or user content.
pub open spec fn key_is_sensitive(key: Seq<char>) -> bool {
    bytes_are_sensitive(encode_utf8(key))
}

/// The bytes of a key, with ASCII letters lowered, contain one of the sensitive words.
pub open spec fn bytes_are_sensitive(key: Seq<u8>) -> bool {
    let hay = lower_bytes(key);
    ||| occurs_in(hay, encode_utf8("authorization"@))
    ||| occurs_in(hay, encode_utf8("cookie"@))
    ||| occurs_in(hay, encode_utf8("email"@))
    ||| occurs_in(hay, encode_utf8("owner"@))
    ||| occurs_in(hay, encode_utf8("payload"@))
    ||| occurs_in(hay, encode_utf8("secret"@))
    ||| occurs_in(hay, encode_utf8("tenant"@))
    ||| occurs_in(hay, encode_utf8("token"@))
}

/// Whether an object key names sensitive content.
pub fn is_sensitive_key(key: &str) -> (r: bool)
    ensures
        r == key_is_sensitive(key@),
{
    let lowered = lower_ascii(key.as_bytes());
    let hay = lowered.as_slice();
    occurs(hay, "authorization".as_bytes())
        || occurs(hay, "cookie".as_bytes())
        || occurs(hay, "email".as_bytes())
        || occurs(hay, "owner".as_bytes())
        || occurs(hay, "payload".as_bytes())
        || occurs(hay, "secret".as_bytes())
        || occurs(hay, "tenant".as_bytes())
        || occurs(hay, "token".as_bytes())
}


/// The most nodes that one inspected document may hold.
pub const MAX_JSON_NODES: usize = 100_000;

/// Redacted structural metrics of a JSON document.
pub struct JsonShape {
    pub nodes: usize,
    pub maximum_depth: usize,
    pub objects: usize,
    pub arrays: usize,
    pub scalar_values: usize,
    pub sensitive_key_count: usize,
}

impl JsonShape {
    pub open spec fn tally(self) -> Tally {
        Tally {
            nodes: self.nodes as nat,
            depth: self.maximum_depth as nat,
            objects: self.objects as nat,
            arrays: self.arrays as nat,
            scalars: self.scalar_values as nat,
            sensitive: self.sensitive_key_count as nat,
        }
    }
}

/// What a pending entry (a node, its depth, whether the key that led to it is
/// sensitive) still contributes.
pub open spec fn entry_tally(e: (&JsonValue, usize, bool)) -> Tally {
    combine(value_tally(*e.0, e.1 as nat), flag_tally(e.2))
}

pub open spec fn pending_tally(s: Seq<(&JsonValue, usize, bool)>) -> Tally
    decreases s.len(),
{
    if s.len() == 0 {
        tally_zero()
    } else {
        combine(pending_tally(s.drop_last()), entry_tally(s.last()))
    }
}

proof fn lemma_pending_push(s: Seq<(&JsonValue, usize, bool)>, e: (&JsonValue, usize, bool))
    ensures
        pending_tally(s.push(e)) == combine(pending_tally(s), entry_tally(e)),
{
    assert(s.push(e).drop_last() =~= s);
}

proof fn lemma_combine_zero(a: Tally)
    ensures
        combine(a, tally_zero()) == a,
{
}

proof fn lemma_combine_assoc(a: Tally, b: Tally, c: Tally)
    ensures
        combine(combine(a, b), c) == combine(a, combine(b, c)),
{
}

pub proof fn lemma_value_nodes(v: JsonValue, depth: nat)
    ensures
        value_tally(v, depth).nodes >= 1,
        value_tally(v, depth).depth >= depth,
{
}

/// Counts the nodes, nesting depth, objects, arrays, scalar values and sensitive keys
/// of `value`, without echoing any key or value. A document of more than
/// `MAX_JSON_NODES` nodes is refused.
pub fn inspect_json(value: &JsonValue) -> (r: Result<JsonShape, CliError>)
    ensures
        match r {
            Ok(shape) => value_tally(*value, 1).nodes <= MAX_JSON_NODES
                && shape.tally() == value_tally(*value, 1),
            Err(e) => e == CliError::Validation && value_tally(*value, 1).nodes > MAX_JSON_NODES,
        },
{
    let ghost total = value_tally(*value, 1);
    let mut shape = JsonShape {
        nodes: 0,
        maximum_depth: 0,
        objects: 0,
        arrays: 0,
        scalar_values: 0,
        sensitive_key_count: 0,
    };
    let mut pending: Vec<(&JsonValue, usize, bool)> = Vec::new();
    pending.push((value, 1, false));
    proof {
        lemma_pending_push(Seq::empty(), (value, 1usize, false));
        assert(Seq::<(&JsonValue, usize, bool)>::empty().push((value, 1usize, false)) =~= pending@);
    }
    while pending.len() > 0
        invariant
            combine(shape.tally(), pending_tally(pending@)) == total,
            total == value_tally(*value, 1),
            shape.nodes <= MAX_JSON_NODES,
            shape.maximum_depth <= shape.nodes,
            shape.objects <= shape.nodes,
            shape.arrays <= shape.nodes,
            shape.scalar_values <= shape.nodes,
            shape.sensitive_key_count <= shape.nodes,
            forall|i: int|
                0 <= i < pending@.len() ==> 1 <= #[trigger] pending@[i].1 <= shape.nodes + 1,
        decreases total.nodes - shape.nodes,
    {
        let ghost before = pending@;
        let (current, depth, flagged) = pending.pop().unwrap();
        let ghost base = pending@;
        proof {
            assert(before.drop_last() =~= base);
            assert(before.last() == (current, depth, flagged));
            lemma_value_nodes(*current, depth as nat);
        }
        if shape.nodes >= MAX_JSON_NODES {
            return Err(CliError::Validation);
        }
        assert(1 <= before[before.len() - 1].1 <= shape.nodes + 1);
        let ghost counted = shape.tally();
        shape.nodes = shape.nodes + 1;
        if depth > shape.maximum_depth {
            shape.maximum_depth = depth;
        }
        if flagged {
            shape.sensitive_key_count = shape.sensitive_key_count + 1;
        }
        match current {
            JsonValue::Object(members) => {
                shape.objects = shape.objects + 1;
                let n = members.len();
                for i in 0..n
                    invariant
                        n == members@.len(),
                        pending_tally(pending@) == combine(
                            pending_tally(base),
                            members_tally(members@.take(i as int), depth as nat + 1),
                        ),
                        depth <= shape.nodes,
                        shape.nodes <= MAX_JSON_NODES,
                        forall|k: int|
                            0 <= k < pending@.len() ==> 1 <= #[trigger] pending@[k].1 <= shape.nodes + 1,
                {
                    let member = &members[i];
                    let sensitive = is_sensitive_key(member.key.as_str());
                    let ghost prev = pending@;
                    pending.push((&member.value, depth + 1, sensitive));
                    proof {
                        lemma_pending_push(prev, (&member.value, (depth + 1) as usize, sensitive));
                        assert(members@.take(i + 1).drop_last() =~= members@.take(i as int));
                        lemma_combine_assoc(
                            pending_tally(base),
                            members_tally(members@.take(i as int), depth as nat + 1),
                            member_tally(*member, depth as nat + 1),
                        );
                    }
                }
                proof {
                    assert(members@.take(n as int) =~= members@);
                }
            },
            JsonValue::Array(items) => {
                shape.arrays = shape.arrays + 1;
                let n = items.len();
                for i in 0..n
                    invariant
                        n == items@.len(),
                        pending_tally(pending@) == combine(
                            pending_tally(base),
                            items_tally(items@.take(i as int), depth as nat + 1),
                        ),
                        depth <= shape.nodes,
                        shape.nodes <= MAX_JSON_NODES,
                        forall|k: int|
                            0 <= k < pending@.len() ==> 1 <= #[trigger] pending@[k].1 <= shape.nodes + 1,
                {
                    let item = &items[i];
                    let ghost prev = pending@;
                    pending.push((item, depth + 1, false));
                    proof {
                        lemma_pending_push(prev, (item, (depth + 1) as usize, false));
                        assert(items@.take(i + 1).drop_last() =~= items@.take(i as int));
                        lemma_combine_assoc(
                            pending_tally(base),
                            items_tally(items@.take(i as int), depth as nat + 1),
                            value_tally(*item, depth as nat + 1),
                        );
                    }
                }
                proof {
                    assert(items@.take(n as int) =~= items@);
                }
            },
            JsonValue::Scalar => {
                shape.scalar_values = shape.scalar_values + 1;
            },
        }
    }
    proof {
        lemma_combine_zero(shape.tally());
    }
    Ok(shape)
}


#[verifier::external_type_specification]
#[verifier::external_body]
pub struct ExJsonDocument(serde_json::Value);

/// The document that `serde_json::from_slice::<serde_json::Value>` parses from `bytes`,
/// as a `JsonValue`, or `None` where serde_json refuses the bytes.
pub uninterp spec fn json_document(bytes: Seq<u8>) -> Option<JsonValue>;

/// Converts a parsed serde_json value, one arm per variant: objects and arrays member by
/// member, every other variant to a scalar.
#[verifier::external_body]
fn document_of(value: &serde_json::Value) -> JsonValue {
    match value {
        serde_json::Value::Object(object) => JsonValue::Object(
            object.iter().map(|(key, child)| JsonMember { key: key.clone(), value: document_of(child) }).collect(),
        ),
        serde_json::Value::Array(array) => JsonValue::Array(array.iter().map(document_of).collect()),
        _ => JsonValue::Scalar,
    }
}

/// Calls `serde_json::from_slice::<serde_json::Value>` on `bytes`. Its result is named:
/// the JSON grammar, the nesting limit and the handling of repeated keys are serde_json's.
/// serde_json's default map is ordered by key, so the result depends on the bytes alone.
#[verifier::external_body]
fn serde_json_document(bytes: &[u8]) -> (r: Option<JsonValue>)
    ensures
        r == json_document(bytes@),
{
    match serde_json::from_slice::<serde_json::Value>(bytes) {
        Ok(value) => Some(document_of(&value)),
        Err(_) => None,
    }
}

/// Parses the bytes of a JSON document; bytes that are not JSON are a validation error.
pub fn parse_json(bytes: &[u8]) -> (r: Result<JsonValue, CliError>)
    ensures
        match json_document(bytes@) {
            Some(v) => r == Ok::<JsonValue, CliError>(v),
            None => r == Err::<JsonValue, CliError>(CliError::Validation),
        },
{
    match serde_json_document(bytes) {
        Some(value) => Ok(value),
        None => Err(CliError::Validation),
    }
}

} // verus!
