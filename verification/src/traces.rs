use vstd::prelude::*;
use vstd::utf8::encode_utf8;

use crate::error::CliError;

verus! {

/// One recorded policy history: the events applied to a write and the states it passed
/// through, starting from `proposed`.
///
/// `outcomes[j]` is the state that the policy's transition function decides for
/// `events[j]` taken from `states[j]` under `strategy`, or `None` where the policy
/// rejects that transition. A missing entry counts as a rejected transition.
pub struct Trace {
    pub name: String,
    pub strategy: String,
    pub events: Vec<String>,
    pub states: Vec<String>,
    pub outcomes: Vec<Option<String>>,
}

/// A committed file of policy traces.
pub struct TraceSet {
    pub schema: String,
    pub traces: Vec<Trace>,
}

/// What a replay that matched every recorded state reports.
pub struct ReplaySummary {
    pub trace_count: usize,
    pub event_count: usize,
}

pub const TRACE_SCHEMA: &'static str = "opto-sync.optimism-traces.v1";

pub const MAX_TRACE_COUNT: usize = 128;

pub const MAX_TRACE_EVENTS: usize = 1_024;

pub const MAX_TRACE_NAME_BYTES: usize = 128;

/// The trace at index `i` is well formed: a name of 1 to 128 bytes that no earlier
/// trace carries, 1 to `MAX_TRACE_EVENTS` events, one recorded state more than there are
/// events, and `proposed` as the first state.
pub open spec fn trace_well_formed(ts: Seq<Trace>, i: int) -> bool {
    let t = ts[i];
    &&& t.name@.len() != 0
    &&& encode_utf8(t.name@).len() <= MAX_TRACE_NAME_BYTES
    &&& forall|j: int| 0 <= j < i ==> (#[trigger] ts[j]).name@ != t.name@
    &&& t.events@.len() != 0
    &&& t.events@.len() <= MAX_TRACE_EVENTS
    &&& t.states@.len() == t.events@.len() + 1
    &&& t.states@[0]@ == "proposed"@
}

/// Event `j` of `t` leads to the state recorded after it.
pub open spec fn step_matches(t: Trace, j: int) -> bool {
    &&& j < t.outcomes@.len()
    &&& t.outcomes@[j] matches Some(next)
    &&& next@ == t.states@[j + 1]@
}

/// Every event of `t` leads to the state recorded after it.
pub open spec fn trace_replays(t: Trace) -> bool {
    forall|j: int| 0 <= j < t.events@.len() ==> #[trigger] step_matches(t, j)
}

/// The failure, if any, of the trace at index `i`.
pub open spec fn trace_failure(ts: Seq<Trace>, i: int) -> Option<CliError> {
    if !trace_well_formed(ts, i) {
        Some(CliError::Validation)
    } else if !trace_replays(ts[i]) {
        Some(CliError::Replay)
    } else {
        None
    }
}

/// The failure of the first of the first `n` traces that fails, if any.
pub open spec fn first_failure(ts: Seq<Trace>, n: int) -> Option<CliError>
    decreases n,
{
    if n <= 0 {
        None
    } else {
        match first_failure(ts, n - 1) {
            Some(e) => Some(e),
            None => trace_failure(ts, n - 1),
        }
    }
}

pub open spec fn event_total(ts: Seq<Trace>) -> nat
    decreases ts.len(),
{
    if ts.len() == 0 {
        0
    } else {
        event_total(ts.drop_last()) + ts.last().events@.len()
    }
}

/// The trace set itself is acceptable: the expected schema and 1 to `MAX_TRACE_COUNT`
/// traces.
pub open spec fn trace_set_header_ok(set: TraceSet) -> bool {
    &&& set.schema@ == TRACE_SCHEMA@
    &&& set.traces@.len() != 0
    &&& set.traces@.len() <= MAX_TRACE_COUNT
}

pub open spec fn replay_result(set: TraceSet) -> Result<(nat, nat), CliError> {
    if !trace_set_header_ok(set) {
        Err(CliError::Validation)
    } else {
        match first_failure(set.traces@, set.traces@.len() as int) {
            Some(e) => Err(e),
            None => Ok((set.traces@.len(), event_total(set.traces@))),
        }
    }
}

/// Whether every event of `trace` leads to the state recorded after it. Requires a
/// well-formed trace, so that each event has a recorded successor state.
fn replay_trace(trace: &Trace) -> (r: bool)
    requires
        trace.states@.len() == trace.events@.len() + 1,
    ensures
        r == trace_replays(*trace),
{
    let n = trace.events.len();
    let mut j: usize = 0;
    while j < n
        invariant
            n == trace.events@.len(),
            trace.states@.len() == n + 1,
            j <= n,
            forall|k: int| 0 <= k < j ==> #[trigger] step_matches(*trace, k),
        decreases n - j,
    {
        if j >= trace.outcomes.len() {
            assert(!step_matches(*trace, j as int));
            return false;
        }
        match &trace.outcomes[j] {
            Some(next) => {
                if !(*next == trace.states[j + 1]) {
                    assert(!step_matches(*trace, j as int));
                    return false;
                }
            },
            None => {
                assert(!step_matches(*trace, j as int));
                return false;
            },
        }
        assert(step_matches(*trace, j as int));
        j = j + 1;
    }
    true
}

/// Checks the well-formedness of the trace at index `i`.
fn trace_is_well_formed(traces: &Vec<Trace>, i: usize, proposed: &String) -> (r: bool)
    requires
        i < traces@.len(),
        proposed@ == "proposed"@,
    ensures
        r == trace_well_formed(traces@, i as int),
{
    let trace = &traces[i];
    let name_bytes = trace.name.as_str().as_bytes().len();
    if trace.name.as_str().is_empty() || name_bytes > MAX_TRACE_NAME_BYTES {
        return false;
    }
    let mut j: usize = 0;
    while j < i
        invariant
            j <= i,
            i < traces@.len(),
            forall|k: int| 0 <= k < j ==> (#[trigger] traces@[k]).name@ != traces@[i as int].name@,
        decreases i - j,
    {
        if traces[j].name == traces[i].name {
            return false;
        }
        j = j + 1;
    }
    if trace.events.len() == 0 || trace.events.len() > MAX_TRACE_EVENTS {
        return false;
    }
    if trace.states.len() != trace.events.len() + 1 {
        return false;
    }
    trace.states[0] == *proposed
}

/// Replays every trace against the policy decisions recorded with it. The set must carry
/// the trace schema and 1 to `MAX_TRACE_COUNT` traces; traces are checked in order, and
/// the first that is malformed is a validation error, the first whose decisions leave the
/// recorded states is a replay error.
pub fn replay_traces(set: &TraceSet) -> (r: Result<ReplaySummary, CliError>)
    ensures
        match replay_result(*set) {
            Ok((traces, events)) => r matches Ok(summary) && summary.trace_count == traces
                && summary.event_count == events,
            Err(e) => r == Err::<ReplaySummary, CliError>(e),
        },
{
    let expected = TRACE_SCHEMA.to_owned();
    if !(set.schema == expected) || set.traces.len() == 0 || set.traces.len() > MAX_TRACE_COUNT {
        return Err(CliError::Validation);
    }
    let proposed = "proposed".to_owned();
    let n = set.traces.len();
    let mut event_count: usize = 0;
    let mut i: usize = 0;
    while i < n
        invariant
            n == set.traces@.len(),
            n <= MAX_TRACE_COUNT,
            i <= n,
            proposed@ == "proposed"@,
            trace_set_header_ok(*set),
            first_failure(set.traces@, i as int) is None,
            event_count == event_total(set.traces@.take(i as int)),
            event_count <= i * MAX_TRACE_EVENTS,
        decreases n - i,
    {
        let ghost ts = set.traces@;
        if !trace_is_well_formed(&set.traces, i, &proposed) {
            assert(first_failure(ts, i + 1) == Some(CliError::Validation));
            proof { lemma_first_failure_stops(ts, i + 1, n as int); }
            return Err(CliError::Validation);
        }
        if !replay_trace(&set.traces[i]) {
            assert(first_failure(ts, i + 1) == Some(CliError::Replay));
            proof { lemma_first_failure_stops(ts, i + 1, n as int); }
            return Err(CliError::Replay);
        }
        proof {
            assert(ts.take(i + 1).drop_last() =~= ts.take(i as int));
            assert(ts.take(i + 1).last() == ts[i as int]);
        }
        event_count = event_count + set.traces[i].events.len();
        i = i + 1;
    }
    proof {
        assert(set.traces@.take(n as int) =~= set.traces@);
    }
    Ok(ReplaySummary { trace_count: n, event_count })
}

proof fn lemma_first_failure_stops(ts: Seq<Trace>, m: int, n: int)
    requires
        0 <= m <= n,
        first_failure(ts, m) is Some,
    ensures
        first_failure(ts, n) == first_failure(ts, m),
    decreases n - m,
{
    if n > m {
        lemma_first_failure_stops(ts, m, n - 1);
    }
}

} // verus!
