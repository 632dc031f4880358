//! Reading an agent's memory for signs that its interpretations have settled
//! or are still drifting apart.

use crate::agents::{Agent, MemoryTrace, TraceView};
use vstd::prelude::*;

verus! {

/// Whether a trace has more than `window` interpretants and its last `window`
/// interpretants all carry the same description.
pub open spec fn is_settled(trace: TraceView, window: usize) -> bool {
    let meanings = trace.interpretants;
    &&& meanings.len() > window
    &&& forall|i: int|
        meanings.len() - window <= i < meanings.len() ==> (#[trigger] meanings[i]).description
            == meanings[meanings.len() - window].description
}

/// Whether every trace is settled over the window.
pub open spec fn all_settled(traces: Seq<TraceView>, window: usize) -> bool {
    forall|t: int| 0 <= t < traces.len() ==> is_settled(#[trigger] traces[t], window)
}

/// Whether a trace has more than `window` interpretants and two neighbours
/// among its last `window` interpretants differ in description.
pub open spec fn is_drifting(trace: TraceView, window: usize) -> bool {
    let meanings = trace.interpretants;
    &&& meanings.len() > window
    &&& exists|i: int|
        meanings.len() - window <= i < meanings.len() - 1 && (#[trigger] meanings[i]).description
            != meanings[i + 1].description
}

/// Whether some trace is drifting over the window.
pub open spec fn any_drifting(traces: Seq<TraceView>, window: usize) -> bool {
    exists|t: int| 0 <= t < traces.len() && is_drifting(#[trigger] traces[t], window)
}

/// Whether one trace is settled over the window.
fn trace_is_settled(trace: &MemoryTrace, window: usize) -> (r: bool)
    ensures
        r == is_settled(trace@, window),
{
    let meanings = &trace.interpretants;
    let ghost views = trace@.interpretants;
    if meanings.len() <= window {
        return false;
    }
    let start = meanings.len() - window;
    let mut i = start;
    while i < meanings.len()
        invariant
            views == trace@.interpretants,
            meanings@ == trace.interpretants@,
            meanings@.len() > window,
            start == meanings@.len() - window,
            start <= i <= meanings@.len(),
            forall|j: int|
                start <= j < i ==> (#[trigger] views[j]).description == views[start as int].description,
        decreases meanings@.len() - i,
    {
        assert(views[i as int] == meanings@[i as int]@);
        assert(views[start as int] == meanings@[start as int]@);
        if !(meanings[i].description == meanings[start].description) {
            return false;
        }
        i += 1;
    }
    true
}

/// Whether one trace is drifting over the window.
fn trace_is_drifting(trace: &MemoryTrace, window: usize) -> (r: bool)
    ensures
        r == is_drifting(trace@, window),
{
    let meanings = &trace.interpretants;
    let ghost views = trace@.interpretants;
    if meanings.len() <= window {
        return false;
    }
    let start = meanings.len() - window;
    let last = meanings.len() - 1;
    let mut i = start;
    while i < last
        invariant
            views == trace@.interpretants,
            meanings@ == trace.interpretants@,
            meanings@.len() > window,
            start == meanings@.len() - window,
            last == meanings@.len() - 1,
            start <= i <= meanings@.len(),
            forall|j: int|
                start <= j < i ==> (#[trigger] views[j]).description == views[j + 1].description,
        decreases meanings@.len() - i,
    {
        assert(views[i as int] == meanings@[i as int]@);
        assert(views[i + 1] == meanings@[i + 1]@);
        if !(meanings[i].description == meanings[i + 1].description) {
            assert(views[i as int].description != views[i + 1].description);
            return true;
        }
        i += 1;
    }
    false
}

/// Whether the agent's interpretations have settled: every trace has more
/// than `window` interpretants, and the last `window` of them all carry the
/// same description. One trace with too short a history is enough to make
/// this false; an agent without traces is settled.
pub fn detect_symmetry(agent: &Agent, window: usize) -> (r: bool)
    ensures
        r == all_settled(agent@.memory.traces, window),
        agent@.memory.traces.len() == 0 ==> r,
        (exists|t: int|
            0 <= t < agent@.memory.traces.len() && (
            #[trigger] agent@.memory.traces[t]).interpretants.len() < window + 1) ==> !r,
{
    let traces = &agent.memory.traces;
    let ghost views = agent@.memory.traces;
    let mut t: usize = 0;
    while t < traces.len()
        invariant
            views == agent@.memory.traces,
            traces@ == agent.memory.traces@,
            t <= traces@.len(),
            forall|k: int| 0 <= k < t ==> is_settled(#[trigger] views[k], window),
        decreases traces@.len() - t,
    {
        assert(views[t as int] == traces@[t as int]@);
        if !trace_is_settled(&traces[t], window) {
            return false;
        }
        t += 1;
    }
    true
}

/// Whether the agent's interpretations are still drifting: in some trace
/// with more than `window` interpretants, two neighbours among the last
/// `window` differ in description. Traces with a shorter history are passed
/// over.
pub fn detect_differentiation(agent: &Agent, window: usize) -> (r: bool)
    ensures
        r == any_drifting(agent@.memory.traces, window),
{
    let traces = &agent.memory.traces;
    let ghost views = agent@.memory.traces;
    let mut t: usize = 0;
    while t < traces.len()
        invariant
            views == agent@.memory.traces,
            traces@ == agent.memory.traces@,
            t <= traces@.len(),
            forall|k: int| 0 <= k < t ==> !is_drifting(#[trigger] views[k], window),
        decreases traces@.len() - t,
    {
        assert(views[t as int] == traces@[t as int]@);
        if trace_is_drifting(&traces[t], window) {
            return true;
        }
        t += 1;
    }
    false
}

/// Whether the agent has reached an attractor; the same as
/// [`detect_symmetry`].
pub fn detect_attractor(agent: &Agent, window: usize) -> (r: bool)
    ensures
        r == all_settled(agent@.memory.traces, window),
{
    detect_symmetry(agent, window)
}

} // verus!
