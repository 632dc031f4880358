//! Agents and their memory: traces of expressed symbols that gain stability
//! when interpreted and lose it as time passes.

use crate::substrate::{level_in, projected, Pattern, Substrate};
use crate::symbol::{meaning_of, Meaning, MeaningView, Symbol, SymbolView};
use crate::units::{reinforce, reinforced, weaken, weakened, INTERPRET_DELTA, UNIT};
use std::collections::VecDeque;
use vstd::hash_map::StringHashMap;
use vstd::prelude::*;

verus! {

/// The record of one expressed symbol.
#[derive(Debug)]
pub struct MemoryTrace {
    /// The symbol that was expressed.
    pub symbol: Symbol,
    /// The recursion index at which it was expressed.
    pub tau_index: usize,
    /// How firmly the trace is held, from 0 to `UNIT`.
    pub stability: u64,
    /// Every meaning the symbol has been given, oldest first.
    pub interpretants: Vec<Meaning>,
}

/// What a [`MemoryTrace`] is, as plain values.
pub struct TraceView {
    pub symbol: SymbolView,
    pub tau_index: usize,
    pub stability: u64,
    pub interpretants: Seq<MeaningView>,
}

/// The views of a sequence of meanings.
pub open spec fn meaning_views(meanings: Seq<Meaning>) -> Seq<MeaningView> {
    meanings.map_values(|m: Meaning| m@)
}

/// The views of a sequence of traces.
pub open spec fn trace_views(traces: Seq<MemoryTrace>) -> Seq<TraceView> {
    traces.map_values(|t: MemoryTrace| t@)
}

impl TraceView {
    /// Whether the stability lies between 0 and `UNIT`.
    pub open spec fn in_range(self) -> bool {
        self.stability <= UNIT
    }

    /// The trace with `delta` added to its stability, clamped to the range.
    pub open spec fn reinforced(self, delta: i64) -> TraceView {
        TraceView { stability: reinforced(self.stability, delta), ..self }
    }

    /// The trace with `rate` taken from its stability, floored at 0.
    pub open spec fn weakened(self, rate: u64) -> TraceView {
        TraceView { stability: weakened(self.stability, rate), ..self }
    }

    /// The trace with one more interpretant at the end.
    pub open spec fn with_meaning(self, meaning: MeaningView) -> TraceView {
        TraceView { interpretants: self.interpretants.push(meaning), ..self }
    }
}

impl View for MemoryTrace {
    type V = TraceView;

    open spec fn view(&self) -> TraceView {
        TraceView {
            symbol: self.symbol@,
            tau_index: self.tau_index,
            stability: self.stability,
            interpretants: meaning_views(self.interpretants@),
        }
    }
}

impl Clone for MemoryTrace {
    fn clone(&self) -> (r: MemoryTrace)
        ensures
            r@ == self@,
    {
        let mut interpretants: Vec<Meaning> = Vec::new();
        let mut i: usize = 0;
        while i < self.interpretants.len()
            invariant
                i <= self.interpretants@.len(),
                interpretants@.len() == i,
                forall|j: int| 0 <= j < i ==> (#[trigger] interpretants@[j])@ == self.interpretants@[j]@,
            decreases self.interpretants@.len() - i,
        {
            interpretants.push(self.interpretants[i].clone());
            i += 1;
        }
        assert(meaning_views(interpretants@) =~= meaning_views(self.interpretants@));
        MemoryTrace {
            symbol: self.symbol.clone(),
            tau_index: self.tau_index,
            stability: self.stability,
            interpretants,
        }
    }
}

impl MemoryTrace {
    /// Adds `delta` to the stability and clamps the sum to the range from 0
    /// to `UNIT`. Whatever the stability was, it is in range afterwards.
    pub fn reinforce(&mut self, delta: i64)
        ensures
            final(self)@ == old(self)@.reinforced(delta),
            final(self)@.in_range(),
    {
        self.stability = reinforce(self.stability, delta);
    }

    /// Takes `rate` from the stability, stopping at 0. A stability that was
    /// in range stays in range.
    pub fn decay(&mut self, rate: u64)
        ensures
            final(self)@ == old(self)@.weakened(rate),
            old(self)@.in_range() ==> final(self)@.in_range(),
    {
        self.stability = weaken(self.stability, rate);
    }
}

/// One step in the life of a trace's stability.
pub enum StabilityStep {
    /// A reinforcement by a signed amount.
    Reinforce(i64),
    /// A decay at a rate.
    Decay(u64),
}

/// The stability that a run of reinforcements and decays leaves behind.
pub open spec fn stability_after(stability: u64, steps: Seq<StabilityStep>) -> u64
    decreases steps.len(),
{
    if steps.len() == 0 {
        stability
    } else {
        let before = stability_after(stability, steps.drop_last());
        match steps.last() {
            StabilityStep::Reinforce(delta) => reinforced(before, delta),
            StabilityStep::Decay(rate) => weakened(before, rate),
        }
    }
}

/// A stability that starts between 0 and `UNIT` is still there after any run
/// of reinforcements and decays; once a reinforcement has happened it is
/// there whatever it started from.
pub proof fn lemma_stability_stays_in_range(stability: u64, steps: Seq<StabilityStep>)
    requires
        stability <= UNIT,
    ensures
        stability_after(stability, steps) <= UNIT,
    decreases steps.len(),
{
    if steps.len() > 0 {
        lemma_stability_stays_in_range(stability, steps.drop_last());
    }
}

/// The traces of a field after `trace` has asked for admission at threshold
/// `eta`: unchanged if the trace is below the threshold; otherwise the trace
/// is appended, after the oldest trace has been dropped if the field was
/// already holding `max_traces` or more.
pub open spec fn admitted(
    traces: Seq<TraceView>,
    max_traces: usize,
    trace: TraceView,
    eta: u64,
) -> Seq<TraceView> {
    if trace.stability >= eta {
        if traces.len() >= max_traces && traces.len() > 0 {
            traces.drop_first().push(trace)
        } else {
            traces.push(trace)
        }
    } else {
        traces
    }
}

/// The traces of a field after each of `incoming` has asked for admission in
/// turn.
pub open spec fn admitted_all(
    traces: Seq<TraceView>,
    max_traces: usize,
    incoming: Seq<TraceView>,
    eta: u64,
) -> Seq<TraceView>
    decreases incoming.len(),
{
    if incoming.len() == 0 {
        traces
    } else {
        admitted(
            admitted_all(traces, max_traces, incoming.drop_last(), eta),
            max_traces,
            incoming.last(),
            eta,
        )
    }
}

/// A field with room for at least one trace that holds no more than
/// `max_traces` traces still holds no more after any run of admissions.
pub proof fn lemma_admissions_stay_within_capacity(
    traces: Seq<TraceView>,
    max_traces: usize,
    incoming: Seq<TraceView>,
    eta: u64,
)
    requires
        max_traces >= 1,
        traces.len() <= max_traces,
    ensures
        admitted_all(traces, max_traces, incoming, eta).len() <= max_traces,
    decreases incoming.len(),
{
    if incoming.len() > 0 {
        lemma_admissions_stay_within_capacity(traces, max_traces, incoming.drop_last(), eta);
    }
}

/// When a full field admits a trace, it is the oldest trace that leaves,
/// whatever its stability and whatever the stability of the newcomer: every
/// other trace moves up one place, and the newcomer stands last.
pub proof fn lemma_admission_evicts_oldest(
    traces: Seq<TraceView>,
    max_traces: usize,
    trace: TraceView,
    eta: u64,
)
    requires
        max_traces >= 1,
        traces.len() == max_traces,
        trace.stability >= eta,
    ensures
        admitted(traces, max_traces, trace, eta).len() == max_traces,
        admitted(traces, max_traces, trace, eta).last() == trace,
        forall|i: int|
            0 <= i < max_traces - 1 ==> #[trigger] admitted(traces, max_traces, trace, eta)[i]
                == traces[i + 1],
{
}

/// The traces after every one that carries `symbol` has been reinforced.
pub open spec fn reinforced_traces(
    traces: Seq<TraceView>,
    symbol: SymbolView,
    delta: i64,
) -> Seq<TraceView> {
    traces.map_values(
        |t: TraceView|
            if t.symbol == symbol {
                t.reinforced(delta)
            } else {
                t
            },
    )
}

/// Whether a trace still has any stability.
pub open spec fn is_alive(trace: TraceView) -> bool {
    trace.stability > 0
}

/// The traces after every one has decayed and those left without stability
/// have been removed.
pub open spec fn decayed_traces(traces: Seq<TraceView>, rate: u64) -> Seq<TraceView> {
    traces.map_values(|t: TraceView| t.weakened(rate)).filter(|t: TraceView| is_alive(t))
}

/// Whether `i` is the position of the first trace that carries `symbol`.
pub open spec fn is_first_match(traces: Seq<TraceView>, symbol: SymbolView, i: int) -> bool {
    &&& 0 <= i < traces.len()
    &&& traces[i].symbol == symbol
    &&& forall|j: int| 0 <= j < i ==> (#[trigger] traces[j]).symbol != symbol
}

/// Whether any trace carries `symbol`.
pub open spec fn has_match(traces: Seq<TraceView>, symbol: SymbolView) -> bool {
    exists|i: int| 0 <= i < traces.len() && (#[trigger] traces[i]).symbol == symbol
}

/// The position of the first trace that carries `symbol`, where there is one.
pub open spec fn first_match(traces: Seq<TraceView>, symbol: SymbolView) -> int {
    choose|i: int| is_first_match(traces, symbol, i)
}

/// The traces after `meaning` has been appended to the interpretants of the
/// first trace that carries `symbol`; unchanged if none does.
pub open spec fn recorded(
    traces: Seq<TraceView>,
    symbol: SymbolView,
    meaning: MeaningView,
) -> Seq<TraceView> {
    if has_match(traces, symbol) {
        let i = first_match(traces, symbol);
        traces.update(i, traces[i].with_meaning(meaning))
    } else {
        traces
    }
}

/// A first match is the only first match.
pub proof fn lemma_first_match_unique(traces: Seq<TraceView>, symbol: SymbolView, i: int)
    requires
        is_first_match(traces, symbol, i),
    ensures
        has_match(traces, symbol),
        first_match(traces, symbol) == i,
{
    let j = first_match(traces, symbol);
    assert(is_first_match(traces, symbol, j));
    if j < i {
        assert(traces[j].symbol != symbol);
    }
    if i < j {
        assert(traces[i].symbol != symbol);
    }
}

/// The sum of the stabilities of a sequence of traces.
pub open spec fn stability_sum(traces: Seq<TraceView>) -> nat
    decreases traces.len(),
{
    if traces.len() == 0 {
        0
    } else {
        stability_sum(traces.drop_last()) + traces.last().stability as nat
    }
}

/// Where some trace carries the symbol, one of them is the first.
pub proof fn lemma_first_match_exists(traces: Seq<TraceView>, symbol: SymbolView)
    requires
        has_match(traces, symbol),
    ensures
        is_first_match(traces, symbol, first_match(traces, symbol)),
{
    let i = choose|i: int| 0 <= i < traces.len() && (#[trigger] traces[i]).symbol == symbol;
    lemma_match_has_first(traces, symbol, i);
}

/// A trace that carries the symbol is the first to do so, or comes after the
/// first.
proof fn lemma_match_has_first(traces: Seq<TraceView>, symbol: SymbolView, i: int)
    requires
        0 <= i < traces.len(),
        traces[i].symbol == symbol,
    ensures
        exists|k: int| is_first_match(traces, symbol, k),
    decreases i,
{
    if forall|j: int| 0 <= j < i ==> (#[trigger] traces[j]).symbol != symbol {
        assert(is_first_match(traces, symbol, i));
    } else {
        let j = choose|j: int| 0 <= j < i && (#[trigger] traces[j]).symbol == symbol;
        lemma_match_has_first(traces, symbol, j);
    }
}

/// A bounded store of memory traces, oldest first.
#[derive(Debug)]
pub struct MemoryField {
    /// The traces held, in the order they were admitted.
    pub traces: VecDeque<MemoryTrace>,
    /// How many traces the field is meant to hold.
    pub max_traces: usize,
}

/// What a [`MemoryField`] is, as plain values.
pub struct MemoryFieldView {
    pub traces: Seq<TraceView>,
    pub max_traces: usize,
}

impl MemoryFieldView {
    /// Whether the field holds no more traces than it is meant to.
    pub open spec fn within_capacity(self) -> bool {
        self.traces.len() <= self.max_traces
    }
}

impl View for MemoryField {
    type V = MemoryFieldView;

    open spec fn view(&self) -> MemoryFieldView {
        MemoryFieldView { traces: trace_views(self.traces@), max_traces: self.max_traces }
    }
}

impl Default for MemoryField {
    fn default() -> (r: MemoryField)
        ensures
            r@ == (MemoryFieldView { traces: Seq::empty(), max_traces: 0 }),
    {
        let r = MemoryField { traces: VecDeque::new(), max_traces: 0 };
        assert(r@.traces =~= Seq::empty());
        r
    }
}

impl MemoryField {
    /// Admits `trace` if its stability is at least `eta`. A field that
    /// already holds `max_traces` traces or more first gives up its oldest
    /// one, whatever that trace's stability.
    pub fn admit_trace(&mut self, trace: MemoryTrace, eta: u64)
        ensures
            final(self)@ == (MemoryFieldView {
                traces: admitted(old(self)@.traces, old(self)@.max_traces, trace@, eta),
                max_traces: old(self)@.max_traces,
            }),
            old(self)@.within_capacity() && old(self)@.max_traces >= 1
                ==> final(self)@.within_capacity(),
    {
        if trace.stability >= eta {
            if self.traces.len() >= self.max_traces {
                let _ = self.traces.pop_front();
            }
            self.traces.push_back(trace);
            assert(self@.traces =~= admitted(
                old(self)@.traces,
                old(self)@.max_traces,
                trace@,
                eta,
            ));
        }
    }

    /// Reinforces every trace whose symbol equals `symbol`, token and
    /// pattern both.
    pub fn reinforce_symbol(&mut self, symbol: &Symbol, delta: i64)
        ensures
            final(self)@ == (MemoryFieldView {
                traces: reinforced_traces(old(self)@.traces, symbol@, delta),
                max_traces: old(self)@.max_traces,
            }),
    {
        let n = self.traces.len();
        let mut i: usize = 0;
        while i < n
            invariant
                i <= n,
                n == old(self).traces@.len(),
                self.traces@.len() == n,
                self.max_traces == old(self).max_traces,
                forall|j: int| 0 <= j < n - i ==> self.traces@[j] == old(self).traces@[i + j],
                forall|k: int|
                    n - i <= k < n ==> (#[trigger] self.traces@[k])@ == reinforced_traces(
                        old(self)@.traces,
                        symbol@,
                        delta,
                    )[k - (n - i)],
            decreases n - i,
        {
            let mut trace = self.traces.pop_front().unwrap();
            if trace.symbol == *symbol {
                trace.reinforce(delta);
            }
            self.traces.push_back(trace);
            i += 1;
        }
        assert(self@.traces =~= reinforced_traces(old(self)@.traces, symbol@, delta));
    }

    /// Lets every trace decay by `rate` and removes the traces that are left
    /// without stability.
    pub fn decay_all(&mut self, rate: u64)
        ensures
            final(self)@ == (MemoryFieldView {
                traces: decayed_traces(old(self)@.traces, rate),
                max_traces: old(self)@.max_traces,
            }),
            final(self)@.traces.len() <= old(self)@.traces.len(),
            forall|i: int|
                0 <= i < final(self)@.traces.len() ==> (#[trigger] final(self)@.traces[i]).stability
                    > 0,
    {
        let n = self.traces.len();
        let ghost before = old(self)@.traces;
        let ghost weaken_one = |t: TraceView| t.weakened(rate);
        let ghost alive = |t: TraceView| is_alive(t);
        let mut i: usize = 0;
        while i < n
            invariant
                i <= n,
                n == old(self).traces@.len(),
                before == old(self)@.traces,
                weaken_one == |t: TraceView| t.weakened(rate),
                alive == |t: TraceView| is_alive(t),
                self.max_traces == old(self).max_traces,
                self.traces@.len() >= n - i,
                self.traces@.len() <= n,
                forall|j: int| 0 <= j < n - i ==> self.traces@[j] == old(self).traces@[i + j],
                trace_views(self.traces@.skip(n - i)) == before.take(i as int).map_values(
                    weaken_one,
                ).filter(alive),
            decreases n - i,
        {
            let ghost kept = self.traces@.skip(n - i);
            let mut trace = self.traces.pop_front().unwrap();
            trace.decay(rate);
            proof {
                let scaled = before.take(i + 1).map_values(weaken_one);
                assert(scaled.drop_last() =~= before.take(i as int).map_values(weaken_one));
                assert(scaled.last() == trace@);
                reveal(Seq::filter);
            }
            if trace.stability > 0 {
                self.traces.push_back(trace);
                assert(self.traces@.skip(n - i - 1) =~= kept.push(trace));
                assert(trace_views(kept.push(trace)) =~= trace_views(kept).push(trace@));
            } else {
                assert(self.traces@.skip(n - i - 1) =~= kept);
            }
            i += 1;
        }
        assert(self.traces@.skip(0) =~= self.traces@);
        assert(before.take(n as int) =~= before);
        proof {
            broadcast use vstd::seq_lib::group_filter_ensures;

            assert forall|k: int| 0 <= k < self@.traces.len() implies (#[trigger] self@.traces[k]).stability
                > 0 by {
                assert(alive(before.map_values(weaken_one).filter(alive)[k]));
            }
        }
    }

    /// The sum of the stabilities of all traces held.
    pub fn total_stability(&self) -> (r: u128)
        ensures
            r == stability_sum(self@.traces),
    {
        let mut sum: u128 = 0;
        let mut i: usize = 0;
        while i < self.traces.len()
            invariant
                i <= self.traces@.len(),
                sum == stability_sum(self@.traces.take(i as int)),
                sum <= i * u64::MAX,
            decreases self.traces@.len() - i,
        {
            proof {
                assert(self@.traces.take(i + 1).drop_last() =~= self@.traces.take(i as int));
                assert((i + 1) * u64::MAX == i * u64::MAX + u64::MAX) by (nonlinear_arith);
                assert(i * u64::MAX <= u64::MAX * u64::MAX) by (nonlinear_arith)
                    requires
                        i <= u64::MAX,
                ;
            }
            sum = sum + self.traces[i].stability as u128;
            i += 1;
        }
        assert(self@.traces.take(i as int) =~= self@.traces);
        sum
    }

    /// The first trace whose symbol equals `symbol`, if there is one.
    pub fn find(&self, symbol: &Symbol) -> (r: Option<&MemoryTrace>)
        ensures
            r is Some <==> has_match(self@.traces, symbol@),
            r matches Some(trace) ==> *trace == self.traces@[first_match(self@.traces, symbol@)],
    {
        match self.position(symbol) {
            Some(i) => Some(&self.traces[i]),
            None => None,
        }
    }

    /// The position of the first trace whose symbol equals `symbol`.
    fn position(&self, symbol: &Symbol) -> (r: Option<usize>)
        ensures
            r is Some <==> has_match(self@.traces, symbol@),
            r matches Some(i) ==> i < self.traces@.len() && i == first_match(
                self@.traces,
                symbol@,
            ),
    {
        let mut i: usize = 0;
        while i < self.traces.len()
            invariant
                i <= self.traces@.len(),
                forall|j: int| 0 <= j < i ==> (#[trigger] self@.traces[j]).symbol != symbol@,
            decreases self.traces@.len() - i,
        {
            if self.traces[i].symbol == *symbol {
                proof {
                    assert(self@.traces[i as int].symbol == symbol@);
                    lemma_first_match_unique(self@.traces, symbol@, i as int);
                }
                return Some(i);
            }
            i += 1;
        }
        None
    }

    /// Appends a copy of `meaning` to the interpretants of the first trace
    /// whose symbol equals `symbol`; does nothing if there is none.
    fn record(&mut self, symbol: &Symbol, meaning: &Meaning)
        ensures
            final(self)@ == (MemoryFieldView {
                traces: recorded(old(self)@.traces, symbol@, meaning@),
                max_traces: old(self)@.max_traces,
            }),
    {
        if let Some(i) = self.position(symbol) {
            let mut trace = self.traces.remove(i).unwrap();
            let ghost before = trace@;
            trace.interpretants.push(meaning.clone());
            assert(trace@.interpretants =~= before.interpretants.push(meaning@));
            self.traces.insert(i, trace);
            assert(self@.traces =~= recorded(old(self)@.traces, symbol@, meaning@));
        }
    }
}

/// A trace as it is when its symbol has just been expressed: fully stable,
/// not yet interpreted.
pub open spec fn fresh_trace(symbol: SymbolView, tau: usize) -> TraceView {
    TraceView { symbol, tau_index: tau, stability: UNIT, interpretants: Seq::empty() }
}

/// The patterns of a symbol table, as text.
pub open spec fn binding_views(table: Map<Seq<char>, Pattern>) -> Map<Seq<char>, Seq<char>> {
    table.map_values(|p: Pattern| p@)
}

/// An agent: a table that binds tokens to patterns, and a memory of what the
/// agent has expressed.
pub struct Agent {
    /// The agent's name.
    pub id: String,
    /// The pattern each token is currently bound to.
    pub symbol_table: StringHashMap<Pattern>,
    /// The traces of what the agent has expressed.
    pub memory: MemoryField,
    /// The stability a trace needs to be admitted to memory.
    pub coherence_threshold: u64,
}

/// What an [`Agent`] is, as plain values.
pub struct AgentView {
    pub id: Seq<char>,
    pub bindings: Map<Seq<char>, Seq<char>>,
    pub memory: MemoryFieldView,
    pub coherence_threshold: u64,
}

impl AgentView {
    /// Whether the agent's current binding for the symbol's token is the
    /// symbol's pattern.
    pub open spec fn binds(self, symbol: SymbolView) -> bool {
        self.bindings.contains_key(symbol.token) && self.bindings[symbol.token] == symbol.pattern
    }

    /// The agent after it has expressed `token` with `pattern` at `tau`: the
    /// token is bound to the pattern, and a fresh trace has asked for
    /// admission at the agent's threshold.
    pub open spec fn expressed(self, token: Seq<char>, pattern: Seq<char>, tau: usize) -> AgentView {
        AgentView {
            bindings: self.bindings.insert(token, pattern),
            memory: MemoryFieldView {
                traces: admitted(
                    self.memory.traces,
                    self.memory.max_traces,
                    fresh_trace(SymbolView { token, pattern }, tau),
                    self.coherence_threshold,
                ),
                max_traces: self.memory.max_traces,
            },
            ..self
        }
    }

    /// The agent after it has been asked to interpret `symbol` at `tau`.
    /// Where the agent binds the symbol, every trace of the symbol is
    /// reinforced by [`INTERPRET_DELTA`] and the new meaning is recorded with
    /// the first of them; where it does not, nothing changes.
    pub open spec fn interpreted(self, symbol: SymbolView, tau: usize) -> AgentView {
        if self.binds(symbol) {
            AgentView {
                memory: MemoryFieldView {
                    traces: recorded(
                        reinforced_traces(self.memory.traces, symbol, INTERPRET_DELTA),
                        symbol,
                        meaning_of(symbol, tau),
                    ),
                    max_traces: self.memory.max_traces,
                },
                ..self
            }
        } else {
            self
        }
    }

    /// The agent after its memory has decayed by `rate`.
    pub open spec fn decayed(self, rate: u64) -> AgentView {
        AgentView {
            memory: MemoryFieldView {
                traces: decayed_traces(self.memory.traces, rate),
                max_traces: self.memory.max_traces,
            },
            ..self
        }
    }
}

/// Whether every trace has its stability between 0 and `UNIT`.
pub open spec fn all_in_range(traces: Seq<TraceView>) -> bool {
    forall|i: int| 0 <= i < traces.len() ==> (#[trigger] traces[i]).in_range()
}

/// An agent whose traces all have their stability between 0 and `UNIT`
/// keeps them so through every step of the sign cycle: expressing,
/// interpreting, and letting memory decay.
pub proof fn lemma_memory_stays_in_range(
    agent: AgentView,
    token: Seq<char>,
    pattern: Seq<char>,
    symbol: SymbolView,
    tau: usize,
    rate: u64,
)
    requires
        all_in_range(agent.memory.traces),
    ensures
        all_in_range(agent.expressed(token, pattern, tau).memory.traces),
        all_in_range(agent.interpreted(symbol, tau).memory.traces),
        all_in_range(agent.decayed(rate).memory.traces),
{
    let traces = agent.memory.traces;
    let fresh = fresh_trace(SymbolView { token, pattern }, tau);
    assert(fresh.in_range());
    let after = agent.expressed(token, pattern, tau).memory.traces;
    assert forall|i: int| 0 <= i < after.len() implies (#[trigger] after[i]).in_range() by {
        if after != traces {
            if i == after.len() - 1 {
                assert(after[i] == fresh);
            } else if traces.len() >= agent.memory.max_traces && traces.len() > 0 {
                assert(after[i] == traces[i + 1]);
            } else {
                assert(after[i] == traces[i]);
            }
        }
    }
    let firmer = reinforced_traces(traces, symbol, INTERPRET_DELTA);
    assert(all_in_range(firmer)) by {
        assert forall|i: int| 0 <= i < firmer.len() implies (#[trigger] firmer[i]).in_range() by {
            assert(traces[i].in_range());
        }
    }
    let noted = recorded(firmer, symbol, meaning_of(symbol, tau));
    if has_match(firmer, symbol) {
        lemma_first_match_exists(firmer, symbol);
    }
    assert forall|i: int| 0 <= i < noted.len() implies (#[trigger] noted[i]).in_range() by {
        assert(firmer[i].in_range());
    }
    let weaker = traces.map_values(|t: TraceView| t.weakened(rate));
    let left = decayed_traces(traces, rate);
    assert forall|i: int| 0 <= i < left.len() implies (#[trigger] left[i]).in_range() by {
        assert(left.contains(left[i]));
        weaker.lemma_filter_contains_rev(|t: TraceView| is_alive(t), left[i]);
        let j = choose|j: int| 0 <= j < weaker.len() && weaker[j] == left[i];
        assert(traces[j].in_range());
    }
}

impl View for Agent {
    type V = AgentView;

    open spec fn view(&self) -> AgentView {
        AgentView {
            id: self.id@,
            bindings: binding_views(self.symbol_table@),
            memory: self.memory@,
            coherence_threshold: self.coherence_threshold,
        }
    }
}

impl Agent {
    /// An agent that binds nothing and remembers nothing, with room for
    /// `max_memory` traces.
    pub fn new(id: &str, max_memory: usize, coherence_threshold: u64) -> (r: Agent)
        ensures
            r@ == (AgentView {
                id: id@,
                bindings: Map::empty(),
                memory: MemoryFieldView { traces: Seq::empty(), max_traces: max_memory },
                coherence_threshold,
            }),
    {
        let r = Agent {
            id: id.to_owned(),
            symbol_table: StringHashMap::new(),
            memory: MemoryField { traces: VecDeque::new(), max_traces: max_memory },
            coherence_threshold,
        };
        assert(r@.bindings =~= Map::empty());
        assert(r@.memory.traces =~= Seq::empty());
        r
    }

    /// Expresses a symbol: binds `token` to `pattern`, replacing any earlier
    /// binding, and offers memory a fresh trace of the symbol. The trace is
    /// dropped without notice if the agent's threshold is above `UNIT`; the
    /// binding is made either way.
    pub fn express_symbol(&mut self, token: &str, pattern: Pattern, tau: usize) -> (r: Symbol)
        ensures
            r@ == (SymbolView { token: token@, pattern: pattern@ }),
            final(self)@ == old(self)@.expressed(token@, pattern@, tau),
    {
        let symbol = Symbol::new(token, pattern.clone());
        self.symbol_table.insert(token.to_owned(), pattern);
        let trace = MemoryTrace {
            symbol: symbol.clone(),
            tau_index: tau,
            stability: UNIT,
            interpretants: Vec::new(),
        };
        assert(trace@.interpretants =~= Seq::empty());
        self.memory.admit_trace(trace, self.coherence_threshold);
        assert(self@.bindings =~= old(self)@.bindings.insert(token@, pattern@));
        symbol
    }

    /// Projects a symbol into a substrate. The agent itself is not changed.
    pub fn project_symbol(&self, symbol: &Symbol, substrate: &mut Substrate)
        ensures
            final(substrate)@ == old(substrate)@.insert(
                symbol.pattern@,
                projected(level_in(old(substrate)@, symbol.pattern@)),
            ),
    {
        substrate.project(symbol);
    }

    /// Interprets a symbol at recursion index `tau`. This succeeds exactly
    /// if the agent's current binding for the symbol's token is the symbol's
    /// pattern; then every trace of the symbol is reinforced, and the meaning
    /// that is returned is also recorded with the first such trace. Otherwise
    /// nothing is returned and nothing changes.
    pub fn interpret_symbol(&mut self, symbol: &Symbol, tau: usize) -> (r: Option<Meaning>)
        ensures
            r is Some <==> old(self)@.binds(symbol@),
            r matches Some(meaning) ==> meaning@ == meaning_of(symbol@, tau),
            final(self)@ == old(self)@.interpreted(symbol@, tau),
            !old(self)@.binds(symbol@) ==> final(self)@ == old(self)@,
    {
        let bound = match self.symbol_table.get(symbol.token.as_str()) {
            Some(pattern) => *pattern == symbol.pattern,
            None => false,
        };
        if bound {
            self.memory.reinforce_symbol(symbol, INTERPRET_DELTA);
            let meaning = Meaning::from_symbol(symbol, tau);
            self.memory.record(symbol, &meaning);
            Some(meaning)
        } else {
            None
        }
    }

    /// A drifted copy of `symbol`; see [`Symbol::mutate`]. The agent is not
    /// consulted and not changed.
    pub fn mutate_symbol(&self, symbol: &Symbol) -> (r: Symbol)
        ensures
            r@ == (SymbolView {
                token: crate::symbol::mutated_token(symbol@.token),
                pattern: symbol@.pattern,
            }),
    {
        symbol.mutate()
    }

    /// Lets the agent's memory decay; see [`MemoryField::decay_all`].
    pub fn decay_memory(&mut self, rate: u64)
        ensures
            final(self)@ == old(self)@.decayed(rate),
    {
        self.memory.decay_all(rate);
    }
}

} // verus!
