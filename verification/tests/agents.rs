use sptl_spi::agents::{Agent, MemoryField, MemoryTrace};
use sptl_spi::substrate::{Pattern, Substrate};
use sptl_spi::symbol::{Meaning, Symbol};
use sptl_spi::units::{INTERPRET_DELTA, TICK_RATE, UNIT};
use std::collections::VecDeque;

fn sign(token: &str, pattern: &str) -> Symbol {
    Symbol::new(token, Pattern::new(pattern))
}

fn trace(token: &str, pattern: &str, tau: usize, stability: u64) -> MemoryTrace {
    MemoryTrace { symbol: sign(token, pattern), tau_index: tau, stability, interpretants: Vec::new() }
}

fn field(max_traces: usize) -> MemoryField {
    MemoryField { traces: VecDeque::new(), max_traces }
}

fn tokens(field: &MemoryField) -> Vec<String> {
    field.traces.iter().map(|t| t.symbol.token.clone()).collect()
}

#[test]
fn symbols_compare_by_token_and_pattern() {
    assert!(sign("foo", "101") == sign("foo", "101"));
    assert!(sign("foo", "101") != sign("foo", "100"));
    assert!(sign("foo", "101") != sign("fo", "101"));
    let s = sign("foo", "101");
    assert!(s.clone() == s);
    assert_eq!(s.token, "foo");
    assert_eq!(s.pattern.0, "101");
}

#[test]
fn mutate_appends_an_asterisk_and_keeps_the_pattern() {
    let s = sign("foo", "101");
    let m = s.mutate();
    assert_eq!(m.token, "foo*");
    assert_eq!(m.pattern.0, "101");
    assert_eq!(s.token, "foo");
    assert_eq!(m.mutate().token, "foo**");
    assert_eq!(sign("", "x").mutate().token, "*");
}

#[test]
fn a_meaning_describes_token_and_tau() {
    let s = sign("foo", "101");
    let m = Meaning::from_symbol(&s, 0);
    assert_eq!(m.description, "Interpretation of 'foo' at τ=0");
    assert_eq!(m.tau, 0);
    assert!(m.sign == s);
    let m = Meaning::from_symbol(&s, 1234567890);
    assert_eq!(m.description, "Interpretation of 'foo' at τ=1234567890");
    let m = Meaning::from_symbol(&sign("a b'c", "1"), usize::MAX);
    assert_eq!(m.description, format!("Interpretation of 'a b'c' at τ={}", usize::MAX));
    let copy = m.clone();
    assert_eq!(copy.description, m.description);
    assert_eq!(copy.tau, m.tau);
    assert!(copy.sign == m.sign);
}

#[test]
fn a_trace_is_reinforced_within_the_range() {
    let mut t = trace("foo", "101", 0, 500_000);
    t.reinforce(INTERPRET_DELTA);
    assert_eq!(t.stability, 600_000);
    t.reinforce(900_000);
    assert_eq!(t.stability, UNIT);
    t.reinforce(-1_500_000);
    assert_eq!(t.stability, 0);
    t.reinforce(-1);
    assert_eq!(t.stability, 0);
}

#[test]
fn a_trace_decays_to_zero_and_no_further() {
    let mut t = trace("foo", "101", 0, 120_000);
    t.decay(TICK_RATE);
    assert_eq!(t.stability, 70_000);
    t.decay(TICK_RATE);
    assert_eq!(t.stability, 20_000);
    t.decay(TICK_RATE);
    assert_eq!(t.stability, 0);
    t.decay(TICK_RATE);
    assert_eq!(t.stability, 0);
}

#[test]
fn stability_stays_in_range_over_a_long_run() {
    let mut t = trace("foo", "101", 0, UNIT);
    let deltas: [i64; 7] = [300_000, -700_000, 2_000_000, i64::MIN, i64::MAX, -1, 1];
    let rates: [u64; 5] = [0, 1, 50_000, UNIT, u64::MAX];
    for round in 0..200 {
        t.reinforce(deltas[round % deltas.len()]);
        assert!(t.stability <= UNIT);
        t.decay(rates[round % rates.len()]);
        assert!(t.stability <= UNIT);
    }
}

#[test]
fn a_cloned_trace_is_the_same_trace() {
    let mut t = trace("foo", "101", 7, 400_000);
    t.interpretants.push(Meaning::from_symbol(&t.symbol, 8));
    t.interpretants.push(Meaning::from_symbol(&t.symbol, 9));
    let c = t.clone();
    assert!(c.symbol == t.symbol);
    assert_eq!(c.tau_index, 7);
    assert_eq!(c.stability, 400_000);
    assert_eq!(c.interpretants.len(), 2);
    assert_eq!(c.interpretants[1].description, "Interpretation of 'foo' at τ=9");
}

#[test]
fn admission_needs_the_threshold() {
    let mut f = field(4);
    f.admit_trace(trace("low", "1", 0, 99_999), 100_000);
    assert_eq!(f.traces.len(), 0);
    f.admit_trace(trace("edge", "1", 0, 100_000), 100_000);
    assert_eq!(tokens(&f), vec!["edge"]);
    f.admit_trace(trace("zero", "1", 0, 0), 0);
    assert_eq!(tokens(&f), vec!["edge", "zero"]);
    assert_eq!(f.max_traces, 4);
}

#[test]
fn a_full_field_evicts_its_oldest_trace() {
    let mut f = field(3);
    f.admit_trace(trace("a", "1", 0, UNIT), 0);
    f.admit_trace(trace("b", "1", 1, 500_000), 0);
    f.admit_trace(trace("c", "1", 2, 300_000), 0);
    assert_eq!(tokens(&f), vec!["a", "b", "c"]);
    f.admit_trace(trace("d", "1", 3, 1), 0);
    assert_eq!(tokens(&f), vec!["b", "c", "d"]);
    assert_eq!(f.traces[2].stability, 1);
    f.admit_trace(trace("e", "1", 4, UNIT), 0);
    assert_eq!(tokens(&f), vec!["c", "d", "e"]);
}

#[test]
fn a_rejected_trace_evicts_nothing() {
    let mut f = field(2);
    f.admit_trace(trace("a", "1", 0, UNIT), 500_000);
    f.admit_trace(trace("b", "1", 1, UNIT), 500_000);
    f.admit_trace(trace("c", "1", 2, 499_999), 500_000);
    assert_eq!(tokens(&f), vec!["a", "b"]);
}

#[test]
fn the_field_never_exceeds_its_capacity() {
    for capacity in 1..6usize {
        let mut f = field(capacity);
        for i in 0..40usize {
            f.admit_trace(trace("t", "1", i, (i as u64 * 37_000) % (UNIT + 1)), 200_000);
            assert!(f.traces.len() <= capacity);
        }
    }
}

#[test]
fn a_field_without_room_still_holds_the_newest_trace() {
    let mut f = field(0);
    f.admit_trace(trace("a", "1", 0, UNIT), 0);
    assert_eq!(tokens(&f), vec!["a"]);
    f.admit_trace(trace("b", "1", 1, UNIT), 0);
    assert_eq!(tokens(&f), vec!["b"]);
}

#[test]
fn reinforce_symbol_goes_by_full_equality() {
    let mut f = field(8);
    f.admit_trace(trace("foo", "101", 0, 500_000), 0);
    f.admit_trace(trace("foo", "100", 1, 500_000), 0);
    f.admit_trace(trace("bar", "101", 2, 500_000), 0);
    f.admit_trace(trace("foo", "101", 3, 950_000), 0);
    f.reinforce_symbol(&sign("foo", "101"), INTERPRET_DELTA);
    let levels: Vec<u64> = f.traces.iter().map(|t| t.stability).collect();
    assert_eq!(levels, vec![600_000, 500_000, 500_000, UNIT]);
    assert_eq!(tokens(&f), vec!["foo", "foo", "bar", "foo"]);
    let taus: Vec<usize> = f.traces.iter().map(|t| t.tau_index).collect();
    assert_eq!(taus, vec![0, 1, 2, 3]);
    f.reinforce_symbol(&sign("foo", "101"), -700_000);
    let levels: Vec<u64> = f.traces.iter().map(|t| t.stability).collect();
    assert_eq!(levels, vec![0, 500_000, 500_000, 300_000]);
}

#[test]
fn decay_all_removes_what_reaches_zero() {
    let mut f = field(8);
    f.admit_trace(trace("a", "1", 0, 100_000), 0);
    f.admit_trace(trace("b", "1", 1, 50_000), 0);
    f.admit_trace(trace("c", "1", 2, 50_001), 0);
    f.admit_trace(trace("d", "1", 3, 10), 0);
    f.admit_trace(trace("e", "1", 4, UNIT), 0);
    f.decay_all(TICK_RATE);
    assert_eq!(tokens(&f), vec!["a", "c", "e"]);
    let levels: Vec<u64> = f.traces.iter().map(|t| t.stability).collect();
    assert_eq!(levels, vec![50_000, 1, 950_000]);
    f.decay_all(0);
    assert_eq!(tokens(&f), vec!["a", "c", "e"]);
    f.decay_all(UNIT);
    assert_eq!(f.traces.len(), 0);
    assert_eq!(f.max_traces, 8);
}

#[test]
fn decay_all_at_rate_zero_still_removes_dead_traces() {
    let mut f = field(8);
    f.admit_trace(trace("a", "1", 0, 0), 0);
    f.admit_trace(trace("b", "1", 1, 5), 0);
    f.decay_all(0);
    assert_eq!(tokens(&f), vec!["b"]);
}

#[test]
fn find_gives_the_first_match() {
    let mut f = field(8);
    f.admit_trace(trace("bar", "101", 0, UNIT), 0);
    f.admit_trace(trace("foo", "101", 1, UNIT), 0);
    f.admit_trace(trace("foo", "101", 2, UNIT), 0);
    assert_eq!(f.find(&sign("foo", "101")).map(|t| t.tau_index), Some(1));
    assert_eq!(f.find(&sign("bar", "101")).map(|t| t.tau_index), Some(0));
    assert!(f.find(&sign("foo", "100")).is_none());
    assert!(field(3).find(&sign("foo", "101")).is_none());
}

#[test]
fn total_stability_adds_up_every_trace() {
    let mut f = field(8);
    assert_eq!(f.total_stability(), 0);
    f.admit_trace(trace("a", "1", 0, 100_000), 0);
    f.admit_trace(trace("b", "1", 1, UNIT), 0);
    f.admit_trace(trace("c", "1", 2, u64::MAX), 0);
    assert_eq!(f.total_stability(), 1_100_000 + u64::MAX as u128);
}

#[test]
fn the_default_field_is_empty_and_has_no_room() {
    let f = MemoryField::default();
    assert_eq!(f.traces.len(), 0);
    assert_eq!(f.max_traces, 0);
}

#[test]
fn a_new_agent_knows_and_remembers_nothing() {
    let agent = Agent::new("a", 16, 100_000);
    assert_eq!(agent.id, "a");
    assert_eq!(agent.symbol_table.len(), 0);
    assert_eq!(agent.memory.traces.len(), 0);
    assert_eq!(agent.memory.max_traces, 16);
    assert_eq!(agent.coherence_threshold, 100_000);
}

#[test]
fn express_binds_the_token_and_leaves_a_trace() {
    let mut agent = Agent::new("a", 16, 100_000);
    let s = agent.express_symbol("foo", Pattern::new("101"), 5);
    assert!(s == sign("foo", "101"));
    assert!(agent.symbol_table.get("foo") == Some(&Pattern::new("101")));
    assert_eq!(agent.memory.traces.len(), 1);
    let t = &agent.memory.traces[0];
    assert!(t.symbol == s);
    assert_eq!(t.tau_index, 5);
    assert_eq!(t.stability, UNIT);
    assert!(t.interpretants.is_empty());
}

#[test]
fn express_overwrites_the_binding_and_keeps_the_older_trace() {
    let mut agent = Agent::new("a", 16, 100_000);
    agent.express_symbol("foo", Pattern::new("101"), 0);
    agent.express_symbol("foo", Pattern::new("000"), 1);
    assert!(agent.symbol_table.get("foo") == Some(&Pattern::new("000")));
    assert_eq!(agent.symbol_table.len(), 1);
    assert_eq!(agent.memory.traces.len(), 2);
    assert_eq!(agent.memory.traces[0].symbol.pattern.0, "101");
    assert_eq!(agent.memory.traces[1].symbol.pattern.0, "000");
}

#[test]
fn express_above_the_threshold_binds_without_a_trace() {
    let mut agent = Agent::new("a", 16, UNIT + 1);
    let s = agent.express_symbol("foo", Pattern::new("101"), 0);
    assert!(agent.symbol_table.get("foo") == Some(&Pattern::new("101")));
    assert_eq!(agent.memory.traces.len(), 0);
    assert!(agent.interpret_symbol(&s, 1).is_some());
    assert_eq!(agent.memory.traces.len(), 0);
}

#[test]
fn express_at_the_threshold_of_one_is_admitted() {
    let mut agent = Agent::new("a", 16, UNIT);
    agent.express_symbol("foo", Pattern::new("101"), 0);
    assert_eq!(agent.memory.traces.len(), 1);
}

#[test]
fn express_evicts_the_oldest_trace_of_a_full_memory() {
    let mut agent = Agent::new("a", 2, 100_000);
    agent.express_symbol("a", Pattern::new("1"), 0);
    agent.express_symbol("b", Pattern::new("1"), 1);
    agent.express_symbol("c", Pattern::new("1"), 2);
    assert_eq!(tokens(&agent.memory), vec!["b", "c"]);
    assert_eq!(agent.symbol_table.len(), 3);
}

#[test]
fn project_symbol_raises_the_substrate_and_leaves_the_agent() {
    let mut agent = Agent::new("a", 16, 100_000);
    let s = agent.express_symbol("foo", Pattern::new("101"), 0);
    let mut substrate = Substrate::new();
    agent.project_symbol(&s, &mut substrate);
    agent.project_symbol(&s, &mut substrate);
    assert_eq!(substrate.level(&s.pattern), Some(2 * UNIT));
    assert_eq!(agent.memory.traces.len(), 1);
    assert_eq!(agent.memory.traces[0].stability, UNIT);
}

#[test]
fn interpret_succeeds_exactly_for_the_current_binding() {
    let mut agent = Agent::new("a", 16, 100_000);
    let old = agent.express_symbol("foo", Pattern::new("101"), 0);
    assert!(agent.interpret_symbol(&old, 1).is_some());
    assert!(agent.interpret_symbol(&sign("foo", "100"), 1).is_none());
    assert!(agent.interpret_symbol(&sign("bar", "101"), 1).is_none());
    let new = agent.express_symbol("foo", Pattern::new("000"), 2);
    assert!(agent.interpret_symbol(&old, 3).is_none());
    assert!(agent.interpret_symbol(&new, 3).is_some());
}

#[test]
fn interpret_returns_and_records_the_meaning() {
    let mut agent = Agent::new("a", 16, 100_000);
    let s = agent.express_symbol("foo", Pattern::new("101"), 0);
    agent.decay_memory(300_000);
    let m = agent.interpret_symbol(&s, 7).unwrap();
    assert_eq!(m.description, "Interpretation of 'foo' at τ=7");
    assert_eq!(m.tau, 7);
    assert!(m.sign == s);
    let t = &agent.memory.traces[0];
    assert_eq!(t.stability, 800_000);
    assert_eq!(t.interpretants.len(), 1);
    assert_eq!(t.interpretants[0].description, "Interpretation of 'foo' at τ=7");
    assert_eq!(t.interpretants[0].tau, 7);
}

#[test]
fn interpret_reinforces_every_match_and_records_with_the_first() {
    let mut agent = Agent::new("a", 16, 100_000);
    let s = agent.express_symbol("foo", Pattern::new("101"), 0);
    agent.express_symbol("bar", Pattern::new("101"), 1);
    agent.express_symbol("foo", Pattern::new("101"), 2);
    agent.decay_memory(500_000);
    agent.interpret_symbol(&s, 3);
    let levels: Vec<u64> = agent.memory.traces.iter().map(|t| t.stability).collect();
    assert_eq!(levels, vec![600_000, 500_000, 600_000]);
    let counts: Vec<usize> = agent.memory.traces.iter().map(|t| t.interpretants.len()).collect();
    // The meaning is recorded with the first matching trace only.
    assert_eq!(counts, vec![1, 0, 0]);
}

#[test]
fn a_failed_interpretation_changes_nothing() {
    let mut agent = Agent::new("a", 16, 100_000);
    let s = agent.express_symbol("foo", Pattern::new("101"), 0);
    agent.decay_memory(400_000);
    agent.interpret_symbol(&s, 1);
    let before: Vec<(u64, usize)> =
        agent.memory.traces.iter().map(|t| (t.stability, t.interpretants.len())).collect();
    assert!(agent.interpret_symbol(&sign("foo", "1010"), 2).is_none());
    assert!(agent.interpret_symbol(&s.mutate(), 2).is_none());
    let after: Vec<(u64, usize)> =
        agent.memory.traces.iter().map(|t| (t.stability, t.interpretants.len())).collect();
    assert_eq!(before, after);
    assert_eq!(before, vec![(700_000, 1)]);
    assert_eq!(agent.symbol_table.len(), 1);
}

#[test]
fn mutate_symbol_does_not_touch_the_agent() {
    let mut agent = Agent::new("a", 16, 100_000);
    let s = agent.express_symbol("foo", Pattern::new("101"), 0);
    let m = agent.mutate_symbol(&s);
    assert_eq!(m.token, "foo*");
    assert_eq!(m.pattern.0, "101");
    assert!(agent.symbol_table.get("foo*").is_none());
    assert_eq!(agent.memory.traces.len(), 1);
}

#[test]
fn decay_memory_wears_traces_away() {
    let mut agent = Agent::new("a", 16, 100_000);
    agent.express_symbol("foo", Pattern::new("101"), 0);
    for round in 1..20u64 {
        agent.decay_memory(TICK_RATE);
        assert_eq!(agent.memory.traces[0].stability, UNIT - round * TICK_RATE);
    }
    agent.decay_memory(TICK_RATE);
    assert_eq!(agent.memory.traces.len(), 0);
    assert!(agent.symbol_table.get("foo").is_some());
}
