use sptl_spi::agents::Agent;
use sptl_spi::substrate::Pattern;
use sptl_spi::symmetry::{detect_attractor, detect_differentiation, detect_symmetry};

#[test]
fn test_attractor_detection() {
    let mut agent = Agent::new("a", 16, 100_000);
    let tau = 0;
    let s = agent.express_symbol("foo", Pattern::new("101"), tau);
    for i in 0..5 {
        assert!(agent.interpret_symbol(&s, tau + i).is_some());
    }
    let history: Vec<String> =
        agent.memory.traces[0].interpretants.iter().map(|m| m.description.clone()).collect();
    assert_eq!(history.len(), 5);
    assert_eq!(history[2], "Interpretation of 'foo' at τ=2");
    assert_eq!(history[4], "Interpretation of 'foo' at τ=4");
    // Each description carries its own tau, so the last three differ.
    assert!(!detect_attractor(&agent, 3));
    assert!(detect_differentiation(&agent, 3));

    let s2 = agent.mutate_symbol(&s);
    // The mutated token is not bound, so nothing is interpreted or recorded.
    assert!(agent.interpret_symbol(&s2, tau + 5).is_none());
    assert_eq!(agent.memory.traces[0].interpretants.len(), 5);
    assert!(!detect_attractor(&agent, 3));
}

#[test]
fn an_attractor_forms_when_the_recent_descriptions_agree() {
    let mut agent = Agent::new("a", 16, 100_000);
    let s = agent.express_symbol("foo", Pattern::new("101"), 0);
    agent.interpret_symbol(&s, 0);
    agent.interpret_symbol(&s, 1);
    for _ in 0..3 {
        agent.interpret_symbol(&s, 2);
    }
    assert!(detect_attractor(&agent, 3));
    assert!(detect_symmetry(&agent, 3));
    assert!(!detect_differentiation(&agent, 3));
    assert!(!detect_symmetry(&agent, 4));
    assert!(detect_differentiation(&agent, 4));

    agent.interpret_symbol(&s, 3);
    assert!(!detect_attractor(&agent, 3));
    assert!(detect_differentiation(&agent, 3));
    assert!(detect_symmetry(&agent, 1));
}

#[test]
fn symmetry_holds_for_an_agent_without_traces() {
    let agent = Agent::new("a", 4, 100_000);
    assert!(detect_symmetry(&agent, 0));
    assert!(detect_symmetry(&agent, 3));
    assert!(detect_symmetry(&agent, usize::MAX));
    assert!(detect_attractor(&agent, 3));
    assert!(!detect_differentiation(&agent, 3));
}

#[test]
fn one_immature_trace_vetoes_symmetry() {
    let mut agent = Agent::new("a", 4, 100_000);
    let s = agent.express_symbol("foo", Pattern::new("101"), 0);
    for _ in 0..4 {
        agent.interpret_symbol(&s, 9);
    }
    assert!(detect_symmetry(&agent, 3));
    let t = agent.express_symbol("bar", Pattern::new("000"), 1);
    assert!(!detect_symmetry(&agent, 3));
    for _ in 0..3 {
        agent.interpret_symbol(&t, 9);
    }
    assert!(!detect_symmetry(&agent, 3));
    agent.interpret_symbol(&t, 9);
    assert!(detect_symmetry(&agent, 3));
}

#[test]
fn a_trace_needs_more_interpretants_than_the_window() {
    let mut agent = Agent::new("a", 4, 100_000);
    let s = agent.express_symbol("foo", Pattern::new("101"), 0);
    assert!(!detect_symmetry(&agent, 0));
    agent.interpret_symbol(&s, 0);
    assert!(detect_symmetry(&agent, 0));
    assert!(!detect_symmetry(&agent, 1));
    agent.interpret_symbol(&s, 0);
    assert!(detect_symmetry(&agent, 1));
    assert!(!detect_symmetry(&agent, 2));
    assert!(!detect_symmetry(&agent, usize::MAX));
}

#[test]
fn differentiation_passes_over_immature_traces() {
    let mut agent = Agent::new("a", 4, 100_000);
    let s = agent.express_symbol("foo", Pattern::new("101"), 0);
    agent.interpret_symbol(&s, 0);
    agent.interpret_symbol(&s, 1);
    // Two interpretants are too few for a window of two.
    assert!(!detect_differentiation(&agent, 2));
    agent.interpret_symbol(&s, 2);
    assert!(detect_differentiation(&agent, 2));
    assert!(!detect_differentiation(&agent, 3));
    assert!(!detect_differentiation(&agent, usize::MAX));
}

#[test]
fn differentiation_looks_at_neighbours_inside_the_window_only() {
    let mut agent = Agent::new("a", 4, 100_000);
    let s = agent.express_symbol("foo", Pattern::new("101"), 0);
    agent.interpret_symbol(&s, 0);
    agent.interpret_symbol(&s, 1);
    agent.interpret_symbol(&s, 1);
    agent.interpret_symbol(&s, 1);
    assert!(!detect_differentiation(&agent, 0));
    assert!(!detect_differentiation(&agent, 1));
    assert!(!detect_differentiation(&agent, 2));
    assert!(!detect_differentiation(&agent, 3));
    agent.interpret_symbol(&s, 1);
    // Five interpretants at tau 0, 1, 1, 1, 1: a window of four holds the equal ones only.
    assert!(!detect_differentiation(&agent, 4));
    assert!(!detect_differentiation(&agent, 5));
    agent.interpret_symbol(&s, 1);
    // With a sixth, a window of five reaches no further back than the first 1.
    assert!(!detect_differentiation(&agent, 5));
    agent.interpret_symbol(&s, 2);
    assert!(detect_differentiation(&agent, 2));
    assert!(detect_differentiation(&agent, 6));
    assert!(!detect_differentiation(&agent, 1));
}

#[test]
fn differentiation_is_found_in_any_trace() {
    let mut agent = Agent::new("a", 4, 100_000);
    let s = agent.express_symbol("foo", Pattern::new("101"), 0);
    let t = agent.express_symbol("bar", Pattern::new("000"), 0);
    for _ in 0..3 {
        agent.interpret_symbol(&s, 5);
    }
    agent.interpret_symbol(&t, 1);
    agent.interpret_symbol(&t, 2);
    agent.interpret_symbol(&t, 3);
    assert!(detect_differentiation(&agent, 2));
    assert!(!detect_symmetry(&agent, 2));
}
