use sptl_spi::agents::Agent;
use sptl_spi::interpretations::Interpretation;
use sptl_spi::recursions::{CategoryObject, RecursionLevel};
use sptl_spi::substrate::Pattern;
use sptl_spi::symbol::Symbol;
use sptl_spi::units::{TICK_RATE, UNIT};

fn sign(token: &str, pattern: &str) -> Symbol {
    Symbol::new(token, Pattern::new(pattern))
}

fn node(level: RecursionLevel, id: &str) -> CategoryObject {
    CategoryObject::new(level, id)
}

fn particle(id: &str, patterns: &[&str]) -> CategoryObject {
    let mut p = node(RecursionLevel::Particle, id);
    for pattern in patterns {
        p.substrate.project(&sign("t", pattern));
    }
    p
}

fn agent_with(id: &str, tokens: &[&str]) -> Agent {
    let mut agent = Agent::new(id, 16, 100_000);
    for (tau, token) in tokens.iter().enumerate() {
        agent.express_symbol(token, Pattern::new("101"), tau);
    }
    agent
}

#[test]
fn a_new_node_is_a_bare_leaf() {
    let n = node(RecursionLevel::Atom, "x");
    assert!(n.level == RecursionLevel::Atom);
    assert_eq!(n.id, "x");
    assert_eq!(n.substrate.len(), 0);
    assert!(n.subobjects.is_empty());
    assert!(n.agents.is_empty());
}

#[test]
fn levels_are_ordered_from_void_to_cell() {
    assert_eq!(RecursionLevel::Void.ordinal(), 0);
    assert_eq!(RecursionLevel::Particle.ordinal(), 1);
    assert_eq!(RecursionLevel::Atom.ordinal(), 2);
    assert_eq!(RecursionLevel::Molecule.ordinal(), 3);
    assert_eq!(RecursionLevel::Cell.ordinal(), 4);
}

#[test]
fn promote_wraps_the_node_one_level_up() {
    let mut seed = node(RecursionLevel::Void, "seed");
    seed.agents.push(agent_with("a", &["foo"]));
    seed.substrate.project(&sign("t", "101"));
    let promoted = seed.promote().unwrap();
    assert!(promoted.level == RecursionLevel::Particle);
    assert_eq!(promoted.id, "1-seed");
    assert_eq!(promoted.substrate.len(), 0);
    assert!(promoted.agents.is_empty());
    assert_eq!(promoted.subobjects.len(), 1);
    let inner = &promoted.subobjects[0];
    assert!(inner.level == RecursionLevel::Void);
    assert_eq!(inner.id, "seed");
    assert_eq!(inner.agents.len(), 1);
    assert_eq!(inner.agents[0].memory.traces.len(), 1);
    assert_eq!(inner.substrate.level(&Pattern::new("101")), Some(UNIT));
}

#[test]
fn promote_climbs_every_level_and_stops_at_the_cell() {
    let n = node(RecursionLevel::Void, "x");
    let n = n.promote().unwrap();
    assert!(n.level == RecursionLevel::Particle);
    let n = n.promote().unwrap();
    assert!(n.level == RecursionLevel::Atom);
    assert_eq!(n.id, "2-1-x");
    let n = n.promote().unwrap();
    assert!(n.level == RecursionLevel::Molecule);
    let n = n.promote().unwrap();
    assert!(n.level == RecursionLevel::Cell);
    assert_eq!(n.id, "4-3-2-1-x");
    let mut depth = 1;
    let mut at = &n;
    while let Some(child) = at.subobjects.first() {
        assert_eq!(at.subobjects.len(), 1);
        at = child;
        depth += 1;
    }
    assert_eq!(depth, 5);
    assert!(n.promote().is_none());
}

#[test]
fn promote_on_a_cell_returns_nothing() {
    assert!(node(RecursionLevel::Cell, "c").promote().is_none());
}

#[test]
fn tick_decays_every_agent_and_substrate_in_the_tree() {
    let mut leaf = particle("p", &["101", "101", "000"]);
    leaf.agents.push(agent_with("deep", &["foo", "bar"]));
    let mut middle = node(RecursionLevel::Atom, "a");
    middle.substrate.project(&sign("t", "111"));
    middle.agents.push(agent_with("mid", &["baz"]));
    middle.subobjects.push(Box::new(leaf));
    middle.subobjects.push(Box::new(particle("q", &["010"])));
    let mut root = node(RecursionLevel::Molecule, "m");
    root.agents.push(agent_with("top", &["qux"]));
    root.substrate.project(&sign("t", "1"));
    root.subobjects.push(Box::new(middle));

    root.tick_recursive();

    assert_eq!(root.substrate.level(&Pattern::new("1")), Some(950_000));
    assert_eq!(root.agents[0].memory.traces[0].stability, 950_000);
    let middle = &root.subobjects[0];
    assert_eq!(middle.substrate.level(&Pattern::new("111")), Some(950_000));
    assert_eq!(middle.agents[0].memory.traces[0].stability, 950_000);
    let leaf = &middle.subobjects[0];
    assert_eq!(leaf.id, "p");
    assert_eq!(leaf.substrate.level(&Pattern::new("101")), Some(1_900_000));
    assert_eq!(leaf.substrate.level(&Pattern::new("000")), Some(950_000));
    assert_eq!(leaf.agents[0].memory.traces[0].stability, 950_000);
    assert_eq!(leaf.agents[0].memory.traces[1].stability, 950_000);
    let other = &middle.subobjects[1];
    assert_eq!(other.id, "q");
    assert_eq!(other.substrate.level(&Pattern::new("010")), Some(950_000));

    root.tick_recursive();
    assert_eq!(root.substrate.level(&Pattern::new("1")), Some(902_500));
    assert_eq!(root.subobjects[0].subobjects[0].agents[0].memory.traces[0].stability, 900_000);
}

#[test]
fn twenty_ticks_empty_every_memory() {
    let mut root = node(RecursionLevel::Atom, "a");
    root.agents.push(agent_with("x", &["foo"]));
    let mut child = node(RecursionLevel::Particle, "p");
    child.agents.push(agent_with("y", &["bar", "baz"]));
    root.subobjects.push(Box::new(child));
    for _ in 0..19 {
        root.tick_recursive();
    }
    assert_eq!(root.aggregate_stability(), 3 * (UNIT - 19 * TICK_RATE) as u128);
    root.tick_recursive();
    assert_eq!(root.agents[0].memory.traces.len(), 0);
    assert_eq!(root.subobjects[0].agents[0].memory.traces.len(), 0);
    assert_eq!(root.aggregate_stability(), 0);
}

#[test]
fn a_mutation_reaches_every_agent_with_tau_zero() {
    let mut leaf = node(RecursionLevel::Particle, "p");
    leaf.agents.push(agent_with("deep", &["foo"]));
    leaf.agents.push(Agent::new("bare", 16, 100_000));
    let mut root = node(RecursionLevel::Atom, "a");
    root.agents.push(agent_with("top", &[]));
    root.subobjects.push(Box::new(leaf));
    root.subobjects.push(Box::new(node(RecursionLevel::Particle, "empty")));

    root.propagate_mutation("drift");

    let top = &root.agents[0];
    assert!(top.symbol_table.get("mutation:drift") == Some(&Pattern::new("111")));
    assert_eq!(top.memory.traces.len(), 1);
    assert_eq!(top.memory.traces[0].symbol.token, "mutation:drift");
    assert_eq!(top.memory.traces[0].symbol.pattern.0, "111");
    assert_eq!(top.memory.traces[0].tau_index, 0);
    assert_eq!(top.memory.traces[0].stability, UNIT);
    let leaf = &root.subobjects[0];
    assert_eq!(leaf.agents[0].memory.traces.len(), 2);
    assert_eq!(leaf.agents[0].memory.traces[0].symbol.token, "foo");
    assert_eq!(leaf.agents[0].memory.traces[1].symbol.token, "mutation:drift");
    assert_eq!(leaf.agents[0].memory.traces[1].tau_index, 0);
    assert_eq!(leaf.agents[1].memory.traces.len(), 1);
    assert!(root.subobjects[1].agents.is_empty());

    root.propagate_mutation("");
    assert_eq!(root.agents[0].memory.traces[1].symbol.token, "mutation:");
    assert_eq!(root.agents[0].memory.traces[1].tau_index, 0);
}

fn sequential_total(node: &CategoryObject) -> u128 {
    let mut sum: u128 = 0;
    for agent in node.agents.iter() {
        for trace in agent.memory.traces.iter() {
            sum += trace.stability as u128;
        }
    }
    for sub in node.subobjects.iter() {
        sum += sequential_total(sub);
    }
    sum
}

fn sample_tree(order: &[usize]) -> CategoryObject {
    let mut root = node(RecursionLevel::Cell, "root");
    root.agents.push(agent_with("r", &["a", "b"]));
    for &k in order {
        let mut child = node(RecursionLevel::Molecule, "m");
        for j in 0..k {
            let mut agent = agent_with("x", &["foo", "bar", "baz"]);
            agent.decay_memory(70_000 * (j as u64 + 1) + 1_000 * k as u64);
            child.agents.push(agent);
        }
        let mut grandchild = node(RecursionLevel::Atom, "g");
        let mut agent = agent_with("y", &["deep"]);
        agent.decay_memory(123_456 * k as u64);
        grandchild.agents.push(agent);
        child.subobjects.push(Box::new(grandchild));
        root.subobjects.push(Box::new(child));
    }
    root
}

#[test]
fn aggregate_stability_of_an_empty_tree_is_zero() {
    assert_eq!(node(RecursionLevel::Cell, "c").aggregate_stability(), 0);
}

#[test]
fn aggregate_stability_adds_agents_and_sub_objects() {
    let mut root = node(RecursionLevel::Atom, "a");
    root.agents.push(agent_with("x", &["foo", "bar"]));
    let mut child = node(RecursionLevel::Particle, "p");
    let mut agent = agent_with("y", &["baz"]);
    agent.decay_memory(250_000);
    child.agents.push(agent);
    root.subobjects.push(Box::new(child));
    root.subobjects.push(Box::new(node(RecursionLevel::Particle, "q")));
    assert_eq!(root.aggregate_stability(), 2_750_000);
    assert_eq!(root.subobjects[0].aggregate_stability(), 750_000);
    assert_eq!(root.subobjects[1].aggregate_stability(), 0);
}

#[test]
fn aggregate_stability_equals_the_sequential_sum() {
    let tree = sample_tree(&[1, 2, 3, 4, 5]);
    assert!(tree.subobjects.len() >= 2);
    let total = tree.aggregate_stability();
    assert_eq!(total, sequential_total(&tree));
    assert!(total > 0);
    let parts: u128 = tree.subobjects.iter().map(|s| s.aggregate_stability()).sum();
    let own: u128 = tree.agents.iter().map(|a| a.memory.total_stability()).sum();
    assert_eq!(total, parts + own);
}

#[test]
fn aggregate_stability_does_not_depend_on_the_order_of_children() {
    let one = sample_tree(&[1, 2, 3, 4, 5]);
    let other = sample_tree(&[5, 3, 1, 4, 2]);
    assert_eq!(one.aggregate_stability(), other.aggregate_stability());
    let total = one.aggregate_stability() as f64 / UNIT as f64;
    let again = sequential_total(&other) as f64 / UNIT as f64;
    assert!((total - again).abs() < 1e-9);
}

#[test]
fn aggregate_stability_stops_at_the_largest_value() {
    let mut root = node(RecursionLevel::Atom, "a");
    for _ in 0..3 {
        let mut agent = Agent::new("x", 4, 0);
        agent.express_symbol("foo", Pattern::new("1"), 0);
        agent.memory.traces[0].stability = u64::MAX;
        root.agents.push(agent);
    }
    assert_eq!(root.aggregate_stability(), 3 * u64::MAX as u128);
}

#[test]
fn a_void_node_has_no_interpretation() {
    let mut v = node(RecursionLevel::Void, "v");
    v.substrate.project(&sign("t", "1"));
    assert!(v.interpret().is_none());
}

#[test]
fn a_particle_reports_its_substrate() {
    let p = particle("p", &["101", "101", "000"]);
    let i = p.interpret_particle();
    assert_eq!(i.id, "p");
    assert_eq!(i.quantum_state, "q2");
    assert_eq!(i.energy, 3_000_000);
    assert_eq!(i.energy as f64 / UNIT as f64, 3.0);
    match p.interpret() {
        Some(Interpretation::Particle(same)) => {
            assert_eq!(same.quantum_state, "q2");
            assert_eq!(same.energy, 3_000_000);
        }
        _ => panic!("a particle is interpreted as a particle"),
    }
    let empty = node(RecursionLevel::Particle, "e").interpret_particle();
    assert_eq!(empty.quantum_state, "q0");
    assert_eq!(empty.energy, 0);
}

#[test]
fn the_quantum_state_counts_patterns_in_hexadecimal() {
    let names: Vec<String> = (0..26).map(|i| format!("p{}", i)).collect();
    let refs: Vec<&str> = names.iter().map(|s| s.as_str()).collect();
    let p = particle("many", &refs);
    assert_eq!(p.interpret_particle().quantum_state, "q1a");
    assert_eq!(p.interpret_particle().energy, 26_000_000);
}

#[test]
fn interpretation_is_computed_afresh() {
    let mut p = particle("p", &["101"]);
    assert_eq!(p.interpret_particle().energy, 1_000_000);
    p.tick_recursive();
    assert_eq!(p.interpret_particle().energy, 950_000);
    p.substrate.decay(UNIT);
    assert_eq!(p.interpret_particle().quantum_state, "q0");
}

#[test]
fn an_atom_gathers_its_particles_only() {
    let mut a = node(RecursionLevel::Atom, "a");
    a.subobjects.push(Box::new(particle("left", &["1"])));
    a.subobjects.push(Box::new(node(RecursionLevel::Void, "v")));
    a.subobjects.push(Box::new(node(RecursionLevel::Atom, "nested")));
    a.subobjects.push(Box::new(particle("right", &["1", "2"])));
    let i = a.interpret_atom();
    assert_eq!(i.id, "a");
    assert_eq!(i.atomic_number, 2);
    assert_eq!(i.shell_config, "2s2");
    let ids: Vec<&str> = i.constituent_particles.iter().map(|p| p.id.as_str()).collect();
    assert_eq!(ids, vec!["left", "right"]);
    assert_eq!(i.constituent_particles[1].quantum_state, "q2");
    assert_eq!(i.constituent_particles[1].energy, 2_000_000);

    let bare = node(RecursionLevel::Atom, "b").interpret_atom();
    assert_eq!(bare.atomic_number, 0);
    assert_eq!(bare.shell_config, "0s2");
    assert!(bare.constituent_particles.is_empty());
}

#[test]
fn an_atom_does_not_look_below_its_children() {
    let mut inner = node(RecursionLevel::Atom, "inner");
    inner.subobjects.push(Box::new(particle("deep", &["1"])));
    let mut a = node(RecursionLevel::Atom, "a");
    a.subobjects.push(Box::new(inner));
    assert_eq!(a.interpret_atom().atomic_number, 0);
}

fn atom(id: &str, particles: usize) -> CategoryObject {
    let mut a = node(RecursionLevel::Atom, id);
    for k in 0..particles {
        a.subobjects.push(Box::new(particle(&format!("{}{}", id, k), &["1"])));
    }
    a
}

#[test]
fn a_molecule_chains_its_atoms() {
    let mut m = node(RecursionLevel::Molecule, "m");
    m.subobjects.push(Box::new(atom("H", 1)));
    m.subobjects.push(Box::new(particle("stray", &["1"])));
    m.subobjects.push(Box::new(atom("O", 8)));
    m.subobjects.push(Box::new(atom("H2", 1)));
    let i = m.interpret_molecule();
    assert_eq!(i.id, "m");
    assert_eq!(i.formula, "Moleculem3");
    assert_eq!(i.bonds, vec!["H-O", "O-H2"]);
    let ids: Vec<&str> = i.constituent_atoms.iter().map(|a| a.id.as_str()).collect();
    assert_eq!(ids, vec!["H", "O", "H2"]);
    assert_eq!(i.constituent_atoms[1].atomic_number, 8);
    assert_eq!(i.constituent_atoms[1].shell_config, "8s2");
}

#[test]
fn a_molecule_with_fewer_than_two_atoms_has_no_bonds() {
    let mut m = node(RecursionLevel::Molecule, "m");
    let i = m.interpret_molecule();
    assert_eq!(i.formula, "Moleculem0");
    assert!(i.bonds.is_empty());
    assert!(i.constituent_atoms.is_empty());
    m.subobjects.push(Box::new(atom("H", 1)));
    let i = m.interpret_molecule();
    assert_eq!(i.formula, "Moleculem1");
    assert!(i.bonds.is_empty());
    m.subobjects.push(Box::new(atom("He", 2)));
    assert_eq!(m.interpret_molecule().bonds, vec!["H-He"]);
}

#[test]
fn a_cell_puts_every_interpreted_child_into_words() {
    let mut c = node(RecursionLevel::Cell, "c");
    c.subobjects.push(Box::new(particle("p", &["101"])));
    c.subobjects.push(Box::new(node(RecursionLevel::Void, "v")));
    c.subobjects.push(Box::new(atom("a", 1)));
    let mut m = node(RecursionLevel::Molecule, "m");
    m.subobjects.push(Box::new(atom("x", 0)));
    m.subobjects.push(Box::new(atom("y", 0)));
    c.subobjects.push(Box::new(m));
    c.subobjects.push(Box::new(node(RecursionLevel::Cell, "inner")));
    let i = c.interpret_cell();
    assert_eq!(i.id, "c");
    assert_eq!(i.summary, "Cell c integrates 4 sub-meanings");
    assert_eq!(i.emergent_properties, vec!["homeostasis"]);
    assert_eq!(i.contributing_meanings.len(), 4);
    assert_eq!(
        i.contributing_meanings[0],
        "Particle(ParticleInterpretation { id: \"p\", quantum_state: \"q1\", energy: 1000000 })"
    );
    assert_eq!(
        i.contributing_meanings[1],
        "Atom(AtomInterpretation { id: \"a\", atomic_number: 1, shell_config: \"1s2\", \
         constituent_particles: [ParticleInterpretation { id: \"a0\", quantum_state: \"q1\", \
         energy: 1000000 }] })"
    );
    assert_eq!(
        i.contributing_meanings[2],
        "Molecule(MoleculeInterpretation { id: \"m\", formula: \"Moleculem2\", bonds: [\"x-y\"], \
         constituent_atoms: [AtomInterpretation { id: \"x\", atomic_number: 0, shell_config: \
         \"0s2\", constituent_particles: [] }, AtomInterpretation { id: \"y\", atomic_number: 0, \
         shell_config: \"0s2\", constituent_particles: [] }] })"
    );
    assert_eq!(
        i.contributing_meanings[3],
        "Cell(CellInterpretation { id: \"inner\", summary: \"Cell inner integrates 0 \
         sub-meanings\", emergent_properties: [\"homeostasis\"], contributing_meanings: [] })"
    );
}

#[test]
fn an_empty_cell_still_reports_homeostasis() {
    let i = node(RecursionLevel::Cell, "c").interpret_cell();
    assert_eq!(i.summary, "Cell c integrates 0 sub-meanings");
    assert_eq!(i.emergent_properties, vec!["homeostasis"]);
    assert!(i.contributing_meanings.is_empty());
}

#[test]
fn interpret_dispatches_on_the_level() {
    assert!(matches!(node(RecursionLevel::Particle, "x").interpret(), Some(Interpretation::Particle(_))));
    assert!(matches!(node(RecursionLevel::Atom, "x").interpret(), Some(Interpretation::Atom(_))));
    assert!(matches!(node(RecursionLevel::Molecule, "x").interpret(), Some(Interpretation::Molecule(_))));
    assert!(matches!(node(RecursionLevel::Cell, "x").interpret(), Some(Interpretation::Cell(_))));
    assert!(node(RecursionLevel::Void, "x").interpret().is_none());
}

#[test]
fn describe_names_the_level_and_the_fields() {
    let text = particle("p", &[]).interpret().unwrap().describe();
    assert_eq!(
        text,
        "Particle(ParticleInterpretation { id: \"p\", quantum_state: \"q0\", energy: 0 })"
    );
    let mut c = node(RecursionLevel::Cell, "c");
    c.subobjects.push(Box::new(particle("p", &[])));
    let text = c.interpret().unwrap().describe();
    assert_eq!(
        text,
        "Cell(CellInterpretation { id: \"c\", summary: \"Cell c integrates 1 sub-meanings\", \
         emergent_properties: [\"homeostasis\"], contributing_meanings: [\"Particle(\
         ParticleInterpretation { id: \"p\", quantum_state: \"q0\", energy: 0 })\"] })"
    );
}
