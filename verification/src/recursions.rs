//! The tree of category objects: recursion levels from void to cell, each
//! node with a substrate, agents and sub-objects of its own.

use crate::agents::{stability_sum, Agent, AgentView};
use crate::interpretations::{
    atom_views, interpretation_text, particle_views, string_views, AtomInterpretation, AtomView,
    CellInterpretation, CellView, Interpretation, InterpretationView, MoleculeInterpretation,
    MoleculeView, ParticleInterpretation, ParticleView,
};
use crate::substrate::{decayed_map, levels_total, Pattern, Substrate};
use crate::text::{decimal, hexadecimal, push_char, push_decimal, push_hexadecimal};
use crate::units::TICK_RATE;
use rayon::iter::{IntoParallelRefIterator, IntoParallelRefMutIterator, ParallelIterator};
use vstd::prelude::*;
use vstd::string::StringExecFns;

verus! {

/// The level of a category object, from the void up to the cell.
#[derive(Debug, Clone, Copy, PartialEq, Eq, Hash, Structural)]
pub enum RecursionLevel {
    Void,
    Particle,
    Atom,
    Molecule,
    Cell,
}

impl RecursionLevel {
    /// The place of the level in the order of levels, from 0 for the void to
    /// 4 for the cell.
    pub open spec fn rank(self) -> nat {
        match self {
            RecursionLevel::Void => 0,
            RecursionLevel::Particle => 1,
            RecursionLevel::Atom => 2,
            RecursionLevel::Molecule => 3,
            RecursionLevel::Cell => 4,
        }
    }

    /// The level one above this one; the cell has none.
    pub open spec fn above(self) -> Option<RecursionLevel> {
        match self {
            RecursionLevel::Void => Some(RecursionLevel::Particle),
            RecursionLevel::Particle => Some(RecursionLevel::Atom),
            RecursionLevel::Atom => Some(RecursionLevel::Molecule),
            RecursionLevel::Molecule => Some(RecursionLevel::Cell),
            RecursionLevel::Cell => None,
        }
    }

    /// The place of the level in the order of levels.
    pub fn ordinal(self) -> (r: u8)
        ensures
            r == self.rank(),
    {
        match self {
            RecursionLevel::Void => 0,
            RecursionLevel::Particle => 1,
            RecursionLevel::Atom => 2,
            RecursionLevel::Molecule => 3,
            RecursionLevel::Cell => 4,
        }
    }
}

/// A node of the category tree.
pub struct CategoryObject {
    pub level: RecursionLevel,
    pub id: String,
    /// The node's own field of activations.
    pub substrate: Substrate,
    /// The nodes directly below this one, each owned by it alone.
    pub subobjects: Vec<Box<CategoryObject>>,
    /// The agents that live at this node.
    pub agents: Vec<Agent>,
}

/// What a [`CategoryObject`] is, as plain values.
pub struct CategoryView {
    pub level: RecursionLevel,
    pub id: Seq<char>,
    pub substrate: Map<Seq<char>, u64>,
    pub subobjects: Seq<CategoryView>,
    pub agents: Seq<AgentView>,
}

/// The views of a sequence of agents.
pub open spec fn agent_views(agents: Seq<Agent>) -> Seq<AgentView> {
    agents.map_values(|a: Agent| a@)
}

/// The sum of a sequence of numbers.
pub open spec fn sum_of(values: Seq<nat>) -> nat
    decreases values.len(),
{
    if values.len() == 0 {
        0
    } else {
        sum_of(values.drop_last()) + values.last()
    }
}

/// The largest of a sequence of numbers, zero for the empty sequence.
pub open spec fn largest_of(values: Seq<nat>) -> nat
    decreases values.len(),
{
    if values.len() == 0 {
        0
    } else {
        let rest = largest_of(values.drop_last());
        if values.last() > rest {
            values.last()
        } else {
            rest
        }
    }
}

/// A number as far as 128 bits can hold it: itself, or the largest value
/// that fits.
pub open spec fn saturate(n: nat) -> u128 {
    if n > u128::MAX {
        u128::MAX
    } else {
        n as u128
    }
}

/// The token under which a mutation message is expressed.
pub open spec fn mutation_token(message: Seq<char>) -> Seq<char> {
    "mutation:"@ + message
}

/// The pattern with which every mutation is expressed.
pub open spec fn mutation_pattern() -> Seq<char> {
    "111"@
}

/// The id of a node made by promotion: the rank of its level in decimal, a
/// hyphen, and the id of the node it wraps.
pub open spec fn promoted_id(level: RecursionLevel, id: Seq<char>) -> Seq<char> {
    decimal(level.rank()) + seq!['-'] + id
}

/// Whether a node is at the particle level.
pub open spec fn is_particle(node: CategoryView) -> bool {
    node.level == RecursionLevel::Particle
}

/// Whether a node is at the atom level.
pub open spec fn is_atom(node: CategoryView) -> bool {
    node.level == RecursionLevel::Atom
}

/// The bond between two neighbouring atoms: their ids with a hyphen between.
pub open spec fn bond_text(left: Seq<char>, right: Seq<char>) -> Seq<char> {
    left + seq!['-'] + right
}

/// The bonds of a chain of atoms: one between each atom and the next.
pub open spec fn bonds_of(atoms: Seq<AtomView>) -> Seq<Seq<char>> {
    Seq::new(
        if atoms.len() > 0 {
            (atoms.len() - 1) as nat
        } else {
            0
        },
        |i: int| bond_text(atoms[i].id, atoms[i + 1].id),
    )
}

impl CategoryView {
    /// The node after one tick: every sub-object has ticked, every agent's
    /// memory and the node's own substrate have decayed at [`TICK_RATE`].
    pub open spec fn ticked(self) -> CategoryView
        decreases self,
    {
        CategoryView {
            substrate: decayed_map(self.substrate, TICK_RATE),
            subobjects: Seq::new(
                self.subobjects.len(),
                |i: int|
                    if 0 <= i < self.subobjects.len() {
                        self.subobjects[i].ticked()
                    } else {
                        self
                    },
            ),
            agents: self.agents.map_values(|a: AgentView| a.decayed(TICK_RATE)),
            ..self
        }
    }

    /// The node after a mutation message has gone through it: every agent of
    /// the node and of every node below it has expressed the mutation token
    /// with the mutation pattern at recursion index 0.
    pub open spec fn mutated(self, message: Seq<char>) -> CategoryView
        decreases self,
    {
        CategoryView {
            subobjects: Seq::new(
                self.subobjects.len(),
                |i: int|
                    if 0 <= i < self.subobjects.len() {
                        self.subobjects[i].mutated(message)
                    } else {
                        self
                    },
            ),
            agents: self.agents.map_values(
                |a: AgentView| a.expressed(mutation_token(message), mutation_pattern(), 0),
            ),
            ..self
        }
    }

    /// The totals of the sub-objects, in order.
    pub open spec fn sub_totals(self) -> Seq<nat>
        decreases self, 0nat,
    {
        Seq::new(
            self.subobjects.len(),
            |i: int|
                if 0 <= i < self.subobjects.len() {
                    self.subobjects[i].total_stability()
                } else {
                    0
                },
        )
    }

    /// The memory totals of the node's own agents, in order.
    pub open spec fn agent_totals(self) -> Seq<nat> {
        self.agents.map_values(|a: AgentView| stability_sum(a.memory.traces))
    }

    /// The sum of the stabilities of every trace of every agent in the tree
    /// below and at this node.
    pub open spec fn total_stability(self) -> nat
        decreases self, 1nat,
    {
        sum_of(self.sub_totals()) + sum_of(self.agent_totals())
    }

    /// The depths of the sub-objects, in order.
    pub open spec fn sub_depths(self) -> Seq<nat>
        decreases self, 0nat,
    {
        Seq::new(
            self.subobjects.len(),
            |i: int|
                if 0 <= i < self.subobjects.len() {
                    self.subobjects[i].depth()
                } else {
                    0
                },
        )
    }

    /// The number of levels of the tree rooted here: one for a node without
    /// sub-objects.
    pub open spec fn depth(self) -> nat
        decreases self, 1nat,
    {
        1 + largest_of(self.sub_depths())
    }

    /// What the node means as a particle.
    pub open spec fn particle(self) -> ParticleView {
        ParticleView {
            id: self.id,
            quantum_state: seq!['q'] + hexadecimal(self.substrate.dom().len()),
            energy: levels_total(self.substrate) as u128,
        }
    }

    /// The particles directly below the node, each as it is interpreted.
    pub open spec fn particles(self) -> Seq<ParticleView> {
        self.subobjects.filter(|c: CategoryView| is_particle(c)).map_values(
            |c: CategoryView| c.particle(),
        )
    }

    /// What the node means as an atom.
    pub open spec fn atom(self) -> AtomView {
        AtomView {
            id: self.id,
            atomic_number: (self.particles().len() % 0x1_0000_0000) as u32,
            shell_config: decimal(self.particles().len()) + "s2"@,
            constituent_particles: self.particles(),
        }
    }

    /// The atoms directly below the node, each as it is interpreted.
    pub open spec fn atoms(self) -> Seq<AtomView> {
        self.subobjects.filter(|c: CategoryView| is_atom(c)).map_values(|c: CategoryView| c.atom())
    }

    /// What the node means as a molecule.
    pub open spec fn molecule(self) -> MoleculeView {
        MoleculeView {
            id: self.id,
            formula: "Molecule"@ + self.id + decimal(self.atoms().len()),
            bonds: bonds_of(self.atoms()),
            constituent_atoms: self.atoms(),
        }
    }

    /// The interpretation of each sub-object, in order.
    pub open spec fn sub_interpretations(self) -> Seq<Option<InterpretationView>>
        decreases self, 0nat,
    {
        Seq::new(
            self.subobjects.len(),
            |i: int|
                if 0 <= i < self.subobjects.len() {
                    self.subobjects[i].interpretation()
                } else {
                    None
                },
        )
    }

    /// The texts of the sub-objects that have an interpretation, in order.
    pub open spec fn sub_meanings(self) -> Seq<Seq<char>>
        decreases self, 1nat,
    {
        self.sub_interpretations().filter(|o: Option<InterpretationView>| o is Some).map_values(
            |o: Option<InterpretationView>| interpretation_text(o->Some_0),
        )
    }

    /// What the node means as a cell.
    pub open spec fn cell(self) -> CellView
        decreases self, 2nat,
    {
        CellView {
            id: self.id,
            summary: "Cell "@ + self.id + " integrates "@ + decimal(self.sub_meanings().len())
                + " sub-meanings"@,
            emergent_properties: seq!["homeostasis"@],
            contributing_meanings: self.sub_meanings(),
        }
    }

    /// What the node means at its own level; the void means nothing.
    pub open spec fn interpretation(self) -> Option<InterpretationView>
        decreases self, 3nat,
    {
        match self.level {
            RecursionLevel::Void => None,
            RecursionLevel::Particle => Some(InterpretationView::Particle(self.particle())),
            RecursionLevel::Atom => Some(InterpretationView::Atom(self.atom())),
            RecursionLevel::Molecule => Some(InterpretationView::Molecule(self.molecule())),
            RecursionLevel::Cell => Some(InterpretationView::Cell(self.cell())),
        }
    }
}

impl View for CategoryObject {
    type V = CategoryView;

    open spec fn view(&self) -> CategoryView {
        self.model()
    }
}

impl CategoryObject {
    /// The node and everything below it, as plain values.
    pub open spec fn model(&self) -> CategoryView
        decreases self,
    {
        CategoryView {
            level: self.level,
            id: self.id@,
            substrate: self.substrate@,
            subobjects: Seq::new(
                self.subobjects@.len(),
                |i: int|
                    if 0 <= i < self.subobjects@.len() {
                        self.subobjects@[i].model()
                    } else {
                        arbitrary()
                    },
            ),
            agents: agent_views(self.agents@),
        }
    }

    /// A node without sub-objects or agents, in which nothing is active.
    pub fn new(level: RecursionLevel, id: &str) -> (r: CategoryObject)
        ensures
            r@ == (CategoryView {
                level,
                id: id@,
                substrate: Map::empty(),
                subobjects: Seq::empty(),
                agents: Seq::empty(),
            }),
    {
        let r = CategoryObject {
            level,
            id: id.to_owned(),
            substrate: Substrate::new(),
            subobjects: Vec::new(),
            agents: Vec::new(),
        };
        assert(r@.subobjects =~= Seq::empty());
        assert(r@.agents =~= Seq::empty());
        r
    }

    /// What the node means at its own level, computed afresh on every call.
    /// A void node means nothing.
    pub fn interpret(&self) -> (r: Option<Interpretation>)
        ensures
            r is Some <==> self.level != RecursionLevel::Void,
            match r {
                Some(i) => self@.interpretation() == Some(i@),
                None => self@.interpretation() is None,
            },
        decreases self, 1nat,
    {
        match self.level {
            RecursionLevel::Particle => Some(Interpretation::Particle(self.interpret_particle())),
            RecursionLevel::Atom => Some(Interpretation::Atom(self.interpret_atom())),
            RecursionLevel::Molecule => Some(Interpretation::Molecule(self.interpret_molecule())),
            RecursionLevel::Cell => Some(Interpretation::Cell(self.interpret_cell())),
            RecursionLevel::Void => None,
        }
    }

    /// The node read as a particle: its quantum state is `q` followed by the
    /// number of active patterns in hexadecimal, its energy the sum of all
    /// activation levels.
    pub fn interpret_particle(&self) -> (r: ParticleInterpretation)
        ensures
            r@ == self@.particle(),
    {
        let mut quantum_state = String::new();
        push_char(&mut quantum_state, 'q');
        push_hexadecimal(&mut quantum_state, self.substrate.len() as u128);
        assert(quantum_state@ =~= self@.particle().quantum_state);
        ParticleInterpretation {
            id: self.id.clone(),
            quantum_state,
            energy: self.substrate.total(),
        }
    }

    /// The node read as an atom: its particles are the sub-objects at the
    /// particle level, each read as a particle; its atomic number is their
    /// count (modulo 2^32), and its shell configuration that count in
    /// decimal followed by `s2`.
    pub fn interpret_atom(&self) -> (r: AtomInterpretation)
        ensures
            r@ == self@.atom(),
    {
        let ghost children = self@.subobjects;
        let ghost keep = |c: CategoryView| is_particle(c);
        let ghost read = |c: CategoryView| c.particle();
        let mut particles: Vec<ParticleInterpretation> = Vec::new();
        let mut i: usize = 0;
        while i < self.subobjects.len()
            invariant
                i <= self.subobjects@.len(),
                children == self@.subobjects,
                children.len() == self.subobjects@.len(),
                keep == |c: CategoryView| is_particle(c),
                read == |c: CategoryView| c.particle(),
                particle_views(particles@) == children.take(i as int).filter(keep).map_values(read),
            decreases self.subobjects@.len() - i,
        {
            let child = &self.subobjects[i];
            proof {
                let upto = children.take(i + 1);
                assert(upto.drop_last() =~= children.take(i as int));
                assert(upto.last() == child@);
                reveal(Seq::filter);
            }
            if child.level == RecursionLevel::Particle {
                let particle = child.interpret_particle();
                let ghost before = particles@;
                particles.push(particle);
                assert(particle_views(particles@) =~= particle_views(before).push(particle@));
                assert(children.take(i + 1).filter(keep).map_values(read) =~= children.take(
                    i as int,
                ).filter(keep).map_values(read).push(read(child@)));
            }
            i += 1;
        }
        assert(children.take(i as int) =~= children);
        let count = particles.len();
        let mut shell_config = String::new();
        push_decimal(&mut shell_config, count as u128);
        shell_config.append("s2");
        assert(particle_views(particles@).len() == count);
        assert(shell_config@ =~= self@.atom().shell_config);
        AtomInterpretation {
            id: self.id.clone(),
            atomic_number: (count as u64 % 0x1_0000_0000u64) as u32,
            shell_config,
            constituent_particles: particles,
        }
    }

    /// The node read as a molecule: its atoms are the sub-objects at the atom
    /// level, each read as an atom; its bonds link each atom to the next by
    /// their ids; its formula is `Molecule`, the node's id and the number of
    /// atoms.
    pub fn interpret_molecule(&self) -> (r: MoleculeInterpretation)
        ensures
            r@ == self@.molecule(),
    {
        let ghost children = self@.subobjects;
        let ghost keep = |c: CategoryView| is_atom(c);
        let ghost read = |c: CategoryView| c.atom();
        let mut atoms: Vec<AtomInterpretation> = Vec::new();
        let mut i: usize = 0;
        while i < self.subobjects.len()
            invariant
                i <= self.subobjects@.len(),
                children == self@.subobjects,
                children.len() == self.subobjects@.len(),
                keep == |c: CategoryView| is_atom(c),
                read == |c: CategoryView| c.atom(),
                atom_views(atoms@) == children.take(i as int).filter(keep).map_values(read),
            decreases self.subobjects@.len() - i,
        {
            let child = &self.subobjects[i];
            proof {
                let upto = children.take(i + 1);
                assert(upto.drop_last() =~= children.take(i as int));
                assert(upto.last() == child@);
                reveal(Seq::filter);
            }
            if child.level == RecursionLevel::Atom {
                let atom = child.interpret_atom();
                let ghost before = atoms@;
                atoms.push(atom);
                assert(atom_views(atoms@) =~= atom_views(before).push(atom@));
                assert(children.take(i + 1).filter(keep).map_values(read) =~= children.take(
                    i as int,
                ).filter(keep).map_values(read).push(read(child@)));
            }
            i += 1;
        }
        assert(children.take(i as int) =~= children);
        let count = atoms.len();
        assert(atom_views(atoms@).len() == count);
        let ghost chain = atom_views(atoms@);
        let mut bonds: Vec<String> = Vec::new();
        let links = if count > 0 {
            count - 1
        } else {
            0
        };
        let mut k: usize = 0;
        while k < links
            invariant
                count == atoms@.len(),
                chain == atom_views(atoms@),
                links == if count > 0 {
                    count - 1
                } else {
                    0
                },
                k <= links,
                bonds@.len() == k,
                forall|j: int|
                    0 <= j < k ==> (#[trigger] bonds@[j])@ == bond_text(
                        chain[j].id,
                        chain[j + 1].id,
                    ),
            decreases links - k,
        {
            let mut bond = atoms[k].id.clone();
            push_char(&mut bond, '-');
            bond.append(atoms[k + 1].id.as_str());
            assert(bond@ =~= bond_text(chain[k as int].id, chain[k + 1].id));
            bonds.push(bond);
            k += 1;
        }
        assert(string_views(bonds@) =~= bonds_of(chain));
        let mut formula = "Molecule".to_owned();
        formula.append(self.id.as_str());
        push_decimal(&mut formula, count as u128);
        assert(formula@ =~= self@.molecule().formula);
        MoleculeInterpretation { id: self.id.clone(), formula, bonds, constituent_atoms: atoms }
    }

    /// The node read as a cell: the interpretation of every sub-object that
    /// has one, whatever its level, put into words; a summary that gives
    /// their number; and the one emergent property `homeostasis`.
    pub fn interpret_cell(&self) -> (r: CellInterpretation)
        ensures
            r@ == self@.cell(),
        decreases self, 0nat,
    {
        let ghost found = self@.sub_interpretations();
        let ghost keep = |o: Option<InterpretationView>| o is Some;
        let ghost read = |o: Option<InterpretationView>| interpretation_text(o->Some_0);
        let mut meanings: Vec<String> = Vec::new();
        let mut i: usize = 0;
        while i < self.subobjects.len()
            invariant
                i <= self.subobjects@.len(),
                found == self@.sub_interpretations(),
                found.len() == self.subobjects@.len(),
                keep == |o: Option<InterpretationView>| o is Some,
                read == |o: Option<InterpretationView>| interpretation_text(o->Some_0),
                string_views(meanings@) == found.take(i as int).filter(keep).map_values(read),
            decreases self.subobjects@.len() - i,
        {
            let child = &self.subobjects[i];
            let interpretation = child.interpret();
            proof {
                let upto = found.take(i + 1);
                assert(upto.drop_last() =~= found.take(i as int));
                assert(upto.last() == child@.interpretation());
                reveal(Seq::filter);
            }
            match interpretation {
                Some(interp) => {
                    let text = interp.describe();
                    let ghost before = meanings@;
                    meanings.push(text);
                    assert(string_views(meanings@) =~= string_views(before).push(text@));
                    assert(found.take(i + 1).filter(keep).map_values(read) =~= found.take(
                        i as int,
                    ).filter(keep).map_values(read).push(read(child@.interpretation())));
                },
                None => {},
            }
            i += 1;
        }
        assert(found.take(i as int) =~= found);
        let count = meanings.len();
        assert(string_views(meanings@).len() == count);
        let mut summary = "Cell ".to_owned();
        summary.append(self.id.as_str());
        summary.append(" integrates ");
        push_decimal(&mut summary, count as u128);
        summary.append(" sub-meanings");
        assert(summary@ =~= self@.cell().summary);
        let mut emergent_properties: Vec<String> = Vec::new();
        emergent_properties.push("homeostasis".to_owned());
        assert(string_views(emergent_properties@) =~= seq!["homeostasis"@]);
        CellInterpretation {
            id: self.id.clone(),
            summary,
            emergent_properties,
            contributing_meanings: meanings,
        }
    }

    /// Wraps the node in a new node one level up. The new node has this
    /// node, unchanged, as its only sub-object, an id made from its own
    /// level's rank and this node's id, an empty substrate and no agents. A
    /// cell cannot be promoted.
    pub fn promote(self) -> (r: Option<CategoryObject>)
        ensures
            r is Some <==> self.level != RecursionLevel::Cell,
            r matches Some(p) ==> {
                &&& Some(p.level) == self.level.above()
                &&& p.level.rank() == self.level.rank() + 1
                &&& p.id@ == promoted_id(p.level, self.id@)
                &&& p.substrate@ == Map::<Seq<char>, u64>::empty()
                &&& p.subobjects@.len() == 1
                &&& *p.subobjects@[0] == self
                &&& p.agents@.len() == 0
                &&& p@.subobjects == seq![self@]
                &&& p@.depth() == self@.depth() + 1
            },
    {
        let next_level = match self.level {
            RecursionLevel::Void => RecursionLevel::Particle,
            RecursionLevel::Particle => RecursionLevel::Atom,
            RecursionLevel::Atom => RecursionLevel::Molecule,
            RecursionLevel::Molecule => RecursionLevel::Cell,
            RecursionLevel::Cell => {
                return None;
            },
        };
        let mut id = String::new();
        push_decimal(&mut id, next_level.ordinal() as u128);
        push_char(&mut id, '-');
        id.append(self.id.as_str());
        assert(id@ =~= promoted_id(next_level, self.id@));
        let ghost inner = self@;
        let mut subobjects: Vec<Box<CategoryObject>> = Vec::new();
        subobjects.push(Box::new(self));
        let p = CategoryObject {
            level: next_level,
            id,
            substrate: Substrate::new(),
            subobjects,
            agents: Vec::new(),
        };
        proof {
            assert(p@.subobjects =~= seq![inner]);
            let depths = p@.sub_depths();
            assert(depths =~= seq![inner.depth()]);
            assert(depths.drop_last() =~= Seq::<nat>::empty());
            assert(largest_of(depths.drop_last()) == 0);
            assert(depths.last() == inner.depth());
            assert(largest_of(depths) == inner.depth());
        }
        Some(p)
    }

    /// Lets one tick pass over the whole tree below and at this node: every
    /// sub-object ticks, every agent's memory decays at [`TICK_RATE`], and
    /// the node's own substrate decays at [`TICK_RATE`].
    pub fn tick_recursive(&mut self)
        ensures
            final(self)@ == old(self)@.ticked(),
    {
        tick_each(&mut self.subobjects);
        decay_each_memory(&mut self.agents, TICK_RATE);
        self.substrate.decay(TICK_RATE);
        assert(self@.subobjects =~= old(self)@.ticked().subobjects);
        assert(self@.agents =~= old(self)@.ticked().agents);
    }

    /// Sends a mutation message down the tree: every agent at this node and
    /// below expresses the token `mutation:<message>` with the pattern `111`
    /// at recursion index 0, whatever the time.
    pub fn propagate_mutation(&mut self, message: &str)
        ensures
            final(self)@ == old(self)@.mutated(message@),
    {
        let mut token = "mutation:".to_owned();
        token.append(message);
        let pattern = Pattern::new("111");
        express_each(&mut self.agents, token.as_str(), &pattern, 0);
        propagate_each(&mut self.subobjects, message);
        assert(self@.subobjects =~= old(self)@.mutated(message@).subobjects);
        assert(self@.agents =~= old(self)@.mutated(message@).agents);
    }

    /// The sum of the stabilities of every trace of every agent at this node
    /// and below; a sum too large for 128 bits is given as the largest value
    /// that fits.
    pub fn aggregate_stability(&self) -> (r: u128)
        ensures
            r == saturate(self@.total_stability()),
    {
        let sub_totals = aggregate_each(&self.subobjects);
        let agent_totals = stability_of_each(&self.agents);
        let sub_sum = saturating_sum(&sub_totals);
        let agent_sum = saturating_sum(&agent_totals);
        proof {
            let subs = self@.sub_totals();
            let held = self@.agent_totals();
            assert(widened(sub_totals@) =~= subs.map_values(|n: nat| saturate(n) as nat));
            assert(widened(agent_totals@) =~= held);
            lemma_saturated_sum(subs);
        }
        sub_sum.saturating_add(agent_sum)
    }
}

/// A sequence of 128-bit numbers as a sequence of naturals.
pub open spec fn widened(values: Seq<u128>) -> Seq<nat> {
    values.map_values(|v: u128| v as nat)
}

/// Saturating each number before taking the sum does not change the
/// saturated sum.
pub proof fn lemma_saturated_sum(values: Seq<nat>)
    ensures
        saturate(sum_of(values.map_values(|n: nat| saturate(n) as nat))) == saturate(
            sum_of(values),
        ),
    decreases values.len(),
{
    let capped = values.map_values(|n: nat| saturate(n) as nat);
    if values.len() > 0 {
        lemma_saturated_sum(values.drop_last());
        assert(capped.drop_last() =~= values.drop_last().map_values(|n: nat| saturate(n) as nat));
    }
}

/// The sum of a sequence is the sum of any front part plus the sum of the
/// rest: a sum taken in parts and then added up is the sum taken in one go.
pub proof fn lemma_sum_in_parts(values: Seq<nat>, k: int)
    requires
        0 <= k <= values.len(),
    ensures
        sum_of(values) == sum_of(values.take(k)) + sum_of(values.skip(k)),
    decreases values.len(),
{
    if k < values.len() {
        lemma_sum_in_parts(values.drop_last(), k);
        assert(values.drop_last().take(k) =~= values.take(k));
        assert(values.drop_last().skip(k) =~= values.skip(k).drop_last());
    } else {
        assert(values.take(k) =~= values);
        assert(values.skip(k) =~= Seq::<nat>::empty());
    }
}

/// The sum of a sequence is any one of its numbers plus the sum of the
/// others.
pub proof fn lemma_sum_without(values: Seq<nat>, j: int)
    requires
        0 <= j < values.len(),
    ensures
        sum_of(values) == values[j] + sum_of(values.remove(j)),
    decreases values.len(),
{
    if j == values.len() - 1 {
        assert(values.remove(j) =~= values.drop_last());
    } else {
        lemma_sum_without(values.drop_last(), j);
        assert(values.remove(j).drop_last() =~= values.drop_last().remove(j));
        assert(values.remove(j).last() == values.last());
    }
}

/// Two sequences that hold the same items, in whatever order, give the same
/// sum of weights.
pub proof fn lemma_sum_rearranged<A>(left: Seq<A>, right: Seq<A>, weight: spec_fn(A) -> nat)
    requires
        left.to_multiset() == right.to_multiset(),
    ensures
        sum_of(left.map_values(weight)) == sum_of(right.map_values(weight)),
    decreases left.len(),
{
    vstd::seq_lib::to_multiset_len(left);
    vstd::seq_lib::to_multiset_len(right);
    if left.len() > 0 {
        let last = left.len() - 1;
        let x = left[last];
        vstd::seq_lib::to_multiset_contains(left, x);
        vstd::seq_lib::to_multiset_contains(right, x);
        assert(left.contains(x));
        let j = choose|j: int| 0 <= j < right.len() && right[j] == x;
        assert(left.drop_last() =~= left.remove(last));
        vstd::seq_lib::to_multiset_remove(left, last);
        vstd::seq_lib::to_multiset_remove(right, j);
        lemma_sum_rearranged(left.drop_last(), right.remove(j), weight);
        assert(left.map_values(weight).drop_last() =~= left.drop_last().map_values(weight));
        lemma_sum_without(right.map_values(weight), j);
        assert(right.map_values(weight).remove(j) =~= right.remove(j).map_values(weight));
    } else {
        assert(left.map_values(weight) =~= right.map_values(weight));
    }
}

/// The aggregate stability of a node does not depend on the order of its
/// sub-objects or of its agents: two nodes that hold the same sub-objects and
/// the same agents, in whatever order, have the same total.
pub proof fn lemma_total_order_independent(left: CategoryView, right: CategoryView)
    requires
        left.subobjects.to_multiset() == right.subobjects.to_multiset(),
        left.agents.to_multiset() == right.agents.to_multiset(),
    ensures
        left.total_stability() == right.total_stability(),
{
    let of_node = |c: CategoryView| c.total_stability();
    let of_agent = |a: AgentView| stability_sum(a.memory.traces);
    assert(left.sub_totals() =~= left.subobjects.map_values(of_node));
    assert(right.sub_totals() =~= right.subobjects.map_values(of_node));
    lemma_sum_rearranged(left.subobjects, right.subobjects, of_node);
    lemma_sum_rearranged(left.agents, right.agents, of_agent);
}

/// The aggregate stability of a node can be taken in parts: the totals of
/// the first `k` sub-objects, of the other sub-objects and of the agents,
/// each summed on its own, add up to the total of the node.
pub proof fn lemma_total_in_parts(node: CategoryView, k: int)
    requires
        0 <= k <= node.subobjects.len(),
    ensures
        node.total_stability() == sum_of(node.sub_totals().take(k)) + sum_of(
            node.sub_totals().skip(k),
        ) + sum_of(node.agent_totals()),
{
    lemma_sum_in_parts(node.sub_totals(), k);
}

/// The sum of a vector of numbers, stopping at the largest value that fits.
fn saturating_sum(values: &Vec<u128>) -> (r: u128)
    ensures
        r == saturate(sum_of(widened(values@))),
{
    let mut sum: u128 = 0;
    let mut i: usize = 0;
    while i < values.len()
        invariant
            i <= values@.len(),
            sum == saturate(sum_of(widened(values@).take(i as int))),
        decreases values@.len() - i,
    {
        proof {
            assert(widened(values@).take(i + 1).drop_last() =~= widened(values@).take(i as int));
        }
        sum = sum.saturating_add(values[i]);
        i += 1;
    }
    assert(widened(values@).take(i as int) =~= widened(values@));
    sum
}

/// Ticks every sub-object, in parallel.
///
/// Trusted: calls rayon's `par_iter_mut` on the vector and `for_each` on the
/// iterator it gives, which hand each element to the closure exactly once and
/// return when all are done; the closure calls
/// [`CategoryObject::tick_recursive`], so each sub-object ends as that method
/// leaves it.
#[verifier::external_body]
fn tick_each(subobjects: &mut Vec<Box<CategoryObject>>)
    ensures
        final(subobjects)@.len() == old(subobjects)@.len(),
        forall|i: int|
            0 <= i < old(subobjects)@.len() ==> (#[trigger] final(subobjects)@[i])@
                == old(subobjects)@[i]@.ticked(),
{
    subobjects.par_iter_mut().for_each(|sub| sub.tick_recursive());
}

/// Lets the memory of every agent decay, in parallel.
///
/// Trusted: calls rayon's `par_iter_mut` and `for_each` as [`tick_each`]
/// does; the closure calls [`Agent::decay_memory`].
#[verifier::external_body]
fn decay_each_memory(agents: &mut Vec<Agent>, rate: u64)
    ensures
        final(agents)@.len() == old(agents)@.len(),
        forall|i: int|
            0 <= i < old(agents)@.len() ==> (#[trigger] final(agents)@[i])@
                == old(agents)@[i]@.decayed(rate),
{
    agents.par_iter_mut().for_each(|agent| agent.decay_memory(rate));
}

/// Has every agent express one symbol, in parallel.
///
/// Trusted: calls rayon's `par_iter_mut` and `for_each` as [`tick_each`]
/// does; the closure calls [`Agent::express_symbol`] with a copy of the
/// pattern and drops the symbol it returns.
#[verifier::external_body]
fn express_each(agents: &mut Vec<Agent>, token: &str, pattern: &Pattern, tau: usize)
    ensures
        final(agents)@.len() == old(agents)@.len(),
        forall|i: int|
            0 <= i < old(agents)@.len() ==> (#[trigger] final(agents)@[i])@
                == old(agents)@[i]@.expressed(token@, pattern@, tau),
{
    agents.par_iter_mut().for_each(|agent| {
        agent.express_symbol(token, pattern.clone(), tau);
    });
}

/// Sends a mutation message into every sub-object, in parallel.
///
/// Trusted: calls rayon's `par_iter_mut` and `for_each` as [`tick_each`]
/// does; the closure calls [`CategoryObject::propagate_mutation`].
#[verifier::external_body]
fn propagate_each(subobjects: &mut Vec<Box<CategoryObject>>, message: &str)
    ensures
        final(subobjects)@.len() == old(subobjects)@.len(),
        forall|i: int|
            0 <= i < old(subobjects)@.len() ==> (#[trigger] final(subobjects)@[i])@
                == old(subobjects)@[i]@.mutated(message@),
{
    subobjects.par_iter_mut().for_each(|sub| sub.propagate_mutation(message));
}

/// The aggregate stability of every sub-object, computed in parallel.
///
/// Trusted: calls rayon's `par_iter` on the vector, `map` with a closure
/// that calls [`CategoryObject::aggregate_stability`], and `collect` into a
/// vector, which for an indexed iterator keeps the order of the items.
#[verifier::external_body]
fn aggregate_each(subobjects: &Vec<Box<CategoryObject>>) -> (totals: Vec<u128>)
    ensures
        totals@.len() == subobjects@.len(),
        forall|i: int|
            0 <= i < subobjects@.len() ==> #[trigger] totals@[i] == saturate(
                subobjects@[i]@.total_stability(),
            ),
{
    subobjects.par_iter().map(|sub| sub.aggregate_stability()).collect()
}

/// The memory total of every agent, computed in parallel.
///
/// Trusted: calls rayon's `par_iter`, `map` and `collect` as
/// [`aggregate_each`] does; the closure calls
/// [`crate::agents::MemoryField::total_stability`] on the agent's memory.
#[verifier::external_body]
fn stability_of_each(agents: &Vec<Agent>) -> (totals: Vec<u128>)
    ensures
        totals@.len() == agents@.len(),
        forall|i: int|
            0 <= i < agents@.len() ==> #[trigger] totals@[i] == stability_sum(
                agents@[i]@.memory.traces,
            ),
{
    agents.par_iter().map(|agent| agent.memory.total_stability()).collect()
}

} // verus!
