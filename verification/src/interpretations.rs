//! What a category object means at each recursion level, as structured data
//! and as descriptive text.

use crate::text::{decimal, push_char, push_decimal};
use vstd::prelude::*;
use vstd::string::StringExecFns;

verus! {

/// A particle: the state of one substrate.
#[derive(Debug)]
pub struct ParticleInterpretation {
    pub id: String,
    /// `q` followed by the number of active patterns in hexadecimal.
    pub quantum_state: String,
    /// The sum of all activation levels, in millionths.
    pub energy: u128,
}

/// An atom: the particles directly below it.
#[derive(Debug)]
pub struct AtomInterpretation {
    pub id: String,
    pub atomic_number: u32,
    pub shell_config: String,
    pub constituent_particles: Vec<ParticleInterpretation>,
}

/// A molecule: the atoms directly below it and the bonds between neighbours.
#[derive(Debug)]
pub struct MoleculeInterpretation {
    pub id: String,
    pub formula: String,
    pub bonds: Vec<String>,
    pub constituent_atoms: Vec<AtomInterpretation>,
}

/// A cell: what everything directly below it means, in words.
#[derive(Debug)]
pub struct CellInterpretation {
    pub id: String,
    pub summary: String,
    pub emergent_properties: Vec<String>,
    pub contributing_meanings: Vec<String>,
}

/// The interpretation of a category object, by level.
#[derive(Debug)]
pub enum Interpretation {
    Particle(ParticleInterpretation),
    Atom(AtomInterpretation),
    Molecule(MoleculeInterpretation),
    Cell(CellInterpretation),
}

/// What a [`ParticleInterpretation`] is, as plain values.
pub struct ParticleView {
    pub id: Seq<char>,
    pub quantum_state: Seq<char>,
    pub energy: u128,
}

/// What an [`AtomInterpretation`] is, as plain values.
pub struct AtomView {
    pub id: Seq<char>,
    pub atomic_number: u32,
    pub shell_config: Seq<char>,
    pub constituent_particles: Seq<ParticleView>,
}

/// What a [`MoleculeInterpretation`] is, as plain values.
pub struct MoleculeView {
    pub id: Seq<char>,
    pub formula: Seq<char>,
    pub bonds: Seq<Seq<char>>,
    pub constituent_atoms: Seq<AtomView>,
}

/// What a [`CellInterpretation`] is, as plain values.
pub struct CellView {
    pub id: Seq<char>,
    pub summary: Seq<char>,
    pub emergent_properties: Seq<Seq<char>>,
    pub contributing_meanings: Seq<Seq<char>>,
}

/// What an [`Interpretation`] is, as plain values.
pub enum InterpretationView {
    Particle(ParticleView),
    Atom(AtomView),
    Molecule(MoleculeView),
    Cell(CellView),
}

/// The texts of a sequence of strings.
pub open spec fn string_views(strings: Seq<String>) -> Seq<Seq<char>> {
    strings.map_values(|s: String| s@)
}

/// The views of a sequence of particle interpretations.
pub open spec fn particle_views(particles: Seq<ParticleInterpretation>) -> Seq<ParticleView> {
    particles.map_values(|p: ParticleInterpretation| p@)
}

/// The views of a sequence of atom interpretations.
pub open spec fn atom_views(atoms: Seq<AtomInterpretation>) -> Seq<AtomView> {
    atoms.map_values(|a: AtomInterpretation| a@)
}

impl View for ParticleInterpretation {
    type V = ParticleView;

    open spec fn view(&self) -> ParticleView {
        ParticleView { id: self.id@, quantum_state: self.quantum_state@, energy: self.energy }
    }
}

impl View for AtomInterpretation {
    type V = AtomView;

    open spec fn view(&self) -> AtomView {
        AtomView {
            id: self.id@,
            atomic_number: self.atomic_number,
            shell_config: self.shell_config@,
            constituent_particles: particle_views(self.constituent_particles@),
        }
    }
}

impl View for MoleculeInterpretation {
    type V = MoleculeView;

    open spec fn view(&self) -> MoleculeView {
        MoleculeView {
            id: self.id@,
            formula: self.formula@,
            bonds: string_views(self.bonds@),
            constituent_atoms: atom_views(self.constituent_atoms@),
        }
    }
}

impl View for CellInterpretation {
    type V = CellView;

    open spec fn view(&self) -> CellView {
        CellView {
            id: self.id@,
            summary: self.summary@,
            emergent_properties: string_views(self.emergent_properties@),
            contributing_meanings: string_views(self.contributing_meanings@),
        }
    }
}

impl View for Interpretation {
    type V = InterpretationView;

    open spec fn view(&self) -> InterpretationView {
        match self {
            Interpretation::Particle(p) => InterpretationView::Particle(p@),
            Interpretation::Atom(a) => InterpretationView::Atom(a@),
            Interpretation::Molecule(m) => InterpretationView::Molecule(m@),
            Interpretation::Cell(c) => InterpretationView::Cell(c@),
        }
    }
}

/// A copy of a vector of strings.
pub fn clone_strings(items: &Vec<String>) -> (r: Vec<String>)
    ensures
        string_views(r@) == string_views(items@),
{
    let mut out: Vec<String> = Vec::new();
    let mut i: usize = 0;
    while i < items.len()
        invariant
            i <= items@.len(),
            out@.len() == i,
            forall|j: int| 0 <= j < i ==> (#[trigger] out@[j])@ == items@[j]@,
        decreases items@.len() - i,
    {
        out.push(items[i].clone());
        i += 1;
    }
    assert(string_views(out@) =~= string_views(items@));
    out
}

impl Clone for ParticleInterpretation {
    fn clone(&self) -> (r: ParticleInterpretation)
        ensures
            r@ == self@,
    {
        ParticleInterpretation {
            id: self.id.clone(),
            quantum_state: self.quantum_state.clone(),
            energy: self.energy,
        }
    }
}

impl Clone for AtomInterpretation {
    fn clone(&self) -> (r: AtomInterpretation)
        ensures
            r@ == self@,
    {
        let mut particles: Vec<ParticleInterpretation> = Vec::new();
        let mut i: usize = 0;
        while i < self.constituent_particles.len()
            invariant
                i <= self.constituent_particles@.len(),
                particles@.len() == i,
                forall|j: int|
                    0 <= j < i ==> (#[trigger] particles@[j])@ == self.constituent_particles@[j]@,
            decreases self.constituent_particles@.len() - i,
        {
            particles.push(self.constituent_particles[i].clone());
            i += 1;
        }
        assert(particle_views(particles@) =~= particle_views(self.constituent_particles@));
        AtomInterpretation {
            id: self.id.clone(),
            atomic_number: self.atomic_number,
            shell_config: self.shell_config.clone(),
            constituent_particles: particles,
        }
    }
}

impl Clone for MoleculeInterpretation {
    fn clone(&self) -> (r: MoleculeInterpretation)
        ensures
            r@ == self@,
    {
        let mut atoms: Vec<AtomInterpretation> = Vec::new();
        let mut i: usize = 0;
        while i < self.constituent_atoms.len()
            invariant
                i <= self.constituent_atoms@.len(),
                atoms@.len() == i,
                forall|j: int| 0 <= j < i ==> (#[trigger] atoms@[j])@ == self.constituent_atoms@[j]@,
            decreases self.constituent_atoms@.len() - i,
        {
            atoms.push(self.constituent_atoms[i].clone());
            i += 1;
        }
        assert(atom_views(atoms@) =~= atom_views(self.constituent_atoms@));
        MoleculeInterpretation {
            id: self.id.clone(),
            formula: self.formula.clone(),
            bonds: clone_strings(&self.bonds),
            constituent_atoms: atoms,
        }
    }
}

impl Clone for CellInterpretation {
    fn clone(&self) -> (r: CellInterpretation)
        ensures
            r@ == self@,
    {
        CellInterpretation {
            id: self.id.clone(),
            summary: self.summary.clone(),
            emergent_properties: clone_strings(&self.emergent_properties),
            contributing_meanings: clone_strings(&self.contributing_meanings),
        }
    }
}

impl Clone for Interpretation {
    fn clone(&self) -> (r: Interpretation)
        ensures
            r@ == self@,
    {
        match self {
            Interpretation::Particle(p) => Interpretation::Particle(p.clone()),
            Interpretation::Atom(a) => Interpretation::Atom(a.clone()),
            Interpretation::Molecule(m) => Interpretation::Molecule(m.clone()),
            Interpretation::Cell(c) => Interpretation::Cell(c.clone()),
        }
    }
}

/// A text between double quotes. Nothing inside it is escaped.
pub open spec fn quoted(s: Seq<char>) -> Seq<char> {
    seq!['"'] + s + seq!['"']
}

/// Texts written one after another with `, ` between neighbours.
pub open spec fn joined(items: Seq<Seq<char>>) -> Seq<char>
    decreases items.len(),
{
    if items.len() == 0 {
        Seq::empty()
    } else if items.len() == 1 {
        items[0]
    } else {
        joined(items.drop_last()) + ", "@ + items.last()
    }
}

/// Texts written as a list: between square brackets, separated by `, `.
pub open spec fn listed(items: Seq<Seq<char>>) -> Seq<char> {
    seq!['['] + joined(items) + seq![']']
}

/// The text of a particle interpretation.
pub open spec fn particle_text(p: ParticleView) -> Seq<char> {
    "ParticleInterpretation { id: "@ + quoted(p.id) + ", quantum_state: "@ + quoted(
        p.quantum_state,
    ) + ", energy: "@ + decimal(p.energy as nat) + " }"@
}

/// The text of an atom interpretation.
pub open spec fn atom_text(a: AtomView) -> Seq<char> {
    "AtomInterpretation { id: "@ + quoted(a.id) + ", atomic_number: "@ + decimal(
        a.atomic_number as nat,
    ) + ", shell_config: "@ + quoted(a.shell_config) + ", constituent_particles: "@ + listed(
        a.constituent_particles.map_values(|p: ParticleView| particle_text(p)),
    ) + " }"@
}

/// The text of a molecule interpretation.
pub open spec fn molecule_text(m: MoleculeView) -> Seq<char> {
    "MoleculeInterpretation { id: "@ + quoted(m.id) + ", formula: "@ + quoted(m.formula)
        + ", bonds: "@ + listed(m.bonds.map_values(|b: Seq<char>| quoted(b)))
        + ", constituent_atoms: "@ + listed(
        m.constituent_atoms.map_values(|a: AtomView| atom_text(a)),
    ) + " }"@
}

/// The text of a cell interpretation.
pub open spec fn cell_text(c: CellView) -> Seq<char> {
    "CellInterpretation { id: "@ + quoted(c.id) + ", summary: "@ + quoted(c.summary)
        + ", emergent_properties: "@ + listed(
        c.emergent_properties.map_values(|s: Seq<char>| quoted(s)),
    ) + ", contributing_meanings: "@ + listed(
        c.contributing_meanings.map_values(|s: Seq<char>| quoted(s)),
    ) + " }"@
}

/// The text of an interpretation: the name of its level, and the text of what
/// it holds between round brackets.
pub open spec fn interpretation_text(i: InterpretationView) -> Seq<char> {
    match i {
        InterpretationView::Particle(p) => "Particle("@ + particle_text(p) + ")"@,
        InterpretationView::Atom(a) => "Atom("@ + atom_text(a) + ")"@,
        InterpretationView::Molecule(m) => "Molecule("@ + molecule_text(m) + ")"@,
        InterpretationView::Cell(c) => "Cell("@ + cell_text(c) + ")"@,
    }
}

/// Appends a text between double quotes.
fn push_quoted(out: &mut String, s: &str)
    ensures
        final(out)@ == old(out)@ + quoted(s@),
{
    push_char(out, '"');
    out.append(s);
    push_char(out, '"');
    assert(out@ =~= old(out)@ + quoted(s@));
}

/// Appends what separates the item at `position` from the one before it.
fn push_separator(out: &mut String, position: usize)
    ensures
        final(out)@ == old(out)@ + if position == 0 {
            Seq::<char>::empty()
        } else {
            ", "@
        },
{
    if position > 0 {
        out.append(", ");
    }
    assert(out@ =~= old(out)@ + if position == 0 {
        Seq::<char>::empty()
    } else {
        ", "@
    });
}

/// Joining one more item onto a list of texts.
proof fn lemma_joined_push(items: Seq<Seq<char>>, item: Seq<char>)
    ensures
        joined(items.push(item)) == joined(items) + if items.len() == 0 {
            Seq::<char>::empty()
        } else {
            ", "@
        } + item,
{
    let all = items.push(item);
    assert(all.drop_last() =~= items);
    assert(all.last() == item);
    if items.len() == 0 {
        assert(joined(all) =~= joined(items) + Seq::<char>::empty() + item);
    }
}

/// Appends a list of quoted strings.
fn push_quoted_list(out: &mut String, items: &Vec<String>)
    ensures
        final(out)@ == old(out)@ + listed(
            string_views(items@).map_values(|s: Seq<char>| quoted(s)),
        ),
{
    let ghost texts = string_views(items@).map_values(|s: Seq<char>| quoted(s));
    push_char(out, '[');
    let mut i: usize = 0;
    while i < items.len()
        invariant
            i <= items@.len(),
            texts == string_views(items@).map_values(|s: Seq<char>| quoted(s)),
            out@ == old(out)@ + seq!['['] + joined(texts.take(i as int)),
        decreases items@.len() - i,
    {
        proof {
            lemma_joined_push(texts.take(i as int), texts[i as int]);
            assert(texts.take(i as int).push(texts[i as int]) =~= texts.take(i + 1));
        }
        let ghost before = out@;
        push_separator(out, i);
        push_quoted(out, items[i].as_str());
        assert(out@ =~= old(out)@ + seq!['['] + joined(texts.take(i + 1)));
        i += 1;
    }
    push_char(out, ']');
    assert(texts.take(i as int) =~= texts);
    assert(out@ =~= old(out)@ + listed(texts));
}

impl ParticleInterpretation {
    /// Appends the text of the interpretation.
    fn write(&self, out: &mut String)
        ensures
            final(out)@ == old(out)@ + particle_text(self@),
    {
        out.append("ParticleInterpretation { id: ");
        push_quoted(out, self.id.as_str());
        out.append(", quantum_state: ");
        push_quoted(out, self.quantum_state.as_str());
        out.append(", energy: ");
        push_decimal(out, self.energy);
        out.append(" }");
        assert(out@ =~= old(out)@ + particle_text(self@));
    }
}

/// Appends a list of particle interpretations.
fn push_particle_list(out: &mut String, items: &Vec<ParticleInterpretation>)
    ensures
        final(out)@ == old(out)@ + listed(
            particle_views(items@).map_values(|p: ParticleView| particle_text(p)),
        ),
{
    let ghost texts = particle_views(items@).map_values(|p: ParticleView| particle_text(p));
    push_char(out, '[');
    let mut i: usize = 0;
    while i < items.len()
        invariant
            i <= items@.len(),
            texts == particle_views(items@).map_values(|p: ParticleView| particle_text(p)),
            out@ == old(out)@ + seq!['['] + joined(texts.take(i as int)),
        decreases items@.len() - i,
    {
        proof {
            lemma_joined_push(texts.take(i as int), texts[i as int]);
            assert(texts.take(i as int).push(texts[i as int]) =~= texts.take(i + 1));
        }
        push_separator(out, i);
        items[i].write(out);
        assert(out@ =~= old(out)@ + seq!['['] + joined(texts.take(i + 1)));
        i += 1;
    }
    push_char(out, ']');
    assert(texts.take(i as int) =~= texts);
    assert(out@ =~= old(out)@ + listed(texts));
}

impl AtomInterpretation {
    /// Appends the text of the interpretation.
    fn write(&self, out: &mut String)
        ensures
            final(out)@ == old(out)@ + atom_text(self@),
    {
        out.append("AtomInterpretation { id: ");
        push_quoted(out, self.id.as_str());
        out.append(", atomic_number: ");
        push_decimal(out, self.atomic_number as u128);
        out.append(", shell_config: ");
        push_quoted(out, self.shell_config.as_str());
        out.append(", constituent_particles: ");
        push_particle_list(out, &self.constituent_particles);
        out.append(" }");
        assert(out@ =~= old(out)@ + atom_text(self@));
    }
}

/// Appends a list of atom interpretations.
fn push_atom_list(out: &mut String, items: &Vec<AtomInterpretation>)
    ensures
        final(out)@ == old(out)@ + listed(atom_views(items@).map_values(|a: AtomView| atom_text(a))),
{
    let ghost texts = atom_views(items@).map_values(|a: AtomView| atom_text(a));
    push_char(out, '[');
    let mut i: usize = 0;
    while i < items.len()
        invariant
            i <= items@.len(),
            texts == atom_views(items@).map_values(|a: AtomView| atom_text(a)),
            out@ == old(out)@ + seq!['['] + joined(texts.take(i as int)),
        decreases items@.len() - i,
    {
        proof {
            lemma_joined_push(texts.take(i as int), texts[i as int]);
            assert(texts.take(i as int).push(texts[i as int]) =~= texts.take(i + 1));
        }
        push_separator(out, i);
        items[i].write(out);
        assert(out@ =~= old(out)@ + seq!['['] + joined(texts.take(i + 1)));
        i += 1;
    }
    push_char(out, ']');
    assert(texts.take(i as int) =~= texts);
    assert(out@ =~= old(out)@ + listed(texts));
}

impl MoleculeInterpretation {
    /// Appends the text of the interpretation.
    fn write(&self, out: &mut String)
        ensures
            final(out)@ == old(out)@ + molecule_text(self@),
    {
        out.append("MoleculeInterpretation { id: ");
        push_quoted(out, self.id.as_str());
        out.append(", formula: ");
        push_quoted(out, self.formula.as_str());
        out.append(", bonds: ");
        push_quoted_list(out, &self.bonds);
        out.append(", constituent_atoms: ");
        push_atom_list(out, &self.constituent_atoms);
        out.append(" }");
        assert(out@ =~= old(out)@ + molecule_text(self@));
    }
}

impl CellInterpretation {
    /// Appends the text of the interpretation.
    fn write(&self, out: &mut String)
        ensures
            final(out)@ == old(out)@ + cell_text(self@),
    {
        out.append("CellInterpretation { id: ");
        push_quoted(out, self.id.as_str());
        out.append(", summary: ");
        push_quoted(out, self.summary.as_str());
        out.append(", emergent_properties: ");
        push_quoted_list(out, &self.emergent_properties);
        out.append(", contributing_meanings: ");
        push_quoted_list(out, &self.contributing_meanings);
        out.append(" }");
        assert(out@ =~= old(out)@ + cell_text(self@));
    }
}

impl Interpretation {
    /// The interpretation in words: the name of its level, then its fields
    /// by name. Levels of energy are written as whole numbers of millionths.
    pub fn describe(&self) -> (r: String)
        ensures
            r@ == interpretation_text(self@),
    {
        let mut out = String::new();
        match self {
            Interpretation::Particle(p) => {
                out.append("Particle(");
                p.write(&mut out);
            },
            Interpretation::Atom(a) => {
                out.append("Atom(");
                a.write(&mut out);
            },
            Interpretation::Molecule(m) => {
                out.append("Molecule(");
                m.write(&mut out);
            },
            Interpretation::Cell(c) => {
                out.append("Cell(");
                c.write(&mut out);
            },
        }
        out.append(")");
        assert(out@ =~= interpretation_text(self@));
        out
    }
}

} // verus!
