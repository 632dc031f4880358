//! Patterns and the activation substrate they are projected into.

use crate::symbol::Symbol;
use crate::units::{attenuate, attenuated, PRUNE_LEVEL, UNIT};
use rayon::iter::{IntoParallelRefMutIterator, ParallelIterator};
use vstd::prelude::*;
use vstd::std_specs::cmp::PartialEqSpecImpl;

verus! {

/// An opaque tag that identifies the shape of a sign.
#[derive(Debug, Hash)]
pub struct Pattern(pub String);

impl View for Pattern {
    type V = Seq<char>;

    open spec fn view(&self) -> Seq<char> {
        self.0@
    }
}

impl PartialEq for Pattern {
    fn eq(&self, other: &Pattern) -> (r: bool) {
        self.0 == other.0
    }
}

impl PartialEqSpecImpl for Pattern {
    open spec fn obeys_eq_spec() -> bool {
        true
    }

    open spec fn eq_spec(&self, other: &Pattern) -> bool {
        self@ == other@
    }
}

impl Eq for Pattern {

}

impl Clone for Pattern {
    fn clone(&self) -> (r: Pattern)
        ensures
            r@ == self@,
    {
        Pattern(self.0.clone())
    }
}

impl Pattern {
    /// Makes a pattern from its tag.
    pub fn new(s: &str) -> (r: Pattern)
        ensures
            r@ == s@,
    {
        Pattern(s.to_owned())
    }
}

/// One entry of a substrate: a pattern and its activation level.
#[derive(Debug)]
pub struct Activation {
    pub pattern: Pattern,
    pub level: u64,
}

impl Activation {
    /// The entry after one decay step: same pattern, attenuated level.
    pub open spec fn decayed(self, rate: u64) -> Activation {
        Activation { pattern: self.pattern, level: attenuated(self.level, rate) }
    }

    /// Scales the level by `1 - rate`.
    pub fn decay(&mut self, rate: u64)
        ensures
            *final(self) == old(self).decayed(rate),
    {
        self.level = attenuate(self.level, rate);
    }
}

/// No two entries carry the same pattern.
pub open spec fn distinct_patterns(entries: Seq<Activation>) -> bool {
    forall|i: int, j: int|
        0 <= i < j < entries.len() ==> (#[trigger] entries[i]).pattern@ != (
        #[trigger] entries[j]).pattern@
}

/// The map from pattern to level that a sequence of entries stands for; of
/// two entries with one pattern the later one counts.
pub open spec fn activation_map(entries: Seq<Activation>) -> Map<Seq<char>, u64>
    decreases entries.len(),
{
    if entries.len() == 0 {
        Map::empty()
    } else {
        activation_map(entries.drop_last()).insert(entries.last().pattern@, entries.last().level)
    }
}

/// The sum of the levels of a sequence of entries.
pub open spec fn entries_total(entries: Seq<Activation>) -> nat
    decreases entries.len(),
{
    if entries.len() == 0 {
        0
    } else {
        entries_total(entries.drop_last()) + entries.last().level as nat
    }
}

/// The sum of all levels of an activation map.
pub open spec fn levels_total(m: Map<Seq<char>, u64>) -> nat
    decreases m.dom().len(),
    when m.dom().finite()
{
    if m.dom().len() == 0 {
        0
    } else {
        let p = m.dom().choose();
        m[p] as nat + levels_total(m.remove(p))
    }
}

/// A level after one projection: one whole unit more, stopping at the
/// largest level that can be held.
pub open spec fn projected(level: u64) -> u64 {
    if level + UNIT > u64::MAX {
        u64::MAX
    } else {
        (level + UNIT) as u64
    }
}

/// The level a map holds for a pattern, zero where it holds none.
pub open spec fn level_in(m: Map<Seq<char>, u64>, pattern: Seq<char>) -> u64 {
    if m.contains_key(pattern) {
        m[pattern]
    } else {
        0
    }
}

/// An activation map after one decay step: every level is attenuated, and
/// the entries that end at or below [`PRUNE_LEVEL`] are gone.
pub open spec fn decayed_map(m: Map<Seq<char>, u64>, rate: u64) -> Map<Seq<char>, u64> {
    Map::new(
        |p: Seq<char>| m.contains_key(p) && attenuated(m[p], rate) > PRUNE_LEVEL,
        |p: Seq<char>| attenuated(m[p], rate),
    )
}

/// What one decay step does to one active pattern: its level becomes
/// `level * (UNIT - rate) / UNIT`, rounded down, and the pattern stays active
/// exactly if that is above [`PRUNE_LEVEL`].
pub proof fn lemma_decay_of_entry(m: Map<Seq<char>, u64>, rate: u64, pattern: Seq<char>)
    requires
        m.contains_key(pattern),
        rate <= UNIT,
    ensures
        attenuated(m[pattern], rate) == m[pattern] * (UNIT - rate) / (UNIT as int),
        attenuated(m[pattern], rate) <= m[pattern],
        decayed_map(m, rate).contains_key(pattern) <==> attenuated(m[pattern], rate) > PRUNE_LEVEL,
        decayed_map(m, rate).contains_key(pattern) ==> decayed_map(m, rate)[pattern] == attenuated(
            m[pattern],
            rate,
        ),
{
    if rate < UNIT {
        crate::units::lemma_attenuated_bounds(m[pattern], rate);
    } else {
        assert(m[pattern] * (UNIT - rate) == 0) by (nonlinear_arith)
            requires
                UNIT - rate == 0,
        ;
    }
}

/// A decay at the rate of one whole unit, or more, leaves nothing active.
pub proof fn lemma_full_decay_clears(m: Map<Seq<char>, u64>, rate: u64)
    requires
        rate >= UNIT,
    ensures
        decayed_map(m, rate) == Map::<Seq<char>, u64>::empty(),
{
    assert(decayed_map(m, rate) =~= Map::<Seq<char>, u64>::empty());
}

/// A pattern is in the map of a sequence exactly if some entry carries it.
pub proof fn lemma_map_membership(entries: Seq<Activation>, pattern: Seq<char>)
    ensures
        activation_map(entries).contains_key(pattern) <==> exists|i: int|
            0 <= i < entries.len() && (#[trigger] entries[i]).pattern@ == pattern,
    decreases entries.len(),
{
    if entries.len() > 0 {
        let front = entries.drop_last();
        lemma_map_membership(front, pattern);
        if activation_map(entries).contains_key(pattern) {
            if entries.last().pattern@ == pattern {
                assert(entries[entries.len() - 1].pattern@ == pattern);
            } else {
                let i = choose|i: int| 0 <= i < front.len() && (#[trigger] front[i]).pattern@ == pattern;
                assert(entries[i].pattern@ == pattern);
            }
        }
        if exists|i: int| 0 <= i < entries.len() && (#[trigger] entries[i]).pattern@ == pattern {
            let i = choose|i: int| 0 <= i < entries.len() && (#[trigger] entries[i]).pattern@ == pattern;
            if i < entries.len() - 1 {
                assert(front[i].pattern@ == pattern);
            }
        }
    }
}

/// With distinct patterns, the map holds each entry's own level.
pub proof fn lemma_map_value(entries: Seq<Activation>, i: int)
    requires
        distinct_patterns(entries),
        0 <= i < entries.len(),
    ensures
        activation_map(entries).contains_key(entries[i].pattern@),
        activation_map(entries)[entries[i].pattern@] == entries[i].level,
    decreases entries.len(),
{
    let front = entries.drop_last();
    if i < entries.len() - 1 {
        assert(distinct_patterns(front)) by {
            assert forall|a: int, b: int| 0 <= a < b < front.len() implies (#[trigger] front[a]).pattern@
                != (#[trigger] front[b]).pattern@ by {
                assert(entries[a].pattern@ != entries[b].pattern@);
            }
        }
        lemma_map_value(front, i);
        assert(front[i] == entries[i]);
        assert(entries[i].pattern@ != entries[entries.len() - 1].pattern@);
    }
}

/// The map of a sequence is finite, and with distinct patterns it has one
/// key for each entry.
pub proof fn lemma_map_size(entries: Seq<Activation>)
    ensures
        activation_map(entries).dom().finite(),
        distinct_patterns(entries) ==> activation_map(entries).dom().len() == entries.len(),
    decreases entries.len(),
{
    if entries.len() > 0 {
        let front = entries.drop_last();
        lemma_map_size(front);
        if distinct_patterns(entries) {
            assert(distinct_patterns(front)) by {
                assert forall|a: int, b: int| 0 <= a < b < front.len() implies (
                #[trigger] front[a]).pattern@ != (#[trigger] front[b]).pattern@ by {
                    assert(entries[a].pattern@ != entries[b].pattern@);
                }
            }
            lemma_map_membership(front, entries.last().pattern@);
            if activation_map(front).contains_key(entries.last().pattern@) {
                let i = choose|i: int|
                    0 <= i < front.len() && (#[trigger] front[i]).pattern@
                        == entries.last().pattern@;
                assert(entries[i].pattern@ != entries[entries.len() - 1].pattern@);
            }
        }
    }
}

/// The total of a map does not depend on which key is taken out first.
pub proof fn lemma_total_remove(m: Map<Seq<char>, u64>, pattern: Seq<char>)
    requires
        m.dom().finite(),
        m.contains_key(pattern),
    ensures
        levels_total(m) == m[pattern] as nat + levels_total(m.remove(pattern)),
    decreases m.dom().len(),
{
    let c = m.dom().choose();
    if c != pattern {
        lemma_total_remove(m.remove(c), pattern);
        lemma_total_remove(m.remove(pattern), c);
        assert(m.remove(c).remove(pattern) =~= m.remove(pattern).remove(c));
    }
}

/// With distinct patterns, the total of the map is the sum over the entries.
pub proof fn lemma_total_of_entries(entries: Seq<Activation>)
    requires
        distinct_patterns(entries),
    ensures
        levels_total(activation_map(entries)) == entries_total(entries),
    decreases entries.len(),
{
    lemma_map_size(entries);
    if entries.len() > 0 {
        let front = entries.drop_last();
        let last = entries.last();
        assert(distinct_patterns(front)) by {
            assert forall|a: int, b: int| 0 <= a < b < front.len() implies (#[trigger] front[a]).pattern@
                != (#[trigger] front[b]).pattern@ by {
                assert(entries[a].pattern@ != entries[b].pattern@);
            }
        }
        lemma_total_of_entries(front);
        lemma_map_membership(front, last.pattern@);
        if activation_map(front).contains_key(last.pattern@) {
            let i = choose|i: int|
                0 <= i < front.len() && (#[trigger] front[i]).pattern@ == last.pattern@;
            assert(entries[i].pattern@ != entries[entries.len() - 1].pattern@);
        }
        lemma_total_remove(activation_map(entries), last.pattern@);
        assert(activation_map(entries).remove(last.pattern@) =~= activation_map(front));
    }
}

/// Replacing one entry by another with the same pattern overwrites that
/// pattern's level in the map and nothing else.
pub proof fn lemma_map_update(entries: Seq<Activation>, i: int, entry: Activation)
    requires
        distinct_patterns(entries),
        0 <= i < entries.len(),
        entry.pattern@ == entries[i].pattern@,
    ensures
        distinct_patterns(entries.update(i, entry)),
        activation_map(entries.update(i, entry)) == activation_map(entries).insert(
            entry.pattern@,
            entry.level,
        ),
{
    let after = entries.update(i, entry);
    assert(distinct_patterns(after)) by {
        assert forall|a: int, b: int| 0 <= a < b < after.len() implies (#[trigger] after[a]).pattern@
            != (#[trigger] after[b]).pattern@ by {
            assert(entries[a].pattern@ != entries[b].pattern@);
        }
    }
    let left = activation_map(after);
    let right = activation_map(entries).insert(entry.pattern@, entry.level);
    lemma_map_value(entries, i);
    assert forall|q: Seq<char>|
        #![trigger left.contains_key(q)]
        #![trigger right.contains_key(q)]
        left.contains_key(q) == right.contains_key(q) && (left.contains_key(q) ==> left[q]
            == right[q]) by {
        lemma_map_membership(entries, q);
        lemma_map_membership(after, q);
        if left.contains_key(q) {
            let j = choose|j: int| 0 <= j < after.len() && (#[trigger] after[j]).pattern@ == q;
            assert(entries[j].pattern@ == q);
            lemma_map_value(entries, j);
            lemma_map_value(after, j);
            if j != i {
                if j < i {
                    assert(entries[j].pattern@ != entries[i].pattern@);
                } else {
                    assert(entries[i].pattern@ != entries[j].pattern@);
                }
            }
        }
        if right.contains_key(q) && !left.contains_key(q) {
            if q == entry.pattern@ {
                assert(after[i].pattern@ == q);
            } else {
                let j = choose|j: int|
                    0 <= j < entries.len() && (#[trigger] entries[j]).pattern@ == q;
                assert(after[j].pattern@ == q);
            }
        }
    }
    assert(left =~= right);
}

/// Decays every entry of a vector in place, in parallel.
///
/// Trusted: calls rayon's `par_iter_mut` on the vector and `for_each` on the
/// iterator it gives, which hand each element to the closure exactly once and
/// return when all are done; the closure calls [`Activation::decay`], so each
/// entry ends as that method leaves it and the vector keeps its length and
/// order.
#[verifier::external_body]
fn decay_each(entries: &mut Vec<Activation>, rate: u64)
    ensures
        final(entries)@.len() == old(entries)@.len(),
        forall|i: int|
            0 <= i < old(entries)@.len() ==> #[trigger] final(entries)@[i]
                == old(entries)@[i].decayed(rate),
{
    entries.par_iter_mut().for_each(|entry| entry.decay(rate));
}

/// Whether an entry's level is above [`PRUNE_LEVEL`].
pub open spec fn above_prune_level(entry: Activation) -> bool {
    entry.level > PRUNE_LEVEL
}

/// Drops the entries whose level is at or below [`PRUNE_LEVEL`], keeping the
/// others in order.
fn prune(entries: Vec<Activation>) -> (kept: Vec<Activation>)
    ensures
        kept@ == entries@.filter(|e: Activation| above_prune_level(e)),
{
    let ghost keep = |e: Activation| above_prune_level(e);
    let ghost all = entries@;
    let mut kept: Vec<Activation> = Vec::new();
    for entry in it: entries
        invariant
            it.seq() == all,
            keep == |e: Activation| above_prune_level(e),
            kept@ == all.take(it.index() as int).filter(keep),
    {
        proof {
            let i = it.index() as int;
            assert(all.take(i + 1).drop_last() =~= all.take(i));
            assert(all.take(i + 1).last() == entry);
            reveal(Seq::filter);
        }
        if entry.level > PRUNE_LEVEL {
            kept.push(entry);
        }
    }
    assert(all.take(all.len() as int) =~= all);
    kept
}

/// A field of activation levels, one for each pattern that has been projected
/// into it and has not yet decayed away.
///
/// The substrate stands for a map from pattern to level, which is its view.
pub struct Substrate {
    entries: Vec<Activation>,
}

impl View for Substrate {
    type V = Map<Seq<char>, u64>;

    closed spec fn view(&self) -> Map<Seq<char>, u64> {
        activation_map(self.entries@)
    }
}

impl Default for Substrate {
    fn default() -> (r: Substrate)
        ensures
            r@ == Map::<Seq<char>, u64>::empty(),
    {
        Substrate::new()
    }
}

impl Substrate {
    #[verifier::type_invariant]
    spec fn well_formed(&self) -> bool {
        distinct_patterns(self.entries@)
    }

    /// A substrate in which nothing is active.
    pub fn new() -> (r: Substrate)
        ensures
            r@ == Map::<Seq<char>, u64>::empty(),
    {
        Substrate { entries: Vec::new() }
    }

    /// The index of the entry that carries `pattern`, if there is one.
    fn position(&self, pattern: &Pattern) -> (r: Option<usize>)
        ensures
            match r {
                Some(i) => i < self.entries@.len() && self.entries@[i as int].pattern@ == pattern@,
                None => forall|i: int|
                    0 <= i < self.entries@.len() ==> (#[trigger] self.entries@[i]).pattern@
                        != pattern@,
            },
    {
        let mut i: usize = 0;
        while i < self.entries.len()
            invariant
                i <= self.entries@.len(),
                forall|j: int| 0 <= j < i ==> (#[trigger] self.entries@[j]).pattern@ != pattern@,
            decreases self.entries@.len() - i,
        {
            if self.entries[i].pattern == *pattern {
                return Some(i);
            }
            i += 1;
        }
        None
    }

    /// The number of active patterns.
    pub fn len(&self) -> (r: usize)
        ensures
            self@.dom().finite(),
            r == self@.dom().len(),
    {
        proof {
            use_type_invariant(self);
            lemma_map_size(self.entries@);
        }
        self.entries.len()
    }

    /// The activation level of a pattern, if it is active.
    pub fn level(&self, pattern: &Pattern) -> (r: Option<u64>)
        ensures
            r == if self@.contains_key(pattern@) {
                Some(self@[pattern@])
            } else {
                None
            },
    {
        proof {
            use_type_invariant(self);
            lemma_map_membership(self.entries@, pattern@);
        }
        match self.position(pattern) {
            Some(i) => {
                proof {
                    lemma_map_value(self.entries@, i as int);
                }
                Some(self.entries[i].level)
            },
            None => None,
        }
    }

    /// The sum of all activation levels.
    pub fn total(&self) -> (r: u128)
        ensures
            self@.dom().finite(),
            r == levels_total(self@),
    {
        proof {
            use_type_invariant(self);
            lemma_map_size(self.entries@);
            lemma_total_of_entries(self.entries@);
        }
        let mut sum: u128 = 0;
        let mut i: usize = 0;
        while i < self.entries.len()
            invariant
                i <= self.entries@.len(),
                sum == entries_total(self.entries@.take(i as int)),
                sum <= i * u64::MAX,
            decreases self.entries@.len() - i,
        {
            proof {
                assert(self.entries@.take(i + 1).drop_last() =~= self.entries@.take(i as int));
                assert((i + 1) * u64::MAX == i * u64::MAX + u64::MAX) by (nonlinear_arith);
                assert(i * u64::MAX <= usize::MAX * u64::MAX) by (nonlinear_arith)
                    requires
                        i <= usize::MAX,
                ;
                assert(usize::MAX * u64::MAX <= u64::MAX * u64::MAX) by (nonlinear_arith)
                    requires
                        usize::MAX <= u64::MAX,
                ;
            }
            sum = sum + self.entries[i].level as u128;
            i += 1;
        }
        assert(self.entries@.take(i as int) =~= self.entries@);
        sum
    }

    /// Projects a symbol into the substrate: the level of its pattern rises
    /// by one whole unit, from zero if the pattern was not active. A level
    /// that cannot rise further stays at the largest value it can hold.
    pub fn project(&mut self, symbol: &Symbol)
        ensures
            final(self)@ == old(self)@.insert(
                symbol.pattern@,
                projected(level_in(old(self)@, symbol.pattern@)),
            ),
    {
        proof {
            use_type_invariant(&*self);
            lemma_map_membership(self.entries@, symbol.pattern@);
        }
        let found = self.position(&symbol.pattern);
        let mut entries: Vec<Activation> = Vec::new();
        std::mem::swap(&mut self.entries, &mut entries);
        let ghost before = entries@;
        match found {
            Some(i) => {
                let level = entries[i].level;
                let raised = if level > u64::MAX - UNIT {
                    u64::MAX
                } else {
                    level + UNIT
                };
                proof {
                    lemma_map_value(before, i as int);
                    lemma_map_update(
                        before,
                        i as int,
                        Activation { pattern: before[i as int].pattern, level: raised },
                    );
                }
                entries[i].level = raised;
                assert(entries@ =~= before.update(
                    i as int,
                    Activation { pattern: before[i as int].pattern, level: raised },
                ));
            },
            None => {
                let entry = Activation { pattern: symbol.pattern.clone(), level: UNIT };
                proof {
                    let after = before.push(entry);
                    assert(after.drop_last() =~= before);
                    assert forall|a: int, b: int| 0 <= a < b < after.len() implies (
                    #[trigger] after[a]).pattern@ != (#[trigger] after[b]).pattern@ by {
                        if b < before.len() {
                            assert(before[a].pattern@ != before[b].pattern@);
                        } else {
                            assert(before[a].pattern@ != symbol.pattern@);
                        }
                    }
                }
                entries.push(entry);
            },
        }
        self.entries = entries;
    }

    /// Lets every activation decay: each level is scaled by `1 - rate`,
    /// rounded down and floored at zero, and then every entry whose level is
    /// at or below [`PRUNE_LEVEL`] is removed. A rate of one whole unit or
    /// more clears the substrate.
    pub fn decay(&mut self, rate: u64)
        ensures
            final(self)@ == decayed_map(old(self)@, rate),
            rate >= UNIT ==> final(self)@ == Map::<Seq<char>, u64>::empty(),
            forall|p: Seq<char>| #[trigger]
                final(self)@.contains_key(p) ==> final(self)@[p] > PRUNE_LEVEL,
    {
        proof {
            use_type_invariant(&*self);
        }
        let mut entries: Vec<Activation> = Vec::new();
        std::mem::swap(&mut self.entries, &mut entries);
        let ghost before = entries@;
        decay_each(&mut entries, rate);
        let ghost scaled = entries@;
        let kept = prune(entries);
        proof {
            lemma_decay_entries(before, scaled, kept@, rate);
        }
        self.entries = kept;
        assert(rate >= UNIT ==> self@ =~= Map::<Seq<char>, u64>::empty());
    }
}

/// What [`Substrate::decay`] does to the entries, told of the map: scaling
/// every entry and dropping the faint ones gives the decayed map.
proof fn lemma_decay_entries(
    before: Seq<Activation>,
    scaled: Seq<Activation>,
    kept: Seq<Activation>,
    rate: u64,
)
    requires
        distinct_patterns(before),
        scaled.len() == before.len(),
        forall|i: int| 0 <= i < before.len() ==> #[trigger] scaled[i] == before[i].decayed(rate),
        kept == scaled.filter(|e: Activation| above_prune_level(e)),
    ensures
        distinct_patterns(kept),
        activation_map(kept) == decayed_map(activation_map(before), rate),
{
    let keep = |e: Activation| above_prune_level(e);
    assert(distinct_patterns(scaled)) by {
        assert forall|a: int, b: int| 0 <= a < b < scaled.len() implies (#[trigger] scaled[a]).pattern@
            != (#[trigger] scaled[b]).pattern@ by {
            assert(before[a].pattern@ != before[b].pattern@);
        }
    }
    lemma_filter_keeps_distinct(scaled);
    broadcast use vstd::seq_lib::group_filter_ensures;
    let left = activation_map(kept);
    let right = decayed_map(activation_map(before), rate);
    assert forall|q: Seq<char>|
        #![trigger left.contains_key(q)]
        #![trigger right.contains_key(q)]
        left.contains_key(q) == right.contains_key(q) && (left.contains_key(q) ==> left[q]
            == right[q]) by {
        lemma_map_membership(kept, q);
        lemma_map_membership(before, q);
        if left.contains_key(q) {
            let k = choose|k: int| 0 <= k < kept.len() && (#[trigger] kept[k]).pattern@ == q;
            lemma_map_value(kept, k);
            assert(keep(kept[k]));
            assert(scaled.filter(keep).contains(kept[k]));
            scaled.lemma_filter_contains_rev(keep, kept[k]);
            let j = choose|j: int| 0 <= j < scaled.len() && scaled[j] == kept[k];
            assert(before[j].pattern@ == q);
            lemma_map_value(before, j);
        }
        if right.contains_key(q) {
            let j = choose|j: int| 0 <= j < before.len() && (#[trigger] before[j]).pattern@ == q;
            lemma_map_value(before, j);
            assert(keep(scaled[j]));
            assert(kept.contains(scaled[j]));
            let k = choose|k: int| 0 <= k < kept.len() && kept[k] == scaled[j];
            assert(kept[k].pattern@ == q);
            lemma_map_value(kept, k);
        }
    }
    assert(left =~= right);
}

/// Dropping entries from a sequence with distinct patterns leaves the
/// patterns distinct.
proof fn lemma_filter_keeps_distinct(entries: Seq<Activation>)
    requires
        distinct_patterns(entries),
    ensures
        distinct_patterns(entries.filter(|e: Activation| above_prune_level(e))),
    decreases entries.len(),
{
    let keep = |e: Activation| above_prune_level(e);
    reveal(Seq::filter);
    if entries.len() > 0 {
        let front = entries.drop_last();
        assert(distinct_patterns(front)) by {
            assert forall|a: int, b: int| 0 <= a < b < front.len() implies (#[trigger] front[a]).pattern@
                != (#[trigger] front[b]).pattern@ by {
                assert(entries[a].pattern@ != entries[b].pattern@);
            }
        }
        lemma_filter_keeps_distinct(front);
        let kept = entries.filter(keep);
        if keep(entries.last()) {
            assert forall|a: int, b: int| 0 <= a < b < kept.len() implies (#[trigger] kept[a]).pattern@
                != (#[trigger] kept[b]).pattern@ by {
                if b == kept.len() - 1 {
                    assert(front.filter(keep).contains(kept[a]));
                    front.lemma_filter_contains_rev(keep, kept[a]);
                    let j = choose|j: int| 0 <= j < front.len() && front[j] == kept[a];
                    assert(entries[j].pattern@ != entries[entries.len() - 1].pattern@);
                } else {
                    assert(front.filter(keep)[a].pattern@ != front.filter(keep)[b].pattern@);
                }
            }
        }
    }
}

} // verus!
