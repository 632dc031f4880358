//! Named variables that hold symbolic values.

use vstd::hash_map::StringHashMap;
use vstd::prelude::*;

verus! {

/// A value that a variable can hold.
pub enum SymbolicValue {
    /// A token bound to a pattern.
    Symbol { token: String, pattern: String },
    /// A pattern alone.
    Pattern(String),
    /// A token alone.
    Token(String),
}

/// What a [`SymbolicValue`] is, as plain text.
pub enum SymbolicValueView {
    Symbol { token: Seq<char>, pattern: Seq<char> },
    Pattern(Seq<char>),
    Token(Seq<char>),
}

impl View for SymbolicValue {
    type V = SymbolicValueView;

    open spec fn view(&self) -> SymbolicValueView {
        match self {
            SymbolicValue::Symbol { token, pattern } => SymbolicValueView::Symbol {
                token: token@,
                pattern: pattern@,
            },
            SymbolicValue::Pattern(pattern) => SymbolicValueView::Pattern(pattern@),
            SymbolicValue::Token(token) => SymbolicValueView::Token(token@),
        }
    }
}

impl Clone for SymbolicValue {
    fn clone(&self) -> (r: SymbolicValue)
        ensures
            r@ == self@,
    {
        match self {
            SymbolicValue::Symbol { token, pattern } => SymbolicValue::Symbol {
                token: token.clone(),
                pattern: pattern.clone(),
            },
            SymbolicValue::Pattern(pattern) => SymbolicValue::Pattern(pattern.clone()),
            SymbolicValue::Token(token) => SymbolicValue::Token(token.clone()),
        }
    }
}

/// The variables that have been set, by name. Its view is the map from each
/// name to the value last set under it.
pub struct VariableTable {
    table: StringHashMap<SymbolicValue>,
}

impl View for VariableTable {
    type V = Map<Seq<char>, SymbolicValueView>;

    closed spec fn view(&self) -> Map<Seq<char>, SymbolicValueView> {
        self.table@.map_values(|v: SymbolicValue| v@)
    }
}

impl Default for VariableTable {
    fn default() -> (r: VariableTable)
        ensures
            r@ == Map::<Seq<char>, SymbolicValueView>::empty(),
    {
        VariableTable::new()
    }
}

impl VariableTable {
    /// A table without variables.
    pub fn new() -> (r: VariableTable)
        ensures
            r@ == Map::<Seq<char>, SymbolicValueView>::empty(),
    {
        let r = VariableTable { table: StringHashMap::new() };
        assert(r@ =~= Map::<Seq<char>, SymbolicValueView>::empty());
        r
    }

    /// Sets the variable `name` to `value`, in place of any value it had.
    pub fn set(&mut self, name: &str, value: SymbolicValue)
        ensures
            final(self)@ == old(self)@.insert(name@, value@),
    {
        self.table.insert(name.to_owned(), value);
        assert(self@ =~= old(self)@.insert(name@, value@));
    }

    /// The value of the variable `name`, if it has been set.
    pub fn get(&self, name: &str) -> (r: Option<&SymbolicValue>)
        ensures
            r is Some <==> self@.contains_key(name@),
            r matches Some(found) ==> found@ == self@[name@],
    {
        self.table.get(name)
    }
}

} // verus!
