//! Named macros: a parameter list and a body, kept by name.

use crate::interpretations::string_views;
use vstd::hash_map::StringHashMap;
use vstd::prelude::*;

verus! {

/// A macro: the names of its parameters and its body.
pub struct Macro {
    pub params: Vec<String>,
    pub body: String,
}

/// What a [`Macro`] is, as plain text.
pub struct MacroView {
    pub params: Seq<Seq<char>>,
    pub body: Seq<char>,
}

impl View for Macro {
    type V = MacroView;

    open spec fn view(&self) -> MacroView {
        MacroView { params: string_views(self.params@), body: self.body@ }
    }
}

/// The macros that have been defined, by name. Its view is the map from
/// each name to the macro last defined under it.
pub struct MacroTable {
    table: StringHashMap<Macro>,
}

impl View for MacroTable {
    type V = Map<Seq<char>, MacroView>;

    closed spec fn view(&self) -> Map<Seq<char>, MacroView> {
        self.table@.map_values(|m: Macro| m@)
    }
}

impl Default for MacroTable {
    fn default() -> (r: MacroTable)
        ensures
            r@ == Map::<Seq<char>, MacroView>::empty(),
    {
        MacroTable::new()
    }
}

impl MacroTable {
    /// A table without macros.
    pub fn new() -> (r: MacroTable)
        ensures
            r@ == Map::<Seq<char>, MacroView>::empty(),
    {
        let r = MacroTable { table: StringHashMap::new() };
        assert(r@ =~= Map::<Seq<char>, MacroView>::empty());
        r
    }

    /// Defines a macro under `name`, in place of any macro that had the name.
    pub fn define(&mut self, name: &str, params: Vec<String>, body: String)
        ensures
            final(self)@ == old(self)@.insert(
                name@,
                MacroView { params: string_views(params@), body: body@ },
            ),
    {
        self.table.insert(name.to_owned(), Macro { params, body });
        assert(self@ =~= old(self)@.insert(
            name@,
            MacroView { params: string_views(params@), body: body@ },
        ));
    }

    /// The macro defined under `name`, if there is one.
    pub fn get(&self, name: &str) -> (r: Option<&Macro>)
        ensures
            r is Some <==> self@.contains_key(name@),
            r matches Some(found) ==> found@ == self@[name@],
    {
        self.table.get(name)
    }
}

} // verus!
