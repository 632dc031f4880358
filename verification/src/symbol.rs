//! Symbols and the meanings that interpretation gives them.

use crate::substrate::Pattern;
use crate::text::{decimal, push_decimal};
use vstd::prelude::*;
use vstd::std_specs::cmp::PartialEqSpecImpl;
use vstd::string::StringExecFns;

verus! {

/// A sign: a token together with the pattern it is bound to.
#[derive(Debug, Hash)]
pub struct Symbol {
    /// The sign's name.
    pub token: String,
    /// The pattern the token stands for.
    pub pattern: Pattern,
}

/// What a [`Symbol`] is, as plain text.
pub struct SymbolView {
    pub token: Seq<char>,
    pub pattern: Seq<char>,
}

impl View for Symbol {
    type V = SymbolView;

    open spec fn view(&self) -> SymbolView {
        SymbolView { token: self.token@, pattern: self.pattern@ }
    }
}

impl PartialEq for Symbol {
    fn eq(&self, other: &Symbol) -> (r: bool) {
        self.token == other.token && self.pattern == other.pattern
    }
}

impl PartialEqSpecImpl for Symbol {
    open spec fn obeys_eq_spec() -> bool {
        true
    }

    open spec fn eq_spec(&self, other: &Symbol) -> bool {
        self@ == other@
    }
}

impl Eq for Symbol {

}

impl Clone for Symbol {
    fn clone(&self) -> (r: Symbol)
        ensures
            r@ == self@,
    {
        Symbol { token: self.token.clone(), pattern: self.pattern.clone() }
    }
}

/// The token of a mutated symbol: the token it came from, with an asterisk
/// appended.
pub open spec fn mutated_token(token: Seq<char>) -> Seq<char> {
    token.push('*')
}

impl Symbol {
    /// Binds a token to a pattern.
    pub fn new(token: &str, pattern: Pattern) -> (r: Symbol)
        ensures
            r@ == (SymbolView { token: token@, pattern: pattern@ }),
    {
        Symbol { token: token.to_owned(), pattern }
    }

    /// A drifted copy of the symbol: the token gains a trailing asterisk, the
    /// pattern stays. The symbol itself is left as it is.
    pub fn mutate(&self) -> (r: Symbol)
        ensures
            r@ == (SymbolView { token: mutated_token(self@.token), pattern: self@.pattern }),
    {
        let mut token = self.token.clone();
        proof {
            reveal_strlit("*");
        }
        token.append("*");
        assert(token@ =~= mutated_token(self@.token));
        Symbol { token, pattern: self.pattern.clone() }
    }
}

/// One act of interpretation: a symbol, read at a recursion index.
#[derive(Debug)]
pub struct Meaning {
    /// The symbol that was interpreted.
    pub sign: Symbol,
    /// The recursion index of the interpretation.
    pub tau: usize,
    /// What the interpretation says, in words.
    pub description: String,
}

/// What a [`Meaning`] is, as plain values.
pub struct MeaningView {
    pub sign: SymbolView,
    pub tau: usize,
    pub description: Seq<char>,
}

impl View for Meaning {
    type V = MeaningView;

    open spec fn view(&self) -> MeaningView {
        MeaningView { sign: self.sign@, tau: self.tau, description: self.description@ }
    }
}

impl Clone for Meaning {
    fn clone(&self) -> (r: Meaning)
        ensures
            r@ == self@,
    {
        Meaning {
            sign: self.sign.clone(),
            tau: self.tau,
            description: self.description.clone(),
        }
    }
}

/// The words of a meaning: `Interpretation of '<token>' at τ=<tau>`, with
/// `tau` in decimal.
pub open spec fn description_of(token: Seq<char>, tau: usize) -> Seq<char> {
    "Interpretation of '"@ + token + "' at τ="@ + decimal(tau as nat)
}

/// The meaning that interpreting `sign` at `tau` creates.
pub open spec fn meaning_of(sign: SymbolView, tau: usize) -> MeaningView {
    MeaningView { sign, tau, description: description_of(sign.token, tau) }
}

impl Meaning {
    /// The meaning of a symbol read at recursion index `tau`.
    pub fn from_symbol(symbol: &Symbol, tau: usize) -> (r: Meaning)
        ensures
            r@ == meaning_of(symbol@, tau),
    {
        let mut description = "Interpretation of '".to_owned();
        description.append(symbol.token.as_str());
        description.append("' at τ=");
        push_decimal(&mut description, tau as u128);
        Meaning { sign: symbol.clone(), tau, description }
    }
}

} // verus!
