//! Named patterns, and the expansion of references to them in a text.

use crate::text::{chars_of, push_char};
use vstd::hash_map::StringHashMap;
use vstd::prelude::*;
use vstd::string::StringExecFns;

verus! {

/// The number of characters at the start of `rest` that come before the
/// first `]`; all of them if there is none.
pub open spec fn name_length(rest: Seq<char>) -> nat
    decreases rest.len(),
{
    if rest.len() == 0 || rest[0] == ']' {
        0
    } else {
        1 + name_length(rest.skip(1))
    }
}

/// A text with every reference `[name]` replaced by the definition of
/// `name`. A reference to a name without a definition is kept as it is.
/// A `[` that is never closed takes the rest of the text as its name, and
/// is written back with a closing `]`.
pub open spec fn expanded(table: Map<Seq<char>, Seq<char>>, text: Seq<char>) -> Seq<char>
    decreases text.len(),
{
    if text.len() == 0 {
        Seq::empty()
    } else if text[0] != '[' {
        seq![text[0]] + expanded(table, text.skip(1))
    } else {
        let rest = text.skip(1);
        let n = name_length(rest) as int;
        let name = rest.take(n);
        let after = if n < rest.len() {
            rest.skip(n + 1)
        } else {
            rest.skip(rest.len() as int)
        };
        let value = if table.contains_key(name) {
            table[name]
        } else {
            seq!['['] + name + seq![']']
        };
        value + expanded(table, after)
    }
}

/// A name ends where the first `]` stands, or where the text ends.
pub proof fn lemma_name_length(rest: Seq<char>, k: int)
    requires
        0 <= k <= rest.len(),
        forall|m: int| 0 <= m < k ==> rest[m] != ']',
        k == rest.len() || rest[k] == ']',
    ensures
        name_length(rest) == k,
    decreases k,
{
    if k > 0 {
        lemma_name_length(rest.skip(1), k - 1);
    }
}

/// The patterns that have been defined, by name. Its view is the map from
/// each name to the definition last given to it.
pub struct PatternTable {
    table: StringHashMap<String>,
}

impl View for PatternTable {
    type V = Map<Seq<char>, Seq<char>>;

    closed spec fn view(&self) -> Map<Seq<char>, Seq<char>> {
        self.table@.map_values(|s: String| s@)
    }
}

impl Default for PatternTable {
    fn default() -> (r: PatternTable)
        ensures
            r@ == Map::<Seq<char>, Seq<char>>::empty(),
    {
        PatternTable::new()
    }
}

impl PatternTable {
    /// A table without patterns.
    pub fn new() -> (r: PatternTable)
        ensures
            r@ == Map::<Seq<char>, Seq<char>>::empty(),
    {
        let r = PatternTable { table: StringHashMap::new() };
        assert(r@ =~= Map::<Seq<char>, Seq<char>>::empty());
        r
    }

    /// Defines the pattern `name` as `value`, in place of any definition it
    /// had.
    pub fn define(&mut self, name: &str, value: &str)
        ensures
            final(self)@ == old(self)@.insert(name@, value@),
    {
        self.table.insert(name.to_owned(), value.to_owned());
        assert(self@ =~= old(self)@.insert(name@, value@));
    }

    /// Replaces every reference `[name]` in `text` by the definition of
    /// `name`; see [`expanded`].
    pub fn expand_patterns(&self, text: &str) -> (r: String)
        ensures
            r@ == expanded(self@, text@),
    {
        let chars = chars_of(text);
        let n = chars.len();
        let mut out = String::new();
        let mut i: usize = 0;
        assert(chars@.skip(0) =~= chars@);
        assert(out@ + expanded(self@, chars@) =~= expanded(self@, chars@));
        while i < n
            invariant
                n == chars@.len(),
                i <= n,
                out@ + expanded(self@, chars@.skip(i as int)) == expanded(self@, chars@),
            decreases n - i,
        {
            let ghost text_here = chars@.skip(i as int);
            let ghost out_here = out@;
            let c = chars[i];
            i += 1;
            if c == '[' {
                let ghost rest = text_here.skip(1);
                let start = i;
                let mut name = String::new();
                while i < n && chars[i] != ']'
                    invariant
                        n == chars@.len(),
                        start <= i <= n,
                        rest == chars@.skip(start as int),
                        name@ == rest.take(i - start),
                        forall|m: int| 0 <= m < i - start ==> rest[m] != ']',
                    decreases n - i,
                {
                    push_char(&mut name, chars[i]);
                    i += 1;
                    assert(name@ =~= rest.take(i - start));
                }
                proof {
                    assert(rest =~= chars@.skip(start as int));
                    lemma_name_length(rest, i - start);
                }
                let ghost length = (i - start) as int;
                if i < n {
                    i += 1;
                }
                assert(chars@.skip(i as int) =~= if length < rest.len() {
                    rest.skip(length + 1)
                } else {
                    rest.skip(rest.len() as int)
                });
                match self.table.get(name.as_str()) {
                    Some(value) => {
                        out.append(value.as_str());
                    },
                    None => {
                        push_char(&mut out, '[');
                        out.append(name.as_str());
                        push_char(&mut out, ']');
                    },
                }
                assert(out@ + expanded(self@, chars@.skip(i as int)) =~= out_here + expanded(
                    self@,
                    text_here,
                ));
            } else {
                push_char(&mut out, c);
                assert(chars@.skip(i as int) =~= text_here.skip(1));
                assert(out@ + expanded(self@, chars@.skip(i as int)) =~= out_here + expanded(
                    self@,
                    text_here,
                ));
            }
        }
        assert(out@ =~= out@ + expanded(self@, chars@.skip(i as int)));
        out
    }
}

} // verus!
