//! Scanning text: trimming, searching, splitting and reading numbers, on
//! sequences of characters.

use crate::text::push_char;
use vstd::prelude::*;

verus! {

/// Whether a character is white space: one of the characters that carry
/// the Unicode property `White_Space`.
pub open spec fn is_space(c: char) -> bool {
    let v = c as u32;
    ||| 0x09 <= v <= 0x0d
    ||| v == 0x20
    ||| v == 0x85
    ||| v == 0xa0
    ||| v == 0x1680
    ||| 0x2000 <= v <= 0x200a
    ||| v == 0x2028
    ||| v == 0x2029
    ||| v == 0x202f
    ||| v == 0x205f
    ||| v == 0x3000
}

/// Whether a character is white space.
pub fn is_whitespace(c: char) -> (r: bool)
    ensures
        r == is_space(c),
{
    let v = c as u32;
    (0x09 <= v && v <= 0x0d) || v == 0x20 || v == 0x85 || v == 0xa0 || v == 0x1680 || (0x2000 <= v
        && v <= 0x200a) || v == 0x2028 || v == 0x2029 || v == 0x202f || v == 0x205f || v == 0x3000
}

/// The characters of a vector as a string.
pub fn string_of(chars: &Vec<char>) -> (r: String)
    ensures
        r@ == chars@,
{
    let mut out = String::new();
    let mut i: usize = 0;
    while i < chars.len()
        invariant
            i <= chars@.len(),
            out@ == chars@.take(i as int),
        decreases chars@.len() - i,
    {
        push_char(&mut out, chars[i]);
        i += 1;
        assert(out@ =~= chars@.take(i as int));
    }
    assert(chars@.take(i as int) =~= chars@);
    out
}

/// The part of a vector from `from` up to, not including, `to`.
pub fn slice_of(chars: &Vec<char>, from: usize, to: usize) -> (r: Vec<char>)
    requires
        from <= to <= chars@.len(),
    ensures
        r@ == chars@.subrange(from as int, to as int),
{
    let mut out: Vec<char> = Vec::new();
    let mut i: usize = from;
    while i < to
        invariant
            from <= i <= to <= chars@.len(),
            out@ == chars@.subrange(from as int, i as int),
        decreases to - i,
    {
        out.push(chars[i]);
        i += 1;
        assert(out@ =~= chars@.subrange(from as int, i as int));
    }
    out
}

/// A text without the white space at its start.
pub open spec fn trim_start(s: Seq<char>) -> Seq<char>
    decreases s.len(),
{
    if s.len() > 0 && is_space(s[0]) {
        trim_start(s.skip(1))
    } else {
        s
    }
}

/// A text without the white space at its end.
pub open spec fn trim_end(s: Seq<char>) -> Seq<char>
    decreases s.len(),
{
    if s.len() > 0 && is_space(s.last()) {
        trim_end(s.drop_last())
    } else {
        s
    }
}

/// A text without the white space at either end.
pub open spec fn trim(s: Seq<char>) -> Seq<char> {
    trim_end(trim_start(s))
}

/// The number of white-space characters at the start of a text.
pub open spec fn leading_spaces(s: Seq<char>) -> nat
    decreases s.len(),
{
    if s.len() > 0 && is_space(s[0]) {
        1 + leading_spaces(s.skip(1))
    } else {
        0
    }
}

/// Trimming the start drops exactly the leading white space.
pub proof fn lemma_trim_start(s: Seq<char>)
    ensures
        leading_spaces(s) <= s.len(),
        trim_start(s) == s.skip(leading_spaces(s) as int),
    decreases s.len(),
{
    if s.len() > 0 && is_space(s[0]) {
        lemma_trim_start(s.skip(1));
        assert(s.skip(1).skip(leading_spaces(s.skip(1)) as int) =~= s.skip(
            leading_spaces(s) as int,
        ));
    } else {
        assert(s.skip(0) =~= s);
    }
}

/// How many white-space characters stand at the start of `chars`.
pub fn count_leading_spaces(chars: &Vec<char>) -> (r: usize)
    ensures
        r == leading_spaces(chars@),
        r <= chars@.len(),
{
    let n = chars.len();
    let mut i: usize = 0;
    assert(chars@.skip(0) =~= chars@);
    while i < n && is_whitespace(chars[i])
        invariant
            n == chars@.len(),
            i <= n,
            leading_spaces(chars@) == i + leading_spaces(chars@.skip(i as int)),
        decreases n - i,
    {
        assert(chars@.skip(i as int).skip(1) =~= chars@.skip(i + 1));
        i += 1;
    }
    i
}

/// How many characters of `chars` are left once the white space at its end
/// is dropped.
fn trimmed_end_length(chars: &Vec<char>) -> (r: usize)
    ensures
        r <= chars@.len(),
        trim_end(chars@) == chars@.take(r as int),
{
    let mut hi: usize = chars.len();
    assert(chars@.take(hi as int) =~= chars@);
    while hi > 0 && is_whitespace(chars[hi - 1])
        invariant
            hi <= chars@.len(),
            trim_end(chars@) == trim_end(chars@.take(hi as int)),
        decreases hi,
    {
        assert(chars@.take(hi as int).drop_last() =~= chars@.take(hi - 1));
        hi -= 1;
    }
    hi
}

/// The text without the white space at its start.
pub fn trimmed_start(chars: &Vec<char>) -> (r: Vec<char>)
    ensures
        r@ == trim_start(chars@),
{
    proof {
        lemma_trim_start(chars@);
    }
    let lo = count_leading_spaces(chars);
    slice_of(chars, lo, chars.len())
}

/// The text without the white space at its end.
pub fn trimmed_end(chars: &Vec<char>) -> (r: Vec<char>)
    ensures
        r@ == trim_end(chars@),
{
    let hi = trimmed_end_length(chars);
    slice_of(chars, 0, hi)
}

/// The text without the white space at either end.
pub fn trimmed(chars: &Vec<char>) -> (r: Vec<char>)
    ensures
        r@ == trim(chars@),
{
    let front = trimmed_start(chars);
    trimmed_end(&front)
}

/// Whether `s` starts with `prefix`.
pub open spec fn has_prefix(s: Seq<char>, prefix: Seq<char>) -> bool {
    prefix.len() <= s.len() && s.take(prefix.len() as int) == prefix
}

/// Whether `s` holds `needle` at position `at`.
pub open spec fn occurs_at(s: Seq<char>, needle: Seq<char>, at: int) -> bool {
    0 <= at && at + needle.len() <= s.len() && s.subrange(at, at + needle.len()) == needle
}

/// Whether `at` is the first position at which `s` holds `needle`.
pub open spec fn is_first_occurrence(s: Seq<char>, needle: Seq<char>, at: int) -> bool {
    occurs_at(s, needle, at) && forall|j: int| 0 <= j < at ==> !occurs_at(s, needle, j)
}

/// Whether `s` holds `needle` anywhere.
pub open spec fn occurs(s: Seq<char>, needle: Seq<char>) -> bool {
    exists|at: int| occurs_at(s, needle, at)
}

/// The first position at which `s` holds `needle`, where it holds it at all.
pub open spec fn first_occurrence(s: Seq<char>, needle: Seq<char>) -> int {
    choose|at: int| is_first_occurrence(s, needle, at)
}

/// A first occurrence is the only first occurrence.
pub proof fn lemma_first_occurrence(s: Seq<char>, needle: Seq<char>, at: int)
    requires
        is_first_occurrence(s, needle, at),
    ensures
        occurs(s, needle),
        first_occurrence(s, needle) == at,
{
    let other = first_occurrence(s, needle);
    assert(is_first_occurrence(s, needle, other));
}

/// Whether `chars` holds `needle` at position `at`.
pub fn matches_at(chars: &Vec<char>, needle: &Vec<char>, at: usize) -> (r: bool)
    ensures
        r == occurs_at(chars@, needle@, at as int),
{
    let m = needle.len();
    if at > chars.len() || m > chars.len() - at {
        return false;
    }
    let mut k: usize = 0;
    while k < m
        invariant
            m == needle@.len(),
            at + m <= chars@.len(),
            chars@.len() <= usize::MAX,
            k <= m,
            forall|j: int| 0 <= j < k ==> chars@[at + j] == needle@[j],
        decreases m - k,
    {
        if chars[at + k] != needle[k] {
            assert(chars@.subrange(at as int, at + m)[k as int] != needle@[k as int]);
            return false;
        }
        k += 1;
    }
    assert(chars@.subrange(at as int, at + m) =~= needle@);
    true
}

/// The first position at which `chars` holds `needle`, if it holds it.
pub fn find(chars: &Vec<char>, needle: &Vec<char>) -> (r: Option<usize>)
    ensures
        r is Some <==> occurs(chars@, needle@),
        r matches Some(at) ==> at as int == first_occurrence(chars@, needle@)
            && is_first_occurrence(chars@, needle@, at as int),
{
    let n = chars.len();
    let mut i: usize = 0;
    while i < n
        invariant
            n == chars@.len(),
            i <= n,
            forall|j: int| 0 <= j < i ==> !occurs_at(chars@, needle@, j),
        decreases n - i,
    {
        if matches_at(chars, needle, i) {
            proof {
                lemma_first_occurrence(chars@, needle@, i as int);
            }
            return Some(i);
        }
        i += 1;
    }
    if matches_at(chars, needle, n) {
        proof {
            lemma_first_occurrence(chars@, needle@, n as int);
        }
        return Some(n);
    }
    assert forall|at: int| !occurs_at(chars@, needle@, at) by {
        if 0 <= at <= n {
            assert(!occurs_at(chars@, needle@, at));
        }
    }
    None
}

/// Whether `chars` starts with `prefix`.
pub fn starts_with(chars: &Vec<char>, prefix: &Vec<char>) -> (r: bool)
    ensures
        r == has_prefix(chars@, prefix@),
{
    let r = matches_at(chars, prefix, 0);
    proof {
        if prefix@.len() <= chars@.len() {
            assert(chars@.subrange(0, prefix@.len() as int) =~= chars@.take(prefix@.len() as int));
        }
    }
    r
}

/// The two parts of `s` around the first occurrence of `needle`, if there
/// is one.
pub open spec fn split_once(s: Seq<char>, needle: Seq<char>) -> Option<(Seq<char>, Seq<char>)> {
    if occurs(s, needle) {
        let at = first_occurrence(s, needle);
        Some((s.take(at), s.skip(at + needle.len())))
    } else {
        None
    }
}

/// The part of `s` before the first occurrence of `needle`; all of `s` if
/// there is none.
pub open spec fn before_first(s: Seq<char>, needle: Seq<char>) -> Seq<char> {
    match split_once(s, needle) {
        Some((before, after)) => before,
        None => s,
    }
}

/// The two parts of `chars` around the first occurrence of `needle`.
pub fn split_at_first(chars: &Vec<char>, needle: &Vec<char>) -> (r: Option<
    (Vec<char>, Vec<char>),
>)
    ensures
        r is Some <==> split_once(chars@, needle@) is Some,
        r matches Some(parts) ==> split_once(chars@, needle@) == Some((parts.0@, parts.1@)),
{
    match find(chars, needle) {
        Some(at) => {
            assert(occurs_at(chars@, needle@, at as int));
            let m = needle.len();
            let n = chars.len();
            assert(at + m <= n);
            let before = slice_of(chars, 0, at);
            let after = slice_of(chars, at + m, n);
            assert(chars@.subrange(0, at as int) =~= chars@.take(at as int));
            assert(chars@.subrange(at + needle@.len(), chars@.len() as int) =~= chars@.skip(
                at + needle@.len(),
            ));
            Some((before, after))
        },
        None => None,
    }
}

/// The rest of `s` after `prefix`, if `s` starts with it.
pub open spec fn strip_prefix(s: Seq<char>, prefix: Seq<char>) -> Option<Seq<char>> {
    if has_prefix(s, prefix) {
        Some(s.skip(prefix.len() as int))
    } else {
        None
    }
}

/// The rest of `chars` after `prefix`, if `chars` starts with it.
pub fn stripped_prefix(chars: &Vec<char>, prefix: &Vec<char>) -> (r: Option<Vec<char>>)
    ensures
        r is Some <==> strip_prefix(chars@, prefix@) is Some,
        r matches Some(rest) ==> strip_prefix(chars@, prefix@) == Some(rest@),
{
    if starts_with(chars, prefix) {
        Some(slice_of(chars, prefix.len(), chars.len()))
    } else {
        None
    }
}

/// A text with `prefix` taken from its start as often as it stands there.
/// An empty prefix takes nothing.
pub open spec fn strip_prefixes(s: Seq<char>, prefix: Seq<char>) -> Seq<char>
    decreases s.len(),
{
    if prefix.len() > 0 && has_prefix(s, prefix) {
        strip_prefixes(s.skip(prefix.len() as int), prefix)
    } else {
        s
    }
}

/// The text with `prefix` taken from its start as often as it stands there.
pub fn stripped_prefixes(chars: &Vec<char>, prefix: &Vec<char>) -> (r: Vec<char>)
    ensures
        r@ == strip_prefixes(chars@, prefix@),
{
    let m = prefix.len();
    let n = chars.len();
    let mut at: usize = 0;
    assert(chars@.skip(0) =~= chars@);
    if m > 0 {
        while matches_at(chars, prefix, at)
            invariant
                m == prefix@.len(),
                m > 0,
                n == chars@.len(),
                at <= n,
                strip_prefixes(chars@, prefix@) == strip_prefixes(chars@.skip(at as int), prefix@),
            decreases n - at,
        {
            proof {
                let here = chars@.skip(at as int);
                assert(here.take(m as int) =~= chars@.subrange(at as int, at + m));
                assert(here.skip(m as int) =~= chars@.skip(at + m));
            }
            at += m;
        }
        proof {
            let here = chars@.skip(at as int);
            if m <= here.len() {
                assert(here.take(m as int) =~= chars@.subrange(at as int, at + m));
            }
        }
    }
    slice_of(chars, at, n)
}

/// A text with the character `c` taken from its end as often as it stands
/// there.
pub open spec fn strip_trailing(s: Seq<char>, c: char) -> Seq<char>
    decreases s.len(),
{
    if s.len() > 0 && s.last() == c {
        strip_trailing(s.drop_last(), c)
    } else {
        s
    }
}

/// The text with the character `c` taken from its end as often as it stands
/// there.
pub fn stripped_trailing(chars: &Vec<char>, c: char) -> (r: Vec<char>)
    ensures
        r@ == strip_trailing(chars@, c),
{
    let mut hi: usize = chars.len();
    assert(chars@.take(hi as int) =~= chars@);
    while hi > 0 && chars[hi - 1] == c
        invariant
            hi <= chars@.len(),
            strip_trailing(chars@, c) == strip_trailing(chars@.take(hi as int), c),
        decreases hi,
    {
        assert(chars@.take(hi as int).drop_last() =~= chars@.take(hi - 1));
        hi -= 1;
    }
    let r = slice_of(chars, 0, hi);
    assert(chars@.subrange(0, hi as int) =~= chars@.take(hi as int));
    r
}

/// The pieces of a text between the occurrences of the character `c`: one
/// more piece than there are occurrences.
pub open spec fn pieces(s: Seq<char>, c: char) -> Seq<Seq<char>>
    decreases s.len(),
{
    if s.len() == 0 {
        seq![Seq::empty()]
    } else if s.last() == c {
        pieces(s.drop_last(), c).push(Seq::empty())
    } else {
        let front = pieces(s.drop_last(), c);
        front.drop_last().push(front.last().push(s.last()))
    }
}

/// The texts of a sequence of character vectors.
pub open spec fn char_views(items: Seq<Vec<char>>) -> Seq<Seq<char>> {
    items.map_values(|v: Vec<char>| v@)
}

/// The pieces of `chars` between the occurrences of `c`.
pub fn split(chars: &Vec<char>, c: char) -> (r: Vec<Vec<char>>)
    ensures
        char_views(r@) == pieces(chars@, c),
        r@.len() >= 1,
{
    let mut done: Vec<Vec<char>> = Vec::new();
    let mut current: Vec<char> = Vec::new();
    let mut i: usize = 0;
    assert(chars@.take(0) =~= Seq::<char>::empty());
    assert(char_views(done@).push(current@) =~= pieces(chars@.take(0), c));
    while i < chars.len()
        invariant
            i <= chars@.len(),
            char_views(done@).push(current@) == pieces(chars@.take(i as int), c),
        decreases chars@.len() - i,
    {
        let ghost before = char_views(done@);
        let ghost word = current@;
        proof {
            assert(chars@.take(i + 1).drop_last() =~= chars@.take(i as int));
            assert(before.push(word).drop_last() =~= before);
        }
        if chars[i] == c {
            done.push(current);
            current = Vec::new();
            assert(char_views(done@) =~= before.push(word));
            assert(current@ =~= Seq::<char>::empty());
        } else {
            current.push(chars[i]);
        }
        i += 1;
    }
    assert(chars@.take(i as int) =~= chars@);
    let ghost before = char_views(done@);
    done.push(current);
    assert(char_views(done@) =~= before.push(current@));
    done
}

/// The line that a piece between line feeds makes: a piece that a line feed
/// ends loses one carriage return from its end, if it has one there.
pub open spec fn line_from(piece: Seq<char>, ended: bool) -> Seq<char> {
    if ended && piece.len() > 0 && piece.last() == '\r' {
        piece.drop_last()
    } else {
        piece
    }
}

/// The lines of a text. Lines end at a line feed, or at a carriage return
/// followed by a line feed; the line endings are no part of the lines. What
/// stands after the last line feed is a line too, unless it is empty.
pub open spec fn lines(s: Seq<char>) -> Seq<Seq<char>> {
    let parts = pieces(s, '\n');
    let count = if parts.len() > 0 && parts.last().len() == 0 {
        parts.len() - 1
    } else {
        parts.len() as int
    };
    Seq::new(count as nat, |i: int| line_from(parts[i], i < parts.len() - 1))
}

/// The lines of `chars`; see [`lines`].
pub fn split_lines(chars: &Vec<char>) -> (r: Vec<Vec<char>>)
    ensures
        char_views(r@) == lines(chars@),
{
    let parts = split(chars, '\n');
    let n = parts.len();
    let ghost views = char_views(parts@);
    assert(views[n - 1] == parts@[n - 1]@);
    let count = if parts[n - 1].len() == 0 {
        n - 1
    } else {
        n
    };
    let mut found: Vec<Vec<char>> = Vec::new();
    let mut i: usize = 0;
    while i < count
        invariant
            i <= count <= n,
            n == parts@.len(),
            views == char_views(parts@),
            found@.len() == i,
            forall|j: int| 0 <= j < i ==> (#[trigger] found@[j])@ == line_from(views[j], j < n - 1),
        decreases count - i,
    {
        let piece = &parts[i];
        assert(views[i as int] == piece@);
        let m = piece.len();
        let line = if i < n - 1 && m > 0 && piece[m - 1] == '\r' {
            let cut = slice_of(piece, 0, m - 1);
            assert(cut@ =~= piece@.drop_last());
            cut
        } else {
            let whole = slice_of(piece, 0, m);
            assert(whole@ =~= piece@);
            whole
        };
        found.push(line);
        i += 1;
    }
    assert(char_views(found@) =~= lines(chars@));
    found
}

/// `current`, if it is a word at all.
pub open spec fn finished(current: Seq<char>) -> Seq<Seq<char>> {
    if current.len() > 0 {
        seq![current]
    } else {
        Seq::empty()
    }
}

/// The words of a text, that is its maximal runs of characters that are not
/// white space, in order; `current` is the word that the text continues.
pub open spec fn words(text: Seq<char>, current: Seq<char>) -> Seq<Seq<char>>
    decreases text.len(),
{
    if text.len() == 0 {
        finished(current)
    } else if is_space(text[0]) {
        finished(current) + words(text.skip(1), Seq::empty())
    } else {
        words(text.skip(1), current.push(text[0]))
    }
}

/// The words of `chars`: its maximal runs of characters that are not white
/// space, in order.
pub fn split_whitespace(chars: &Vec<char>) -> (r: Vec<Vec<char>>)
    ensures
        char_views(r@) == words(chars@, Seq::empty()),
{
    let n = chars.len();
    let mut found: Vec<Vec<char>> = Vec::new();
    let mut current: Vec<char> = Vec::new();
    let mut i: usize = 0;
    assert(chars@.skip(0) =~= chars@);
    assert(char_views(found@) =~= Seq::<Seq<char>>::empty());
    assert(char_views(found@) + words(chars@, current@) =~= words(chars@, Seq::empty()));
    while i < n
        invariant
            n == chars@.len(),
            i <= n,
            char_views(found@) + words(chars@.skip(i as int), current@) == words(
                chars@,
                Seq::empty(),
            ),
        decreases n - i,
    {
        let ghost here = chars@.skip(i as int);
        let ghost done = char_views(found@);
        let ghost word = current@;
        let c = chars[i];
        assert(here.skip(1) =~= chars@.skip(i + 1));
        assert(here[0] == c);
        if is_whitespace(c) {
            if current.len() > 0 {
                found.push(current);
                current = Vec::new();
                assert(char_views(found@) =~= done.push(word));
            }
            assert(current@ =~= Seq::<char>::empty());
            assert(char_views(found@) =~= done + finished(word));
            assert(char_views(found@) + words(here.skip(1), current@) =~= done + words(
                here,
                word,
            ));
        } else {
            current.push(c);
            assert(char_views(found@) + words(here.skip(1), current@) =~= done + words(
                here,
                word,
            ));
        }
        i += 1;
    }
    if current.len() > 0 {
        let ghost done = char_views(found@);
        let ghost word = current@;
        found.push(current);
        assert(char_views(found@) =~= done.push(word));
    }
    assert(char_views(found@) =~= words(chars@, Seq::empty()));
    found
}

/// The value of a decimal digit, where the character is one.
pub open spec fn digit_value(c: char) -> Option<nat> {
    if c == '0' {
        Some(0)
    } else if c == '1' {
        Some(1)
    } else if c == '2' {
        Some(2)
    } else if c == '3' {
        Some(3)
    } else if c == '4' {
        Some(4)
    } else if c == '5' {
        Some(5)
    } else if c == '6' {
        Some(6)
    } else if c == '7' {
        Some(7)
    } else if c == '8' {
        Some(8)
    } else if c == '9' {
        Some(9)
    } else {
        None
    }
}

/// The number that a run of decimal digits writes; nothing if the run is
/// empty or holds anything but digits.
pub open spec fn digits_value(s: Seq<char>) -> Option<nat>
    decreases s.len(),
{
    if s.len() == 0 {
        None
    } else if s.len() == 1 {
        digit_value(s[0])
    } else {
        match (digits_value(s.drop_last()), digit_value(s.last())) {
            (Some(high), Some(low)) => Some(high * 10 + low),
            _ => None,
        }
    }
}

/// The unsigned number that a text writes: decimal digits, which a single
/// `+` may precede. Nothing else is a number: not the empty text, not a
/// sign alone, not a text with white space or a `-`.
pub open spec fn number_value(s: Seq<char>) -> Option<nat> {
    if s.len() > 0 && s[0] == '+' {
        digits_value(s.skip(1))
    } else {
        digits_value(s)
    }
}

/// The value of a decimal digit.
pub fn digit_of(c: char) -> (r: Option<u8>)
    ensures
        r is Some <==> digit_value(c) is Some,
        r matches Some(d) ==> digit_value(c) == Some(d as nat) && d <= 9,
{
    match c {
        '0' => Some(0),
        '1' => Some(1),
        '2' => Some(2),
        '3' => Some(3),
        '4' => Some(4),
        '5' => Some(5),
        '6' => Some(6),
        '7' => Some(7),
        '8' => Some(8),
        '9' => Some(9),
        _ => None,
    }
}

/// A run of digits with one more digit at its end.
proof fn lemma_digits_push(s: Seq<char>, c: char)
    ensures
        digits_value(s.push(c)) == if s.len() == 0 {
            digit_value(c)
        } else {
            match (digits_value(s), digit_value(c)) {
                (Some(high), Some(low)) => Some(high * 10 + low),
                _ => None,
            }
        },
{
    assert(s.push(c).drop_last() =~= s);
}

/// Once a run holds something that is no digit, no longer run is a number.
proof fn lemma_digits_none_extends(s: Seq<char>, k: int)
    requires
        0 < k <= s.len(),
        digits_value(s.take(k)) is None,
    ensures
        digits_value(s) is None,
    decreases s.len() - k,
{
    if k < s.len() {
        assert(s.take(k + 1).drop_last() =~= s.take(k));
        lemma_digits_none_extends(s, k + 1);
    } else {
        assert(s.take(k) =~= s);
    }
}

/// A number grows with every digit that is added to it.
proof fn lemma_digits_grow(s: Seq<char>, k: int)
    requires
        0 < k <= s.len(),
        digits_value(s) is Some,
    ensures
        digits_value(s.take(k)) is Some,
        digits_value(s.take(k))->Some_0 <= digits_value(s)->Some_0,
    decreases s.len() - k,
{
    if k < s.len() {
        lemma_digits_grow(s, k + 1);
        assert(s.take(k + 1).drop_last() =~= s.take(k));
    } else {
        assert(s.take(k) =~= s);
    }
}

/// The unsigned number that `chars` writes, if it writes one that fits in
/// 64 bits.
pub fn parse_u64(chars: &Vec<char>) -> (r: Option<u64>)
    ensures
        r is Some <==> number_value(chars@) is Some && number_value(chars@)->Some_0 <= u64::MAX,
        r matches Some(n) ==> number_value(chars@) == Some(n as nat),
{
    let n = chars.len();
    let start: usize = if n > 0 && chars[0] == '+' {
        1
    } else {
        0
    };
    let ghost digits = chars@.skip(start as int);
    proof {
        if start == 0 {
            assert(digits =~= chars@);
        }
    }
    assert(number_value(chars@) == digits_value(digits));
    if start == n {
        return None;
    }
    let mut value: u64 = 0;
    let mut i: usize = start;
    while i < n
        invariant
            n == chars@.len(),
            start <= i <= n,
            start < n,
            digits == chars@.skip(start as int),
            number_value(chars@) == digits_value(digits),
            i > start ==> digits_value(digits.take(i - start)) == Some(value as nat),
            i == start ==> value == 0,
        decreases n - i,
    {
        let ghost upto = digits.take(i - start);
        let ghost longer = digits.take(i + 1 - start);
        proof {
            lemma_digits_push(upto, chars@[i as int]);
            assert(digits[i - start] == chars@[i as int]);
            assert(upto.push(chars@[i as int]) =~= longer);
        }
        match digit_of(chars[i]) {
            Some(d) => {
                if value > (u64::MAX - d as u64) / 10 {
                    proof {
                        assert(i > start);
                        assert(digits_value(longer) == Some((value * 10 + d) as nat));
                        assert(value * 10 + d > u64::MAX);
                        if digits_value(digits) is Some {
                            lemma_digits_grow(digits, i + 1 - start);
                        }
                    }
                    return None;
                }
                value = value * 10 + d as u64;
                assert(digits_value(longer) == Some(value as nat));
            },
            None => {
                proof {
                    assert(digits_value(longer) is None);
                    lemma_digits_none_extends(digits, i + 1 - start);
                }
                return None;
            },
        }
        i += 1;
    }
    assert(digits.take(n - start) =~= digits);
    Some(value)
}

/// The unsigned number that `chars` writes, if it writes one that fits in
/// 32 bits.
pub fn parse_u32(chars: &Vec<char>) -> (r: Option<u32>)
    ensures
        r is Some <==> number_value(chars@) is Some && number_value(chars@)->Some_0 <= u32::MAX,
        r matches Some(n) ==> number_value(chars@) == Some(n as nat),
{
    match parse_u64(chars) {
        Some(n) => {
            if n <= 0xffff_ffff {
                Some(n as u32)
            } else {
                None
            }
        },
        None => None,
    }
}

/// The number of bytes that a character takes in UTF-8.
pub open spec fn utf8_width(c: char) -> nat {
    if (c as u32) < 0x80 {
        1
    } else if (c as u32) < 0x800 {
        2
    } else if (c as u32) < 0x1_0000 {
        3
    } else {
        4
    }
}

/// The number of bytes that a text takes in UTF-8.
pub open spec fn utf8_length(s: Seq<char>) -> nat
    decreases s.len(),
{
    if s.len() == 0 {
        0
    } else {
        utf8_length(s.drop_last()) + utf8_width(s.last())
    }
}

/// The number of bytes that the first `count` characters of `chars` take in
/// UTF-8, stopping at the largest number that can be held.
pub fn utf8_length_of(chars: &Vec<char>, count: usize) -> (r: usize)
    requires
        count <= chars@.len(),
    ensures
        r == if utf8_length(chars@.take(count as int)) > usize::MAX {
            usize::MAX as nat
        } else {
            utf8_length(chars@.take(count as int))
        },
{
    let mut total: usize = 0;
    let mut i: usize = 0;
    while i < count
        invariant
            i <= count <= chars@.len(),
            total == if utf8_length(chars@.take(i as int)) > usize::MAX {
                usize::MAX as nat
            } else {
                utf8_length(chars@.take(i as int))
            },
        decreases count - i,
    {
        proof {
            assert(chars@.take(i + 1).drop_last() =~= chars@.take(i as int));
        }
        let v = chars[i] as u32;
        let width: usize = if v < 0x80 {
            1
        } else if v < 0x800 {
            2
        } else if v < 0x1_0000 {
            3
        } else {
            4
        };
        total = total.saturating_add(width);
        i += 1;
    }
    total
}

} // verus!
