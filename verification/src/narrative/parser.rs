//! Reading a narrative script into blocks.
//!
//! A script is read line by line. Blank lines and lines that start with `#`
//! are passed over; of every other line the indentation and the text after
//! it count. A block is a header line and, under it, the actions on the
//! lines that are indented further than the header.

use crate::interpretations::string_views;
use crate::narrative::ast::{action_views, block_views, Action, ActionView, Block, BlockView};
use crate::scan::{
    before_first, char_views, count_leading_spaces, find, first_occurrence, has_prefix,
    leading_spaces, lemma_trim_start, lines, number_value, occurs, parse_u32, parse_u64, pieces, slice_of,
    split, split_at_first, split_lines, split_once, split_whitespace, starts_with, string_of, strip_prefix,
    strip_prefixes, strip_trailing, stripped_prefix, stripped_prefixes, stripped_trailing, trim,
    trim_start, trimmed, utf8_length, utf8_length_of, words,
};
use crate::text::chars_of;
use std::collections::VecDeque;
use vstd::prelude::*;

verus! {

/// A line of a script that counts: its indentation, in bytes, and its text
/// without that indentation.
#[derive(Debug)]
pub struct Line {
    pub indent: usize,
    pub text: Vec<char>,
}

/// What a [`Line`] is, as plain values.
pub struct LineView {
    pub indent: usize,
    pub text: Seq<char>,
}

impl View for Line {
    type V = LineView;

    open spec fn view(&self) -> LineView {
        LineView { indent: self.indent, text: self.text@ }
    }
}

impl Clone for Line {
    fn clone(&self) -> (r: Line)
        ensures
            r@ == self@,
    {
        let text = slice_of(&self.text, 0, self.text.len());
        assert(text@ =~= self.text@);
        Line { indent: self.indent, text }
    }
}

/// The views of a sequence of lines.
pub open spec fn line_views(lines: Seq<Line>) -> Seq<LineView> {
    lines.map_values(|l: Line| l@)
}

/// The indentation of a raw line: the number of bytes that the white space
/// at its start takes in UTF-8.
pub open spec fn indent_of(raw: Seq<char>) -> usize {
    let width = utf8_length(raw.take(leading_spaces(raw) as int));
    if width > usize::MAX {
        usize::MAX
    } else {
        width as usize
    }
}

/// Whether a raw line counts: it is not blank and is no comment.
pub open spec fn counts(raw: Seq<char>) -> bool {
    trim_start(raw).len() > 0 && trim_start(raw)[0] != '#'
}

/// A raw line as a line of the script.
pub open spec fn line_of(raw: Seq<char>) -> LineView {
    LineView { indent: indent_of(raw), text: trim_start(raw) }
}

/// The lines of a script that count, in order.
pub open spec fn counted_lines(raws: Seq<Seq<char>>) -> Seq<LineView> {
    raws.filter(|raw: Seq<char>| counts(raw)).map_values(|raw: Seq<char>| line_of(raw))
}

/// The text before and the text between the first `(` and the first `)`,
/// where both stand in the text and the `)` does not come first.
pub open spec fn call_parts(text: Seq<char>) -> Option<(Seq<char>, Seq<char>)> {
    if occurs(text, seq!['(']) && occurs(text, seq![')']) {
        let open = first_occurrence(text, seq!['(']);
        let close = first_occurrence(text, seq![')']);
        if open < close {
            Some((text.take(open), text.subrange(open + 1, close)))
        } else {
            None
        }
    } else {
        None
    }
}

/// The pieces of a text between commas, each without white space at its
/// ends.
pub open spec fn trimmed_pieces(s: Seq<char>) -> Seq<Seq<char>> {
    pieces(s, ',').map_values(|p: Seq<char>| trim(p))
}

/// Whether a text is not empty.
pub open spec fn is_filled(s: Seq<char>) -> bool {
    s.len() > 0
}

/// Whether a line opens a conditional: it starts with `if ` and ends with a
/// colon.
pub open spec fn opens_conditional(text: Seq<char>) -> bool {
    has_prefix(text, "if "@) && text.len() > 0 && text.last() == ':'
}

/// The condition that a header line states after `keyword`: what stands
/// between the keyword and the colons at the end, without white space at its
/// ends.
pub open spec fn condition_after(text: Seq<char>, keyword: Seq<char>) -> Seq<char> {
    trim(strip_trailing(strip_prefixes(text, keyword), ':'))
}

/// The number that a text writes, if it fits in 32 bits.
pub open spec fn number_u32(s: Seq<char>) -> Option<u32> {
    match number_value(s) {
        Some(n) => if n <= u32::MAX {
            Some(n as u32)
        } else {
            None
        },
        None => None,
    }
}

/// The number that a text writes, if it fits in 64 bits.
pub open spec fn number_u64(s: Seq<char>) -> Option<u64> {
    match number_value(s) {
        Some(n) => if n <= u64::MAX {
            Some(n as u64)
        } else {
            None
        },
        None => None,
    }
}

/// The action that a line writes, if it writes one. The forms are tried in
/// this order, and the first that fits decides:
///
/// - `create agent <name> <memory> <coherence>`
/// - `let <name> = <value>`
/// - `tick <number>`
/// - `assert <text>`
/// - `<agent> says: <token> → <pattern>`
/// - `<agent> hears: <token> → <pattern>`
/// - `<agent> interprets: <token>`
/// - `<name>(<argument>, ...)`
/// - `# <text>`
///
/// A line of a form whose parts are missing or are no numbers where numbers
/// are due writes no action, and neither does any other line.
pub open spec fn action_of(text: Seq<char>) -> Option<ActionView> {
    if strip_prefix(text, "create agent "@) is Some {
        let parts = words(strip_prefix(text, "create agent "@)->Some_0, Seq::empty());
        if parts.len() >= 3 {
            match number_u32(parts[1]) {
                Some(mem) => Some(ActionView::CreateAgent { name: parts[0], mem, coh: parts[2] }),
                None => None,
            }
        } else {
            None
        }
    } else if strip_prefix(text, "let "@) is Some {
        match split_once(strip_prefix(text, "let "@)->Some_0, "="@) {
            Some((name, value)) => Some(
                ActionView::VariableAssignment { name: trim(name), value: trim(value) },
            ),
            None => None,
        }
    } else if strip_prefix(text, "tick "@) is Some {
        match number_u32(trim(strip_prefix(text, "tick "@)->Some_0)) {
            Some(n) => Some(ActionView::Tick(n)),
            None => None,
        }
    } else if strip_prefix(text, "assert "@) is Some {
        Some(ActionView::Assert(trim(strip_prefix(text, "assert "@)->Some_0)))
    } else if split_once(text, " says: "@) is Some {
        let (agent, rest) = split_once(text, " says: "@)->Some_0;
        match split_once(rest, " → "@) {
            Some((token, pattern)) => Some(
                ActionView::Say { agent: trim(agent), token: trim(token), pattern: trim(pattern) },
            ),
            None => None,
        }
    } else if split_once(text, " hears: "@) is Some {
        let (agent, rest) = split_once(text, " hears: "@)->Some_0;
        match split_once(rest, " → "@) {
            Some((token, pattern)) => Some(
                ActionView::Interpret { agent: trim(agent), token: trim(token) },
            ),
            None => None,
        }
    } else if split_once(text, " interprets: "@) is Some {
        let (agent, rest) = split_once(text, " interprets: "@)->Some_0;
        Some(ActionView::Interpret { agent: trim(agent), token: trim(rest) })
    } else if occurs(text, seq!['(']) && text.len() > 0 && text.last() == ')' {
        match call_parts(text) {
            Some((name, arguments)) => Some(
                ActionView::MacroCall { name: trim(name), args: trimmed_pieces(arguments) },
            ),
            None => None,
        }
    } else if text.len() > 0 && text[0] == '#' {
        Some(ActionView::Comment(trim(text.skip(1))))
    } else {
        None
    }
}

/// The actions on the lines that follow a header indented by `base`: the
/// action blocks of the lines up to the first that is indented no further
/// than `base`, and the number of lines they take.
pub open spec fn children(lines: Seq<LineView>, base: usize) -> Option<(Seq<ActionView>, nat)>
    decreases lines.len(), 1nat,
{
    if lines.len() == 0 || lines[0].indent <= base {
        Some((Seq::empty(), 0))
    } else {
        match action_block(lines) {
            Some((first, used)) => {
                if 1 <= used <= lines.len() {
                    match children(lines.skip(used as int), base) {
                        Some((more, further)) => Some((first + more, used + further)),
                        None => None,
                    }
                } else {
                    None
                }
            },
            None => None,
        }
    }
}

/// The action that starts at the first of `lines`, and the number of lines
/// it takes: a conditional with the actions indented further than its own
/// line, or the single action that the line writes.
pub open spec fn action_block(lines: Seq<LineView>) -> Option<(Seq<ActionView>, nat)>
    decreases lines.len(), 0nat,
{
    if lines.len() == 0 {
        None
    } else if opens_conditional(lines[0].text) {
        match children(lines.skip(1), lines[0].indent) {
            Some((inner, used)) => Some(
                (
                    seq![ActionView::Conditional(condition_after(lines[0].text, "if"@), inner)],
                    1 + used,
                ),
            ),
            None => None,
        }
    } else {
        match action_of(lines[0].text) {
            Some(action) => Some((seq![action], 1)),
            None => None,
        }
    }
}

/// The name and the parameters that a macro header states.
pub open spec fn macro_header(text: Seq<char>) -> Option<(Seq<char>, Seq<Seq<char>>)> {
    match call_parts(trim(strip_prefixes(text, "macro"@))) {
        Some((name, parameters)) => Some(
            (trim(name), trimmed_pieces(parameters).filter(|p: Seq<char>| is_filled(p))),
        ),
        None => None,
    }
}

/// The recursion index that a header states: the number between `at τ=`, if
/// the line starts so, and the first colon.
pub open spec fn tau_header(text: Seq<char>) -> Option<u64> {
    number_u64(trim(before_first(strip_prefixes(text, "at τ="@), ":"@)))
}

/// The count that a repeat header states: the number between `repeat` and
/// the first `times`.
pub open spec fn repeat_header(text: Seq<char>) -> Option<u32> {
    number_u32(trim(before_first(strip_prefixes(text, "repeat"@), "times"@)))
}

/// The block that a header line and the actions under it make. The kind of
/// block goes by how the header starts: `macro `, `at τ=`, `repeat `,
/// `while ` or `parallel:`; any other header is read as a recursion index.
pub open spec fn block_of(text: Seq<char>, actions: Seq<ActionView>) -> Option<BlockView> {
    if has_prefix(text, "macro "@) {
        match macro_header(text) {
            Some((name, params)) => Some(BlockView::MacroDef { name, params, body: actions }),
            None => None,
        }
    } else if has_prefix(text, "at τ="@) {
        match tau_header(text) {
            Some(tau) => Some(BlockView::AtTau(tau, actions)),
            None => None,
        }
    } else if has_prefix(text, "repeat "@) {
        match repeat_header(text) {
            Some(n) => Some(BlockView::Repeat(n, actions)),
            None => None,
        }
    } else if has_prefix(text, "while "@) {
        Some(BlockView::While(condition_after(text, "while"@), actions))
    } else if has_prefix(text, "parallel:"@) {
        Some(BlockView::Parallel(actions))
    } else {
        match tau_header(text) {
            Some(tau) => Some(BlockView::AtTau(tau, actions)),
            None => None,
        }
    }
}

/// The block that starts at the first of `lines`, and the number of lines it
/// takes.
pub open spec fn block_at(lines: Seq<LineView>) -> Option<(BlockView, nat)> {
    if lines.len() == 0 {
        None
    } else {
        match children(lines.skip(1), lines[0].indent) {
            Some((actions, used)) => match block_of(lines[0].text, actions) {
                Some(block) => Some((block, 1 + used)),
                None => None,
            },
            None => None,
        }
    }
}

/// The blocks that the lines of a script make, if every line can be read.
pub open spec fn blocks_of(lines: Seq<LineView>) -> Option<Seq<BlockView>>
    decreases lines.len(),
{
    if lines.len() == 0 {
        Some(Seq::empty())
    } else {
        match block_at(lines) {
            Some((block, used)) => {
                if 1 <= used <= lines.len() {
                    match blocks_of(lines.skip(used as int)) {
                        Some(more) => Some(seq![block] + more),
                        None => None,
                    }
                } else {
                    None
                }
            },
            None => None,
        }
    }
}

/// The blocks that a script writes, if every line of it can be read.
pub open spec fn script_blocks(script: Seq<char>) -> Option<Seq<BlockView>> {
    blocks_of(counted_lines(lines(script)))
}

/// The actions under a header never take more lines than there are.
pub proof fn lemma_children_bounded(lines: Seq<LineView>, base: usize)
    ensures
        children(lines, base) matches Some((actions, used)) ==> used <= lines.len(),
    decreases lines.len(),
{
    if lines.len() > 0 && lines[0].indent > base {
        match action_block(lines) {
            Some((first, used)) => {
                if 1 <= used <= lines.len() {
                    lemma_children_bounded(lines.skip(used as int), base);
                }
            },
            None => {},
        }
    }
}

/// An action block takes at least its own line and never more lines than
/// there are.
pub proof fn lemma_action_block_bounded(lines: Seq<LineView>)
    ensures
        action_block(lines) matches Some((actions, used)) ==> 1 <= used <= lines.len(),
{
    if lines.len() > 0 && opens_conditional(lines[0].text) {
        lemma_children_bounded(lines.skip(1), lines[0].indent);
    }
}

/// A block takes at least its header line and never more lines than there
/// are.
pub proof fn lemma_block_bounded(lines: Seq<LineView>)
    ensures
        block_at(lines) matches Some((block, used)) ==> 1 <= used <= lines.len(),
{
    if lines.len() > 0 {
        lemma_children_bounded(lines.skip(1), lines[0].indent);
    }
}

/// The lines of a script that are still to be read.
pub struct LineCursor {
    lines: VecDeque<Line>,
}

impl View for LineCursor {
    type V = Seq<LineView>;

    closed spec fn view(&self) -> Seq<LineView> {
        line_views(self.lines@)
    }
}

impl LineCursor {
    /// A cursor at the first line of a script that counts.
    pub fn from(script: &str) -> (r: LineCursor)
        ensures
            r@ == counted_lines(lines(script@)),
    {
        let raws = split_lines(&chars_of(script));
        LineCursor::from_lines(&raws)
    }

    /// A cursor at the first of the given raw lines that counts.
    pub fn from_lines(raws: &Vec<Vec<char>>) -> (r: LineCursor)
        ensures
            r@ == counted_lines(char_views(raws@)),
    {
        let ghost all = char_views(raws@);
        let ghost keep = |raw: Seq<char>| counts(raw);
        let ghost read = |raw: Seq<char>| line_of(raw);
        let mut lines: VecDeque<Line> = VecDeque::new();
        let mut i: usize = 0;
        assert(all.take(0).filter(keep) =~= Seq::<Seq<char>>::empty()) by {
            reveal(Seq::filter);
        }
        assert(line_views(lines@) =~= all.take(0).filter(keep).map_values(read));
        while i < raws.len()
            invariant
                i <= raws@.len(),
                all == char_views(raws@),
                keep == |raw: Seq<char>| counts(raw),
                read == |raw: Seq<char>| line_of(raw),
                line_views(lines@) == all.take(i as int).filter(keep).map_values(read),
            decreases raws@.len() - i,
        {
            let raw = &raws[i];
            let ghost before = lines@;
            proof {
                assert(all.take(i + 1).drop_last() =~= all.take(i as int));
                assert(all.take(i + 1).last() == raw@);
                reveal(Seq::filter);
                lemma_trim_start(raw@);
            }
            let spaces = count_leading_spaces(raw);
            if spaces < raw.len() && raw[spaces] != '#' {
                let indent = utf8_length_of(raw, spaces);
                let text = slice_of(raw, spaces, raw.len());
                assert(text@ =~= trim_start(raw@));
                lines.push_back(Line { indent, text });
                assert(line_views(lines@) =~= line_views(before).push(line_of(raw@)));
                assert(all.take(i + 1).filter(keep).map_values(read) =~= all.take(
                    i as int,
                ).filter(keep).map_values(read).push(read(raw@)));
            } else {
                assert(!counts(raw@)) by {
                    if spaces < raw@.len() {
                        assert(trim_start(raw@)[0] == raw@[spaces as int]);
                    }
                }
            }
            i += 1;
        }
        assert(all.take(i as int) =~= all);
        LineCursor { lines }
    }

    /// The line the cursor stands at, if any is left.
    pub fn peek(&self) -> (r: Option<&Line>)
        ensures
            r is Some <==> self@.len() > 0,
            r matches Some(line) ==> line@ == self@[0],
    {
        if self.lines.len() > 0 {
            Some(&self.lines[0])
        } else {
            None
        }
    }

    /// Reads the line the cursor stands at and passes it.
    pub fn next(&mut self) -> (r: Option<Line>)
        ensures
            r is Some <==> old(self)@.len() > 0,
            r matches Some(line) ==> line@ == old(self)@[0] && final(self)@ == old(self)@.skip(1),
            r is None ==> final(self)@ == old(self)@,
    {
        let r = self.lines.pop_front();
        proof {
            if r is Some {
                assert(self@ =~= old(self)@.skip(1));
            }
        }
        r
    }
}

/// Whether the parsed value is what the grammar gives.
pub open spec fn reads_action(r: Option<Action>, expected: Option<ActionView>) -> bool {
    match expected {
        Some(action) => r is Some && r->Some_0@ == action,
        None => r is None,
    }
}

/// The parts of a call: the text before the first `(`, and the text between
/// it and the first `)`.
fn split_call(text: &Vec<char>) -> (r: Option<(Vec<char>, Vec<char>)>)
    ensures
        r is Some <==> call_parts(text@) is Some,
        r matches Some(parts) ==> call_parts(text@) == Some((parts.0@, parts.1@)),
{
    let mut open_mark: Vec<char> = Vec::new();
    open_mark.push('(');
    let mut close_mark: Vec<char> = Vec::new();
    close_mark.push(')');
    assert(open_mark@ =~= seq!['(']);
    assert(close_mark@ =~= seq![')']);
    match find(text, &open_mark) {
        Some(open) => match find(text, &close_mark) {
            Some(close) => {
                if open < close {
                    let name = slice_of(text, 0, open);
                    let inner = slice_of(text, open + 1, close);
                    assert(text@.subrange(0, open as int) =~= text@.take(open as int));
                    Some((name, inner))
                } else {
                    None
                }
            },
            None => None,
        },
        None => None,
    }
}

/// The pieces of a text between commas, each without white space at its
/// ends; with `filled_only`, the empty ones are left out.
fn list_items(text: &Vec<char>, filled_only: bool) -> (r: Vec<String>)
    ensures
        string_views(r@) == if filled_only {
            trimmed_pieces(text@).filter(|p: Seq<char>| is_filled(p))
        } else {
            trimmed_pieces(text@)
        },
{
    let parts = split(text, ',');
    let ghost all = trimmed_pieces(text@);
    let ghost keep = |p: Seq<char>| is_filled(p);
    let mut items: Vec<String> = Vec::new();
    let mut i: usize = 0;
    assert(all.take(0).filter(keep) =~= Seq::<Seq<char>>::empty()) by {
        reveal(Seq::filter);
    }
    assert(string_views(items@) =~= all.take(0));
    while i < parts.len()
        invariant
            i <= parts@.len(),
            all == trimmed_pieces(text@),
            all.len() == parts@.len(),
            char_views(parts@) == pieces(text@, ','),
            keep == |p: Seq<char>| is_filled(p),
            string_views(items@) == if filled_only {
                all.take(i as int).filter(keep)
            } else {
                all.take(i as int)
            },
        decreases parts@.len() - i,
    {
        let piece = trimmed(&parts[i]);
        let ghost before = string_views(items@);
        proof {
            assert(all.take(i + 1).drop_last() =~= all.take(i as int));
            assert(all.take(i + 1).last() == piece@);
            assert(all.take(i + 1) =~= all.take(i as int).push(piece@));
            reveal(Seq::filter);
        }
        if !filled_only || piece.len() > 0 {
            items.push(string_of(&piece));
            assert(string_views(items@) =~= before.push(piece@));
        }
        i += 1;
    }
    assert(all.take(i as int) =~= all);
    items
}

/// The action that a line writes; see [`action_of`].
pub fn parse_action(text: &Vec<char>) -> (r: Option<Action>)
    ensures
        reads_action(r, action_of(text@)),
{
    if let Some(rest) = stripped_prefix(text, &chars_of("create agent ")) {
        let parts = split_whitespace(&rest);
        if parts.len() < 3 {
            return None;
        }
        assert(char_views(parts@)[0] == parts@[0]@);
        assert(char_views(parts@)[1] == parts@[1]@);
        assert(char_views(parts@)[2] == parts@[2]@);
        return match parse_u32(&parts[1]) {
            Some(mem) => Some(
                Action::CreateAgent { name: string_of(&parts[0]), mem, coh: string_of(&parts[2]) },
            ),
            None => None,
        };
    }
    if let Some(rest) = stripped_prefix(text, &chars_of("let ")) {
        return match split_at_first(&rest, &chars_of("=")) {
            Some((name, value)) => Some(
                Action::VariableAssignment {
                    name: string_of(&trimmed(&name)),
                    value: string_of(&trimmed(&value)),
                },
            ),
            None => None,
        };
    }
    if let Some(rest) = stripped_prefix(text, &chars_of("tick ")) {
        return match parse_u32(&trimmed(&rest)) {
            Some(n) => Some(Action::Tick(n)),
            None => None,
        };
    }
    if let Some(rest) = stripped_prefix(text, &chars_of("assert ")) {
        return Some(Action::Assert(string_of(&trimmed(&rest))));
    }
    if let Some((agent, rest)) = split_at_first(text, &chars_of(" says: ")) {
        return match split_at_first(&rest, &chars_of(" → ")) {
            Some((token, pattern)) => Some(
                Action::Say {
                    agent: string_of(&trimmed(&agent)),
                    token: string_of(&trimmed(&token)),
                    pattern: string_of(&trimmed(&pattern)),
                },
            ),
            None => None,
        };
    }
    if let Some((agent, rest)) = split_at_first(text, &chars_of(" hears: ")) {
        return match split_at_first(&rest, &chars_of(" → ")) {
            Some((token, pattern)) => Some(
                Action::Interpret {
                    agent: string_of(&trimmed(&agent)),
                    token: string_of(&trimmed(&token)),
                },
            ),
            None => None,
        };
    }
    if let Some((agent, rest)) = split_at_first(text, &chars_of(" interprets: ")) {
        return Some(
            Action::Interpret {
                agent: string_of(&trimmed(&agent)),
                token: string_of(&trimmed(&rest)),
            },
        );
    }
    let mut open_mark: Vec<char> = Vec::new();
    open_mark.push('(');
    assert(open_mark@ =~= seq!['(']);
    let n = text.len();
    if find(text, &open_mark).is_some() && n > 0 && text[n - 1] == ')' {
        return match split_call(text) {
            Some((name, arguments)) => Some(
                Action::MacroCall {
                    name: string_of(&trimmed(&name)),
                    args: list_items(&arguments, false),
                },
            ),
            None => None,
        };
    }
    if n > 0 && text[0] == '#' {
        let rest = slice_of(text, 1, n);
        assert(rest@ =~= text@.skip(1));
        return Some(Action::Comment(string_of(&trimmed(&rest))));
    }
    None
}

/// Whether `r` and the cursor are what the grammar gives for the actions
/// read from `before`.
pub open spec fn reads_actions(
    r: Option<Vec<Action>>,
    before: Seq<LineView>,
    after: Seq<LineView>,
    expected: Option<(Seq<ActionView>, nat)>,
) -> bool {
    match expected {
        Some((actions, used)) => {
            &&& r is Some
            &&& action_views(r->Some_0@) == actions
            &&& used <= before.len()
            &&& after == before.skip(used as int)
        },
        None => r is None,
    }
}

/// The condition that a header states after `keyword`.
fn condition_text(text: &Vec<char>, keyword: &str) -> (r: String)
    ensures
        r@ == condition_after(text@, keyword@),
{
    let rest = stripped_prefixes(text, &chars_of(keyword));
    let bare = stripped_trailing(&rest, ':');
    string_of(&trimmed(&bare))
}

/// Reads the actions under a header indented by `base`; see [`children`].
/// Where a line cannot be read nothing is returned, and the cursor is left
/// wherever the reading stopped.
pub fn parse_children(cursor: &mut LineCursor, base: usize) -> (r: Option<Vec<Action>>)
    ensures
        reads_actions(r, old(cursor)@, final(cursor)@, children(old(cursor)@, base)),
    decreases old(cursor)@.len(), 1nat,
{
    let ghost start = cursor@;
    let mut actions: Vec<Action> = Vec::new();
    let ghost mut consumed: nat = 0;
    assert(start.skip(0) =~= start);
    assert(action_views(actions@) =~= Seq::<ActionView>::empty());
    loop
        invariant_except_break
            consumed <= start.len(),
            cursor@ == start.skip(consumed as int),
            start == old(cursor)@,
            match children(cursor@, base) {
                Some((more, used)) => children(start, base) == Some(
                    (action_views(actions@) + more, consumed + used),
                ),
                None => children(start, base) is None,
            },
        ensures
            reads_actions(Some(actions), start, cursor@, children(start, base)),
        decreases cursor@.len(),
    {
        let stop = match cursor.peek() {
            Some(line) => line.indent <= base,
            None => true,
        };
        if stop {
            assert(children(cursor@, base) == Some((Seq::<ActionView>::empty(), 0nat)));
            assert(action_views(actions@) + Seq::<ActionView>::empty() =~= action_views(actions@));
            break;
        }
        let ghost here = cursor@;
        let ghost so_far = action_views(actions@);
        proof {
            lemma_action_block_bounded(here);
        }
        match parse_action_block(cursor) {
            Some(mut first) => {
                let ghost first_views = action_views(first@);
                let ghost used = action_block(here)->Some_0.1;
                actions.append(&mut first);
                proof {
                    assert(action_views(actions@) =~= so_far + first_views);
                    assert(here.skip(used as int) =~= start.skip((consumed + used) as int));
                    match children(here.skip(used as int), base) {
                        Some((more, further)) => {
                            assert((so_far + first_views) + more =~= so_far + (first_views + more));
                        },
                        None => {},
                    }
                    consumed = consumed + used;
                }
            },
            None => {
                return None;
            },
        }
    }
    Some(actions)
}

/// Reads the action that starts at the cursor; see [`action_block`]. Where
/// a line cannot be read nothing is returned, and the cursor is left
/// wherever the reading stopped.
pub fn parse_action_block(cursor: &mut LineCursor) -> (r: Option<Vec<Action>>)
    ensures
        reads_actions(r, old(cursor)@, final(cursor)@, action_block(old(cursor)@)),
    decreases old(cursor)@.len(), 0nat,
{
    let ghost start = cursor@;
    let line = match cursor.next() {
        Some(line) => line,
        None => {
            return None;
        },
    };
    let n = line.text.len();
    if starts_with(&line.text, &chars_of("if ")) && n > 0 && line.text[n - 1] == ':' {
        let cond = condition_text(&line.text, "if");
        proof {
            lemma_children_bounded(start.skip(1), line.indent);
        }
        match parse_children(cursor, line.indent) {
            Some(inner) => {
                let ghost used = children(start.skip(1), line.indent)->Some_0.1;
                let action = Action::Conditional(cond, inner);
                let mut found: Vec<Action> = Vec::new();
                found.push(action);
                proof {
                    assert(action@->Conditional_1 =~= action_views(inner@));
                    assert(action_views(found@) =~= seq![action@]);
                    assert(start.skip(1).skip(used as int) =~= start.skip((1 + used) as int));
                }
                Some(found)
            },
            None => None,
        }
    } else {
        match parse_action(&line.text) {
            Some(action) => {
                let mut found: Vec<Action> = Vec::new();
                found.push(action);
                assert(action_views(found@) =~= seq![action@]);
                Some(found)
            },
            None => None,
        }
    }
}

/// The name and the parameters that a macro header states.
fn parse_macro_header(text: &Vec<char>) -> (r: Option<(String, Vec<String>)>)
    ensures
        r is Some <==> macro_header(text@) is Some,
        r matches Some(parts) ==> macro_header(text@) == Some(
            (parts.0@, string_views(parts.1@)),
        ),
{
    let header = trimmed(&stripped_prefixes(text, &chars_of("macro")));
    match split_call(&header) {
        Some((name, parameters)) => Some(
            (string_of(&trimmed(&name)), list_items(&parameters, true)),
        ),
        None => None,
    }
}

/// The part of a text before the first occurrence of `needle`.
fn part_before(text: &Vec<char>, needle: &str) -> (r: Vec<char>)
    ensures
        r@ == before_first(text@, needle@),
{
    match split_at_first(text, &chars_of(needle)) {
        Some((before, after)) => before,
        None => slice_of(text, 0, text.len()),
    }
}

/// The recursion index that a header states.
fn parse_tau_header(text: &Vec<char>) -> (r: Option<u64>)
    ensures
        r == tau_header(text@),
{
    let rest = stripped_prefixes(text, &chars_of("at τ="));
    parse_u64(&trimmed(&part_before(&rest, ":")))
}

/// The count that a repeat header states.
fn parse_repeat_header(text: &Vec<char>) -> (r: Option<u32>)
    ensures
        r == repeat_header(text@),
{
    let rest = stripped_prefixes(text, &chars_of("repeat"));
    parse_u32(&trimmed(&part_before(&rest, "times")))
}

/// The block that a header and the actions under it make; see [`block_of`].
fn make_block(text: &Vec<char>, actions: Vec<Action>) -> (r: Option<Block>)
    ensures
        match block_of(text@, action_views(actions@)) {
            Some(block) => r is Some && r->Some_0@ == block,
            None => r is None,
        },
{
    if starts_with(text, &chars_of("macro ")) {
        match parse_macro_header(text) {
            Some((name, params)) => Some(Block::MacroDef { name, params, body: actions }),
            None => None,
        }
    } else if starts_with(text, &chars_of("at τ=")) {
        match parse_tau_header(text) {
            Some(tau) => Some(Block::AtTau(tau, actions)),
            None => None,
        }
    } else if starts_with(text, &chars_of("repeat ")) {
        match parse_repeat_header(text) {
            Some(n) => Some(Block::Repeat(n, actions)),
            None => None,
        }
    } else if starts_with(text, &chars_of("while ")) {
        Some(Block::While(condition_text(text, "while"), actions))
    } else if starts_with(text, &chars_of("parallel:")) {
        Some(Block::Parallel(actions))
    } else {
        match parse_tau_header(text) {
            Some(tau) => Some(Block::AtTau(tau, actions)),
            None => None,
        }
    }
}

/// Reads the block that starts at the cursor; see [`block_at`].
pub fn parse_block(cursor: &mut LineCursor) -> (r: Option<Block>)
    ensures
        match block_at(old(cursor)@) {
            Some((block, used)) => {
                &&& r is Some
                &&& r->Some_0@ == block
                &&& 1 <= used <= old(cursor)@.len()
                &&& final(cursor)@ == old(cursor)@.skip(used as int)
            },
            None => r is None,
        },
{
    let ghost start = cursor@;
    proof {
        lemma_block_bounded(start);
    }
    let line = match cursor.next() {
        Some(line) => line,
        None => {
            return None;
        },
    };
    match parse_children(cursor, line.indent) {
        Some(actions) => {
            let ghost used = children(start.skip(1), line.indent)->Some_0.1;
            assert(start.skip(1).skip(used as int) =~= start.skip((1 + used) as int));
            make_block(&line.text, actions)
        },
        None => None,
    }
}

/// Reads blocks until no line is left; see [`blocks_of`]. Nothing is
/// returned where a line cannot be read.
pub fn parse_blocks(cursor: &mut LineCursor) -> (r: Option<Vec<Block>>)
    ensures
        match blocks_of(old(cursor)@) {
            Some(blocks) => r is Some && block_views(r->Some_0@) == blocks,
            None => r is None,
        },
{
    let ghost start = cursor@;
    let mut blocks: Vec<Block> = Vec::new();
    assert(block_views(blocks@) =~= Seq::<BlockView>::empty());
    loop
        invariant_except_break
            start == old(cursor)@,
            match blocks_of(cursor@) {
                Some(more) => blocks_of(start) == Some(block_views(blocks@) + more),
                None => blocks_of(start) is None,
            },
        ensures
            blocks_of(start) == Some(block_views(blocks@)),
        decreases cursor@.len(),
    {
        if cursor.peek().is_none() {
            assert(block_views(blocks@) + Seq::<BlockView>::empty() =~= block_views(blocks@));
            break;
        }
        let ghost here = cursor@;
        let ghost so_far = block_views(blocks@);
        match parse_block(cursor) {
            Some(block) => {
                blocks.push(block);
                proof {
                    assert(block_views(blocks@) =~= so_far.push(block@));
                    match blocks_of(cursor@) {
                        Some(more) => {
                            assert(so_far.push(block@) + more =~= so_far + (seq![block@] + more));
                        },
                        None => {},
                    }
                }
            },
            None => {
                assert(here.len() > 0);
                assert(block_at(here) is None);
                assert(blocks_of(here) is None);
                return None;
            },
        }
    }
    Some(blocks)
}

/// Reads a script into blocks. Nothing is returned where a line cannot be
/// read: a header or an action whose parts are missing, a number that is
/// not one, or a line that is no action at all.
pub fn parse_script(script: &str) -> (r: Option<Vec<Block>>)
    ensures
        match script_blocks(script@) {
            Some(blocks) => r is Some && block_views(r->Some_0@) == blocks,
            None => r is None,
        },
{
    let mut cursor = LineCursor::from(script);
    parse_blocks(&mut cursor)
}

} // verus!
