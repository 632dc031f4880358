//! The statement language: splitting a program text into tokens, a cursor
//! over the tokens, and the reading of statements from them.
//!
//! Statements hold their numbers as the tokens that write them. Which
//! tokens write a number is told to the parser by its caller, token by
//! token.

use crate::interpretations::{clone_strings, string_views};
use crate::scan::{
    char_views, has_prefix, number_value, parse_u64, split_whitespace, starts_with, string_of,
    strip_trailing, stripped_trailing, words,
};
use crate::text::{chars_of, push_char};
use vstd::prelude::*;

verus! {

/// A text in lower case. It stands for what `str::to_lowercase` returns.
pub uninterp spec fn lowercase(s: Seq<char>) -> Seq<char>;

/// A text in lower case.
///
/// Trusted: calls `str::to_lowercase`, which depends on the text alone (it
/// maps characters by the Unicode property `Lowercase`); its result is named
/// [`lowercase`].
#[verifier::external_body]
fn to_lowercase(s: &str) -> (r: String)
    ensures
        r@ == lowercase(s@),
{
    s.to_lowercase()
}

/// The characters that are stripped from both ends of a token: the double
/// quote, the comma and the two square brackets.
pub open spec fn is_wrapping(c: char) -> bool {
    c == '"' || c == ',' || c == '[' || c == ']'
}

/// A word without the wrapping characters at its start.
pub open spec fn strip_front(word: Seq<char>) -> Seq<char>
    decreases word.len(),
{
    if word.len() > 0 && is_wrapping(word[0]) {
        strip_front(word.skip(1))
    } else {
        word
    }
}

/// A word without the wrapping characters at its end.
pub open spec fn strip_back(word: Seq<char>) -> Seq<char>
    decreases word.len(),
{
    if word.len() > 0 && is_wrapping(word.last()) {
        strip_back(word.drop_last())
    } else {
        word
    }
}

/// A word without the wrapping characters at either end.
pub open spec fn trimmed(word: Seq<char>) -> Seq<char> {
    strip_back(strip_front(word))
}

/// The tokens of a text: its words, each without wrapping characters at
/// either end. A word made of wrapping characters alone gives an empty token.
pub open spec fn tokens_of(text: Seq<char>) -> Seq<Seq<char>> {
    words(text, Seq::empty()).map_values(|w: Seq<char>| trimmed(w))
}

/// Whether a character is one of those stripped from the ends of a token.
fn wraps(c: char) -> (r: bool)
    ensures
        r == is_wrapping(c),
{
    c == '"' || c == ',' || c == '[' || c == ']'
}

/// The word without wrapping characters at either end, as a string.
fn trim_word(word: &Vec<char>) -> (r: String)
    ensures
        r@ == trimmed(word@),
{
    let n = word.len();
    let mut lo: usize = 0;
    assert(word@.skip(0) =~= word@);
    while lo < n && wraps(word[lo])
        invariant
            n == word@.len(),
            lo <= n,
            strip_front(word@) == strip_front(word@.skip(lo as int)),
        decreases n - lo,
    {
        assert(word@.skip(lo as int).skip(1) =~= word@.skip(lo + 1));
        lo += 1;
    }
    let ghost front = word@.skip(lo as int);
    assert(strip_front(word@) == front);
    let mut hi: usize = n;
    assert(word@.subrange(lo as int, n as int) =~= front);
    while hi > lo && wraps(word[hi - 1])
        invariant
            n == word@.len(),
            lo <= hi <= n,
            strip_back(front) == strip_back(word@.subrange(lo as int, hi as int)),
        decreases hi,
    {
        assert(word@.subrange(lo as int, hi as int).drop_last() =~= word@.subrange(
            lo as int,
            hi - 1,
        ));
        hi -= 1;
    }
    let ghost kept = word@.subrange(lo as int, hi as int);
    assert(strip_back(front) == kept);
    let mut out = String::new();
    let mut i: usize = lo;
    while i < hi
        invariant
            lo <= i <= hi <= word@.len(),
            out@ == word@.subrange(lo as int, i as int),
        decreases hi - i,
    {
        push_char(&mut out, word[i]);
        i += 1;
        assert(out@ =~= word@.subrange(lo as int, i as int));
    }
    out
}

/// Splits a program text into tokens.
pub struct Tokenizer<'a> {
    input: &'a str,
}

impl<'a> View for Tokenizer<'a> {
    type V = Seq<char>;

    closed spec fn view(&self) -> Seq<char> {
        self.input@
    }
}

impl<'a> Tokenizer<'a> {
    /// A tokenizer for `input`.
    pub fn new(input: &'a str) -> (r: Tokenizer<'a>)
        ensures
            r@ == input@,
    {
        Tokenizer { input }
    }

    /// The tokens of the input: the words between white space, each without
    /// double quotes, commas and square brackets at either end. The
    /// tokenizer is left as it was.
    pub fn tokenize(&mut self) -> (r: Vec<String>)
        ensures
            string_views(r@) == tokens_of(old(self)@),
            final(self)@ == old(self)@,
    {
        let chars = chars_of(self.input);
        let found = split_whitespace(&chars);
        let ghost trim = |w: Seq<char>| trimmed(w);
        let mut tokens: Vec<String> = Vec::new();
        let mut i: usize = 0;
        while i < found.len()
            invariant
                i <= found@.len(),
                tokens@.len() == i,
                forall|j: int| 0 <= j < i ==> (#[trigger] tokens@[j])@ == trimmed(found@[j]@),
            decreases found@.len() - i,
        {
            tokens.push(trim_word(&found[i]));
            i += 1;
        }
        assert(string_views(tokens@) =~= char_views(found@).map_values(trim));
        tokens
    }
}

/// A cursor over a sequence of tokens.
pub struct Parser {
    tokens: Vec<String>,
    cursor: usize,
}

/// What a [`Parser`] is, as plain values: its tokens, and how many of them
/// it has passed.
pub struct ParserView {
    pub tokens: Seq<Seq<char>>,
    pub cursor: nat,
}

impl ParserView {
    /// Whether a token is left to read.
    pub open spec fn has_token(self) -> bool {
        self.cursor < self.tokens.len()
    }

    /// The token the cursor stands at.
    pub open spec fn current(self) -> Seq<char>
        recommends
            self.has_token(),
    {
        self.tokens[self.cursor as int]
    }

    /// The parser once it has passed the current token; as it is if none is
    /// left.
    pub open spec fn advanced(self) -> ParserView {
        if self.has_token() {
            ParserView { cursor: self.cursor + 1, ..self }
        } else {
            self
        }
    }
}

impl View for Parser {
    type V = ParserView;

    closed spec fn view(&self) -> ParserView {
        ParserView { tokens: string_views(self.tokens@), cursor: self.cursor as nat }
    }
}

impl Parser {
    /// A parser that stands at the first of `tokens`.
    pub fn new(tokens: Vec<String>) -> (r: Parser)
        ensures
            r@ == (ParserView { tokens: string_views(tokens@), cursor: 0 }),
    {
        Parser { tokens, cursor: 0 }
    }

    /// Reads the current token and passes it; nothing if none is left.
    pub fn next(&mut self) -> (r: Option<String>)
        ensures
            final(self)@ == old(self)@.advanced(),
            r is Some <==> old(self)@.has_token(),
            r matches Some(token) ==> token@ == old(self)@.current(),
    {
        if self.cursor < self.tokens.len() {
            let token = self.tokens[self.cursor].clone();
            self.cursor += 1;
            Some(token)
        } else {
            None
        }
    }

    /// The current token, without passing it; nothing if none is left.
    pub fn peek(&self) -> (r: Option<&str>)
        ensures
            r is Some <==> self@.has_token(),
            r matches Some(token) ==> token@ == self@.current(),
    {
        if self.cursor < self.tokens.len() {
            Some(self.tokens[self.cursor].as_str())
        } else {
            None
        }
    }

    /// Passes the current token and tells whether it was `expected`, letter
    /// case aside. Nothing is returned if it was not, or if no token was
    /// left.
    pub fn expect(&mut self, expected: &str) -> (r: Option<()>)
        ensures
            final(self)@ == old(self)@.advanced(),
            r is Some <==> old(self)@.has_token() && lowercase(old(self)@.current()) == lowercase(
                expected@,
            ),
    {
        match self.next() {
            Some(token) => {
                if to_lowercase(token.as_str()) == to_lowercase(expected) {
                    Some(())
                } else {
                    None
                }
            },
            None => None,
        }
    }
}

/// A statement of a program.
#[derive(Debug)]
pub enum Statement {
    Field { name: String, size: usize },
    /// A named list of values, each as the token that writes it.
    Interpretation { name: String, values: Vec<String> },
    /// A projection; `alpha`, `noise` and `steps` as the tokens that write
    /// them.
    Project { target: String, interp: String, alpha: String, noise: String, steps: String },
    TraceDistance { name: String, field: String, interp: String },
    /// A meaning; `threshold` as the token that writes it.
    Meaning { name: String, trace: String, threshold: String },
    NarrateReturn { tokens: Vec<String> },
    LogCoherence(String),
    LogMeaning(String),
    ExpressSymbol { token: String, into_field: String },
    /// A modulation; `intensity` as the token that writes it.
    Modulate { token: String, intensity: String },
}

/// What a [`Statement`] is, as plain values.
pub enum StatementView {
    Field { name: Seq<char>, size: usize },
    Interpretation { name: Seq<char>, values: Seq<Seq<char>> },
    Project {
        target: Seq<char>,
        interp: Seq<char>,
        alpha: Seq<char>,
        noise: Seq<char>,
        steps: Seq<char>,
    },
    TraceDistance { name: Seq<char>, field: Seq<char>, interp: Seq<char> },
    Meaning { name: Seq<char>, trace: Seq<char>, threshold: Seq<char> },
    NarrateReturn { tokens: Seq<Seq<char>> },
    LogCoherence(Seq<char>),
    LogMeaning(Seq<char>),
    ExpressSymbol { token: Seq<char>, into_field: Seq<char> },
    Modulate { token: Seq<char>, intensity: Seq<char> },
}

impl View for Statement {
    type V = StatementView;

    open spec fn view(&self) -> StatementView {
        match self {
            Statement::Field { name, size } => StatementView::Field { name: name@, size: *size },
            Statement::Interpretation { name, values } => StatementView::Interpretation {
                name: name@,
                values: string_views(values@),
            },
            Statement::Project { target, interp, alpha, noise, steps } => StatementView::Project {
                target: target@,
                interp: interp@,
                alpha: alpha@,
                noise: noise@,
                steps: steps@,
            },
            Statement::TraceDistance { name, field, interp } => StatementView::TraceDistance {
                name: name@,
                field: field@,
                interp: interp@,
            },
            Statement::Meaning { name, trace, threshold } => StatementView::Meaning {
                name: name@,
                trace: trace@,
                threshold: threshold@,
            },
            Statement::NarrateReturn { tokens } => StatementView::NarrateReturn {
                tokens: string_views(tokens@),
            },
            Statement::LogCoherence(name) => StatementView::LogCoherence(name@),
            Statement::LogMeaning(name) => StatementView::LogMeaning(name@),
            Statement::ExpressSymbol { token, into_field } => StatementView::ExpressSymbol {
                token: token@,
                into_field: into_field@,
            },
            Statement::Modulate { token, intensity } => StatementView::Modulate {
                token: token@,
                intensity: intensity@,
            },
        }
    }
}

impl Clone for Statement {
    fn clone(&self) -> (r: Statement)
        ensures
            r@ == self@,
    {
        match self {
            Statement::Field { name, size } => Statement::Field { name: name.clone(), size: *size },
            Statement::Interpretation { name, values } => Statement::Interpretation {
                name: name.clone(),
                values: clone_strings(values),
            },
            Statement::Project { target, interp, alpha, noise, steps } => Statement::Project {
                target: target.clone(),
                interp: interp.clone(),
                alpha: alpha.clone(),
                noise: noise.clone(),
                steps: steps.clone(),
            },
            Statement::TraceDistance { name, field, interp } => Statement::TraceDistance {
                name: name.clone(),
                field: field.clone(),
                interp: interp.clone(),
            },
            Statement::Meaning { name, trace, threshold } => Statement::Meaning {
                name: name.clone(),
                trace: trace.clone(),
                threshold: threshold.clone(),
            },
            Statement::NarrateReturn { tokens } => Statement::NarrateReturn {
                tokens: clone_strings(tokens),
            },
            Statement::LogCoherence(name) => Statement::LogCoherence(name.clone()),
            Statement::LogMeaning(name) => Statement::LogMeaning(name.clone()),
            Statement::ExpressSymbol { token, into_field } => Statement::ExpressSymbol {
                token: token.clone(),
                into_field: into_field.clone(),
            },
            Statement::Modulate { token, intensity } => Statement::Modulate {
                token: token.clone(),
                intensity: intensity.clone(),
            },
        }
    }
}

/// The views of a sequence of statements.
pub open spec fn statement_views(statements: Seq<Statement>) -> Seq<StatementView> {
    statements.map_values(|s: Statement| s@)
}

/// Whether the token at `at` is `word`, letter case aside.
pub open spec fn is_word(tokens: Seq<Seq<char>>, at: int, word: Seq<char>) -> bool {
    0 <= at < tokens.len() && lowercase(tokens[at]) == lowercase(word)
}

/// Whether the token at `at` is there and is marked as writing a number.
pub open spec fn is_number(tokens: Seq<Seq<char>>, numeric: Seq<bool>, at: int) -> bool {
    0 <= at < tokens.len() && at < numeric.len() && numeric[at]
}

/// Whether the token at `at` starts with `label` and the next one writes a
/// number.
pub open spec fn is_labelled(
    tokens: Seq<Seq<char>>,
    numeric: Seq<bool>,
    at: int,
    label: Seq<char>,
) -> bool {
    0 <= at < tokens.len() && has_prefix(tokens[at], label) && is_number(tokens, numeric, at + 1)
}

/// The number of tokens from `from` on that write numbers, up to the first
/// `]`.
pub open spec fn values_run(tokens: Seq<Seq<char>>, numeric: Seq<bool>, from: int) -> nat
    decreases tokens.len() - from,
{
    if 0 <= from < tokens.len() && tokens[from] != "]"@ && is_number(tokens, numeric, from) {
        1 + values_run(tokens, numeric, from + 1)
    } else {
        0
    }
}

/// The number of tokens from `from` on that start with a double quote.
pub open spec fn quoted_run(tokens: Seq<Seq<char>>, from: int) -> nat
    decreases tokens.len() - from,
{
    if 0 <= from < tokens.len() && has_prefix(tokens[from], seq!['"']) {
        1 + quoted_run(tokens, from + 1)
    } else {
        0
    }
}

/// A text without the double quotes at its start.
pub open spec fn strip_leading_quotes(s: Seq<char>) -> Seq<char>
    decreases s.len(),
{
    if s.len() > 0 && s[0] == '"' {
        strip_leading_quotes(s.skip(1))
    } else {
        s
    }
}

/// A text without the double quotes at either end.
pub open spec fn unquoted(s: Seq<char>) -> Seq<char> {
    strip_trailing(strip_leading_quotes(s), '"')
}

/// The number that a text writes, if it fits in a `usize`.
pub open spec fn number_usize(s: Seq<char>) -> Option<usize> {
    match number_value(s) {
        Some(n) => if n <= usize::MAX {
            Some(n as usize)
        } else {
            None
        },
        None => None,
    }
}

/// The statement that starts at token `at`, and the position after it. The
/// first token, letter case aside, names the kind of statement:
///
/// - `field <name> <size>`
/// - `interpretation <name> = [ <number> ... ]`
/// - `project <target> <- <interp> { alpha: <number> noise: <number> steps: <number> }`
/// - `trace <name> = <function> ( <field> , <interp> )`
/// - `meaning <name> = <function> ( <trace> , <number> )`
/// - `narratereturn "<token>" ...`
/// - `logcoherence <field>`
/// - `logmeaning <name>`
/// - `expresssymbol <token> <word> <field>`
/// - `modulate <token> <word> <number>`
pub open spec fn statement_at(tokens: Seq<Seq<char>>, numeric: Seq<bool>, at: int) -> Option<
    (StatementView, int),
> {
    if !(0 <= at < tokens.len()) {
        None
    } else if lowercase(tokens[at]) == "field"@ {
        if at + 2 < tokens.len() && number_usize(tokens[at + 2]) is Some {
            Some(
                (
                    StatementView::Field {
                        name: tokens[at + 1],
                        size: number_usize(tokens[at + 2])->Some_0,
                    },
                    at + 3,
                ),
            )
        } else {
            None
        }
    } else if lowercase(tokens[at]) == "interpretation"@ {
        if at + 1 < tokens.len() && is_word(tokens, at + 2, "="@) && is_word(tokens, at + 3, "["@) {
            let end = at + 4 + values_run(tokens, numeric, at + 4);
            Some(
                (
                    StatementView::Interpretation {
                        name: tokens[at + 1],
                        values: tokens.subrange(at + 4, end),
                    },
                    if end < tokens.len() && tokens[end] == "]"@ {
                        end + 1
                    } else {
                        end
                    },
                ),
            )
        } else {
            None
        }
    } else if lowercase(tokens[at]) == "project"@ {
        if at + 3 < tokens.len() && is_word(tokens, at + 2, "<-"@) && is_word(tokens, at + 4, "{"@)
            && is_labelled(tokens, numeric, at + 5, "alpha:"@) && is_labelled(
            tokens,
            numeric,
            at + 7,
            "noise:"@,
        ) && is_labelled(tokens, numeric, at + 9, "steps:"@) && is_word(tokens, at + 11, "}"@) {
            Some(
                (
                    StatementView::Project {
                        target: tokens[at + 1],
                        interp: tokens[at + 3],
                        alpha: tokens[at + 6],
                        noise: tokens[at + 8],
                        steps: tokens[at + 10],
                    },
                    at + 12,
                ),
            )
        } else {
            None
        }
    } else if lowercase(tokens[at]) == "trace"@ {
        if at + 7 < tokens.len() && is_word(tokens, at + 2, "="@) && is_word(tokens, at + 4, "("@)
            && is_word(tokens, at + 6, ","@) && is_word(tokens, at + 8, ")"@) {
            Some(
                (
                    StatementView::TraceDistance {
                        name: tokens[at + 1],
                        field: tokens[at + 5],
                        interp: tokens[at + 7],
                    },
                    at + 9,
                ),
            )
        } else {
            None
        }
    } else if lowercase(tokens[at]) == "meaning"@ {
        if at + 7 < tokens.len() && is_word(tokens, at + 2, "="@) && is_word(tokens, at + 4, "("@)
            && is_word(tokens, at + 6, ","@) && is_number(tokens, numeric, at + 7) && is_word(
            tokens,
            at + 8,
            ")"@,
        ) {
            Some(
                (
                    StatementView::Meaning {
                        name: tokens[at + 1],
                        trace: tokens[at + 5],
                        threshold: tokens[at + 7],
                    },
                    at + 9,
                ),
            )
        } else {
            None
        }
    } else if lowercase(tokens[at]) == "narratereturn"@ {
        let end = at + 1 + quoted_run(tokens, at + 1);
        Some(
            (
                StatementView::NarrateReturn {
                    tokens: tokens.subrange(at + 1, end).map_values(|t: Seq<char>| unquoted(t)),
                },
                end,
            ),
        )
    } else if lowercase(tokens[at]) == "logcoherence"@ {
        if at + 1 < tokens.len() {
            Some((StatementView::LogCoherence(tokens[at + 1]), at + 2))
        } else {
            None
        }
    } else if lowercase(tokens[at]) == "logmeaning"@ {
        if at + 1 < tokens.len() {
            Some((StatementView::LogMeaning(tokens[at + 1]), at + 2))
        } else {
            None
        }
    } else if lowercase(tokens[at]) == "expresssymbol"@ {
        if at + 3 < tokens.len() {
            Some(
                (
                    StatementView::ExpressSymbol {
                        token: tokens[at + 1],
                        into_field: tokens[at + 3],
                    },
                    at + 4,
                ),
            )
        } else {
            None
        }
    } else if lowercase(tokens[at]) == "modulate"@ {
        if at + 3 < tokens.len() && is_number(tokens, numeric, at + 3) {
            Some(
                (
                    StatementView::Modulate { token: tokens[at + 1], intensity: tokens[at + 3] },
                    at + 4,
                ),
            )
        } else {
            None
        }
    } else {
        None
    }
}

/// The statements read from token `at` on, up to the end of the tokens or
/// the first place where no statement can be read; and that place.
pub open spec fn statements_from(tokens: Seq<Seq<char>>, numeric: Seq<bool>, at: int) -> (
    Seq<StatementView>,
    int,
)
    decreases tokens.len() - at,
{
    match statement_at(tokens, numeric, at) {
        Some((statement, next)) => {
            if at < next <= tokens.len() {
                let rest = statements_from(tokens, numeric, next);
                (seq![statement] + rest.0, rest.1)
            } else {
                (seq![statement], next)
            }
        },
        None => (Seq::empty(), at),
    }
}

/// A run of values ends within the tokens.
pub proof fn lemma_values_run_bounded(tokens: Seq<Seq<char>>, numeric: Seq<bool>, from: int)
    requires
        0 <= from <= tokens.len(),
    ensures
        from + values_run(tokens, numeric, from) <= tokens.len(),
    decreases tokens.len() - from,
{
    if from < tokens.len() && tokens[from] != "]"@ && is_number(tokens, numeric, from) {
        lemma_values_run_bounded(tokens, numeric, from + 1);
    }
}

/// A run of quoted tokens ends within the tokens.
pub proof fn lemma_quoted_run_bounded(tokens: Seq<Seq<char>>, from: int)
    requires
        0 <= from <= tokens.len(),
    ensures
        from + quoted_run(tokens, from) <= tokens.len(),
    decreases tokens.len() - from,
{
    if from < tokens.len() && has_prefix(tokens[from], seq!['"']) {
        lemma_quoted_run_bounded(tokens, from + 1);
    }
}

/// A statement ends after where it starts, and within the tokens.
pub proof fn lemma_statement_bounded(tokens: Seq<Seq<char>>, numeric: Seq<bool>, at: int)
    ensures
        statement_at(tokens, numeric, at) matches Some((statement, next)) ==> at < next
            <= tokens.len(),
{
    if 0 <= at < tokens.len() {
        if at + 4 <= tokens.len() {
            lemma_values_run_bounded(tokens, numeric, at + 4);
        }
        lemma_quoted_run_bounded(tokens, at + 1);
    }
}

/// A text without the double quotes at either end, as a string.
fn unquote(token: &String) -> (r: String)
    ensures
        r@ == unquoted(token@),
{
    let chars = chars_of(token.as_str());
    let n = chars.len();
    let mut lo: usize = 0;
    assert(chars@.skip(0) =~= chars@);
    while lo < n && chars[lo] == '"'
        invariant
            n == chars@.len(),
            lo <= n,
            strip_leading_quotes(chars@) == strip_leading_quotes(chars@.skip(lo as int)),
        decreases n - lo,
    {
        assert(chars@.skip(lo as int).skip(1) =~= chars@.skip(lo + 1));
        lo += 1;
    }
    let front = crate::scan::slice_of(&chars, lo, n);
    assert(front@ =~= chars@.skip(lo as int));
    string_of(&stripped_trailing(&front, '"'))
}

impl Parser {
    /// How many tokens the parser has passed.
    pub fn position(&self) -> (r: usize)
        ensures
            r == self@.cursor,
    {
        self.cursor
    }

    /// Whether the token `ahead` places after the cursor is there.
    fn has(&self, ahead: usize) -> (r: bool)
        ensures
            r == (self.cursor + ahead < self.tokens@.len()),
    {
        self.cursor <= self.tokens.len() && ahead < self.tokens.len() - self.cursor
    }

    /// Whether the token at `at` is `word`, letter case aside.
    fn word_at(&self, at: usize, word: &str) -> (r: bool)
        ensures
            r == is_word(self@.tokens, at as int, word@),
    {
        if at < self.tokens.len() {
            assert(self@.tokens[at as int] == self.tokens@[at as int]@);
            to_lowercase(self.tokens[at].as_str()) == to_lowercase(word)
        } else {
            false
        }
    }

    /// Whether the token at `at` starts with `label` and the next one is
    /// marked as writing a number.
    fn labelled_at(&self, numeric: &Vec<bool>, at: usize, label: &str) -> (r: bool)
        requires
            at < usize::MAX,
        ensures
            r == is_labelled(self@.tokens, numeric@, at as int, label@),
    {
        if at < self.tokens.len() {
            assert(self@.tokens[at as int] == self.tokens@[at as int]@);
            let token = chars_of(self.tokens[at].as_str());
            starts_with(&token, &chars_of(label)) && self.number_at(numeric, at + 1)
        } else {
            false
        }
    }

    /// Whether the token at `at` is there and is marked as writing a
    /// number.
    fn number_at(&self, numeric: &Vec<bool>, at: usize) -> (r: bool)
        ensures
            r == is_number(self@.tokens, numeric@, at as int),
    {
        at < self.tokens.len() && at < numeric.len() && numeric[at]
    }

    /// A copy of the token at `at`.
    fn token(&self, at: usize) -> (r: String)
        requires
            at < self.tokens@.len(),
        ensures
            r@ == self@.tokens[at as int],
    {
        self.tokens[at].clone()
    }

    /// Copies of the tokens from `from` up to `to`.
    fn tokens_between(&self, from: usize, to: usize) -> (r: Vec<String>)
        requires
            from <= to <= self.tokens@.len(),
        ensures
            string_views(r@) == self@.tokens.subrange(from as int, to as int),
    {
        let mut out: Vec<String> = Vec::new();
        let mut i: usize = from;
        while i < to
            invariant
                from <= i <= to <= self.tokens@.len(),
                out@.len() == i - from,
                forall|j: int| 0 <= j < i - from ==> (#[trigger] out@[j])@ == self.tokens@[from + j]@,
            decreases to - i,
        {
            out.push(self.tokens[i].clone());
            i += 1;
        }
        assert(string_views(out@) =~= self@.tokens.subrange(from as int, to as int));
        out
    }

    /// Reads the statement at the cursor and passes it; see
    /// [`statement_at`]. `numeric` tells of each token whether it writes a
    /// number. Where no statement can be read, nothing is returned and the
    /// cursor stays.
    pub fn parse_statement(&mut self, numeric: &Vec<bool>) -> (r: Option<Statement>)
        ensures
            final(self)@.tokens == old(self)@.tokens,
            match statement_at(old(self)@.tokens, numeric@, old(self)@.cursor as int) {
                Some((statement, next)) => {
                    &&& r is Some
                    &&& r->Some_0@ == statement
                    &&& final(self)@.cursor == next
                },
                None => r is None && final(self)@.cursor == old(self)@.cursor,
            },
    {
        let at = self.cursor;
        let n = self.tokens.len();
        let ghost tokens = self@.tokens;
        proof {
            lemma_statement_bounded(tokens, numeric@, at as int);
        }
        if at >= n {
            return None;
        }
        assert(tokens[at as int] == self.tokens@[at as int]@);
        let keyword = to_lowercase(self.tokens[at].as_str());
        if keyword == "field".to_owned() {
            if !self.has(2) {
                return None;
            }
            let size = match parse_u64(&chars_of(self.tokens[at + 2].as_str())) {
                Some(size) => size,
                None => {
                    return None;
                },
            };
            if size > usize::MAX as u64 {
                return None;
            }
            let statement = Statement::Field { name: self.token(at + 1), size: size as usize };
            self.cursor = at + 3;
            return Some(statement);
        }
        if keyword == "interpretation".to_owned() {
            if !self.has(3) || !self.word_at(at + 2, "=") || !self.word_at(at + 3, "[") {
                return None;
            }
            let ghost from = at + 4;
            let mut end: usize = at + 4;
            let closing = "]".to_owned();
            while end < n && !(self.tokens[end] == closing) && self.number_at(numeric, end)
                invariant
                    n == self.tokens@.len(),
                    tokens == self@.tokens,
                    closing@ == "]"@,
                    at + 4 <= end <= n,
                    values_run(tokens, numeric@, at + 4) == (end - (at + 4)) + values_run(
                        tokens,
                        numeric@,
                        end as int,
                    ),
                decreases n - end,
            {
                assert(tokens[end as int] == self.tokens@[end as int]@);
                end += 1;
            }
            proof {
                if end < n {
                    assert(tokens[end as int] == self.tokens@[end as int]@);
                }
            }
            let statement = Statement::Interpretation {
                name: self.token(at + 1),
                values: self.tokens_between(at + 4, end),
            };
            if end < n && self.tokens[end] == closing {
                self.cursor = end + 1;
            } else {
                self.cursor = end;
            }
            return Some(statement);
        }
        if keyword == "project".to_owned() {
            if !self.has(11) || !self.word_at(at + 2, "<-") || !self.word_at(at + 4, "{")
                || !self.labelled_at(numeric, at + 5, "alpha:") || !self.labelled_at(
                numeric,
                at + 7,
                "noise:",
            ) || !self.labelled_at(numeric, at + 9, "steps:") || !self.word_at(at + 11, "}") {
                return None;
            }
            let statement = Statement::Project {
                target: self.token(at + 1),
                interp: self.token(at + 3),
                alpha: self.token(at + 6),
                noise: self.token(at + 8),
                steps: self.token(at + 10),
            };
            self.cursor = at + 12;
            return Some(statement);
        }
        if keyword == "trace".to_owned() {
            if !self.has(8) || !self.word_at(at + 2, "=") || !self.word_at(at + 4, "(")
                || !self.word_at(at + 6, ",") || !self.word_at(at + 8, ")") {
                return None;
            }
            let statement = Statement::TraceDistance {
                name: self.token(at + 1),
                field: self.token(at + 5),
                interp: self.token(at + 7),
            };
            self.cursor = at + 9;
            return Some(statement);
        }
        if keyword == "meaning".to_owned() {
            if !self.has(8) || !self.word_at(at + 2, "=") || !self.word_at(at + 4, "(")
                || !self.word_at(at + 6, ",") || !self.number_at(numeric, at + 7) || !self.word_at(
                at + 8,
                ")",
            ) {
                return None;
            }
            let statement = Statement::Meaning {
                name: self.token(at + 1),
                trace: self.token(at + 5),
                threshold: self.token(at + 7),
            };
            self.cursor = at + 9;
            return Some(statement);
        }
        if keyword == "narratereturn".to_owned() {
            let mut quote: Vec<char> = Vec::new();
            quote.push('"');
            assert(quote@ =~= seq!['"']);
            let mut items: Vec<String> = Vec::new();
            let mut end: usize = at + 1;
            let ghost read = |t: Seq<char>| unquoted(t);
            assert(string_views(items@) =~= tokens.subrange(at + 1, end as int).map_values(read));
            while end < n && starts_with(&chars_of(self.tokens[end].as_str()), &quote)
                invariant
                    n == self.tokens@.len(),
                    tokens == self@.tokens,
                    quote@ == seq!['"'],
                    read == |t: Seq<char>| unquoted(t),
                    at + 1 <= end <= n,
                    quoted_run(tokens, at + 1) == (end - (at + 1)) + quoted_run(tokens, end as int),
                    string_views(items@) == tokens.subrange(at + 1, end as int).map_values(read),
                decreases n - end,
            {
                assert(tokens[end as int] == self.tokens@[end as int]@);
                let ghost before = string_views(items@);
                let item = unquote(&self.tokens[end]);
                items.push(item);
                assert(string_views(items@) =~= before.push(unquoted(tokens[end as int])));
                assert(tokens.subrange(at + 1, end + 1) =~= tokens.subrange(
                    at + 1,
                    end as int,
                ).push(tokens[end as int]));
                end += 1;
                assert(string_views(items@) =~= tokens.subrange(at + 1, end as int).map_values(
                    read,
                ));
            }
            proof {
                if end < n {
                    assert(tokens[end as int] == self.tokens@[end as int]@);
                }
            }
            self.cursor = end;
            return Some(Statement::NarrateReturn { tokens: items });
        }
        if keyword == "logcoherence".to_owned() {
            if !self.has(1) {
                return None;
            }
            let statement = Statement::LogCoherence(self.token(at + 1));
            self.cursor = at + 2;
            return Some(statement);
        }
        if keyword == "logmeaning".to_owned() {
            if !self.has(1) {
                return None;
            }
            let statement = Statement::LogMeaning(self.token(at + 1));
            self.cursor = at + 2;
            return Some(statement);
        }
        if keyword == "expresssymbol".to_owned() {
            if !self.has(3) {
                return None;
            }
            let statement = Statement::ExpressSymbol {
                token: self.token(at + 1),
                into_field: self.token(at + 3),
            };
            self.cursor = at + 4;
            return Some(statement);
        }
        if keyword == "modulate".to_owned() {
            if !self.has(3) || !self.number_at(numeric, at + 3) {
                return None;
            }
            let statement = Statement::Modulate {
                token: self.token(at + 1),
                intensity: self.token(at + 3),
            };
            self.cursor = at + 4;
            return Some(statement);
        }
        None
    }

    /// Reads statements from the cursor on, until the tokens run out or no
    /// statement can be read; see [`statements_from`]. `numeric` tells of
    /// each token whether it writes a number.
    pub fn parse(&mut self, numeric: &Vec<bool>) -> (r: Vec<Statement>)
        ensures
            final(self)@.tokens == old(self)@.tokens,
            statement_views(r@) == statements_from(
                old(self)@.tokens,
                numeric@,
                old(self)@.cursor as int,
            ).0,
            final(self)@.cursor == statements_from(
                old(self)@.tokens,
                numeric@,
                old(self)@.cursor as int,
            ).1,
    {
        let ghost tokens = self@.tokens;
        let ghost total = statements_from(tokens, numeric@, self@.cursor as int);
        let mut statements: Vec<Statement> = Vec::new();
        assert(string_views(self.tokens@).len() == self.tokens@.len());
        assert(statement_views(statements@) + total.0 =~= total.0);
        loop
            invariant_except_break
                tokens == self@.tokens,
                self.tokens@.len() == tokens.len(),
                total.0 == statement_views(statements@) + statements_from(
                    tokens,
                    numeric@,
                    self@.cursor as int,
                ).0,
                total.1 == statements_from(tokens, numeric@, self@.cursor as int).1,
            ensures
                tokens == self@.tokens,
                total.0 == statement_views(statements@),
                total.1 == self@.cursor,
            decreases self.tokens@.len() - self.cursor,
        {
            let ghost at = self@.cursor as int;
            let ghost so_far = statement_views(statements@);
            proof {
                lemma_statement_bounded(tokens, numeric@, at);
            }
            match self.parse_statement(numeric) {
                Some(statement) => {
                    statements.push(statement);
                    proof {
                        let rest = statements_from(tokens, numeric@, self@.cursor as int);
                        assert(statement_views(statements@) =~= so_far.push(statement@));
                        assert(so_far + (seq![statement@] + rest.0) =~= so_far.push(statement@)
                            + rest.0);
                    }
                },
                None => {
                    assert(so_far + Seq::<StatementView>::empty() =~= so_far);
                    break;
                },
            }
        }
        statements
    }
}

} // verus!
