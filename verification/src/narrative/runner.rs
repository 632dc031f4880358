//! Running the blocks of a narrative script.
//!
//! Running a script changes a context (variables, macros, what each agent
//! remembers, the recursion index) and produces a log, one line for each
//! step taken. Nothing is printed here: the log is handed back.

use crate::interpretations::{clone_strings, string_views};
use crate::narrative::ast::{
    action_views, block_views, clone_actions, Action, ActionView, Block, BlockView,
};
use crate::scan::{
    before_first, char_views, has_prefix, split_at_first, split_once, split_whitespace,
    starts_with, string_of, trim, trimmed, words,
};
use crate::text::{chars_of, decimal, push_char, push_decimal};
use vstd::hash_map::StringHashMap;
use vstd::prelude::*;
use vstd::string::StringExecFns;

verus! {

/// How deep macro calls may nest. A call at the limit is logged and not
/// entered.
pub const MAX_MACRO_DEPTH: usize = 64;

/// How often the body of a `while` block runs at most.
pub const MAX_WHILE_ROUNDS: u32 = 1001;

/// Whether a character is a letter or a digit. It stands for what
/// `char::is_alphanumeric` returns.
pub uninterp spec fn is_alphanumeric_char(c: char) -> bool;

/// Whether a character is a letter or a digit.
///
/// Trusted: calls `char::is_alphanumeric`, which depends on the character
/// alone (it tests the Unicode properties `Alphabetic` and the general
/// categories of numbers); its result is named [`is_alphanumeric_char`].
#[verifier::external_body]
fn is_alphanumeric(c: char) -> (r: bool)
    ensures
        r == is_alphanumeric_char(c),
{
    c.is_alphanumeric()
}

/// Whether a character can stand in the name of a variable.
pub open spec fn is_name_char(c: char) -> bool {
    is_alphanumeric_char(c) || c == '_'
}

/// The number of characters at the start of a text that can stand in a name.
pub open spec fn name_run(s: Seq<char>) -> nat
    decreases s.len(),
{
    if s.len() > 0 && is_name_char(s[0]) {
        1 + name_run(s.skip(1))
    } else {
        0
    }
}

/// A run of name characters is never longer than the text.
pub proof fn lemma_name_run_bounded(s: Seq<char>)
    ensures
        name_run(s) <= s.len(),
    decreases s.len(),
{
    if s.len() > 0 && is_name_char(s[0]) {
        lemma_name_run_bounded(s.skip(1));
    }
}

/// A text with every reference `$name` replaced by the value of the
/// variable `name`. The name is the longest run of letters, digits and
/// underscores after the `$`; a reference to a variable that is not set is
/// kept as it is.
pub open spec fn expanded_vars(vars: Map<Seq<char>, Seq<char>>, text: Seq<char>) -> Seq<char>
    decreases text.len(),
{
    if text.len() == 0 {
        Seq::empty()
    } else if text[0] != '$' {
        seq![text[0]] + expanded_vars(vars, text.skip(1))
    } else {
        let rest = text.skip(1);
        let n = if name_run(rest) <= rest.len() {
            name_run(rest) as int
        } else {
            rest.len() as int
        };
        let name = rest.take(n);
        let value = if vars.contains_key(name) {
            vars[name]
        } else {
            seq!['$'] + name
        };
        value + expanded_vars(vars, rest.skip(n))
    }
}

/// What a condition comes to.
pub enum Verdict {
    Holds,
    Fails,
    /// The condition is of no known form, or names an agent that does not
    /// exist; it counts as failed.
    Unrecognized,
}

/// The verdict for a yes or no.
pub open spec fn verdict_of(yes: bool) -> Verdict {
    if yes {
        Verdict::Holds
    } else {
        Verdict::Fails
    }
}

/// The item that a condition `<agent> memory contains<item>` asks for: what
/// stands between the first `contains` and the next, or the end.
pub open spec fn contained_item(cond: Seq<char>) -> Option<Seq<char>> {
    match split_once(cond, "contains"@) {
        Some((before, after)) => Some(trim(before_first(after, "contains"@))),
        None => None,
    }
}

/// What a condition comes to, given what every agent remembers. The forms
/// are `always`, `<agent> knows <item>` and `<agent> memory contains<item>`.
pub open spec fn verdict(cond: Seq<char>, agents: Map<Seq<char>, Seq<Seq<char>>>) -> Verdict {
    let tokens = words(cond, Seq::empty());
    if cond == "always"@ {
        Verdict::Holds
    } else if tokens.len() == 3 && tokens[1] == "knows"@ && agents.contains_key(tokens[0]) {
        verdict_of(agents[tokens[0]].contains(tokens[2]))
    } else if tokens.len() == 3 && tokens[1] == "memory"@ && has_prefix(tokens[2], "contains"@)
        && agents.contains_key(tokens[0]) && contained_item(cond) is Some {
        verdict_of(agents[tokens[0]].contains(contained_item(cond)->Some_0))
    } else {
        Verdict::Unrecognized
    }
}

/// A macro as the context holds it.
pub struct DefinitionView {
    pub params: Seq<Seq<char>>,
    pub body: Seq<ActionView>,
}

/// What a script context is, as plain values.
pub struct ContextView {
    pub vars: Map<Seq<char>, Seq<char>>,
    pub macros: Map<Seq<char>, DefinitionView>,
    /// What each agent remembers, oldest first.
    pub agents: Map<Seq<char>, Seq<Seq<char>>>,
    pub tau: u64,
}

/// A context after some steps, and the lines those steps logged.
pub struct Run {
    pub ctx: ContextView,
    pub lines: Seq<Seq<char>>,
}

/// The lines that evaluating a condition logs: one, if the condition is not
/// recognized.
pub open spec fn verdict_lines(cond: Seq<char>, agents: Map<Seq<char>, Seq<Seq<char>>>) -> Seq<
    Seq<char>,
> {
    if verdict(cond, agents) is Unrecognized {
        seq!["Condition '"@ + cond + "' not recognized, default false."@]
    } else {
        Seq::empty()
    }
}

/// What an agent remembers once it has taken note of `item`; an agent that
/// did not exist comes to be.
pub open spec fn remembered(
    agents: Map<Seq<char>, Seq<Seq<char>>>,
    agent: Seq<char>,
    item: Seq<char>,
) -> Map<Seq<char>, Seq<Seq<char>>> {
    agents.insert(
        agent,
        if agents.contains_key(agent) {
            agents[agent].push(item)
        } else {
            seq![item]
        },
    )
}

/// The variables after the parameters from `from` on have been bound to
/// their arguments, one after the other; each argument is expanded with the
/// bindings made before it.
pub open spec fn bound(
    vars: Map<Seq<char>, Seq<char>>,
    params: Seq<Seq<char>>,
    args: Seq<Seq<char>>,
    from: int,
) -> Map<Seq<char>, Seq<char>>
    decreases params.len() - from,
{
    if 0 <= from < params.len() && from < args.len() {
        bound(vars.insert(params[from], expanded_vars(vars, args[from])), params, args, from + 1)
    } else {
        vars
    }
}

/// The context after one action, and what the action logged. Macro calls
/// may nest `depth` deep.
pub open spec fn after_action(action: ActionView, ctx: ContextView, depth: nat) -> Run
    decreases depth, action,
{
    match action {
        ActionView::Conditional(cond, inner) => {
            let noted = verdict_lines(cond, ctx.agents);
            if verdict(cond, ctx.agents) is Holds {
                let run = after_actions(inner, ctx, depth);
                Run {
                    ctx: run.ctx,
                    lines: noted + seq!["Condition '"@ + cond + "' passed."@] + run.lines,
                }
            } else {
                Run { ctx, lines: noted + seq!["Condition '"@ + cond + "' failed."@] }
            }
        },
        ActionView::CreateAgent { name, mem, coh } => Run {
            ctx: ContextView { agents: ctx.agents.insert(name, Seq::empty()), ..ctx },
            lines: seq![
                "Create agent "@ + name + " mem="@ + decimal(mem as nat) + " coh="@ + coh,
            ],
        },
        ActionView::VariableAssignment { name, value } => {
            let val = expanded_vars(ctx.vars, value);
            Run {
                ctx: ContextView { vars: ctx.vars.insert(name, val), ..ctx },
                lines: seq!["Set variable "@ + name + " = "@ + val],
            }
        },
        ActionView::Say { agent, token, pattern } => {
            let token = expanded_vars(ctx.vars, token);
            let pattern = expanded_vars(ctx.vars, pattern);
            Run {
                ctx: ContextView { agents: remembered(ctx.agents, agent, token), ..ctx },
                lines: seq![agent + " says: "@ + token + " → "@ + pattern],
            }
        },
        ActionView::Interpret { agent, token } => {
            let token = expanded_vars(ctx.vars, token);
            Run {
                ctx: ContextView { agents: remembered(ctx.agents, agent, token), ..ctx },
                lines: seq![agent + " interprets: "@ + token],
            }
        },
        ActionView::Project { agent, token } => Run {
            ctx,
            lines: seq![agent + " projects: "@ + expanded_vars(ctx.vars, token)],
        },
        ActionView::Tick(n) => Run {
            ctx: ContextView { tau: ((ctx.tau + n) % 0x1_0000_0000_0000_0000) as u64, ..ctx },
            lines: seq!["Advance τ by "@ + decimal(n as nat)],
        },
        ActionView::Assert(expr) => Run { ctx, lines: seq!["Assert: "@ + expr] },
        ActionView::Comment(text) => Run { ctx, lines: seq!["# "@ + text] },
        ActionView::MacroCall { name, args } => {
            if !ctx.macros.contains_key(name) {
                Run { ctx, lines: seq!["Macro '"@ + name + "' not found."@] }
            } else if ctx.macros[name].params.len() != args.len() {
                Run {
                    ctx,
                    lines: seq![
                        "Macro "@ + name + " expects "@ + decimal(ctx.macros[name].params.len())
                            + " arguments, got "@ + decimal(args.len()),
                    ],
                }
            } else if depth == 0 {
                Run { ctx, lines: seq!["Macro '"@ + name + "' is nested too deep."@] }
            } else {
                let inside = ContextView {
                    vars: bound(ctx.vars, ctx.macros[name].params, args, 0),
                    ..ctx
                };
                let run = after_actions(ctx.macros[name].body, inside, (depth - 1) as nat);
                Run { ctx: ContextView { vars: ctx.vars, ..run.ctx }, lines: run.lines }
            }
        },
    }
}

/// The context after a run of actions, one after the other, and what they
/// logged.
pub open spec fn after_actions(actions: Seq<ActionView>, ctx: ContextView, depth: nat) -> Run
    decreases depth, actions,
{
    if actions.len() == 0 {
        Run { ctx, lines: Seq::empty() }
    } else {
        let first = after_action(actions[0], ctx, depth);
        let rest = after_actions(actions.skip(1), first.ctx, depth);
        Run { ctx: rest.ctx, lines: first.lines + rest.lines }
    }
}

/// The context after the rounds of a `repeat` block from round `i` on, and
/// what they logged.
pub open spec fn repeat_rounds(
    i: nat,
    n: u32,
    actions: Seq<ActionView>,
    ctx: ContextView,
    depth: nat,
) -> Run
    decreases n - i,
{
    if i >= n {
        Run { ctx, lines: Seq::empty() }
    } else {
        let round = after_actions(actions, ctx, depth);
        let rest = repeat_rounds(i + 1, n, actions, round.ctx, depth);
        Run {
            ctx: rest.ctx,
            lines: seq!["Repeat iteration "@ + decimal(i + 1) + "/"@ + decimal(n as nat)]
                + round.lines + rest.lines,
        }
    }
}

/// The context after the rounds of a `while` block, `count` of which have
/// been taken, and what the further rounds logged. The block ends when its
/// condition no longer holds, and after [`MAX_WHILE_ROUNDS`] rounds at the
/// latest.
pub open spec fn while_rounds(
    count: nat,
    cond: Seq<char>,
    actions: Seq<ActionView>,
    ctx: ContextView,
    depth: nat,
) -> Run
    decreases MAX_WHILE_ROUNDS - count,
{
    if count >= MAX_WHILE_ROUNDS {
        Run { ctx, lines: Seq::empty() }
    } else if verdict(cond, ctx.agents) is Holds {
        let round = after_actions(actions, ctx, depth);
        let head = seq!["While iteration "@ + decimal(count + 1)] + round.lines;
        if count + 1 >= MAX_WHILE_ROUNDS {
            Run {
                ctx: round.ctx,
                lines: head + seq![
                    "Breaking infinite while loop: more than 1000 iterations."@,
                ],
            }
        } else {
            let rest = while_rounds(count + 1, cond, actions, round.ctx, depth);
            Run { ctx: rest.ctx, lines: head + rest.lines }
        }
    } else {
        Run { ctx, lines: verdict_lines(cond, ctx.agents) }
    }
}

/// The context after one block, and what the block logged. The definition
/// of a macro does nothing when it is run.
pub open spec fn after_block(block: BlockView, ctx: ContextView, depth: nat) -> Run {
    match block {
        BlockView::AtTau(tau, actions) => {
            let run = after_actions(actions, ContextView { tau, ..ctx }, depth);
            Run {
                ctx: run.ctx,
                lines: seq!["--- at τ="@ + decimal(tau as nat) + " ---"@] + run.lines,
            }
        },
        BlockView::Repeat(n, actions) => repeat_rounds(0, n, actions, ctx, depth),
        BlockView::While(cond, actions) => while_rounds(0, cond, actions, ctx, depth),
        BlockView::Parallel(actions) => {
            let run = after_actions(actions, ctx, depth);
            Run { ctx: run.ctx, lines: seq!["-- Parallel block --"@] + run.lines }
        },
        BlockView::MacroDef { name, params, body } => Run { ctx, lines: Seq::empty() },
    }
}

/// The context after a run of blocks, one after the other, and what they
/// logged.
pub open spec fn after_blocks(blocks: Seq<BlockView>, ctx: ContextView, depth: nat) -> Run
    decreases blocks.len(),
{
    if blocks.len() == 0 {
        Run { ctx, lines: Seq::empty() }
    } else {
        let first = after_block(blocks[0], ctx, depth);
        let rest = after_blocks(blocks.skip(1), first.ctx, depth);
        Run { ctx: rest.ctx, lines: first.lines + rest.lines }
    }
}

/// The macros once every definition among the blocks has been registered,
/// a later definition of a name in place of an earlier one.
pub open spec fn registered(
    blocks: Seq<BlockView>,
    macros: Map<Seq<char>, DefinitionView>,
) -> Map<Seq<char>, DefinitionView>
    decreases blocks.len(),
{
    if blocks.len() == 0 {
        macros
    } else {
        let before = registered(blocks.drop_last(), macros);
        match blocks.last() {
            BlockView::MacroDef { name, params, body } => before.insert(
                name,
                DefinitionView { params, body },
            ),
            _ => before,
        }
    }
}

/// The context after a whole script, and its log: first every macro is
/// registered, then the blocks are run in order.
pub open spec fn after_script(blocks: Seq<BlockView>, ctx: ContextView) -> Run {
    after_blocks(
        blocks,
        ContextView { macros: registered(blocks, ctx.macros), ..ctx },
        MAX_MACRO_DEPTH as nat,
    )
}

/// The texts of a sequence of pairs of strings.
pub open spec fn pair_views(entries: Seq<(String, String)>) -> Seq<(Seq<char>, Seq<char>)> {
    entries.map_values(|e: (String, String)| (e.0@, e.1@))
}

/// The map that a history of bindings stands for: of two bindings of one
/// name the later counts.
pub open spec fn bindings_map(entries: Seq<(Seq<char>, Seq<char>)>) -> Map<Seq<char>, Seq<char>>
    decreases entries.len(),
{
    if entries.len() == 0 {
        Map::empty()
    } else {
        bindings_map(entries.drop_last()).insert(entries.last().0, entries.last().1)
    }
}

/// The last binding of a name is the one the map holds; a name that was
/// never bound is not in the map.
pub proof fn lemma_bindings_lookup(entries: Seq<(Seq<char>, Seq<char>)>, name: Seq<char>, i: int)
    requires
        0 <= i <= entries.len(),
        forall|j: int| i <= j < entries.len() ==> (#[trigger] entries[j]).0 != name,
        i > 0 ==> entries[i - 1].0 == name,
    ensures
        i > 0 ==> bindings_map(entries).contains_key(name) && bindings_map(entries)[name]
            == entries[i - 1].1,
        i == 0 ==> !bindings_map(entries).contains_key(name),
    decreases entries.len(),
{
    if entries.len() > 0 {
        if i < entries.len() {
            assert(entries[entries.len() - 1].0 != name);
            lemma_bindings_lookup(entries.drop_last(), name, i);
        }
    }
}

/// The variables of a script: a map from name to value.
#[derive(Debug)]
pub struct Bindings {
    entries: Vec<(String, String)>,
}

impl View for Bindings {
    type V = Map<Seq<char>, Seq<char>>;

    closed spec fn view(&self) -> Map<Seq<char>, Seq<char>> {
        bindings_map(pair_views(self.entries@))
    }
}

impl Clone for Bindings {
    fn clone(&self) -> (r: Bindings)
        ensures
            r@ == self@,
    {
        let mut entries: Vec<(String, String)> = Vec::new();
        let mut i: usize = 0;
        while i < self.entries.len()
            invariant
                i <= self.entries@.len(),
                entries@.len() == i,
                forall|j: int|
                    0 <= j < i ==> (#[trigger] entries@[j]).0@ == self.entries@[j].0@
                        && entries@[j].1@ == self.entries@[j].1@,
            decreases self.entries@.len() - i,
        {
            entries.push((self.entries[i].0.clone(), self.entries[i].1.clone()));
            i += 1;
        }
        assert(pair_views(entries@) =~= pair_views(self.entries@));
        Bindings { entries }
    }
}

impl Default for Bindings {
    fn default() -> (r: Bindings)
        ensures
            r@ == Map::<Seq<char>, Seq<char>>::empty(),
    {
        Bindings::new()
    }
}

impl Bindings {
    /// No variables.
    pub fn new() -> (r: Bindings)
        ensures
            r@ == Map::<Seq<char>, Seq<char>>::empty(),
    {
        let r = Bindings { entries: Vec::new() };
        assert(pair_views(r.entries@) =~= Seq::empty());
        r
    }

    /// The value of the variable `name`, if it is set.
    pub fn get(&self, name: &str) -> (r: Option<&String>)
        ensures
            r is Some <==> self@.contains_key(name@),
            r matches Some(value) ==> value@ == self@[name@],
    {
        let ghost pairs = pair_views(self.entries@);
        let key = name.to_owned();
        let mut i: usize = self.entries.len();
        while i > 0
            invariant
                i <= self.entries@.len(),
                key@ == name@,
                pairs == pair_views(self.entries@),
                forall|j: int| i <= j < pairs.len() ==> (#[trigger] pairs[j]).0 != name@,
            decreases i,
        {
            if self.entries[i - 1].0 == key {
                proof {
                    assert(pairs[i - 1].0 == name@);
                    lemma_bindings_lookup(pairs, name@, i as int);
                }
                return Some(&self.entries[i - 1].1);
            }
            assert(pairs[i - 1].0 != name@);
            i -= 1;
        }
        proof {
            lemma_bindings_lookup(pairs, name@, 0);
        }
        None
    }

    /// Sets the variable `name` to `value`, in place of any value it had.
    pub fn insert(&mut self, name: String, value: String)
        ensures
            final(self)@ == old(self)@.insert(name@, value@),
    {
        let ghost before = pair_views(self.entries@);
        self.entries.push((name, value));
        assert(pair_views(self.entries@).drop_last() =~= before);
    }
}

/// What a script knows of one agent: the tokens it has said or interpreted,
/// oldest first.
#[derive(Debug)]
pub struct AgentState {
    pub memory: Vec<String>,
}

impl Default for AgentState {
    fn default() -> (r: AgentState)
        ensures
            r.memory@.len() == 0,
    {
        AgentState { memory: Vec::new() }
    }
}

impl Clone for AgentState {
    fn clone(&self) -> (r: AgentState)
        ensures
            string_views(r.memory@) == string_views(self.memory@),
    {
        AgentState { memory: clone_strings(&self.memory) }
    }
}

/// The state that a script runs in.
pub struct ScriptContext {
    pub vars: Bindings,
    /// Each macro by name: its parameters and its body.
    pub macros: StringHashMap<(Vec<String>, Vec<Action>)>,
    pub agents: StringHashMap<AgentState>,
    /// The recursion index.
    pub tau: u64,
}

/// The macros of a context, as plain values.
pub open spec fn definition_views(
    macros: Map<Seq<char>, (Vec<String>, Vec<Action>)>,
) -> Map<Seq<char>, DefinitionView> {
    macros.map_values(
        |d: (Vec<String>, Vec<Action>)|
            DefinitionView { params: string_views(d.0@), body: action_views(d.1@) },
    )
}

/// What the agents of a context remember, as plain values.
pub open spec fn memory_views(agents: Map<Seq<char>, AgentState>) -> Map<
    Seq<char>,
    Seq<Seq<char>>,
> {
    agents.map_values(|a: AgentState| string_views(a.memory@))
}

impl View for ScriptContext {
    type V = ContextView;

    open spec fn view(&self) -> ContextView {
        ContextView {
            vars: self.vars@,
            macros: definition_views(self.macros@),
            agents: memory_views(self.agents@),
            tau: self.tau,
        }
    }
}

impl Default for ScriptContext {
    fn default() -> (r: ScriptContext)
        ensures
            r@ == (ContextView {
                vars: Map::empty(),
                macros: Map::empty(),
                agents: Map::empty(),
                tau: 0,
            }),
    {
        let r = ScriptContext {
            vars: Bindings::new(),
            macros: StringHashMap::new(),
            agents: StringHashMap::new(),
            tau: 0,
        };
        assert(r@.macros =~= Map::empty());
        assert(r@.agents =~= Map::empty());
        r
    }
}

/// Replaces every reference `$name` in `text` by the value of the variable
/// `name`; see [`expanded_vars`].
pub fn expand_vars(text: &str, vars: &Bindings) -> (r: String)
    ensures
        r@ == expanded_vars(vars@, text@),
{
    let chars = chars_of(text);
    let n = chars.len();
    let mut out = String::new();
    let mut i: usize = 0;
    assert(chars@.skip(0) =~= chars@);
    assert(out@ + expanded_vars(vars@, chars@) =~= expanded_vars(vars@, chars@));
    while i < n
        invariant
            n == chars@.len(),
            i <= n,
            out@ + expanded_vars(vars@, chars@.skip(i as int)) == expanded_vars(vars@, chars@),
        decreases n - i,
    {
        let ghost here = chars@.skip(i as int);
        let ghost out_here = out@;
        let c = chars[i];
        i += 1;
        if c == '$' {
            let ghost rest = here.skip(1);
            let start = i;
            let mut name = String::new();
            proof {
                lemma_name_run_bounded(rest);
            }
            assert(rest.skip(0) =~= rest);
            assert(name@ =~= rest.take(0));
            while i < n && (is_alphanumeric(chars[i]) || chars[i] == '_')
                invariant
                    n == chars@.len(),
                    start <= i <= n,
                    rest == chars@.skip(start as int),
                    name@ == rest.take(i - start),
                    name_run(rest) == (i - start) + name_run(rest.skip(i - start)),
                decreases n - i,
            {
                proof {
                    assert(rest.skip(i - start)[0] == chars@[i as int]);
                    assert(rest.skip(i - start).skip(1) =~= rest.skip(i + 1 - start));
                }
                push_char(&mut name, chars[i]);
                i += 1;
                assert(name@ =~= rest.take(i - start));
            }
            proof {
                assert(rest =~= chars@.skip(start as int));
                if i < n {
                    assert(rest.skip(i - start)[0] == chars@[i as int]);
                }
                assert(name_run(rest) == i - start);
                assert(rest.skip(i - start) =~= chars@.skip(i as int));
            }
            match vars.get(name.as_str()) {
                Some(value) => {
                    out.append(value.as_str());
                },
                None => {
                    push_char(&mut out, '$');
                    out.append(name.as_str());
                },
            }
            assert(out@ + expanded_vars(vars@, chars@.skip(i as int)) =~= out_here + expanded_vars(
                vars@,
                here,
            ));
        } else {
            push_char(&mut out, c);
            assert(chars@.skip(i as int) =~= here.skip(1));
            assert(out@ + expanded_vars(vars@, chars@.skip(i as int)) =~= out_here + expanded_vars(
                vars@,
                here,
            ));
        }
    }
    assert(out@ =~= out@ + expanded_vars(vars@, chars@.skip(i as int)));
    out
}

/// Whether `memory` holds `item`.
fn holds(memory: &Vec<String>, item: &String) -> (r: bool)
    ensures
        r == string_views(memory@).contains(item@),
{
    let mut i: usize = 0;
    while i < memory.len()
        invariant
            i <= memory@.len(),
            forall|j: int| 0 <= j < i ==> string_views(memory@)[j] != item@,
        decreases memory@.len() - i,
    {
        if memory[i] == *item {
            assert(string_views(memory@)[i as int] == item@);
            return true;
        }
        i += 1;
    }
    false
}

/// The verdict for a yes or no.
fn verdict_from(yes: bool) -> (r: Verdict)
    ensures
        r == verdict_of(yes),
{
    if yes {
        Verdict::Holds
    } else {
        Verdict::Fails
    }
}

/// What a condition comes to in a context; see [`verdict`].
pub fn eval_condition(cond: &str, ctx: &ScriptContext) -> (r: Verdict)
    ensures
        r == verdict(cond@, ctx@.agents),
{
    if cond.to_owned() == "always".to_owned() {
        return Verdict::Holds;
    }
    let chars = chars_of(cond);
    let tokens = split_whitespace(&chars);
    if tokens.len() == 3 {
        assert(char_views(tokens@)[0] == tokens@[0]@);
        assert(char_views(tokens@)[1] == tokens@[1]@);
        assert(char_views(tokens@)[2] == tokens@[2]@);
        let agent = string_of(&tokens[0]);
        let verb = string_of(&tokens[1]);
        match ctx.agents.get(agent.as_str()) {
            Some(state) => {
                if verb == "knows".to_owned() {
                    return verdict_from(holds(&state.memory, &string_of(&tokens[2])));
                }
                if verb == "memory".to_owned() && starts_with(&tokens[2], &chars_of("contains")) {
                    match split_at_first(&chars, &chars_of("contains")) {
                        Some((before, after)) => {
                            let item = match split_at_first(&after, &chars_of("contains")) {
                                Some((first, more)) => first,
                                None => after,
                            };
                            return verdict_from(holds(&state.memory, &string_of(&trimmed(&item))));
                        },
                        None => {},
                    }
                }
            },
            None => {},
        }
    }
    Verdict::Unrecognized
}

/// Appends one line to a log.
fn note(log: &mut Vec<String>, line: String)
    ensures
        string_views(final(log)@) == string_views(old(log)@) + seq![line@],
{
    log.push(line);
    assert(string_views(log@) =~= string_views(old(log)@) + seq![line@]);
}

/// Has an agent take note of `item`; an agent that did not exist comes to
/// be.
fn remember(ctx: &mut ScriptContext, agent: &String, item: String)
    ensures
        final(ctx)@ == (ContextView {
            agents: remembered(old(ctx)@.agents, agent@, item@),
            ..old(ctx)@
        }),
{
    let mut memory = match ctx.agents.get(agent.as_str()) {
        Some(state) => clone_strings(&state.memory),
        None => Vec::new(),
    };
    let ghost before = string_views(memory@);
    memory.push(item);
    assert(string_views(memory@) =~= before.push(item@));
    proof {
        if !old(ctx)@.agents.contains_key(agent@) {
            assert(before =~= Seq::empty());
            assert(before.push(item@) =~= seq![item@]);
        }
    }
    ctx.agents.insert(agent.clone(), AgentState { memory });
    assert(ctx@.agents =~= remembered(old(ctx)@.agents, agent@, item@));
}

/// Logs what evaluating a condition logs, and gives the verdict.
fn judge(cond: &String, ctx: &ScriptContext, log: &mut Vec<String>) -> (r: Verdict)
    ensures
        r == verdict(cond@, ctx@.agents),
        string_views(final(log)@) == string_views(old(log)@) + verdict_lines(cond@, ctx@.agents),
{
    let r = eval_condition(cond.as_str(), ctx);
    match r {
        Verdict::Unrecognized => {
            let mut line = "Condition '".to_owned();
            line.append(cond.as_str());
            line.append("' not recognized, default false.");
            note(log, line);
        },
        _ => {
            assert(string_views(log@) =~= string_views(old(log)@) + Seq::<Seq<char>>::empty());
        },
    }
    r
}

/// Whether a context and a log are what a run leaves behind.
pub open spec fn follows(
    ctx: ContextView,
    log: Seq<Seq<char>>,
    before: Seq<Seq<char>>,
    run: Run,
) -> bool {
    ctx == run.ctx && log == before + run.lines
}

/// Runs one action; see [`after_action`]. What it logs is appended to
/// `log`.
pub fn execute_action(
    action: &Action,
    ctx: &mut ScriptContext,
    depth: usize,
    log: &mut Vec<String>,
)
    ensures
        follows(
            final(ctx)@,
            string_views(final(log)@),
            string_views(old(log)@),
            after_action(action@, old(ctx)@, depth as nat),
        ),
    decreases depth, action,
{
    let ghost before = string_views(log@);
    match action {
        Action::Conditional(cond, inner) => {
            assert(action@->Conditional_1 =~= action_views(inner@));
            let verdict = judge(cond, ctx, log);
            let mut line = "Condition '".to_owned();
            line.append(cond.as_str());
            match verdict {
                Verdict::Holds => {
                    line.append("' passed.");
                    note(log, line);
                    let ghost noted = string_views(log@);
                    execute_actions(inner, ctx, depth, log);
                    proof {
                        let run = after_actions(action_views(inner@), old(ctx)@, depth as nat);
                        assert(string_views(log@) =~= before + (verdict_lines(
                            cond@,
                            old(ctx)@.agents,
                        ) + seq!["Condition '"@ + cond@ + "' passed."@] + run.lines));
                    }
                },
                _ => {
                    line.append("' failed.");
                    note(log, line);
                    assert(string_views(log@) =~= before + (verdict_lines(cond@, old(ctx)@.agents)
                        + seq!["Condition '"@ + cond@ + "' failed."@]));
                },
            }
        },
        Action::CreateAgent { name, mem, coh } => {
            let mut line = "Create agent ".to_owned();
            line.append(name.as_str());
            line.append(" mem=");
            push_decimal(&mut line, *mem as u128);
            line.append(" coh=");
            line.append(coh.as_str());
            note(log, line);
            let fresh = AgentState { memory: Vec::new() };
            assert(string_views(fresh.memory@) =~= Seq::<Seq<char>>::empty());
            ctx.agents.insert(name.clone(), fresh);
            assert(ctx@.agents =~= old(ctx)@.agents.insert(name@, Seq::empty()));
        },
        Action::VariableAssignment { name, value } => {
            let val = expand_vars(value.as_str(), &ctx.vars);
            let mut line = "Set variable ".to_owned();
            line.append(name.as_str());
            line.append(" = ");
            line.append(val.as_str());
            note(log, line);
            ctx.vars.insert(name.clone(), val);
        },
        Action::Say { agent, token, pattern } => {
            let token = expand_vars(token.as_str(), &ctx.vars);
            let pattern = expand_vars(pattern.as_str(), &ctx.vars);
            let mut line = agent.clone();
            line.append(" says: ");
            line.append(token.as_str());
            line.append(" → ");
            line.append(pattern.as_str());
            note(log, line);
            remember(ctx, agent, token);
        },
        Action::Interpret { agent, token } => {
            let token = expand_vars(token.as_str(), &ctx.vars);
            let mut line = agent.clone();
            line.append(" interprets: ");
            line.append(token.as_str());
            note(log, line);
            remember(ctx, agent, token);
        },
        Action::Project { agent, token } => {
            let token = expand_vars(token.as_str(), &ctx.vars);
            let mut line = agent.clone();
            line.append(" projects: ");
            line.append(token.as_str());
            note(log, line);
        },
        Action::Tick(n) => {
            let mut line = "Advance τ by ".to_owned();
            push_decimal(&mut line, *n as u128);
            note(log, line);
            ctx.tau = ctx.tau.wrapping_add(*n as u64);
        },
        Action::Assert(expr) => {
            let mut line = "Assert: ".to_owned();
            line.append(expr.as_str());
            note(log, line);
        },
        Action::Comment(text) => {
            let mut line = "# ".to_owned();
            line.append(text.as_str());
            note(log, line);
        },
        Action::MacroCall { name, args } => {
            let found = match ctx.macros.get(name.as_str()) {
                Some(definition) => Some(
                    (clone_strings(&definition.0), clone_actions(&definition.1)),
                ),
                None => None,
            };
            match found {
                None => {
                    let mut line = "Macro '".to_owned();
                    line.append(name.as_str());
                    line.append("' not found.");
                    note(log, line);
                },
                Some((params, body)) => {
                    assert(string_views(params@).len() == params@.len());
                    assert(string_views(args@).len() == args@.len());
                    if params.len() != args.len() {
                        let mut line = "Macro ".to_owned();
                        line.append(name.as_str());
                        line.append(" expects ");
                        push_decimal(&mut line, params.len() as u128);
                        line.append(" arguments, got ");
                        push_decimal(&mut line, args.len() as u128);
                        note(log, line);
                    } else if depth == 0 {
                        let mut line = "Macro '".to_owned();
                        line.append(name.as_str());
                        line.append("' is nested too deep.");
                        note(log, line);
                    } else {
                        let saved = ctx.vars.clone();
                        let ghost names = string_views(params@);
                        let ghost values = string_views(args@);
                        let mut i: usize = 0;
                        while i < params.len()
                            invariant
                                i <= params@.len(),
                                params@.len() == args@.len(),
                                names == string_views(params@),
                                values == string_views(args@),
                                ctx.macros == old(ctx).macros,
                                ctx.agents == old(ctx).agents,
                                ctx.tau == old(ctx).tau,
                                bound(ctx.vars@, names, values, i as int) == bound(
                                    old(ctx).vars@,
                                    names,
                                    values,
                                    0,
                                ),
                            decreases params@.len() - i,
                        {
                            let value = expand_vars(args[i].as_str(), &ctx.vars);
                            ctx.vars.insert(params[i].clone(), value);
                            i += 1;
                        }
                        execute_actions(&body, ctx, depth - 1, log);
                        ctx.vars = saved;
                    }
                },
            }
        },
    }
}

/// Runs actions one after the other; see [`after_actions`].
pub fn execute_actions(
    actions: &Vec<Action>,
    ctx: &mut ScriptContext,
    depth: usize,
    log: &mut Vec<String>,
)
    ensures
        follows(
            final(ctx)@,
            string_views(final(log)@),
            string_views(old(log)@),
            after_actions(action_views(actions@), old(ctx)@, depth as nat),
        ),
    decreases depth, actions,
{
    let ghost views = action_views(actions@);
    let ghost before = string_views(log@);
    let ghost total = after_actions(views, ctx@, depth as nat);
    let mut i: usize = 0;
    assert(views.skip(0) =~= views);
    assert(before + total.lines =~= string_views(log@) + total.lines);
    while i < actions.len()
        invariant
            i <= actions@.len(),
            views == action_views(actions@),
            total.ctx == after_actions(views.skip(i as int), ctx@, depth as nat).ctx,
            before + total.lines == string_views(log@) + after_actions(
                views.skip(i as int),
                ctx@,
                depth as nat,
            ).lines,
        decreases actions@.len() - i,
    {
        let ghost here = views.skip(i as int);
        let ghost ctx_here = ctx@;
        let ghost log_here = string_views(log@);
        proof {
            assert(here[0] == actions@[i as int]@);
            assert(here.skip(1) =~= views.skip(i + 1));
        }
        execute_action(&actions[i], ctx, depth, log);
        proof {
            let first = after_action(here[0], ctx_here, depth as nat);
            let rest = after_actions(here.skip(1), first.ctx, depth as nat);
            assert(log_here + (first.lines + rest.lines) =~= (log_here + first.lines) + rest.lines);
        }
        i += 1;
    }
    assert(views.skip(i as int) =~= Seq::<ActionView>::empty());
    assert(string_views(log@) + Seq::<Seq<char>>::empty() =~= string_views(log@));
}

/// Runs one block; see [`after_block`]. What it logs is appended to `log`.
pub fn execute_block(block: &Block, ctx: &mut ScriptContext, depth: usize, log: &mut Vec<String>)
    ensures
        follows(
            final(ctx)@,
            string_views(final(log)@),
            string_views(old(log)@),
            after_block(block@, old(ctx)@, depth as nat),
        ),
{
    let ghost before = string_views(log@);
    match block {
        Block::AtTau(tau, actions) => {
            ctx.tau = *tau;
            let mut line = "--- at τ=".to_owned();
            push_decimal(&mut line, *tau as u128);
            line.append(" ---");
            note(log, line);
            execute_actions(actions, ctx, depth, log);
            proof {
                let run = after_actions(
                    action_views(actions@),
                    ContextView { tau: *tau, ..old(ctx)@ },
                    depth as nat,
                );
                assert(string_views(log@) =~= before + (seq![
                    "--- at τ="@ + decimal(*tau as nat) + " ---"@,
                ] + run.lines));
            }
        },
        Block::Repeat(n, actions) => {
            let ghost views = action_views(actions@);
            let ghost total = repeat_rounds(0, *n, views, ctx@, depth as nat);
            let mut i: u32 = 0;
            assert(before + total.lines =~= string_views(log@) + total.lines);
            while i < *n
                invariant
                    i <= *n,
                    views == action_views(actions@),
                    total.ctx == repeat_rounds(i as nat, *n, views, ctx@, depth as nat).ctx,
                    before + total.lines == string_views(log@) + repeat_rounds(
                        i as nat,
                        *n,
                        views,
                        ctx@,
                        depth as nat,
                    ).lines,
                decreases *n - i,
            {
                let ghost ctx_here = ctx@;
                let ghost log_here = string_views(log@);
                let mut line = "Repeat iteration ".to_owned();
                push_decimal(&mut line, i as u128 + 1);
                line.append("/");
                push_decimal(&mut line, *n as u128);
                note(log, line);
                execute_actions(actions, ctx, depth, log);
                proof {
                    let head = seq![
                        "Repeat iteration "@ + decimal((i + 1) as nat) + "/"@ + decimal(*n as nat),
                    ];
                    let round = after_actions(views, ctx_here, depth as nat);
                    let rest = repeat_rounds((i + 1) as nat, *n, views, round.ctx, depth as nat);
                    assert(log_here + (head + round.lines + rest.lines) =~= ((log_here + head)
                        + round.lines) + rest.lines);
                }
                i += 1;
            }
            assert(string_views(log@) + Seq::<Seq<char>>::empty() =~= string_views(log@));
        },
        Block::While(cond, actions) => {
            let ghost views = action_views(actions@);
            let ghost total = while_rounds(0, cond@, views, ctx@, depth as nat);
            let mut count: u32 = 0;
            assert(before + total.lines =~= string_views(log@) + total.lines);
            loop
                invariant_except_break
                    count < MAX_WHILE_ROUNDS,
                    views == action_views(actions@),
                    total.ctx == while_rounds(count as nat, cond@, views, ctx@, depth as nat).ctx,
                    before + total.lines == string_views(log@) + while_rounds(
                        count as nat,
                        cond@,
                        views,
                        ctx@,
                        depth as nat,
                    ).lines,
                ensures
                    total.ctx == ctx@,
                    before + total.lines == string_views(log@),
                decreases MAX_WHILE_ROUNDS - count,
            {
                let ghost ctx_here = ctx@;
                let ghost log_here = string_views(log@);
                let verdict = judge(cond, ctx, log);
                match verdict {
                    Verdict::Holds => {},
                    _ => {
                        break;
                    },
                }
                let mut line = "While iteration ".to_owned();
                push_decimal(&mut line, count as u128 + 1);
                note(log, line);
                execute_actions(actions, ctx, depth, log);
                let ghost round = after_actions(views, ctx_here, depth as nat);
                let ghost head = seq!["While iteration "@ + decimal((count + 1) as nat)]
                    + round.lines;
                assert(string_views(log@) =~= log_here + head);
                count += 1;
                if count > 1000 {
                    note(log, "Breaking infinite while loop: more than 1000 iterations.".to_owned());
                    assert(string_views(log@) =~= log_here + (head + seq![
                        "Breaking infinite while loop: more than 1000 iterations."@,
                    ]));
                    break;
                }
                proof {
                    let rest = while_rounds(count as nat, cond@, views, round.ctx, depth as nat);
                    assert(log_here + (head + rest.lines) =~= (log_here + head) + rest.lines);
                }
            }
        },
        Block::Parallel(actions) => {
            note(log, "-- Parallel block --".to_owned());
            execute_actions(actions, ctx, depth, log);
            proof {
                let run = after_actions(action_views(actions@), old(ctx)@, depth as nat);
                assert(string_views(log@) =~= before + (seq!["-- Parallel block --"@]
                    + run.lines));
            }
        },
        Block::MacroDef { name, params, body } => {
            assert(string_views(log@) =~= before + Seq::<Seq<char>>::empty());
        },
    }
}

/// Runs a script: registers every macro that the blocks define, then runs
/// the blocks in order, and returns the log; see [`after_script`]. Macro
/// calls may nest [`MAX_MACRO_DEPTH`] deep.
pub fn execute_script(blocks: &Vec<Block>, ctx: &mut ScriptContext) -> (log: Vec<String>)
    ensures
        final(ctx)@ == after_script(block_views(blocks@), old(ctx)@).ctx,
        string_views(log@) == after_script(block_views(blocks@), old(ctx)@).lines,
{
    let ghost views = block_views(blocks@);
    let mut i: usize = 0;
    assert(views.take(0) =~= Seq::<BlockView>::empty());
    while i < blocks.len()
        invariant
            i <= blocks@.len(),
            views == block_views(blocks@),
            ctx.vars == old(ctx).vars,
            ctx.agents == old(ctx).agents,
            ctx.tau == old(ctx).tau,
            ctx@.macros == registered(views.take(i as int), old(ctx)@.macros),
        decreases blocks@.len() - i,
    {
        proof {
            assert(views.take(i + 1).drop_last() =~= views.take(i as int));
            assert(views.take(i + 1).last() == blocks@[i as int]@);
        }
        match &blocks[i] {
            Block::MacroDef { name, params, body } => {
                let ghost before = ctx@.macros;
                ctx.macros.insert(name.clone(), (clone_strings(params), clone_actions(body)));
                assert(ctx@.macros =~= before.insert(
                    name@,
                    DefinitionView { params: string_views(params@), body: action_views(body@) },
                ));
            },
            _ => {},
        }
        i += 1;
    }
    assert(views.take(i as int) =~= views);
    let ghost start = ctx@;
    let ghost total = after_blocks(views, start, MAX_MACRO_DEPTH as nat);
    let mut log: Vec<String> = Vec::new();
    let mut k: usize = 0;
    assert(views.skip(0) =~= views);
    assert(string_views(log@) =~= Seq::<Seq<char>>::empty());
    assert(total.lines =~= string_views(log@) + total.lines);
    while k < blocks.len()
        invariant
            k <= blocks@.len(),
            views == block_views(blocks@),
            total.ctx == after_blocks(views.skip(k as int), ctx@, MAX_MACRO_DEPTH as nat).ctx,
            total.lines == string_views(log@) + after_blocks(
                views.skip(k as int),
                ctx@,
                MAX_MACRO_DEPTH as nat,
            ).lines,
        decreases blocks@.len() - k,
    {
        let ghost here = views.skip(k as int);
        let ghost ctx_here = ctx@;
        let ghost log_here = string_views(log@);
        proof {
            assert(here[0] == blocks@[k as int]@);
            assert(here.skip(1) =~= views.skip(k + 1));
        }
        execute_block(&blocks[k], ctx, MAX_MACRO_DEPTH, &mut log);
        proof {
            let first = after_block(here[0], ctx_here, MAX_MACRO_DEPTH as nat);
            let rest = after_blocks(here.skip(1), first.ctx, MAX_MACRO_DEPTH as nat);
            assert(log_here + (first.lines + rest.lines) =~= (log_here + first.lines) + rest.lines);
        }
        k += 1;
    }
    assert(views.skip(k as int) =~= Seq::<BlockView>::empty());
    assert(string_views(log@) + Seq::<Seq<char>>::empty() =~= string_views(log@));
    log
}

} // verus!
