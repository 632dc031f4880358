//! The syntax tree of a narrative script.

use crate::interpretations::{clone_strings, string_views};
use vstd::prelude::*;

verus! {

/// One step of a script.
#[derive(Debug)]
pub enum Action {
    /// Steps that are taken only if a condition holds.
    Conditional(String, Vec<Action>),
    /// The making of an agent; `coh` is the coherence threshold as the
    /// script writes it.
    CreateAgent { name: String, mem: u32, coh: String },
    /// A call of a macro with arguments.
    MacroCall { name: String, args: Vec<String> },
    VariableAssignment { name: String, value: String },
    Say { agent: String, token: String, pattern: String },
    Interpret { agent: String, token: String },
    Project { agent: String, token: String },
    Tick(u32),
    Assert(String),
    Comment(String),
}

/// What an [`Action`] is, as plain values.
pub enum ActionView {
    Conditional(Seq<char>, Seq<ActionView>),
    CreateAgent { name: Seq<char>, mem: u32, coh: Seq<char> },
    MacroCall { name: Seq<char>, args: Seq<Seq<char>> },
    VariableAssignment { name: Seq<char>, value: Seq<char> },
    Say { agent: Seq<char>, token: Seq<char>, pattern: Seq<char> },
    Interpret { agent: Seq<char>, token: Seq<char> },
    Project { agent: Seq<char>, token: Seq<char> },
    Tick(u32),
    Assert(Seq<char>),
    Comment(Seq<char>),
}

impl Action {
    /// The action and every action inside it, as plain values.
    pub open spec fn model(&self) -> ActionView
        decreases self,
    {
        match self {
            Action::Conditional(cond, actions) => ActionView::Conditional(
                cond@,
                Seq::new(
                    actions@.len(),
                    |i: int|
                        if 0 <= i < actions@.len() {
                            actions@[i].model()
                        } else {
                            arbitrary()
                        },
                ),
            ),
            Action::CreateAgent { name, mem, coh } => ActionView::CreateAgent {
                name: name@,
                mem: *mem,
                coh: coh@,
            },
            Action::MacroCall { name, args } => ActionView::MacroCall {
                name: name@,
                args: string_views(args@),
            },
            Action::VariableAssignment { name, value } => ActionView::VariableAssignment {
                name: name@,
                value: value@,
            },
            Action::Say { agent, token, pattern } => ActionView::Say {
                agent: agent@,
                token: token@,
                pattern: pattern@,
            },
            Action::Interpret { agent, token } => ActionView::Interpret {
                agent: agent@,
                token: token@,
            },
            Action::Project { agent, token } => ActionView::Project {
                agent: agent@,
                token: token@,
            },
            Action::Tick(n) => ActionView::Tick(*n),
            Action::Assert(text) => ActionView::Assert(text@),
            Action::Comment(text) => ActionView::Comment(text@),
        }
    }
}

impl View for Action {
    type V = ActionView;

    open spec fn view(&self) -> ActionView {
        self.model()
    }
}

/// The views of a sequence of actions.
pub open spec fn action_views(actions: Seq<Action>) -> Seq<ActionView> {
    actions.map_values(|a: Action| a@)
}

/// A copy of a vector of actions.
pub fn clone_actions(actions: &Vec<Action>) -> (r: Vec<Action>)
    ensures
        action_views(r@) == action_views(actions@),
    decreases actions,
{
    let mut out: Vec<Action> = Vec::new();
    let mut i: usize = 0;
    while i < actions.len()
        invariant
            i <= actions@.len(),
            out@.len() == i,
            forall|j: int| 0 <= j < i ==> (#[trigger] out@[j])@ == actions@[j]@,
        decreases actions@.len() - i,
    {
        out.push(actions[i].clone());
        i += 1;
    }
    assert(action_views(out@) =~= action_views(actions@));
    out
}

impl Clone for Action {
    fn clone(&self) -> (r: Action)
        ensures
            r@ == self@,
        decreases self,
    {
        match self {
            Action::Conditional(cond, actions) => {
                let copies = clone_actions(actions);
                let r = Action::Conditional(cond.clone(), copies);
                proof {
                    let left = r@->Conditional_1;
                    let right = self@->Conditional_1;
                    assert(left =~= action_views(copies@));
                    assert(right =~= action_views(actions@));
                }
                r
            },
            Action::CreateAgent { name, mem, coh } => Action::CreateAgent {
                name: name.clone(),
                mem: *mem,
                coh: coh.clone(),
            },
            Action::MacroCall { name, args } => Action::MacroCall {
                name: name.clone(),
                args: clone_strings(args),
            },
            Action::VariableAssignment { name, value } => Action::VariableAssignment {
                name: name.clone(),
                value: value.clone(),
            },
            Action::Say { agent, token, pattern } => Action::Say {
                agent: agent.clone(),
                token: token.clone(),
                pattern: pattern.clone(),
            },
            Action::Interpret { agent, token } => Action::Interpret {
                agent: agent.clone(),
                token: token.clone(),
            },
            Action::Project { agent, token } => Action::Project {
                agent: agent.clone(),
                token: token.clone(),
            },
            Action::Tick(n) => Action::Tick(*n),
            Action::Assert(text) => Action::Assert(text.clone()),
            Action::Comment(text) => Action::Comment(text.clone()),
        }
    }
}

/// A top-level part of a script: a header line and the actions under it.
#[derive(Debug)]
pub enum Block {
    /// Actions at a given recursion index.
    AtTau(u64, Vec<Action>),
    /// Actions taken a number of times.
    Repeat(u32, Vec<Action>),
    /// Actions taken while a condition holds.
    While(String, Vec<Action>),
    /// Actions taken side by side.
    Parallel(Vec<Action>),
    /// The definition of a macro.
    MacroDef { name: String, params: Vec<String>, body: Vec<Action> },
}

/// What a [`Block`] is, as plain values.
pub enum BlockView {
    AtTau(u64, Seq<ActionView>),
    Repeat(u32, Seq<ActionView>),
    While(Seq<char>, Seq<ActionView>),
    Parallel(Seq<ActionView>),
    MacroDef { name: Seq<char>, params: Seq<Seq<char>>, body: Seq<ActionView> },
}

impl View for Block {
    type V = BlockView;

    open spec fn view(&self) -> BlockView {
        match self {
            Block::AtTau(tau, actions) => BlockView::AtTau(*tau, action_views(actions@)),
            Block::Repeat(n, actions) => BlockView::Repeat(*n, action_views(actions@)),
            Block::While(cond, actions) => BlockView::While(cond@, action_views(actions@)),
            Block::Parallel(actions) => BlockView::Parallel(action_views(actions@)),
            Block::MacroDef { name, params, body } => BlockView::MacroDef {
                name: name@,
                params: string_views(params@),
                body: action_views(body@),
            },
        }
    }
}

impl Clone for Block {
    fn clone(&self) -> (r: Block)
        ensures
            r@ == self@,
    {
        match self {
            Block::AtTau(tau, actions) => Block::AtTau(*tau, clone_actions(actions)),
            Block::Repeat(n, actions) => Block::Repeat(*n, clone_actions(actions)),
            Block::While(cond, actions) => Block::While(cond.clone(), clone_actions(actions)),
            Block::Parallel(actions) => Block::Parallel(clone_actions(actions)),
            Block::MacroDef { name, params, body } => Block::MacroDef {
                name: name.clone(),
                params: clone_strings(params),
                body: clone_actions(body),
            },
        }
    }
}

/// The views of a sequence of blocks.
pub open spec fn block_views(blocks: Seq<Block>) -> Seq<BlockView> {
    blocks.map_values(|b: Block| b@)
}

} // verus!
