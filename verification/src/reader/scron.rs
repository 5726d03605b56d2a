use crate::blueprint::{Blueprint, DraftView, TransitionView};
use crate::builder::{text, Draft, StateChartBuilder, TransitionBuilder};
use crate::chart::{index_of, Condition, StateChart, StateId};
use crate::result::{StateMachineError, StateMachineResult};
use crate::traits::{content_hash, event_id, ActionId, EventId};
use vstd::prelude::*;
use vstd::string::StringSliceAdditionalSpecFns;

verus! {

/// A command of a document: the name of an action of the host, and arguments
/// that the chart does not keep.
#[derive(Debug)]
pub struct RonCommand {
    pub command: String,
    pub args: Vec<String>,
}

/// What lets a transition of a document fire.
#[derive(Debug)]
pub enum RonCondition {
    /// The time spent in the configuration has reached this many units.
    Delay(u64),
    /// An event that the descriptor with this name accepts has come.
    Event(String),
}

/// A transition of a document; without a target it only runs its commands.
#[derive(Debug)]
pub struct RonTransition {
    pub target: Option<String>,
    pub condition: RonCondition,
    pub on_transition: Vec<RonCommand>,
}

/// A state of a document, with its substates inside it.
#[derive(Debug)]
pub enum RonState {
    /// Atomic state.
    Atomic {
        label: String,
        on_entry: Vec<RonCommand>,
        on_exit: Vec<RonCommand>,
        transitions: Vec<RonTransition>,
    },
    /// Compound state: a graph of substates of its own.
    Compound {
        label: String,
        initial: String,
        on_entry: Vec<RonCommand>,
        on_exit: Vec<RonCommand>,
        states: Vec<RonState>,
        transitions: Vec<RonTransition>,
    },
    /// Parallel state: several graphs of substates side by side.
    Parallel {
        label: String,
        on_entry: Vec<RonCommand>,
        on_exit: Vec<RonCommand>,
        states: Vec<RonState>,
        transitions: Vec<RonTransition>,
    },
    /// Final state.
    Final { label: String, on_entry: Vec<RonCommand> },
}

/// A chart as a document holds it: tiered, with states named by label.
#[derive(Debug)]
pub struct RonStateChart {
    pub name: String,
    pub initial: String,
    pub states: Vec<RonState>,
}

/// The id of the action that a command names: the id that its name stands for.
pub open spec fn action_of(c: RonCommand) -> ActionId {
    ActionId(content_hash(vstd::utf8::encode_utf8(c.command@)))
}

/// The ids of the actions that the commands name.
pub open spec fn actions_of(cs: Seq<RonCommand>) -> Seq<ActionId> {
    Seq::new(cs.len(), |i: int| action_of(cs[i]))
}

/// What the builder holds for a transition of a document: a delay makes an
/// eventless transition with that delay, an event makes an unconditional
/// transition on the descriptor with that name.
pub open spec fn transition_of(t: RonTransition) -> TransitionView {
    match t.condition {
        RonCondition::Delay(d) => TransitionView {
            events: Seq::empty(),
            condition: Some(Condition { delay: Some(d), guard: None, done: None }),
            target: text(t.target),
            actions: actions_of(t.on_transition@),
            done: false,
        },
        RonCondition::Event(name) => TransitionView {
            events: seq![EventId(content_hash(vstd::utf8::encode_utf8(name@)))],
            condition: None,
            target: text(t.target),
            actions: actions_of(t.on_transition@),
            done: false,
        },
    }
}

/// What the builder holds for the transitions of a document.
pub open spec fn transitions_of(ts: Seq<RonTransition>) -> Seq<TransitionView> {
    Seq::new(ts.len(), |i: int| transition_of(ts[i]))
}

/// What the builder holds for a state of a document, without its substates.
pub open spec fn draft_of(state: RonState, parent: int) -> DraftView {
    match state {
        RonState::Atomic { label, on_entry, on_exit, transitions } => DraftView {
            parent,
            label: label@,
            on_entry: actions_of(on_entry@),
            on_exit: actions_of(on_exit@),
            initial: None,
            transitions: transitions_of(transitions@),
            parallel: false,
            terminal: false,
        },
        RonState::Compound { label, initial, on_entry, on_exit, states, transitions } => DraftView {
            parent,
            label: label@,
            on_entry: actions_of(on_entry@),
            on_exit: actions_of(on_exit@),
            initial: Some(initial@),
            transitions: transitions_of(transitions@),
            parallel: false,
            terminal: false,
        },
        RonState::Parallel { label, on_entry, on_exit, states, transitions } => DraftView {
            parent,
            label: label@,
            on_entry: actions_of(on_entry@),
            on_exit: actions_of(on_exit@),
            initial: None,
            transitions: transitions_of(transitions@),
            parallel: true,
            terminal: false,
        },
        RonState::Final { label, on_entry } => DraftView {
            parent,
            label: label@,
            on_entry: actions_of(on_entry@),
            on_exit: Seq::empty(),
            initial: None,
            transitions: Seq::empty(),
            parallel: false,
            terminal: true,
        },
    }
}

/// The substates of a state of a document.
pub open spec fn substates_of(state: RonState) -> Seq<RonState> {
    match state {
        RonState::Compound { states, .. } => states@,
        RonState::Parallel { states, .. } => states@,
        _ => Seq::empty(),
    }
}

/// The blueprint after a state of a document has been laid out under `parent`:
/// the state itself comes first, then its substates, each with all that is
/// inside it, in the order of the document.
pub open spec fn laid(bp: Blueprint, parent: int, state: RonState) -> Blueprint
    decreases state, 1nat, 0nat,
{
    laid_all(bp.with_state(draft_of(state, parent)), bp.len(), state, 0)
}

/// The blueprint after the substates of `state` from place `k` on have been laid
/// out under `parent`.
pub open spec fn laid_all(bp: Blueprint, parent: int, state: RonState, k: int) -> Blueprint
    decreases state, 0nat, substates_of(state).len() - k,
{
    if 0 <= k < substates_of(state).len() {
        laid_all(laid(bp, parent, substates_of(state)[k]), parent, state, k + 1)
    } else {
        bp
    }
}

/// Computes the ids of the actions that the commands name.
fn commands(cs: &Vec<RonCommand>) -> (r: Vec<ActionId>)
    ensures
        r@ == actions_of(cs@),
{
    let mut r: Vec<ActionId> = Vec::new();
    let mut i: usize = 0;
    while i < cs.len()
        invariant
            i <= cs.len(),
            r@ == actions_of(cs@).take(i as int),
        decreases cs.len() - i,
    {
        r.push(ActionId(event_id(cs[i].command.as_str()).0));
        assert(actions_of(cs@).take(i + 1) =~= actions_of(cs@).take(i as int).push(
            action_of(cs@[i as int]),
        ));
        i = i + 1;
    }
    assert(actions_of(cs@).take(cs@.len() as int) =~= actions_of(cs@));
    r
}

/// Makes the builder of a transition of a document.
fn transition(t: &RonTransition) -> (r: TransitionBuilder)
    ensures
        r@ == transition_of(*t),
{
    let actions = commands(&t.on_transition);
    let target = match &t.target {
        Some(label) => Some(label.clone()),
        None => None,
    };
    match &t.condition {
        RonCondition::Delay(d) => TransitionBuilder {
            events: Vec::new(),
            condition: Some(Condition { delay: Some(*d), guard: None, done: None }),
            target: target,
            actions,
            done: false,
        },
        RonCondition::Event(name) => {
            let mut events: Vec<EventId> = Vec::new();
            events.push(event_id(name.as_str()));
            assert(events@ =~= seq![EventId(content_hash(vstd::utf8::encode_utf8(name@)))]);
            TransitionBuilder { events, condition: None, target, actions, done: false }
        },
    }
}

/// Makes the builders of the transitions of a document.
fn transitions(ts: &Vec<RonTransition>) -> (r: Vec<TransitionBuilder>)
    ensures
        r@.len() == ts@.len(),
        forall|k: int| 0 <= k < r@.len() ==> (#[trigger] r@[k])@ == transition_of(ts@[k]),
{
    let mut r: Vec<TransitionBuilder> = Vec::new();
    let mut i: usize = 0;
    while i < ts.len()
        invariant
            i <= ts.len(),
            r@.len() == i,
            forall|k: int| 0 <= k < i ==> (#[trigger] r@[k])@ == transition_of(ts@[k]),
        decreases ts.len() - i,
    {
        r.push(transition(&ts[i]));
        i = i + 1;
    }
    r
}

/// Makes the draft of a state of a document.
fn draft(state: &RonState, parent: Option<StateId>) -> (d: Draft)
    ensures
        d@ == draft_of(*state, index_of(parent)),
{
    let d = match state {
        RonState::Atomic { label, on_entry, on_exit, transitions: ts } => Draft {
            parent,
            label: label.clone(),
            on_entry: commands(on_entry),
            on_exit: commands(on_exit),
            initial: None,
            transitions: transitions(ts),
            parallel: false,
            terminal: false,
        },
        RonState::Compound { label, initial, on_entry, on_exit, states, transitions: ts } => Draft {
            parent,
            label: label.clone(),
            on_entry: commands(on_entry),
            on_exit: commands(on_exit),
            initial: Some(initial.clone()),
            transitions: transitions(ts),
            parallel: false,
            terminal: false,
        },
        RonState::Parallel { label, on_entry, on_exit, states, transitions: ts } => Draft {
            parent,
            label: label.clone(),
            on_entry: commands(on_entry),
            on_exit: commands(on_exit),
            initial: None,
            transitions: transitions(ts),
            parallel: true,
            terminal: false,
        },
        RonState::Final { label, on_entry } => Draft {
            parent,
            label: label.clone(),
            on_entry: commands(on_entry),
            on_exit: Vec::new(),
            initial: None,
            transitions: Vec::new(),
            parallel: false,
            terminal: true,
        },
    };
    assert(d@.transitions =~= draft_of(*state, index_of(parent)).transitions);
    assert(d@.on_exit =~= draft_of(*state, index_of(parent)).on_exit);
    d
}

/// Flattens the tiers of a document into the builder of a chart.
pub struct Context {
    builder: StateChartBuilder,
}

impl Context {
    /// What has been laid out so far.
    pub closed spec fn plan(&self) -> Blueprint {
        self.builder@
    }

    /// A context for the document: nothing is laid out yet, the chart has the
    /// document's name and starts where the document says.
    pub fn new(doc: &RonStateChart) -> (c: Context)
        ensures
            c.plan() == (Blueprint {
                name: doc.name@,
                initial: Some(doc.initial@),
                states: Seq::empty(),
            }),
    {
        let mut builder = StateChartBuilder::build();
        builder.name(doc.name.as_str());
        builder.initial(doc.initial.as_str());
        Context { builder }
    }

    /// Lays out a state of the document under `parent`: the state itself, then
    /// its substates with all that is inside them, in the order of the document.
    pub fn handle_state(&mut self, parent: Option<StateId>, state: &RonState)
        ensures
            final(self).plan() == laid(old(self).plan(), index_of(parent), *state),
        decreases *state,
    {
        let id = self.builder.push_draft(draft(state, parent));
        match state {
            RonState::Compound { states, .. } => {
                self.handle_all(id, state, states);
            },
            RonState::Parallel { states, .. } => {
                self.handle_all(id, state, states);
            },
            _ => {},
        }
    }

    /// Lays out the substates of `state` under `id`.
    fn handle_all(&mut self, id: StateId, state: &RonState, states: &Vec<RonState>)
        requires
            states@ == substates_of(*state),
            match *state {
                RonState::Compound { states: s, .. } => s == *states,
                RonState::Parallel { states: s, .. } => s == *states,
                _ => false,
            },
        ensures
            final(self).plan() == laid_all(old(self).plan(), id.0 as int, *state, 0),
        decreases *state, states.len(),
    {
        let mut k: usize = 0;
        while k < states.len()
            invariant
                k <= states.len(),
                states@ == substates_of(*state),
                match *state {
                    RonState::Compound { states: s, .. } => s == *states,
                    RonState::Parallel { states: s, .. } => s == *states,
                    _ => false,
                },
                laid_all(self.plan(), id.0 as int, *state, k as int) == laid_all(
                    old(self).plan(),
                    id.0 as int,
                    *state,
                    0,
                ),
            decreases states.len() - k,
        {
            self.handle_state(Some(id), &states[k]);
            k = k + 1;
        }
    }

    /// Checks the rules and freezes the chart that was laid out.
    pub fn finish(self) -> (r: StateMachineResult<StateChart>)
        ensures
            match r {
                Ok(chart) => self.plan().valid() && self.plan().depicts(chart),
                Err(e) => e == StateMachineError::MalformedChart && !self.plan().valid(),
            },
    {
        self.builder.finish()
    }
}

/// The blueprint that a document describes: its roots laid out in order, each
/// with all that is inside it.
pub open spec fn plan_of(doc: RonStateChart) -> Blueprint {
    laid_roots(
        Blueprint { name: doc.name@, initial: Some(doc.initial@), states: Seq::empty() },
        doc.states@,
        0,
    )
}

/// The blueprint after the roots from place `k` on have been laid out.
pub open spec fn laid_roots(bp: Blueprint, roots: Seq<RonState>, k: int) -> Blueprint
    decreases roots.len() - k,
{
    if 0 <= k < roots.len() {
        laid_roots(laid(bp, -1, roots[k]), roots, k + 1)
    } else {
        bp
    }
}

/// Builds the chart that a document describes.
///
/// The chart comes back exactly when what the document describes keeps the rules
/// of a chart; otherwise the error is `MalformedChart`.
pub fn read(doc: &RonStateChart) -> (r: StateMachineResult<StateChart>)
    ensures
        match r {
            Ok(chart) => plan_of(*doc).valid() && plan_of(*doc).depicts(chart),
            Err(e) => e == StateMachineError::MalformedChart && !plan_of(*doc).valid(),
        },
{
    let mut context = Context::new(doc);
    let ghost start = context.plan();
    let mut k: usize = 0;
    while k < doc.states.len()
        invariant
            k <= doc.states.len(),
            laid_roots(context.plan(), doc.states@, k as int) == plan_of(*doc),
        decreases doc.states.len() - k,
    {
        context.handle_state(None, &doc.states[k]);
        k = k + 1;
    }
    context.finish()
}

} // verus!
