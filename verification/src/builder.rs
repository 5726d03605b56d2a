use crate::blueprint::{blank, frozen, lift, or_blank, planted, Blueprint, DraftView, TransitionView};
use crate::chart::{Condition, StateChart, StateId, StateNode, Transition};
use crate::engine::top_or;
use crate::result::{StateMachineError, StateMachineResult};
use crate::traits::{content_hash, event_id, ActionId, EventId};
use vstd::prelude::*;
use vstd::string::StringSliceAdditionalSpecFns;

verus! {

/// The view of an optional string.
pub open spec fn text(s: Option<String>) -> Option<Seq<char>> {
    match s {
        Some(s) => Some(s@),
        None => None,
    }
}

/// Accumulates one transition. States are named by label; the labels are
/// resolved when the chart is finished, so a target may be added later.
#[derive(Debug)]
pub struct TransitionBuilder {
    pub events: Vec<EventId>,
    pub condition: Option<Condition>,
    pub target: Option<String>,
    pub actions: Vec<ActionId>,
    /// The transition waits for the completion of the state that holds it.
    pub done: bool,
}

impl View for TransitionBuilder {
    type V = TransitionView;

    open spec fn view(&self) -> TransitionView {
        TransitionView {
            events: self.events@,
            condition: self.condition,
            target: text(self.target),
            actions: self.actions@,
            done: self.done,
        }
    }
}

/// Gives the condition, or the one that always holds.
fn or_none(c: Option<Condition>) -> (r: Condition)
    ensures
        r == or_blank(c),
{
    match c {
        Some(c) => c,
        None => Condition { delay: None, guard: None, done: None },
    }
}

impl TransitionBuilder {
    /// An eventless, unconditional transition without target or actions.
    pub fn new() -> (t: TransitionBuilder)
        ensures
            t@ == (TransitionView {
                events: Seq::empty(),
                condition: None,
                target: None,
                actions: Seq::empty(),
                done: false,
            }),
    {
        TransitionBuilder {
            events: Vec::new(),
            condition: None,
            target: None,
            actions: Vec::new(),
            done: false,
        }
    }

    /// Adds the descriptor with the id that the name stands for.
    pub fn on(self, name: &str) -> (t: TransitionBuilder)
        ensures
            t@ == (TransitionView {
                events: self@.events.push(EventId(content_hash(name.spec_bytes()))),
                ..self@
            }),
    {
        self.on_id(event_id(name))
    }

    /// Adds the descriptor with the given id.
    pub fn on_id(self, id: EventId) -> (t: TransitionBuilder)
        ensures
            t@ == (TransitionView { events: self@.events.push(id), ..self@ }),
    {
        let TransitionBuilder { events, condition, target, actions, done } = self;
        let mut events = events;
        events.push(id);
        TransitionBuilder { events, condition, target, actions, done }
    }

    /// Requires that the handle has spent `delay` in its configuration.
    pub fn after(self, delay: u64) -> (t: TransitionBuilder)
        ensures
            t@ == (TransitionView {
                condition: Some(Condition { delay: Some(delay), ..or_blank(self@.condition) }),
                ..self@
            }),
    {
        let TransitionBuilder { events, condition, target, actions, done } = self;
        let mut c = or_none(condition);
        c.delay = Some(delay);
        TransitionBuilder { events, condition: Some(c), target, actions, done }
    }

    /// Requires that the host has found the guard to be true.
    pub fn when(self, guard: u64) -> (t: TransitionBuilder)
        ensures
            t@ == (TransitionView {
                condition: Some(Condition { guard: Some(guard), ..or_blank(self@.condition) }),
                ..self@
            }),
    {
        let TransitionBuilder { events, condition, target, actions, done } = self;
        let mut c = or_none(condition);
        c.guard = Some(guard);
        TransitionBuilder { events, condition: Some(c), target, actions, done }
    }

    /// Requires that the state that holds the transition has just completed: the
    /// transition is taken only in the step that follows the completion.
    pub fn when_done(self) -> (t: TransitionBuilder)
        ensures
            t@ == (TransitionView { done: true, ..self@ }),
    {
        let TransitionBuilder { events, condition, target, actions, done } = self;
        TransitionBuilder { events, condition, target, actions, done: true }
    }

    /// Sets the target to the state with the given label.
    pub fn target(self, label: &str) -> (t: TransitionBuilder)
        ensures
            t@ == (TransitionView { target: Some(label@), ..self@ }),
    {
        let TransitionBuilder { events, condition, target, actions, done } = self;
        TransitionBuilder { events, condition, target: Some(label.to_owned()), actions, done }
    }

    /// Adds an action.
    pub fn action(self, id: ActionId) -> (t: TransitionBuilder)
        ensures
            t@ == (TransitionView { actions: self@.actions.push(id), ..self@ }),
    {
        let TransitionBuilder { events, condition, target, actions, done } = self;
        let mut actions = actions;
        actions.push(id);
        TransitionBuilder { events, condition, target, actions, done }
    }
}

/// What has been said of one state so far.
#[derive(Debug)]
pub struct Draft {
    pub parent: Option<StateId>,
    pub label: String,
    pub on_entry: Vec<ActionId>,
    pub on_exit: Vec<ActionId>,
    pub initial: Option<String>,
    pub transitions: Vec<TransitionBuilder>,
    pub parallel: bool,
    pub terminal: bool,
}

impl View for Draft {
    type V = DraftView;

    open spec fn view(&self) -> DraftView {
        DraftView {
            parent: crate::chart::index_of(self.parent),
            label: self.label@,
            on_entry: self.on_entry@,
            on_exit: self.on_exit@,
            initial: text(self.initial),
            transitions: Seq::new(self.transitions@.len(), |k: int| self.transitions@[k]@),
            parallel: self.parallel,
            terminal: self.terminal,
        }
    }
}

/// Accumulates a chart. A state gets its id when its builder is finished: a
/// root the place at the end of the list, and the states inside it the places
/// behind it, so that the states stand in document order. Nothing is checked
/// before `finish`.
#[derive(Debug)]
pub struct StateChartBuilder {
    name: String,
    initial: Option<String>,
    states: Vec<Draft>,
}

/// The drafts as plain values.
pub open spec fn drafts(list: Vec<Draft>) -> Seq<DraftView> {
    Seq::new(list@.len(), |i: int| list@[i]@)
}

impl View for StateChartBuilder {
    type V = Blueprint;

    closed spec fn view(&self) -> Blueprint {
        Blueprint { name: self.name@, initial: text(self.initial), states: drafts(self.states) }
    }
}

/// Accumulates one state of a chart under construction. The builder holds the
/// draft of the state and, behind it, the drafts of the substates that were
/// finished, each with all that is inside it. Nothing reaches `owner`, the list
/// that the state will be appended to, before `finish`; only then does the state
/// get its id.
///
/// In `states`, as in every list of drafts, a draft without parent is a substate
/// of the state that the list belongs to, and a parent is a place in the list.
pub struct StateBuilder<'a> {
    pub owner: &'a mut Vec<Draft>,
    pub id: Option<StateId>,
    pub draft: Draft,
    pub states: Vec<Draft>,
}

impl StateChartBuilder {
    /// A builder without states.
    pub fn build() -> (b: StateChartBuilder)
        ensures
            b@ == (Blueprint { name: Seq::empty(), initial: None, states: Seq::empty() }),
    {
        let b = StateChartBuilder { name: String::new(), initial: None, states: Vec::new() };
        assert(b@.states =~= Seq::empty());
        b
    }

    /// Names the chart.
    pub fn name(&mut self, name: &str)
        ensures
            final(self)@ == (Blueprint { name: name@, ..old(self)@ }),
    {
        self.name = name.to_owned();
    }

    /// Sets the root in which the chart starts, by label.
    pub fn initial(&mut self, label: &str)
        ensures
            final(self)@ == (Blueprint { initial: Some(label@), ..old(self)@ }),
    {
        self.initial = Some(label.to_owned());
    }

    /// Number of states added so far.
    pub fn len(&self) -> (n: usize)
        ensures
            n == self@.states.len(),
    {
        self.states.len()
    }

    /// Adds a state of which everything but its substates is known.
    pub(crate) fn push_draft(&mut self, draft: Draft) -> (id: StateId)
        ensures
            id.0 == old(self)@.states.len(),
            final(self)@ == old(self)@.with_state(draft@),
    {
        let id = StateId(self.states.len());
        self.states.push(draft);
        assert(drafts(self.states) =~= drafts(old(self).states).push(draft@));
        id
    }

    /// Starts a root. The chart builder stays as it is until the state builder
    /// that comes back is finished: no id is given and nothing is appended before.
    pub fn add_state(&mut self) -> (s: StateBuilder<'_>)
        ensures
            s.id is None,
            s.draft@ == blank(-1),
            s.states@.len() == 0,
            drafts(*s.owner) == old(self)@.states,
            final(self)@ == (Blueprint { states: drafts(*final(s.owner)), ..old(self)@ }),
    {
        StateBuilder { owner: &mut self.states, id: None, draft: blank_draft(), states: Vec::new() }
    }
}

/// The draft of a state of which nothing has been said.
fn blank_draft() -> (d: Draft)
    ensures
        d@ == blank(-1),
{
    let d = Draft {
        parent: None,
        label: String::new(),
        on_entry: Vec::new(),
        on_exit: Vec::new(),
        initial: None,
        transitions: Vec::new(),
        parallel: false,
        terminal: false,
    };
    assert(d@.transitions =~= Seq::empty());
    d
}

/// Copies a list of action ids.
fn copy_actions(v: &Vec<ActionId>) -> (r: Vec<ActionId>)
    ensures
        r@ == v@,
{
    let mut r: Vec<ActionId> = Vec::new();
    let mut i: usize = 0;
    while i < v.len()
        invariant
            i <= v.len(),
            r@ == v@.take(i as int),
        decreases v.len() - i,
    {
        r.push(v[i]);
        assert(v@.take(i + 1) =~= v@.take(i as int).push(v@[i as int]));
        i = i + 1;
    }
    assert(v@.take(v@.len() as int) =~= v@);
    r
}

/// Copies a list of event ids.
fn copy_events(v: &Vec<EventId>) -> (r: Vec<EventId>)
    ensures
        r@ == v@,
{
    let mut r: Vec<EventId> = Vec::new();
    let mut i: usize = 0;
    while i < v.len()
        invariant
            i <= v.len(),
            r@ == v@.take(i as int),
        decreases v.len() - i,
    {
        r.push(v[i]);
        assert(v@.take(i + 1) =~= v@.take(i as int).push(v@[i as int]));
        i = i + 1;
    }
    assert(v@.take(v@.len() as int) =~= v@);
    r
}

impl StateChartBuilder {
    /// Finds the first state with the label.
    fn lookup(&self, label: &String) -> (r: Option<usize>)
        ensures
            top_or(r) == self@.find(label@, 0),
            r matches Some(i) ==> i < self@.len(),
    {
        let mut k: usize = 0;
        while k < self.states.len()
            invariant
                k <= self.states.len(),
                self@.find(label@, 0) == self@.find(label@, k as int),
            decreases self.states.len() - k,
        {
            if self.states[k].label == *label {
                return Some(k);
            }
            k = k + 1;
        }
        None
    }

    /// Finds the first substate of `p` with the label.
    fn lookup_child(&self, p: usize, label: &String) -> (r: Option<usize>)
        ensures
            top_or(r) == self@.find_child(p as int, label@, 0),
            r matches Some(i) ==> i < self@.len(),
    {
        let mut k: usize = 0;
        while k < self.states.len()
            invariant
                k <= self.states.len(),
                self@.find_child(p as int, label@, 0) == self@.find_child(p as int, label@, k as int),
            decreases self.states.len() - k,
        {
            let under = match self.states[k].parent {
                Some(q) => q.0 == p,
                None => false,
            };
            if under && self.states[k].label == *label {
                return Some(k);
            }
            k = k + 1;
        }
        None
    }

    /// Lists the substates of `p`, in document order.
    fn kids_of(&self, p: usize) -> (kids: Vec<StateId>)
        ensures
            kids@ == self@.children(p as int, self@.len()),
    {
        let mut kids: Vec<StateId> = Vec::new();
        let mut k: usize = 0;
        while k < self.states.len()
            invariant
                k <= self.states.len(),
                kids@ == self@.children(p as int, k as int),
            decreases self.states.len() - k,
        {
            let under = match self.states[k].parent {
                Some(q) => q.0 == p,
                None => false,
            };
            if under {
                kids.push(StateId(k));
            }
            k = k + 1;
        }
        kids
    }

    /// Draws the transitions of the state at `i`; none if a target names no state.
    fn draw_moves(&self, i: usize) -> (r: Option<Vec<Transition>>)
        requires
            i < self@.len(),
        ensures
            match r {
                Some(moves) => {
                    &&& moves@.len() == self@.states[i as int].transitions.len()
                    &&& forall|k: int|
                        0 <= k < moves@.len() ==> self@.pictured(
                            i as int,
                            self@.states[i as int].transitions[k],
                            #[trigger] moves@[k],
                        )
                    &&& forall|k: int|
                        0 <= k < moves@.len() && (
                        #[trigger] self@.states[i as int].transitions[k]).target is Some
                            ==> self@.resolve(self@.states[i as int].transitions[k].target) >= 0
                },
                None => exists|k: int|
                    0 <= k < self@.states[i as int].transitions.len() && (
                    #[trigger] self@.states[i as int].transitions[k]).target is Some
                        && self@.resolve(self@.states[i as int].transitions[k].target) < 0,
            },
    {
        let ghost plan = self@.states[i as int].transitions;
        let list = &self.states[i].transitions;
        let mut moves: Vec<Transition> = Vec::new();
        let mut k: usize = 0;
        while k < list.len()
            invariant
                k <= list.len(),
                i < self.states.len(),
                *list == self.states@[i as int].transitions,
                plan == self@.states[i as int].transitions,
                plan.len() == list@.len(),
                forall|j: int| 0 <= j < list@.len() ==> #[trigger] plan[j] == list@[j]@,
                moves@.len() == k,
                forall|j: int| 0 <= j < k ==> self@.pictured(i as int, plan[j], #[trigger] moves@[j]),
                forall|j: int|
                    0 <= j < k && (#[trigger] plan[j]).target is Some ==> self@.resolve(plan[j].target)
                        >= 0,
            decreases list.len() - k,
        {
            let t = &list[k];
            let target = match &t.target {
                None => None,
                Some(label) => match self.lookup(label) {
                    None => {
                        assert(plan[k as int].target is Some && self@.resolve(plan[k as int].target) < 0);
                        return None;
                    },
                    Some(x) => Some(StateId(x)),
                },
            };
            let condition = if t.done {
                let mut c = or_none(t.condition);
                c.done = Some(StateId(i));
                Some(c)
            } else {
                t.condition
            };
            moves.push(
                Transition {
                    event: copy_events(&t.events),
                    condition,
                    target,
                    on_transition: copy_actions(&t.actions),
                },
            );
            k = k + 1;
        }
        Some(moves)
    }

    /// Draws the node of the state at `i`; none if the state breaks its rules.
    fn draw(&self, i: usize) -> (r: Option<StateNode>)
        requires
            i < self@.len(),
        ensures
            match r {
                Some(node) => self@.state_ok(i as int) && self@.depicted(i as int, node)
                    && node.moves().len() <= usize::MAX,
                None => !self@.state_ok(i as int),
            },
    {
        let d = &self.states[i];
        let kids = self.kids_of(i);
        let moves = match self.draw_moves(i) {
            Some(moves) => moves,
            None => {
                return None;
            },
        };
        let count: usize = moves.len();
        let id = StateId(i);
        let label = d.label.clone();
        let parent = d.parent;
        let on_entry = copy_actions(&d.on_entry);
        if kids.len() > 0 {
            if d.terminal {
                return None;
            }
            let on_exit = copy_actions(&d.on_exit);
            if d.parallel {
                if d.initial.is_some() {
                    return None;
                }
                Some(
                    StateNode::Parallel {
                        id,
                        label,
                        parent,
                        on_entry,
                        on_exit,
                        initial: None,
                        transitions: moves,
                        states: kids,
                    },
                )
            } else {
                let first = match &d.initial {
                    None => {
                        return None;
                    },
                    Some(l) => match self.lookup_child(i, l) {
                        None => {
                            return None;
                        },
                        Some(c) => StateId(c),
                    },
                };
                Some(
                    StateNode::Compound {
                        id,
                        label,
                        parent,
                        on_entry,
                        on_exit,
                        initial: Some(first),
                        transitions: moves,
                        states: kids,
                    },
                )
            }
        } else {
            assert(kids@ =~= Seq::<StateId>::empty());
            if d.initial.is_some() {
                return None;
            }
            if d.terminal {
                if count > 0 || d.on_exit.len() > 0 {
                    return None;
                }
                assert(moves@ =~= Seq::<Transition>::empty());
                assert(d.on_exit@ =~= Seq::<ActionId>::empty());
                Some(StateNode::Final { id, label, parent, on_entry })
            } else {
                let on_exit = copy_actions(&d.on_exit);
                Some(StateNode::Atomic { id, label, parent, on_entry, on_exit, transitions: moves })
            }
        }
    }

    /// Tells whether every parent comes before its substates.
    fn is_ordered(&self) -> (b: bool)
        ensures
            b == self@.ordered(),
    {
        let mut i: usize = 0;
        while i < self.states.len()
            invariant
                i <= self.states.len(),
                forall|j: int| 0 <= j < i ==> -1 <= (#[trigger] self@.states[j]).parent < j,
            decreases self.states.len() - i,
        {
            match self.states[i].parent {
                Some(p) => {
                    if p.0 >= i {
                        assert(!(-1 <= self@.states[i as int].parent < i));
                        return false;
                    }
                },
                None => {},
            }
            i = i + 1;
        }
        true
    }

    /// Checks the rules and freezes the chart.
    ///
    /// The chart comes back exactly when the builder's content keeps the rules of
    /// a chart; it then holds one node for each state that was added, in the same
    /// order, with every label resolved. Otherwise the error is `MalformedChart`.
    pub fn finish(self) -> (r: StateMachineResult<StateChart>)
        ensures
            match r {
                Ok(chart) => self@.valid() && self@.depicts(chart),
                Err(e) => e == StateMachineError::MalformedChart && !self@.valid(),
            },
    {
        if !self.is_ordered() {
            return Err(StateMachineError::MalformedChart);
        }
        let start = match &self.initial {
            None => {
                return Err(StateMachineError::MalformedChart);
            },
            Some(l) => match self.lookup(l) {
                None => {
                    return Err(StateMachineError::MalformedChart);
                },
                Some(x) => x,
            },
        };
        if self.states[start].parent.is_some() {
            return Err(StateMachineError::MalformedChart);
        }
        let n = self.states.len();
        let mut nodes: Vec<StateNode> = Vec::new();
        let mut i: usize = 0;
        while i < n
            invariant
                i <= n,
                n == self.states.len(),
                nodes.len() == i,
                forall|j: int| 0 <= j < i ==> self@.state_ok(j),
                forall|j: int| 0 <= j < i ==> self@.depicted(j, #[trigger] nodes@[j]),
                forall|j: int| 0 <= j < i ==> (#[trigger] nodes@[j]).moves().len() <= usize::MAX,
            decreases n - i,
        {
            match self.draw(i) {
                Some(node) => {
                    nodes.push(node);
                },
                None => {
                    return Err(StateMachineError::MalformedChart);
                },
            }
            i = i + 1;
        }
        proof {
            self@.lemma_drawn_well_formed(nodes@);
        }
        Ok(StateChart::assemble(self.name, StateId(start), nodes))
    }
}

impl<'a> StateBuilder<'a> {
    /// Labels the state.
    pub fn name(self, label: &str) -> (s: StateBuilder<'a>)
        ensures
            s.draft@ == (DraftView { label: label@, ..self.draft@ }),
            s.kept(self),
            *s.owner == *old(self.owner),
            *final(s.owner) == *final(self.owner),
    {
        let StateBuilder { owner, id, draft, states } = self;
        let mut draft = draft;
        draft.label = label.to_owned();
        StateBuilder { owner, id, draft, states }
    }

    /// Makes the state parallel: once it has substates, all of them are active
    /// together.
    pub fn parallel(self) -> (s: StateBuilder<'a>)
        ensures
            s.draft@ == (DraftView { parallel: true, ..self.draft@ }),
            s.kept(self),
            *s.owner == *old(self.owner),
            *final(s.owner) == *final(self.owner),
    {
        let StateBuilder { owner, id, draft, states } = self;
        let mut draft = draft;
        draft.parallel = true;
        StateBuilder { owner, id, draft, states }
    }

    /// Makes the state final.
    pub fn terminal(self) -> (s: StateBuilder<'a>)
        ensures
            s.draft@ == (DraftView { terminal: true, ..self.draft@ }),
            s.kept(self),
            *s.owner == *old(self.owner),
            *final(s.owner) == *final(self.owner),
    {
        let StateBuilder { owner, id, draft, states } = self;
        let mut draft = draft;
        draft.terminal = true;
        StateBuilder { owner, id, draft, states }
    }

    /// Sets the default substate, by label.
    pub fn initial(self, label: &str) -> (s: StateBuilder<'a>)
        ensures
            s.draft@ == (DraftView { initial: Some(label@), ..self.draft@ }),
            s.kept(self),
            *s.owner == *old(self.owner),
            *final(s.owner) == *final(self.owner),
    {
        let StateBuilder { owner, id, draft, states } = self;
        let mut draft = draft;
        draft.initial = Some(label.to_owned());
        StateBuilder { owner, id, draft, states }
    }

    /// Adds an action to run when the state is entered.
    pub fn on_entry(self, action: ActionId) -> (s: StateBuilder<'a>)
        ensures
            s.draft@ == (DraftView { on_entry: self.draft@.on_entry.push(action), ..self.draft@ }),
            s.kept(self),
            *s.owner == *old(self.owner),
            *final(s.owner) == *final(self.owner),
    {
        let StateBuilder { owner, id, draft, states } = self;
        let mut draft = draft;
        draft.on_entry.push(action);
        StateBuilder { owner, id, draft, states }
    }

    /// Adds an action to run when the state is left.
    pub fn on_exit(self, action: ActionId) -> (s: StateBuilder<'a>)
        ensures
            s.draft@ == (DraftView { on_exit: self.draft@.on_exit.push(action), ..self.draft@ }),
            s.kept(self),
            *s.owner == *old(self.owner),
            *final(s.owner) == *final(self.owner),
    {
        let StateBuilder { owner, id, draft, states } = self;
        let mut draft = draft;
        draft.on_exit.push(action);
        StateBuilder { owner, id, draft, states }
    }

    /// Adds a transition; the state's transitions keep the order in which they
    /// were added.
    pub fn transition(self, t: TransitionBuilder) -> (s: StateBuilder<'a>)
        ensures
            s.draft@ == (DraftView {
                transitions: self.draft@.transitions.push(t@),
                ..self.draft@
            }),
            s.kept(self),
            *s.owner == *old(self.owner),
            *final(s.owner) == *final(self.owner),
    {
        let StateBuilder { owner, id, draft, states } = self;
        let mut draft = draft;
        draft.transitions.push(t);
        assert(draft@.transitions =~= self.draft@.transitions.push(t@));
        StateBuilder { owner, id, draft, states }
    }

    /// The builder has the id and the finished substates of the other.
    pub open spec fn kept(self, before: StateBuilder<'a>) -> bool {
        self.id == before.id && self.states == before.states
    }

    /// Starts a substate. This builder stays as it is until the state builder
    /// that comes back is finished.
    pub fn add_state(&mut self) -> (s: StateBuilder<'_>)
        ensures
            s.id is None,
            s.draft@ == blank(-1),
            s.states@.len() == 0,
            *s.owner == old(self).states,
            final(self).states == *final(s.owner),
            final(self).draft == old(self).draft,
            final(self).id == old(self).id,
            *final(self).owner == *old(self).owner,
            *final(final(self).owner) == *final(old(self).owner),
    {
        StateBuilder { owner: &mut self.states, id: None, draft: blank_draft(), states: Vec::new() }
    }

    /// Ends the work on this state: the state is appended to the list that owns
    /// it, which gives it its id, the old length of the list; behind it come the
    /// substates that were finished, in their order, each with all that is inside
    /// it.
    pub fn finish(self)
        ensures
            drafts(*final(self.owner)) == drafts(*old(self.owner)) + planted(
                self.draft@,
                drafts(self.states),
                old(self.owner)@.len() as int,
            ),
    {
        let StateBuilder { owner, id, draft, states } = self;
        let mut states = states;
        let ghost before = drafts(*owner);
        let ghost subs = drafts(states);
        let ghost all = planted(draft@, subs, owner@.len() as int);
        let base = owner.len();
        let mut root = draft;
        root.parent = None;
        owner.push(root);
        assert(drafts(*owner) =~= before + all.take(1));
        let mut k: usize = 0;
        let count: usize = states.len();
        assert(subs.len() == states@.len());
        assert(drafts(states) =~= subs.skip(0));
        while states.len() > 0
            invariant
                k <= subs.len(),
                subs.len() <= usize::MAX,
                states@.len() == subs.len() - k,
                all.len() == subs.len() + 1,
                base == before.len(),
                all == planted(draft@, subs, base as int),
                drafts(states) == subs.skip(k as int),
                drafts(*owner) == before + all.take(k + 1),
            decreases states.len(),
        {
            let ghost rest = drafts(states);
            let ghost held = states@;
            let mut next = states.remove(0);
            assert(next@ == subs[k as int]) by {
                assert(rest[0] == held[0]@);
                assert(subs.skip(k as int)[0] == subs[k as int]);
            }
            assert(drafts(states) =~= subs.skip(k + 1)) by {
                assert forall|i: int| 0 <= i < states@.len() implies drafts(states)[i] == subs.skip(
                    k + 1,
                )[i] by {
                    assert(states@[i] == held[i + 1]);
                    assert(rest[i + 1] == held[i + 1]@);
                    assert(subs.skip(k as int)[i + 1] == subs[k + 1 + i]);
                }
            }
            next.parent = Some(StateId(lifted(next.parent, base)));
            let ghost grown = drafts(*owner);
            assert(next@ == all[k + 1]);
            owner.push(next);
            assert(drafts(*owner) =~= grown.push(all[k + 1]));
            assert(drafts(*owner) =~= before + all.take(k + 2)) by {
                assert(all.take(k + 2) =~= all.take(k + 1).push(all[k + 1]));
            }
            k = k + 1;
        }
        assert(k == subs.len()) by {
            assert(drafts(states).len() == 0);
        }
        assert(all.take(k + 1) =~= all);
    }
}

/// Where the parent of a substate stands once the list that held the substate is
/// appended, behind its root, to a list of length `base`.
fn lifted(parent: Option<StateId>, base: usize) -> (at: usize)
    ensures
        at == lift(crate::chart::index_of(parent), base as int),
{
    match parent {
        None => base,
        Some(p) => {
            if base < usize::MAX && p.0 <= usize::MAX - base - 1 {
                base + 1 + p.0
            } else {
                usize::MAX
            }
        },
    }
}

} // verus!
