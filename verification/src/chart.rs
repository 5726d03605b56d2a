use crate::blueprint::Blueprint;
use crate::builder::StateChartBuilder;
use crate::traits::{ActionId, EventId};
use crate::tree::{Kind, Shape};
use vstd::prelude::*;

verus! {

/// Index of a state in its chart; states are numbered in document order.
#[derive(Clone, Copy, Debug, PartialEq, Eq, Structural, Hash)]
pub struct StateId(pub usize);

/// Label of a state.
#[derive(Clone, Debug)]
pub struct StateLabel(pub String);

impl View for StateLabel {
    type V = Seq<char>;

    open spec fn view(&self) -> Seq<char> {
        self.0@
    }
}

/// A guard on a transition. All parts must hold: the time that the handle has
/// spent in its configuration has reached `delay`; the host has found the
/// predicate `guard` to be true; the state `done` has completed in the step just
/// before, within the same call.
#[derive(Clone, Copy, Debug)]
pub struct Condition {
    pub delay: Option<u64>,
    pub guard: Option<u64>,
    pub done: Option<StateId>,
}

/// A transition of a state.
#[derive(Clone, Debug)]
pub struct Transition {
    /// The descriptors that the transition reacts to; none for an eventless one.
    pub event: Vec<EventId>,
    /// The guard; without one the transition is unconditional.
    pub condition: Option<Condition>,
    /// The state to move to; without one the transition only runs its actions.
    pub target: Option<StateId>,
    /// The actions of the transition, in order.
    pub on_transition: Vec<ActionId>,
}

impl Transition {
    /// The index of the target, or `-1`.
    pub open spec fn target_index(&self) -> int {
        match self.target {
            Some(t) => t.0 as int,
            None => -1,
        }
    }
}

/// A node of the state graph.
#[derive(Clone, Debug)]
pub enum StateNode {
    /// A state whose substates are all active while it is active.
    Parallel {
        id: StateId,
        label: String,
        parent: Option<StateId>,
        on_entry: Vec<ActionId>,
        on_exit: Vec<ActionId>,
        initial: Option<StateId>,
        transitions: Vec<Transition>,
        states: Vec<StateId>,
    },
    /// A state of whose substates exactly one is active while it is active; it is
    /// entered through `initial`.
    Compound {
        id: StateId,
        label: String,
        parent: Option<StateId>,
        on_entry: Vec<ActionId>,
        on_exit: Vec<ActionId>,
        initial: Option<StateId>,
        transitions: Vec<Transition>,
        states: Vec<StateId>,
    },
    /// A leaf.
    Atomic {
        id: StateId,
        label: String,
        parent: Option<StateId>,
        on_entry: Vec<ActionId>,
        on_exit: Vec<ActionId>,
        transitions: Vec<Transition>,
    },
    /// A terminal leaf: it has no transitions, and nothing runs when it is left.
    Final { id: StateId, label: String, parent: Option<StateId>, on_entry: Vec<ActionId> },
}

/// The index that an optional id stands for, `-1` for none.
pub open spec fn index_of(id: Option<StateId>) -> int {
    match id {
        Some(s) => s.0 as int,
        None => -1,
    }
}

impl StateNode {
    /// The kind of the node.
    pub open spec fn variant(&self) -> Kind {
        match self {
            StateNode::Parallel { .. } => Kind::Parallel,
            StateNode::Compound { .. } => Kind::Compound,
            StateNode::Atomic { .. } => Kind::Atomic,
            StateNode::Final { .. } => Kind::Final,
        }
    }

    /// The node's own index.
    pub open spec fn index(&self) -> int {
        match self {
            StateNode::Parallel { id, .. } => id.0 as int,
            StateNode::Compound { id, .. } => id.0 as int,
            StateNode::Atomic { id, .. } => id.0 as int,
            StateNode::Final { id, .. } => id.0 as int,
        }
    }

    /// The node's label.
    pub open spec fn name(&self) -> Seq<char> {
        match self {
            StateNode::Parallel { label, .. } => label@,
            StateNode::Compound { label, .. } => label@,
            StateNode::Atomic { label, .. } => label@,
            StateNode::Final { label, .. } => label@,
        }
    }

    /// The index of the parent, `-1` for a root.
    pub open spec fn parent_index(&self) -> int {
        match self {
            StateNode::Parallel { parent, .. } => index_of(*parent),
            StateNode::Compound { parent, .. } => index_of(*parent),
            StateNode::Atomic { parent, .. } => index_of(*parent),
            StateNode::Final { parent, .. } => index_of(*parent),
        }
    }

    /// The index of the default substate, `-1` where there is none.
    pub open spec fn initial_index(&self) -> int {
        match self {
            StateNode::Parallel { initial, .. } => index_of(*initial),
            StateNode::Compound { initial, .. } => index_of(*initial),
            StateNode::Atomic { .. } => -1,
            StateNode::Final { .. } => -1,
        }
    }

    /// The substates, in document order.
    pub open spec fn children(&self) -> Seq<StateId> {
        match self {
            StateNode::Parallel { states, .. } => states@,
            StateNode::Compound { states, .. } => states@,
            StateNode::Atomic { .. } => Seq::empty(),
            StateNode::Final { .. } => Seq::empty(),
        }
    }

    /// The outgoing transitions, in document order; a final state has none.
    pub open spec fn moves(&self) -> Seq<Transition> {
        match self {
            StateNode::Parallel { transitions, .. } => transitions@,
            StateNode::Compound { transitions, .. } => transitions@,
            StateNode::Atomic { transitions, .. } => transitions@,
            StateNode::Final { .. } => Seq::empty(),
        }
    }

    /// The actions run when the state is entered.
    pub open spec fn entry_actions(&self) -> Seq<ActionId> {
        match self {
            StateNode::Parallel { on_entry, .. } => on_entry@,
            StateNode::Compound { on_entry, .. } => on_entry@,
            StateNode::Atomic { on_entry, .. } => on_entry@,
            StateNode::Final { on_entry, .. } => on_entry@,
        }
    }

    /// The actions run when the state is left; a final state has none.
    pub open spec fn exit_actions(&self) -> Seq<ActionId> {
        match self {
            StateNode::Parallel { on_exit, .. } => on_exit@,
            StateNode::Compound { on_exit, .. } => on_exit@,
            StateNode::Atomic { on_exit, .. } => on_exit@,
            StateNode::Final { .. } => Seq::empty(),
        }
    }

    /// The kind of the node.
    pub fn kind(&self) -> (k: Kind)
        ensures
            k == self.variant(),
    {
        match self {
            StateNode::Parallel { .. } => Kind::Parallel,
            StateNode::Compound { .. } => Kind::Compound,
            StateNode::Atomic { .. } => Kind::Atomic,
            StateNode::Final { .. } => Kind::Final,
        }
    }
}

/// Read access to a node of the state graph.
pub trait State {
    /// Id of the node.
    fn id(&self) -> &StateId;

    /// Label of the node.
    fn label(&self) -> &str;

    /// Substates of the node, in document order.
    fn substates(&self) -> &[StateId];

    /// Parent of the node; none for a root.
    fn parent(&self) -> Option<&StateId>;

    /// Default substate of the node.
    fn initial(&self) -> Option<&StateId>;

    /// Actions run on entry.
    fn on_entry(&self) -> &[ActionId];

    /// Actions run on exit.
    fn on_exit(&self) -> &[ActionId];
}

/// Read access to the transitions of a node.
pub trait ActiveState: State {
    /// Outgoing transitions, in document order.
    fn transitions(&self) -> &[Transition];
}

impl State for StateNode {
    fn id(&self) -> (r: &StateId)
        ensures
            r.0 == self.index(),
    {
        match self {
            StateNode::Parallel { id, .. } => id,
            StateNode::Compound { id, .. } => id,
            StateNode::Atomic { id, .. } => id,
            StateNode::Final { id, .. } => id,
        }
    }

    fn label(&self) -> (r: &str)
        ensures
            r@ == self.name(),
    {
        match self {
            StateNode::Parallel { label, .. } => label.as_str(),
            StateNode::Compound { label, .. } => label.as_str(),
            StateNode::Atomic { label, .. } => label.as_str(),
            StateNode::Final { label, .. } => label.as_str(),
        }
    }

    fn substates(&self) -> (r: &[StateId])
        ensures
            r@ == self.children(),
    {
        match self {
            StateNode::Parallel { states, .. } => states.as_slice(),
            StateNode::Compound { states, .. } => states.as_slice(),
            StateNode::Atomic { .. } => &[],
            StateNode::Final { .. } => &[],
        }
    }

    fn parent(&self) -> (r: Option<&StateId>)
        ensures
            index_of(
                match r {
                    Some(p) => Some(*p),
                    None => None,
                },
            ) == self.parent_index(),
    {
        match self {
            StateNode::Parallel { parent, .. } => parent.as_ref(),
            StateNode::Compound { parent, .. } => parent.as_ref(),
            StateNode::Atomic { parent, .. } => parent.as_ref(),
            StateNode::Final { parent, .. } => parent.as_ref(),
        }
    }

    fn initial(&self) -> (r: Option<&StateId>)
        ensures
            index_of(
                match r {
                    Some(p) => Some(*p),
                    None => None,
                },
            ) == self.initial_index(),
    {
        match self {
            StateNode::Parallel { initial, .. } => initial.as_ref(),
            StateNode::Compound { initial, .. } => initial.as_ref(),
            StateNode::Atomic { .. } => None,
            StateNode::Final { .. } => None,
        }
    }

    fn on_entry(&self) -> (r: &[ActionId])
        ensures
            r@ == self.entry_actions(),
    {
        match self {
            StateNode::Parallel { on_entry, .. } => on_entry.as_slice(),
            StateNode::Compound { on_entry, .. } => on_entry.as_slice(),
            StateNode::Atomic { on_entry, .. } => on_entry.as_slice(),
            StateNode::Final { on_entry, .. } => on_entry.as_slice(),
        }
    }

    fn on_exit(&self) -> (r: &[ActionId])
        ensures
            r@ == self.exit_actions(),
    {
        match self {
            StateNode::Parallel { on_exit, .. } => on_exit.as_slice(),
            StateNode::Compound { on_exit, .. } => on_exit.as_slice(),
            StateNode::Atomic { on_exit, .. } => on_exit.as_slice(),
            StateNode::Final { .. } => &[],
        }
    }
}

impl ActiveState for StateNode {
    fn transitions(&self) -> (r: &[Transition])
        ensures
            r@ == self.moves(),
    {
        match self {
            StateNode::Parallel { transitions, .. } => transitions.as_slice(),
            StateNode::Compound { transitions, .. } => transitions.as_slice(),
            StateNode::Atomic { transitions, .. } => transitions.as_slice(),
            StateNode::Final { .. } => &[],
        }
    }
}

/// The shape that a sequence of nodes describes.
pub open spec fn shape_of(nodes: Seq<StateNode>, start: int) -> Shape {
    Shape {
        parent: Seq::new(nodes.len(), |x: int| nodes[x].parent_index()),
        kind: Seq::new(nodes.len(), |x: int| nodes[x].variant()),
        initial: Seq::new(nodes.len(), |x: int| nodes[x].initial_index()),
        start,
    }
}

/// The node at `x` lists exactly the states whose parent it is, in document order.
pub open spec fn lists_children(nodes: Seq<StateNode>, x: int) -> bool {
    let kids = nodes[x].children();
    &&& forall|k: int|
        0 <= k < kids.len() ==> 0 <= (#[trigger] kids[k]).0 < nodes.len()
            && nodes[kids[k].0 as int].parent_index() == x
    &&& forall|j: int, k: int| 0 <= j < k < kids.len() ==> kids[j].0 < kids[k].0
    &&& forall|y: int|
        0 <= y < nodes.len() && (#[trigger] nodes[y]).parent_index() == x ==> kids.contains(
            StateId(y as usize),
        )
}

/// The rules of a chart: every id that a node holds (its own, its parent, its
/// substates, its default substate, the targets of its transitions) is an index
/// into the same sequence; parents come before their substates, so the graph is a
/// forest; a compound state has a default substate among its own, a parallel
/// state has none; both have substates; the chart starts in a root.
pub open spec fn well_formed(nodes: Seq<StateNode>, start: int) -> bool {
    &&& nodes.len() <= usize::MAX
    &&& shape_of(nodes, start).wf()
    &&& forall|x: int|
        0 <= x < nodes.len() ==> {
            &&& (#[trigger] nodes[x]).index() == x
            &&& lists_children(nodes, x)
            &&& nodes[x].variant() is Parallel ==> nodes[x].initial_index() == -1
            &&& (nodes[x].variant() is Parallel || nodes[x].variant() is Compound)
                ==> nodes[x].children().len() > 0
            &&& nodes[x].moves().len() <= usize::MAX
            &&& forall|k: int|
                0 <= k < nodes[x].moves().len() ==> -1 <= (#[trigger] nodes[x].moves()[k]).target_index()
                    < nodes.len()
        }
}

/// The state graph of a chart. It is built once and never changes; any number of
/// handles may be driven over it.
pub struct StateChart {
    name: String,
    initial: StateId,
    states: Vec<StateNode>,
}

impl StateChart {
    #[verifier::type_invariant]
    spec fn inv(&self) -> bool {
        well_formed(self.states@, self.initial.0 as int)
    }

    /// The nodes of the chart, indexed by state id.
    pub closed spec fn nodes(&self) -> Seq<StateNode> {
        self.states@
    }

    /// The index of the root in which the chart starts.
    pub closed spec fn origin(&self) -> int {
        self.initial.0 as int
    }

    /// The name of the chart.
    pub closed spec fn title(&self) -> Seq<char> {
        self.name@
    }

    /// The chart keeps the rules of a chart. Every chart does.
    pub open spec fn wf(&self) -> bool {
        well_formed(self.nodes(), self.origin())
    }

    /// The shape of the chart.
    pub open spec fn shape(&self) -> Shape {
        shape_of(self.nodes(), self.origin())
    }

    /// Number of states, as a spec value.
    pub open spec fn size(&self) -> int {
        self.nodes().len() as int
    }

    /// Starts the construction of a chart.
    pub fn build() -> (b: StateChartBuilder)
        ensures
            b@ == (Blueprint { name: Seq::empty(), initial: None, states: Seq::empty() }),
    {
        StateChartBuilder::build()
    }

    /// Freezes nodes that keep the rules into a chart.
    pub(crate) fn assemble(name: String, initial: StateId, states: Vec<StateNode>) -> (chart:
        StateChart)
        requires
            well_formed(states@, initial.0 as int),
        ensures
            chart.nodes() == states@,
            chart.origin() == initial.0,
            chart.title() == name@,
            chart.wf(),
    {
        StateChart { name, initial, states }
    }

    /// Number of states.
    pub fn len(&self) -> (n: usize)
        ensures
            n == self.size(),
            self.wf(),
    {
        proof {
            use_type_invariant(self);
        }
        self.states.len()
    }

    /// Name of the chart.
    pub fn name(&self) -> (r: &str)
        ensures
            r@ == self.title(),
    {
        self.name.as_str()
    }

    /// The root in which the chart starts.
    pub fn initial(&self) -> (r: StateId)
        ensures
            r.0 == self.origin(),
            0 <= self.origin() < self.size(),
    {
        proof {
            use_type_invariant(self);
        }
        self.initial
    }

    /// The node with the given id; none exactly when the chart has no such state.
    pub fn state(&self, id: StateId) -> (r: Option<&StateNode>)
        ensures
            match r {
                Some(node) => id.0 < self.size() && *node == self.nodes()[id.0 as int],
                None => id.0 >= self.size(),
            },
    {
        if id.0 < self.states.len() {
            Some(&self.states[id.0])
        } else {
            None
        }
    }

    /// The nodes of the chart, indexed by state id.
    pub fn states(&self) -> (r: &[StateNode])
        ensures
            r@ == self.nodes(),
    {
        self.states.as_slice()
    }

    /// The node at an index of the chart.
    pub(crate) fn node(&self, x: usize) -> (node: &StateNode)
        requires
            x < self.size(),
        ensures
            *node == self.nodes()[x as int],
            self.wf(),
    {
        proof {
            use_type_invariant(self);
        }
        &self.states[x]
    }

    /// The parent of the state at an index, none for a root.
    pub(crate) fn parent_at(&self, x: usize) -> (p: Option<usize>)
        requires
            x < self.size(),
        ensures
            self.wf(),
            match p {
                Some(p) => p == self.shape().parent[x as int] && p < x,
                None => self.shape().parent[x as int] == -1,
            },
    {
        proof {
            use_type_invariant(self);
        }
        match self.states[x].parent() {
            Some(p) => Some(p.0),
            None => None,
        }
    }

    /// The kind of the state at an index.
    pub(crate) fn kind_at(&self, x: usize) -> (k: Kind)
        requires
            x < self.size(),
        ensures
            self.wf(),
            k == self.shape().kind[x as int],
    {
        proof {
            use_type_invariant(self);
        }
        self.states[x].kind()
    }
}

} // verus!
