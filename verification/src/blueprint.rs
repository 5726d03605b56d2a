use crate::chart::{lists_children, shape_of, well_formed, Condition, StateChart, StateId, StateNode, Transition};
use crate::traits::{ActionId, EventId};
use crate::tree::Kind;
use vstd::prelude::*;

verus! {

/// What a transition builder holds, as plain values.
pub struct TransitionView {
    pub events: Seq<EventId>,
    pub condition: Option<Condition>,
    pub target: Option<Seq<char>>,
    pub actions: Seq<ActionId>,
    pub done: bool,
}

/// The condition, or the one that always holds.
pub open spec fn or_blank(c: Option<Condition>) -> Condition {
    match c {
        Some(c) => c,
        None => Condition { delay: None, guard: None, done: None },
    }
}

/// The condition of a transition of the state at `i` in the chart: the one that
/// the builder holds, which waits for the completion of that state if the
/// builder says so.
pub open spec fn frozen(c: Option<Condition>, done: bool, i: int) -> Option<Condition> {
    if done {
        Some(Condition { done: Some(StateId(i as usize)), ..or_blank(c) })
    } else {
        c
    }
}

/// What has been said of one state, as plain values. `parent` is `-1` for a root.
pub struct DraftView {
    pub parent: int,
    pub label: Seq<char>,
    pub on_entry: Seq<ActionId>,
    pub on_exit: Seq<ActionId>,
    pub initial: Option<Seq<char>>,
    pub transitions: Seq<TransitionView>,
    pub parallel: bool,
    pub terminal: bool,
}

/// What a chart builder holds, as plain values.
pub struct Blueprint {
    pub name: Seq<char>,
    pub initial: Option<Seq<char>>,
    pub states: Seq<DraftView>,
}

/// The draft of a state of which nothing has been said but its parent.
pub open spec fn blank(parent: int) -> DraftView {
    DraftView {
        parent,
        label: Seq::empty(),
        on_entry: Seq::empty(),
        on_exit: Seq::empty(),
        initial: None,
        transitions: Seq::empty(),
        parallel: false,
        terminal: false,
    }
}

/// Where the parent of a substate stands once the list that held the substate is
/// appended, behind its root, to a list of length `base`: a substate without
/// parent belongs to the root, which stands at `base`; the places of the list
/// come behind the root. A place beyond the largest index stays at the largest.
pub open spec fn lift(parent: int, base: int) -> int {
    if parent < 0 {
        base
    } else if base + 1 + parent <= usize::MAX {
        base + 1 + parent
    } else {
        usize::MAX as int
    }
}

/// What a finished state adds to a list of length `base`: the state itself,
/// without parent, then its finished substates with their parents lifted.
pub open spec fn planted(root: DraftView, subs: Seq<DraftView>, base: int) -> Seq<DraftView> {
    Seq::new(
        subs.len() + 1,
        |i: int|
            if i == 0 {
                DraftView { parent: -1, ..root }
            } else {
                DraftView { parent: lift(subs[i - 1].parent, base), ..subs[i - 1] }
            },
    )
}

impl Blueprint {
    /// The parent of each state comes before it.
    pub open spec fn ordered(self) -> bool {
        forall|i: int| 0 <= i < self.states.len() ==> -1 <= (#[trigger] self.states[i]).parent < i
    }

    /// The blueprint with one more state.
    pub open spec fn with_state(self, d: DraftView) -> Blueprint {
        Blueprint { states: self.states.push(d), ..self }
    }

    /// Number of states.
    pub open spec fn len(self) -> int {
        self.states.len() as int
    }

    /// The first state from `k` on that has the label; `-1` if there is none.
    pub open spec fn find(self, label: Seq<char>, k: int) -> int
        decreases self.states.len() - k,
    {
        if k < 0 || k >= self.states.len() {
            -1
        } else if self.states[k].label == label {
            k
        } else {
            self.find(label, k + 1)
        }
    }

    /// The first substate of `p` from `k` on that has the label; `-1` if there is
    /// none.
    pub open spec fn find_child(self, p: int, label: Seq<char>, k: int) -> int
        decreases self.states.len() - k,
    {
        if k < 0 || k >= self.states.len() {
            -1
        } else if self.states[k].parent == p && self.states[k].label == label {
            k
        } else {
            self.find_child(p, label, k + 1)
        }
    }

    /// The state that an optional label names: the first with that label in
    /// document order; `-1` without a label or without such a state.
    pub open spec fn resolve(self, label: Option<Seq<char>>) -> int {
        match label {
            Some(l) => self.find(l, 0),
            None => -1,
        }
    }

    /// The substate of `p` that an optional label names; `-1` if there is none.
    pub open spec fn resolve_child(self, p: int, label: Option<Seq<char>>) -> int {
        match label {
            Some(l) => self.find_child(p, l, 0),
            None => -1,
        }
    }

    /// The substates of `p` among the first `m` states, in document order.
    pub open spec fn children(self, p: int, m: int) -> Seq<StateId>
        decreases m,
    {
        if m <= 0 {
            Seq::empty()
        } else if self.states[m - 1].parent == p {
            self.children(p, m - 1).push(StateId((m - 1) as usize))
        } else {
            self.children(p, m - 1)
        }
    }

    /// The kind that the state at `i` gets: with substates it is parallel or
    /// compound, as its flag says; without, final or atomic.
    pub open spec fn kind(self, i: int) -> Kind {
        if self.children(i, self.len()).len() > 0 {
            if self.states[i].parallel {
                Kind::Parallel
            } else {
                Kind::Compound
            }
        } else if self.states[i].terminal {
            Kind::Final
        } else {
            Kind::Atomic
        }
    }

    /// The rules for one state: every target names a state; a compound state names
    /// one of its own substates as default; no other state names a default; a final
    /// state has no substates, no transitions and no exit actions.
    pub open spec fn state_ok(self, i: int) -> bool {
        let d = self.states[i];
        &&& forall|k: int|
            0 <= k < d.transitions.len() && (#[trigger] d.transitions[k]).target is Some
                ==> self.resolve(d.transitions[k].target) >= 0
        &&& match self.kind(i) {
            Kind::Compound => !d.terminal && self.resolve_child(i, d.initial) >= 0,
            Kind::Parallel => !d.terminal && d.initial is None,
            Kind::Atomic => d.initial is None,
            Kind::Final => d.initial is None && d.transitions.len() == 0 && d.on_exit.len() == 0,
        }
    }

    /// The rules of a chart: parents come first, so that no state is its own
    /// ancestor; the chart names a root to start in; every state keeps its rules.
    pub open spec fn valid(self) -> bool {
        &&& self.ordered()
        &&& self.resolve(self.initial) >= 0
        &&& self.states[self.resolve(self.initial)].parent == -1
        &&& forall|i: int| 0 <= i < self.states.len() ==> self.state_ok(i)
    }

    /// The transition of the chart is the one that the builder holds, with its
    /// target resolved.
    pub open spec fn pictured(self, i: int, t: TransitionView, m: Transition) -> bool {
        &&& m.event@ == t.events
        &&& m.condition == frozen(t.condition, t.done, i)
        &&& m.target_index() == self.resolve(t.target)
        &&& m.on_transition@ == t.actions
    }

    /// The node is the state at `i`, with its kind decided, its substates listed
    /// and its labels resolved.
    pub open spec fn depicted(self, i: int, node: StateNode) -> bool {
        let d = self.states[i];
        &&& node.variant() == self.kind(i)
        &&& node.index() == i
        &&& node.name() == d.label
        &&& node.parent_index() == d.parent
        &&& node.entry_actions() == d.on_entry
        &&& node.exit_actions() == d.on_exit
        &&& node.children() == self.children(i, self.len())
        &&& node.initial_index() == self.resolve_child(i, d.initial)
        &&& node.moves().len() == d.transitions.len()
        &&& forall|k: int|
            0 <= k < d.transitions.len() ==> self.pictured(i, d.transitions[k], #[trigger] node.moves()[k])
    }

    /// The nodes are the states of the blueprint, in order.
    pub open spec fn drawn(self, nodes: Seq<StateNode>) -> bool {
        &&& nodes.len() == self.states.len()
        &&& forall|i: int| 0 <= i < self.states.len() ==> self.depicted(i, #[trigger] nodes[i])
    }

    /// The chart is the one that the blueprint describes.
    pub open spec fn depicts(self, chart: StateChart) -> bool {
        &&& chart.title() == self.name
        &&& chart.origin() == self.resolve(self.initial)
        &&& self.drawn(chart.nodes())
    }

    /// What `find` returns is a state with the label, not before `k`.
    pub proof fn lemma_find(self, label: Seq<char>, k: int)
        requires
            0 <= k,
        ensures
            self.find(label, k) == -1 || (k <= self.find(label, k) < self.len()
                && self.states[self.find(label, k)].label == label),
        decreases self.states.len() - k,
    {
        if k < self.states.len() && self.states[k].label != label {
            self.lemma_find(label, k + 1);
        }
    }

    /// What `find_child` returns is a substate of `p` with the label, not before
    /// `k`.
    pub proof fn lemma_find_child(self, p: int, label: Seq<char>, k: int)
        requires
            0 <= k,
        ensures
            self.find_child(p, label, k) == -1 || (k <= self.find_child(p, label, k) < self.len()
                && self.states[self.find_child(p, label, k)].parent == p
                && self.states[self.find_child(p, label, k)].label == label),
        decreases self.states.len() - k,
    {
        if k < self.states.len() && !(self.states[k].parent == p && self.states[k].label == label) {
            self.lemma_find_child(p, label, k + 1);
        }
    }

    /// The list of substates names exactly the substates, in ascending order.
    pub proof fn lemma_children(self, p: int, m: int)
        requires
            0 <= m <= self.len(),
            m <= usize::MAX,
        ensures
            forall|k: int|
                0 <= k < self.children(p, m).len() ==> (#[trigger] self.children(p, m)[k]).0 < m
                    && self.states[self.children(p, m)[k].0 as int].parent == p,
            forall|j: int, k: int|
                0 <= j < k < self.children(p, m).len() ==> self.children(p, m)[j].0
                    < self.children(p, m)[k].0,
            forall|y: int|
                0 <= y < m && (#[trigger] self.states[y]).parent == p ==> self.children(
                    p,
                    m,
                ).contains(StateId(y as usize)),
        decreases m,
    {
        if m > 0 {
            self.lemma_children(p, m - 1);
            let rest = self.children(p, m - 1);
            let all = self.children(p, m);
            assert forall|y: int| 0 <= y < m && (#[trigger] self.states[y]).parent == p implies all.contains(
                StateId(y as usize),
            ) by {
                if y < m - 1 {
                    let k = choose|k: int| 0 <= k < rest.len() && rest[k] == StateId(y as usize);
                    assert(all[k] == StateId(y as usize));
                } else {
                    assert(all[rest.len() as int] == StateId(y as usize));
                }
            }
        }
    }

    /// Nodes drawn from a valid blueprint keep the rules of a chart.
    pub proof fn lemma_drawn_well_formed(self, nodes: Seq<StateNode>)
        requires
            self.valid(),
            self.drawn(nodes),
            self.len() <= usize::MAX,
            forall|i: int| 0 <= i < nodes.len() ==> (#[trigger] nodes[i]).moves().len() <= usize::MAX,
        ensures
            well_formed(nodes, self.resolve(self.initial)),
    {
        let n = self.len();
        let start = self.resolve(self.initial);
        let shape = shape_of(nodes, start);
        assert forall|x: int| 0 <= x < n implies self.depicted(x, nodes[x]) && self.state_ok(x) by {}
        assert forall|x: int| #![trigger shape.parent[x]] shape.has(x) implies -1 <= shape.parent[x]
            < x by {
            assert(self.depicted(x, nodes[x]));
            assert(-1 <= self.states[x].parent < x);
        }
        assert forall|x: int| #![trigger shape.parent[x]] shape.has(x) && shape.parent[x] >= 0 implies (
        shape.kind[shape.parent[x]] is Compound || shape.kind[shape.parent[x]] is Parallel) by {
            let p = shape.parent[x];
            assert(self.depicted(x, nodes[x]));
            assert(-1 <= self.states[x].parent < x);
            assert(self.depicted(p, nodes[p]));
            self.lemma_children(p, n);
            assert(self.children(p, n).contains(StateId(x as usize)));
        }
        assert forall|x: int|
            #![trigger shape.initial[x]]
            #![trigger shape.kind[x]]
            shape.has(x) && shape.kind[x] is Compound implies x < shape.initial[x] < shape.len()
            && shape.parent[shape.initial[x]] == x by {
            assert(self.depicted(x, nodes[x]) && self.state_ok(x));
            let l = self.states[x].initial->0;
            self.lemma_find_child(x, l, 0);
            let c = self.find_child(x, l, 0);
            assert(self.depicted(c, nodes[c]));
            assert(-1 <= self.states[c].parent < c);
        }
        match self.initial {
            Some(l) => {
                self.lemma_find(l, 0);
            },
            None => {},
        }
        assert(self.depicted(start, nodes[start]));
        assert(shape.wf());
        assert forall|x: int| 0 <= x < nodes.len() implies {
            &&& (#[trigger] nodes[x]).index() == x
            &&& lists_children(nodes, x)
            &&& nodes[x].variant() is Parallel ==> nodes[x].initial_index() == -1
            &&& (nodes[x].variant() is Parallel || nodes[x].variant() is Compound)
                ==> nodes[x].children().len() > 0
            &&& nodes[x].moves().len() <= usize::MAX
            &&& forall|k: int|
                0 <= k < nodes[x].moves().len() ==> -1 <= (#[trigger] nodes[x].moves()[k]).target_index()
                    < nodes.len()
        } by {
            assert(self.depicted(x, nodes[x]) && self.state_ok(x));
            self.lemma_children(x, n);
            let kids = nodes[x].children();
            assert forall|k: int| 0 <= k < kids.len() implies 0 <= (#[trigger] kids[k]).0 < nodes.len()
                && nodes[kids[k].0 as int].parent_index() == x by {
                assert(self.depicted(kids[k].0 as int, nodes[kids[k].0 as int]));
            }
            assert forall|y: int|
                0 <= y < nodes.len() && (#[trigger] nodes[y]).parent_index() == x implies kids.contains(
                StateId(y as usize),
            ) by {
                assert(self.depicted(y, nodes[y]));
                assert(self.states[y].parent == x);
            }
            assert forall|k: int| 0 <= k < nodes[x].moves().len() implies -1 <= (
            #[trigger] nodes[x].moves()[k]).target_index() < nodes.len() by {
                let t = self.states[x].transitions[k];
                assert(self.pictured(x, t, nodes[x].moves()[k]));
                match t.target {
                    Some(l) => {
                        self.lemma_find(l, 0);
                    },
                    None => {},
                }
            }
        }
    }
}

} // verus!
