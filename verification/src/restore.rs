use crate::chart::{
    index_of, lists_children, shape_of, well_formed, ActiveState, State, StateChart, StateId,
    StateNode,
};
use crate::result::{StateMachineError, StateMachineResult};
use crate::tree::Kind;
use vstd::prelude::*;

verus! {

/// The rules of a chart that speak of the node at `x` alone.
pub open spec fn node_ok(nodes: Seq<StateNode>, x: int) -> bool {
    &&& nodes[x].index() == x
    &&& -1 <= nodes[x].parent_index() < x
    &&& nodes[x].parent_index() >= 0 ==> (nodes[nodes[x].parent_index()].variant() is Compound
        || nodes[nodes[x].parent_index()].variant() is Parallel)
    &&& nodes[x].variant() is Compound ==> x < nodes[x].initial_index() < nodes.len()
        && nodes[nodes[x].initial_index()].parent_index() == x
    &&& nodes[x].variant() is Parallel ==> nodes[x].initial_index() == -1
    &&& (nodes[x].variant() is Parallel || nodes[x].variant() is Compound)
        ==> nodes[x].children().len() > 0
    &&& lists_children(nodes, x)
    &&& forall|k: int|
        0 <= k < nodes[x].moves().len() ==> -1 <= (#[trigger] nodes[x].moves()[k]).target_index()
            < nodes.len()
}

/// The rules of a chart, node by node.
pub proof fn lemma_well_formed(nodes: Seq<StateNode>, start: int)
    requires
        nodes.len() <= usize::MAX,
        forall|x: int| 0 <= x < nodes.len() ==> (#[trigger] nodes[x]).moves().len() <= usize::MAX,
    ensures
        well_formed(nodes, start) == (0 <= start < nodes.len() && nodes[start].parent_index() == -1
            && forall|x: int| 0 <= x < nodes.len() ==> #[trigger] node_ok(nodes, x)),
{
    let shape = shape_of(nodes, start);
    if well_formed(nodes, start) {
        assert forall|x: int| 0 <= x < nodes.len() implies #[trigger] node_ok(nodes, x) by {
            assert(nodes[x].index() == x);
            assert(-1 <= shape.parent[x] < x);
            assert(shape.kind[x] == nodes[x].variant());
            assert(shape.initial[x] == nodes[x].initial_index());
        }
    }
    if 0 <= start < nodes.len() && nodes[start].parent_index() == -1 && forall|x: int|
        0 <= x < nodes.len() ==> #[trigger] node_ok(nodes, x) {
        assert forall|x: int| #![trigger shape.parent[x]] shape.has(x) implies -1 <= shape.parent[x]
            < x by {
            assert(node_ok(nodes, x));
        }
        assert forall|x: int| #![trigger shape.parent[x]] shape.has(x) && shape.parent[x] >= 0 implies (
        shape.kind[shape.parent[x]] is Compound || shape.kind[shape.parent[x]] is Parallel) by {
            assert(node_ok(nodes, x));
        }
        assert forall|x: int|
            #![trigger shape.initial[x]]
            #![trigger shape.kind[x]]
            shape.has(x) && shape.kind[x] is Compound implies x < shape.initial[x] < shape.len()
            && shape.parent[shape.initial[x]] == x by {
            assert(node_ok(nodes, x));
        }
        assert(shape.wf());
        assert forall|x: int| 0 <= x < nodes.len() implies {
            &&& (#[trigger] nodes[x]).index() == x
            &&& lists_children(nodes, x)
            &&& nodes[x].variant() is Parallel ==> nodes[x].initial_index() == -1
            &&& (nodes[x].variant() is Parallel || nodes[x].variant() is Compound)
                ==> nodes[x].children().len() > 0
            &&& nodes[x].moves().len() <= usize::MAX
            &&& forall|k: int|
                0 <= k < nodes[x].moves().len() ==> -1 <= (#[trigger] nodes[x].moves()[k]).target_index()
                    < nodes.len()
        } by {
            assert(node_ok(nodes, x));
        }
    }
}

/// Tells whether the node at `x` lists exactly the states whose parent it is, in
/// document order.
fn lists_its_children(nodes: &Vec<StateNode>, x: usize) -> (b: bool)
    requires
        x < nodes.len(),
    ensures
        b == lists_children(nodes@, x as int),
{
    let n = nodes.len();
    let kids = nodes[x].substates();
    let mut k: usize = 0;
    let mut y: usize = 0;
    while y < n
        invariant
            y <= n,
            n == nodes.len(),
            x < n,
            k <= kids.len(),
            kids@ == nodes@[x as int].children(),
            forall|j: int|
                0 <= j < k ==> (#[trigger] kids@[j]).0 < y && nodes@[kids@[j].0 as int].parent_index()
                    == x,
            forall|i: int, j: int| 0 <= i < j < k ==> kids@[i].0 < kids@[j].0,
            forall|z: int|
                0 <= z < y && (#[trigger] nodes@[z]).parent_index() == x ==> exists|j: int|
                    0 <= j < k && kids@[j] == StateId(z as usize),
        decreases n - y,
    {
        let under = match nodes[y].parent() {
            Some(p) => p.0 == x,
            None => false,
        };
        if under {
            if k >= kids.len() || kids[k].0 != y {
                proof {
                    if lists_children(nodes@, x as int) {
                        assert(kids@.contains(StateId(y)));
                        let j = choose|j: int| 0 <= j < kids@.len() && kids@[j] == StateId(y);
                        if j < k {
                            assert(kids@[j].0 < y);
                        } else if j > k {
                            assert(kids@[k as int].0 < kids@[j].0);
                            assert(nodes@[kids@[k as int].0 as int].parent_index() == x);
                            let z = kids@[k as int].0 as int;
                            let i = choose|i: int| 0 <= i < k && kids@[i] == StateId(z as usize);
                            assert(kids@[i].0 < kids@[k as int].0);
                        }
                    }
                }
                return false;
            }
            k = k + 1;
        }
        y = y + 1;
    }
    if k < kids.len() {
        proof {
            if lists_children(nodes@, x as int) {
                let z = kids@[k as int].0 as int;
                assert(nodes@[z].parent_index() == x);
                let i = choose|i: int| 0 <= i < k && kids@[i] == StateId(z as usize);
                assert(kids@[i].0 < kids@[k as int].0);
            }
        }
        return false;
    }
    proof {
        assert forall|z: int|
            0 <= z < nodes@.len() && (#[trigger] nodes@[z]).parent_index() == x implies kids@.contains(
            StateId(z as usize),
        ) by {
            let j = choose|j: int| 0 <= j < k && kids@[j] == StateId(z as usize);
            assert(kids@[j] == StateId(z as usize));
        }
    }
    true
}

/// Tells whether the node at `x` keeps the rules that speak of it alone.
fn node_is_ok(nodes: &Vec<StateNode>, x: usize) -> (b: bool)
    requires
        x < nodes.len(),
    ensures
        b == node_ok(nodes@, x as int),
{
    let n = nodes.len();
    let node = &nodes[x];
    if node.id().0 != x {
        return false;
    }
    match node.parent() {
        None => {},
        Some(p) => {
            if p.0 >= x {
                return false;
            }
            match nodes[p.0].kind() {
                Kind::Compound => {},
                Kind::Parallel => {},
                _ => {
                    return false;
                },
            }
        },
    }
    match node.kind() {
        Kind::Compound => {
            match node.initial() {
                None => {
                    return false;
                },
                Some(c) => {
                    if c.0 <= x || c.0 >= n {
                        return false;
                    }
                    let inside = match nodes[c.0].parent() {
                        Some(q) => q.0 == x,
                        None => false,
                    };
                    if !inside {
                        return false;
                    }
                },
            }
            if node.substates().len() == 0 {
                return false;
            }
        },
        Kind::Parallel => {
            if node.initial().is_some() {
                return false;
            }
            if node.substates().len() == 0 {
                return false;
            }
        },
        _ => {},
    }
    if !lists_its_children(nodes, x) {
        return false;
    }
    let moves = node.transitions();
    let mut k: usize = 0;
    while k < moves.len()
        invariant
            k <= moves.len(),
            n == nodes.len(),
            x < n,
            moves@ == nodes@[x as int].moves(),
            forall|j: int| 0 <= j < k ==> -1 <= (#[trigger] moves@[j]).target_index() < n,
        decreases moves.len() - k,
    {
        match moves[k].target {
            Some(t) => {
                if t.0 >= n {
                    return false;
                }
            },
            None => {},
        }
        k = k + 1;
    }
    true
}

impl StateChart {
    /// Makes a chart of nodes that were built elsewhere, for one that was stored.
    ///
    /// The chart comes back exactly when the nodes keep the rules of a chart and
    /// `initial` is a root among them; it then holds these nodes. Otherwise the
    /// error is `MalformedChart`.
    pub fn restore(name: String, initial: StateId, states: Vec<StateNode>) -> (r:
        StateMachineResult<StateChart>)
        ensures
            match r {
                Ok(chart) => well_formed(states@, initial.0 as int) && chart.nodes() == states@
                    && chart.origin() == initial.0 && chart.title() == name@,
                Err(e) => e == StateMachineError::MalformedChart && !well_formed(
                    states@,
                    initial.0 as int,
                ),
            },
    {
        let n = states.len();
        let mut x: usize = 0;
        while x < n
            invariant
                x <= n,
                n == states.len(),
                forall|y: int| 0 <= y < x ==> #[trigger] node_ok(states@, y),
            decreases n - x,
        {
            if !node_is_ok(&states, x) {
                proof {
                    lemma_lengths(states@);
                    lemma_well_formed(states@, initial.0 as int);
                }
                return Err(StateMachineError::MalformedChart);
            }
            x = x + 1;
        }
        proof {
            lemma_lengths(states@);
            lemma_well_formed(states@, initial.0 as int);
        }
        let rooted = initial.0 < n && states[initial.0].parent().is_none();
        if !rooted {
            return Err(StateMachineError::MalformedChart);
        }
        Ok(StateChart::assemble(name, initial, states))
    }
}

/// The lists of transitions are those of vectors: none is longer than a vector
/// can be.
proof fn lemma_lengths(nodes: Seq<StateNode>)
    ensures
        forall|y: int| 0 <= y < nodes.len() ==> (#[trigger] nodes[y]).moves().len() <= usize::MAX,
{
    assert forall|y: int| 0 <= y < nodes.len() implies (#[trigger] nodes[y]).moves().len()
        <= usize::MAX by {
        match nodes[y] {
            StateNode::Parallel { transitions, .. } => {
                assert(transitions@.len() == transitions.len());
            },
            StateNode::Compound { transitions, .. } => {
                assert(transitions@.len() == transitions.len());
            },
            StateNode::Atomic { transitions, .. } => {
                assert(transitions@.len() == transitions.len());
            },
            StateNode::Final { .. } => {},
        }
    }
}

} // verus!
