use vstd::prelude::*;

verus! {

/// The four kinds of state.
#[derive(Clone, Copy, Debug, PartialEq, Eq, Structural)]
pub enum Kind {
    /// A leaf with behaviour.
    Atomic,
    /// A state with substates, one of which is active at a time.
    Compound,
    /// A state with substates that are all active together.
    Parallel,
    /// A terminal leaf.
    Final,
}

/// The shape of a chart: for each state its parent (`-1` for a root), its kind and
/// its default substate, and the root that the chart starts in.
///
/// The roots are treated as the substates of a compound state of index `-1`, the
/// top, whose default substate is `start` and which is always active.
pub struct Shape {
    pub parent: Seq<int>,
    pub kind: Seq<Kind>,
    pub initial: Seq<int>,
    pub start: int,
}

impl Shape {
    /// Number of states.
    pub open spec fn len(self) -> int {
        self.parent.len() as int
    }

    /// `x` is a state of the chart.
    pub open spec fn has(self, x: int) -> bool {
        0 <= x < self.len()
    }

    /// The kind of a state, or of the top.
    pub open spec fn kind_of(self, q: int) -> Kind {
        if q == -1 {
            Kind::Compound
        } else {
            self.kind[q]
        }
    }

    /// The default substate of a state, or of the top.
    pub open spec fn default_child(self, q: int) -> int {
        if q == -1 {
            self.start
        } else {
            self.initial[q]
        }
    }

    /// Parents come before their substates, only compound and parallel states have
    /// substates, and a compound state's default substate is one of its own.
    pub open spec fn wf(self) -> bool {
        &&& self.kind.len() == self.parent.len()
        &&& self.initial.len() == self.parent.len()
        &&& self.has(self.start)
        &&& self.parent[self.start] == -1
        &&& forall|x: int| #![trigger self.parent[x]] self.has(x) ==> -1 <= self.parent[x] < x
        &&& forall|x: int|
            #![trigger self.parent[x]]
            self.has(x) && self.parent[x] >= 0 ==> (self.kind[self.parent[x]] is Compound
                || self.kind[self.parent[x]] is Parallel)
        &&& forall|x: int|
            #![trigger self.initial[x]]
            #![trigger self.kind[x]]
            self.has(x) && self.kind[x] is Compound ==> x < self.initial[x] < self.len()
                && self.parent[self.initial[x]] == x
    }

    /// `x` is a proper descendant of `d`, where `d` may be the top.
    pub open spec fn below(self, x: int, d: int) -> bool
        decreases x,
    {
        self.has(x) && (self.parent[x] == d || (0 <= self.parent[x] < x && self.below(
            self.parent[x],
            d,
        )))
    }

    /// `x` is `d` or a proper descendant of `d`.
    pub open spec fn within(self, x: int, d: int) -> bool {
        x == d || self.below(x, d)
    }

    /// The substate of `d` that `t` lies within, for `t` below `d`.
    pub open spec fn toward(self, t: int, d: int) -> int
        decreases t,
    {
        if self.has(t) && self.parent[t] != d && 0 <= self.parent[t] < t {
            self.toward(self.parent[t], d)
        } else {
            t
        }
    }

    /// `x` is entered by a move into `t` that leaves everything below `d`: it lies
    /// on the way from `d` down to `t`; or it is a substate of `d` and `d` is
    /// parallel, so that every region that was left is entered again; or it is
    /// reached from an entered state because that state is parallel, or is
    /// compound, does not lead to `t`, and has `x` as its default substate.
    pub open spec fn entered(self, d: int, t: int, x: int) -> bool
        decreases x,
    {
        self.has(x) && ((self.below(x, d) && self.within(t, x)) || (0 <= self.parent[x] < x && ((
        self.parent[x] == d && self.kind[d] is Parallel) || (self.entered(d, t, self.parent[x]) && (
        self.kind[self.parent[x]] is Parallel || (self.kind[self.parent[x]] is Compound
            && self.initial[self.parent[x]] == x && !self.below(t, self.parent[x])))))))
    }

    /// The one substate of `q` that is entered, for a compound `q` that is entered
    /// or is `d` itself.
    pub open spec fn entered_child(self, t: int, q: int) -> int {
        if self.below(t, q) {
            self.toward(t, q)
        } else {
            self.default_child(q)
        }
    }

    pub proof fn lemma_below_bounds(self, x: int, d: int)
        requires
            self.wf(),
            self.below(x, d),
        ensures
            -1 <= d < x,
            self.has(x),
        decreases x,
    {
        if self.parent[x] != d {
            self.lemma_below_bounds(self.parent[x], d);
        }
    }

    /// Every state lies below the top.
    pub proof fn lemma_below_top(self, x: int)
        requires
            self.wf(),
            self.has(x),
        ensures
            self.below(x, -1),
        decreases x,
    {
        if self.parent[x] != -1 {
            self.lemma_below_top(self.parent[x]);
        }
    }

    pub proof fn lemma_below_trans(self, x: int, y: int, d: int)
        requires
            self.wf(),
            self.below(x, y),
            self.below(y, d),
        ensures
            self.below(x, d),
        decreases x,
    {
        self.lemma_below_bounds(y, d);
        if self.parent[x] != y {
            self.lemma_below_trans(self.parent[x], y, d);
        }
    }

    /// The ancestors of a state form a chain.
    pub proof fn lemma_below_chain(self, x: int, a: int, b: int)
        requires
            self.wf(),
            self.below(x, a),
            self.below(x, b),
        ensures
            a == b || self.below(a, b) || self.below(b, a),
        decreases x,
    {
        let p = self.parent[x];
        if p != a && p != b {
            self.lemma_below_chain(p, a, b);
        }
    }

    /// Two substates of one state do not contain each other.
    pub proof fn lemma_siblings_apart(self, y: int, z: int)
        requires
            self.wf(),
            self.has(y),
            self.has(z),
            self.parent[y] == self.parent[z],
        ensures
            !self.below(y, z),
    {
        if self.below(y, z) {
            if self.parent[y] != z {
                self.lemma_below_bounds(self.parent[y], z);
            }
        }
    }

    pub proof fn lemma_toward(self, t: int, d: int)
        requires
            self.wf(),
            self.below(t, d),
        ensures
            self.has(self.toward(t, d)),
            self.parent[self.toward(t, d)] == d,
            self.within(t, self.toward(t, d)),
        decreases t,
    {
        if self.parent[t] != d {
            self.lemma_toward(self.parent[t], d);
        }
    }

    /// A substate of `d` that `t` lies within is the one that `toward` names.
    pub proof fn lemma_toward_unique(self, t: int, d: int, y: int)
        requires
            self.wf(),
            self.has(y),
            self.parent[y] == d,
            self.within(t, y),
        ensures
            self.below(t, d),
            y == self.toward(t, d),
    {
        assert(self.below(y, d));
        if y != t {
            self.lemma_below_trans(t, y, d);
        }
        self.lemma_toward(t, d);
        let z = self.toward(t, d);
        if y != z {
            self.lemma_siblings_apart(y, z);
            self.lemma_siblings_apart(z, y);
            if y != t && z != t {
                self.lemma_below_chain(t, y, z);
            }
        }
    }

    /// What a move enters lies below what it leaves.
    pub proof fn lemma_entered_below(self, d: int, t: int, x: int)
        requires
            self.wf(),
            self.entered(d, t, x),
        ensures
            self.below(x, d),
        decreases x,
    {
        if !(self.below(x, d) && self.within(t, x)) && self.parent[x] != d {
            self.lemma_entered_below(d, t, self.parent[x]);
        }
    }

    /// The parent of an entered state is entered too, unless it is `d`.
    pub proof fn lemma_entered_parent(self, d: int, t: int, x: int)
        requires
            self.wf(),
            self.entered(d, t, x),
            self.parent[x] != d,
        ensures
            self.entered(d, t, self.parent[x]),
    {
        let p = self.parent[x];
        if self.below(x, d) && self.within(t, x) {
            assert(self.below(p, d));
            assert(self.below(x, p));
            if t != x {
                self.lemma_below_trans(t, x, p);
            }
        }
    }

    /// Of the substates of a compound state that is entered, or is `d`, exactly one
    /// is entered.
    pub proof fn lemma_entered_child(self, d: int, t: int, q: int)
        requires
            self.wf(),
            self.below(t, d),
            q == d || self.entered(d, t, q),
            -1 <= q,
            self.kind_of(q) is Compound,
        ensures
            self.has(self.entered_child(t, q)),
            self.parent[self.entered_child(t, q)] == q,
            self.entered(d, t, self.entered_child(t, q)),
            forall|y: int|
                self.has(y) && self.parent[y] == q && self.entered(d, t, y)
                    ==> y == self.entered_child(t, q),
    {
        let c = self.entered_child(t, q);
        if q != d {
            self.lemma_entered_below(d, t, q);
        }
        self.lemma_below_bounds(t, d);
        if self.below(t, q) {
            self.lemma_toward(t, q);
            assert(self.below(c, d));
        } else {
            assert(q != d);
            assert(self.has(q));
        }
        assert forall|y: int|
            self.has(y) && self.parent[y] == q && self.entered(d, t, y) implies y == c by {
            if self.below(y, d) && self.within(t, y) {
                self.lemma_toward_unique(t, q, y);
            } else {
                if q == d {
                    self.lemma_entered_below(d, t, q);
                    self.lemma_below_bounds(q, d);
                }
            }
        }
    }

    /// All substates of a parallel state that is entered, or is `d`, are entered.
    pub proof fn lemma_entered_region(self, d: int, t: int, y: int)
        requires
            self.wf(),
            self.has(y),
            self.parent[y] >= 0,
            self.parent[y] == d || self.entered(d, t, self.parent[y]),
            self.kind[self.parent[y]] is Parallel,
        ensures
            self.entered(d, t, y),
    {
    }
}

} // verus!
