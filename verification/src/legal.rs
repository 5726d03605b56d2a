use crate::tree::Shape;
use vstd::prelude::*;

verus! {

/// One move of a step: everything below `domain` is left, and `target` is entered
/// from `domain` down.
pub struct Jump {
    pub domain: int,
    pub target: int,
}

/// `q` is active in the configuration; the top always is.
pub open spec fn active(cfg: Seq<bool>, q: int) -> bool {
    q == -1 || (0 <= q < cfg.len() && cfg[q])
}

impl Shape {
    /// `y` is the one active substate of `q`.
    pub open spec fn sole_child(self, cfg: Seq<bool>, q: int, y: int) -> bool {
        &&& self.has(y)
        &&& self.parent[y] == q
        &&& cfg[y]
        &&& forall|z: int| #![trigger cfg[z]] self.has(z) && self.parent[z] == q && cfg[z] ==> z == y
    }

    /// A legal configuration: the parent of an active state is active, an active
    /// compound state (and the top) has exactly one active substate, and all
    /// substates of an active parallel state are active.
    pub open spec fn legal(self, cfg: Seq<bool>) -> bool {
        &&& cfg.len() == self.len()
        &&& forall|x: int| #![trigger cfg[x]] self.has(x) && cfg[x] ==> active(cfg, self.parent[x])
        &&& forall|q: int|
            #![trigger self.kind_of(q)]
            -1 <= q < self.len() && active(cfg, q) && self.kind_of(q) is Compound ==> exists|
                y: int,
            |
                self.sole_child(cfg, q, y)
        &&& forall|x: int|
            #![trigger cfg[x]]
            self.has(x) && self.parent[x] >= 0 && cfg[self.parent[x]]
                && self.kind[self.parent[x]] is Parallel ==> cfg[x]
    }

    /// `x` is active and one of the moves leaves it.
    pub open spec fn left(self, cfg: Seq<bool>, jumps: Seq<Jump>, x: int) -> bool {
        cfg[x] && exists|i: int|
            0 <= i < jumps.len() && self.below(x, (#[trigger] jumps[i]).domain)
    }

    /// One of the moves enters `x`.
    pub open spec fn joined(self, jumps: Seq<Jump>, x: int) -> bool {
        exists|i: int|
            0 <= i < jumps.len() && self.entered(
                (#[trigger] jumps[i]).domain,
                jumps[i].target,
                x,
            )
    }

    /// The configuration after the moves: what was left is removed, what was
    /// entered is added.
    pub open spec fn after(self, cfg: Seq<bool>, jumps: Seq<Jump>) -> Seq<bool> {
        Seq::new(
            self.len() as nat,
            |x: int| (cfg[x] && !self.left(cfg, jumps, x)) || self.joined(jumps, x),
        )
    }

    /// The move starts at an active state, or the top, and its target lies below
    /// that state.
    pub open spec fn sound(self, cfg: Seq<bool>, jump: Jump) -> bool {
        &&& -1 <= jump.domain
        &&& active(cfg, jump.domain)
        &&& self.below(jump.target, jump.domain)
    }

    /// The move leaves and enters nothing: no state lies below its domain.
    pub open spec fn idle(self, jump: Jump) -> bool {
        jump.domain >= self.len()
    }

    /// Each move is sound or idle, and no active state is left by two of them.
    pub open spec fn compatible(self, cfg: Seq<bool>, jumps: Seq<Jump>) -> bool {
        &&& forall|i: int|
            0 <= i < jumps.len() ==> self.sound(cfg, #[trigger] jumps[i]) || self.idle(jumps[i])
        &&& forall|i: int, j: int, x: int|
            #![trigger self.below(x, jumps[i].domain), self.below(x, jumps[j].domain)]
            0 <= i < j < jumps.len() && self.has(x) && cfg[x] && self.below(x, jumps[i].domain)
                ==> !self.below(x, jumps[j].domain)
    }

    /// With one more move, a state is left if it was left before or the new move
    /// leaves it.
    pub proof fn lemma_left_push(self, cfg: Seq<bool>, jumps: Seq<Jump>, jump: Jump, x: int)
        ensures
            self.left(cfg, jumps.push(jump), x) == (self.left(cfg, jumps, x) || (cfg[x]
                && self.below(x, jump.domain))),
    {
        let more = jumps.push(jump);
        if self.left(cfg, jumps, x) {
            let i = choose|i: int|
                0 <= i < jumps.len() && self.below(x, (#[trigger] jumps[i]).domain);
            assert(more[i] == jumps[i]);
        }
        if cfg[x] && self.below(x, jump.domain) {
            assert(more[jumps.len() as int] == jump);
        }
        if self.left(cfg, more, x) {
            let i = choose|i: int| 0 <= i < more.len() && self.below(x, (#[trigger] more[i]).domain);
            if i < jumps.len() {
                assert(more[i] == jumps[i]);
            }
        }
    }

    /// With one more move, a state is entered if it was entered before or the new
    /// move enters it.
    pub proof fn lemma_joined_push(self, jumps: Seq<Jump>, jump: Jump, x: int)
        ensures
            self.joined(jumps.push(jump), x) == (self.joined(jumps, x) || self.entered(
                jump.domain,
                jump.target,
                x,
            )),
    {
        let more = jumps.push(jump);
        if self.joined(jumps, x) {
            let i = choose|i: int|
                0 <= i < jumps.len() && self.entered(
                    (#[trigger] jumps[i]).domain,
                    jumps[i].target,
                    x,
                );
            assert(more[i] == jumps[i]);
        }
        if self.entered(jump.domain, jump.target, x) {
            assert(more[jumps.len() as int] == jump);
        }
        if self.joined(more, x) {
            let i = choose|i: int|
                0 <= i < more.len() && self.entered((#[trigger] more[i]).domain, more[i].target, x);
            if i < jumps.len() {
                assert(more[i] == jumps[i]);
            }
        }
    }

    /// A move that leaves a state is sound.
    pub proof fn lemma_live(self, cfg: Seq<bool>, jumps: Seq<Jump>, i: int, x: int)
        requires
            self.wf(),
            self.compatible(cfg, jumps),
            0 <= i < jumps.len(),
            self.below(x, jumps[i].domain),
        ensures
            self.sound(cfg, jumps[i]),
    {
        self.lemma_below_bounds(x, jumps[i].domain);
        assert(self.sound(cfg, jumps[i]) || self.idle(jumps[i]));
    }

    /// An active state, or the top, has an active substate on the way to each state
    /// below it.
    pub proof fn lemma_active_child(self, cfg: Seq<bool>, d: int, t: int)
        requires
            self.wf(),
            self.legal(cfg),
            -1 <= d,
            active(cfg, d),
            self.below(t, d),
        ensures
            self.has(self.toward(t, d)),
            self.parent[self.toward(t, d)] == d,
            exists|y: int| self.has(y) && self.parent[y] == d && cfg[y],
    {
        self.lemma_toward(t, d);
        self.lemma_below_bounds(t, d);
        let c = self.toward(t, d);
        if d >= 0 {
            assert(self.kind[self.parent[c]] is Compound || self.kind[self.parent[c]] is Parallel);
        }
        if self.kind_of(d) is Compound {
            let y = choose|y: int| self.sole_child(cfg, d, y);
            assert(self.has(y) && self.parent[y] == d && cfg[y]);
        } else {
            assert(cfg[c]);
        }
    }

    /// The states that two compatible moves start at do not contain each other.
    pub proof fn lemma_domains_apart(self, cfg: Seq<bool>, jumps: Seq<Jump>, i: int, j: int)
        requires
            self.wf(),
            self.legal(cfg),
            self.compatible(cfg, jumps),
            0 <= i < jumps.len(),
            0 <= j < jumps.len(),
            i != j,
            self.sound(cfg, jumps[i]),
            self.sound(cfg, jumps[j]),
        ensures
            !self.within(jumps[i].domain, jumps[j].domain),
    {
        let di = jumps[i].domain;
        let dj = jumps[j].domain;
        if self.within(di, dj) {
            self.lemma_active_child(cfg, di, jumps[i].target);
            let y = choose|y: int| self.has(y) && self.parent[y] == di && cfg[y];
            assert(self.below(y, di));
            assert(self.below(y, dj));
            if i < j {
                assert(!self.below(y, jumps[j].domain));
            } else {
                assert(!self.below(y, jumps[i].domain));
            }
        }
    }

    /// No state lies below the starting states of two compatible moves.
    pub proof fn lemma_one_domain(self, cfg: Seq<bool>, jumps: Seq<Jump>, i: int, j: int, x: int)
        requires
            self.wf(),
            self.legal(cfg),
            self.compatible(cfg, jumps),
            0 <= i < jumps.len(),
            0 <= j < jumps.len(),
            i != j,
            self.below(x, jumps[i].domain),
        ensures
            !self.below(x, jumps[j].domain),
    {
        if self.below(x, jumps[j].domain) {
            self.lemma_live(cfg, jumps, i, x);
            self.lemma_live(cfg, jumps, j, x);
            self.lemma_below_chain(x, jumps[i].domain, jumps[j].domain);
            self.lemma_domains_apart(cfg, jumps, i, j);
            self.lemma_domains_apart(cfg, jumps, j, i);
        }
    }

    /// A substate of `q` lies below a move's starting state only if `q` is that
    /// state or lies below it.
    pub proof fn lemma_child_below(self, z: int, d: int)
        requires
            self.wf(),
            self.below(z, d),
        ensures
            self.parent[z] == d || self.below(self.parent[z], d),
    {
    }

    proof fn lemma_parent_after(self, cfg: Seq<bool>, jumps: Seq<Jump>, x: int)
        requires
            self.wf(),
            self.legal(cfg),
            self.compatible(cfg, jumps),
            self.has(x),
            self.after(cfg, jumps)[x],
        ensures
            active(self.after(cfg, jumps), self.parent[x]),
    {
        let p = self.parent[x];
        if p >= 0 {
            if self.joined(jumps, x) {
                let i = choose|i: int|
                    0 <= i < jumps.len() && self.entered(
                        (#[trigger] jumps[i]).domain,
                        jumps[i].target,
                        x,
                    );
                self.lemma_entered_below(jumps[i].domain, jumps[i].target, x);
                self.lemma_live(cfg, jumps, i, x);
                if p == jumps[i].domain {
                    if self.left(cfg, jumps, p) {
                        let j = choose|j: int|
                            0 <= j < jumps.len() && self.below(p, (#[trigger] jumps[j]).domain);
                        if j == i {
                            self.lemma_below_bounds(p, jumps[j].domain);
                        } else {
                            self.lemma_live(cfg, jumps, j, p);
                            self.lemma_domains_apart(cfg, jumps, i, j);
                        }
                    }
                } else {
                    self.lemma_entered_parent(jumps[i].domain, jumps[i].target, x);
                    assert(self.joined(jumps, p));
                }
            } else {
                assert(cfg[x]);
                assert(cfg[p]);
                if self.left(cfg, jumps, p) {
                    let j = choose|j: int|
                        0 <= j < jumps.len() && self.below(p, (#[trigger] jumps[j]).domain);
                    assert(self.below(x, jumps[j].domain));
                    assert(self.left(cfg, jumps, x));
                }
            }
        }
    }

    proof fn lemma_compound_after(self, cfg: Seq<bool>, jumps: Seq<Jump>, q: int)
        requires
            self.wf(),
            self.legal(cfg),
            self.compatible(cfg, jumps),
            -1 <= q < self.len(),
            active(self.after(cfg, jumps), q),
            self.kind_of(q) is Compound,
        ensures
            exists|y: int| self.sole_child(self.after(cfg, jumps), q, y),
    {
        let new = self.after(cfg, jumps);
        if q >= 0 && self.joined(jumps, q) {
            let i = choose|i: int|
                0 <= i < jumps.len() && self.entered(
                    (#[trigger] jumps[i]).domain,
                    jumps[i].target,
                    q,
                );
            let d = jumps[i].domain;
            let t = jumps[i].target;
            self.lemma_entered_below(d, t, q);
            self.lemma_live(cfg, jumps, i, q);
            self.lemma_entered_child(d, t, q);
            let c = self.entered_child(t, q);
            assert(self.joined(jumps, c));
            assert forall|z: int| self.has(z) && self.parent[z] == q && new[z] implies z == c by {
                assert(self.below(z, d));
                if self.joined(jumps, z) {
                    let j = choose|j: int|
                        0 <= j < jumps.len() && self.entered(
                            (#[trigger] jumps[j]).domain,
                            jumps[j].target,
                            z,
                        );
                    if j != i {
                        self.lemma_entered_below(jumps[j].domain, jumps[j].target, z);
                        self.lemma_one_domain(cfg, jumps, i, j, z);
                    }
                } else {
                    assert(self.left(cfg, jumps, z));
                }
            }
            assert(self.sole_child(new, q, c));
        } else {
            assert(active(cfg, q));
            assert(q >= 0 ==> !self.left(cfg, jumps, q));
            if exists|i: int| 0 <= i < jumps.len() && (#[trigger] jumps[i]).domain == q {
                let i = choose|i: int| 0 <= i < jumps.len() && (#[trigger] jumps[i]).domain == q;
                let t = jumps[i].target;
                assert(self.sound(cfg, jumps[i]) || self.idle(jumps[i]));
                self.lemma_entered_child(q, t, q);
                let c = self.entered_child(t, q);
                assert(self.joined(jumps, c));
                assert forall|z: int|
                    self.has(z) && self.parent[z] == q && new[z] implies z == c by {
                    assert(self.below(z, q));
                    if self.joined(jumps, z) {
                        let j = choose|j: int|
                            0 <= j < jumps.len() && self.entered(
                                (#[trigger] jumps[j]).domain,
                                jumps[j].target,
                                z,
                            );
                        if j != i {
                            self.lemma_entered_below(jumps[j].domain, jumps[j].target, z);
                            self.lemma_one_domain(cfg, jumps, i, j, z);
                        }
                    } else {
                        assert(self.left(cfg, jumps, z));
                    }
                }
                assert(self.sole_child(new, q, c));
            } else {
                let y = choose|y: int| self.sole_child(cfg, q, y);
                if self.left(cfg, jumps, y) {
                    let j = choose|j: int|
                        0 <= j < jumps.len() && self.below(y, (#[trigger] jumps[j]).domain);
                    self.lemma_child_below(y, jumps[j].domain);
                    assert(self.left(cfg, jumps, q));
                }
                assert(new[y]);
                assert forall|z: int|
                    self.has(z) && self.parent[z] == q && new[z] implies z == y by {
                    if self.joined(jumps, z) {
                        let j = choose|j: int|
                            0 <= j < jumps.len() && self.entered(
                                (#[trigger] jumps[j]).domain,
                                jumps[j].target,
                                z,
                            );
                        self.lemma_entered_below(jumps[j].domain, jumps[j].target, z);
                        self.lemma_child_below(z, jumps[j].domain);
                        assert(self.left(cfg, jumps, q));
                    }
                }
                assert(self.sole_child(new, q, y));
            }
        }
    }

    proof fn lemma_parallel_after(self, cfg: Seq<bool>, jumps: Seq<Jump>, x: int)
        requires
            self.wf(),
            self.legal(cfg),
            self.compatible(cfg, jumps),
            self.has(x),
            self.parent[x] >= 0,
            self.after(cfg, jumps)[self.parent[x]],
            self.kind[self.parent[x]] is Parallel,
        ensures
            self.after(cfg, jumps)[x],
    {
        let p = self.parent[x];
        if self.joined(jumps, p) {
            let i = choose|i: int|
                0 <= i < jumps.len() && self.entered(
                    (#[trigger] jumps[i]).domain,
                    jumps[i].target,
                    p,
                );
            self.lemma_entered_region(jumps[i].domain, jumps[i].target, x);
            assert(self.joined(jumps, x));
        } else {
            assert(cfg[p]);
            assert(cfg[x]);
            if self.left(cfg, jumps, x) {
                let j = choose|j: int|
                    0 <= j < jumps.len() && self.below(x, (#[trigger] jumps[j]).domain);
                self.lemma_live(cfg, jumps, j, x);
                self.lemma_child_below(x, jumps[j].domain);
                if p == jumps[j].domain {
                    self.lemma_entered_region(jumps[j].domain, jumps[j].target, x);
                    assert(self.joined(jumps, x));
                } else {
                    assert(self.left(cfg, jumps, p));
                }
            }
        }
    }

    /// Compatible moves take a legal configuration to a legal configuration.
    pub proof fn lemma_step_legal(self, cfg: Seq<bool>, jumps: Seq<Jump>)
        requires
            self.wf(),
            self.legal(cfg),
            self.compatible(cfg, jumps),
        ensures
            self.legal(self.after(cfg, jumps)),
    {
        let new = self.after(cfg, jumps);
        assert forall|x: int| #![trigger new[x]] self.has(x) && new[x] implies active(
            new,
            self.parent[x],
        ) by {
            self.lemma_parent_after(cfg, jumps, x);
        }
        assert forall|q: int|
            #![trigger self.kind_of(q)]
            -1 <= q < self.len() && active(new, q) && self.kind_of(q) is Compound implies exists|
            y: int,
        |
            self.sole_child(new, q, y) by {
            self.lemma_compound_after(cfg, jumps, q);
        }
        assert forall|x: int|
            #![trigger new[x]]
            self.has(x) && self.parent[x] >= 0 && new[self.parent[x]]
                && self.kind[self.parent[x]] is Parallel implies new[x] by {
            self.lemma_parallel_after(cfg, jumps, x);
        }
    }

    /// The configuration that entering `t` from the top gives.
    pub open spec fn opening(self, t: int) -> Seq<bool> {
        Seq::new(self.len() as nat, |x: int| self.entered(-1, t, x))
    }

    /// Entering a root from the top gives a legal configuration.
    pub proof fn lemma_opening_legal(self, t: int)
        requires
            self.wf(),
            self.has(t),
        ensures
            self.legal(self.opening(t)),
    {
        let new = self.opening(t);
        self.lemma_below_top(t);
        assert forall|x: int| #![trigger new[x]] self.has(x) && new[x] implies active(
            new,
            self.parent[x],
        ) by {
            if self.parent[x] != -1 {
                self.lemma_entered_parent(-1, t, x);
            }
        }
        assert forall|q: int|
            #![trigger self.kind_of(q)]
            -1 <= q < self.len() && active(new, q) && self.kind_of(q) is Compound implies exists|
            y: int,
        |
            self.sole_child(new, q, y) by {
            self.lemma_entered_child(-1, t, q);
            assert(self.sole_child(new, q, self.entered_child(t, q)));
        }
        assert forall|x: int|
            #![trigger new[x]]
            self.has(x) && self.parent[x] >= 0 && new[self.parent[x]]
                && self.kind[self.parent[x]] is Parallel implies new[x] by {
            self.lemma_entered_region(-1, t, x);
        }
    }
}

} // verus!
