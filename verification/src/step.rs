use crate::chart::{ActiveState, State, StateChart, StateId};
use crate::effect::Effect;
use crate::engine::top_or;
use crate::legal::Jump;
use crate::resolve::Pick;
use crate::tree::Kind;
use vstd::prelude::*;

verus! {

impl StateChart {
    /// Computes what a move into `t` that leaves everything below `d` enters.
    pub(crate) fn entered_mask(&self, d: Option<usize>, t: usize) -> (mask: Vec<bool>)
        requires
            t < self.size(),
            d matches Some(q) ==> q < self.size(),
        ensures
            mask.len() == self.size(),
            forall|x: int|
                0 <= x < self.size() ==> #[trigger] mask@[x] == self.shape().entered(
                    top_or(d),
                    t as int,
                    x,
                ),
    {
        let n = self.len();
        let mut mask: Vec<bool> = Vec::new();
        let mut x: usize = 0;
        while x < n
            invariant
                x <= n,
                n == self.size(),
                t < n,
                self.wf(),
                mask.len() == x,
                forall|y: int|
                    0 <= y < x ==> #[trigger] mask@[y] == self.shape().entered(
                        top_or(d),
                        t as int,
                        y,
                    ),
            decreases n - x,
        {
            let on_way = self.lies_below(x, d) && (x == t || self.lies_below(t, Some(x)));
            let reached = match self.parent_at(x) {
                None => false,
                Some(p) => {
                    if d == Some(p) && self.kind_at(p) == Kind::Parallel {
                        true
                    } else if mask[p] {
                        match self.kind_at(p) {
                            Kind::Parallel => true,
                            Kind::Compound => {
                                let first = match self.node(p).initial() {
                                    Some(i) => i.0 == x,
                                    None => false,
                                };
                                first && !self.lies_below(t, Some(p))
                            },
                            _ => false,
                        }
                    } else {
                        false
                    }
                },
            };
            mask.push(on_way || reached);
            x = x + 1;
        }
        mask
    }

    /// Picks the winners among the candidates, and computes what they leave and
    /// what they enter.
    pub(crate) fn resolve(&self, cfg: &Vec<bool>, cands: &Vec<Pick>) -> (r: (
        Vec<Pick>,
        Vec<bool>,
        Vec<bool>,
    ))
        requires
            cfg.len() == self.size(),
            forall|i: int| 0 <= i < cands@.len() ==> self.has_pick(#[trigger] cands@[i]),
        ensures
            r.0@ == self.winners(cfg@, cands@),
            r.1.len() == self.size(),
            r.2.len() == self.size(),
            forall|x: int|
                0 <= x < self.size() ==> #[trigger] r.1@[x] == self.shape().left(
                    cfg@,
                    self.jumps(r.0@),
                    x,
                ),
            forall|x: int|
                0 <= x < self.size() ==> #[trigger] r.2@[x] == self.shape().joined(
                    self.jumps(r.0@),
                    x,
                ),
    {
        let n = self.len();
        let mut kept: Vec<Pick> = Vec::new();
        let mut gone: Vec<bool> = vec![false; n];
        let mut come: Vec<bool> = vec![false; n];
        let mut m: usize = 0;
        while m < cands.len()
            invariant
                m <= cands.len(),
                n == self.size(),
                cfg.len() == n,
                gone.len() == n,
                come.len() == n,
                self.wf(),
                forall|i: int| 0 <= i < cands@.len() ==> self.has_pick(#[trigger] cands@[i]),
                kept@ == self.winners_upto(cfg@, cands@, m as int),
                forall|x: int|
                    0 <= x < n ==> #[trigger] gone@[x] == self.shape().left(
                        cfg@,
                        self.jumps(kept@),
                        x,
                    ),
                forall|x: int|
                    0 <= x < n ==> #[trigger] come@[x] == self.shape().joined(self.jumps(kept@), x),
            decreases cands.len() - m,
        {
            let c = cands[m];
            assert(self.has_pick(c));
            let moves = self.node(c.state).transitions();
            let ghost before = kept@;
            let ghost jump = self.jump_of(c);
            proof {
                self.lemma_jumps_push(before, c);
            }
            match moves[c.index].target {
                None => {
                    proof {
                        assert forall|x: int|
                            0 <= x < n && #[trigger] self.shape().left(
                                cfg@,
                                self.jumps(before),
                                x,
                            ) implies !self.shape().below(x, jump.domain) by {
                            if self.shape().below(x, jump.domain) {
                                self.shape().lemma_below_bounds(x, jump.domain);
                            }
                        }
                        self.lemma_unblocked(cfg@, before, c);
                        assert forall|x: int| 0 <= x < n implies #[trigger] gone@[x]
                            == self.shape().left(cfg@, self.jumps(before.push(c)), x) by {
                            self.shape().lemma_left_push(cfg@, self.jumps(before), jump, x);
                            if self.shape().below(x, jump.domain) {
                                self.shape().lemma_below_bounds(x, jump.domain);
                            }
                        }
                        assert forall|x: int| 0 <= x < n implies #[trigger] come@[x]
                            == self.shape().joined(self.jumps(before.push(c)), x) by {
                            self.shape().lemma_joined_push(self.jumps(before), jump, x);
                            if self.shape().entered(jump.domain, jump.target, x) {
                                self.shape().lemma_entered_below(jump.domain, jump.target, x);
                                self.shape().lemma_below_bounds(x, jump.domain);
                            }
                        }
                    }
                    kept.push(c);
                },
                Some(target) => {
                    let t = target.0;
                    assert(self.transition(c).target_index() == t);
                    let d = self.find_scope(c.state, t);
                    assert(jump.domain == top_or(d) && jump.target == t);
                    let mut hit = false;
                    let mut x: usize = 0;
                    while x < n
                        invariant
                            x <= n,
                            n == self.size(),
                            gone.len() == n,
                            hit <==> exists|y: int|
                                0 <= y < x && #[trigger] gone@[y] && self.shape().below(
                                    y,
                                    top_or(d),
                                ),
                        decreases n - x,
                    {
                        if gone[x] && self.lies_below(x, d) {
                            hit = true;
                        }
                        x = x + 1;
                    }
                    if hit {
                        proof {
                            let y = choose|y: int|
                                0 <= y < n && #[trigger] gone@[y] && self.shape().below(
                                    y,
                                    top_or(d),
                                );
                            self.lemma_blocked_by(cfg@, before, c, y);
                        }
                    } else {
                        proof {
                            assert forall|x: int|
                                0 <= x < n && #[trigger] self.shape().left(
                                    cfg@,
                                    self.jumps(before),
                                    x,
                                ) implies !self.shape().below(x, jump.domain) by {
                                assert(gone@[x]);
                            }
                            self.lemma_unblocked(cfg@, before, c);
                        }
                        let fresh = self.entered_mask(d, t);
                        let mut x: usize = 0;
                        while x < n
                            invariant
                                x <= n,
                                n == self.size(),
                                cfg.len() == n,
                                gone.len() == n,
                                come.len() == n,
                                fresh.len() == n,
                                jump.domain == top_or(d),
                                jump.target == t,
                                forall|y: int|
                                    0 <= y < n ==> #[trigger] fresh@[y] == self.shape().entered(
                                        top_or(d),
                                        t as int,
                                        y,
                                    ),
                                forall|y: int|
                                    0 <= y < x ==> #[trigger] gone@[y] == self.shape().left(
                                        cfg@,
                                        self.jumps(before).push(jump),
                                        y,
                                    ),
                                forall|y: int|
                                    x <= y < n ==> #[trigger] gone@[y] == self.shape().left(
                                        cfg@,
                                        self.jumps(before),
                                        y,
                                    ),
                                forall|y: int|
                                    0 <= y < x ==> #[trigger] come@[y] == self.shape().joined(
                                        self.jumps(before).push(jump),
                                        y,
                                    ),
                                forall|y: int|
                                    x <= y < n ==> #[trigger] come@[y] == self.shape().joined(
                                        self.jumps(before),
                                        y,
                                    ),
                            decreases n - x,
                        {
                            proof {
                                self.shape().lemma_left_push(
                                    cfg@,
                                    self.jumps(before),
                                    jump,
                                    x as int,
                                );
                                self.shape().lemma_joined_push(self.jumps(before), jump, x as int);
                            }
                            if cfg[x] && self.lies_below(x, d) {
                                gone.set(x, true);
                            }
                            if fresh[x] {
                                come.set(x, true);
                            }
                            x = x + 1;
                        }
                        kept.push(c);
                    }
                },
            }
            m = m + 1;
        }
        (kept, gone, come)
    }

    /// Computes which states have reached their end.
    fn finals(&self, cfg: &Vec<bool>) -> (fin: Vec<bool>)
        requires
            cfg.len() == self.size(),
        ensures
            fin.len() == self.size(),
            forall|x: int| 0 <= x < self.size() ==> #[trigger] fin@[x] == self.in_final(cfg@, x),
    {
        let n = self.len();
        let mut fin: Vec<bool> = vec![false; n];
        let mut x: usize = n;
        while x > 0
            invariant
                x <= n,
                n == self.size(),
                cfg.len() == n,
                fin.len() == n,
                self.wf(),
                forall|y: int| x <= y < n ==> #[trigger] fin@[y] == self.in_final(cfg@, y),
            decreases x,
        {
            x = x - 1;
            let node = self.node(x);
            let kids = node.substates();
            assert(crate::chart::lists_children(self.nodes(), x as int));
            let value = match node.kind() {
                Kind::Atomic => false,
                Kind::Final => cfg[x],
                Kind::Compound => {
                    let mut any = false;
                    let mut k: usize = 0;
                    while k < kids.len()
                        invariant
                            k <= kids.len(),
                            n == self.size(),
                            cfg.len() == n,
                            x < n,
                            kids@ == self.nodes()[x as int].children(),
                            self.wf(),
                            any <==> exists|j: int|
                                0 <= j < k && self.is_resting(cfg@, (#[trigger] kids@[j]).0 as int),
                        decreases kids.len() - k,
                    {
                        let kid = kids[k].0;
                        assert(crate::chart::lists_children(self.nodes(), x as int));
                        if self.kind_at(kid) == Kind::Final && cfg[kid] {
                            any = true;
                        }
                        k = k + 1;
                    }
                    cfg[x] && any
                },
                Kind::Parallel => {
                    let mut all = true;
                    let mut k: usize = 0;
                    while k < kids.len()
                        invariant
                            k <= kids.len(),
                            n == self.size(),
                            cfg.len() == n,
                            fin.len() == n,
                            x < n,
                            kids@ == self.nodes()[x as int].children(),
                            self.wf(),
                            forall|y: int|
                                x < y < n ==> #[trigger] fin@[y] == self.in_final(cfg@, y),
                            all <==> forall|j: int|
                                0 <= j < k ==> x < (#[trigger] kids@[j]).0 < n && self.in_final(
                                    cfg@,
                                    kids@[j].0 as int,
                                ),
                        decreases kids.len() - k,
                    {
                        let kid = kids[k].0;
                        assert(crate::chart::lists_children(self.nodes(), x as int));
                        assert(self.shape().parent[kid as int] == x);
                        if !fin[kid] {
                            all = false;
                        }
                        k = k + 1;
                    }
                    cfg[x] && all
                },
            };
            fin.set(x, value);
        }
        fin
    }

    /// Tells whether one of the marked states is a final state below `x`.
    fn has_final_below(&self, come: &Vec<bool>, x: usize) -> (b: bool)
        requires
            x < self.size(),
            come.len() == self.size(),
        ensures
            b == exists|f: int|
                0 <= f < self.size() && #[trigger] come@[f] && self.shape().kind[f] is Final
                    && self.shape().below(f, x as int),
    {
        let n = self.len();
        let mut f: usize = 0;
        while f < n
            invariant
                f <= n,
                n == self.size(),
                x < n,
                come.len() == n,
                forall|g: int|
                    0 <= g < f ==> !(#[trigger] come@[g] && self.shape().kind[g] is Final
                        && self.shape().below(g, x as int)),
            decreases n - f,
        {
            if come[f] && self.kind_at(f) == Kind::Final && self.lies_below(f, Some(x)) {
                return true;
            }
            f = f + 1;
        }
        false
    }

    /// Takes one step with the given candidates: returns the next configuration and
    /// appends what the step does.
    pub(crate) fn microstep(&self, cfg: &Vec<bool>, cands: &Vec<Pick>, effects: &mut Vec<Effect>) -> (r:
        (Vec<bool>, Vec<bool>))
        requires
            cfg.len() == self.size(),
            forall|i: int| 0 <= i < cands@.len() ==> self.has_pick(#[trigger] cands@[i]),
        ensures
            r.0@ == self.after(cfg@, self.winners(cfg@, cands@)),
            r.1@ == self.completions(r.0@, self.jumps(self.winners(cfg@, cands@))),
            final(effects)@ == old(effects)@ + self.trace(cfg@, self.winners(cfg@, cands@)),
    {
        let n = self.len();
        let (kept, gone, come) = self.resolve(cfg, cands);
        let ghost jumps = self.jumps(kept@);
        let ghost start = effects@;
        let mut x: usize = n;
        while x > 0
            invariant
                x <= n,
                n == self.size(),
                gone.len() == n,
                forall|y: int|
                    0 <= y < n ==> #[trigger] gone@[y] == self.shape().left(cfg@, jumps, y),
                effects@ == start + self.exit_trace(cfg@, jumps, x as int),
            decreases x,
        {
            x = x - 1;
            if gone[x] {
                effects.push(Effect::Exit(StateId(x)));
            }
        }
        let ghost exited = effects@;
        let mut i: usize = 0;
        while i < kept.len()
            invariant
                i <= kept.len(),
                effects@ == exited + self.fire_trace(kept@).take(i as int),
            decreases kept.len() - i,
        {
            effects.push(Effect::Transition(StateId(kept[i].state), kept[i].index));
            assert(self.fire_trace(kept@).take(i + 1) =~= self.fire_trace(kept@).take(
                i as int,
            ).push(self.fire_trace(kept@)[i as int]));
            i = i + 1;
        }
        assert(self.fire_trace(kept@).take(kept@.len() as int) =~= self.fire_trace(kept@));
        let ghost fired = effects@;
        let mut next: Vec<bool> = Vec::new();
        let mut landed = false;
        let mut x: usize = 0;
        while x < n
            invariant
                x <= n,
                n == self.size(),
                cfg.len() == n,
                gone.len() == n,
                come.len() == n,
                next.len() == x,
                forall|y: int|
                    0 <= y < n ==> #[trigger] gone@[y] == self.shape().left(cfg@, jumps, y),
                forall|y: int| 0 <= y < n ==> #[trigger] come@[y] == self.shape().joined(jumps, y),
                forall|y: int|
                    0 <= y < x ==> #[trigger] next@[y] == self.shape().after(cfg@, jumps)[y],
                effects@ == fired + self.enter_trace(jumps, x as int),
                landed <==> exists|f: int|
                    0 <= f < x && self.shape().kind[f] is Final && #[trigger] self.shape().joined(
                        jumps,
                        f,
                    ),
            decreases n - x,
        {
            if come[x] {
                effects.push(Effect::Enter(StateId(x)));
                if self.kind_at(x) == Kind::Final {
                    landed = true;
                }
            }
            next.push((cfg[x] && !gone[x]) || come[x]);
            x = x + 1;
        }
        assert(next@ =~= self.shape().after(cfg@, jumps));
        let ghost arrived = effects@;
        let mut done: Vec<bool> = vec![false; n];
        if landed {
            let fin = self.finals(&next);
            let mut x: usize = n;
            while x > 0
                invariant
                    x <= n,
                    n == self.size(),
                    come.len() == n,
                    fin.len() == n,
                    done.len() == n,
                    next@.len() == n,
                    forall|y: int| 0 <= y < x ==> !#[trigger] done@[y],
                    forall|y: int|
                        x <= y < n ==> #[trigger] done@[y] == self.completes(next@, jumps, y),
                    self.wf(),
                    forall|y: int|
                        0 <= y < n ==> #[trigger] come@[y] == self.shape().joined(jumps, y),
                    forall|y: int| 0 <= y < n ==> #[trigger] fin@[y] == self.in_final(next@, y),
                    effects@ == arrived + self.done_trace(next@, jumps, x as int),
                decreases x,
            {
                x = x - 1;
                let kind = self.kind_at(x);
                let reached = self.has_final_below(&come, x);
                proof {
                    if reached {
                        let f = choose|f: int|
                            0 <= f < n && #[trigger] come@[f] && self.shape().kind[f] is Final
                                && self.shape().below(f, x as int);
                        assert(self.shape().joined(jumps, f));
                    }
                    if self.reached(jumps, x as int) {
                        let f = choose|f: int|
                            0 <= f < n && self.shape().kind[f] is Final && self.shape().below(
                                f,
                                x as int,
                            ) && #[trigger] self.shape().joined(jumps, f);
                        assert(come@[f]);
                    }
                }
                assert(self.completes(next@, jumps, x as int) == ((kind == Kind::Compound || kind
                    == Kind::Parallel) && fin@[x as int] && reached));
                if (kind == Kind::Compound || kind == Kind::Parallel) && fin[x] && reached {
                    effects.push(Effect::Done(StateId(x)));
                    done.set(x, true);
                }
            }
        } else {
            proof {
                self.lemma_no_completion(next@, jumps, 0);
            }
        }
        assert(done@ =~= self.completions(next@, jumps));
        (next, done)
    }

    /// Moves that enter no final state complete nothing.
    pub proof fn lemma_no_completion(&self, next: Seq<bool>, jumps: Seq<Jump>, m: int)
        requires
            forall|f: int|
                0 <= f < self.size() && self.shape().kind[f] is Final ==> !#[trigger] self.shape().joined(
                    jumps,
                    f,
                ),
        ensures
            self.done_trace(next, jumps, m) == Seq::<Effect>::empty(),
        decreases self.size() - m,
    {
        if 0 <= m < self.size() {
            self.lemma_no_completion(next, jumps, m + 1);
        }
    }
}

} // verus!
