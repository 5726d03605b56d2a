use crate::chart::{StateChart, Transition};
use crate::legal::Jump;
use crate::trigger::{enabled, Stimulus};
use vstd::prelude::*;

verus! {

/// A transition of a chart, named by the state that holds it and by its place
/// among that state's transitions. Picks are ordered by state, then by place:
/// document order.
#[derive(Clone, Copy, Debug, PartialEq, Eq, Structural)]
pub struct Pick {
    pub state: usize,
    pub index: usize,
}

impl StateChart {
    /// The pick names a transition of the chart.
    pub open spec fn has_pick(&self, p: Pick) -> bool {
        p.state < self.size() && p.index < self.nodes()[p.state as int].moves().len()
    }

    /// The transition that the pick names.
    pub open spec fn transition(&self, p: Pick) -> Transition {
        self.nodes()[p.state as int].moves()[p.index as int]
    }

    /// State `s` holds an enabled transition.
    pub open spec fn ready(&self, s: int, trigger: Stimulus, elapsed: u64) -> bool {
        exists|k: int|
            0 <= k < self.nodes()[s].moves().len() && enabled(
                #[trigger] self.nodes()[s].moves()[k],
                trigger,
                elapsed,
            )
    }

    /// The innermost state, from `x` outward, that holds an enabled transition;
    /// `-1` if there is none.
    pub open spec fn handler(&self, x: int, trigger: Stimulus, elapsed: u64) -> int
        decreases x,
    {
        if !(0 <= x < self.size()) {
            -1
        } else if self.ready(x, trigger, elapsed) {
            x
        } else if 0 <= self.shape().parent[x] < x {
            self.handler(self.shape().parent[x], trigger, elapsed)
        } else {
            -1
        }
    }

    /// `l` is an active leaf: an active atomic or final state.
    pub open spec fn is_leaf(&self, cfg: Seq<bool>, l: int) -> bool {
        0 <= l < self.size() && cfg[l] && (self.shape().kind[l] is Atomic
            || self.shape().kind[l] is Final)
    }

    /// `s` is the handler of an active leaf: the most specific state that reacts
    /// for that leaf.
    pub open spec fn sourced(&self, cfg: Seq<bool>, s: int, trigger: Stimulus, elapsed: u64) -> bool {
        exists|l: int| self.is_leaf(cfg, l) && #[trigger] self.handler(l, trigger, elapsed) == s
    }

    /// The enabled transitions among the first `k` of state `s`, in order.
    pub open spec fn picks_in(&self, s: int, k: int, trigger: Stimulus, elapsed: u64) -> Seq<Pick>
        decreases k,
    {
        if k <= 0 {
            Seq::empty()
        } else if enabled(self.nodes()[s].moves()[k - 1], trigger, elapsed) {
            self.picks_in(s, k - 1, trigger, elapsed).push(
                Pick { state: s as usize, index: (k - 1) as usize },
            )
        } else {
            self.picks_in(s, k - 1, trigger, elapsed)
        }
    }

    /// The candidates among the first `m` states: the enabled transitions of the
    /// handlers of the active leaves, in document order.
    pub open spec fn candidates_upto(
        &self,
        cfg: Seq<bool>,
        m: int,
        trigger: Stimulus,
        elapsed: u64,
    ) -> Seq<Pick>
        decreases m,
    {
        if m <= 0 {
            Seq::empty()
        } else if self.sourced(cfg, m - 1, trigger, elapsed) {
            self.candidates_upto(cfg, m - 1, trigger, elapsed) + self.picks_in(
                m - 1,
                self.nodes()[m - 1].moves().len() as int,
                trigger,
                elapsed,
            )
        } else {
            self.candidates_upto(cfg, m - 1, trigger, elapsed)
        }
    }

    /// The candidates of a step, in document order.
    pub open spec fn candidates(&self, cfg: Seq<bool>, trigger: Stimulus, elapsed: u64) -> Seq<Pick> {
        self.candidates_upto(cfg, self.size(), trigger, elapsed)
    }

    /// The innermost state, from `a` outward, that `t` lies below; `-1`, the top,
    /// if there is none.
    pub open spec fn scope(&self, a: int, t: int) -> int
        decreases a + 1,
    {
        if !(0 <= a < self.size()) {
            -1
        } else if self.shape().below(t, a) {
            a
        } else if -1 <= self.shape().parent[a] < a {
            self.scope(self.shape().parent[a], t)
        } else {
            -1
        }
    }

    /// The move that a transition makes. With a target it starts at the least
    /// common ancestor: the innermost state that properly contains both the source
    /// and the target, or the top. Without one it is idle.
    pub open spec fn jump_of(&self, p: Pick) -> Jump {
        let t = self.transition(p).target_index();
        if t < 0 {
            Jump { domain: self.size(), target: -1 }
        } else {
            Jump { domain: self.scope(self.shape().parent[p.state as int], t), target: t }
        }
    }

    /// The moves of a sequence of transitions.
    pub open spec fn jumps(&self, picks: Seq<Pick>) -> Seq<Jump> {
        Seq::new(picks.len(), |i: int| self.jump_of(picks[i]))
    }

    /// `x` is in the exit set of the transition: it is active and the transition's
    /// move leaves it.
    pub open spec fn exits(&self, cfg: Seq<bool>, p: Pick, x: int) -> bool {
        cfg[x] && self.shape().below(x, self.jump_of(p).domain)
    }

    /// The two transitions conflict: their exit sets intersect.
    pub open spec fn clash(&self, cfg: Seq<bool>, a: Pick, b: Pick) -> bool {
        exists|x: int| 0 <= x < self.size() && #[trigger] self.exits(cfg, a, x) && self.exits(cfg, b, x)
    }

    /// The transition conflicts with one of those kept.
    pub open spec fn blocked(&self, cfg: Seq<bool>, kept: Seq<Pick>, c: Pick) -> bool {
        exists|j: int| 0 <= j < kept.len() && self.clash(cfg, #[trigger] kept[j], c)
    }

    /// The winners among the first `m` candidates: going through them in document
    /// order, a candidate is kept unless it conflicts with one kept before it.
    pub open spec fn winners_upto(&self, cfg: Seq<bool>, cands: Seq<Pick>, m: int) -> Seq<Pick>
        decreases m,
    {
        if m <= 0 {
            Seq::empty()
        } else {
            let kept = self.winners_upto(cfg, cands, m - 1);
            if self.blocked(cfg, kept, cands[m - 1]) {
                kept
            } else {
                kept.push(cands[m - 1])
            }
        }
    }

    /// The candidate at place `m` wins: none of the winners before it conflicts
    /// with it.
    pub open spec fn wins(&self, cfg: Seq<bool>, cands: Seq<Pick>, m: int) -> bool {
        !self.blocked(cfg, self.winners_upto(cfg, cands, m), cands[m])
    }

    /// The winners of a step: the transitions that fire, in document order.
    pub open spec fn winners(&self, cfg: Seq<bool>, cands: Seq<Pick>) -> Seq<Pick> {
        self.winners_upto(cfg, cands, cands.len() as int)
    }

    /// The transitions that fire on a trigger, in document order.
    pub open spec fn firing(&self, cfg: Seq<bool>, trigger: Stimulus, elapsed: u64) -> Seq<Pick> {
        self.winners(cfg, self.candidates(cfg, trigger, elapsed))
    }

    /// The moves of a sequence with one more transition.
    pub proof fn lemma_jumps_push(&self, picks: Seq<Pick>, c: Pick)
        ensures
            self.jumps(picks.push(c)) == self.jumps(picks).push(self.jump_of(c)),
    {
        assert(self.jumps(picks.push(c)) =~= self.jumps(picks).push(self.jump_of(c)));
    }

    /// A transition whose move leaves a state that the kept ones leave is blocked.
    pub proof fn lemma_blocked_by(&self, cfg: Seq<bool>, kept: Seq<Pick>, c: Pick, x: int)
        requires
            0 <= x < self.size(),
            self.shape().left(cfg, self.jumps(kept), x),
            self.shape().below(x, self.jump_of(c).domain),
        ensures
            self.blocked(cfg, kept, c),
    {
        let jumps = self.jumps(kept);
        let i = choose|i: int|
            0 <= i < jumps.len() && self.shape().below(x, (#[trigger] jumps[i]).domain);
        assert(self.exits(cfg, kept[i], x));
        assert(self.exits(cfg, c, x));
        assert(self.clash(cfg, kept[i], c));
    }

    /// A transition whose move leaves no state that the kept ones leave is not
    /// blocked.
    pub proof fn lemma_unblocked(&self, cfg: Seq<bool>, kept: Seq<Pick>, c: Pick)
        requires
            forall|x: int|
                0 <= x < self.size() && #[trigger] self.shape().left(cfg, self.jumps(kept), x)
                    ==> !self.shape().below(x, self.jump_of(c).domain),
        ensures
            !self.blocked(cfg, kept, c),
    {
        if self.blocked(cfg, kept, c) {
            let j = choose|j: int| 0 <= j < kept.len() && self.clash(cfg, #[trigger] kept[j], c);
            let x = choose|x: int|
                0 <= x < self.size() && #[trigger] self.exits(cfg, kept[j], x) && self.exits(
                    cfg,
                    c,
                    x,
                );
            assert(self.jumps(kept)[j].domain == self.jump_of(kept[j]).domain);
            assert(self.shape().left(cfg, self.jumps(kept), x));
        }
    }

    /// The handler of a state lies at or above it and holds an enabled transition.
    pub proof fn lemma_handler(&self, x: int, trigger: Stimulus, elapsed: u64)
        requires
            self.wf(),
            self.handler(x, trigger, elapsed) >= 0,
        ensures
            self.shape().within(x, self.handler(x, trigger, elapsed)),
            0 <= self.handler(x, trigger, elapsed) < self.size(),
            self.ready(self.handler(x, trigger, elapsed), trigger, elapsed),
        decreases x,
    {
        if !self.ready(x, trigger, elapsed) {
            let p = self.shape().parent[x];
            self.lemma_handler(p, trigger, elapsed);
        }
    }

    /// In a legal configuration the states above an active state are active.
    pub proof fn lemma_active_up(&self, cfg: Seq<bool>, x: int, a: int)
        requires
            self.wf(),
            self.shape().legal(cfg),
            self.shape().has(x),
            cfg[x],
            self.shape().below(x, a),
            a >= 0,
        ensures
            cfg[a],
        decreases x,
    {
        let p = self.shape().parent[x];
        if p != a {
            self.lemma_active_up(cfg, p, a);
        }
    }

    /// The target of a move lies below its scope, and the state from which the
    /// scope was sought lies within it.
    pub proof fn lemma_scope(&self, a: int, t: int)
        requires
            self.wf(),
            self.shape().has(t),
            -1 <= a < self.size(),
        ensures
            -1 <= self.scope(a, t) < self.size(),
            self.shape().below(t, self.scope(a, t)),
            self.scope(a, t) == -1 || self.shape().within(a, self.scope(a, t)),
        decreases a + 1,
    {
        if a < 0 {
            self.shape().lemma_below_top(t);
        } else if self.shape().below(t, a) {
        } else {
            let p = self.shape().parent[a];
            self.lemma_scope(p, t);
            let d = self.scope(p, t);
            if d != -1 && p != d {
                assert(self.shape().below(a, d));
            }
        }
    }

    /// The picks of a state name enabled transitions of that state.
    pub proof fn lemma_picks_in(&self, s: int, k: int, trigger: Stimulus, elapsed: u64, i: int)
        requires
            self.wf(),
            0 <= s < self.size(),
            0 <= k <= self.nodes()[s].moves().len(),
            0 <= i < self.picks_in(s, k, trigger, elapsed).len(),
        ensures
            self.picks_in(s, k, trigger, elapsed)[i].state == s,
            self.picks_in(s, k, trigger, elapsed)[i].index < k,
            enabled(self.transition(self.picks_in(s, k, trigger, elapsed)[i]), trigger, elapsed),
        decreases k,
    {
        if k > 0 {
            let rest = self.picks_in(s, k - 1, trigger, elapsed);
            if i < rest.len() {
                self.lemma_picks_in(s, k - 1, trigger, elapsed, i);
            }
        }
    }

    /// A candidate names an enabled transition of the handler of an active leaf.
    pub proof fn lemma_candidate(
        &self,
        cfg: Seq<bool>,
        m: int,
        trigger: Stimulus,
        elapsed: u64,
        i: int,
    )
        requires
            self.wf(),
            0 <= m <= self.size(),
            0 <= i < self.candidates_upto(cfg, m, trigger, elapsed).len(),
        ensures
            self.has_pick(self.candidates_upto(cfg, m, trigger, elapsed)[i]),
            self.candidates_upto(cfg, m, trigger, elapsed)[i].state < m,
            self.sourced(
                cfg,
                self.candidates_upto(cfg, m, trigger, elapsed)[i].state as int,
                trigger,
                elapsed,
            ),
            enabled(
                self.transition(self.candidates_upto(cfg, m, trigger, elapsed)[i]),
                trigger,
                elapsed,
            ),
        decreases m,
    {
        if m > 0 {
            let rest = self.candidates_upto(cfg, m - 1, trigger, elapsed);
            if i < rest.len() {
                self.lemma_candidate(cfg, m - 1, trigger, elapsed, i);
            } else {
                self.lemma_picks_in(
                    m - 1,
                    self.nodes()[m - 1].moves().len() as int,
                    trigger,
                    elapsed,
                    i - rest.len(),
                );
            }
        }
    }

    /// Each winner is one of the candidates, and no two winners conflict.
    pub proof fn lemma_winners(&self, cfg: Seq<bool>, cands: Seq<Pick>, m: int)
        requires
            0 <= m <= cands.len(),
        ensures
            forall|j: int|
                0 <= j < self.winners_upto(cfg, cands, m).len() ==> exists|i: int|
                    0 <= i < m && cands[i] == #[trigger] self.winners_upto(cfg, cands, m)[j],
            forall|i: int, j: int|
                0 <= i < j < self.winners_upto(cfg, cands, m).len() ==> !self.clash(
                    cfg,
                    #[trigger] self.winners_upto(cfg, cands, m)[i],
                    #[trigger] self.winners_upto(cfg, cands, m)[j],
                ),
        decreases m,
    {
        if m > 0 {
            self.lemma_winners(cfg, cands, m - 1);
            let kept = self.winners_upto(cfg, cands, m - 1);
            let w = self.winners_upto(cfg, cands, m);
            assert forall|j: int| 0 <= j < w.len() implies exists|i: int|
                0 <= i < m && cands[i] == #[trigger] w[j] by {
                if j < kept.len() {
                    let i = choose|i: int| 0 <= i < m - 1 && cands[i] == kept[j];
                    assert(cands[i] == w[j]);
                } else {
                    assert(cands[m - 1] == w[j]);
                }
            }
            assert forall|i: int, j: int| 0 <= i < j < w.len() implies !self.clash(
                cfg,
                #[trigger] w[i],
                #[trigger] w[j],
            ) by {
                if j >= kept.len() {
                    assert(!self.blocked(cfg, kept, cands[m - 1]));
                    assert(kept[i] == w[i]);
                }
            }
        }
    }

    /// The move of a transition with a target, held by an active state of a legal
    /// configuration, is sound.
    pub proof fn lemma_jump_sound(&self, cfg: Seq<bool>, p: Pick)
        requires
            self.wf(),
            self.shape().legal(cfg),
            self.has_pick(p),
            cfg[p.state as int],
            self.transition(p).target_index() >= 0,
        ensures
            self.shape().sound(cfg, self.jump_of(p)),
    {
        let s = p.state as int;
        let t = self.transition(p).target_index();
        let a = self.shape().parent[s];
        assert(self.nodes()[s].moves()[p.index as int].target_index() < self.size());
        self.lemma_scope(a, t);
        let d = self.scope(a, t);
        if d >= 0 {
            if a == d {
                assert(self.shape().below(s, d));
            } else {
                assert(self.shape().below(s, d));
            }
            self.lemma_active_up(cfg, s, d);
        }
    }

    /// The handler of an active leaf of a legal configuration is active.
    pub proof fn lemma_source_active(&self, cfg: Seq<bool>, s: int, trigger: Stimulus, elapsed: u64)
        requires
            self.wf(),
            self.shape().legal(cfg),
            0 <= s,
            self.sourced(cfg, s, trigger, elapsed),
        ensures
            s < self.size(),
            cfg[s],
    {
        let l = choose|l: int| self.is_leaf(cfg, l) && #[trigger] self.handler(l, trigger, elapsed) == s;
        self.lemma_handler(l, trigger, elapsed);
        if l != s {
            self.lemma_active_up(cfg, l, s);
        }
    }

    /// The transitions that fire in a legal configuration make compatible moves.
    pub proof fn lemma_firing_compatible(&self, cfg: Seq<bool>, trigger: Stimulus, elapsed: u64)
        requires
            self.wf(),
            self.shape().legal(cfg),
        ensures
            self.shape().compatible(cfg, self.jumps(self.firing(cfg, trigger, elapsed))),
    {
        let cands = self.candidates(cfg, trigger, elapsed);
        let w = self.firing(cfg, trigger, elapsed);
        let jumps = self.jumps(w);
        let shape = self.shape();
        self.lemma_winners(cfg, cands, cands.len() as int);
        assert forall|i: int| 0 <= i < jumps.len() implies shape.sound(cfg, #[trigger] jumps[i])
            || shape.idle(jumps[i]) by {
            let c = choose|c: int| 0 <= c < cands.len() && cands[c] == w[i];
            self.lemma_candidate(cfg, self.size(), trigger, elapsed, c);
            self.lemma_source_active(cfg, w[i].state as int, trigger, elapsed);
            if self.transition(w[i]).target_index() >= 0 {
                self.lemma_jump_sound(cfg, w[i]);
            }
        }
        assert forall|i: int, j: int, x: int|
            #![trigger shape.below(x, jumps[i].domain), shape.below(x, jumps[j].domain)]
            0 <= i < j < jumps.len() && shape.has(x) && cfg[x] && shape.below(
                x,
                jumps[i].domain,
            ) implies !shape.below(x, jumps[j].domain) by {
            if shape.below(x, jumps[j].domain) {
                assert(!self.clash(cfg, w[i], w[j]));
                assert(self.exits(cfg, w[i], x));
                assert(self.exits(cfg, w[j], x));
            }
        }
    }
}

} // verus!
