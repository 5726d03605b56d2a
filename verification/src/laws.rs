use crate::chart::{StateChart, StateId};
use crate::effect::Effect;
use crate::legal::Jump;
use crate::machine::{lemma_mask_roster, lemma_roster, mask_of, roster, stray, Snapshot, StateMachine};
use crate::resolve::Pick;
use crate::result::{StateMachineError, StateMachineResult};
use crate::trigger::Stimulus;
use vstd::prelude::*;

verus! {

/// Two results are the same: both are handles that hold the same, or both are
/// the same error.
pub open spec fn same_result(
    a: StateMachineResult<StateMachine>,
    b: StateMachineResult<StateMachine>,
) -> bool {
    match (a, b) {
        (Ok(x), Ok(y)) => x@ == y@,
        (Err(x), Err(y)) => x == y,
        _ => false,
    }
}

impl StateChart {
    /// One step from a legal configuration gives a legal configuration.
    pub proof fn lemma_firing_legal(&self, cfg: Seq<bool>, trigger: Stimulus, elapsed: u64)
        requires
            self.wf(),
            self.shape().legal(cfg),
        ensures
            self.shape().legal(self.after(cfg, self.firing(cfg, trigger, elapsed))),
    {
        self.lemma_firing_compatible(cfg, trigger, elapsed);
        self.shape().lemma_step_legal(cfg, self.jumps(self.firing(cfg, trigger, elapsed)));
    }

    /// The follow-up steps keep a configuration legal, and end where the
    /// eventless tick has no candidate.
    pub proof fn lemma_settle(&self, cfg: Seq<bool>, tick: Stimulus, completed: Seq<bool>, fuel: nat)
        requires
            self.wf(),
            cfg.len() == self.size(),
            tick.completed.len() == 0,
        ensures
            self.settle(cfg, tick, completed, fuel) matches Some((c, _)) ==> self.candidates(
                c,
                tick,
                0,
            ).len() == 0 && (self.shape().legal(cfg) ==> self.shape().legal(c)),
        decreases fuel,
    {
        let now = tick.after(completed);
        if self.candidates(cfg, now, 0).len() == 0 {
            self.lemma_fewer_candidates(cfg, tick, now, 0);
        } else if fuel > 0 {
            let picks = self.firing(cfg, now, 0);
            let next = self.after(cfg, picks);
            if self.shape().legal(cfg) {
                self.lemma_firing_legal(cfg, now, 0);
            }
            self.lemma_settle(next, tick, self.completions(next, self.jumps(picks)), (fuel - 1) as nat);
        }
    }

    /// A trigger under which fewer transitions are enabled has no candidate where
    /// the other has none.
    pub proof fn lemma_fewer_candidates(
        &self,
        cfg: Seq<bool>,
        less: Stimulus,
        more: Stimulus,
        elapsed: u64,
    )
        requires
            self.wf(),
            cfg.len() == self.size(),
            less.event == more.event,
            less.guards == more.guards,
            forall|x: int| less.has_completed(x) ==> more.has_completed(x),
            self.candidates(cfg, more, elapsed).len() == 0,
        ensures
            self.candidates(cfg, less, elapsed).len() == 0,
    {
        if self.candidates(cfg, less, elapsed).len() > 0 {
            self.lemma_candidate(cfg, self.size(), less, elapsed, 0);
            let s = self.candidates(cfg, less, elapsed)[0].state as int;
            let l = choose|l: int| self.is_leaf(cfg, l) && #[trigger] self.handler(l, less, elapsed) == s;
            self.lemma_handler_grows(l, less, more, elapsed);
            let h = self.handler(l, more, elapsed);
            self.lemma_handler(l, more, elapsed);
            assert(self.sourced(cfg, h, more, elapsed));
            self.lemma_ready_has_picks(
                h,
                self.nodes()[h].moves().len() as int,
                more,
                elapsed,
            );
            self.lemma_sourced_is_candidate(cfg, self.size(), h, more, elapsed);
        }
    }

    /// A state that has a handler under a trigger has one under a trigger under
    /// which more transitions are enabled.
    pub proof fn lemma_handler_grows(&self, x: int, less: Stimulus, more: Stimulus, elapsed: u64)
        requires
            self.wf(),
            less.event == more.event,
            less.guards == more.guards,
            forall|y: int| less.has_completed(y) ==> more.has_completed(y),
            self.handler(x, less, elapsed) >= 0,
        ensures
            self.handler(x, more, elapsed) >= 0,
        decreases x,
    {
        if self.ready(x, less, elapsed) {
            let k = choose|k: int|
                0 <= k < self.nodes()[x].moves().len() && crate::trigger::enabled(
                    #[trigger] self.nodes()[x].moves()[k],
                    less,
                    elapsed,
                );
            assert(crate::trigger::enabled(self.nodes()[x].moves()[k], more, elapsed));
        } else if !self.ready(x, more, elapsed) {
            self.lemma_handler_grows(self.shape().parent[x], less, more, elapsed);
        }
    }

    /// A state that holds an enabled transition has picks.
    pub proof fn lemma_ready_has_picks(&self, s: int, k: int, trigger: Stimulus, elapsed: u64)
        requires
            0 <= k <= self.nodes()[s].moves().len(),
            exists|j: int|
                0 <= j < k && crate::trigger::enabled(
                    #[trigger] self.nodes()[s].moves()[j],
                    trigger,
                    elapsed,
                ),
        ensures
            self.picks_in(s, k, trigger, elapsed).len() > 0,
        decreases k,
    {
        if !crate::trigger::enabled(self.nodes()[s].moves()[k - 1], trigger, elapsed) {
            let j = choose|j: int|
                0 <= j < k && crate::trigger::enabled(
                    #[trigger] self.nodes()[s].moves()[j],
                    trigger,
                    elapsed,
                );
            assert(j < k - 1);
            self.lemma_ready_has_picks(s, k - 1, trigger, elapsed);
        }
    }

    /// The handler of an active leaf has its picks among the candidates.
    pub proof fn lemma_sourced_is_candidate(
        &self,
        cfg: Seq<bool>,
        m: int,
        s: int,
        trigger: Stimulus,
        elapsed: u64,
    )
        requires
            0 <= s < m <= self.size(),
            self.sourced(cfg, s, trigger, elapsed),
            self.picks_in(s, self.nodes()[s].moves().len() as int, trigger, elapsed).len() > 0,
        ensures
            self.candidates_upto(cfg, m, trigger, elapsed).len() > 0,
        decreases m,
    {
        if s < m - 1 {
            self.lemma_sourced_is_candidate(cfg, m - 1, s, trigger, elapsed);
        }
    }

    /// Legal configuration invariant: driving a handle that stands in a legal
    /// configuration gives a handle that stands in a legal configuration. Every
    /// active compound state then has exactly one active substate, every active
    /// parallel state has all its substates active, and with a state its parent
    /// is active.
    pub proof fn lemma_update_legal(&self, m: Snapshot, trigger: Stimulus, limit: nat)
        requires
            self.wf(),
            self.legal_at(m),
        ensures
            self.outcome(m, trigger, limit) matches Ok(h) ==> self.legal_at(h),
    {
        let n = self.size();
        let cfg = mask_of(m.members, n);
        match self.react(cfg, trigger, m.elapsed, limit) {
            Ok((c, _)) => {
                let first = self.lead(cfg, trigger, m.elapsed);
                let picks = self.firing(cfg, first, m.elapsed);
                self.lemma_firing_legal(cfg, first, m.elapsed);
                self.lemma_react_len(cfg, trigger, m.elapsed, limit);
                self.lemma_settle(
                    self.after(cfg, picks),
                    trigger.quiet(),
                    self.completions(self.after(cfg, picks), self.jumps(picks)),
                    limit,
                );
                lemma_mask_roster(c);
            },
            Err(_) => {},
        }
    }

    /// The handle of a new instance stands in a legal configuration.
    pub proof fn lemma_opening_legal(&self)
        requires
            self.wf(),
        ensures
            self.legal_at(self.opening()),
    {
        self.shape().lemma_opening_legal(self.origin());
        lemma_mask_roster(self.shape().opening(self.origin()));
    }

    /// Determinism: the result of driving a handle is a function of the chart, the
    /// handle and the trigger. Two results for the same three are the same.
    pub proof fn lemma_update_deterministic(
        &self,
        m: Snapshot,
        trigger: Stimulus,
        limit: nat,
        a: StateMachineResult<StateMachine>,
        b: StateMachineResult<StateMachine>,
    )
        requires
            self.answers(m, trigger, limit, a),
            self.answers(m, trigger, limit, b),
        ensures
            same_result(a, b),
    {
    }

    /// Macrostep closure: in the configuration of a handle that driving returned,
    /// the eventless tick has no candidate.
    pub proof fn lemma_update_settled(&self, m: Snapshot, trigger: Stimulus, limit: nat)
        requires
            self.wf(),
        ensures
            self.outcome(m, trigger, limit) matches Ok(h) ==> self.settled(h, trigger),
    {
        let n = self.size();
        let cfg = mask_of(m.members, n);
        match self.react(cfg, trigger, m.elapsed, limit) {
            Ok((c, _)) => {
                let first = self.lead(cfg, trigger, m.elapsed);
                let picks = self.firing(cfg, first, m.elapsed);
                self.lemma_react_len(cfg, trigger, m.elapsed, limit);
                self.lemma_settle(
                    self.after(cfg, picks),
                    trigger.quiet(),
                    self.completions(self.after(cfg, picks), self.jumps(picks)),
                    limit,
                );
                lemma_mask_roster(c);
            },
            Err(_) => {},
        }
    }

    /// The winners among the first candidates stay winners when more candidates
    /// are looked at.
    pub proof fn lemma_winners_grow(&self, cfg: Seq<bool>, cands: Seq<Pick>, k: int, m: int)
        requires
            0 <= k <= m,
        ensures
            self.winners_upto(cfg, cands, k).len() <= self.winners_upto(cfg, cands, m).len(),
            forall|j: int|
                0 <= j < self.winners_upto(cfg, cands, k).len() ==> self.winners_upto(
                    cfg,
                    cands,
                    m,
                )[j] == #[trigger] self.winners_upto(cfg, cands, k)[j],
        decreases m - k,
    {
        if k < m {
            self.lemma_winners_grow(cfg, cands, k, m - 1);
        }
    }

    /// A candidate that wins is among the transitions that fire.
    pub proof fn lemma_wins_fires(&self, cfg: Seq<bool>, cands: Seq<Pick>, m: int)
        requires
            0 <= m < cands.len(),
            self.wins(cfg, cands, m),
        ensures
            self.winners(cfg, cands).contains(cands[m]),
    {
        let at = self.winners_upto(cfg, cands, m).len() as int;
        assert(self.winners_upto(cfg, cands, m + 1)[at] == cands[m]);
        self.lemma_winners_grow(cfg, cands, m + 1, cands.len() as int);
        assert(self.winners(cfg, cands)[at] == cands[m]);
    }

    /// Each transition that fires is a candidate that wins.
    pub proof fn lemma_fires_wins(&self, cfg: Seq<bool>, cands: Seq<Pick>, m: int, j: int)
        requires
            0 <= m <= cands.len(),
            0 <= j < self.winners_upto(cfg, cands, m).len(),
        ensures
            exists|i: int|
                0 <= i < m && #[trigger] self.wins(cfg, cands, i) && cands[i] == self.winners_upto(
                    cfg,
                    cands,
                    m,
                )[j],
        decreases m,
    {
        let kept = self.winners_upto(cfg, cands, m - 1);
        if j < kept.len() {
            self.lemma_fires_wins(cfg, cands, m - 1, j);
            let i = choose|i: int|
                0 <= i < m - 1 && #[trigger] self.wins(cfg, cands, i) && cands[i] == kept[j];
            assert(self.wins(cfg, cands, i));
        } else {
            assert(self.wins(cfg, cands, m - 1));
        }
    }

    /// Conflict resolution, first half: a candidate whose exit set meets the exit
    /// set of no other candidate fires. So two candidates from two regions whose
    /// exit sets do not meet, and meet no third, both fire in one step.
    pub proof fn lemma_disjoint_fires(&self, cfg: Seq<bool>, cands: Seq<Pick>, m: int)
        requires
            0 <= m < cands.len(),
            forall|i: int|
                0 <= i < cands.len() && i != m ==> !self.clash(cfg, #[trigger] cands[i], cands[m]),
        ensures
            self.wins(cfg, cands, m),
            self.winners(cfg, cands).contains(cands[m]),
    {
        let kept = self.winners_upto(cfg, cands, m);
        if self.blocked(cfg, kept, cands[m]) {
            let j = choose|j: int| 0 <= j < kept.len() && self.clash(cfg, #[trigger] kept[j], cands[m]);
            self.lemma_fires_wins(cfg, cands, m, j);
            let i = choose|i: int|
                0 <= i < m && #[trigger] self.wins(cfg, cands, i) && cands[i] == kept[j];
            assert(!self.clash(cfg, cands[i], cands[m]));
        }
        self.lemma_wins_fires(cfg, cands, m);
    }

    /// Conflict resolution, second half: of two candidates whose exit sets meet,
    /// the later in document order does not win where the earlier wins. The first
    /// candidate of all always wins.
    pub proof fn lemma_conflict_earlier_wins(&self, cfg: Seq<bool>, cands: Seq<Pick>, i: int, j: int)
        requires
            0 <= i < j < cands.len(),
            self.clash(cfg, cands[i], cands[j]),
        ensures
            self.wins(cfg, cands, 0),
            self.wins(cfg, cands, i) ==> !self.wins(cfg, cands, j),
    {
        if self.wins(cfg, cands, i) {
            let at = self.winners_upto(cfg, cands, i).len() as int;
            assert(self.winners_upto(cfg, cands, i + 1)[at] == cands[i]);
            self.lemma_winners_grow(cfg, cands, i + 1, j);
            assert(self.winners_upto(cfg, cands, j)[at] == cands[i]);
        }
    }

    /// Transitions without target fire without changing the configuration.
    pub proof fn lemma_targetless_keeps(&self, cfg: Seq<bool>, picks: Seq<Pick>)
        requires
            self.wf(),
            cfg.len() == self.size(),
            forall|i: int|
                0 <= i < picks.len() ==> self.transition(#[trigger] picks[i]).target_index() < 0,
        ensures
            self.after(cfg, picks) == cfg,
    {
        assert forall|x: int| 0 <= x < self.size() implies self.after(cfg, picks)[x] == cfg[x] by {
            assert forall|i: int| 0 <= i < picks.len() implies !self.shape().below(
                x,
                self.jump_of(#[trigger] picks[i]).domain,
            ) by {
                if self.shape().below(x, self.jump_of(picks[i]).domain) {
                    self.shape().lemma_below_bounds(x, self.jump_of(picks[i]).domain);
                }
            }
            self.lemma_outside_untouched(cfg, picks, x);
        }
        assert(self.after(cfg, picks) =~= cfg);
    }

    /// The most specific state decides: between a state and its handler no state
    /// holds an enabled transition.
    pub proof fn lemma_handler_innermost(&self, x: int, trigger: Stimulus, elapsed: u64, y: int)
        requires
            self.wf(),
            0 <= x < self.size(),
            0 <= y < self.size(),
            self.shape().within(x, y),
            self.handler(x, trigger, elapsed) < 0 || self.shape().below(
                y,
                self.handler(x, trigger, elapsed),
            ),
        ensures
            !self.ready(y, trigger, elapsed),
        decreases x,
    {
        let h = self.handler(x, trigger, elapsed);
        let p = self.shape().parent[x];
        if self.ready(x, trigger, elapsed) {
            if y != x {
                self.shape().lemma_below_bounds(x, y);
            }
            self.shape().lemma_below_bounds(y, x);
        } else if x != y {
            assert(self.shape().below(x, y));
            assert(-1 <= p < x);
            self.lemma_handler_innermost(p, trigger, elapsed, y);
        }
    }

    /// A state that lies below the starting state of none of the moves is as
    /// active after the step as it was before.
    pub proof fn lemma_outside_untouched(&self, cfg: Seq<bool>, picks: Seq<Pick>, x: int)
        requires
            self.wf(),
            0 <= x < self.size(),
            forall|i: int|
                0 <= i < picks.len() ==> !self.shape().below(x, self.jump_of(#[trigger] picks[i]).domain),
        ensures
            self.after(cfg, picks)[x] == cfg[x],
    {
        let jumps = self.jumps(picks);
        let shape = self.shape();
        if shape.left(cfg, jumps, x) {
            let i = choose|i: int| 0 <= i < jumps.len() && shape.below(x, (#[trigger] jumps[i]).domain);
            assert(jumps[i] == self.jump_of(picks[i]));
        }
        if shape.joined(jumps, x) {
            let i = choose|i: int|
                0 <= i < jumps.len() && shape.entered((#[trigger] jumps[i]).domain, jumps[i].target, x);
            assert(jumps[i] == self.jump_of(picks[i]));
            shape.lemma_entered_below(jumps[i].domain, jumps[i].target, x);
        }
    }

    /// The move of a transition between two states below a state starts at that
    /// state or below it.
    pub proof fn lemma_scope_within(&self, a: int, t: int, r: int)
        requires
            self.wf(),
            0 <= r < self.size(),
            self.shape().within(a, r),
            self.shape().below(t, r),
        ensures
            self.shape().within(self.scope(a, t), r),
        decreases a + 1,
    {
        self.shape().lemma_below_bounds(t, r);
        if a != r {
            self.shape().lemma_below_bounds(a, r);
            if !self.shape().below(t, a) {
                self.lemma_scope_within(self.shape().parent[a], t, r);
            }
        }
    }

    /// Parallel region independence: if every transition that fires lies in one
    /// region, of whatever kind, with its source and its target below that region,
    /// then every state that is not below that region is as active after the step
    /// as it was before. The active leaves of the other regions are such states.
    pub proof fn lemma_region_independence(&self, cfg: Seq<bool>, picks: Seq<Pick>, r: int, x: int)
        requires
            self.wf(),
            0 <= r < self.size(),
            0 <= x < self.size(),
            !self.shape().below(x, r),
            forall|i: int|
                0 <= i < picks.len() ==> self.has_pick(#[trigger] picks[i]) && self.shape().below(
                    picks[i].state as int,
                    r,
                ) && (self.transition(picks[i]).target_index() >= 0 ==> self.shape().below(
                    self.transition(picks[i]).target_index(),
                    r,
                )),
        ensures
            self.after(cfg, picks)[x] == cfg[x],
    {
        let shape = self.shape();
        assert forall|i: int| 0 <= i < picks.len() implies !shape.below(
            x,
            self.jump_of(#[trigger] picks[i]).domain,
        ) by {
            let p = picks[i];
            let t = self.transition(p).target_index();
            let d = self.jump_of(p).domain;
            if shape.below(x, d) {
                shape.lemma_below_bounds(x, d);
                assert(t >= 0);
                let a = shape.parent[p.state as int];
                assert(shape.within(a, r));
                self.lemma_scope_within(a, t, r);
                if d != r {
                    shape.lemma_below_trans(x, d, r);
                }
            }
        }
        self.lemma_outside_untouched(cfg, picks, x);
    }

    /// The completions of a step name the states that complete, each once, in
    /// descending order.
    pub proof fn lemma_done_trace(&self, next: Seq<bool>, jumps: Seq<Jump>, m: int)
        requires
            0 <= m,
            self.size() <= usize::MAX,
        ensures
            forall|i: int|
                0 <= i < self.done_trace(next, jumps, m).len() ==> (#[trigger] self.done_trace(
                    next,
                    jumps,
                    m,
                )[i] matches Effect::Done(s) && m <= s.0 < self.size() && self.completes(
                    next,
                    jumps,
                    s.0 as int,
                )),
            forall|i: int, j: int|
                0 <= i < j < self.done_trace(next, jumps, m).len() ==> self.done_trace(
                    next,
                    jumps,
                    m,
                )[i]->Done_0.0 > self.done_trace(next, jumps, m)[j]->Done_0.0,
            forall|y: int|
                m <= y < self.size() && #[trigger] self.completes(next, jumps, y)
                    ==> self.done_trace(next, jumps, m).contains(Effect::Done(StateId(y as usize))),
        decreases self.size() - m,
    {
        if m < self.size() {
            self.lemma_done_trace(next, jumps, m + 1);
            let rest = self.done_trace(next, jumps, m + 1);
            let all = self.done_trace(next, jumps, m);
            assert forall|y: int|
                m <= y < self.size() && #[trigger] self.completes(next, jumps, y) implies all.contains(
                Effect::Done(StateId(y as usize)),
            ) by {
                let e = Effect::Done(StateId(y as usize));
                if y > m {
                    assert(rest.contains(e));
                    let i = choose|i: int| 0 <= i < rest.len() && rest[i] == e;
                    assert(all[i] == e);
                } else {
                    assert(all[rest.len() as int] == e);
                }
            }
        }
    }

    /// Parallel completion: the trace of a step holds the completion of a state
    /// exactly when the step enters a final state below it and the state is done
    /// afterwards; it holds it once; and a parallel state that completes has all
    /// its regions at their end, so it does not complete before the last of them
    /// has got there.
    pub proof fn lemma_completion_once(&self, cfg: Seq<bool>, picks: Seq<Pick>, x: int)
        requires
            self.wf(),
            0 <= x < self.size(),
        ensures
            self.trace(cfg, picks).contains(Effect::Done(StateId(x as usize))) <==> self.completes(
                self.after(cfg, picks),
                self.jumps(picks),
                x,
            ),
            forall|i: int, j: int|
                0 <= i < self.trace(cfg, picks).len() && 0 <= j < self.trace(cfg, picks).len()
                    && self.trace(cfg, picks)[i] == Effect::Done(StateId(x as usize)) && self.trace(
                    cfg,
                    picks,
                )[j] == Effect::Done(StateId(x as usize)) ==> i == j,
            self.completes(self.after(cfg, picks), self.jumps(picks), x)
                && self.shape().kind[x] is Parallel ==> forall|k: int|
                0 <= k < self.nodes()[x].children().len() ==> self.in_final(
                    self.after(cfg, picks),
                    (#[trigger] self.nodes()[x].children()[k]).0 as int,
                ),
    {
        let jumps = self.jumps(picks);
        let next = self.after(cfg, picks);
        let a = self.exit_trace(cfg, jumps, 0);
        let b = self.fire_trace(picks);
        let c = self.enter_trace(jumps, self.size());
        let d = self.done_trace(next, jumps, 0);
        let tr = self.trace(cfg, picks);
        let e = Effect::Done(StateId(x as usize));
        let off = a.len() + b.len() + c.len();
        self.lemma_exits_innermost_first(cfg, jumps, 0);
        self.lemma_entries_outermost_first(jumps, self.size());
        self.lemma_done_trace(next, jumps, 0);
        assert(tr =~= a + b + c + d);
        assert forall|i: int| 0 <= i < tr.len() && tr[i] == e implies i >= off && d[i - off] == e by {
            if i < a.len() {
                assert(tr[i] == a[i]);
            } else if i < a.len() + b.len() {
                assert(tr[i] == b[i - a.len()]);
            } else if i < off {
                assert(tr[i] == c[i - a.len() - b.len()]);
            } else {
                assert(tr[i] == d[i - off]);
            }
        }
        if tr.contains(e) {
            let i = choose|i: int| 0 <= i < tr.len() && tr[i] == e;
            assert(d[i - off] == e);
        }
        if self.completes(next, jumps, x) {
            assert(d.contains(e));
            let i = choose|i: int| 0 <= i < d.len() && d[i] == e;
            assert(tr[off + i] == e);
        }
        assert forall|i: int, j: int|
            0 <= i < tr.len() && 0 <= j < tr.len() && tr[i] == e && tr[j] == e implies i == j by {
            assert(d[i - off] == e && d[j - off] == e);
            if i < j {
                assert(d[i - off]->Done_0.0 > d[j - off]->Done_0.0);
            }
            if j < i {
                assert(d[j - off]->Done_0.0 > d[i - off]->Done_0.0);
            }
        }
    }

    /// The exits of a step name the states that are left, in descending order: a
    /// state is left before the states that contain it.
    pub proof fn lemma_exits_innermost_first(&self, cfg: Seq<bool>, jumps: Seq<Jump>, m: int)
        requires
            0 <= m <= self.size(),
            self.size() <= usize::MAX,
        ensures
            forall|i: int|
                0 <= i < self.exit_trace(cfg, jumps, m).len() ==> (#[trigger] self.exit_trace(
                    cfg,
                    jumps,
                    m,
                )[i] matches Effect::Exit(s) && m <= s.0 < self.size() && self.shape().left(
                    cfg,
                    jumps,
                    s.0 as int,
                )),
            forall|i: int, j: int|
                0 <= i < j < self.exit_trace(cfg, jumps, m).len() ==> self.exit_trace(
                    cfg,
                    jumps,
                    m,
                )[i]->Exit_0.0 > self.exit_trace(cfg, jumps, m)[j]->Exit_0.0,
        decreases self.size() - m,
    {
        if m < self.size() {
            self.lemma_exits_innermost_first(cfg, jumps, m + 1);
        }
    }

    /// The entries of a step name the states that are entered, in ascending order:
    /// a state is entered after the states that contain it.
    pub proof fn lemma_entries_outermost_first(&self, jumps: Seq<Jump>, m: int)
        requires
            0 <= m <= self.size(),
            self.size() <= usize::MAX,
        ensures
            forall|i: int|
                0 <= i < self.enter_trace(jumps, m).len() ==> (#[trigger] self.enter_trace(
                    jumps,
                    m,
                )[i] matches Effect::Enter(s) && s.0 < m && self.shape().joined(jumps, s.0 as int)),
            forall|i: int, j: int|
                0 <= i < j < self.enter_trace(jumps, m).len() ==> self.enter_trace(
                    jumps,
                    m,
                )[i]->Enter_0.0 < self.enter_trace(jumps, m)[j]->Enter_0.0,
        decreases m,
    {
        if m > 0 {
            self.lemma_entries_outermost_first(jumps, m - 1);
        }
    }

    /// A handle that the chart has made names only states of the chart: driving
    /// it with the same chart never gives `UnknownState`.
    pub proof fn lemma_own_handles_known(&self, m: Snapshot, trigger: Stimulus, limit: nat)
        requires
            self.wf(),
        ensures
            stray(self.opening().members, self.size(), 0) == self.opening().members.len(),
            self.outcome(m, trigger, limit) matches Ok(h) ==> stray(h.members, self.size(), 0)
                == h.members.len(),
    {
        let n = self.size();
        lemma_roster_known(self.shape().opening(self.origin()), n, n, 0);
        match self.react(mask_of(m.members, n), trigger, m.elapsed, limit) {
            Ok((c, _)) => {
                self.lemma_react_len(mask_of(m.members, n), trigger, m.elapsed, limit);
                lemma_roster_known(c, n, n, 0);
            },
            Err(_) => {},
        }
    }
}

/// The roster of the first `m` states names only states before `n`.
pub proof fn lemma_roster_known(cfg: Seq<bool>, m: int, n: int, k: int)
    requires
        0 <= m <= n,
        m <= cfg.len(),
        n <= usize::MAX,
        0 <= k,
    ensures
        stray(roster(cfg, m), n, k) == roster(cfg, m).len(),
    decreases roster(cfg, m).len() - k,
{
    let r = roster(cfg, m);
    if k < r.len() {
        assert(r.contains(r[k]));
        lemma_roster(cfg, m, r[k].0 as int);
        lemma_roster_known(cfg, m, n, k + 1);
    }
}

impl StateChart {
    /// In one step, a transition that waits for the completion of a state fires
    /// only if that state completed in the step before.
    pub proof fn lemma_step_heralded(&self, cfg: Seq<bool>, trigger: Stimulus, elapsed: u64)
        requires
            self.wf(),
        ensures
            self.heralded(
                self.trace(cfg, self.firing(cfg, trigger, elapsed)),
                trigger.completed,
            ),
    {
        let cands = self.candidates(cfg, trigger, elapsed);
        let picks = self.firing(cfg, trigger, elapsed);
        let jumps = self.jumps(picks);
        let next = self.after(cfg, picks);
        let a = self.exit_trace(cfg, jumps, 0);
        let b = self.fire_trace(picks);
        let c = self.enter_trace(jumps, self.size());
        let d = self.done_trace(next, jumps, 0);
        let tr = self.trace(cfg, picks);
        self.lemma_exits_innermost_first(cfg, jumps, 0);
        self.lemma_entries_outermost_first(jumps, self.size());
        self.lemma_done_trace(next, jumps, 0);
        self.lemma_winners(cfg, cands, cands.len() as int);
        assert(tr =~= a + b + c + d);
        assert forall|i: int, x: int|
            0 <= i < tr.len() && #[trigger] self.waits_for(tr[i], x) implies trigger.has_completed(
            x,
        ) by {
            if i < a.len() {
                assert(tr[i] == a[i]);
            } else if i < a.len() + b.len() {
                let j = i - a.len();
                assert(tr[i] == b[j]);
                let at = choose|at: int| 0 <= at < cands.len() && cands[at] == picks[j];
                self.lemma_candidate(cfg, self.size(), trigger, elapsed, at);
                assert(crate::trigger::holds(self.transition(picks[j]).condition, trigger, elapsed));
            } else if i < a.len() + b.len() + c.len() {
                assert(tr[i] == c[i - a.len() - b.len()]);
            } else {
                assert(tr[i] == d[i - a.len() - b.len() - c.len()]);
            }
        }
    }

    /// Two traces in a row: the firings of the second that wait for a completion
    /// are heralded if all that completed before the second stands in the first.
    pub proof fn lemma_heralded_on(
        &self,
        first: Seq<Effect>,
        second: Seq<Effect>,
        before: Seq<bool>,
        between: Seq<bool>,
    )
        requires
            self.heralded(first, before),
            self.heralded(second, between),
            forall|x: int|
                0 <= x < between.len() && #[trigger] between[x] ==> first.contains(
                    Effect::Done(StateId(x as usize)),
                ),
        ensures
            self.heralded(first + second, before),
    {
        let all = first + second;
        assert forall|i: int, x: int|
            0 <= i < all.len() && #[trigger] self.waits_for(all[i], x) implies (0 <= x < before.len()
            && before[x]) || exists|j: int|
            0 <= j < i && all[j] == Effect::Done(StateId(x as usize)) by {
            let e = Effect::Done(StateId(x as usize));
            if i < first.len() {
                assert(self.waits_for(first[i], x));
                if !(0 <= x < before.len() && before[x]) {
                    let j = choose|j: int| 0 <= j < i && first[j] == e;
                    assert(all[j] == e);
                }
            } else {
                let k = i - first.len();
                assert(self.waits_for(second[k], x));
                if 0 <= x < between.len() && between[x] {
                    let j = choose|j: int| 0 <= j < first.len() && first[j] == e;
                    assert(all[j] == e);
                } else {
                    let j = choose|j: int| 0 <= j < k && second[j] == e;
                    assert(all[first.len() + j] == e);
                }
            }
        }
    }

    /// What completes in a step stands in the trace of the step.
    pub proof fn lemma_completions_traced(&self, cfg: Seq<bool>, picks: Seq<Pick>)
        requires
            self.wf(),
        ensures
            forall|x: int|
                0 <= x < self.size() && #[trigger] self.completions(
                    self.after(cfg, picks),
                    self.jumps(picks),
                )[x] ==> self.trace(cfg, picks).contains(Effect::Done(StateId(x as usize))),
    {
        assert forall|x: int|
            0 <= x < self.size() && #[trigger] self.completions(
                self.after(cfg, picks),
                self.jumps(picks),
            )[x] implies self.trace(cfg, picks).contains(Effect::Done(StateId(x as usize))) by {
            self.lemma_completion_once(cfg, picks, x);
        }
    }

    /// In the follow-up steps, a transition that waits for the completion of a
    /// state fires only after that completion.
    pub proof fn lemma_settle_heralded(
        &self,
        cfg: Seq<bool>,
        tick: Stimulus,
        completed: Seq<bool>,
        fuel: nat,
    )
        requires
            self.wf(),
        ensures
            self.settle(cfg, tick, completed, fuel) matches Some((_, tr)) ==> self.heralded(
                tr,
                completed,
            ),
        decreases fuel,
    {
        let now = tick.after(completed);
        if self.candidates(cfg, now, 0).len() != 0 && fuel > 0 {
            let picks = self.firing(cfg, now, 0);
            let next = self.after(cfg, picks);
            let marks = self.completions(next, self.jumps(picks));
            self.lemma_settle_heralded(next, tick, marks, (fuel - 1) as nat);
            match self.settle(next, tick, marks, (fuel - 1) as nat) {
                Some((_, tr)) => {
                    self.lemma_step_heralded(cfg, now, 0);
                    self.lemma_completions_traced(cfg, picks);
                    self.lemma_heralded_on(self.trace(cfg, picks), tr, completed, marks);
                },
                None => {},
            }
        }
    }

    /// Parallel completion, over the calls: a transition that waits for the
    /// completion of a state fires in a call only after that state has completed
    /// in the same call. With `lemma_completion_once` this says when: the state
    /// completes in the step in which the last of its regions reaches its end, so
    /// the transition does not fire in a call that leaves a region unfinished, nor
    /// in a later call in which the state does not complete anew.
    pub proof fn lemma_completion_heralded(&self, m: Snapshot, trigger: Stimulus, limit: nat)
        requires
            self.wf(),
            trigger.completed.len() == 0,
        ensures
            self.outcome(m, trigger, limit) matches Ok(h) ==> forall|i: int, x: int|
                0 <= i < h.history.len() && #[trigger] self.waits_for(h.history[i], x)
                    ==> exists|j: int|
                    0 <= j < i && h.history[j] == Effect::Done(StateId(x as usize)),
    {
        let n = self.size();
        let cfg = mask_of(m.members, n);
        match self.react(cfg, trigger, m.elapsed, limit) {
            Ok((_, history)) => {
                let first = self.lead(cfg, trigger, m.elapsed);
                let picks = self.firing(cfg, first, m.elapsed);
                let next = self.after(cfg, picks);
                let marks = self.completions(next, self.jumps(picks));
                self.lemma_step_heralded(cfg, first, m.elapsed);
                self.lemma_settle_heralded(next, trigger.quiet(), marks, limit);
                self.lemma_completions_traced(cfg, picks);
                match self.settle(next, trigger.quiet(), marks, limit) {
                    Some((_, tr)) => {
                        self.lemma_heralded_on(self.trace(cfg, picks), tr, first.completed, marks);
                        assert(self.heralded(history, first.completed));
                    },
                    None => {},
                }
            },
            Err(_) => {},
        }
    }
}

impl StateChart {
    /// Every transition that the trigger can bring to fire, at once or in a
    /// follow-up step, lies in the region `r`: its source lies below `r`, and so
    /// does its target if it has one.
    pub open spec fn confined(&self, trigger: Stimulus, r: int) -> bool {
        forall|p: Pick|
            #[trigger] self.has_pick(p) && (crate::trigger::accepts(self.transition(p), trigger)
                || crate::trigger::accepts(self.transition(p), trigger.quiet()))
                ==> self.shape().below(p.state as int, r) && (self.transition(p).target_index()
                >= 0 ==> self.shape().below(self.transition(p).target_index(), r))
    }

    /// The trace names no exit and no entry of the state.
    pub open spec fn spares(&self, tr: Seq<Effect>, x: int) -> bool {
        forall|i: int|
            0 <= i < tr.len() ==> #[trigger] tr[i] != Effect::Exit(StateId(x as usize)) && tr[i]
                != Effect::Enter(StateId(x as usize))
    }

    /// A state that lies below the starting state of none of the moves is neither
    /// left nor entered.
    pub proof fn lemma_outside_spared(&self, cfg: Seq<bool>, picks: Seq<Pick>, x: int)
        requires
            self.wf(),
            0 <= x < self.size(),
            forall|i: int|
                0 <= i < picks.len() ==> !self.shape().below(x, self.jump_of(#[trigger] picks[i]).domain),
        ensures
            self.spares(self.trace(cfg, picks), x),
    {
        let jumps = self.jumps(picks);
        let shape = self.shape();
        let next = self.after(cfg, picks);
        let a = self.exit_trace(cfg, jumps, 0);
        let b = self.fire_trace(picks);
        let c = self.enter_trace(jumps, self.size());
        let d = self.done_trace(next, jumps, 0);
        let tr = self.trace(cfg, picks);
        if shape.left(cfg, jumps, x) {
            let i = choose|i: int| 0 <= i < jumps.len() && shape.below(x, (#[trigger] jumps[i]).domain);
            assert(jumps[i] == self.jump_of(picks[i]));
        }
        if shape.joined(jumps, x) {
            let i = choose|i: int|
                0 <= i < jumps.len() && shape.entered((#[trigger] jumps[i]).domain, jumps[i].target, x);
            assert(jumps[i] == self.jump_of(picks[i]));
            shape.lemma_entered_below(jumps[i].domain, jumps[i].target, x);
        }
        self.lemma_exits_innermost_first(cfg, jumps, 0);
        self.lemma_entries_outermost_first(jumps, self.size());
        self.lemma_done_trace(next, jumps, 0);
        assert(tr =~= a + b + c + d);
        assert forall|i: int| 0 <= i < tr.len() implies #[trigger] tr[i] != Effect::Exit(
            StateId(x as usize),
        ) && tr[i] != Effect::Enter(StateId(x as usize)) by {
            if i < a.len() {
                assert(tr[i] == a[i]);
            } else if i < a.len() + b.len() {
                assert(tr[i] == b[i - a.len()]);
            } else if i < a.len() + b.len() + c.len() {
                assert(tr[i] == c[i - a.len() - b.len()]);
            } else {
                assert(tr[i] == d[i - a.len() - b.len() - c.len()]);
            }
        }
    }

    /// One step of a trigger whose transitions lie in a region leaves every state
    /// that is not below the region as it was, and neither leaves nor enters it.
    pub proof fn lemma_step_confined(
        &self,
        cfg: Seq<bool>,
        trigger: Stimulus,
        elapsed: u64,
        r: int,
        x: int,
    )
        requires
            self.wf(),
            0 <= r < self.size(),
            0 <= x < self.size(),
            !self.shape().below(x, r),
            forall|p: Pick|
                #[trigger] self.has_pick(p) && crate::trigger::accepts(self.transition(p), trigger)
                    ==> self.shape().below(p.state as int, r) && (self.transition(
                    p,
                ).target_index() >= 0 ==> self.shape().below(self.transition(p).target_index(), r)),
        ensures
            self.after(cfg, self.firing(cfg, trigger, elapsed))[x] == cfg[x],
            self.spares(self.trace(cfg, self.firing(cfg, trigger, elapsed)), x),
    {
        let cands = self.candidates(cfg, trigger, elapsed);
        let picks = self.firing(cfg, trigger, elapsed);
        let shape = self.shape();
        self.lemma_winners(cfg, cands, cands.len() as int);
        assert forall|i: int| 0 <= i < picks.len() implies self.has_pick(#[trigger] picks[i])
            && shape.below(picks[i].state as int, r) && (self.transition(picks[i]).target_index() >= 0
            ==> shape.below(self.transition(picks[i]).target_index(), r)) by {
            let at = choose|at: int| 0 <= at < cands.len() && cands[at] == picks[i];
            self.lemma_candidate(cfg, self.size(), trigger, elapsed, at);
            assert(self.has_pick(picks[i]));
        }
        self.lemma_region_independence(cfg, picks, r, x);
        assert forall|i: int| 0 <= i < picks.len() implies !shape.below(
            x,
            self.jump_of(#[trigger] picks[i]).domain,
        ) by {
            let p = picks[i];
            let d = self.jump_of(p).domain;
            if shape.below(x, d) {
                shape.lemma_below_bounds(x, d);
                let a = shape.parent[p.state as int];
                assert(shape.within(a, r));
                self.lemma_scope_within(a, self.transition(p).target_index(), r);
                if d != r {
                    shape.lemma_below_trans(x, d, r);
                }
            }
        }
        self.lemma_outside_spared(cfg, picks, x);
    }

    /// The follow-up steps of a trigger whose transitions lie in a region leave
    /// every state that is not below the region as it was.
    pub proof fn lemma_settle_confined(
        &self,
        cfg: Seq<bool>,
        tick: Stimulus,
        completed: Seq<bool>,
        fuel: nat,
        r: int,
        x: int,
    )
        requires
            self.wf(),
            0 <= r < self.size(),
            0 <= x < self.size(),
            !self.shape().below(x, r),
            tick.event is None,
            self.confined(tick, r),
        ensures
            self.settle(cfg, tick, completed, fuel) matches Some((c, tr)) ==> c[x] == cfg[x]
                && self.spares(tr, x),
        decreases fuel,
    {
        let now = tick.after(completed);
        if self.candidates(cfg, now, 0).len() != 0 && fuel > 0 {
            let picks = self.firing(cfg, now, 0);
            let next = self.after(cfg, picks);
            let marks = self.completions(next, self.jumps(picks));
            assert forall|p: Pick|
                #[trigger] self.has_pick(p) && crate::trigger::accepts(
                    self.transition(p),
                    now,
                ) implies self.shape().below(p.state as int, r) && (self.transition(p).target_index()
                >= 0 ==> self.shape().below(self.transition(p).target_index(), r)) by {
                assert(crate::trigger::accepts(self.transition(p), tick));
            }
            self.lemma_step_confined(cfg, now, 0, r, x);
            self.lemma_settle_confined(next, tick, marks, (fuel - 1) as nat, r, x);
        }
    }

    /// Parallel region independence, over a call: where every transition that the
    /// trigger can bring to fire lies in one region, the handle that comes back
    /// has every state that is not below that region as active as it was, and
    /// its history names no exit and no entry of such a state. The states of the
    /// other regions are such states.
    pub proof fn lemma_call_region_independence(
        &self,
        m: Snapshot,
        trigger: Stimulus,
        limit: nat,
        r: int,
        x: int,
    )
        requires
            self.wf(),
            0 <= r < self.size(),
            0 <= x < self.size(),
            !self.shape().below(x, r),
            self.confined(trigger, r),
        ensures
            self.outcome(m, trigger, limit) matches Ok(h) ==> mask_of(h.members, self.size())[x]
                == mask_of(m.members, self.size())[x] && self.spares(h.history, x),
    {
        let n = self.size();
        let cfg = mask_of(m.members, n);
        match self.react(cfg, trigger, m.elapsed, limit) {
            Ok((c, history)) => {
                let first = self.lead(cfg, trigger, m.elapsed);
                let picks = self.firing(cfg, first, m.elapsed);
                let next = self.after(cfg, picks);
                let marks = self.completions(next, self.jumps(picks));
                let tick = trigger.quiet();
                assert(tick.quiet() == tick);
                self.lemma_step_confined(cfg, first, m.elapsed, r, x);
                self.lemma_settle_confined(next, tick, marks, limit, r, x);
                self.lemma_react_len(cfg, trigger, m.elapsed, limit);
                lemma_mask_roster(c);
            },
            Err(_) => {},
        }
    }
}

impl StateChart {
    /// The handle after the first `k` of the triggers, each driven with at most
    /// `limit` follow-up steps: a call that gives an error leaves the handle as it
    /// was, another gives the next.
    pub open spec fn driven(&self, m: Snapshot, triggers: Seq<Stimulus>, k: int, limit: nat) -> Snapshot
        decreases k,
    {
        if k <= 0 {
            m
        } else {
            let before = self.driven(m, triggers, k - 1, limit);
            match self.outcome(before, triggers[k - 1], limit) {
                Ok(h) => h,
                Err(_) => before,
            }
        }
    }

    /// Every handle that is reached from a legal one stands in a legal
    /// configuration: each active compound state has exactly one active
    /// substate, each active parallel state has all of them active.
    pub proof fn lemma_reachable_legal(
        &self,
        m: Snapshot,
        triggers: Seq<Stimulus>,
        k: int,
        limit: nat,
    )
        requires
            self.wf(),
            self.legal_at(m),
            0 <= k <= triggers.len(),
        ensures
            self.legal_at(self.driven(m, triggers, k, limit)),
        decreases k,
    {
        if k > 0 {
            self.lemma_reachable_legal(m, triggers, k - 1, limit);
            self.lemma_update_legal(self.driven(m, triggers, k - 1, limit), triggers[k - 1], limit);
        }
    }

    /// A transition that waits for the completion of a state is enabled only under
    /// a trigger after whose step before the state completed; and if it is
    /// eventless and waits for nothing else, it is enabled under every tick after
    /// such a step.
    pub proof fn lemma_waiting_enabled(&self, p: Pick, x: int, tick: Stimulus, elapsed: u64)
        requires
            self.has_pick(p),
            self.transition(p).condition matches Some(c) && c.done == Some(StateId(x as usize)),
            0 <= x <= usize::MAX,
        ensures
            crate::trigger::enabled(self.transition(p), tick, elapsed) ==> tick.has_completed(x),
            tick.event is None && self.transition(p).event@.len() == 0 && (self.transition(
                p,
            ).condition matches Some(c) && c.delay is None && c.guard is None)
                ==> crate::trigger::enabled(self.transition(p), tick, elapsed)
                == tick.has_completed(x),
    {
    }

    /// Parallel completion, over the calls: in every call of a sequence, a
    /// transition that waits for the completion of a state fires only after that
    /// state has completed in the same call, which by `lemma_completion_once` is in
    /// a step that enters a final state below it and ends with all its regions at
    /// their end. So the transition fires in no call that leaves a region
    /// unfinished, and in no later call in which the state does not complete anew.
    pub proof fn lemma_completion_over_calls(
        &self,
        m: Snapshot,
        triggers: Seq<Stimulus>,
        k: int,
        limit: nat,
    )
        requires
            self.wf(),
            0 <= k < triggers.len(),
            triggers[k].completed.len() == 0,
        ensures
            self.outcome(self.driven(m, triggers, k, limit), triggers[k], limit) matches Ok(h)
                ==> self.heralded(h.history, Seq::empty()),
    {
        self.lemma_completion_heralded(self.driven(m, triggers, k, limit), triggers[k], limit);
    }
}

/// The first transition comes before the second in document order.
pub open spec fn precedes(a: Pick, b: Pick) -> bool {
    a.state < b.state || (a.state == b.state && a.index < b.index)
}

impl StateChart {
    /// The picks of a state stand in the order of its transitions.
    pub proof fn lemma_picks_ascend(&self, s: int, k: int, trigger: Stimulus, elapsed: u64)
        requires
            self.wf(),
            0 <= s < self.size(),
            0 <= k <= self.nodes()[s].moves().len(),
        ensures
            forall|i: int, j: int|
                0 <= i < j < self.picks_in(s, k, trigger, elapsed).len() ==> precedes(
                    #[trigger] self.picks_in(s, k, trigger, elapsed)[i],
                    #[trigger] self.picks_in(s, k, trigger, elapsed)[j],
                ),
        decreases k,
    {
        if k > 0 {
            self.lemma_picks_ascend(s, k - 1, trigger, elapsed);
            let rest = self.picks_in(s, k - 1, trigger, elapsed);
            let all = self.picks_in(s, k, trigger, elapsed);
            assert forall|i: int, j: int| 0 <= i < j < all.len() implies precedes(
                #[trigger] all[i],
                #[trigger] all[j],
            ) by {
                self.lemma_picks_in(s, k, trigger, elapsed, j);
                if j >= rest.len() {
                    self.lemma_picks_in(s, k - 1, trigger, elapsed, i);
                    assert(all[i] == rest[i]);
                }
            }
        }
    }

    /// Every enabled transition of a state is among its picks.
    pub proof fn lemma_picks_hold(&self, s: int, k: int, trigger: Stimulus, elapsed: u64, j: int)
        requires
            self.wf(),
            0 <= s < self.size(),
            0 <= j < k <= self.nodes()[s].moves().len(),
            crate::trigger::enabled(self.nodes()[s].moves()[j], trigger, elapsed),
        ensures
            self.picks_in(s, k, trigger, elapsed).contains(Pick { state: s as usize, index: j as usize }),
        decreases k,
    {
        let p = Pick { state: s as usize, index: j as usize };
        let rest = self.picks_in(s, k - 1, trigger, elapsed);
        let all = self.picks_in(s, k, trigger, elapsed);
        if j < k - 1 {
            self.lemma_picks_hold(s, k - 1, trigger, elapsed, j);
            let i = choose|i: int| 0 <= i < rest.len() && rest[i] == p;
            assert(all[i] == p);
        } else {
            assert(all[rest.len() as int] == p);
        }
    }

    /// The candidates stand in document order, so none stands twice.
    pub proof fn lemma_candidates_ascend(&self, cfg: Seq<bool>, m: int, trigger: Stimulus, elapsed: u64)
        requires
            self.wf(),
            0 <= m <= self.size(),
        ensures
            forall|i: int, j: int|
                0 <= i < j < self.candidates_upto(cfg, m, trigger, elapsed).len() ==> precedes(
                    #[trigger] self.candidates_upto(cfg, m, trigger, elapsed)[i],
                    #[trigger] self.candidates_upto(cfg, m, trigger, elapsed)[j],
                ),
        decreases m,
    {
        if m > 0 {
            self.lemma_candidates_ascend(cfg, m - 1, trigger, elapsed);
            let rest = self.candidates_upto(cfg, m - 1, trigger, elapsed);
            let all = self.candidates_upto(cfg, m, trigger, elapsed);
            let len = self.nodes()[m - 1].moves().len() as int;
            let own = self.picks_in(m - 1, len, trigger, elapsed);
            self.lemma_picks_ascend(m - 1, len, trigger, elapsed);
            assert forall|i: int, j: int| 0 <= i < j < all.len() implies precedes(
                #[trigger] all[i],
                #[trigger] all[j],
            ) by {
                if j >= rest.len() {
                    assert(all[j] == own[j - rest.len()]);
                    self.lemma_picks_in(m - 1, len, trigger, elapsed, j - rest.len());
                    if i < rest.len() {
                        assert(all[i] == rest[i]);
                        self.lemma_candidate(cfg, m - 1, trigger, elapsed, i);
                    } else {
                        assert(all[i] == own[i - rest.len()]);
                    }
                } else {
                    assert(all[i] == rest[i] && all[j] == rest[j]);
                }
            }
        }
    }

    /// Candidate collection, exactly: every enabled transition of the handler of an
    /// active leaf is a candidate. With `lemma_candidate` the candidates are these
    /// and no others.
    pub proof fn lemma_candidates_hold(
        &self,
        cfg: Seq<bool>,
        m: int,
        trigger: Stimulus,
        elapsed: u64,
        p: Pick,
    )
        requires
            self.wf(),
            self.has_pick(p),
            p.state < m <= self.size(),
            self.sourced(cfg, p.state as int, trigger, elapsed),
            crate::trigger::enabled(self.transition(p), trigger, elapsed),
        ensures
            self.candidates_upto(cfg, m, trigger, elapsed).contains(p),
        decreases m,
    {
        let rest = self.candidates_upto(cfg, m - 1, trigger, elapsed);
        let all = self.candidates_upto(cfg, m, trigger, elapsed);
        if p.state < m - 1 {
            self.lemma_candidates_hold(cfg, m - 1, trigger, elapsed, p);
            let i = choose|i: int| 0 <= i < rest.len() && rest[i] == p;
            assert(all[i] == p);
        } else {
            let len = self.nodes()[m - 1].moves().len() as int;
            let own = self.picks_in(m - 1, len, trigger, elapsed);
            self.lemma_picks_hold(m - 1, len, trigger, elapsed, p.index as int);
            let i = choose|i: int| 0 <= i < own.len() && own[i] == p;
            assert(all[rest.len() + i] == p);
        }
    }

    /// The winners stand in document order.
    pub proof fn lemma_winners_ascend(&self, cfg: Seq<bool>, cands: Seq<Pick>, m: int)
        requires
            0 <= m <= cands.len(),
            forall|i: int, j: int|
                0 <= i < j < cands.len() ==> precedes(#[trigger] cands[i], #[trigger] cands[j]),
        ensures
            forall|i: int, j: int|
                0 <= i < j < self.winners_upto(cfg, cands, m).len() ==> precedes(
                    #[trigger] self.winners_upto(cfg, cands, m)[i],
                    #[trigger] self.winners_upto(cfg, cands, m)[j],
                ),
        decreases m,
    {
        if m > 0 {
            self.lemma_winners_ascend(cfg, cands, m - 1);
            self.lemma_winners(cfg, cands, m - 1);
            let kept = self.winners_upto(cfg, cands, m - 1);
            let w = self.winners_upto(cfg, cands, m);
            assert forall|i: int, j: int| 0 <= i < j < w.len() implies precedes(
                #[trigger] w[i],
                #[trigger] w[j],
            ) by {
                if j >= kept.len() {
                    assert(w[i] == kept[i]);
                    let at = choose|at: int| 0 <= at < m - 1 && cands[at] == kept[i];
                    assert(precedes(cands[at], cands[m - 1]));
                } else {
                    assert(w[i] == kept[i] && w[j] == kept[j]);
                }
            }
        }
    }

    /// In one step no transition fires twice: the transitions that fire stand in
    /// document order.
    pub proof fn lemma_fires_once(&self, cfg: Seq<bool>, trigger: Stimulus, elapsed: u64)
        requires
            self.wf(),
        ensures
            forall|i: int, j: int|
                0 <= i < j < self.firing(cfg, trigger, elapsed).len() ==> precedes(
                    #[trigger] self.firing(cfg, trigger, elapsed)[i],
                    #[trigger] self.firing(cfg, trigger, elapsed)[j],
                ),
    {
        let cands = self.candidates(cfg, trigger, elapsed);
        self.lemma_candidates_ascend(cfg, self.size(), trigger, elapsed);
        self.lemma_winners_ascend(cfg, cands, cands.len() as int);
    }

    /// When a state has completed in the step before, its transition that waits
    /// for nothing but that is a candidate of the tick that follows, if the state
    /// is the handler of an active leaf: if nothing more specific reacts.
    pub proof fn lemma_completion_is_candidate(
        &self,
        cfg: Seq<bool>,
        tick: Stimulus,
        p: Pick,
    )
        requires
            self.wf(),
            self.has_pick(p),
            tick.event is None,
            tick.has_completed(p.state as int),
            self.transition(p).event@.len() == 0,
            self.transition(p).condition matches Some(c) && c.delay is None && c.guard is None
                && c.done == Some(StateId(p.state)),
            self.sourced(cfg, p.state as int, tick, 0),
        ensures
            self.candidates(cfg, tick, 0).contains(p),
    {
        self.lemma_candidates_hold(cfg, self.size(), tick, 0, p);
    }
}

} // verus!
