use crate::chart::{StateChart, StateId};
use crate::legal::Jump;
use crate::resolve::Pick;
use crate::result::StateMachineError;
use crate::tree::Kind;
use crate::trigger::Stimulus;
use vstd::prelude::*;

verus! {

/// One thing that a step does, in the order in which the host is to run the
/// actions that belong to it.
#[derive(Clone, Copy, Debug, PartialEq, Eq, Structural)]
pub enum Effect {
    /// The state is left: its exit actions run.
    Exit(StateId),
    /// The transition at this place among the state's transitions fires: its own
    /// actions run.
    Transition(StateId, usize),
    /// The state is entered: its entry actions run.
    Enter(StateId),
    /// The compound or parallel state has completed.
    Done(StateId),
}

/// The limit on follow-up steps that is no limit to a machine: the largest
/// number that it counts to.
pub open spec fn unbounded() -> nat {
    usize::MAX as nat
}

impl StateChart {
    /// The configuration after the transitions have fired.
    pub open spec fn after(&self, cfg: Seq<bool>, picks: Seq<Pick>) -> Seq<bool> {
        self.shape().after(cfg, self.jumps(picks))
    }

    /// The exits of the states from `m` on, innermost first: in descending order.
    pub open spec fn exit_trace(&self, cfg: Seq<bool>, jumps: Seq<Jump>, m: int) -> Seq<Effect>
        decreases self.size() - m,
    {
        if m < 0 || m >= self.size() {
            Seq::empty()
        } else if self.shape().left(cfg, jumps, m) {
            self.exit_trace(cfg, jumps, m + 1).push(Effect::Exit(StateId(m as usize)))
        } else {
            self.exit_trace(cfg, jumps, m + 1)
        }
    }

    /// The firings of the transitions, in document order.
    pub open spec fn fire_trace(&self, picks: Seq<Pick>) -> Seq<Effect> {
        Seq::new(picks.len(), |i: int| Effect::Transition(StateId(picks[i].state), picks[i].index))
    }

    /// The entries of the states before `m`, outermost first: in ascending order.
    pub open spec fn enter_trace(&self, jumps: Seq<Jump>, m: int) -> Seq<Effect>
        decreases m,
    {
        if m <= 0 {
            Seq::empty()
        } else if self.shape().joined(jumps, m - 1) {
            self.enter_trace(jumps, m - 1).push(Effect::Enter(StateId((m - 1) as usize)))
        } else {
            self.enter_trace(jumps, m - 1)
        }
    }

    /// `y` is an active final state.
    pub open spec fn is_resting(&self, cfg: Seq<bool>, y: int) -> bool {
        0 <= y < self.size() && self.shape().kind[y] is Final && cfg[y]
    }

    /// `x` has reached its end: it is an active final state, an active compound
    /// state with an active final substate, or an active parallel state all of
    /// whose regions have reached their end.
    pub open spec fn in_final(&self, cfg: Seq<bool>, x: int) -> bool
        decreases self.size() - x,
    {
        if !(0 <= x < self.size()) {
            false
        } else {
            let kids = self.nodes()[x].children();
            match self.shape().kind[x] {
                Kind::Atomic => false,
                Kind::Final => cfg[x],
                Kind::Compound => cfg[x] && exists|k: int|
                    0 <= k < kids.len() && self.is_resting(cfg, (#[trigger] kids[k]).0 as int),
                Kind::Parallel => cfg[x] && forall|k: int|
                    0 <= k < kids.len() ==> x < (#[trigger] kids[k]).0 < self.size()
                        && self.in_final(cfg, kids[k].0 as int),
            }
        }
    }

    /// `x` is a compound or parallel state that is done.
    pub open spec fn done(&self, cfg: Seq<bool>, x: int) -> bool {
        0 <= x < self.size() && (self.shape().kind[x] is Compound || self.shape().kind[x] is Parallel)
            && self.in_final(cfg, x)
    }

    /// The moves enter a final state below `x`.
    pub open spec fn reached(&self, jumps: Seq<Jump>, x: int) -> bool {
        exists|f: int|
            0 <= f < self.size() && self.shape().kind[f] is Final && self.shape().below(f, x)
                && #[trigger] self.shape().joined(jumps, f)
    }

    /// `x` completes in a step: the step's moves enter a final state below it, and
    /// in the configuration after the step it is done.
    pub open spec fn completes(&self, next: Seq<bool>, jumps: Seq<Jump>, x: int) -> bool {
        self.done(next, x) && self.reached(jumps, x)
    }

    /// The completions of the states from `m` on, innermost first.
    pub open spec fn done_trace(&self, next: Seq<bool>, jumps: Seq<Jump>, m: int) -> Seq<Effect>
        decreases self.size() - m,
    {
        if m < 0 || m >= self.size() {
            Seq::empty()
        } else if self.completes(next, jumps, m) {
            self.done_trace(next, jumps, m + 1).push(Effect::Done(StateId(m as usize)))
        } else {
            self.done_trace(next, jumps, m + 1)
        }
    }

    /// What one step does, in order: the exits, innermost first; the transitions,
    /// in document order; the entries, outermost first; the completions, innermost
    /// first.
    pub open spec fn trace(&self, cfg: Seq<bool>, picks: Seq<Pick>) -> Seq<Effect> {
        let jumps = self.jumps(picks);
        self.exit_trace(cfg, jumps, 0) + self.fire_trace(picks) + self.enter_trace(
            jumps,
            self.size(),
        ) + self.done_trace(self.after(cfg, picks), jumps, 0)
    }

    /// The effect is the firing of a transition that waits for the completion of
    /// the state `x`.
    pub open spec fn waits_for(&self, e: Effect, x: int) -> bool {
        &&& e matches Effect::Transition(s, k)
        &&& s.0 < self.size()
        &&& k < self.nodes()[s.0 as int].moves().len()
        &&& self.nodes()[s.0 as int].moves()[k as int].condition matches Some(c)
        &&& c.done matches Some(d)
        &&& d.0 == x
    }

    /// Every firing in the trace of a transition that waits for the completion of
    /// a state comes after that completion: the state completed before the trace
    /// began, or its completion stands earlier in the trace.
    pub open spec fn heralded(&self, tr: Seq<Effect>, before: Seq<bool>) -> bool {
        forall|i: int, x: int|
            0 <= i < tr.len() && #[trigger] self.waits_for(tr[i], x) ==> (0 <= x < before.len()
                && before[x]) || exists|j: int|
                0 <= j < i && tr[j] == Effect::Done(StateId(x as usize))
    }

    /// For each state whether it completes in a step.
    pub open spec fn completions(&self, next: Seq<bool>, jumps: Seq<Jump>) -> Seq<bool> {
        Seq::new(self.size() as nat, |x: int| self.completes(next, jumps, x))
    }

    /// The follow-up steps: eventless ticks, each on a handle that has just entered
    /// its configuration and each after the completions of the step before it,
    /// until one has no candidate. None if `fuel` steps do not get there.
    pub open spec fn settle(
        &self,
        cfg: Seq<bool>,
        tick: Stimulus,
        completed: Seq<bool>,
        fuel: nat,
    ) -> Option<(Seq<bool>, Seq<Effect>)>
        decreases fuel,
    {
        let picks = self.firing(cfg, tick.after(completed), 0);
        if self.candidates(cfg, tick.after(completed), 0).len() == 0 {
            Some((cfg, Seq::empty()))
        } else if fuel == 0 {
            None
        } else {
            match self.settle(
                self.after(cfg, picks),
                tick,
                self.completions(self.after(cfg, picks), self.jumps(picks)),
                (fuel - 1) as nat,
            ) {
                Some((c, tr)) => Some((c, self.trace(cfg, picks) + tr)),
                None => None,
            }
        }
    }

    /// The trigger of the first step: the given one if it has a candidate, else the
    /// eventless tick.
    pub open spec fn lead(&self, cfg: Seq<bool>, trigger: Stimulus, elapsed: u64) -> Stimulus {
        if self.candidates(cfg, trigger, elapsed).len() > 0 {
            trigger
        } else {
            trigger.quiet()
        }
    }

    /// What a trigger does to a configuration: the first step, then the follow-up
    /// steps, at most `limit` of them. If not even the eventless tick has a
    /// candidate, the trigger is ignored.
    pub open spec fn react(
        &self,
        cfg: Seq<bool>,
        trigger: Stimulus,
        elapsed: u64,
        limit: nat,
    ) -> Result<
        (Seq<bool>, Seq<Effect>),
        StateMachineError,
    > {
        let first = self.lead(cfg, trigger, elapsed);
        let picks = self.firing(cfg, first, elapsed);
        if self.candidates(cfg, first, elapsed).len() == 0 {
            Err(StateMachineError::NoApplicableTransition)
        } else {
            match self.settle(
                self.after(cfg, picks),
                trigger.quiet(),
                self.completions(self.after(cfg, picks), self.jumps(picks)),
                limit,
            ) {
                Some((c, tr)) => Ok((c, self.trace(cfg, picks) + tr)),
                None => Err(StateMachineError::Unsettled),
            }
        }
    }
}

} // verus!
