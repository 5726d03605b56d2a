use crate::chart::{StateChart, StateId};
use crate::effect::{unbounded, Effect};
use crate::legal::Jump;
use crate::result::{StateMachineError, StateMachineResult};
use crate::traits::{Event, EventId, EventLabel};
use crate::trigger::{host, pack, reads, Stimulus, Trigger};
use vstd::prelude::*;

verus! {

/// What a handle holds, as plain values.
pub struct Snapshot {
    /// The active states, in document order.
    pub members: Seq<StateId>,
    /// The time spent in the configuration, as the host counts it.
    pub elapsed: u64,
    /// What the trigger that produced the handle did, in order.
    pub history: Seq<Effect>,
}

/// Where one instance of a chart currently is. A handle is a value: driving it
/// gives a new handle and leaves the chart untouched.
#[derive(Clone, Debug, PartialEq, Eq)]
pub struct StateMachine {
    current_configuration: Vec<StateId>,
    duration: u64,
    effects: Vec<Effect>,
}

impl View for StateMachine {
    type V = Snapshot;

    closed spec fn view(&self) -> Snapshot {
        Snapshot {
            members: self.current_configuration@,
            elapsed: self.duration,
            history: self.effects@,
        }
    }
}

/// The configuration that a list of states stands for in a chart of `n` states:
/// for each state whether the list names it.
pub open spec fn mask_of(members: Seq<StateId>, n: int) -> Seq<bool> {
    Seq::new(n as nat, |x: int| members.contains(StateId(x as usize)))
}

/// The active states among the first `m`, in document order.
pub open spec fn roster(cfg: Seq<bool>, m: int) -> Seq<StateId>
    decreases m,
{
    if m <= 0 {
        Seq::empty()
    } else if cfg[m - 1] {
        roster(cfg, m - 1).push(StateId((m - 1) as usize))
    } else {
        roster(cfg, m - 1)
    }
}

/// The place, from `k` on, of the first state in the list that a chart of `n`
/// states does not have; the length of the list if there is none.
pub open spec fn stray(members: Seq<StateId>, n: int, k: int) -> int
    decreases members.len() - k,
{
    if k < 0 || k >= members.len() {
        members.len() as int
    } else if members[k].0 >= n {
        k
    } else {
        stray(members, n, k + 1)
    }
}

/// The roster names exactly the active states among the first `m`.
pub proof fn lemma_roster(cfg: Seq<bool>, m: int, x: int)
    requires
        0 <= m <= cfg.len(),
        m <= usize::MAX,
        0 <= x <= usize::MAX,
    ensures
        roster(cfg, m).contains(StateId(x as usize)) <==> (x < m && cfg[x]),
    decreases m,
{
    if m > 0 {
        lemma_roster(cfg, m - 1, x);
        let rest = roster(cfg, m - 1);
        let id = StateId(x as usize);
        if cfg[m - 1] {
            let full = rest.push(StateId((m - 1) as usize));
            if rest.contains(id) {
                let i = choose|i: int| 0 <= i < rest.len() && rest[i] == id;
                assert(full[i] == id);
            }
            if x == m - 1 {
                assert(full[rest.len() as int] == id);
            }
            if full.contains(id) {
                let i = choose|i: int| 0 <= i < full.len() && full[i] == id;
                if i < rest.len() {
                    assert(rest[i] == id);
                }
            }
        }
    }
}

/// A configuration is the one that its roster stands for.
pub proof fn lemma_mask_roster(cfg: Seq<bool>)
    requires
        cfg.len() <= usize::MAX,
    ensures
        mask_of(roster(cfg, cfg.len() as int), cfg.len() as int) == cfg,
{
    let n = cfg.len() as int;
    assert forall|x: int| 0 <= x < n implies mask_of(roster(cfg, n), n)[x] == cfg[x] by {
        lemma_roster(cfg, n, x);
    }
    assert(mask_of(roster(cfg, n), n) =~= cfg);
}

impl StateMachine {
    /// The active states, in document order.
    pub fn configuration(&self) -> (r: &Vec<StateId>)
        ensures
            r@ == self@.members,
    {
        &self.current_configuration
    }

    /// The time spent in the configuration.
    pub fn duration(&self) -> (r: u64)
        ensures
            r == self@.elapsed,
    {
        self.duration
    }

    /// What the trigger that produced this handle did, in order.
    pub fn effects(&self) -> (r: &Vec<Effect>)
        ensures
            r@ == self@.history,
    {
        &self.effects
    }

    /// Tells whether the state is active.
    pub fn is_active(&self, id: StateId) -> (b: bool)
        ensures
            b == self@.members.contains(id),
    {
        let mut i: usize = 0;
        while i < self.current_configuration.len()
            invariant
                i <= self.current_configuration.len(),
                forall|j: int| 0 <= j < i ==> self.current_configuration@[j] != id,
            decreases self.current_configuration.len() - i,
        {
            if self.current_configuration[i] == id {
                return true;
            }
            i = i + 1;
        }
        false
    }

    /// The handle after `by` more units of time in the same configuration; the
    /// time stops at the largest value.
    pub fn advance(self, by: u64) -> (r: StateMachine)
        ensures
            r@.members == self@.members,
            r@.history == self@.history,
            r@.elapsed == if self@.elapsed + by > u64::MAX {
                u64::MAX
            } else {
                (self@.elapsed + by) as u64
            },
    {
        let StateMachine { current_configuration, duration, effects } = self;
        let duration = if by > u64::MAX - duration {
            u64::MAX
        } else {
            duration + by
        };
        StateMachine { current_configuration, duration, effects }
    }
}

/// Lists the active states in document order.
fn to_roster(cfg: &Vec<bool>) -> (members: Vec<StateId>)
    ensures
        members@ == roster(cfg@, cfg@.len() as int),
{
    let mut members: Vec<StateId> = Vec::new();
    let mut x: usize = 0;
    while x < cfg.len()
        invariant
            x <= cfg.len(),
            members@ == roster(cfg@, x as int),
        decreases cfg.len() - x,
    {
        if cfg[x] {
            members.push(StateId(x));
        }
        x = x + 1;
    }
    members
}

impl StateChart {
    /// The handle stands in a legal configuration of this chart.
    pub open spec fn legal_at(&self, m: Snapshot) -> bool {
        self.shape().legal(mask_of(m.members, self.size()))
    }

    /// What driving a handle with a trigger gives. A handle that names a state
    /// which the chart does not have is refused. Else the trigger takes its steps;
    /// the new handle stands in the configuration that they reach, has spent no
    /// time there, and records what they did.
    pub open spec fn outcome(&self, m: Snapshot, trigger: Stimulus, limit: nat) -> Result<
        Snapshot,
        StateMachineError,
    > {
        let n = self.size();
        let k = stray(m.members, n, 0);
        if k < m.members.len() {
            Err(StateMachineError::UnknownState(m.members[k]))
        } else {
            match self.react(mask_of(m.members, n), trigger, m.elapsed, limit) {
                Ok((cfg, history)) => Ok(
                    Snapshot { members: roster(cfg, n), elapsed: 0, history },
                ),
                Err(e) => Err(e),
            }
        }
    }

    /// The result is what driving the handle with the trigger gives.
    pub open spec fn answers(
        &self,
        m: Snapshot,
        trigger: Stimulus,
        limit: nat,
        r: StateMachineResult<StateMachine>,
    ) -> bool {
        match r {
            Ok(h) => self.outcome(m, trigger, limit) == Ok::<Snapshot, StateMachineError>(h@),
            Err(e) => self.outcome(m, trigger, limit) == Err::<Snapshot, StateMachineError>(e),
        }
    }

    /// No eventless transition is left over: in the handle's configuration the
    /// eventless tick, under the trigger's guards, has no candidate.
    pub open spec fn settled(&self, h: Snapshot, trigger: Stimulus) -> bool {
        self.candidates(mask_of(h.members, self.size()), trigger.quiet(), h.elapsed).len() == 0
    }

    /// The handle of a new instance: the chart's initial state is entered from the
    /// top, and the handle records the entries, outermost first.
    pub open spec fn opening(&self) -> Snapshot {
        Snapshot {
            members: roster(self.shape().opening(self.origin()), self.size()),
            elapsed: 0,
            history: self.enter_trace(seq![Jump { domain: -1, target: self.origin() }], self.size()),
        }
    }

    /// Turns the list of a handle into a configuration, or finds the first state
    /// that the chart does not have.
    fn to_mask(&self, members: &Vec<StateId>) -> (r: Result<Vec<bool>, StateId>)
        ensures
            match r {
                Ok(cfg) => stray(members@, self.size(), 0) == members@.len() && cfg@ == mask_of(
                    members@,
                    self.size(),
                ),
                Err(id) => stray(members@, self.size(), 0) < members@.len() && id
                    == members@[stray(members@, self.size(), 0)],
            },
    {
        let n = self.len();
        let mut cfg: Vec<bool> = vec![false; n];
        let mut k: usize = 0;
        while k < members.len()
            invariant
                k <= members.len(),
                n == self.size(),
                cfg.len() == n,
                stray(members@, n as int, 0) == stray(members@, n as int, k as int),
                forall|x: int|
                    0 <= x < n ==> (#[trigger] cfg@[x] <==> exists|j: int|
                        0 <= j < k && members@[j] == StateId(x as usize)),
            decreases members.len() - k,
        {
            let id = members[k];
            if id.0 >= n {
                return Err(id);
            }
            cfg.set(id.0, true);
            k = k + 1;
        }
        assert(cfg@ =~= mask_of(members@, n as int));
        Ok(cfg)
    }

    /// Takes the steps of a trigger from a configuration.
    fn run(&self, cfg: Vec<bool>, event: &Option<Vec<EventId>>, guards: &Vec<u64>, elapsed: u64, limit: usize) -> (r:
        Result<(Vec<bool>, Vec<Effect>), StateMachineError>)
        requires
            cfg.len() == self.size(),
        ensures
            match r {
                Ok((c, tr)) => self.react(cfg@, host(*event, *guards), elapsed, limit as nat) == Ok::<
                    (Seq<bool>, Seq<Effect>),
                    StateMachineError,
                >((c@, tr@)),
                Err(e) => self.react(cfg@, host(*event, *guards), elapsed, limit as nat) == Err::<
                    (Seq<bool>, Seq<Effect>),
                    StateMachineError,
                >(e),
            },
    {
        let none: Option<Vec<EventId>> = None;
        let nothing: Vec<bool> = Vec::new();
        let ghost goal = self.react(cfg@, host(*event, *guards), elapsed, limit as nat);
        let ghost tick = host(*event, *guards).quiet();
        assert(pack(*event, *guards, nothing) == host(*event, *guards));
        assert(pack(none, *guards, nothing) == tick);
        let mut cands = self.collect(&cfg, event, guards, &nothing, elapsed);
        if cands.len() == 0 {
            cands = self.collect(&cfg, &none, guards, &nothing, elapsed);
            if cands.len() == 0 {
                return Err(StateMachineError::NoApplicableTransition);
            }
        }
        let mut effects: Vec<Effect> = Vec::new();
        let (first, marks) = self.microstep(&cfg, &cands, &mut effects);
        let mut cur = first;
        let mut done = marks;
        let mut fuel: usize = limit;
        loop
            invariant
                cur.len() == self.size(),
                none is None,
                tick == host(none, *guards),
                goal == match self.settle(cur@, tick, done@, fuel as nat) {
                    Some((c, tr)) => Ok::<(Seq<bool>, Seq<Effect>), StateMachineError>(
                        (c, effects@ + tr),
                    ),
                    None => Err::<(Seq<bool>, Seq<Effect>), StateMachineError>(
                        StateMachineError::Unsettled,
                    ),
                },
                goal == self.react(cfg@, host(*event, *guards), elapsed, limit as nat),
            decreases fuel,
        {
            assert(pack(none, *guards, done) == tick.after(done@));
            let more = self.collect(&cur, &none, guards, &done, 0);
            if more.len() == 0 {
                assert(effects@ + Seq::<Effect>::empty() =~= effects@);
                return Ok((cur, effects));
            }
            if fuel == 0 {
                return Err(StateMachineError::Unsettled);
            }
            let ghost before = effects@;
            let ghost here = cur@;
            let ghost marked = done@;
            let (next, marks) = self.microstep(&cur, &more, &mut effects);
            proof {
                let picks = self.firing(here, tick.after(marked), 0);
                match self.settle(next@, tick, marks@, (fuel - 1) as nat) {
                    Some((c, tr)) => {
                        assert(before + (self.trace(here, picks) + tr) =~= (before + self.trace(
                            here,
                            picks,
                        )) + tr);
                    },
                    None => {},
                }
            }
            cur = next;
            done = marks;
            fuel = fuel - 1;
        }
    }

    /// Makes the handle of a new instance.
    pub fn start(&self) -> (h: StateMachine)
        ensures
            h@ == self.opening(),
            self.legal_at(h@),
    {
        let n = self.len();
        let initial = self.initial();
        let cfg = self.entered_mask(None, initial.0);
        let ghost jumps = seq![Jump { domain: -1, target: self.origin() }];
        proof {
            assert(cfg@ =~= self.shape().opening(self.origin()));
            self.shape().lemma_opening_legal(self.origin());
            lemma_mask_roster(cfg@);
        }
        let mut effects: Vec<Effect> = Vec::new();
        let mut x: usize = 0;
        while x < n
            invariant
                x <= n,
                n == self.size(),
                cfg.len() == n,
                jumps == seq![Jump { domain: -1, target: self.origin() }],
                forall|y: int|
                    0 <= y < n ==> #[trigger] cfg@[y] == self.shape().entered(-1, self.origin(), y),
                effects@ == self.enter_trace(jumps, x as int),
            decreases n - x,
        {
            proof {
                if self.shape().joined(jumps, x as int) {
                    let i = choose|i: int|
                        0 <= i < jumps.len() && self.shape().entered(
                            (#[trigger] jumps[i]).domain,
                            jumps[i].target,
                            x as int,
                        );
                }
                if cfg@[x as int] {
                    assert(self.shape().entered(jumps[0].domain, jumps[0].target, x as int));
                }
            }
            if cfg[x] {
                effects.push(Effect::Enter(StateId(x)));
            }
            x = x + 1;
        }
        StateMachine { current_configuration: to_roster(&cfg), duration: 0, effects }
    }

    /// Drives a handle with a trigger, with at most `limit` follow-up steps.
    ///
    /// A handle that names a state which the chart does not have gives
    /// `UnknownState`. A trigger to which nothing reacts, while no eventless
    /// transition is enabled either, gives `NoApplicableTransition`: the host
    /// keeps the old handle. Follow-up steps that have not come to rest within the
    /// limit give `Unsettled`. Else the new handle comes back.
    pub fn step_within(&self, machine: &StateMachine, trigger: &Trigger, limit: usize) -> (r:
        StateMachineResult<StateMachine>)
        ensures
            self.answers(machine@, trigger@, limit as nat, r),
            r matches Ok(h) ==> self.settled(h@, trigger@),
            r matches Ok(h) ==> self.heralded(h@.history, Seq::empty()),
            self.legal_at(machine@) ==> (r matches Ok(h) ==> self.legal_at(h@)),
    {
        let n = self.len();
        proof {
            self.lemma_completion_heralded(machine@, trigger@, limit as nat);
            self.lemma_update_settled(machine@, trigger@, limit as nat);
            if self.legal_at(machine@) {
                self.lemma_update_legal(machine@, trigger@, limit as nat);
            }
        }
        let cfg = match self.to_mask(&machine.current_configuration) {
            Ok(cfg) => cfg,
            Err(id) => {
                return Err(StateMachineError::UnknownState(id));
            },
        };
        assert(host(trigger.event, trigger.guards) == trigger@);
        match self.run(cfg, &trigger.event, &trigger.guards, machine.duration, limit) {
            Ok((next, effects)) => {
                proof {
                    self.lemma_react_len(
                        mask_of(machine@.members, n as int),
                        trigger@,
                        machine@.elapsed,
                        limit as nat,
                    );
                }
                Ok(StateMachine { current_configuration: to_roster(&next), duration: 0, effects })
            },
            Err(e) => Err(e),
        }
    }

    /// Drives a handle with a trigger, until the follow-up steps come to rest: as
    /// `step_within` does with the largest limit that a machine counts to.
    pub fn step(&self, machine: &StateMachine, trigger: &Trigger) -> (r: StateMachineResult<
        StateMachine,
    >)
        ensures
            self.answers(machine@, trigger@, unbounded(), r),
            r matches Ok(h) ==> self.settled(h@, trigger@),
            r matches Ok(h) ==> self.heralded(h@.history, Seq::empty()),
            self.legal_at(machine@) ==> (r matches Ok(h) ==> self.legal_at(h@)),
    {
        self.step_within(machine, trigger, usize::MAX)
    }

    /// Drives a handle with an event of the host, as `step` does with the trigger
    /// of what the event's `id` and `name` returned; no guard is taken to hold.
    pub fn update<E: Event>(&self, machine: StateMachine, event: E) -> (r: StateMachineResult<
        StateMachine,
    >)
        ensures
            exists|id: &EventId, label: &EventLabel| #[trigger]
                reads(&event, id, label) && self.answers(
                    machine@,
                    Stimulus::of_event(*id, vstd::utf8::encode_utf8(label@)),
                    unbounded(),
                    r,
                ) && (r matches Ok(h) ==> self.settled(
                    h@,
                    Stimulus::of_event(*id, vstd::utf8::encode_utf8(label@)),
                )),
            self.legal_at(machine@) ==> (r matches Ok(h) ==> self.legal_at(h@)),
            stray(machine@.members, self.size(), 0) < machine@.members.len() ==> r == Err::<
                StateMachine,
                StateMachineError,
            >(
                StateMachineError::UnknownState(
                    machine@.members[stray(machine@.members, self.size(), 0)],
                ),
            ),
    {
        let trigger = Trigger::of(&event);
        self.step(&machine, &trigger)
    }

    /// Drives a handle with the eventless tick; no guard is taken to hold.
    pub fn tick(&self, machine: StateMachine) -> (r: StateMachineResult<StateMachine>)
        ensures
            self.answers(machine@, Stimulus::tick(), unbounded(), r),
            r matches Ok(h) ==> self.settled(h@, Stimulus::tick()),
            self.legal_at(machine@) ==> (r matches Ok(h) ==> self.legal_at(h@)),
    {
        let trigger = Trigger::tick();
        self.step(&machine, &trigger)
    }

    /// A step keeps the length of the configuration.
    pub proof fn lemma_settle_len(
        &self,
        cfg: Seq<bool>,
        tick: Stimulus,
        completed: Seq<bool>,
        fuel: nat,
    )
        requires
            cfg.len() == self.size(),
        ensures
            self.settle(cfg, tick, completed, fuel) matches Some((c, _)) ==> c.len() == self.size(),
        decreases fuel,
    {
        if self.candidates(cfg, tick.after(completed), 0).len() != 0 && fuel > 0 {
            let picks = self.firing(cfg, tick.after(completed), 0);
            self.lemma_settle_len(
                self.after(cfg, picks),
                tick,
                self.completions(self.after(cfg, picks), self.jumps(picks)),
                (fuel - 1) as nat,
            );
        }
    }

    /// The steps of a trigger keep the length of the configuration.
    pub proof fn lemma_react_len(&self, cfg: Seq<bool>, trigger: Stimulus, elapsed: u64, limit: nat)
        requires
            cfg.len() == self.size(),
        ensures
            self.react(cfg, trigger, elapsed, limit) matches Ok((c, _)) ==> c.len() == self.size(),
    {
        let first = self.lead(cfg, trigger, elapsed);
        let picks = self.firing(cfg, first, elapsed);
        self.lemma_settle_len(
            self.after(cfg, picks),
            trigger.quiet(),
            self.completions(self.after(cfg, picks), self.jumps(picks)),
            limit,
        );
    }
}

} // verus!
