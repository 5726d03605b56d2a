use crate::chart::{ActiveState, State, StateChart};
use crate::effect::Effect;
use crate::machine::StateMachine;
use crate::traits::{Action, ActionId};
use vstd::prelude::*;

verus! {

impl StateChart {
    /// The actions that belong to an effect, in order: the exit actions of a state
    /// that is left, the actions of a transition that fires, the entry actions of a
    /// state that is entered. A completion has none, nor has an effect that names
    /// nothing of this chart.
    pub open spec fn actions_of(&self, e: Effect) -> Seq<ActionId> {
        match e {
            Effect::Exit(s) => if s.0 < self.size() {
                self.nodes()[s.0 as int].exit_actions()
            } else {
                Seq::empty()
            },
            Effect::Transition(s, k) => if s.0 < self.size() && k < self.nodes()[s.0 as int].moves().len() {
                self.nodes()[s.0 as int].moves()[k as int].on_transition@
            } else {
                Seq::empty()
            },
            Effect::Enter(s) => if s.0 < self.size() {
                self.nodes()[s.0 as int].entry_actions()
            } else {
                Seq::empty()
            },
            Effect::Done(_) => Seq::empty(),
        }
    }

    /// The actions that belong to the first `m` effects, in order.
    pub open spec fn script(&self, effects: Seq<Effect>, m: int) -> Seq<ActionId>
        decreases m,
    {
        if m <= 0 {
            Seq::empty()
        } else {
            self.script(effects, m - 1) + self.actions_of(effects[m - 1])
        }
    }

    /// Lists the actions that the host is to run for the effects, in order.
    pub fn actions(&self, effects: &Vec<Effect>) -> (r: Vec<ActionId>)
        ensures
            r@ == self.script(effects@, effects@.len() as int),
    {
        let n = self.len();
        let mut r: Vec<ActionId> = Vec::new();
        let mut m: usize = 0;
        while m < effects.len()
            invariant
                m <= effects.len(),
                n == self.size(),
                r@ == self.script(effects@, m as int),
            decreases effects.len() - m,
        {
            let ghost before = r@;
            match effects[m] {
                Effect::Exit(s) => {
                    if s.0 < n {
                        append(&mut r, self.node(s.0).on_exit());
                    } else {
                        assert(r@ + Seq::<ActionId>::empty() =~= r@);
                    }
                },
                Effect::Transition(s, k) => {
                    if s.0 < n && k < self.node(s.0).transitions().len() {
                        let moves = self.node(s.0).transitions();
                        append(&mut r, moves[k].on_transition.as_slice());
                    } else {
                        assert(r@ + Seq::<ActionId>::empty() =~= r@);
                    }
                },
                Effect::Enter(s) => {
                    if s.0 < n {
                        append(&mut r, self.node(s.0).on_entry());
                    } else {
                        assert(r@ + Seq::<ActionId>::empty() =~= r@);
                    }
                },
                Effect::Done(_) => {
                    assert(r@ + Seq::<ActionId>::empty() =~= r@);
                },
            }
            m = m + 1;
        }
        r
    }
}

/// Appends the ids to the list.
fn append(list: &mut Vec<ActionId>, more: &[ActionId])
    ensures
        final(list)@ == old(list)@ + more@,
{
    let mut i: usize = 0;
    while i < more.len()
        invariant
            i <= more.len(),
            list@ == old(list)@ + more@.take(i as int),
        decreases more.len() - i,
    {
        list.push(more[i]);
        assert(more@.take(i + 1) =~= more@.take(i as int).push(more@[i as int]));
        assert(list@ =~= old(list)@ + more@.take(i + 1));
        i = i + 1;
    }
    assert(more@.take(more@.len() as int) =~= more@);
}

/// Runs the script on the host's context: the `id` of each action is read once,
/// then each id of the script in turn runs the first action that returned it, on
/// the context as the one before left it. Returns how many ids no action returned.
pub fn perform<C, A: Action<C>>(registry: &Vec<A>, script: &Vec<ActionId>, ctx: &mut C) -> (missing:
    usize)
    ensures
        exists|ids: Seq<ActionId>, steps: Seq<C>|
            #![trigger returned(registry@, ids), steps.len()]
            returned(registry@, ids) && missing == missed(ids, script@, script@.len() as int)
                && steps.len() == script@.len() + 1 && steps[0] == *old(ctx)
                && steps[script@.len() as int] == *final(ctx) && forall|j: int|
                #![trigger steps[j]]
                1 <= j <= script@.len() ==> if place_of(ids, script@[j - 1], 0) < 0 {
                    steps[j] == steps[j - 1]
                } else {
                    exists|r: &mut C|
                        #![trigger call_ensures(A::execute, (&registry@[place_of(ids, script@[j - 1], 0)], r), ())]
                        mut_ref_current(r) == steps[j - 1] && mut_ref_future(r) == steps[j]
                            && call_ensures(
                            A::execute,
                            (&registry@[place_of(ids, script@[j - 1], 0)], r),
                            (),
                        )
                },
        missing <= script@.len(),
        registry@.len() == 0 ==> missing == script@.len(),
        missing == script@.len() ==> *final(ctx) == *old(ctx),
{
    let mut ids: Vec<ActionId> = Vec::new();
    let mut k: usize = 0;
    while k < registry.len()
        invariant
            k <= registry.len(),
            ids@.len() == k,
            forall|i: int|
                0 <= i < k ==> call_ensures(A::id, (&registry@[i],), &#[trigger] ids@[i]),
        decreases registry.len() - k,
    {
        let id = registry[k].id();
        ids.push(*id);
        k = k + 1;
    }
    assert(returned(registry@, ids@));
    let plan = dispatch(&ids, script);
    let ghost mut steps: Seq<C> = seq![*ctx];
    let mut missing: usize = 0;
    let mut m: usize = 0;
    while m < script.len()
        invariant
            m <= script.len(),
            ids@.len() == registry@.len(),
            returned(registry@, ids@),
            plan@.len() == script@.len(),
            forall|i: int|
                0 <= i < script@.len() ==> place_or_none(#[trigger] plan@[i]) == place_of(
                    ids@,
                    script@[i],
                    0,
                ),
            missing == missed(ids@, script@, m as int),
            missing <= m,
            missing == m ==> *ctx == *old(ctx),
            steps.len() == m + 1,
            steps[0] == *old(ctx),
            steps[m as int] == *ctx,
            forall|j: int|
                #![trigger steps[j]]
                1 <= j <= m ==> if place_of(ids@, script@[j - 1], 0) < 0 {
                    steps[j] == steps[j - 1]
                } else {
                    exists|r: &mut C|
                        #![trigger call_ensures(A::execute, (&registry@[place_of(ids@, script@[j - 1], 0)], r), ())]
                        mut_ref_current(r) == steps[j - 1] && mut_ref_future(r) == steps[j]
                            && call_ensures(
                            A::execute,
                            (&registry@[place_of(ids@, script@[j - 1], 0)], r),
                            (),
                        )
                },
        decreases script.len() - m,
    {
        proof {
            lemma_place_of(ids@, script@[m as int], 0);
        }
        let ghost so_far = steps;
        match plan[m] {
            Some(at) => {
                assert(at == place_of(ids@, script@[m as int], 0));
                registry[at].execute(ctx);
            },
            None => {
                assert(place_of(ids@, script@[m as int], 0) < 0);
                missing = missing + 1;
            },
        }
        proof {
            steps = so_far.push(*ctx);
            assert forall|j: int| 0 <= j <= m implies #[trigger] steps[j] == so_far[j] by {}
        }
        m = m + 1;
    }
    proof {
        if registry@.len() == 0 {
            assert(ids@ =~= Seq::empty());
            lemma_missed_all(script@, script@.len() as int);
        }
    }
    missing
}

/// The ids are what the `id` of each action of the registry returned, in order.
pub open spec fn returned<C, A: Action<C>>(registry: Seq<A>, ids: Seq<ActionId>) -> bool {
    &&& ids.len() == registry.len()
    &&& forall|i: int|
        0 <= i < ids.len() ==> call_ensures(A::id, (&registry[i],), &#[trigger] ids[i])
}

/// The place that an optional index stands for, `-1` for none.
pub open spec fn place_or_none(at: Option<usize>) -> int {
    match at {
        Some(at) => at as int,
        None => -1,
    }
}

/// The place, from `k` on, of the first of the ids that is `id`; `-1` if there
/// is none.
pub open spec fn place_of(ids: Seq<ActionId>, id: ActionId, k: int) -> int
    decreases ids.len() - k,
{
    if k < 0 || k >= ids.len() {
        -1
    } else if ids[k] == id {
        k
    } else {
        place_of(ids, id, k + 1)
    }
}

/// How many of the first `m` ids of the script are not among the ids.
pub open spec fn missed(ids: Seq<ActionId>, script: Seq<ActionId>, m: int) -> int
    decreases m,
{
    if m <= 0 {
        0
    } else if place_of(ids, script[m - 1], 0) < 0 {
        missed(ids, script, m - 1) + 1
    } else {
        missed(ids, script, m - 1)
    }
}

/// What `place_of` returns is a place of the id, not before `k`, or `-1`.
pub proof fn lemma_place_of(ids: Seq<ActionId>, id: ActionId, k: int)
    requires
        0 <= k,
    ensures
        place_of(ids, id, k) == -1 || (k <= place_of(ids, id, k) < ids.len() && ids[place_of(
            ids,
            id,
            k,
        )] == id),
    decreases ids.len() - k,
{
    if k < ids.len() && ids[k] != id {
        lemma_place_of(ids, id, k + 1);
    }
}

/// Without actions every id of the script is missed.
pub proof fn lemma_missed_all(script: Seq<ActionId>, m: int)
    requires
        0 <= m <= script.len(),
    ensures
        missed(Seq::empty(), script, m) == m,
    decreases m,
{
    if m > 0 {
        lemma_missed_all(script, m - 1);
    }
}

/// Finds, for each id of the script, the first place among the ids of the
/// actions where it stands; none for an id that does not stand among them.
pub fn dispatch(ids: &Vec<ActionId>, script: &Vec<ActionId>) -> (plan: Vec<Option<usize>>)
    ensures
        plan@.len() == script@.len(),
        forall|i: int|
            0 <= i < script@.len() ==> place_or_none(#[trigger] plan@[i]) == place_of(
                ids@,
                script@[i],
                0,
            ),
{
    let mut plan: Vec<Option<usize>> = Vec::new();
    let mut m: usize = 0;
    while m < script.len()
        invariant
            m <= script.len(),
            plan@.len() == m,
            forall|i: int|
                0 <= i < m ==> place_or_none(#[trigger] plan@[i]) == place_of(ids@, script@[i], 0),
        decreases script.len() - m,
    {
        let id = script[m];
        let mut at: Option<usize> = None;
        let mut k: usize = 0;
        while k < ids.len() && at.is_none()
            invariant
                k <= ids.len(),
                at is None ==> place_of(ids@, id, 0) == place_of(ids@, id, k as int),
                at is Some ==> place_or_none(at) == place_of(ids@, id, 0),
            decreases ids.len() - k + if at is Some { 0int } else { 1int },
        {
            if ids[k] == id {
                at = Some(k);
            } else {
                k = k + 1;
            }
        }
        plan.push(at);
        m = m + 1;
    }
    plan
}

impl StateChart {
    /// Runs, on the host's context and with the host's actions, the actions that
    /// belong to the effects of a handle, in their order: the exit actions of the
    /// states that were left, the actions of the transitions that fired, the entry
    /// actions of the states that were entered, step by step. It is `perform` of
    /// the script that `actions` gives for the effects. Returns how many of the
    /// ids no action returned.
    pub fn apply<C, A: Action<C>>(&self, machine: &StateMachine, registry: &Vec<A>, ctx: &mut C) -> (missing:
        usize)
        ensures
            exists|ids: Seq<ActionId>, steps: Seq<C>|
                #![trigger returned(registry@, ids), steps.len()]
                returned(registry@, ids) && missing == missed(
                    ids,
                    self.script(machine@.history, machine@.history.len() as int),
                    self.script(machine@.history, machine@.history.len() as int).len() as int,
                ) && steps.len() == self.script(
                    machine@.history,
                    machine@.history.len() as int,
                ).len() + 1 && steps[0] == *old(ctx) && steps[self.script(
                    machine@.history,
                    machine@.history.len() as int,
                ).len() as int] == *final(ctx) && forall|j: int|
                    #![trigger steps[j]]
                    1 <= j <= self.script(machine@.history, machine@.history.len() as int).len()
                        ==> if place_of(
                        ids,
                        self.script(machine@.history, machine@.history.len() as int)[j - 1],
                        0,
                    ) < 0 {
                        steps[j] == steps[j - 1]
                    } else {
                        exists|r: &mut C|
                            #![trigger call_ensures(A::execute, (&registry@[place_of(ids, self.script(machine@.history, machine@.history.len() as int)[j - 1], 0)], r), ())]
                            mut_ref_current(r) == steps[j - 1] && mut_ref_future(r) == steps[j]
                                && call_ensures(
                                A::execute,
                                (
                                    &registry@[place_of(
                                        ids,
                                        self.script(
                                            machine@.history,
                                            machine@.history.len() as int,
                                        )[j - 1],
                                        0,
                                    )],
                                    r,
                                ),
                                (),
                            )
                    },
    {
        let script = self.actions(machine.effects());
        perform(registry, &script, ctx)
    }
}

} // verus!
