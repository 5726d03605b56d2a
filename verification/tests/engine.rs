use statechart::perform::{dispatch, perform};
use statechart::traits::{event_id, hash_event};
use statechart::{
    Action, ActionId, ActionLabel, Effect, Event, EventId, EventLabel, Kind, State, StateChart,
    StateId, StateMachine, StateMachineError, TransitionBuilder, Trigger,
};
use std::collections::HashMap;

struct Named {
    id: EventId,
    name: EventLabel,
}

impl Named {
    fn new(name: &str) -> Named {
        Named { id: event_id(name), name: EventLabel(name.to_string()) }
    }
}

impl Event for Named {
    fn id(&self) -> &EventId {
        &self.id
    }

    fn name(&self) -> &EventLabel {
        &self.name
    }

    fn properties(&self) -> HashMap<String, String> {
        HashMap::new()
    }
}

struct Log {
    id: ActionId,
    name: ActionLabel,
}

impl Log {
    fn new(id: u64, name: &str) -> Log {
        Log { id: ActionId(id), name: ActionLabel(name.to_string()) }
    }
}

impl Action<Vec<String>> for Log {
    fn id(&self) -> &ActionId {
        &self.id
    }

    fn name(&self) -> &ActionLabel {
        &self.name
    }

    fn execute(&self, ctx: &mut Vec<String>) {
        ctx.push(self.name.0.clone());
    }
}

fn ids(list: &[usize]) -> Vec<StateId> {
    list.iter().map(|x| StateId(*x)).collect()
}

// S (compound, initial A) { A --go--> B, B final }
fn round_trip() -> StateChart {
    let mut builder = StateChart::build();
    builder.initial("S");
    let mut s = builder.add_state().name("S").initial("A");
    s.add_state()
        .name("A")
        .on_exit(ActionId(1))
        .transition(TransitionBuilder::new().on("go").target("B").action(ActionId(2)))
        .finish();
    s.add_state().name("B").terminal().on_entry(ActionId(3)).finish();
    s.finish();
    builder.finish().unwrap()
}

// P (parallel) { R1 { A1 --e1,both--> B1 }, R2 { A2 --e2,both--> B2 } }
fn two_regions() -> StateChart {
    let mut builder = StateChart::build();
    builder.initial("P");
    let mut p = builder.add_state().name("P").parallel();
    let mut r1 = p.add_state().name("R1").initial("A1");
    r1.add_state()
        .name("A1")
        .transition(TransitionBuilder::new().on("e1").on("both").target("B1"))
        .finish();
    r1.add_state().name("B1").finish();
    r1.finish();
    let mut r2 = p.add_state().name("R2").initial("A2");
    r2.add_state()
        .name("A2")
        .transition(TransitionBuilder::new().on("e2").on("both").target("B2"))
        .finish();
    r2.add_state().name("B2").finish();
    r2.finish();
    p.finish();
    builder.finish().unwrap()
}

// T { P (parallel) { R1 { A1 --x--> Out1 }, R2 { A2 --x--> Out2 } }, Out1, Out2 }
fn rivals() -> StateChart {
    let mut builder = StateChart::build();
    builder.initial("T");
    let mut t = builder.add_state().name("T").initial("P");
    let mut p = t.add_state().name("P").parallel();
    let mut r1 = p.add_state().name("R1").initial("A1");
    r1.add_state().name("A1").transition(TransitionBuilder::new().on("x").target("Out1")).finish();
    r1.finish();
    let mut r2 = p.add_state().name("R2").initial("A2");
    r2.add_state().name("A2").transition(TransitionBuilder::new().on("x").target("Out2")).finish();
    r2.finish();
    p.finish();
    t.add_state().name("Out1").finish();
    t.add_state().name("Out2").finish();
    t.finish();
    builder.finish().unwrap()
}

// P (parallel) { R1 { A1 --f1--> F1 final }, R2 { A2 --f2--> F2 final } }
fn finishing_regions() -> StateChart {
    let mut builder = StateChart::build();
    builder.initial("P");
    let mut p = builder.add_state().name("P").parallel();
    let mut r1 = p.add_state().name("R1").initial("A1");
    r1.add_state().name("A1").transition(TransitionBuilder::new().on("f1").target("F1")).finish();
    r1.add_state().name("F1").terminal().finish();
    r1.finish();
    let mut r2 = p.add_state().name("R2").initial("A2");
    r2.add_state().name("A2").transition(TransitionBuilder::new().on("f2").target("F2")).finish();
    r2.add_state().name("F2").terminal().finish();
    r2.finish();
    p.finish();
    builder.finish().unwrap()
}

#[test]
fn initial_configuration_follows_the_defaults() {
    let chart = round_trip();
    let machine = chart.start();
    assert_eq!(machine.configuration(), &ids(&[0, 1]));
    assert_eq!(machine.duration(), 0);
    assert_eq!(machine.effects(), &vec![Effect::Enter(StateId(0)), Effect::Enter(StateId(1))]);
    assert!(machine.is_active(StateId(1)));
    assert!(!machine.is_active(StateId(2)));
}

#[test]
fn round_trip_scenario() {
    let chart = round_trip();
    let machine = chart.start();
    let next = chart.update(machine, Named::new("go")).unwrap();
    assert_eq!(next.configuration(), &ids(&[0, 2]));
    assert_eq!(
        next.effects(),
        &vec![
            Effect::Exit(StateId(1)),
            Effect::Transition(StateId(1), 0),
            Effect::Enter(StateId(2)),
            Effect::Done(StateId(0)),
        ]
    );
    assert_eq!(chart.actions(next.effects()), vec![ActionId(1), ActionId(2), ActionId(3)]);
}

#[test]
fn actions_run_in_order_on_the_context() {
    let chart = round_trip();
    let next = chart.update(chart.start(), Named::new("go")).unwrap();
    let registry =
        vec![Log::new(3, "B.entry"), Log::new(2, "go"), Log::new(1, "A.exit"), Log::new(1, "late")];
    let mut ran: Vec<String> = Vec::new();
    let missing = perform(&registry, &chart.actions(next.effects()), &mut ran);
    assert_eq!(missing, 0);
    assert_eq!(ran, vec!["A.exit".to_string(), "go".to_string(), "B.entry".to_string()]);
    let mut none: Vec<String> = Vec::new();
    let short = vec![Log::new(2, "go")];
    assert_eq!(perform(&short, &chart.actions(next.effects()), &mut none), 2);
    assert_eq!(none, vec!["go".to_string()]);
}

#[test]
fn ignored_event() {
    let chart = round_trip();
    let machine = chart.start();
    let result = chart.update(machine.clone(), Named::new("nope"));
    assert_eq!(result, Err(StateMachineError::NoApplicableTransition));
    assert!(result.unwrap_err().is_ignorable());
    assert_eq!(machine.configuration(), &ids(&[0, 1]));
}

#[test]
fn update_is_deterministic() {
    let chart = two_regions();
    let machine = chart.start();
    let one = chart.update(machine.clone(), Named::new("both"));
    let two = chart.update(machine, Named::new("both"));
    assert_eq!(one, two);
}

#[test]
fn parallel_region_independence() {
    let chart = two_regions();
    let machine = chart.start();
    assert_eq!(machine.configuration(), &ids(&[0, 1, 2, 4, 5]));
    let next = chart.update(machine, Named::new("e1")).unwrap();
    assert_eq!(next.configuration(), &ids(&[0, 1, 3, 4, 5]));
    assert_eq!(
        next.effects(),
        &vec![Effect::Exit(StateId(2)), Effect::Transition(StateId(2), 0), Effect::Enter(StateId(3))]
    );
}

#[test]
fn disjoint_transitions_fire_together() {
    let chart = two_regions();
    let next = chart.update(chart.start(), Named::new("both")).unwrap();
    assert_eq!(next.configuration(), &ids(&[0, 1, 3, 4, 6]));
    assert_eq!(
        next.effects(),
        &vec![
            Effect::Exit(StateId(5)),
            Effect::Exit(StateId(2)),
            Effect::Transition(StateId(2), 0),
            Effect::Transition(StateId(5), 0),
            Effect::Enter(StateId(3)),
            Effect::Enter(StateId(6)),
        ]
    );
}

#[test]
fn conflicting_transitions_earlier_wins() {
    let chart = rivals();
    let machine = chart.start();
    assert_eq!(machine.configuration(), &ids(&[0, 1, 2, 3, 4, 5]));
    let next = chart.update(machine, Named::new("x")).unwrap();
    assert_eq!(next.configuration(), &ids(&[0, 6]));
    assert_eq!(
        next.effects(),
        &vec![
            Effect::Exit(StateId(5)),
            Effect::Exit(StateId(4)),
            Effect::Exit(StateId(3)),
            Effect::Exit(StateId(2)),
            Effect::Exit(StateId(1)),
            Effect::Transition(StateId(3), 0),
            Effect::Enter(StateId(6)),
        ]
    );
}

#[test]
fn parallel_completes_when_the_last_region_finishes() {
    let chart = finishing_regions();
    let start = chart.start();
    let first = chart.update(start.clone(), Named::new("f1")).unwrap();
    assert_eq!(first.configuration(), &ids(&[0, 1, 3, 4, 5]));
    assert!(first.effects().contains(&Effect::Done(StateId(1))));
    assert!(!first.effects().contains(&Effect::Done(StateId(0))));
    let both = chart.update(first, Named::new("f2")).unwrap();
    assert_eq!(both.configuration(), &ids(&[0, 1, 3, 4, 6]));
    assert_eq!(
        both.effects(),
        &vec![
            Effect::Exit(StateId(5)),
            Effect::Transition(StateId(5), 0),
            Effect::Enter(StateId(6)),
            Effect::Done(StateId(4)),
            Effect::Done(StateId(0)),
        ]
    );
    let other = chart.update(start, Named::new("f2")).unwrap();
    assert!(other.effects().contains(&Effect::Done(StateId(4))));
    assert!(!other.effects().contains(&Effect::Done(StateId(0))));
    let done = chart.update(other, Named::new("f1")).unwrap();
    assert_eq!(done.configuration(), &ids(&[0, 1, 3, 4, 6]));
    let completions = done.effects().iter().filter(|e| **e == Effect::Done(StateId(0))).count();
    assert_eq!(completions, 1);
}

// S { A --go--> B, B --(eventless)--> C, C }
fn transient() -> StateChart {
    let mut builder = StateChart::build();
    builder.initial("S");
    let mut s = builder.add_state().name("S").initial("A");
    s.add_state().name("A").transition(TransitionBuilder::new().on("go").target("B")).finish();
    s.add_state().name("B").transition(TransitionBuilder::new().target("C")).finish();
    s.add_state().name("C").finish();
    s.finish();
    builder.finish().unwrap()
}

#[test]
fn macrostep_takes_the_eventless_transitions() {
    let chart = transient();
    let next = chart.update(chart.start(), Named::new("go")).unwrap();
    assert_eq!(next.configuration(), &ids(&[0, 3]));
    assert_eq!(
        next.effects(),
        &vec![
            Effect::Exit(StateId(1)),
            Effect::Transition(StateId(1), 0),
            Effect::Enter(StateId(2)),
            Effect::Exit(StateId(2)),
            Effect::Transition(StateId(2), 0),
            Effect::Enter(StateId(3)),
        ]
    );
    assert_eq!(chart.tick(next), Err(StateMachineError::NoApplicableTransition));
}

#[test]
fn ignored_event_still_lets_eventless_transitions_fire() {
    let mut builder = StateChart::build();
    builder.initial("A");
    builder.add_state().name("A").transition(TransitionBuilder::new().target("B")).finish();
    builder.add_state().name("B").finish();
    let chart = builder.finish().unwrap();
    let next = chart.update(chart.start(), Named::new("nope")).unwrap();
    assert_eq!(next.configuration(), &ids(&[1]));
}

#[test]
fn endless_eventless_transitions_are_reported() {
    let mut builder = StateChart::build();
    builder.initial("A");
    builder.add_state().name("A").transition(TransitionBuilder::new().target("B")).finish();
    builder.add_state().name("B").transition(TransitionBuilder::new().target("A")).finish();
    let chart = builder.finish().unwrap();
    let start = chart.start();
    for limit in [0, 1, 7, 1000] {
        assert_eq!(
            chart.step_within(&start, &Trigger::tick(), limit),
            Err(StateMachineError::Unsettled)
        );
    }
}

// s0 --go--> s1 --> s2 --> ... --> s<last>, all but the first eventless
fn chain(last: usize) -> StateChart {
    let mut builder = StateChart::build();
    builder.initial("s0");
    for i in 0..last {
        let arrow = if i == 0 { TransitionBuilder::new().on("go") } else { TransitionBuilder::new() };
        builder
            .add_state()
            .name(&format!("s{}", i))
            .transition(arrow.target(&format!("s{}", i + 1)))
            .finish();
    }
    builder.add_state().name(&format!("s{}", last)).finish();
    builder.finish().unwrap()
}

#[test]
fn long_chain_of_eventless_transitions_settles() {
    let chart = chain(1500);
    let next = chart.update(chart.start(), Named::new("go")).unwrap();
    assert_eq!(next.configuration(), &ids(&[1500]));
    assert_eq!(next.effects().len(), 3 * 1500);
    assert_eq!(chart.tick(next), Err(StateMachineError::NoApplicableTransition));
}

#[test]
fn limit_counts_the_follow_up_steps() {
    let chart = chain(5);
    let start = chart.start();
    let go = Trigger::event(event_id("go"), "go");
    assert_eq!(chart.step_within(&start, &go, 3), Err(StateMachineError::Unsettled));
    let done = chart.step_within(&start, &go, 4).unwrap();
    assert_eq!(done.configuration(), &ids(&[5]));
    assert_eq!(chart.step_within(&start, &go, 4), chart.step(&start, &go));
    let short = chain(1);
    assert_eq!(short.step_within(&short.start(), &go, 0).unwrap().configuration(), &ids(&[1]));
}

#[test]
fn unknown_state_is_reported() {
    let big = two_regions();
    let small = round_trip();
    let handle = big.start();
    assert_eq!(
        small.update(handle, Named::new("go")),
        Err(StateMachineError::UnknownState(StateId(4)))
    );
}

#[test]
fn innermost_state_decides() {
    let mut builder = StateChart::build();
    builder.initial("S");
    let mut s = builder
        .add_state()
        .name("S")
        .initial("A")
        .transition(TransitionBuilder::new().on("e").target("C"))
        .transition(TransitionBuilder::new().on("outer").target("C"));
    s.add_state().name("A").transition(TransitionBuilder::new().on("e").target("B")).finish();
    s.add_state().name("B").finish();
    s.finish();
    builder.add_state().name("C").finish();
    let chart = builder.finish().unwrap();
    let inner = chart.update(chart.start(), Named::new("e")).unwrap();
    assert_eq!(inner.configuration(), &ids(&[0, 2]));
    let outer = chart.update(chart.start(), Named::new("outer")).unwrap();
    assert_eq!(outer.configuration(), &ids(&[3]));
    assert_eq!(
        outer.effects(),
        &vec![
            Effect::Exit(StateId(1)),
            Effect::Exit(StateId(0)),
            Effect::Transition(StateId(0), 1),
            Effect::Enter(StateId(3)),
        ]
    );
}

#[test]
fn targetless_transition_keeps_the_configuration() {
    let mut builder = StateChart::build();
    builder.initial("A");
    builder
        .add_state()
        .name("A")
        .transition(TransitionBuilder::new().on("poke").action(ActionId(5)))
        .finish();
    let chart = builder.finish().unwrap();
    let next = chart.update(chart.start(), Named::new("poke")).unwrap();
    assert_eq!(next.configuration(), &ids(&[0]));
    assert_eq!(next.effects(), &vec![Effect::Transition(StateId(0), 0)]);
    assert_eq!(chart.actions(next.effects()), vec![ActionId(5)]);
}

#[test]
fn self_transition_leaves_and_enters() {
    let mut builder = StateChart::build();
    builder.initial("A");
    builder.add_state().name("A").transition(TransitionBuilder::new().on("again").target("A")).finish();
    let chart = builder.finish().unwrap();
    let next = chart.update(chart.start(), Named::new("again")).unwrap();
    assert_eq!(next.configuration(), &ids(&[0]));
    assert_eq!(
        next.effects(),
        &vec![Effect::Exit(StateId(0)), Effect::Transition(StateId(0), 0), Effect::Enter(StateId(0))]
    );
}

#[test]
fn crossing_regions_reenters_the_parallel_state() {
    let mut builder = StateChart::build();
    builder.initial("P");
    let mut p = builder.add_state().name("P").parallel();
    let mut r1 = p.add_state().name("R1").initial("A1");
    r1.add_state().name("A1").transition(TransitionBuilder::new().on("jump").target("B2")).finish();
    r1.finish();
    let mut r2 = p.add_state().name("R2").initial("A2");
    r2.add_state().name("A2").finish();
    r2.add_state().name("B2").finish();
    r2.finish();
    p.finish();
    let chart = builder.finish().unwrap();
    let next = chart.update(chart.start(), Named::new("jump")).unwrap();
    assert_eq!(next.configuration(), &ids(&[0, 1, 2, 3, 5]));
}

#[test]
fn hierarchical_names_match_by_prefix() {
    let mut builder = StateChart::build();
    builder.initial("A");
    builder.add_state().name("A").transition(TransitionBuilder::new().on("door").target("B")).finish();
    builder.add_state().name("B").finish();
    let chart = builder.finish().unwrap();
    let open = chart.update(chart.start(), Named::new("door.open")).unwrap();
    assert_eq!(open.configuration(), &ids(&[1]));
    assert_eq!(
        chart.update(chart.start(), Named::new("doors")),
        Err(StateMachineError::NoApplicableTransition)
    );
    assert_eq!(
        chart.update(chart.start(), Named::new("do")),
        Err(StateMachineError::NoApplicableTransition)
    );
}

#[test]
fn event_id_matches_without_the_name() {
    let mut builder = StateChart::build();
    builder.initial("A");
    builder.add_state().name("A").transition(TransitionBuilder::new().on_id(EventId(42)).target("B")).finish();
    builder.add_state().name("B").finish();
    let chart = builder.finish().unwrap();
    let event = Named { id: EventId(42), name: EventLabel("anything".to_string()) };
    assert_eq!(hash_event(&event), event_id("anything").0);
    let next = chart.update(chart.start(), event).unwrap();
    assert_eq!(next.configuration(), &ids(&[1]));
}

#[test]
fn delay_waits_for_the_clock() {
    let mut builder = StateChart::build();
    builder.initial("A");
    builder.add_state().name("A").transition(TransitionBuilder::new().after(5).target("B")).finish();
    builder.add_state().name("B").finish();
    let chart = builder.finish().unwrap();
    let machine = chart.start();
    assert_eq!(chart.tick(machine.clone()), Err(StateMachineError::NoApplicableTransition));
    let early = machine.clone().advance(4);
    assert_eq!(early.duration(), 4);
    assert_eq!(chart.tick(early), Err(StateMachineError::NoApplicableTransition));
    let due = machine.advance(4).advance(1);
    let next = chart.tick(due).unwrap();
    assert_eq!(next.configuration(), &ids(&[1]));
    assert_eq!(next.duration(), 0);
}

#[test]
fn clock_stops_at_the_top() {
    let chart = round_trip();
    let machine = chart.start().advance(u64::MAX - 1).advance(5);
    assert_eq!(machine.duration(), u64::MAX);
    assert_eq!(machine.configuration(), &ids(&[0, 1]));
}

#[test]
fn guard_must_hold() {
    let mut builder = StateChart::build();
    builder.initial("A");
    builder
        .add_state()
        .name("A")
        .transition(TransitionBuilder::new().on("go").when(7).target("B"))
        .finish();
    builder.add_state().name("B").finish();
    let chart = builder.finish().unwrap();
    let machine = chart.start();
    let plain = Trigger::event(event_id("go"), "go");
    assert_eq!(chart.step(&machine, &plain), Err(StateMachineError::NoApplicableTransition));
    let other = Trigger::event(event_id("go"), "go").holding(8);
    assert!(!other.grants(7));
    assert_eq!(chart.step(&machine, &other), Err(StateMachineError::NoApplicableTransition));
    let granted = Trigger::event(event_id("go"), "go").holding(8).holding(7);
    assert!(granted.grants(7));
    let next = chart.step(&machine, &granted).unwrap();
    assert_eq!(next.configuration(), &ids(&[1]));
}

#[test]
fn tick_fires_only_eventless_transitions() {
    let chart = round_trip();
    assert_eq!(chart.tick(chart.start()), Err(StateMachineError::NoApplicableTransition));
    assert_eq!(
        chart.step(&chart.start(), &Trigger::tick()),
        Err(StateMachineError::NoApplicableTransition)
    );
}

fn is_legal(chart: &StateChart, machine: &StateMachine) -> bool {
    let mut roots = 0;
    for x in 0..chart.len() {
        let node = chart.state(StateId(x)).unwrap();
        if !machine.is_active(StateId(x)) {
            continue;
        }
        match node.parent() {
            Some(p) => {
                if !machine.is_active(*p) {
                    return false;
                }
            }
            None => roots += 1,
        }
        let live = node.substates().iter().filter(|k| machine.is_active(**k)).count();
        match node.kind() {
            Kind::Compound => {
                if live != 1 {
                    return false;
                }
            }
            Kind::Parallel => {
                if live != node.substates().len() {
                    return false;
                }
            }
            _ => {
                if live != 0 {
                    return false;
                }
            }
        }
    }
    roots == 1 && machine.configuration().iter().all(|s| s.0 < chart.len())
}

// T { P (parallel) { R1 { A1 <--a--> B1, B1 --x--> Out }, R2 { A2 --b--> F2 final, A2 --j--> B1 } },
//     Out --back--> P, Out --deep--> B1 }
fn tangle() -> StateChart {
    let mut builder = StateChart::build();
    builder.initial("T");
    let mut t = builder.add_state().name("T").initial("P");
    let mut p = t.add_state().name("P").parallel();
    let mut r1 = p.add_state().name("R1").initial("A1");
    r1.add_state().name("A1").transition(TransitionBuilder::new().on("a").target("B1")).finish();
    r1.add_state()
        .name("B1")
        .transition(TransitionBuilder::new().on("a").target("A1"))
        .transition(TransitionBuilder::new().on("x").target("Out"))
        .finish();
    r1.finish();
    let mut r2 = p.add_state().name("R2").initial("A2");
    r2.add_state()
        .name("A2")
        .transition(TransitionBuilder::new().on("b").target("F2"))
        .transition(TransitionBuilder::new().on("j").target("B1"))
        .finish();
    r2.add_state().name("F2").terminal().finish();
    r2.finish();
    p.finish();
    t.add_state()
        .name("Out")
        .transition(TransitionBuilder::new().on("back").target("P"))
        .transition(TransitionBuilder::new().on("deep").target("B1"))
        .finish();
    t.finish();
    builder.finish().unwrap()
}

#[test]
fn configurations_stay_legal() {
    let chart = tangle();
    let events = ["a", "b", "x", "j", "back", "deep", "nope"];
    let mut machine = chart.start();
    assert!(is_legal(&chart, &machine));
    let mut seed: u64 = 0x2545_f491_4f6c_dd1d;
    let mut moved = 0;
    for _ in 0..400 {
        seed = seed.wrapping_mul(6364136223846793005).wrapping_add(1442695040888963407);
        let event = events[(seed >> 33) as usize % events.len()];
        match chart.update(machine.clone(), Named::new(event)) {
            Ok(next) => {
                assert!(is_legal(&chart, &next));
                assert_eq!(chart.tick(next.clone()), Err(StateMachineError::NoApplicableTransition));
                machine = next;
                moved += 1;
            }
            Err(e) => assert_eq!(e, StateMachineError::NoApplicableTransition),
        }
    }
    assert!(moved > 50);
}

#[test]
fn deep_target_enters_the_other_regions_by_default() {
    let chart = tangle();
    let out = chart.update(chart.start(), Named::new("a")).unwrap();
    let out = chart.update(out, Named::new("x")).unwrap();
    assert_eq!(out.configuration(), &ids(&[0, 8]));
    let deep = chart.update(out, Named::new("deep")).unwrap();
    assert_eq!(deep.configuration(), &ids(&[0, 1, 2, 4, 5, 6]));
    assert_eq!(
        deep.effects(),
        &vec![
            Effect::Exit(StateId(8)),
            Effect::Transition(StateId(8), 1),
            Effect::Enter(StateId(1)),
            Effect::Enter(StateId(2)),
            Effect::Enter(StateId(4)),
            Effect::Enter(StateId(5)),
            Effect::Enter(StateId(6)),
        ]
    );
}

#[test]
fn handler_shared_by_two_leaves_fires_once() {
    let mut builder = StateChart::build();
    builder.initial("P");
    let mut p = builder
        .add_state()
        .name("P")
        .parallel()
        .transition(TransitionBuilder::new().on("up").action(ActionId(9)));
    p.add_state().name("R1").finish();
    p.add_state().name("R2").finish();
    p.finish();
    let chart = builder.finish().unwrap();
    let next = chart.update(chart.start(), Named::new("up")).unwrap();
    assert_eq!(next.configuration(), &ids(&[0, 1, 2]));
    assert_eq!(next.effects(), &vec![Effect::Transition(StateId(0), 0)]);
}

#[test]
fn nested_parallel_completion_goes_outward() {
    // P (parallel) { Q (parallel) { R { A --f--> F final } }, G final }
    let mut builder = StateChart::build();
    builder.initial("P");
    let mut p = builder.add_state().name("P").parallel();
    let mut q = p.add_state().name("Q").parallel();
    let mut r = q.add_state().name("R").initial("A");
    r.add_state().name("A").transition(TransitionBuilder::new().on("f").target("F")).finish();
    r.add_state().name("F").terminal().finish();
    r.finish();
    q.finish();
    p.add_state().name("G").terminal().finish();
    p.finish();
    let chart = builder.finish().unwrap();
    let machine = chart.start();
    assert_eq!(machine.configuration(), &ids(&[0, 1, 2, 3, 5]));
    let next = chart.update(machine, Named::new("f")).unwrap();
    assert_eq!(next.configuration(), &ids(&[0, 1, 2, 4, 5]));
    assert_eq!(
        next.effects(),
        &vec![
            Effect::Exit(StateId(3)),
            Effect::Transition(StateId(3), 0),
            Effect::Enter(StateId(4)),
            Effect::Done(StateId(2)),
            Effect::Done(StateId(1)),
            Effect::Done(StateId(0)),
        ]
    );
}

#[test]
fn script_is_dispatched_to_the_first_action_with_the_id() {
    let held = vec![ActionId(3), ActionId(2), ActionId(1), ActionId(1)];
    let script = vec![ActionId(1), ActionId(2), ActionId(7), ActionId(3), ActionId(1)];
    assert_eq!(dispatch(&held, &script), vec![Some(2), Some(1), None, Some(0), Some(2)]);
    assert_eq!(dispatch(&Vec::new(), &script), vec![None, None, None, None, None]);
    assert_eq!(dispatch(&held, &Vec::new()), Vec::<Option<usize>>::new());
}

#[test]
fn without_actions_nothing_runs() {
    let registry: Vec<Log> = Vec::new();
    let script = vec![ActionId(1), ActionId(2)];
    let mut ran: Vec<String> = vec!["before".to_string()];
    assert_eq!(perform(&registry, &script, &mut ran), 2);
    assert_eq!(ran, vec!["before".to_string()]);
    let some = vec![Log::new(5, "five")];
    assert_eq!(perform(&some, &script, &mut ran), 2);
    assert_eq!(ran, vec!["before".to_string()]);
    assert_eq!(perform(&some, &Vec::new(), &mut ran), 0);
    assert_eq!(perform(&some, &vec![ActionId(5), ActionId(6), ActionId(5)], &mut ran), 1);
    assert_eq!(ran, vec!["before".to_string(), "five".to_string(), "five".to_string()]);
}

// P (parallel) { R1 (parallel) { R1a { a1 --cross,both--> b2, a2 }, R1b { b1, b2 } },
//                R2 { c1 --c--> c2, c2 --both--> c3, c3 } }
fn nested_regions() -> StateChart {
    let mut builder = StateChart::build();
    builder.initial("P");
    let mut p = builder.add_state().name("P").parallel();
    let mut r1 = p.add_state().name("R1").parallel();
    let mut r1a = r1.add_state().name("R1a").initial("a1");
    r1a.add_state()
        .name("a1")
        .transition(TransitionBuilder::new().on("cross").on("both").target("b2"))
        .finish();
    r1a.add_state().name("a2").finish();
    r1a.finish();
    let mut r1b = r1.add_state().name("R1b").initial("b1");
    r1b.add_state().name("b1").finish();
    r1b.add_state().name("b2").finish();
    r1b.finish();
    r1.finish();
    let mut r2 = p.add_state().name("R2").initial("c1");
    r2.add_state().name("c1").transition(TransitionBuilder::new().on("c").target("c2")).finish();
    r2.add_state().name("c2").transition(TransitionBuilder::new().on("both").target("c3")).finish();
    r2.add_state().name("c3").finish();
    r2.finish();
    p.finish();
    builder.finish().unwrap()
}

#[test]
fn crossing_inside_a_parallel_region_leaves_the_other_region() {
    let chart = nested_regions();
    let machine = chart.start();
    assert_eq!(machine.configuration(), &ids(&[0, 1, 2, 3, 5, 6, 8, 9]));
    let machine = chart.update(machine, Named::new("c")).unwrap();
    assert_eq!(machine.configuration(), &ids(&[0, 1, 2, 3, 5, 6, 8, 10]));
    let next = chart.update(machine, Named::new("cross")).unwrap();
    assert_eq!(next.configuration(), &ids(&[0, 1, 2, 3, 5, 7, 8, 10]));
    assert_eq!(
        next.effects(),
        &vec![
            Effect::Exit(StateId(6)),
            Effect::Exit(StateId(5)),
            Effect::Exit(StateId(3)),
            Effect::Exit(StateId(2)),
            Effect::Transition(StateId(3), 0),
            Effect::Enter(StateId(2)),
            Effect::Enter(StateId(3)),
            Effect::Enter(StateId(5)),
            Effect::Enter(StateId(7)),
        ]
    );
}

#[test]
fn transitions_in_two_regions_fire_together_where_one_crosses_sub_regions() {
    let chart = nested_regions();
    let machine = chart.update(chart.start(), Named::new("c")).unwrap();
    let next = chart.update(machine, Named::new("both")).unwrap();
    assert_eq!(next.configuration(), &ids(&[0, 1, 2, 3, 5, 7, 8, 11]));
    let fired: Vec<&Effect> =
        next.effects().iter().filter(|e| matches!(e, Effect::Transition(_, _))).collect();
    assert_eq!(
        fired,
        vec![&Effect::Transition(StateId(3), 0), &Effect::Transition(StateId(10), 0)]
    );
    assert!(next.effects().contains(&Effect::Exit(StateId(10))));
    assert!(next.effects().contains(&Effect::Enter(StateId(11))));
}

#[test]
fn crossing_the_regions_of_a_parallel_state_keeps_it_active() {
    let chart = tangle();
    let next = chart.update(chart.start(), Named::new("j")).unwrap();
    assert_eq!(next.configuration(), &ids(&[0, 1, 2, 4, 5, 6]));
    assert!(!next.effects().contains(&Effect::Exit(StateId(1))));
    assert!(!next.effects().contains(&Effect::Enter(StateId(1))));
    assert!(next.effects().contains(&Effect::Exit(StateId(6))));
    assert!(next.effects().contains(&Effect::Enter(StateId(6))));
}

// T { P (parallel, on completion --> After, action 7) {
//        R1 { A1 --f1--> F1 final }, R2 { A2 --f2--> F2 final } },
//     After --again--> P, After --idle--> After }
fn completing() -> StateChart {
    let mut builder = StateChart::build();
    builder.initial("T");
    let mut t = builder.add_state().name("T").initial("P");
    let mut p = t
        .add_state()
        .name("P")
        .parallel()
        .transition(TransitionBuilder::new().when_done().target("After").action(ActionId(7)));
    let mut r1 = p.add_state().name("R1").initial("A1");
    r1.add_state().name("A1").transition(TransitionBuilder::new().on("f1").target("F1")).finish();
    r1.add_state().name("F1").terminal().finish();
    r1.finish();
    let mut r2 = p.add_state().name("R2").initial("A2");
    r2.add_state().name("A2").transition(TransitionBuilder::new().on("f2").target("F2")).finish();
    r2.add_state().name("F2").terminal().finish();
    r2.finish();
    p.finish();
    t.add_state()
        .name("After")
        .transition(TransitionBuilder::new().on("again").target("P"))
        .finish();
    t.finish();
    builder.finish().unwrap()
}

fn times(chart: &StateChart, machine: &StateMachine, action: u64) -> usize {
    chart.actions(machine.effects()).iter().filter(|a| **a == ActionId(action)).count()
}

#[test]
fn completion_transition_runs_once_when_the_last_region_finishes() {
    let chart = completing();
    for order in [["f1", "f2"], ["f2", "f1"]] {
        let start = chart.start();
        assert_eq!(chart.tick(start.clone()), Err(StateMachineError::NoApplicableTransition));
        let one = chart.update(start, Named::new(order[0])).unwrap();
        assert_eq!(times(&chart, &one, 7), 0);
        assert!(one.is_active(StateId(1)));
        assert_eq!(chart.tick(one.clone()), Err(StateMachineError::NoApplicableTransition));
        let both = chart.update(one, Named::new(order[1])).unwrap();
        assert_eq!(times(&chart, &both, 7), 1);
        assert_eq!(both.configuration(), &ids(&[0, 8]));
        assert!(both.effects().contains(&Effect::Done(StateId(1))));
        let place = |e: Effect| both.effects().iter().position(|x| *x == e).unwrap();
        assert!(place(Effect::Done(StateId(1))) < place(Effect::Transition(StateId(1), 0)));
        assert_eq!(chart.tick(both.clone()), Err(StateMachineError::NoApplicableTransition));
        let back = chart.update(both, Named::new("again")).unwrap();
        assert_eq!(times(&chart, &back, 7), 0);
        assert_eq!(back.configuration(), &ids(&[0, 1, 2, 3, 5, 6]));
    }
}

#[test]
fn completion_transition_does_not_run_while_the_state_stays_done() {
    // P (parallel, on completion: action 7, no target) { R { A --f--> F final, F }, G --poke-->, }
    let mut builder = StateChart::build();
    builder.initial("P");
    let mut p = builder
        .add_state()
        .name("P")
        .parallel()
        .transition(TransitionBuilder::new().when_done().action(ActionId(7)));
    let mut r = p.add_state().name("R").initial("A");
    r.add_state().name("A").transition(TransitionBuilder::new().on("f").target("F")).finish();
    r.add_state().name("F").terminal().finish();
    r.finish();
    p.add_state().name("G").terminal().finish();
    p.finish();
    let chart = builder.finish().unwrap();
    let done = chart.update(chart.start(), Named::new("f")).unwrap();
    assert_eq!(times(&chart, &done, 7), 1);
    assert_eq!(done.configuration(), &ids(&[0, 1, 3, 4]));
    assert_eq!(chart.tick(done.clone()), Err(StateMachineError::NoApplicableTransition));
    assert_eq!(
        chart.update(done, Named::new("f")),
        Err(StateMachineError::NoApplicableTransition)
    );
}

#[test]
fn actions_of_a_handle_are_applied_in_order() {
    let chart = round_trip();
    let next = chart.update(chart.start(), Named::new("go")).unwrap();
    let registry = vec![Log::new(1, "x"), Log::new(2, "t"), Log::new(3, "e")];
    let mut ran: Vec<String> = Vec::new();
    assert_eq!(chart.apply(&next, &registry, &mut ran), 0);
    assert_eq!(ran, vec!["x".to_string(), "t".to_string(), "e".to_string()]);
    let mut first: Vec<String> = Vec::new();
    assert_eq!(chart.apply(&chart.start(), &registry, &mut first), 0);
    assert!(first.is_empty());
    let partly = vec![Log::new(3, "e")];
    let mut some: Vec<String> = Vec::new();
    assert_eq!(chart.apply(&next, &partly, &mut some), 2);
    assert_eq!(some, vec!["e".to_string()]);
}
