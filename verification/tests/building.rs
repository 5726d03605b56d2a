use statechart::traits::{accepted_ids, event_id};
use statechart::{
    ActionId, ActiveState, Condition, EventId, Kind, State, StateChart, StateId,
    StateMachineError, TransitionBuilder,
};

fn round_trip() -> StateChart {
    let mut builder = StateChart::build();
    builder.name("demo");
    builder.initial("S");
    let mut s = builder.add_state().name("S").initial("A").on_entry(ActionId(10));
    s.add_state()
        .name("A")
        .on_exit(ActionId(1))
        .transition(TransitionBuilder::new().on("go").target("B").action(ActionId(2)))
        .finish();
    s.add_state().name("B").terminal().on_entry(ActionId(3)).finish();
    s.finish();
    builder.finish().unwrap()
}

#[test]
fn test_building() {
    let mut builder = StateChart::build();

    builder.add_state().name("top_state_1").finish()
}

#[test]
fn it_works() {
    assert_eq!(2 + 2, 4);
}

#[test]
fn single_state_chart_is_built() {
    let mut builder = StateChart::build();
    builder.add_state().name("top_state_1").finish();
    builder.initial("top_state_1");
    let chart = builder.finish().unwrap();
    assert_eq!(chart.len(), 1);
    assert_eq!(chart.initial(), StateId(0));
    let node = chart.state(StateId(0)).unwrap();
    assert_eq!(node.kind(), Kind::Atomic);
    assert_eq!(node.label(), "top_state_1");
    assert_eq!(node.parent(), None);
}

#[test]
fn nodes_project_what_was_built() {
    let chart = round_trip();
    assert_eq!(chart.name(), "demo");
    assert_eq!(chart.len(), 3);
    let s = chart.state(StateId(0)).unwrap();
    assert_eq!(s.kind(), Kind::Compound);
    assert_eq!(*s.id(), StateId(0));
    assert_eq!(s.label(), "S");
    assert_eq!(s.parent(), None);
    assert_eq!(s.initial(), Some(&StateId(1)));
    assert_eq!(s.substates(), &[StateId(1), StateId(2)]);
    assert_eq!(s.on_entry(), &[ActionId(10)]);
    assert!(s.on_exit().is_empty());
    assert!(s.transitions().is_empty());
    let a = chart.state(StateId(1)).unwrap();
    assert_eq!(a.kind(), Kind::Atomic);
    assert_eq!(a.parent(), Some(&StateId(0)));
    assert_eq!(a.initial(), None);
    assert!(a.substates().is_empty());
    assert_eq!(a.on_exit(), &[ActionId(1)]);
    assert_eq!(a.transitions().len(), 1);
    let t = &a.transitions()[0];
    assert_eq!(t.event, vec![event_id("go")]);
    assert!(t.condition.is_none());
    assert_eq!(t.target, Some(StateId(2)));
    assert_eq!(t.on_transition, vec![ActionId(2)]);
    let b = chart.state(StateId(2)).unwrap();
    assert_eq!(b.kind(), Kind::Final);
    assert_eq!(b.on_entry(), &[ActionId(3)]);
    assert!(b.on_exit().is_empty());
    assert!(b.transitions().is_empty());
}

#[test]
fn lookup_fails_only_out_of_range() {
    let chart = round_trip();
    assert!(chart.state(StateId(2)).is_some());
    assert!(chart.state(StateId(3)).is_none());
    assert!(chart.state(StateId(usize::MAX)).is_none());
}

#[test]
fn forward_references_are_resolved_at_finish() {
    let mut builder = StateChart::build();
    builder.initial("first");
    builder
        .add_state()
        .name("first")
        .transition(TransitionBuilder::new().on("next").target("second"))
        .finish();
    builder.add_state().name("second").finish();
    let chart = builder.finish().unwrap();
    let first = chart.state(StateId(0)).unwrap();
    assert_eq!(first.transitions()[0].target, Some(StateId(1)));
}

#[test]
fn parallel_state_lists_its_regions() {
    let mut builder = StateChart::build();
    builder.initial("P");
    let mut p = builder.add_state().name("P").parallel();
    p.add_state().name("R1").finish();
    p.add_state().name("R2").finish();
    p.finish();
    let chart = builder.finish().unwrap();
    let node = chart.state(StateId(0)).unwrap();
    assert_eq!(node.kind(), Kind::Parallel);
    assert_eq!(node.initial(), None);
    assert_eq!(node.substates(), &[StateId(1), StateId(2)]);
}

#[test]
fn empty_builder_is_malformed() {
    let builder = StateChart::build();
    assert_eq!(builder.finish().err(), Some(StateMachineError::MalformedChart));
}

#[test]
fn missing_chart_initial_is_malformed() {
    let mut builder = StateChart::build();
    builder.add_state().name("A").finish();
    assert_eq!(builder.finish().err(), Some(StateMachineError::MalformedChart));
}

#[test]
fn unknown_chart_initial_is_malformed() {
    let mut builder = StateChart::build();
    builder.initial("B");
    builder.add_state().name("A").finish();
    assert_eq!(builder.finish().err(), Some(StateMachineError::MalformedChart));
}

#[test]
fn nested_chart_initial_is_malformed() {
    let mut builder = StateChart::build();
    builder.initial("A");
    let mut s = builder.add_state().name("S").initial("A");
    s.add_state().name("A").finish();
    s.finish();
    assert_eq!(builder.finish().err(), Some(StateMachineError::MalformedChart));
}

#[test]
fn compound_without_initial_is_malformed() {
    let mut builder = StateChart::build();
    builder.initial("S");
    let mut s = builder.add_state().name("S");
    s.add_state().name("A").finish();
    s.finish();
    assert_eq!(builder.finish().err(), Some(StateMachineError::MalformedChart));
}

#[test]
fn compound_initial_must_be_a_direct_substate() {
    let mut builder = StateChart::build();
    builder.initial("S");
    let mut s = builder.add_state().name("S").initial("Deep");
    let mut a = s.add_state().name("A").initial("Deep");
    a.add_state().name("Deep").finish();
    a.finish();
    s.finish();
    assert_eq!(builder.finish().err(), Some(StateMachineError::MalformedChart));
}

#[test]
fn parallel_with_initial_is_malformed() {
    let mut builder = StateChart::build();
    builder.initial("P");
    let mut p = builder.add_state().name("P").parallel().initial("R1");
    p.add_state().name("R1").finish();
    p.add_state().name("R2").finish();
    p.finish();
    assert_eq!(builder.finish().err(), Some(StateMachineError::MalformedChart));
}

#[test]
fn unknown_target_is_malformed() {
    let mut builder = StateChart::build();
    builder.initial("A");
    builder
        .add_state()
        .name("A")
        .transition(TransitionBuilder::new().on("go").target("nowhere"))
        .finish();
    assert_eq!(builder.finish().err(), Some(StateMachineError::MalformedChart));
}

#[test]
fn final_state_with_transition_is_malformed() {
    let mut builder = StateChart::build();
    builder.initial("F");
    builder
        .add_state()
        .name("F")
        .terminal()
        .transition(TransitionBuilder::new().on("go"))
        .finish();
    assert_eq!(builder.finish().err(), Some(StateMachineError::MalformedChart));
}

#[test]
fn final_state_with_substates_is_malformed() {
    let mut builder = StateChart::build();
    builder.initial("F");
    let mut f = builder.add_state().name("F").terminal().initial("A");
    f.add_state().name("A").finish();
    f.finish();
    assert_eq!(builder.finish().err(), Some(StateMachineError::MalformedChart));
}

#[test]
fn transition_builder_accumulates() {
    let t = TransitionBuilder::new()
        .on("a")
        .on_id(EventId(7))
        .after(5)
        .when(9)
        .target("X")
        .action(ActionId(1))
        .action(ActionId(2));
    assert_eq!(t.events, vec![event_id("a"), EventId(7)]);
    let c: Condition = t.condition.unwrap();
    assert_eq!(c.delay, Some(5));
    assert_eq!(c.guard, Some(9));
    assert_eq!(c.done, None);
    assert!(!t.done);
    assert_eq!(t.target, Some("X".to_string()));
    assert_eq!(t.actions, vec![ActionId(1), ActionId(2)]);
}

#[test]
fn event_ids_are_fnv1a() {
    assert_eq!(event_id(""), EventId(0xcbf2_9ce4_8422_2325));
    assert_eq!(event_id("a"), EventId(0xaf63_dc4c_8601_ec8c));
    assert_eq!(event_id("foobar"), EventId(0x8594_4171_f739_67e8));
}

#[test]
fn accepted_ids_name_the_dot_prefixes() {
    let ids = accepted_ids(EventId(1), "door.open.wide");
    assert_eq!(
        ids,
        vec![EventId(1), event_id("door"), event_id("door.open"), event_id("door.open.wide")]
    );
    assert_eq!(accepted_ids(EventId(2), "plain"), vec![EventId(2), event_id("plain")]);
}

#[test]
fn add_state_leaves_the_chart_builder_as_it_was() {
    let mut builder = StateChart::build();
    builder.add_state().name("first").finish();
    assert_eq!(builder.len(), 1);
    {
        let state = builder.add_state();
        assert_eq!(state.id, None);
        assert_eq!(state.owner.len(), 1);
        assert_eq!(state.draft.parent, None);
        assert_eq!(state.draft.label, "");
        assert_eq!(state.draft.initial, None);
        assert!(!state.draft.parallel);
        assert!(!state.draft.terminal);
        assert!(state.draft.on_entry.is_empty());
        assert!(state.draft.on_exit.is_empty());
        assert!(state.draft.transitions.is_empty());
        assert!(state.states.is_empty());
        let state = state.name("dropped").on_entry(ActionId(1));
        assert_eq!(state.owner.len(), 1);
        assert_eq!(state.id, None);
    }
    assert_eq!(builder.len(), 1);
    builder.initial("first");
    let chart = builder.finish().unwrap();
    assert_eq!(chart.len(), 1);
}

#[test]
fn finish_appends_the_state_and_what_is_inside_it() {
    let mut builder = StateChart::build();
    builder.initial("S");
    builder.add_state().name("before").finish();
    let mut s = builder.add_state().name("S").initial("B");
    {
        let mut a = s.add_state().name("A").initial("A1");
        assert_eq!(a.owner.len(), 0);
        a.add_state().name("A1").finish();
        assert_eq!(a.states.len(), 1);
        assert_eq!(a.states[0].parent, None);
        assert_eq!(start_and_drop(&mut a), 0);
        a.finish();
    }
    assert_eq!(s.states.len(), 2);
    assert_eq!(s.states[0].label, "A");
    assert_eq!(s.states[0].parent, None);
    assert_eq!(s.states[1].label, "A1");
    assert_eq!(s.states[1].parent, Some(StateId(0)));
    s.add_state().name("B").finish();
    assert_eq!(s.owner.len(), 1);
    s.finish();
    assert_eq!(builder.len(), 5);
    let chart = builder.finish().unwrap();
    let labels: Vec<&str> = chart.states().iter().map(|n| n.label()).collect();
    assert_eq!(labels, vec!["before", "S", "A", "A1", "B"]);
    let parents: Vec<Option<StateId>> =
        chart.states().iter().map(|n| n.parent().copied()).collect();
    assert_eq!(
        parents,
        vec![None, None, Some(StateId(1)), Some(StateId(2)), Some(StateId(1))]
    );
    assert_eq!(chart.initial(), StateId(1));
    assert_eq!(chart.states()[1].initial(), Some(&StateId(4)));
}

fn start_and_drop(a: &mut statechart::StateBuilder<'_>) -> usize {
    let gone = a.add_state().name("gone");
    gone.states.len()
}

#[test]
fn completion_condition_names_the_state_that_holds_it() {
    let mut builder = StateChart::build();
    builder.initial("S");
    builder.add_state().name("first").finish();
    let mut s = builder
        .add_state()
        .name("S")
        .initial("F")
        .transition(TransitionBuilder::new().when_done().after(3).target("first"))
        .transition(TransitionBuilder::new().on("go").target("first"));
    s.add_state().name("F").terminal().finish();
    s.finish();
    let chart = builder.finish().unwrap();
    let node = chart.state(StateId(1)).unwrap();
    let waits: Condition = node.transitions()[0].condition.unwrap();
    assert_eq!(waits.done, Some(StateId(1)));
    assert_eq!(waits.delay, Some(3));
    assert_eq!(waits.guard, None);
    assert!(node.transitions()[1].condition.is_none());
}
