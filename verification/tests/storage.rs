use statechart::reader::scron::{
    read, Context, RonCommand, RonCondition, RonState, RonStateChart, RonTransition,
};
use statechart::reader::scxml::{
    self, Attribute, Element, SCXMLBinding, SCXMLIdRef, SCXMLKind, SCXMLRoot, SCXMLState,
    SCXMLTransition,
};
use statechart::result::decimal;
use statechart::traits::event_id;
use statechart::{
    ActionId, ActiveState, Condition, Kind, State, StateChart, StateId, StateMachineError,
    StateNode, Transition, TransitionBuilder,
};

fn command(name: &str) -> RonCommand {
    RonCommand { command: name.to_string(), args: vec!["ignored".to_string()] }
}

fn on(event: &str, target: &str) -> RonTransition {
    RonTransition {
        target: Some(target.to_string()),
        condition: RonCondition::Event(event.to_string()),
        on_transition: vec![command("log")],
    }
}

fn traffic_light() -> RonStateChart {
    RonStateChart {
        name: "light".to_string(),
        initial: "on".to_string(),
        states: vec![
            RonState::Compound {
                label: "on".to_string(),
                initial: "red".to_string(),
                on_entry: vec![command("power")],
                on_exit: vec![],
                states: vec![
                    RonState::Atomic {
                        label: "red".to_string(),
                        on_entry: vec![],
                        on_exit: vec![command("leave_red")],
                        transitions: vec![RonTransition {
                            target: Some("green".to_string()),
                            condition: RonCondition::Delay(30),
                            on_transition: vec![],
                        }],
                    },
                    RonState::Parallel {
                        label: "green".to_string(),
                        on_entry: vec![],
                        on_exit: vec![],
                        states: vec![
                            RonState::Atomic {
                                label: "lamp".to_string(),
                                on_entry: vec![],
                                on_exit: vec![],
                                transitions: vec![],
                            },
                            RonState::Atomic {
                                label: "walk".to_string(),
                                on_entry: vec![],
                                on_exit: vec![],
                                transitions: vec![],
                            },
                        ],
                        transitions: vec![on("stop", "red")],
                    },
                ],
                transitions: vec![on("cut", "off")],
            },
            RonState::Final { label: "off".to_string(), on_entry: vec![command("dark")] },
        ],
    }
}

#[test]
fn document_is_laid_out_in_document_order() {
    let chart = read(&traffic_light()).unwrap();
    assert_eq!(chart.name(), "light");
    assert_eq!(chart.initial(), StateId(0));
    let labels: Vec<&str> = chart.states().iter().map(|n| n.label()).collect();
    assert_eq!(labels, vec!["on", "red", "green", "lamp", "walk", "off"]);
    let kinds: Vec<Kind> = chart.states().iter().map(|n| n.kind()).collect();
    assert_eq!(
        kinds,
        vec![Kind::Compound, Kind::Atomic, Kind::Parallel, Kind::Atomic, Kind::Atomic, Kind::Final]
    );
    let parents: Vec<Option<StateId>> =
        chart.states().iter().map(|n| n.parent().copied()).collect();
    assert_eq!(
        parents,
        vec![None, Some(StateId(0)), Some(StateId(0)), Some(StateId(2)), Some(StateId(2)), None]
    );
    let on = &chart.states()[0];
    assert_eq!(on.initial(), Some(&StateId(1)));
    assert_eq!(on.substates(), &[StateId(1), StateId(2)]);
    assert_eq!(on.on_entry(), &[ActionId(event_id("power").0)]);
    assert_eq!(on.transitions()[0].event, vec![event_id("cut")]);
    assert_eq!(on.transitions()[0].target, Some(StateId(5)));
    assert_eq!(on.transitions()[0].on_transition, vec![ActionId(event_id("log").0)]);
    let red = &chart.states()[1];
    assert!(red.transitions()[0].event.is_empty());
    let delay: Condition = red.transitions()[0].condition.unwrap();
    assert_eq!(delay.delay, Some(30));
    assert_eq!(delay.guard, None);
    assert_eq!(red.transitions()[0].target, Some(StateId(2)));
    assert_eq!(chart.states()[2].substates(), &[StateId(3), StateId(4)]);
    assert_eq!(chart.states()[5].on_entry(), &[ActionId(event_id("dark").0)]);
}

#[test]
fn document_drives_like_a_built_chart() {
    let chart = read(&traffic_light()).unwrap();
    let machine = chart.start();
    assert_eq!(machine.configuration(), &vec![StateId(0), StateId(1)]);
    let green = chart.tick(machine.advance(30)).unwrap();
    assert_eq!(
        green.configuration(),
        &vec![StateId(0), StateId(2), StateId(3), StateId(4)]
    );
}

#[test]
fn context_lays_out_one_state_at_a_time() {
    let doc = traffic_light();
    let mut context = Context::new(&doc);
    context.handle_state(None, &doc.states[1]);
    context.handle_state(None, &doc.states[0]);
    let swapped = context.finish().unwrap();
    assert_eq!(swapped.initial(), StateId(1));
    let labels: Vec<&str> = swapped.states().iter().map(|n| n.label()).collect();
    assert_eq!(labels, vec!["off", "on", "red", "green", "lamp", "walk"]);
    assert_eq!(swapped.states()[1].transitions()[0].target, Some(StateId(0)));
    let context = Context::new(&doc);
    assert_eq!(context.finish().err(), Some(StateMachineError::MalformedChart));
    let mut context = Context::new(&doc);
    context.handle_state(None, &doc.states[0]);
    context.handle_state(None, &doc.states[1]);
    let chart = context.finish().unwrap();
    assert_eq!(chart.len(), 6);
}

#[test]
fn document_with_unknown_target_is_malformed() {
    let doc = RonStateChart {
        name: "broken".to_string(),
        initial: "a".to_string(),
        states: vec![RonState::Atomic {
            label: "a".to_string(),
            on_entry: vec![],
            on_exit: vec![],
            transitions: vec![on("go", "missing")],
        }],
    };
    assert_eq!(read(&doc).err(), Some(StateMachineError::MalformedChart));
}

#[test]
fn compound_document_state_without_substates_is_malformed() {
    let doc = RonStateChart {
        name: "hollow".to_string(),
        initial: "a".to_string(),
        states: vec![RonState::Compound {
            label: "a".to_string(),
            initial: "b".to_string(),
            on_entry: vec![],
            on_exit: vec![],
            states: vec![],
            transitions: vec![],
        }],
    };
    assert_eq!(read(&doc).err(), Some(StateMachineError::MalformedChart));
}

fn built() -> StateChart {
    let mut builder = StateChart::build();
    builder.name("stored");
    builder.initial("S");
    let mut s = builder.add_state().name("S").initial("A");
    s.add_state().name("A").transition(TransitionBuilder::new().on("go").target("B")).finish();
    s.add_state().name("B").terminal().finish();
    s.finish();
    builder.finish().unwrap()
}

fn nodes_of(chart: &StateChart) -> Vec<StateNode> {
    chart.states().to_vec()
}

#[test]
fn stored_chart_is_restored() {
    let chart = built();
    let copy = StateChart::restore("copy".to_string(), StateId(0), nodes_of(&chart)).unwrap();
    assert_eq!(copy.name(), "copy");
    assert_eq!(copy.len(), 3);
    assert_eq!(copy.initial(), StateId(0));
    assert_eq!(copy.states()[1].transitions()[0].target, Some(StateId(2)));
    assert_eq!(copy.start().configuration(), chart.start().configuration());
}

#[test]
fn stored_chart_must_start_in_a_root() {
    let chart = built();
    assert_eq!(
        StateChart::restore("x".to_string(), StateId(1), nodes_of(&chart)).err(),
        Some(StateMachineError::MalformedChart)
    );
    assert_eq!(
        StateChart::restore("x".to_string(), StateId(3), nodes_of(&chart)).err(),
        Some(StateMachineError::MalformedChart)
    );
    assert_eq!(
        StateChart::restore("x".to_string(), StateId(0), Vec::new()).err(),
        Some(StateMachineError::MalformedChart)
    );
}

fn atomic(id: usize, parent: Option<usize>, target: Option<usize>) -> StateNode {
    StateNode::Atomic {
        id: StateId(id),
        label: format!("s{}", id),
        parent: parent.map(StateId),
        on_entry: vec![],
        on_exit: vec![],
        transitions: vec![Transition {
            event: vec![event_id("go")],
            condition: None,
            target: target.map(StateId),
            on_transition: vec![],
        }],
    }
}

fn compound(id: usize, initial: Option<usize>, states: &[usize]) -> StateNode {
    StateNode::Compound {
        id: StateId(id),
        label: format!("s{}", id),
        parent: None,
        on_entry: vec![],
        on_exit: vec![],
        initial: initial.map(StateId),
        transitions: vec![],
        states: states.iter().map(|s| StateId(*s)).collect(),
    }
}

fn restore(nodes: Vec<StateNode>) -> Option<StateMachineError> {
    StateChart::restore("x".to_string(), StateId(0), nodes).err()
}

#[test]
fn stored_chart_is_checked_against_the_rules() {
    let malformed = Some(StateMachineError::MalformedChart);
    assert_eq!(restore(vec![compound(0, Some(1), &[1]), atomic(1, Some(0), Some(0))]), None);
    // a target that is no state
    assert_eq!(restore(vec![atomic(0, None, Some(1))]), malformed);
    // an id that is not the place of the node
    assert_eq!(restore(vec![atomic(1, None, None)]), malformed);
    // a state that is its own parent
    assert_eq!(restore(vec![atomic(0, Some(0), None)]), malformed);
    // a parent that comes later
    assert_eq!(restore(vec![atomic(0, Some(1), None), compound(1, Some(0), &[0])]), malformed);
    // a parent that has no substates by its kind
    assert_eq!(restore(vec![atomic(0, None, None), atomic(1, Some(0), None)]), malformed);
    // a compound state without default substate
    assert_eq!(restore(vec![compound(0, None, &[1]), atomic(1, Some(0), None)]), malformed);
    // a compound state that does not list its substate
    assert_eq!(restore(vec![compound(0, Some(1), &[]), atomic(1, Some(0), None)]), malformed);
    // a compound state that lists a state twice
    assert_eq!(restore(vec![compound(0, Some(1), &[1, 1]), atomic(1, Some(0), None)]), malformed);
    // a compound state that lists a state of which it is not the parent
    assert_eq!(
        restore(vec![compound(0, Some(1), &[1, 2]), atomic(1, Some(0), None), atomic(2, None, None)]),
        malformed
    );
    // a compound state whose default is not its own substate
    assert_eq!(
        restore(vec![compound(0, Some(2), &[1]), atomic(1, Some(0), None), atomic(2, None, None)]),
        malformed
    );
}

#[test]
fn parallel_stored_state_has_no_default() {
    let parallel = |initial: Option<usize>| StateNode::Parallel {
        id: StateId(0),
        label: "p".to_string(),
        parent: None,
        on_entry: vec![],
        on_exit: vec![],
        initial: initial.map(StateId),
        transitions: vec![],
        states: vec![StateId(1)],
    };
    assert_eq!(restore(vec![parallel(None), atomic(1, Some(0), None)]), None);
    assert_eq!(
        restore(vec![parallel(Some(1)), atomic(1, Some(0), None)]),
        Some(StateMachineError::MalformedChart)
    );
}

#[test]
fn errors_have_messages() {
    assert_eq!(StateMachineError::MalformedChart.message(), "malformed chart");
    assert_eq!(StateMachineError::NoApplicableTransition.message(), "no applicable transition");
    assert_eq!(StateMachineError::Unsettled.message(), "eventless transitions did not settle");
    assert_eq!(StateMachineError::UnknownState(StateId(407)).message(), "unknown state 407");
    assert_eq!(StateMachineError::UnknownState(StateId(0)).message(), "unknown state 0");
    assert!(!StateMachineError::MalformedChart.is_ignorable());
    assert!(!StateMachineError::Unsettled.is_ignorable());
    assert!(!StateMachineError::UnknownState(StateId(1)).is_ignorable());
    assert!(StateMachineError::NoApplicableTransition.is_ignorable());
}

#[test]
fn numbers_are_written_in_decimal() {
    assert_eq!(decimal(0), "0");
    assert_eq!(decimal(9), "9");
    assert_eq!(decimal(10), "10");
    assert_eq!(decimal(1234567890), "1234567890");
    assert_eq!(decimal(usize::MAX), usize::MAX.to_string());
}

fn element(kind: SCXMLKind, id: &str, states: Vec<SCXMLState>) -> SCXMLState {
    SCXMLState {
        kind,
        _id: Some(id.to_string()),
        _initial: None,
        on_entry: vec![],
        on_exit: vec![],
        transition: vec![],
        states,
    }
}

fn arrow(event: Option<&str>, target: Option<&str>) -> SCXMLTransition {
    SCXMLTransition {
        _event: event.map(|e| e.to_string()),
        _target: target.map(|t| t.to_string()),
        actions: vec!["log".to_string()],
    }
}

fn scxml_document(initial: Option<SCXMLIdRef>) -> SCXMLRoot {
    let mut idle = element(SCXMLKind::State, "idle", vec![]);
    idle.transition = vec![arrow(Some("go"), Some("work")), arrow(Some("poke"), None)];
    idle.on_exit = vec!["raise".to_string()];
    let mut busy = element(SCXMLKind::State, "busy", vec![]);
    busy.transition = vec![arrow(None, Some("done"))];
    let mut work = element(
        SCXMLKind::Parallel,
        "work",
        vec![
            element(SCXMLKind::State, "left", vec![busy, element(SCXMLKind::Final, "done", vec![])]),
            element(SCXMLKind::State, "right", vec![]),
        ],
    );
    work.on_entry = vec!["send".to_string()];
    let mut top = element(SCXMLKind::State, "top", vec![idle, work]);
    top._initial = Some("idle".to_string());
    SCXMLRoot {
        _initial: initial,
        _name: Some("machine".to_string()),
        _xmlns: None,
        _version: Some("1.0".to_string()),
        _datamodel: None,
        _binding: None,
        states: vec![element(SCXMLKind::State, "spare", vec![]), top],
        script: None,
    }
}

#[test]
fn scxml_document_is_mirrored() {
    let doc = scxml::lower_root(&scxml_document(Some(SCXMLIdRef::RefId(1))));
    assert_eq!(doc.name, "machine");
    assert_eq!(doc.initial, "top");
    assert_eq!(doc.states.len(), 2);
    assert!(matches!(&doc.states[0], RonState::Atomic { label, .. } if label == "spare"));
    match &doc.states[1] {
        RonState::Compound { label, initial, states, .. } => {
            assert_eq!(label, "top");
            assert_eq!(initial, "idle");
            match &states[0] {
                RonState::Atomic { label, on_exit, transitions, .. } => {
                    assert_eq!(label, "idle");
                    assert_eq!(on_exit[0].command, "raise");
                    assert!(on_exit[0].args.is_empty());
                    assert_eq!(transitions.len(), 2);
                    assert_eq!(transitions[0].target, Some("work".to_string()));
                    assert!(matches!(&transitions[0].condition, RonCondition::Event(e) if e == "go"));
                    assert_eq!(transitions[0].on_transition[0].command, "log");
                    assert_eq!(transitions[1].target, None);
                }
                _ => panic!("idle is atomic"),
            }
            match &states[1] {
                RonState::Parallel { label, on_entry, states, .. } => {
                    assert_eq!(label, "work");
                    assert_eq!(on_entry[0].command, "send");
                    match &states[0] {
                        RonState::Compound { initial, states, .. } => {
                            assert_eq!(initial, "busy");
                            assert!(matches!(&states[1], RonState::Final { label, .. } if label == "done"));
                            match &states[0] {
                                RonState::Atomic { transitions, .. } => {
                                    assert!(matches!(transitions[0].condition, RonCondition::Delay(0)));
                                }
                                _ => panic!("busy is atomic"),
                            }
                        }
                        _ => panic!("left is compound"),
                    }
                    assert!(matches!(&states[1], RonState::Atomic { label, .. } if label == "right"));
                }
                _ => panic!("work is parallel"),
            }
        }
        _ => panic!("top is compound"),
    }
}

#[test]
fn scxml_document_starts_where_it_says() {
    assert_eq!(scxml::lower_root(&scxml_document(None)).initial, "spare");
    assert_eq!(scxml::lower_root(&scxml_document(Some(SCXMLIdRef::RefId(0)))).initial, "spare");
    assert_eq!(scxml::lower_root(&scxml_document(Some(SCXMLIdRef::RefId(2)))).initial, "");
    let named = scxml::lower_root(&scxml_document(Some(SCXMLIdRef::RefName("top".to_string()))));
    assert_eq!(named.initial, "top");
    assert_eq!(
        scxml::read(&scxml_document(Some(SCXMLIdRef::RefId(2)))).err(),
        Some(StateMachineError::MalformedChart)
    );
}

#[test]
fn scxml_document_gives_a_chart() {
    let chart = scxml::read(&scxml_document(Some(SCXMLIdRef::RefName("top".to_string())))).unwrap();
    let labels: Vec<&str> = chart.states().iter().map(|n| n.label()).collect();
    assert_eq!(labels, vec!["spare", "top", "idle", "work", "left", "busy", "done", "right"]);
    let machine = chart.start();
    assert_eq!(machine.configuration(), &vec![StateId(1), StateId(2)]);
    let poked = chart.step(&machine, &statechart::Trigger::event(event_id("poke"), "poke")).unwrap();
    assert_eq!(poked.configuration(), &vec![StateId(1), StateId(2)]);
    let working = chart.step(&poked, &statechart::Trigger::event(event_id("go"), "go")).unwrap();
    assert_eq!(
        working.configuration(),
        &vec![StateId(1), StateId(3), StateId(4), StateId(6), StateId(7)]
    );
}

#[test]
fn document_transition_without_target_only_runs_its_commands() {
    let doc = RonStateChart {
        name: "still".to_string(),
        initial: "a".to_string(),
        states: vec![RonState::Atomic {
            label: "a".to_string(),
            on_entry: vec![],
            on_exit: vec![],
            transitions: vec![RonTransition {
                target: None,
                condition: RonCondition::Event("poke".to_string()),
                on_transition: vec![command("log")],
            }],
        }],
    };
    let chart = read(&doc).unwrap();
    assert_eq!(chart.states()[0].transitions()[0].target, None);
}

fn tag(name: &str, attributes: &[(&str, &str)], children: Vec<Element>) -> Element {
    Element {
        name: name.to_string(),
        attributes: attributes
            .iter()
            .map(|(n, v)| Attribute { name: n.to_string(), value: v.to_string() })
            .collect(),
        children,
    }
}

fn scxml_elements() -> Element {
    tag(
        "scxml",
        &[("name", "door"), ("initial", "closed"), ("version", "1.0"), ("binding", "late")],
        vec![
            tag("datamodel", &[], vec![]),
            tag(
                "state",
                &[("id", "closed"), ("id", "shadowed")],
                vec![
                    tag("onentry", &[], vec![tag("log", &[], vec![]), tag("send", &[], vec![])]),
                    tag("transition", &[("event", "open"), ("target", "opened")], vec![tag("raise", &[], vec![])]),
                    tag("onexit", &[], vec![tag("cancel", &[], vec![])]),
                    tag("onentry", &[], vec![tag("assign", &[], vec![])]),
                    tag("transition", &[("event", "knock")], vec![]),
                ],
            ),
            tag("script", &[], vec![]),
            tag(
                "state",
                &[("id", "opened"), ("initial", "wide")],
                vec![
                    tag("state", &[("id", "ajar")], vec![]),
                    tag("history", &[("id", "h")], vec![]),
                    tag("parallel", &[("id", "wide")], vec![tag("state", &[("id", "lit")], vec![])]),
                    tag("final", &[("id", "gone")], vec![]),
                    tag("transition", &[("target", "closed")], vec![]),
                ],
            ),
        ],
    )
}

#[test]
fn scxml_elements_are_read_by_name() {
    let root = scxml::root_of(&scxml_elements()).unwrap();
    assert_eq!(root._name, Some("door".to_string()));
    assert!(matches!(&root._initial, Some(SCXMLIdRef::RefName(n)) if n == "closed"));
    assert_eq!(root._version, Some("1.0".to_string()));
    assert_eq!(root._xmlns, None);
    assert_eq!(root._datamodel, None);
    assert_eq!(root._binding, Some("late".to_string()));
    assert_eq!(root.script, Some(SCXMLBinding::Late));
    assert_eq!(root.states.len(), 2);
    let closed = &root.states[0];
    assert_eq!(closed.kind, SCXMLKind::State);
    assert_eq!(closed._id, Some("closed".to_string()));
    assert_eq!(closed._initial, None);
    assert_eq!(closed.on_entry, vec!["log".to_string(), "send".to_string(), "assign".to_string()]);
    assert_eq!(closed.on_exit, vec!["cancel".to_string()]);
    assert_eq!(closed.transition.len(), 2);
    assert_eq!(closed.transition[0]._event, Some("open".to_string()));
    assert_eq!(closed.transition[0]._target, Some("opened".to_string()));
    assert_eq!(closed.transition[0].actions, vec!["raise".to_string()]);
    assert_eq!(closed.transition[1]._event, Some("knock".to_string()));
    assert_eq!(closed.transition[1]._target, None);
    assert!(closed.states.is_empty());
    let opened = &root.states[1];
    assert_eq!(opened._initial, Some("wide".to_string()));
    let kinds: Vec<SCXMLKind> = opened.states.iter().map(|s| s.kind).collect();
    assert_eq!(kinds, vec![SCXMLKind::State, SCXMLKind::Parallel, SCXMLKind::Final]);
    assert_eq!(opened.states[1].states[0]._id, Some("lit".to_string()));
    assert_eq!(opened.transition[0]._event, None);
}

#[test]
fn only_an_scxml_element_is_a_document() {
    assert!(scxml::root_of(&tag("state", &[("id", "a")], vec![])).is_none());
    assert!(scxml::root_of(&tag("SCXML", &[], vec![])).is_none());
    let empty = scxml::root_of(&tag("scxml", &[("binding", "soon")], vec![])).unwrap();
    assert!(empty.states.is_empty());
    assert_eq!(empty.script, None);
    assert!(empty._initial.is_none());
    assert!(scxml::state_of(&tag("transition", &[], vec![])).is_none());
    assert_eq!(scxml::state_of(&tag("final", &[], vec![])).unwrap().kind, SCXMLKind::Final);
}

#[test]
fn scxml_elements_give_a_chart() {
    let root = scxml::root_of(&scxml_elements()).unwrap();
    let chart = scxml::read(&root).unwrap();
    let labels: Vec<&str> = chart.states().iter().map(|n| n.label()).collect();
    assert_eq!(labels, vec!["closed", "opened", "ajar", "wide", "lit", "gone"]);
    assert_eq!(chart.initial(), StateId(0));
    let opened = chart
        .step(&chart.start(), &statechart::Trigger::event(event_id("open"), "open"))
        .unwrap();
    assert_eq!(opened.configuration(), &vec![StateId(0)]);
}
