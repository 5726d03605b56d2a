use crate::builder::text;
use crate::chart::StateChart;
use crate::reader::scron::{plan_of, RonCommand, RonCondition, RonState, RonStateChart, RonTransition};
use crate::result::{StateMachineError, StateMachineResult};
use vstd::prelude::*;

verus! {

/// A reference to a state of an SCXML document: by its id, or by its place
/// among the states of the document's top.
#[derive(Debug)]
pub enum SCXMLIdRef {
    RefName(String),
    RefId(usize),
}

/// When the data of an SCXML document is bound. The chart does not keep it.
#[derive(Clone, Copy, Debug, PartialEq, Eq, Structural)]
pub enum SCXMLBinding {
    Early,
    Late,
}

/// The element that a state of an SCXML document was written as.
#[derive(Clone, Copy, Debug, PartialEq, Eq, Structural)]
pub enum SCXMLKind {
    /// A `state` element: atomic without states inside it, compound with.
    State,
    /// A `parallel` element.
    Parallel,
    /// A `final` element.
    Final,
}

/// A `transition` element: the event that it reacts to, its target, and the
/// names of the elements inside it, which name the actions of the host.
#[derive(Debug)]
pub struct SCXMLTransition {
    pub _event: Option<String>,
    pub _target: Option<String>,
    pub actions: Vec<String>,
}

/// A `state`, `parallel` or `final` element, with the states inside it in the
/// order of the document.
#[derive(Debug)]
pub struct SCXMLState {
    pub kind: SCXMLKind,
    pub _id: Option<String>,
    /// The id of the default state inside. If not specified, the default is the
    /// first state inside in document order.
    pub _initial: Option<String>,
    pub on_entry: Vec<String>,
    pub on_exit: Vec<String>,
    pub transition: Vec<SCXMLTransition>,
    pub states: Vec<SCXMLState>,
}

/// The top-level wrapper element, which carries version information. The actual
/// state machine consists of its children, of which only one is active at any
/// one time.
#[derive(Debug)]
pub struct SCXMLRoot {
    /// The initial state of the document. If not specified, the default initial
    /// state is the first child state in document order.
    pub _initial: Option<SCXMLIdRef>,
    /// The name of this state machine. It is for purely informational purposes.
    pub _name: Option<String>,
    pub _xmlns: Option<String>,
    pub _version: Option<String>,
    /// The datamodel that this document requires. The chart does not keep it.
    pub _datamodel: Option<String>,
    pub _binding: Option<String>,
    pub states: Vec<SCXMLState>,
    pub script: Option<SCXMLBinding>,
}

/// An SCXML document.
#[derive(Debug)]
pub struct SCXMLFile {
    pub root: SCXMLRoot,
}

/// The label that an optional id gives: the id, or the empty label.
pub open spec fn label_of(id: Option<String>) -> Seq<char> {
    match id {
        Some(id) => id@,
        None => Seq::empty(),
    }
}

/// The label of the first of the states; the empty label if there is none.
pub open spec fn first_label(states: Seq<SCXMLState>) -> Seq<char> {
    if states.len() > 0 {
        label_of(states[0]._id)
    } else {
        Seq::empty()
    }
}

/// The label of the default state inside a state: the one that it names, or the
/// first inside it.
pub open spec fn default_of(s: SCXMLState) -> Seq<char> {
    match s._initial {
        Some(label) => label@,
        None => first_label(s.states@),
    }
}

/// The label of the state in which the document starts: the state that it names
/// by id or by place, or the first of its states.
pub open spec fn start_of(root: SCXMLRoot) -> Seq<char> {
    match root._initial {
        Some(SCXMLIdRef::RefName(name)) => name@,
        Some(SCXMLIdRef::RefId(place)) => if place < root.states@.len() {
            label_of(root.states@[place as int]._id)
        } else {
            Seq::empty()
        },
        None => first_label(root.states@),
    }
}

/// The commands name the same actions as the element names, in order, without
/// arguments.
pub open spec fn names(elements: Seq<String>, commands: Seq<RonCommand>) -> bool {
    &&& commands.len() == elements.len()
    &&& forall|i: int|
        0 <= i < elements.len() ==> (#[trigger] commands[i]).command@ == elements[i]@
            && commands[i].args@.len() == 0
}

/// The transition of the document model is the SCXML transition: the same
/// target; on the event, if it names one, and eventless with no delay if not; the
/// same actions.
pub open spec fn mirrors_transition(t: SCXMLTransition, r: RonTransition) -> bool {
    &&& text(r.target) == text(t._target)
    &&& match t._event {
        Some(name) => r.condition matches RonCondition::Event(event) && event@ == name@,
        None => r.condition matches RonCondition::Delay(delay) && delay == 0,
    }
    &&& names(t.actions@, r.on_transition@)
}

/// The transitions of the document model are the SCXML transitions, in order.
pub open spec fn mirrors_transitions(ts: Seq<SCXMLTransition>, rs: Seq<RonTransition>) -> bool {
    &&& rs.len() == ts.len()
    &&& forall|i: int| 0 <= i < ts.len() ==> mirrors_transition(ts[i], #[trigger] rs[i])
}

/// The state of the document model is the SCXML state. A `final` element is a
/// final state, a `parallel` element a parallel state; a `state` element is
/// atomic without states inside it and compound with, and then has the default
/// that `default_of` gives. The label is the id, the actions and transitions are
/// the same, and the states inside mirror the states inside, in the order of the
/// document.
pub open spec fn mirrors(s: SCXMLState, r: RonState) -> bool
    decreases s,
{
    match s.kind {
        SCXMLKind::Final => r matches RonState::Final { label, on_entry } && label@ == label_of(
            s._id,
        ) && names(s.on_entry@, on_entry@),
        SCXMLKind::Parallel => {
            &&& r matches RonState::Parallel { label, on_entry, on_exit, states, transitions }
            &&& label@ == label_of(s._id)
            &&& names(s.on_entry@, on_entry@)
            &&& names(s.on_exit@, on_exit@)
            &&& mirrors_transitions(s.transition@, transitions@)
            &&& states@.len() == s.states@.len()
            &&& forall|k: int|
                0 <= k < s.states@.len() ==> mirrors(s.states@[k], #[trigger] states@[k])
        },
        SCXMLKind::State => if s.states@.len() == 0 {
            &&& r matches RonState::Atomic { label, on_entry, on_exit, transitions }
            &&& label@ == label_of(s._id)
            &&& names(s.on_entry@, on_entry@)
            &&& names(s.on_exit@, on_exit@)
            &&& mirrors_transitions(s.transition@, transitions@)
        } else {
            &&& r matches RonState::Compound {
                label,
                initial,
                on_entry,
                on_exit,
                states,
                transitions,
            }
            &&& label@ == label_of(s._id)
            &&& initial@ == default_of(s)
            &&& names(s.on_entry@, on_entry@)
            &&& names(s.on_exit@, on_exit@)
            &&& mirrors_transitions(s.transition@, transitions@)
            &&& states@.len() == s.states@.len()
            &&& forall|k: int|
                0 <= k < s.states@.len() ==> mirrors(s.states@[k], #[trigger] states@[k])
        },
    }
}

/// The document of the document model is the SCXML document: the same name, the
/// start that `start_of` gives, and the states mirrored in order.
pub open spec fn mirrors_root(root: SCXMLRoot, doc: RonStateChart) -> bool {
    &&& doc.name@ == label_of(root._name)
    &&& doc.initial@ == start_of(root)
    &&& doc.states@.len() == root.states@.len()
    &&& forall|k: int|
        0 <= k < root.states@.len() ==> mirrors(root.states@[k], #[trigger] doc.states@[k])
}

/// Copies an optional id into a label.
fn label(id: &Option<String>) -> (r: String)
    ensures
        r@ == label_of(*id),
{
    match id {
        Some(id) => id.clone(),
        None => String::new(),
    }
}

/// Gives the label of the first of the states.
fn first(states: &Vec<SCXMLState>) -> (r: String)
    ensures
        r@ == first_label(states@),
{
    if states.len() > 0 {
        label(&states[0]._id)
    } else {
        String::new()
    }
}

/// Makes the commands that the element names stand for.
fn lower_commands(elements: &Vec<String>) -> (r: Vec<RonCommand>)
    ensures
        names(elements@, r@),
{
    let mut r: Vec<RonCommand> = Vec::new();
    let mut i: usize = 0;
    while i < elements.len()
        invariant
            i <= elements.len(),
            r@.len() == i,
            forall|j: int|
                0 <= j < i ==> (#[trigger] r@[j]).command@ == elements@[j]@ && r@[j].args@.len() == 0,
        decreases elements.len() - i,
    {
        r.push(RonCommand { command: elements[i].clone(), args: Vec::new() });
        i = i + 1;
    }
    r
}

/// Makes the transition of the document model for an SCXML transition.
fn lower_transition(t: &SCXMLTransition) -> (r: RonTransition)
    ensures
        mirrors_transition(*t, r),
{
    RonTransition {
        target: match &t._target {
            Some(target) => Some(target.clone()),
            None => None,
        },
        condition: match &t._event {
            Some(name) => RonCondition::Event(name.clone()),
            None => RonCondition::Delay(0),
        },
        on_transition: lower_commands(&t.actions),
    }
}

/// Makes the transitions of the document model for SCXML transitions.
fn lower_transitions(ts: &Vec<SCXMLTransition>) -> (r: Vec<RonTransition>)
    ensures
        mirrors_transitions(ts@, r@),
{
    let mut r: Vec<RonTransition> = Vec::new();
    let mut i: usize = 0;
    while i < ts.len()
        invariant
            i <= ts.len(),
            r@.len() == i,
            forall|j: int| 0 <= j < i ==> mirrors_transition(ts@[j], #[trigger] r@[j]),
        decreases ts.len() - i,
    {
        r.push(lower_transition(&ts[i]));
        i = i + 1;
    }
    r
}

/// Makes the state of the document model for an SCXML state, with all that is
/// inside it.
pub fn lower(s: &SCXMLState) -> (r: RonState)
    ensures
        mirrors(*s, r),
    decreases *s,
{
    match s.kind {
        SCXMLKind::Final => RonState::Final {
            label: label(&s._id),
            on_entry: lower_commands(&s.on_entry),
        },
        SCXMLKind::Parallel => RonState::Parallel {
            label: label(&s._id),
            on_entry: lower_commands(&s.on_entry),
            on_exit: lower_commands(&s.on_exit),
            states: lower_all(s, &s.states),
            transitions: lower_transitions(&s.transition),
        },
        SCXMLKind::State => {
            if s.states.len() == 0 {
                RonState::Atomic {
                    label: label(&s._id),
                    on_entry: lower_commands(&s.on_entry),
                    on_exit: lower_commands(&s.on_exit),
                    transitions: lower_transitions(&s.transition),
                }
            } else {
                let initial = match &s._initial {
                    Some(l) => l.clone(),
                    None => first(&s.states),
                };
                RonState::Compound {
                    label: label(&s._id),
                    initial,
                    on_entry: lower_commands(&s.on_entry),
                    on_exit: lower_commands(&s.on_exit),
                    states: lower_all(s, &s.states),
                    transitions: lower_transitions(&s.transition),
                }
            }
        },
    }
}

/// Makes the states of the document model for the states inside `s`.
fn lower_all(s: &SCXMLState, states: &Vec<SCXMLState>) -> (r: Vec<RonState>)
    requires
        *states == s.states,
    ensures
        r@.len() == states@.len(),
        forall|k: int| 0 <= k < states@.len() ==> mirrors(states@[k], #[trigger] r@[k]),
    decreases *s, states.len(),
{
    let mut r: Vec<RonState> = Vec::new();
    let mut i: usize = 0;
    while i < states.len()
        invariant
            i <= states.len(),
            *states == s.states,
            r@.len() == i,
            forall|k: int| 0 <= k < i ==> mirrors(states@[k], #[trigger] r@[k]),
        decreases states.len() - i,
    {
        r.push(lower(&states[i]));
        i = i + 1;
    }
    r
}

/// Makes the document of the document model for an SCXML document.
pub fn lower_root(root: &SCXMLRoot) -> (doc: RonStateChart)
    ensures
        mirrors_root(*root, doc),
{
    let initial = match &root._initial {
        Some(SCXMLIdRef::RefName(name)) => name.clone(),
        Some(SCXMLIdRef::RefId(place)) => {
            if *place < root.states.len() {
                label(&root.states[*place]._id)
            } else {
                String::new()
            }
        },
        None => first(&root.states),
    };
    let mut states: Vec<RonState> = Vec::new();
    let mut i: usize = 0;
    while i < root.states.len()
        invariant
            i <= root.states.len(),
            states@.len() == i,
            forall|k: int| 0 <= k < i ==> mirrors(root.states@[k], #[trigger] states@[k]),
        decreases root.states.len() - i,
    {
        states.push(lower(&root.states[i]));
        i = i + 1;
    }
    RonStateChart { name: label(&root._name), initial, states }
}

/// Builds the chart that an SCXML document describes: the chart of the document
/// that mirrors it.
///
/// The chart comes back exactly when what that document describes keeps the
/// rules of a chart; otherwise the error is `MalformedChart`.
pub fn read(root: &SCXMLRoot) -> (r: StateMachineResult<StateChart>)
    ensures
        exists|doc: RonStateChart| #[trigger]
            mirrors_root(*root, doc) && match r {
                Ok(chart) => plan_of(doc).valid() && plan_of(doc).depicts(chart),
                Err(e) => e == StateMachineError::MalformedChart && !plan_of(doc).valid(),
            },
{
    let doc = lower_root(root);
    let r = crate::reader::scron::read(&doc);
    assert(mirrors_root(*root, doc));
    r
}

/// An attribute of an element of a document.
#[derive(Debug)]
pub struct Attribute {
    pub name: String,
    pub value: String,
}

/// An element of a document, with the elements inside it in the order of the
/// document.
#[derive(Debug)]
pub struct Element {
    pub name: String,
    pub attributes: Vec<Attribute>,
    pub children: Vec<Element>,
}

/// What a transition holds, as plain values.
pub struct Arrow {
    pub event: Option<Seq<char>>,
    pub target: Option<Seq<char>>,
    pub actions: Seq<Seq<char>>,
}

/// The strings as plain values.
pub open spec fn strings(list: Seq<String>) -> Seq<Seq<char>> {
    Seq::new(list.len(), |i: int| list[i]@)
}

/// The value of the first attribute from `k` on that has the name.
pub open spec fn value_of(attributes: Seq<Attribute>, name: Seq<char>, k: int) -> Option<Seq<char>>
    decreases attributes.len() - k,
{
    if k < 0 || k >= attributes.len() {
        None
    } else if attributes[k].name@ == name {
        Some(attributes[k].value@)
    } else {
        value_of(attributes, name, k + 1)
    }
}

/// The kind of state that an element of the name is, if it is a state.
pub open spec fn kind_of_name(name: Seq<char>) -> Option<SCXMLKind> {
    if name == "state"@ {
        Some(SCXMLKind::State)
    } else if name == "parallel"@ {
        Some(SCXMLKind::Parallel)
    } else if name == "final"@ {
        Some(SCXMLKind::Final)
    } else {
        None
    }
}

/// The names of the elements, in order.
pub open spec fn names_in(elements: Seq<Element>) -> Seq<Seq<char>> {
    Seq::new(elements.len(), |i: int| elements[i].name@)
}

/// The names of the elements inside those of the first `k` elements that have
/// the name `tag`, in order: they name the actions.
pub open spec fn contents(elements: Seq<Element>, tag: Seq<char>, k: int) -> Seq<Seq<char>>
    decreases k,
{
    if k <= 0 {
        Seq::empty()
    } else if elements[k - 1].name@ == tag {
        contents(elements, tag, k - 1) + names_in(elements[k - 1].children@)
    } else {
        contents(elements, tag, k - 1)
    }
}

/// The transition that a `transition` element stands for.
pub open spec fn arrow_of(e: Element) -> Arrow {
    Arrow {
        event: value_of(e.attributes@, "event"@, 0),
        target: value_of(e.attributes@, "target"@, 0),
        actions: names_in(e.children@),
    }
}

/// The transitions that those of the first `k` elements stand for that are
/// `transition` elements, in order.
pub open spec fn arrows(elements: Seq<Element>, k: int) -> Seq<Arrow>
    decreases k,
{
    if k <= 0 {
        Seq::empty()
    } else if elements[k - 1].name@ == "transition"@ {
        arrows(elements, k - 1).push(arrow_of(elements[k - 1]))
    } else {
        arrows(elements, k - 1)
    }
}

/// The transitions as plain values.
pub open spec fn arrow_views(ts: Seq<SCXMLTransition>) -> Seq<Arrow> {
    Seq::new(
        ts.len(),
        |i: int|
            Arrow { event: text(ts[i]._event), target: text(ts[i]._target), actions: strings(ts[i].actions@) },
    )
}

/// The places, among the first `k` elements, of those that are states, in order.
pub open spec fn picked(elements: Seq<Element>, k: int) -> Seq<int>
    decreases k,
{
    if k <= 0 {
        Seq::empty()
    } else if kind_of_name(elements[k - 1].name@) is Some {
        picked(elements, k - 1).push(k - 1)
    } else {
        picked(elements, k - 1)
    }
}

/// The states are what the elements among `elements` that are states stand for,
/// in the order of the document.
pub open spec fn states_mirror(elements: Seq<Element>, states: Seq<SCXMLState>) -> bool
    decreases states, 0nat,
{
    &&& states.len() == picked(elements, elements.len() as int).len()
    &&& forall|i: int|
        0 <= i < states.len() ==> element_mirrors(
            elements[picked(elements, elements.len() as int)[i]],
            #[trigger] states[i],
        )
}

/// The state is what the element stands for: its kind goes by the element's
/// name; its id and its default are the attributes `id` and `initial`; its entry
/// and exit actions are named by what stands inside `onentry` and `onexit`; its
/// transitions are the `transition` elements inside, with the attributes `event`
/// and `target`; its states are the states inside.
pub open spec fn element_mirrors(e: Element, s: SCXMLState) -> bool
    decreases s, 1nat,
{
    &&& kind_of_name(e.name@) == Some(s.kind)
    &&& text(s._id) == value_of(e.attributes@, "id"@, 0)
    &&& text(s._initial) == value_of(e.attributes@, "initial"@, 0)
    &&& strings(s.on_entry@) == contents(e.children@, "onentry"@, e.children@.len() as int)
    &&& strings(s.on_exit@) == contents(e.children@, "onexit"@, e.children@.len() as int)
    &&& arrow_views(s.transition@) == arrows(e.children@, e.children@.len() as int)
    &&& states_mirror(e.children@, s.states@)
}

/// The binding that the value of the attribute `binding` names.
pub open spec fn binding_of(value: Option<Seq<char>>) -> Option<SCXMLBinding> {
    match value {
        Some(v) => if v == "early"@ {
            Some(SCXMLBinding::Early)
        } else if v == "late"@ {
            Some(SCXMLBinding::Late)
        } else {
            None
        },
        None => None,
    }
}

/// The document is what the top element stands for: the attributes `name`,
/// `xmlns`, `version`, `datamodel` and `binding` as they are, the attribute
/// `initial` as the name of the state to start in, and the states inside.
pub open spec fn root_mirrors(top: Element, root: SCXMLRoot) -> bool {
    &&& match value_of(top.attributes@, "initial"@, 0) {
        Some(name) => root._initial matches Some(SCXMLIdRef::RefName(n)) && n@ == name,
        None => root._initial is None,
    }
    &&& text(root._name) == value_of(top.attributes@, "name"@, 0)
    &&& text(root._xmlns) == value_of(top.attributes@, "xmlns"@, 0)
    &&& text(root._version) == value_of(top.attributes@, "version"@, 0)
    &&& text(root._datamodel) == value_of(top.attributes@, "datamodel"@, 0)
    &&& text(root._binding) == value_of(top.attributes@, "binding"@, 0)
    &&& root.script == binding_of(value_of(top.attributes@, "binding"@, 0))
    &&& states_mirror(top.children@, root.states@)
}

/// Finds the value of the first attribute with the name.
fn attribute(attributes: &Vec<Attribute>, name: &str) -> (r: Option<String>)
    ensures
        text(r) == value_of(attributes@, name@, 0),
{
    let key = name.to_owned();
    let mut k: usize = 0;
    while k < attributes.len()
        invariant
            k <= attributes.len(),
            key@ == name@,
            value_of(attributes@, name@, 0) == value_of(attributes@, name@, k as int),
        decreases attributes.len() - k,
    {
        if attributes[k].name == key {
            return Some(attributes[k].value.clone());
        }
        k = k + 1;
    }
    None
}

/// Tells whether the string is the word.
fn is_word(s: &String, word: &str) -> (b: bool)
    ensures
        b == (s@ == word@),
{
    let w = word.to_owned();
    *s == w
}

/// Tells what kind of state an element of the name is.
fn kind_named(name: &String) -> (r: Option<SCXMLKind>)
    ensures
        r == kind_of_name(name@),
{
    if is_word(name, "state") {
        Some(SCXMLKind::State)
    } else if is_word(name, "parallel") {
        Some(SCXMLKind::Parallel)
    } else if is_word(name, "final") {
        Some(SCXMLKind::Final)
    } else {
        None
    }
}

/// Lists the names of the elements.
fn names_of(elements: &Vec<Element>) -> (r: Vec<String>)
    ensures
        strings(r@) == names_in(elements@),
{
    let mut r: Vec<String> = Vec::new();
    let mut i: usize = 0;
    while i < elements.len()
        invariant
            i <= elements.len(),
            r@.len() == i,
            forall|j: int| 0 <= j < i ==> (#[trigger] r@[j])@ == elements@[j].name@,
        decreases elements.len() - i,
    {
        r.push(elements[i].name.clone());
        i = i + 1;
    }
    assert(strings(r@) =~= names_in(elements@));
    r
}

/// Lists the names of the elements inside the elements that have the name
/// `tag`.
fn contents_of(elements: &Vec<Element>, tag: &str) -> (r: Vec<String>)
    ensures
        strings(r@) == contents(elements@, tag@, elements@.len() as int),
{
    let mut r: Vec<String> = Vec::new();
    assert(strings(r@) =~= contents(elements@, tag@, 0));
    let mut k: usize = 0;
    while k < elements.len()
        invariant
            k <= elements.len(),
            strings(r@) == contents(elements@, tag@, k as int),
        decreases elements.len() - k,
    {
        if is_word(&elements[k].name, tag) {
            let inner = names_of(&elements[k].children);
            let ghost before = r@;
            let mut j: usize = 0;
            while j < inner.len()
                invariant
                    j <= inner.len(),
                    r@ == before + inner@.take(j as int),
                decreases inner.len() - j,
            {
                r.push(inner[j].clone());
                assert(inner@.take(j + 1) =~= inner@.take(j as int).push(inner@[j as int]));
                assert(r@ =~= before + inner@.take(j + 1));
                j = j + 1;
            }
            assert(inner@.take(inner@.len() as int) =~= inner@);
            assert(strings(r@) =~= strings(before) + strings(inner@));
        }
        k = k + 1;
    }
    r
}

/// Lists the transitions that the `transition` elements among the elements
/// stand for.
fn transitions_of(elements: &Vec<Element>) -> (r: Vec<SCXMLTransition>)
    ensures
        arrow_views(r@) == arrows(elements@, elements@.len() as int),
{
    let mut r: Vec<SCXMLTransition> = Vec::new();
    assert(arrow_views(r@) =~= arrows(elements@, 0));
    let mut k: usize = 0;
    while k < elements.len()
        invariant
            k <= elements.len(),
            arrow_views(r@) == arrows(elements@, k as int),
        decreases elements.len() - k,
    {
        if is_word(&elements[k].name, "transition") {
            let e = &elements[k];
            let ghost before = r@;
            let t = SCXMLTransition {
                _event: attribute(&e.attributes, "event"),
                _target: attribute(&e.attributes, "target"),
                actions: names_of(&e.children),
            };
            r.push(t);
            assert(arrow_views(r@) =~= arrow_views(before).push(arrow_of(elements@[k as int])));
        }
        k = k + 1;
    }
    r
}

/// Makes the state that an element stands for; none if the element is no state.
pub fn state_of(e: &Element) -> (r: Option<SCXMLState>)
    ensures
        r is Some <==> kind_of_name(e.name@) is Some,
        r matches Some(s) ==> element_mirrors(*e, s),
    decreases *e,
{
    match kind_named(&e.name) {
        None => None,
        Some(kind) => Some(
            SCXMLState {
                kind,
                _id: attribute(&e.attributes, "id"),
                _initial: attribute(&e.attributes, "initial"),
                on_entry: contents_of(&e.children, "onentry"),
                on_exit: contents_of(&e.children, "onexit"),
                transition: transitions_of(&e.children),
                states: states_inside(e, &e.children),
            },
        ),
    }
}

/// Makes the states that the states among the elements inside `e` stand for.
fn states_inside(e: &Element, elements: &Vec<Element>) -> (r: Vec<SCXMLState>)
    requires
        *elements == e.children,
    ensures
        states_mirror(elements@, r@),
    decreases *e, elements.len(),
{
    let mut r: Vec<SCXMLState> = Vec::new();
    let mut k: usize = 0;
    while k < elements.len()
        invariant
            k <= elements.len(),
            *elements == e.children,
            r@.len() == picked(elements@, k as int).len(),
            forall|i: int|
                0 <= i < r@.len() ==> element_mirrors(
                    elements@[picked(elements@, k as int)[i]],
                    #[trigger] r@[i],
                ),
        decreases elements.len() - k,
    {
        match state_of(&elements[k]) {
            Some(s) => {
                r.push(s);
            },
            None => {},
        }
        k = k + 1;
    }
    r
}

/// Makes the document that a top element stands for; none exactly when the
/// element is not named `scxml`.
pub fn root_of(top: &Element) -> (r: Option<SCXMLRoot>)
    ensures
        r is Some <==> top.name@ == "scxml"@,
        r matches Some(root) ==> root_mirrors(*top, root),
{
    if !is_word(&top.name, "scxml") {
        return None;
    }
    let binding = attribute(&top.attributes, "binding");
    let script = match &binding {
        Some(v) => {
            if is_word(v, "early") {
                Some(SCXMLBinding::Early)
            } else if is_word(v, "late") {
                Some(SCXMLBinding::Late)
            } else {
                None
            }
        },
        None => None,
    };
    let mut states: Vec<SCXMLState> = Vec::new();
    let mut k: usize = 0;
    while k < top.children.len()
        invariant
            k <= top.children.len(),
            states@.len() == picked(top.children@, k as int).len(),
            forall|i: int|
                0 <= i < states@.len() ==> element_mirrors(
                    top.children@[picked(top.children@, k as int)[i]],
                    #[trigger] states@[i],
                ),
        decreases top.children.len() - k,
    {
        match state_of(&top.children[k]) {
            Some(s) => {
                states.push(s);
            },
            None => {},
        }
        k = k + 1;
    }
    Some(
        SCXMLRoot {
            _initial: match attribute(&top.attributes, "initial") {
                Some(name) => Some(SCXMLIdRef::RefName(name)),
                None => None,
            },
            _name: attribute(&top.attributes, "name"),
            _xmlns: attribute(&top.attributes, "xmlns"),
            _version: attribute(&top.attributes, "version"),
            _datamodel: attribute(&top.attributes, "datamodel"),
            _binding: binding,
            states,
            script,
        },
    )
}

} // verus!
