use std::collections::HashMap;
use vstd::prelude::*;
use vstd::string::StringSliceAdditionalSpecFns;

verus! {

/// Identifier of an action; the chart stores these, the host owns what they do.
#[derive(Clone, Copy, Debug, PartialEq, Eq, Structural, Hash)]
pub struct ActionId(pub u64);

/// Human-readable name of an action.
#[derive(Clone, Debug)]
pub struct ActionLabel(pub String);

/// Identifier of an event descriptor.
#[derive(Clone, Copy, Debug, PartialEq, Eq, Structural, Hash)]
pub struct EventId(pub u64);

/// Human-readable, possibly dot-separated, name of an event.
#[derive(Clone, Debug)]
pub struct EventLabel(pub String);

impl View for ActionLabel {
    type V = Seq<char>;

    open spec fn view(&self) -> Seq<char> {
        self.0@
    }
}

impl View for EventLabel {
    type V = Seq<char>;

    open spec fn view(&self) -> Seq<char> {
        self.0@
    }
}

/// An output of the chart: something the host does when the engine says so.
/// The host implements this; the library only calls it.
pub trait Action<C> {
    /// Unique id of this action.
    fn id(&self) -> &ActionId;

    /// Unique name of this action.
    fn name(&self) -> &ActionLabel;

    /// Performs the action on the host's context.
    fn execute(&self, ctx: &mut C);
}

/// An input of the chart. The host implements this; the library only calls it.
pub trait Event {
    /// Deterministic id of the event.
    fn id(&self) -> &EventId;

    /// Deterministic name of the event; dots separate the levels of a
    /// hierarchical name.
    fn name(&self) -> &EventLabel;

    /// Properties of the event, for the host's own conditions and actions.
    fn properties(&self) -> HashMap<String, String>;
}

/// The byte that separates the levels of a hierarchical event name.
pub const SEPARATOR: u8 = 0x2e;

/// Offset basis of the 64-bit FNV-1a hash.
pub const HASH_BASIS: u64 = 0xcbf2_9ce4_8422_2325;

/// Prime of the 64-bit FNV-1a hash.
pub const HASH_PRIME: u64 = 0x0000_0100_0000_01b3;

/// One round of FNV-1a: mix the byte in, then multiply modulo 2^64.
pub open spec fn hash_round(h: u64, b: u8) -> u64 {
    (h ^ (b as u64)).wrapping_mul(HASH_PRIME)
}

/// The 64-bit FNV-1a hash of a byte string: the id that a name stands for.
pub open spec fn content_hash(bytes: Seq<u8>) -> u64
    decreases bytes.len(),
{
    if bytes.len() == 0 {
        HASH_BASIS
    } else {
        hash_round(content_hash(bytes.drop_last()), bytes.last())
    }
}

/// The ids of the prefixes of `bytes` that end just before a separator among its
/// first `n` bytes, shortest first.
pub open spec fn prefix_ids(bytes: Seq<u8>, n: int) -> Seq<EventId>
    decreases n,
{
    if n <= 0 {
        Seq::empty()
    } else if bytes[n - 1] == SEPARATOR {
        prefix_ids(bytes, n - 1).push(EventId(content_hash(bytes.take(n - 1))))
    } else {
        prefix_ids(bytes, n - 1)
    }
}

/// Every descriptor id that accepts an event with the given id and name: the id
/// itself, the ids of the name's dot-separated proper prefixes, and the id of the
/// whole name.
pub open spec fn descriptor_ids(id: EventId, name: Seq<u8>) -> Seq<EventId> {
    seq![id] + prefix_ids(name, name.len() as int).push(EventId(content_hash(name)))
}

/// Computes the id that the name stands for.
pub fn event_id(name: &str) -> (id: EventId)
    ensures
        id.0 == content_hash(name.spec_bytes()),
{
    let bytes = name.as_bytes();
    let mut h: u64 = HASH_BASIS;
    let mut i: usize = 0;
    while i < bytes.len()
        invariant
            i <= bytes.len(),
            bytes@ == name.spec_bytes(),
            h == content_hash(bytes@.take(i as int)),
        decreases bytes.len() - i,
    {
        proof {
            assert(bytes@.take(i + 1).drop_last() =~= bytes@.take(i as int));
        }
        h = (h ^ (bytes[i] as u64)).wrapping_mul(HASH_PRIME);
        i = i + 1;
    }
    proof {
        assert(bytes@.take(i as int) =~= bytes@);
    }
    EventId(h)
}

/// Computes every descriptor id that accepts an event with this id and name.
pub fn accepted_ids(id: EventId, name: &str) -> (ids: Vec<EventId>)
    ensures
        ids@ == descriptor_ids(id, name.spec_bytes()),
{
    let bytes = name.as_bytes();
    let mut ids: Vec<EventId> = Vec::new();
    ids.push(id);
    let mut h: u64 = HASH_BASIS;
    let mut i: usize = 0;
    while i < bytes.len()
        invariant
            i <= bytes.len(),
            bytes@ == name.spec_bytes(),
            h == content_hash(bytes@.take(i as int)),
            ids@ == seq![id] + prefix_ids(bytes@, i as int),
        decreases bytes.len() - i,
    {
        proof {
            assert(bytes@.take(i + 1).drop_last() =~= bytes@.take(i as int));
        }
        if bytes[i] == SEPARATOR {
            ids.push(EventId(h));
        }
        h = (h ^ (bytes[i] as u64)).wrapping_mul(HASH_PRIME);
        i = i + 1;
    }
    proof {
        assert(bytes@.take(i as int) =~= bytes@);
    }
    ids.push(EventId(h));
    ids
}

/// Computes the id that the name of an event stands for: `event_id` of what the
/// event's `name` returned.
pub fn hash_event<E: Event>(event: &E) -> (h: u64)
    ensures
        exists|label: &EventLabel|
            call_ensures(E::name, (event,), label) && h == content_hash(
                vstd::utf8::encode_utf8(label@),
            ),
{
    let label = event.name();
    let h = event_id(label.0.as_str()).0;
    assert(call_ensures(E::name, (event,), label) && h == content_hash(
        vstd::utf8::encode_utf8(label@),
    ));
    h
}

} // verus!
