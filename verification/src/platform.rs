//! Declarations of the outside types the library carries, and the trusted wrappers
//! around the outside calls it makes.

use vstd::prelude::*;
use bytes::Bytes;
use bevy_platform::collections::HashMap;
use bevy_platform::hash::FixedHasher;
use core::time::Duration;
use bevy_ecs::entity::Entity;
use crate::fragment::{fresh_view, FragmentConstructor};
use crate::packet::{MessageId, Tick, FRAGMENT_SIZE};

verus! {

/// `bytes::Bytes`, a shared immutable byte buffer, carried opaquely.
#[verifier::external_type_specification]
#[verifier::external_body]
pub struct ExBytes(Bytes);

/// `bevy_platform::collections::HashMap`, carried opaquely; its entries are named by
/// `constructor_map_contents`.
#[verifier::external_type_specification]
#[verifier::external_body]
#[verifier::reject_recursive_types(K)]
#[verifier::reject_recursive_types(V)]
#[verifier::reject_recursive_types(S)]
pub struct ExHashMap<K, V, S>(HashMap<K, V, S>);

/// `bevy_platform::hash::FixedHasher`, the map's default hasher, carried opaquely.
#[verifier::external_type_specification]
#[verifier::external_body]
pub struct ExFixedHasher(FixedHasher);

/// `bevy_ecs::entity::Entity`, an entity identifier, carried opaquely.
#[verifier::external_type_specification]
#[verifier::external_body]
pub struct ExEntity(Entity);

/// The bytes held by a `Bytes` buffer.
pub uninterp spec fn bytes_contents(b: Bytes) -> Seq<u8>;

/// Partially reassembled messages, by message id.
pub type ConstructorMap = HashMap<MessageId, FragmentConstructor>;

/// The entries of a map of partially reassembled messages.
pub uninterp spec fn constructor_map_contents(m: ConstructorMap) -> Map<
    MessageId,
    FragmentConstructor,
>;

/// The whole number of nanoseconds in a duration (what `Duration::as_nanos` returns).
pub uninterp spec fn duration_nanos(d: Duration) -> nat;

/// Borrows the bytes of a buffer (`<Bytes as AsRef<[u8]>>::as_ref`): the slice holds
/// exactly the buffer's bytes.
#[verifier::external_body]
pub(crate) fn bytes_as_slice(b: &Bytes) -> (r: &[u8])
    ensures
        r@ == bytes_contents(*b),
{
    b.as_ref()
}

/// Turns a vector into a buffer (`<Bytes as From<Vec<u8>>>::from`): the buffer holds
/// exactly the vector's bytes.
#[verifier::external_body]
pub(crate) fn bytes_from_vec(v: Vec<u8>) -> (r: Bytes)
    ensures
        bytes_contents(r) == v@,
{
    Bytes::from(v)
}

/// `Duration::as_nanos`: the total number of whole nanoseconds in the duration, which
/// is how durations are ordered.
#[verifier::external_body]
pub(crate) fn duration_as_nanos(d: &Duration) -> (r: u128)
    ensures
        r == duration_nanos(*d),
{
    d.as_nanos()
}

/// `<Entity as PartialEq>::eq`, which compares the entities' bit representations (index
/// and generation): true exactly when the two are the same entity.
#[verifier::external_body]
pub(crate) fn same_entity(a: &Entity, b: &Entity) -> (r: bool)
    ensures
        r == (*a == *b),
{
    a == b
}

/// `HashMap::default`: a map with no entries.
#[verifier::external_body]
pub(crate) fn constructor_map_new() -> (r: ConstructorMap)
    ensures
        constructor_map_contents(r).dom() == Set::<MessageId>::empty(),
{
    HashMap::default()
}

/// `HashMap::retain`, handed a closure that asks each constructor whether a cleanup at
/// `cleanup_time` keeps it (`kept_after`): exactly the entries for which the answer is
/// yes stay, unchanged.
#[verifier::external_body]
pub(crate) fn constructor_map_retain_after(
    m: &mut ConstructorMap,
    cleanup_time: Duration,
)
    ensures
        constructor_map_contents(*final(m)) == constructor_map_contents(*old(m)).restrict(
            constructor_map_contents(*old(m)).dom().filter(
                |k: MessageId| constructor_map_contents(*old(m))[k]@.kept_after(cleanup_time),
            ),
        ),
{
    m.retain(|_, c| c.received_after(&cleanup_time))
}

/// `HashMap::entry(key).or_insert_with(..)`, handed a closure that builds a fresh
/// constructor with `FragmentConstructor::new(tick, num_fragments)`: the result refers
/// to the entry of `key`, which is the one already there if any, else the fresh
/// constructor; afterwards the map holds, at `key`, whatever the reference left there.
#[verifier::external_body]
pub(crate) fn constructor_map_entry<'a>(
    m: &'a mut ConstructorMap,
    key: MessageId,
    tick: Tick,
    num_fragments: usize,
) -> (r: &'a mut FragmentConstructor)
    requires
        num_fragments * FRAGMENT_SIZE <= usize::MAX,
    ensures
        constructor_map_contents(*old(m)).contains_key(key) ==> *r == constructor_map_contents(
            *old(m),
        )[key],
        !constructor_map_contents(*old(m)).contains_key(key) ==> r.wf() && r@ == fresh_view(
            tick,
            num_fragments as nat,
        ),
        constructor_map_contents(*final(m)) == constructor_map_contents(*old(m)).insert(
            key,
            *final(r),
        ),
{
    m.entry(key).or_insert_with(|| FragmentConstructor::new(tick, num_fragments))
}

/// `HashMap::remove`: the entry of `key`, if any, is gone and nothing else changes.
#[verifier::external_body]
pub(crate) fn constructor_map_remove(m: &mut ConstructorMap, key: &MessageId)
    ensures
        constructor_map_contents(*final(m)) == constructor_map_contents(*old(m)).remove(*key),
{
    m.remove(key);
}

} // verus!
