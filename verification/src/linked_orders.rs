//! The insertion-ordered queue of one price level, kept in a linked hash map.
//!
//! The map itself is not verified. What each operation does to the queue is stated here over
//! the sequence of entries that the map holds, oldest first, and the rest of the library is
//! proved against these statements.

use linked_hash_map::LinkedHashMap;
use vstd::prelude::*;

verus! {

/// The map of the `linked_hash_map` crate, taken as it is: nothing is known of what a value
/// of it holds but through the functions below.
#[verifier::external_type_specification]
#[verifier::external_body]
#[verifier::reject_recursive_types(K)]
#[verifier::reject_recursive_types(V)]
#[verifier::reject_recursive_types(S)]
pub struct ExLinkedHashMap<K, V, S>(LinkedHashMap<K, V, S>);

/// The entries of a queue as pairs of order id and unfilled units, oldest first.
pub uninterp spec fn queue_entries(q: LinkedHashMap<u64, i64>) -> Seq<(u64, i64)>;

/// Whether some entry of `entries` has the key `id`.
pub open spec fn has_id(entries: Seq<(u64, i64)>, id: u64) -> bool {
    exists|i: int| 0 <= i < entries.len() && (#[trigger] entries[i]).0 == id
}

/// The position of the first entry with the key `id`; the length if there is none.
pub open spec fn position_of(entries: Seq<(u64, i64)>, id: u64) -> int
    decreases entries.len(),
{
    if entries.len() == 0 || entries[0].0 == id {
        0
    } else {
        1 + position_of(entries.skip(1), id)
    }
}

/// `LinkedHashMap::new`: the new map holds no entry.
#[verifier::external_body]
pub(crate) fn queue_new() -> (q: LinkedHashMap<u64, i64>)
    ensures
        queue_entries(q) == Seq::<(u64, i64)>::empty(),
{
    LinkedHashMap::new()
}

/// `LinkedHashMap::len`: the number of entries.
#[verifier::external_body]
pub(crate) fn queue_len(q: &LinkedHashMap<u64, i64>) -> (n: usize)
    ensures
        n == queue_entries(*q).len(),
{
    q.len()
}

/// `LinkedHashMap::front`: the oldest entry, or nothing where the map is empty.
#[verifier::external_body]
pub(crate) fn queue_front(q: &LinkedHashMap<u64, i64>) -> (front: Option<(u64, i64)>)
    ensures
        queue_entries(*q).len() == 0 ==> front.is_none(),
        queue_entries(*q).len() > 0 ==> front == Some(queue_entries(*q)[0]),
{
    q.front().map(|(id, unfilled)| (*id, *unfilled))
}

/// `LinkedHashMap::get`: the value stored under `id`, or nothing where no entry has that key.
#[verifier::external_body]
pub(crate) fn queue_get(q: &LinkedHashMap<u64, i64>, id: u64) -> (found: Option<i64>)
    ensures
        !has_id(queue_entries(*q), id) ==> found.is_none(),
        has_id(queue_entries(*q), id) ==> found == Some(
            queue_entries(*q)[position_of(queue_entries(*q), id)].1,
        ),
{
    q.get(&id).copied()
}

/// `LinkedHashMap::insert` with a key that the map does not hold: the entry is appended
/// behind all others, which stay as they are.
#[verifier::external_body]
pub(crate) fn queue_push(q: &mut LinkedHashMap<u64, i64>, id: u64, unfilled: i64)
    requires
        !has_id(queue_entries(*old(q)), id),
    ensures
        queue_entries(*final(q)) == queue_entries(*old(q)).push((id, unfilled)),
{
    q.insert(id, unfilled);
}

/// `LinkedHashMap::get_mut` followed by a store: the value under `id` is replaced and the
/// entry keeps its place in the order.
#[verifier::external_body]
pub(crate) fn queue_set(q: &mut LinkedHashMap<u64, i64>, id: u64, unfilled: i64)
    requires
        has_id(queue_entries(*old(q)), id),
    ensures
        queue_entries(*final(q)) == queue_entries(*old(q)).update(
            position_of(queue_entries(*old(q)), id),
            (id, unfilled),
        ),
{
    *q.get_mut(&id).unwrap() = unfilled;
}

/// `LinkedHashMap::remove`: the entry under `id` leaves and its value is returned, the other
/// entries keep their order; a map without that key is left as it is.
#[verifier::external_body]
pub(crate) fn queue_remove(q: &mut LinkedHashMap<u64, i64>, id: u64) -> (removed: Option<i64>)
    ensures
        !has_id(queue_entries(*old(q)), id) ==> removed.is_none() && queue_entries(*final(q))
            == queue_entries(*old(q)),
        has_id(queue_entries(*old(q)), id) ==> removed == Some(
            queue_entries(*old(q))[position_of(queue_entries(*old(q)), id)].1,
        ) && queue_entries(*final(q)) == queue_entries(*old(q)).remove(
            position_of(queue_entries(*old(q)), id),
        ),
{
    q.remove(&id)
}

/// `LinkedHashMap::iter`: all entries, oldest first.
#[verifier::external_body]
pub(crate) fn queue_to_vec(q: &LinkedHashMap<u64, i64>) -> (entries: Vec<(u64, i64)>)
    ensures
        entries@ == queue_entries(*q),
{
    q.iter().map(|(id, unfilled)| (*id, *unfilled)).collect()
}

} // verus!
