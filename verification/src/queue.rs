//! The frontier of a best-first search, kept in a `priority_queue::PriorityQueue`.
//!
//! An item is a ticket number, its priority a pair of integers. Nothing in
//! this file is proved: each function states what the queue's source shows.

use priority_queue::PriorityQueue;
use std::hash::Hash;
use vstd::prelude::*;

verus! {

/// `priority_queue::PriorityQueue`, of which nothing is seen but what the
/// functions below state.
#[verifier::external_type_specification]
#[verifier::external_body]
#[verifier::reject_recursive_types(I)]
#[verifier::reject_recursive_types(P)]
#[verifier::reject_recursive_types(H)]
pub struct ExPriorityQueue<I: Hash + Eq, P: Ord, H>(PriorityQueue<I, P, H>);

/// The priority of an item: a pair of integers, ordered by the first, then
/// by the second.
pub type Rank = (u64, u64);

/// The queue of a search: ticket numbers, each with its rank.
pub type Frontier = PriorityQueue<u64, Rank>;

/// What a queue holds: each item with its priority.
pub uninterp spec fn queue_map(q: Frontier) -> Map<u64, Rank>;

/// The order of pairs of integers: by the first part, then by the second.
pub open spec fn pair_le(a: Rank, b: Rank) -> bool {
    a.0 < b.0 || (a.0 == b.0 && a.1 <= b.1)
}

/// `PriorityQueue::new`: the queue it returns holds nothing.
#[verifier::external_body]
pub(crate) fn queue_new() -> (q: Frontier)
    ensures
        (queue_map(q) == Map::<u64, Rank>::empty()),
{
    PriorityQueue::new()
}

/// `PriorityQueue::push`: the item is in the queue afterwards with the given
/// priority, whether or not it was there before; the other items keep
/// theirs. The priority that the item had before is returned.
#[verifier::external_body]
pub(crate) fn queue_push(q: &mut Frontier, item: u64, priority: Rank) -> (before: Option<Rank>)
    ensures
        queue_map(*final(q)) == queue_map(*old(q)).insert(item, priority),
        before == (if queue_map(*old(q)).contains_key(item) {
            Some(queue_map(*old(q))[item])
        } else {
            None
        }),
{
    q.push(item, priority)
}

/// `PriorityQueue::pop`: an empty queue gives `None` and stays empty. From
/// any other the call takes out an item whose priority no other item's
/// exceeds, and returns it with that priority.
#[verifier::external_body]
pub(crate) fn queue_pop(q: &mut Frontier) -> (top: Option<(u64, Rank)>)
    ensures
        match top {
            None => queue_map(*old(q)).dom().is_empty() && queue_map(*final(q)) == queue_map(*old(q)),
            Some((item, priority)) => {
                &&& queue_map(*old(q)).contains_key(item)
                &&& queue_map(*old(q))[item] == priority
                &&& forall|other: u64| #[trigger]
                    queue_map(*old(q)).contains_key(other) ==> pair_le(
                        queue_map(*old(q))[other],
                        priority,
                    )
                &&& queue_map(*final(q)) == queue_map(*old(q)).remove(item)
            },
        },
{
    q.pop()
}

} // verus!
