use vstd::prelude::*;
use vstd::multiset::Multiset;
use binary_heap_plus::{BinaryHeap, MinComparator};

verus! {

/// An entry of the scheduler's queue: (scheduled datetime, trigger datetime,
/// trigger id). Tuples order lexicographically, so the queue wakes up on the
/// earliest scheduled datetime first.
pub type QueueEntry = (i64, i64, u128);

#[verifier::external_type_specification]
#[verifier::external_body]
#[verifier::reject_recursive_types(T)]
#[verifier::reject_recursive_types(C)]
pub struct ExBinaryHeap<T, C>(BinaryHeap<T, C>);

#[verifier::external_type_specification]
#[verifier::external_body]
pub struct ExMinComparator(MinComparator);

/// What a min-heap of queue entries holds.
pub uninterp spec fn heap_items(h: BinaryHeap<QueueEntry, MinComparator>) -> Multiset<QueueEntry>;

/// Lexicographic order of queue entries, as std orders tuples.
pub open spec fn entry_le(a: QueueEntry, b: QueueEntry) -> bool {
    a.0 < b.0 || (a.0 == b.0 && (a.1 < b.1 || (a.1 == b.1 && a.2 <= b.2)))
}

/// Relies on binary_heap_plus::BinaryHeap::new_min: an empty min-heap.
#[verifier::external_body]
fn heap_new() -> (r: BinaryHeap<QueueEntry, MinComparator>)
    ensures
        heap_items(r) =~= Multiset::empty(),
{
    BinaryHeap::new_min()
}

/// Relies on binary_heap_plus::BinaryHeap::push: the item is added.
#[verifier::external_body]
fn heap_push(h: &mut BinaryHeap<QueueEntry, MinComparator>, e: QueueEntry)
    ensures
        heap_items(*final(h)) =~= heap_items(*old(h)).insert(e),
{
    h.push(e)
}

/// Relies on binary_heap_plus::BinaryHeap::pop: with MinComparator the
/// least item leaves, or None when the heap is empty.
#[verifier::external_body]
fn heap_pop(h: &mut BinaryHeap<QueueEntry, MinComparator>) -> (r: Option<QueueEntry>)
    ensures
        heap_items(*old(h)).len() == 0 ==> r.is_none() && heap_items(*final(h)) =~= heap_items(*old(h)),
        heap_items(*old(h)).len() > 0 ==> (r matches Some(e) && heap_items(*old(h)).contains(e)
            && heap_items(*final(h)) =~= heap_items(*old(h)).remove(e)
            && forall|x: QueueEntry| heap_items(*old(h)).contains(x) ==> entry_le(e, x)),
{
    h.pop()
}

/// Relies on binary_heap_plus::BinaryHeap::len: the number of items.
#[verifier::external_body]
fn heap_len(h: &BinaryHeap<QueueEntry, MinComparator>) -> (r: usize)
    ensures
        r as nat == heap_items(*h).len(),
{
    h.len()
}

/// Relies on binary_heap_plus::BinaryHeap::drain: every item is handed out
/// and the heap is left empty.
#[verifier::external_body]
fn heap_drain(h: &mut BinaryHeap<QueueEntry, MinComparator>) -> (r: Vec<QueueEntry>)
    ensures
        r@.to_multiset() =~= heap_items(*old(h)),
        heap_items(*final(h)) =~= Multiset::empty(),
{
    h.drain().collect()
}

/// The scheduler's time-ordered queue of pending trigger firings.
pub struct TriggerQueue {
    heap: BinaryHeap<QueueEntry, MinComparator>,
}

impl View for TriggerQueue {
    type V = Multiset<QueueEntry>;

    closed spec fn view(&self) -> Multiset<QueueEntry> {
        heap_items(self.heap)
    }
}

impl TriggerQueue {
    pub fn new() -> (r: TriggerQueue)
        ensures
            r@ =~= Multiset::empty(),
    {
        TriggerQueue { heap: heap_new() }
    }

    pub fn push(&mut self, e: QueueEntry)
        ensures
            final(self)@ =~= old(self)@.insert(e),
    {
        heap_push(&mut self.heap, e)
    }

    pub fn pop(&mut self) -> (r: Option<QueueEntry>)
        ensures
            old(self)@.len() == 0 ==> r.is_none() && final(self)@ =~= old(self)@,
            old(self)@.len() > 0 ==> (r matches Some(e) && old(self)@.contains(e)
                && final(self)@ =~= old(self)@.remove(e)
                && forall|x: QueueEntry| old(self)@.contains(x) ==> entry_le(e, x)),
    {
        heap_pop(&mut self.heap)
    }

    /// Removes every entry of the given trigger, keeping all others.
    pub fn remove_trigger(&mut self, trigger_id: u128)
        ensures
            forall|e: QueueEntry| #[trigger]
                final(self)@.count(e) == if e.2 == trigger_id {
                    0
                } else {
                    old(self)@.count(e)
                },
    {
        broadcast use vstd::multiset::group_multiset_axioms;
        let entries = heap_drain(&mut self.heap);
        let mut i: usize = 0;
        proof {
            let none = entries@.subrange(0, 0);
            vstd::seq_lib::to_multiset_len(none);
            vstd::multiset::lemma_multiset_empty_len(none.to_multiset());
        }
        while i < entries.len()
            invariant
                i <= entries@.len(),
                entries@.to_multiset() == old(self)@,
                forall|e: QueueEntry| #[trigger]
                    self@.count(e) == if e.2 == trigger_id {
                        0
                    } else {
                        entries@.subrange(0, i as int).to_multiset().count(e)
                    },
            decreases entries@.len() - i,
        {
            let e = entries[i];
            let ghost prev = self@;
            let ghost seen = entries@.subrange(0, i as int);
            proof {
                assert(entries@.subrange(0, i + 1) =~= seen.push(e));
                vstd::seq_lib::to_multiset_build(seen, e);
            }
            if e.2 != trigger_id {
                heap_push(&mut self.heap, e);
            }
            proof {
                assert forall|x: QueueEntry| #[trigger]
                    self@.count(x) == if x.2 == trigger_id {
                        0
                    } else {
                        seen.push(e).to_multiset().count(x)
                    } by {
                    assert(prev.count(x) == if x.2 == trigger_id {
                        0
                    } else {
                        seen.to_multiset().count(x)
                    });
                }
            }
            i = i + 1;
        }
        assert(entries@.subrange(0, entries@.len() as int) =~= entries@);
    }

    pub fn len(&self) -> (r: usize)
        ensures
            r as nat == self@.len(),
    {
        heap_len(&self.heap)
    }
}

} // verus!
