//! The schedule: a min-priority collection of events ordered by due time.
//!
//! The events live in a binary heap laid out in a vector. Seen from outside
//! the schedule is a multiset of events; taking from it always yields an
//! event that no other event precedes.

use crate::task::Task;
use vstd::multiset::Multiset;
use vstd::prelude::*;

verus! {

/// A task and the time at which it is next due to refresh.
#[derive(Clone, Copy, Debug, PartialEq, Eq, Structural)]
pub struct Event {
    /// When the task is due, in milliseconds.
    pub due: u64,
    /// The task that is due.
    pub task: Task,
}

/// `e` occurs in `m` and no event of `m` is due before it.
pub open spec fn is_earliest(m: Multiset<Event>, e: Event) -> bool {
    &&& m.count(e) > 0
    &&& forall|x: Event| #[trigger] m.count(x) > 0 ==> e.due <= x.due
}

/// `order` can be produced by taking events from `m` one after another,
/// each time an earliest one of those that are left.
pub open spec fn taken_in_order(m: Multiset<Event>, order: Seq<Event>) -> bool
    decreases order.len(),
{
    order.len() > 0 ==> {
        &&& is_earliest(m, order[0])
        &&& taken_in_order(m.remove(order[0]), order.drop_first())
    }
}

/// Taking an earliest event twice in a row never goes back in time.
pub proof fn lemma_successive_takes_ascend(m: Multiset<Event>, first: Event, second: Event)
    requires
        is_earliest(m, first),
        is_earliest(m.remove(first), second),
    ensures
        first.due <= second.due,
{
    assert(m.count(second) > 0);
}

/// Heap ordering: events taken repeatedly from a schedule come out in
/// non-decreasing order of due time.
pub proof fn lemma_taken_order_ascends(m: Multiset<Event>, order: Seq<Event>)
    requires
        taken_in_order(m, order),
    ensures
        forall|i: int, j: int| 0 <= i <= j < order.len() ==> order[i].due <= order[j].due,
    decreases order.len(),
{
    if order.len() > 0 {
        let rest = order.drop_first();
        let left = m.remove(order[0]);
        lemma_taken_order_ascends(left, rest);
        lemma_taken_from(left, rest);
        assert forall|i: int, j: int| 0 <= i <= j < order.len() implies order[i].due
            <= order[j].due by {
            if i == 0 {
                if j > 0 {
                    assert(order[j] == rest[j - 1]);
                    assert(left.count(rest[j - 1]) > 0);
                    assert(m.count(order[j]) > 0);
                }
            } else {
                assert(order[i] == rest[i - 1]);
                assert(order[j] == rest[j - 1]);
            }
        }
    }
}

/// Every event of an order taken from `m` was in `m`.
proof fn lemma_taken_from(m: Multiset<Event>, order: Seq<Event>)
    requires
        taken_in_order(m, order),
    ensures
        forall|i: int| 0 <= i < order.len() ==> m.count(#[trigger] order[i]) > 0,
    decreases order.len(),
{
    if order.len() > 0 {
        let rest = order.drop_first();
        let left = m.remove(order[0]);
        lemma_taken_from(left, rest);
        assert forall|i: int| 0 <= i < order.len() implies m.count(#[trigger] order[i]) > 0 by {
            if i > 0 {
                assert(order[i] == rest[i - 1]);
                assert(left.count(rest[i - 1]) > 0);
            }
        }
    }
}

/// The element at `i` is due no earlier than its parent.
spec fn fits(s: Seq<Event>, i: int) -> bool {
    s[(i - 1) / 2].due <= s[i].due
}

/// The element at `i` is due no earlier than the parent of `k`.
spec fn spans(s: Seq<Event>, k: int, i: int) -> bool {
    s[(k - 1) / 2].due <= s[i].due
}

/// Every child is due no earlier than its parent.
spec fn heap_ordered(s: Seq<Event>) -> bool {
    forall|i: int| 0 < i < s.len() ==> #[trigger] fits(s, i)
}

/// Heap order holds everywhere but between `k` and its parent.
spec fn ordered_above(s: Seq<Event>, k: int) -> bool {
    forall|i: int| 0 < i < s.len() && i != k ==> #[trigger] fits(s, i)
}

/// Heap order holds everywhere but between `k` and its children.
spec fn ordered_below(s: Seq<Event>, k: int) -> bool {
    forall|i: int| 0 < i < s.len() && (i - 1) / 2 != k ==> #[trigger] fits(s, i)
}

/// The parent of `k`, if it has one, is due no later than the children of `k`.
spec fn bridged(s: Seq<Event>, k: int) -> bool {
    forall|i: int| 0 < k && 0 < i < s.len() && (i - 1) / 2 == k ==> #[trigger] spans(s, k, i)
}

/// In a heap the root is due no later than any other element.
proof fn lemma_root_is_least(s: Seq<Event>, i: int)
    requires
        heap_ordered(s),
        0 <= i < s.len(),
    ensures
        s[0].due <= s[i].due,
    decreases i,
{
    if i > 0 {
        assert(fits(s, i));
        lemma_root_is_least(s, (i - 1) / 2);
    }
}

/// The root of a non-empty heap is an earliest event of its contents.
proof fn lemma_root_is_earliest(s: Seq<Event>)
    requires
        heap_ordered(s),
        s.len() > 0,
    ensures
        is_earliest(s.to_multiset(), s[0]),
{
    s.to_multiset_ensures();
    assert(s.contains(s[0]));
    assert forall|x: Event| #[trigger] s.to_multiset().count(x) > 0 implies s[0].due <= x.due by {
        assert(s.contains(x));
        let i = choose|i: int| 0 <= i < s.len() && s[i] == x;
        lemma_root_is_least(s, i);
    }
}

/// Overwriting one element exchanges it in the multiset of contents.
proof fn lemma_update_contents(s: Seq<Event>, i: int, e: Event)
    requires
        0 <= i < s.len(),
    ensures
        s.update(i, e).to_multiset() =~= s.to_multiset().remove(s[i]).insert(e),
{
    vstd::seq_lib::to_multiset_remove(s, i);
    vstd::seq_lib::to_multiset_insert(s.remove(i), i, e);
    assert(s.remove(i).insert(i, e) =~= s.update(i, e));
}

/// Exchanges two elements; the contents stay the same.
fn exchange(heap: &mut Vec<Event>, i: usize, j: usize)
    requires
        i < old(heap)@.len(),
        j < old(heap)@.len(),
        i != j,
    ensures
        final(heap)@ == old(heap)@.update(i as int, old(heap)@[j as int]).update(
            j as int,
            old(heap)@[i as int],
        ),
        final(heap)@.to_multiset() == old(heap)@.to_multiset(),
{
    let a = heap[i];
    let b = heap[j];
    heap[i] = b;
    heap[j] = a;
    proof {
        let s = old(heap)@;
        let mid = s.update(i as int, b);
        lemma_update_contents(s, i as int, b);
        lemma_update_contents(mid, j as int, a);
        s.to_multiset_ensures();
        assert(s.contains(a));
        assert(s.contains(b));
        assert(mid.update(j as int, a).to_multiset() =~= s.to_multiset());
    }
}

/// Moves the last element up until its parent is due no later than it.
fn sift_up(heap: &mut Vec<Event>)
    requires
        old(heap)@.len() > 0,
        ordered_above(old(heap)@, old(heap)@.len() - 1),
    ensures
        heap_ordered(final(heap)@),
        final(heap)@.to_multiset() == old(heap)@.to_multiset(),
        final(heap)@.len() == old(heap)@.len(),
{
    let mut k: usize = heap.len() - 1;
    while k > 0 && heap[(k - 1) / 2].due > heap[k].due
        invariant
            k < heap@.len(),
            heap@.len() == old(heap)@.len(),
            heap@.to_multiset() == old(heap)@.to_multiset(),
            ordered_above(heap@, k as int),
            bridged(heap@, k as int),
        decreases k,
    {
        let p: usize = (k - 1) / 2;
        let ghost before = heap@;
        exchange(heap, p, k);
        proof {
            let after = heap@;
            assert forall|i: int| 0 < i < after.len() && i != p implies #[trigger] fits(
                after,
                i,
            ) by {
                if i == k {
                } else if (i - 1) / 2 == k {
                    assert(spans(before, k as int, i));
                } else if (i - 1) / 2 == p {
                    assert(fits(before, i));
                } else {
                    assert(fits(before, i));
                }
            }
            assert forall|i: int|
                0 < p && 0 < i < after.len() && (i - 1) / 2 == p implies #[trigger] spans(
                after,
                p as int,
                i,
            ) by {
                assert(fits(before, p as int));
                if i != k {
                    assert(fits(before, i));
                }
            }
        }
        k = p;
    }
}

/// Moves the root down until neither child is due before it.
fn sift_down(heap: &mut Vec<Event>)
    requires
        ordered_below(old(heap)@, 0),
    ensures
        heap_ordered(final(heap)@),
        final(heap)@.to_multiset() == old(heap)@.to_multiset(),
        final(heap)@.len() == old(heap)@.len(),
{
    let n: usize = heap.len();
    let mut k: usize = 0;
    let mut settled: bool = n < 2;
    while !settled
        invariant
            n == heap@.len(),
            n == old(heap)@.len(),
            k < n || n == 0,
            heap@.to_multiset() == old(heap)@.to_multiset(),
            ordered_below(heap@, k as int),
            bridged(heap@, k as int),
            settled ==> heap_ordered(heap@),
            settled || n >= 2,
        decreases n - k, if settled { 0int } else { 1int },
    {
        if k > (n - 2) / 2 {
            settled = true;
            proof {
                let s = heap@;
                assert forall|i: int| 0 < i < s.len() implies #[trigger] fits(s, i) by {
                    if (i - 1) / 2 == k {
                        assert(i >= 2 * k + 1);
                    }
                }
            }
        } else {
            let left: usize = 2 * k + 1;
            let mut child: usize = left;
            if left + 1 < n && heap[left + 1].due < heap[left].due {
                child = left + 1;
            }
            if heap[k].due <= heap[child].due {
                settled = true;
                proof {
                    let s = heap@;
                    assert forall|i: int| 0 < i < s.len() implies #[trigger] fits(s, i) by {
                        if (i - 1) / 2 == k {
                            assert(i == left || i == left + 1);
                        }
                    }
                }
            } else {
                let ghost before = heap@;
                exchange(heap, k, child);
                proof {
                    let after = heap@;
                    assert forall|i: int|
                        0 < i < after.len() && (i - 1) / 2 != child implies #[trigger] fits(
                        after,
                        i,
                    ) by {
                        if (i - 1) / 2 == k {
                            assert(i == left || i == left + 1);
                            if i != child {
                                assert(before[child as int].due <= before[i].due);
                            }
                        } else if i == k {
                            assert(spans(before, k as int, child as int));
                        } else {
                            assert(fits(before, i));
                        }
                    }
                    assert forall|i: int|
                        0 < child && 0 < i < after.len() && (i - 1) / 2 == child implies #[trigger] spans(
                        after,
                        child as int,
                        i,
                    ) by {
                        assert(fits(before, i));
                    }
                }
                k = child;
            }
        }
    }
}

/// A min-priority collection of events ordered by due time.
pub struct Schedule {
    heap: Vec<Event>,
}

impl View for Schedule {
    type V = Multiset<Event>;

    /// The events the schedule holds.
    closed spec fn view(&self) -> Multiset<Event> {
        self.heap@.to_multiset()
    }
}

impl Schedule {
    #[verifier::type_invariant]
    spec fn ordered(&self) -> bool {
        heap_ordered(self.heap@)
    }

    /// The event that `peek` shows and `pop` takes next; meaningful while the
    /// schedule is not empty.
    pub closed spec fn front(&self) -> Event {
        self.heap@[0]
    }

    /// An empty schedule.
    pub fn new() -> (schedule: Schedule)
        ensures
            schedule@ == Multiset::<Event>::empty(),
    {
        proof {
            Seq::<Event>::empty().to_multiset_ensures();
            vstd::multiset::lemma_multiset_empty_len(Seq::<Event>::empty().to_multiset());
        }
        Schedule { heap: Vec::new() }
    }

    /// The number of events held.
    pub fn len(&self) -> (n: usize)
        ensures
            n == self@.len(),
    {
        proof {
            self.heap@.to_multiset_ensures();
        }
        self.heap.len()
    }

    /// Whether no event is held.
    pub fn is_empty(&self) -> (empty: bool)
        ensures
            empty == (self@.len() == 0),
    {
        proof {
            self.heap@.to_multiset_ensures();
        }
        self.heap.len() == 0
    }

    /// The event due first, without taking it.
    pub fn peek(&self) -> (next: Option<Event>)
        ensures
            self@.len() == 0 ==> next is None,
            self@.len() > 0 ==> next == Some(self.front()) && is_earliest(self@, self.front()),
    {
        proof {
            use_type_invariant(self);
            self.heap@.to_multiset_ensures();
        }
        if self.heap.len() == 0 {
            None
        } else {
            proof {
                lemma_root_is_earliest(self.heap@);
            }
            Some(self.heap[0])
        }
    }

    /// Adds an event.
    pub fn push(&mut self, event: Event)
        ensures
            final(self)@ == old(self)@.insert(event),
    {
        proof {
            use_type_invariant(&*self);
        }
        let mut heap: Vec<Event> = Vec::new();
        core::mem::swap(&mut heap, &mut self.heap);
        let ghost before = heap@;
        heap.push(event);
        proof {
            before.to_multiset_ensures();
            assert forall|i: int| 0 < i < heap@.len() && i != heap@.len() - 1 implies #[trigger] fits(
                heap@,
                i,
            ) by {
                assert(fits(before, i));
            }
        }
        sift_up(&mut heap);
        self.heap = heap;
    }

    /// Takes the event due first. Among events due at the same time any one
    /// may come first.
    pub fn pop(&mut self) -> (next: Option<Event>)
        ensures
            old(self)@.len() == 0 ==> next is None && final(self)@ == old(self)@,
            old(self)@.len() > 0 ==> next == Some(old(self).front()) && is_earliest(
                old(self)@,
                old(self).front(),
            ) && final(self)@ == old(self)@.remove(old(self).front()),
    {
        proof {
            use_type_invariant(&*self);
            self.heap@.to_multiset_ensures();
        }
        if self.heap.len() == 0 {
            return None;
        }
        let mut heap: Vec<Event> = Vec::new();
        core::mem::swap(&mut heap, &mut self.heap);
        let ghost before = heap@;
        proof {
            lemma_root_is_earliest(before);
        }
        let root = heap[0];
        let last = heap.pop().unwrap();
        if heap.len() > 0 {
            heap[0] = last;
            proof {
                let n = before.len() as int;
                let shorter = before.drop_last();
                assert(shorter =~= before.remove(n - 1));
                vstd::seq_lib::to_multiset_remove(before, n - 1);
                lemma_update_contents(shorter, 0, last);
                shorter.to_multiset_ensures();
                assert(shorter.contains(shorter[0]));
                assert(heap@.to_multiset() =~= before.to_multiset().remove(root));
                assert forall|i: int| 0 < i < heap@.len() && (i - 1) / 2 != 0 implies #[trigger] fits(
                    heap@,
                    i,
                ) by {
                    assert(fits(before, i));
                }
            }
            sift_down(&mut heap);
        } else {
            proof {
                assert(before =~= seq![root]);
                assert(before.remove(0) =~= heap@);
                vstd::seq_lib::to_multiset_remove(before, 0);
            }
        }
        self.heap = heap;
        Some(root)
    }

    /// Takes the event due first and puts `event` in its place, in one step:
    /// the schedule never holds fewer events in between. On an empty schedule
    /// there is nothing to replace, and nothing changes.
    pub fn replace_front(&mut self, event: Event) -> (taken: Option<Event>)
        ensures
            old(self)@.len() == 0 ==> taken is None && final(self)@ == old(self)@,
            old(self)@.len() > 0 ==> taken == Some(old(self).front()) && is_earliest(
                old(self)@,
                old(self).front(),
            ) && final(self)@ == old(self)@.remove(old(self).front()).insert(event),
    {
        proof {
            use_type_invariant(&*self);
            self.heap@.to_multiset_ensures();
        }
        if self.heap.len() == 0 {
            return None;
        }
        let mut heap: Vec<Event> = Vec::new();
        core::mem::swap(&mut heap, &mut self.heap);
        let ghost before = heap@;
        let root = heap[0];
        heap[0] = event;
        proof {
            lemma_root_is_earliest(before);
            lemma_update_contents(before, 0, event);
            assert forall|i: int| 0 < i < heap@.len() && (i - 1) / 2 != 0 implies #[trigger] fits(
                heap@,
                i,
            ) by {
                assert(fits(before, i));
            }
        }
        sift_down(&mut heap);
        self.heap = heap;
        Some(root)
    }

    /// When `task` is due: the due time of an event of `task`, if the
    /// schedule holds one.
    pub fn due_of(&self, task: Task) -> (due: Option<u64>)
        ensures
            match due {
                Some(at) => self@.count(Event { due: at, task }) > 0,
                None => forall|at: u64| self@.count(Event { due: at, task }) == 0,
            },
    {
        proof {
            self.heap@.to_multiset_ensures();
        }
        let mut i: usize = 0;
        while i < self.heap.len()
            invariant
                i <= self.heap@.len(),
                forall|j: int| 0 <= j < i ==> self.heap@[j].task != task,
            decreases self.heap@.len() - i,
        {
            let event = self.heap[i];
            if event.task == task {
                proof {
                    self.heap@.to_multiset_ensures();
                    assert(self.heap@[i as int] == event);
                    assert(self.heap@.contains(event));
                    assert(event == Event { due: event.due, task });
                }
                return Some(event.due);
            }
            i = i + 1;
        }
        proof {
            self.heap@.to_multiset_ensures();
            assert forall|at: u64| self@.count(Event { due: at, task }) == 0 by {
                let e = Event { due: at, task };
                if self.heap@.contains(e) {
                    let j = choose|j: int| 0 <= j < self.heap@.len() && self.heap@[j] == e;
                    assert(self.heap@[j].task != task);
                }
            }
        }
        None
    }
}

} // verus!
