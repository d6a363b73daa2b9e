//! The outbound queue: a first-in, first-out sequence of messages.

use std::collections::VecDeque;
use vstd::prelude::*;

verus! {

/// A first-in, first-out queue. Its view is the sequence of the items that
/// wait in it, the oldest first.
pub struct Queue<T> {
    inner: VecDeque<T>,
}

impl<T> View for Queue<T> {
    type V = Seq<T>;

    closed spec fn view(&self) -> Seq<T> {
        self.inner@
    }
}

impl<T> Queue<T> {
    /// An empty queue.
    pub fn new() -> (q: Queue<T>)
        ensures
            q@ == Seq::<T>::empty(),
    {
        Queue { inner: VecDeque::new() }
    }

    /// An empty queue with room for `capacity` items.
    pub fn with_capacity(capacity: usize) -> (q: Queue<T>)
        ensures
            q@ == Seq::<T>::empty(),
    {
        Queue { inner: VecDeque::with_capacity(capacity) }
    }

    /// Whether nothing waits in the queue.
    pub fn is_empty(&self) -> (b: bool)
        ensures
            b == (self@.len() == 0),
    {
        self.inner.len() == 0
    }

    /// The number of items that wait in the queue.
    pub fn len(&self) -> (n: usize)
        ensures
            n == self@.len(),
    {
        self.inner.len()
    }

    /// Takes the oldest item out, if there is one.
    pub fn pop(&mut self) -> (item: Option<T>)
        ensures
            old(self)@.len() == 0 ==> item is None && final(self)@ == old(self)@,
            old(self)@.len() > 0 ==> item == Some(old(self)@.first()) && final(self)@ == old(
                self,
            )@.drop_first(),
    {
        self.inner.pop_front()
    }

    /// Puts `item` behind everything that waits already.
    pub fn push(&mut self, item: T)
        ensures
            final(self)@ == old(self)@.push(item),
    {
        self.inner.push_back(item)
    }
}

/// What waits in a queue after `items` were pushed onto `waiting`, the first
/// of them first.
pub open spec fn pushed_all<T>(waiting: Seq<T>, items: Seq<T>) -> Seq<T>
    decreases items.len(),
{
    if items.len() == 0 {
        waiting
    } else {
        pushed_all(waiting, items.drop_last()).push(items.last())
    }
}

/// What `n` pops in a row take out of `waiting`, in the order in which they
/// come out. A pop that finds nothing takes nothing.
pub open spec fn popped<T>(waiting: Seq<T>, n: nat) -> Seq<T>
    decreases n,
{
    if n == 0 || waiting.len() == 0 {
        Seq::empty()
    } else {
        seq![waiting.first()] + popped(waiting.drop_first(), (n - 1) as nat)
    }
}

/// What waits in a queue after `n` pops in a row.
pub open spec fn left<T>(waiting: Seq<T>, n: nat) -> Seq<T>
    decreases n,
{
    if n == 0 || waiting.len() == 0 {
        waiting
    } else {
        left(waiting.drop_first(), (n - 1) as nat)
    }
}

/// Pushing a run of items puts them behind what waited, in their order.
pub proof fn lemma_pushed_all<T>(waiting: Seq<T>, items: Seq<T>)
    ensures
        pushed_all(waiting, items) == waiting + items,
    decreases items.len(),
{
    if items.len() == 0 {
        assert(waiting + items =~= waiting);
    } else {
        lemma_pushed_all(waiting, items.drop_last());
        assert((waiting + items.drop_last()).push(items.last()) =~= waiting + items);
    }
}

/// Pops take the oldest items, the oldest first, and leave the rest.
pub proof fn lemma_popped<T>(waiting: Seq<T>, n: nat)
    ensures
        n <= waiting.len() ==> popped(waiting, n) == waiting.take(n as int) && left(waiting, n)
            == waiting.skip(n as int),
        n > waiting.len() ==> popped(waiting, n) == waiting && left(waiting, n) == Seq::<
            T,
        >::empty(),
    decreases n,
{
    if n == 0 || waiting.len() == 0 {
        assert(waiting.take(0) =~= Seq::<T>::empty());
        assert(waiting.skip(0) =~= waiting);
        if waiting.len() == 0 {
            assert(waiting =~= Seq::<T>::empty());
        }
    } else {
        let rest = waiting.drop_first();
        lemma_popped(rest, (n - 1) as nat);
        if n <= waiting.len() {
            assert(seq![waiting.first()] + rest.take(n - 1) =~= waiting.take(n as int));
            assert(rest.skip(n - 1) =~= waiting.skip(n as int));
        } else {
            assert(seq![waiting.first()] + rest =~= waiting);
        }
    }
}

/// First in, first out: what is pushed onto an empty queue comes out in the
/// order in which it went in, and nothing else does.
pub proof fn lemma_fifo<T>(items: Seq<T>)
    ensures
        popped(pushed_all(Seq::<T>::empty(), items), items.len()) == items,
        left(pushed_all(Seq::<T>::empty(), items), items.len()) == Seq::<T>::empty(),
{
    let waiting = pushed_all(Seq::<T>::empty(), items);
    lemma_pushed_all(Seq::<T>::empty(), items);
    assert(Seq::<T>::empty() + items =~= items);
    lemma_popped(waiting, items.len());
    assert(items.take(items.len() as int) =~= items);
    assert(items.skip(items.len() as int) =~= Seq::<T>::empty());
}

/// Pops never reorder: whatever was pushed behind the items that waited, the
/// first pops hand out the items that waited, the oldest first.
pub proof fn lemma_fifo_prefix<T>(waiting: Seq<T>, items: Seq<T>, n: nat)
    requires
        n <= waiting.len(),
    ensures
        popped(pushed_all(waiting, items), n) == waiting.take(n as int),
{
    lemma_pushed_all(waiting, items);
    lemma_popped(waiting + items, n);
    assert((waiting + items).take(n as int) =~= waiting.take(n as int));
}

} // verus!
