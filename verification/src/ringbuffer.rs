//! A bounded FIFO jitter buffer with a minimum-fill threshold.
//!
//! The buffer decouples a producer running at network cadence from a
//! consumer running at hardware cadence: `push` never blocks (the oldest
//! element is evicted once the capacity is reached), and `pop` yields a
//! default element without consuming anything until at least `min_fill`
//! elements have accumulated.

use std::collections::VecDeque;
use vstd::prelude::*;

verus! {

/// Abstract effect of one `push` on the buffered sequence: once `cap`
/// elements are present the oldest is evicted, then the item is appended.
pub open spec fn spec_push<T>(s: Seq<T>, cap: usize, item: T) -> Seq<T> {
    if s.len() >= cap && s.len() > 0 {
        s.drop_first().push(item)
    } else {
        s.push(item)
    }
}

/// Abstract effect of pushing each element of `items` in order.
pub open spec fn spec_push_all<T>(s: Seq<T>, cap: usize, items: Seq<T>) -> Seq<T>
    decreases items.len(),
{
    if items.len() == 0 {
        s
    } else {
        spec_push_all(spec_push(s, cap, items.first()), cap, items.drop_first())
    }
}

/// Abstract effect of one `pop` on the buffered sequence: an element is
/// removed only when the threshold is met and something is buffered.
pub open spec fn spec_pop<T>(s: Seq<T>, min_fill: usize) -> Seq<T> {
    if s.len() >= min_fill && s.len() > 0 {
        s.drop_first()
    } else {
        s
    }
}

/// Abstract effect of `n` consecutive `pop`s on the buffered sequence.
pub open spec fn spec_pop_n<T>(s: Seq<T>, min_fill: usize, n: nat) -> Seq<T>
    decreases n,
{
    if n == 0 {
        s
    } else {
        spec_pop_n(spec_pop(s, min_fill), min_fill, (n - 1) as nat)
    }
}

/// Bounded FIFO buffer holding at most `max_size` elements, whose `pop`
/// returns a default element until `min_fill` elements are buffered.
pub struct RingBuffer<T> {
    items: VecDeque<T>,
    max_size: usize,
    min_fill: usize,
}

impl<T> View for RingBuffer<T> {
    type V = Seq<T>;

    closed spec fn view(&self) -> Seq<T> {
        self.items@
    }
}

impl<T: Default> RingBuffer<T> {
    /// Capacity: the buffered sequence never grows beyond this bound
    /// (except that a capacity of zero still admits one element, since a
    /// push evicts at most one).
    pub closed spec fn capacity(&self) -> usize {
        self.max_size
    }

    /// Minimum fill: `pop` yields real content only at or above this level.
    pub closed spec fn threshold(&self) -> usize {
        self.min_fill
    }

    pub open spec fn wf(&self) -> bool {
        self@.len() <= self.capacity() || self@.len() == 1
    }

    #[must_use]
    pub fn new(max_size: usize, min_fill: usize) -> (buffer: Self)
        ensures
            buffer@ == Seq::<T>::empty(),
            buffer.capacity() == max_size,
            buffer.threshold() == min_fill,
            buffer.wf(),
    {
        Self { items: VecDeque::new(), max_size, min_fill }
    }

    pub fn push(&mut self, sample: T)
        ensures
            final(self)@ == spec_push(old(self)@, old(self).capacity(), sample),
            final(self).capacity() == old(self).capacity(),
            final(self).threshold() == old(self).threshold(),
            old(self).wf() ==> final(self).wf(),
    {
        if self.items.len() >= self.max_size {
            self.items.pop_front();
        }
        self.items.push_back(sample);
    }

    pub fn pop(&mut self) -> (sample: T)
        ensures
            final(self)@ == spec_pop(old(self)@, old(self).threshold()),
            final(self).capacity() == old(self).capacity(),
            final(self).threshold() == old(self).threshold(),
            old(self).wf() ==> final(self).wf(),
            old(self)@.len() >= old(self).threshold() && old(self)@.len() > 0 ==> sample
                == old(self)@.first(),
            old(self)@.len() < old(self).threshold() || old(self)@.len() == 0 ==> T::default.ensures(
                (),
                sample,
            ),
    {
        if self.items.len() >= self.min_fill {
            self.items.pop_front().unwrap_or_default()
        } else {
            T::default()
        }
    }

    #[must_use]
    pub fn len(&self) -> (n: usize)
        ensures
            n == self@.len(),
    {
        self.items.len()
    }

    #[must_use]
    pub fn is_empty(&self) -> (empty: bool)
        ensures
            empty == (self@.len() == 0),
    {
        self.items.len() == 0
    }
}

/// Pushing distributes over appending one item at the back.
pub proof fn lemma_push_all_snoc<T>(s: Seq<T>, cap: usize, items: Seq<T>, item: T)
    ensures
        spec_push_all(s, cap, items.push(item)) == spec_push(spec_push_all(s, cap, items), cap, item),
    decreases items.len(),
{
    if items.len() == 0 {
        reveal_with_fuel(spec_push_all, 2);
        assert(items.push(item).first() == item);
        assert(items.push(item).drop_first() =~= items);
    } else {
        assert(items.push(item).first() == items.first());
        assert(items.push(item).drop_first() =~= items.drop_first().push(item));
        lemma_push_all_snoc(spec_push(s, cap, items.first()), cap, items.drop_first(), item);
    }
}

/// A run of pushes keeps at most `cap` elements, and what it keeps is
/// exactly the tail of everything pushed so far, in arrival order.
pub proof fn lemma_push_all_keeps_newest<T>(s: Seq<T>, cap: usize, items: Seq<T>)
    requires
        1 <= cap,
        s.len() <= cap,
    ensures
        spec_push_all(s, cap, items) == (s + items).skip(
            if s.len() + items.len() > cap {
                s.len() + items.len() - cap
            } else {
                0
            },
        ),
    decreases items.len(),
{
    if items.len() == 0 {
        assert(spec_push_all(s, cap, items) =~= (s + items).skip(0));
    } else {
        let s1 = spec_push(s, cap, items.first());
        lemma_push_all_keeps_newest(s1, cap, items.drop_first());
        if s.len() >= cap && s.len() > 0 {
            assert(s1 + items.drop_first() =~= (s + items).skip(1));
        } else {
            assert(s1 + items.drop_first() =~= s + items);
        }
        assert(spec_push_all(s, cap, items) =~= (s + items).skip(
            if s.len() + items.len() > cap {
                s.len() + items.len() - cap
            } else {
                0
            },
        ));
    }
}

/// Law: when `max_size + k` items (k >= 1) are pushed into a fresh buffer
/// of capacity `max_size >= 1`, exactly the last `max_size` of them remain,
/// in FIFO order.
pub proof fn lemma_overfill_keeps_last_capacity<T>(cap: usize, items: Seq<T>)
    requires
        1 <= cap,
        items.len() > cap,
    ensures
        spec_push_all(Seq::<T>::empty(), cap, items) == items.skip(items.len() - cap),
{
    lemma_push_all_keeps_newest(Seq::<T>::empty(), cap, items);
    assert((Seq::<T>::empty() + items) =~= items);
}

/// Law: while fewer than `min_fill` elements are buffered, any number of
/// pops leaves the buffer exactly as it was.
pub proof fn lemma_pop_below_threshold_consumes_nothing<T>(s: Seq<T>, min_fill: usize, n: nat)
    requires
        s.len() < min_fill,
    ensures
        spec_pop_n(s, min_fill, n) == s,
    decreases n,
{
    if n > 0 {
        lemma_pop_below_threshold_consumes_nothing(s, min_fill, (n - 1) as nat);
    }
}

/// Law: once the threshold is reached, `n` consecutive pops deliver the oldest
/// `n` elements in FIFO order, as long as the threshold keeps being met.
pub proof fn lemma_pop_above_threshold_is_fifo<T>(s: Seq<T>, min_fill: usize, n: nat)
    requires
        n + min_fill <= s.len(),
    ensures
        spec_pop_n(s, min_fill, n) == s.skip(n as int),
    decreases n,
{
    if n > 0 {
        lemma_pop_above_threshold_is_fifo(s.drop_first(), min_fill, (n - 1) as nat);
        assert(s.drop_first().skip(n as int - 1) =~= s.skip(n as int));
    }
}

} // verus!
