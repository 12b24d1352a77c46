//! A first-in first-out buffer that makes room for a new element by giving up its oldest one.

use std::collections::VecDeque;
use vstd::prelude::*;
use vstd::std_specs::cmp::PartialEqSpec;

verus! {

broadcast use vstd::std_specs::vecdeque::group_vec_dequeue_axioms;

/// What inserting `e` makes of the contents `s` of a buffer of the given size: a full buffer
/// loses its oldest element first.
pub open spec fn ring_insert<T>(s: Seq<T>, size: nat, e: T) -> Seq<T> {
    if s.len() == size && s.len() > 0 {
        s.drop_first().push(e)
    } else {
        s.push(e)
    }
}

/// The contents after the elements of `added` were inserted one after the other.
pub open spec fn ring_insert_all<T>(s: Seq<T>, size: nat, added: Seq<T>) -> Seq<T>
    decreases added.len(),
{
    if added.len() == 0 {
        s
    } else {
        ring_insert(ring_insert_all(s, size, added.drop_last()), size, added.last())
    }
}

/// What is left of the contents `s` once the oldest element, if there is one, was taken out.
pub open spec fn ring_pop<T>(s: Seq<T>) -> Seq<T> {
    if s.len() > 0 {
        s.drop_first()
    } else {
        s
    }
}

/// What is left of the contents `s` after `n` elements were asked for.
pub open spec fn ring_pop_n<T>(s: Seq<T>, n: nat) -> Seq<T>
    decreases n,
{
    if n == 0 {
        s
    } else {
        ring_pop(ring_pop_n(s, (n - 1) as nat))
    }
}

/// The last `n` elements of `s`, or all of them where there are no more.
pub open spec fn last_n<T>(s: Seq<T>, n: nat) -> Seq<T> {
    if s.len() <= n {
        s
    } else {
        s.skip(s.len() - n)
    }
}

#[derive(Debug)]
pub struct RingBuffer<T> {
    buff: VecDeque<T>,
    size: usize,
}

/// The elements, the oldest first.
impl<T> View for RingBuffer<T> {
    type V = Seq<T>;

    closed spec fn view(&self) -> Seq<T> {
        self.buff@
    }
}

impl<T> RingBuffer<T> {
    /// The size that the buffer was made with.
    pub closed spec fn size(&self) -> nat {
        self.size as nat
    }

    /// A buffer of a positive size never holds more elements than that. A buffer of size zero
    /// counts as full only while it is empty, so it grows with every insertion.
    pub open spec fn wf(&self) -> bool {
        self.size() > 0 ==> self@.len() <= self.size()
    }

    /// An empty buffer that becomes full at `size` elements.
    #[inline]
    pub fn with_capacity(size: usize) -> (rb: Self)
        ensures
            rb@ == Seq::<T>::empty(),
            rb.size() == size,
            rb.wf(),
    {
        Self {
            buff: if size < 0x400 {
                VecDeque::with_capacity(size)
            } else {
                VecDeque::new()
            },
            size,
        }
    }

    /// Appends `e`; a full buffer loses its oldest element, which is handed back.
    #[inline]
    pub fn insert(&mut self, e: T) -> (evicted: Option<T>)
        ensures
            final(self)@ == ring_insert(old(self)@, old(self).size(), e),
            final(self).size() == old(self).size(),
            evicted == if old(self)@.len() == old(self).size() && old(self)@.len() > 0 {
                Some(old(self)@.first())
            } else {
                None
            },
            old(self).wf() ==> final(self).wf(),
            ({
                let before = old(self)@;
                let after = final(self)@;
                let gone: int = if before.len() > 0 && before.len() == old(self).size() {
                    1
                } else {
                    0
                };
                &&& after.len() == before.len() - gone + 1
                &&& after[after.len() - 1] == e
                &&& forall|i: int|
                    0 <= i < before.len() - gone ==> #[trigger] after[i] == before[i + gone]
            }),
    {
        let mut ret: Option<T> = None;
        if self.is_full() {
            ret = self.buff.pop_front();
        }
        self.buff.push_back(e);
        ret
    }

    /// Takes out the oldest element, if there is one.
    #[inline]
    pub fn pop(&mut self) -> (oldest: Option<T>)
        ensures
            oldest == if old(self)@.len() > 0 {
                Some(old(self)@.first())
            } else {
                None
            },
            final(self)@ == ring_pop(old(self)@),
            final(self).size() == old(self).size(),
            old(self).wf() ==> final(self).wf(),
            old(self)@.len() == 0 ==> final(self)@.len() == 0,
            old(self)@.len() > 0 ==> {
                &&& final(self)@.len() == old(self)@.len() - 1
                &&& forall|i: int|
                    0 <= i < final(self)@.len() ==> #[trigger] final(self)@[i] == old(self)@[i + 1]
            },
    {
        self.buff.pop_front()
    }

    #[inline]
    pub fn is_empty(&self) -> (empty: bool)
        ensures
            empty == (self@.len() == 0),
    {
        self.buff.len() == 0
    }

    #[inline]
    pub fn is_full(&self) -> (full: bool)
        ensures
            full == (self@.len() == self.size()),
    {
        self.buff.len() == self.size
    }
}

impl<T: PartialEq> RingBuffer<T> {
    /// Whether an element of the buffer equals `e`, in the sense of the elements' own `eq`.
    pub fn contains(&self, e: &T) -> (found: bool)
        ensures
            found ==> exists|i: int|
                0 <= i < self@.len() && call_ensures(T::eq, (&#[trigger] self@[i], e), true),
            !found ==> forall|i: int|
                0 <= i < self@.len() ==> call_ensures(T::eq, (&#[trigger] self@[i], e), false),
            T::obeys_eq_spec() ==> found == exists|i: int|
                0 <= i < self@.len() && (#[trigger] self@[i]).eq_spec(e),
    {
        let mut i: usize = 0;
        while i < self.buff.len()
            invariant
                i <= self@.len(),
                self.buff@ == self@,
                forall|j: int|
                    0 <= j < i ==> call_ensures(T::eq, (&#[trigger] self@[j], e), false),
                T::obeys_eq_spec() ==> forall|j: int|
                    0 <= j < i ==> !(#[trigger] self@[j]).eq_spec(e),
            decreases self@.len() - i,
        {
            let equal: bool = T::eq(&self.buff[i], e);
            assert(call_ensures(T::eq, (&self@[i as int], e), equal));
            if equal {
                return true;
            }
            i = i + 1;
        }
        false
    }
}

/// A buffer of a positive size is well-formed exactly while it keeps to its size; one of size zero
/// always is.
pub proof fn law_a_buffer_keeps_to_its_size<T>(buffer: RingBuffer<T>)
    ensures
        buffer.size() == 0 ==> buffer.wf(),
        buffer.size() > 0 ==> (buffer.wf() <==> buffer@.len() <= buffer.size()),
{
}

/// Whatever is inserted, a buffer of a positive size holds the last `size` of all the elements
/// that it held or was given, in the order in which they came; a buffer of size zero holds all
/// of them.
pub proof fn law_ring_keeps_the_last<T>(s: Seq<T>, size: nat, added: Seq<T>)
    requires
        size > 0 ==> s.len() <= size,
    ensures
        size > 0 ==> ring_insert_all(s, size, added) == last_n(s + added, size),
        size == 0 ==> ring_insert_all(s, size, added) == s + added,
    decreases added.len(),
{
    if added.len() == 0 {
        assert(s + added == s);
    } else {
        let before = added.drop_last();
        law_ring_keeps_the_last(s, size, before);
        assert(s + added == (s + before).push(added.last()));
        let held = ring_insert_all(s, size, before);
        if size > 0 && held.len() == size {
            assert(held.drop_first().push(added.last()) == last_n(s + added, size));
        }
    }
}

/// The elements come out in the order in which they lie in the buffer: of a buffer that holds
/// `s`, the request after `n` others yields the element with index `n`, and nothing once the
/// buffer is used up.
pub proof fn law_ring_is_first_in_first_out<T>(s: Seq<T>, n: nat)
    ensures
        n < s.len() ==> ring_pop_n(s, n).len() > 0 && ring_pop_n(s, n).first() == s[n as int],
        n >= s.len() ==> ring_pop_n(s, n).len() == 0,
        ring_pop_n(s, n) == if n < s.len() {
            s.skip(n as int)
        } else {
            Seq::<T>::empty()
        },
    decreases n,
{
    if n > 0 {
        law_ring_is_first_in_first_out(s, (n - 1) as nat);
        assert(ring_pop_n(s, n) == if n < s.len() {
            s.skip(n as int)
        } else {
            Seq::<T>::empty()
        });
    }
}

/// An insertion puts the new element last and keeps the others in their order; the oldest of them
/// leaves exactly if the buffer was full, and not empty.
pub proof fn law_an_insertion_costs_at_most_the_oldest<T>(s: Seq<T>, size: nat, e: T)
    ensures
        ({
            let after = ring_insert(s, size, e);
            &&& s.len() > 0 && s.len() == size ==> {
                &&& after.len() == s.len()
                &&& forall|i: int| 0 <= i < s.len() - 1 ==> #[trigger] after[i] == s[i + 1]
            }
            &&& s.len() == 0 || s.len() != size ==> {
                &&& after.len() == s.len() + 1
                &&& forall|i: int| 0 <= i < s.len() ==> #[trigger] after[i] == s[i]
            }
            &&& after[after.len() - 1] == e
        }),
{
}

/// However many elements are inserted into a buffer of a positive size, it holds as many of all
/// the elements as fit, they are the latest, and they lie in the order in which they came. A
/// buffer of size zero holds them all.
pub proof fn law_a_buffer_holds_the_latest<T>(s: Seq<T>, size: nat, added: Seq<T>)
    requires
        size > 0 ==> s.len() <= size,
    ensures
        ({
            let held = ring_insert_all(s, size, added);
            let total = s.len() + added.len();
            &&& held.len() == if size > 0 && total > size {
                size
            } else {
                total
            }
            &&& forall|i: int|
                0 <= i < held.len() ==> #[trigger] held[i] == {
                    let k = total - held.len() + i;
                    if k < s.len() {
                        s[k]
                    } else {
                        added[k - s.len()]
                    }
                }
        }),
{
    law_ring_keeps_the_last(s, size, added);
}

/// Taking out the oldest element leaves the others in their order.
pub proof fn law_taking_out_leaves_the_others<T>(s: Seq<T>)
    ensures
        s.len() == 0 ==> ring_pop(s).len() == 0,
        s.len() > 0 ==> {
            &&& ring_pop(s).len() == s.len() - 1
            &&& forall|i: int| 0 <= i < s.len() - 1 ==> #[trigger] ring_pop(s)[i] == s[i + 1]
        },
{
}

/// The last `n` elements are as many as there are, up to `n`, and end where the sequence ends.
pub proof fn law_the_last_end_the_sequence<T>(s: Seq<T>, n: nat)
    ensures
        last_n(s, n).len() == if s.len() <= n {
            s.len()
        } else {
            n
        },
        forall|i: int|
            0 <= i < last_n(s, n).len() ==> #[trigger] last_n(s, n)[i] == s[s.len() - last_n(
                s,
                n,
            ).len() + i],
{
}

} // verus!
