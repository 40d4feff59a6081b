//! A double-ended queue of fixed capacity `C`, stored in place. Pushing onto
//! a full buffer fails and leaves it unchanged: the caller decides whether
//! the item is dropped.
use vstd::prelude::*;

use crate::marker::{IsPowerOfTwo, True};

verus! {

/// Returned by a push onto a full buffer.
#[derive(Clone, Copy, Debug, PartialEq, Eq, Structural)]
pub struct OutOfSpaceError;

/// Returned by a pop from an empty buffer.
#[derive(Clone, Copy, Debug, PartialEq, Eq, Structural)]
pub struct OutOfElementError;

/// The slot that holds item `i` of a buffer of capacity `c` whose first item
/// is at `head`.
pub open spec fn slot(head: int, i: int, c: int) -> int {
    if head + i < c {
        head + i
    } else {
        head + i - c
    }
}

pub struct FixedRingBuffer<T, const C: usize> where IsPowerOfTwo<C>: True {
    head: usize,
    len: usize,
    buffer: Vec<Option<T>>,
}

impl<T, const C: usize> View for FixedRingBuffer<T, C> where IsPowerOfTwo<C>: True {
    type V = Seq<T>;

    /// The items, front first.
    closed spec fn view(&self) -> Seq<T> {
        Seq::new(
            self.len as nat,
            |i: int| self.buffer@[slot(self.head as int, i, C as int)]->Some_0,
        )
    }
}

impl<T, const C: usize> FixedRingBuffer<T, C> where IsPowerOfTwo<C>: True {
    pub closed spec fn wf(&self) -> bool {
        &&& self.buffer@.len() == C
        &&& self.len <= C
        &&& (self.head < C || (C == 0 && self.head == 0))
        &&& forall|i: int|
            0 <= i < self.len ==> #[trigger] self.buffer@[slot(self.head as int, i, C as int)] is Some
    }

    /// An empty buffer.
    pub fn new() -> (r: Self)
        ensures
            r.wf(),
            r@ == Seq::<T>::empty(),
    {
        let mut buffer: Vec<Option<T>> = Vec::new();
        let mut i: usize = 0;
        while i < C
            invariant
                i <= C,
                buffer@.len() == i,
            decreases C - i,
        {
            buffer.push(None);
            i = i + 1;
        }
        let r = FixedRingBuffer { head: 0, len: 0, buffer };
        assert(r@ =~= Seq::<T>::empty());
        r
    }

    /// A buffer never holds more than its capacity.
    pub proof fn lemma_within_capacity(&self)
        requires
            self.wf(),
        ensures
            self@.len() <= C,
    {
    }

    pub fn len(&self) -> (r: usize)
        requires
            self.wf(),
        ensures
            r == self@.len(),
            r <= C,
    {
        self.len
    }

    pub fn is_empty(&self) -> (r: bool)
        requires
            self.wf(),
        ensures
            r == (self@.len() == 0),
    {
        self.len == 0
    }

    /// Puts `val` in front, unless the buffer is full.
    pub fn push_front(&mut self, val: T) -> (r: Result<(), OutOfSpaceError>)
        requires
            old(self).wf(),
        ensures
            final(self).wf(),
            old(self)@.len() >= C ==> r is Err && final(self)@ == old(self)@,
            old(self)@.len() < C ==> r is Ok && final(self)@ == seq![val] + old(self)@,
    {
        if self.len == C {
            return Err(OutOfSpaceError);
        }
        let ghost old_view = self@;
        let ghost old_head = self.head as int;
        let new_head = if self.head == 0 {
            C - 1
        } else {
            self.head - 1
        };
        self.buffer.set(new_head, Some(val));
        self.head = new_head;
        self.len = self.len + 1;
        assert forall|i: int| 0 <= i < self.len implies #[trigger] self.buffer@[slot(
            self.head as int,
            i,
            C as int,
        )] is Some by {
            if i > 0 {
                assert(slot(self.head as int, i, C as int) == slot(old_head, i - 1, C as int));
            }
        }
        assert forall|i: int| 0 <= i < self.len implies self@[i] == (seq![val] + old_view)[i] by {
            if i > 0 {
                assert(slot(self.head as int, i, C as int) == slot(old_head, i - 1, C as int));
            }
        }
        assert(self@ =~= seq![val] + old_view);
        Ok(())
    }

    /// Takes the front item, unless the buffer is empty.
    pub fn pop_front(&mut self) -> (r: Result<T, OutOfElementError>)
        requires
            old(self).wf(),
        ensures
            final(self).wf(),
            old(self)@.len() == 0 ==> r is Err && final(self)@ == old(self)@,
            old(self)@.len() > 0 ==> r == Ok::<T, OutOfElementError>(old(self)@[0])
                && final(self)@ == old(self)@.drop_first(),
    {
        if self.len == 0 {
            return Err(OutOfElementError);
        }
        let ghost old_view = self@;
        let ghost old_head = self.head as int;
        let mut taken: Option<T> = None;
        assert(self.buffer@[slot(old_head, 0, C as int)] is Some);
        self.buffer.set_and_swap(self.head, &mut taken);
        self.head = if self.head + 1 == C {
            0
        } else {
            self.head + 1
        };
        self.len = self.len - 1;
        assert forall|i: int| 0 <= i < self.len implies #[trigger] self.buffer@[slot(
            self.head as int,
            i,
            C as int,
        )] is Some by {
            assert(slot(self.head as int, i, C as int) == slot(old_head, i + 1, C as int));
        }
        assert forall|i: int| 0 <= i < self.len implies self@[i] == old_view.drop_first()[i] by {
            assert(slot(self.head as int, i, C as int) == slot(old_head, i + 1, C as int));
        }
        assert(self@ =~= old_view.drop_first());
        match taken {
            Some(v) => Ok(v),
            None => Err(OutOfElementError),
        }
    }

    /// Puts `val` at the back, unless the buffer is full.
    pub fn push_back(&mut self, val: T) -> (r: Result<(), OutOfSpaceError>)
        requires
            old(self).wf(),
        ensures
            final(self).wf(),
            old(self)@.len() >= C ==> r is Err && final(self)@ == old(self)@,
            old(self)@.len() < C ==> r is Ok && final(self)@ == old(self)@.push(val),
    {
        if self.len == C {
            return Err(OutOfSpaceError);
        }
        let ghost old_view = self@;
        let idx = if self.len < C - self.head {
            self.head + self.len
        } else {
            self.len - (C - self.head)
        };
        assert(idx == slot(self.head as int, self.len as int, C as int));
        self.buffer.set(idx, Some(val));
        self.len = self.len + 1;
        assert forall|i: int| 0 <= i < self.len implies #[trigger] self.buffer@[slot(
            self.head as int,
            i,
            C as int,
        )] is Some by {
            if i < self.len - 1 {
                assert(slot(self.head as int, i, C as int) != idx);
            }
        }
        assert forall|i: int| 0 <= i < self.len implies self@[i] == old_view.push(val)[i] by {
            if i < self.len - 1 {
                assert(slot(self.head as int, i, C as int) != idx);
            }
        }
        assert(self@ =~= old_view.push(val));
        Ok(())
    }

    /// Takes the back item, unless the buffer is empty.
    pub fn pop_back(&mut self) -> (r: Result<T, OutOfElementError>)
        requires
            old(self).wf(),
        ensures
            final(self).wf(),
            old(self)@.len() == 0 ==> r is Err && final(self)@ == old(self)@,
            old(self)@.len() > 0 ==> r == Ok::<T, OutOfElementError>(old(self)@.last())
                && final(self)@ == old(self)@.drop_last(),
    {
        if self.len == 0 {
            return Err(OutOfElementError);
        }
        let ghost old_view = self@;
        self.len = self.len - 1;
        let idx = if self.len < C - self.head {
            self.head + self.len
        } else {
            self.len - (C - self.head)
        };
        assert(idx == slot(self.head as int, self.len as int, C as int));
        assert(self.buffer@[idx as int] is Some);
        let mut taken: Option<T> = None;
        self.buffer.set_and_swap(idx, &mut taken);
        assert forall|i: int| 0 <= i < self.len implies #[trigger] self.buffer@[slot(
            self.head as int,
            i,
            C as int,
        )] is Some by {
            assert(slot(self.head as int, i, C as int) != idx);
        }
        assert forall|i: int| 0 <= i < self.len implies self@[i] == old_view.drop_last()[i] by {
            assert(slot(self.head as int, i, C as int) != idx);
        }
        assert(self@ =~= old_view.drop_last());
        match taken {
            Some(v) => Ok(v),
            None => Err(OutOfElementError),
        }
    }
}

} // verus!
