//! The fixed ring buffer with the interface of a queue: `try_` pushes that
//! report a full buffer, pushes that the caller guarantees to fit, and pops
//! that return `None` on an empty buffer.
use vstd::prelude::*;

use crate::marker::{IsPowerOfTwo, True};
use crate::ring_buffer;
pub use crate::ring_buffer::OutOfSpaceError;

verus! {

pub struct FixedRingBuffer<T, const C: usize> where IsPowerOfTwo<C>: True {
    inner: ring_buffer::FixedRingBuffer<T, C>,
}

impl<T, const C: usize> View for FixedRingBuffer<T, C> where IsPowerOfTwo<C>: True {
    type V = Seq<T>;

    /// The items, front first.
    closed spec fn view(&self) -> Seq<T> {
        self.inner@
    }
}

impl<T, const C: usize> FixedRingBuffer<T, C> where IsPowerOfTwo<C>: True {
    pub closed spec fn wf(&self) -> bool {
        self.inner.wf()
    }

    /// An empty buffer.
    pub fn new() -> (r: Self)
        ensures
            r.wf(),
            r@ == Seq::<T>::empty(),
    {
        FixedRingBuffer { inner: ring_buffer::FixedRingBuffer::new() }
    }

    /// A buffer never holds more than its capacity.
    pub proof fn lemma_within_capacity(&self)
        requires
            self.wf(),
        ensures
            self@.len() <= C,
    {
        self.inner.lemma_within_capacity();
    }

    pub fn len(&self) -> (r: usize)
        requires
            self.wf(),
        ensures
            r == self@.len(),
            r <= C,
    {
        self.inner.len()
    }

    pub fn is_empty(&self) -> (r: bool)
        requires
            self.wf(),
        ensures
            r == (self@.len() == 0),
    {
        self.inner.is_empty()
    }

    /// Puts `val` in front, unless the buffer is full; a full buffer is left
    /// as it was and `val` is dropped.
    pub fn try_push_front(&mut self, val: T) -> (r: Result<(), OutOfSpaceError>)
        requires
            old(self).wf(),
        ensures
            final(self).wf(),
            old(self)@.len() >= C ==> r is Err && final(self)@ == old(self)@,
            old(self)@.len() < C ==> r is Ok && final(self)@ == seq![val] + old(self)@,
    {
        self.inner.push_front(val)
    }

    /// Puts `val` in front of a buffer that is not full.
    pub fn push_front(&mut self, val: T)
        requires
            old(self).wf(),
            old(self)@.len() < C,
        ensures
            final(self).wf(),
            final(self)@ == seq![val] + old(self)@,
    {
        let _ = self.inner.push_front(val);
    }

    /// Takes the front item, if any.
    pub fn pop_front(&mut self) -> (r: Option<T>)
        requires
            old(self).wf(),
        ensures
            final(self).wf(),
            old(self)@.len() == 0 ==> r is None && final(self)@ == old(self)@,
            old(self)@.len() > 0 ==> r == Some(old(self)@[0]) && final(self)@
                == old(self)@.drop_first(),
    {
        match self.inner.pop_front() {
            Ok(v) => Some(v),
            Err(_) => None,
        }
    }

    /// Puts `val` at the back, unless the buffer is full; a full buffer is
    /// left as it was and `val` is dropped.
    pub fn try_push_back(&mut self, val: T) -> (r: Result<(), OutOfSpaceError>)
        requires
            old(self).wf(),
        ensures
            final(self).wf(),
            old(self)@.len() >= C ==> r is Err && final(self)@ == old(self)@,
            old(self)@.len() < C ==> r is Ok && final(self)@ == old(self)@.push(val),
    {
        self.inner.push_back(val)
    }

    /// Puts `val` at the back of a buffer that is not full.
    pub fn push_back(&mut self, val: T)
        requires
            old(self).wf(),
            old(self)@.len() < C,
        ensures
            final(self).wf(),
            final(self)@ == old(self)@.push(val),
    {
        let _ = self.inner.push_back(val);
    }

    /// Takes the back item, if any.
    pub fn pop_back(&mut self) -> (r: Option<T>)
        requires
            old(self).wf(),
        ensures
            final(self).wf(),
            old(self)@.len() == 0 ==> r is None && final(self)@ == old(self)@,
            old(self)@.len() > 0 ==> r == Some(old(self)@.last()) && final(self)@
                == old(self)@.drop_last(),
    {
        match self.inner.pop_back() {
            Ok(v) => Some(v),
            Err(_) => None,
        }
    }
}

} // verus!
