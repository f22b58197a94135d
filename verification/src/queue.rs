//! A first-in first-out queue: the carrier of the postfix expression, which
//! is produced once and drained once, front to back.

use vstd::prelude::*;

verus! {

/// A FIFO queue over a vector.
#[derive(Debug)]
pub struct Queue<T> {
    pub queue: Vec<T>,
}

impl<T> View for Queue<T> {
    type V = Seq<T>;

    open spec fn view(&self) -> Seq<T> {
        self.queue@
    }
}

impl<T> Queue<T> {
    /// The empty queue.
    pub fn new() -> (q: Self)
        ensures
            q@ == Seq::<T>::empty(),
    {
        Queue { queue: Vec::new() }
    }

    /// Appends an element at the back.
    pub fn enqueue(&mut self, item: T)
        ensures
            final(self)@ == old(self)@.push(item),
    {
        self.queue.push(item)
    }

    /// Removes and returns the front element, or `None` on the empty
    /// queue.
    pub fn dequeue(&mut self) -> (r: Option<T>)
        ensures
            old(self)@.len() == 0 ==> r is None && final(self)@ == old(self)@,
            old(self)@.len() > 0 ==> r == Some(old(self)@[0]) && final(self)@ == old(
                self,
            )@.drop_first(),
    {
        if !self.queue.is_empty() {
            Some(self.queue.remove(0))
        } else {
            None
        }
    }

    /// `true` on the empty queue.
    pub fn is_empty(&self) -> (b: bool)
        ensures
            b == (self@.len() == 0),
    {
        self.queue.is_empty()
    }
}

} // verus!
