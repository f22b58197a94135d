//! A last-in first-out stack: the converter's operator store and the
//! evaluator's value store.

use vstd::prelude::*;

verus! {

/// A LIFO stack over a vector; the last element of the view is the top.
#[derive(Debug)]
pub struct Stack<T> {
    pub stack: Vec<T>,
}

impl<T> View for Stack<T> {
    type V = Seq<T>;

    open spec fn view(&self) -> Seq<T> {
        self.stack@
    }
}

impl<T> Stack<T> {
    /// The empty stack.
    pub fn new() -> (s: Self)
        ensures
            s@ == Seq::<T>::empty(),
    {
        Stack { stack: Vec::new() }
    }

    /// Removes and returns the top element, or `None` on the empty stack.
    pub fn pop(&mut self) -> (r: Option<T>)
        ensures
            old(self)@.len() == 0 ==> r is None && final(self)@ == old(self)@,
            old(self)@.len() > 0 ==> r == Some(old(self)@.last()) && final(self)@ == old(
                self,
            )@.drop_last(),
    {
        self.stack.pop()
    }

    /// Places an element on top.
    pub fn push(&mut self, item: T)
        ensures
            final(self)@ == old(self)@.push(item),
    {
        self.stack.push(item)
    }

    /// `true` on the empty stack.
    pub fn is_empty(&self) -> (b: bool)
        ensures
            b == (self@.len() == 0),
    {
        self.stack.is_empty()
    }

    /// The top element without removing it, or `None` on the empty stack.
    pub fn peek(&self) -> (r: Option<&T>)
        ensures
            self@.len() == 0 ==> r is None,
            self@.len() > 0 ==> (r matches Some(t) && *t == self@.last()),
    {
        self.stack.last()
    }
}

} // verus!
