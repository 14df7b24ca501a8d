//! A minimal singly linked list: append at the tail, read the two ends.
//!
//! Entries are kept in a growable buffer whose order is the list order, so
//! the model of a list is simply the sequence of its values.  The [`Node`]
//! type is the one-step building block for hand-made chains; the list keeps
//! its own storage.

use crate::traits::Duplicable;
use vstd::prelude::*;

verus! {

/// One link of a hand-made chain: a value and an optional owned successor.
pub struct Node<T> {
    pub value: T,
    pub next: Option<Box<Node<T>>>,
}

impl<T> Node<T> {
    /// A fresh node holding `value`, with no successor.
    pub fn new(value: T) -> (r: Node<T>)
        ensures
            r.value == value,
            r.next is None,
    {
        Node { value, next: None }
    }

    /// Replaces this node's successor.
    pub fn set_next(&mut self, next: Option<Box<Node<T>>>)
        ensures
            final(self).value == old(self).value,
            final(self).next == next,
    {
        self.next = next;
    }
}

/// A list of values in insertion order: `push` appends at the tail, `head`
/// and `tail` read the two ends.
pub struct LinkedList<T> {
    elems: Vec<T>,
    /// The number of values held; always equal to the model's length.
    pub size: u32,
}

impl<T> View for LinkedList<T> {
    type V = Seq<T>;

    closed spec fn view(&self) -> Seq<T> {
        self.elems@
    }
}

impl<T> LinkedList<T> {
    /// The structural invariant: the public counter agrees with the storage.
    pub closed spec fn wf(&self) -> bool {
        self.size == self@.len()
    }
}

impl<T> Default for LinkedList<T> {
    /// The empty list.
    fn default() -> (r: Self)
        ensures
            r@ == Seq::<T>::empty(),
            r.wf(),
    {
        LinkedList { elems: Vec::new(), size: 0 }
    }
}

impl<T: Duplicable> LinkedList<T> {
    /// The number of values held: what the public `size` counter reads.
    pub fn len(&self) -> (r: u32)
        requires
            self.wf(),
        ensures
            r == self@.len(),
    {
        self.size
    }

    /// Appends `v` at the tail of the list.
    pub fn push(&mut self, v: T)
        requires
            old(self).wf(),
            old(self)@.len() < u32::MAX,
        ensures
            final(self).wf(),
            final(self)@ == old(self)@.push(v),
    {
        self.elems.push(v);
        self.size = self.size + 1;
    }

    /// Whether the list holds no values.
    fn is_empty(&self) -> (r: bool)
        requires
            self.wf(),
        ensures
            r == (self@.len() == 0),
    {
        self.size == 0
    }

    /// Whether the list holds exactly one value.
    fn only_head(&self) -> (r: bool)
        requires
            self.wf(),
        ensures
            r == (self@.len() == 1),
    {
        self.size == 1
    }

    /// The value at the tail, the most recently pushed one.
    pub fn tail(&self) -> (r: T)
        requires
            self.wf(),
            self@.len() > 0,
        ensures
            r == self@.last(),
    {
        let i: usize = self.elems.len() - 1;
        self.elems[i].duplicate()
    }

    /// The value at the head, the first one pushed.
    pub fn head(&self) -> (r: T)
        requires
            self.wf(),
            self@.len() > 0,
        ensures
            r == self@.first(),
    {
        self.elems[0].duplicate()
    }
}

} // verus!
