//! A singly linked list: append at the tail, pop at the head, read and
//! delete by index.
//!
//! Entries are kept in a growable buffer whose order is the list order, so
//! the model of a list is the sequence of its values.  An out-of-range
//! delete is reported through [`LinkedListError`] rather than by panicking.
//! The [`Node`] and [`NodeRef`] types are the one-step building blocks for
//! hand-made chains; the list keeps its own storage.

use crate::traits::Duplicable;
use vstd::prelude::*;

verus! {

/// The errors a list operation can report.
#[derive(Debug)]
pub enum LinkedListError {
    /// An index at or past the end of the list was given.
    IndexOutOfRangeError,
}

/// An owned handle on a [`Node`].
pub struct NodeRef<T>(pub Box<Node<T>>);

impl<T> NodeRef<T> {
    /// Wraps `v` in an owned handle.
    pub fn new(v: Node<T>) -> (r: NodeRef<T>)
        ensures
            *r.0 == v,
    {
        NodeRef(Box::new(v))
    }

    /// Unwraps the handle and hands the node's value back.
    pub fn extract_value(self) -> (r: T)
        ensures
            r == self.0.value,
    {
        let node = *self.0;
        node.value
    }
}

/// One link of a hand-made chain: a value and an optional owned successor.
pub struct Node<T> {
    pub value: T,
    pub next: Option<NodeRef<T>>,
}

impl<T> Node<T> {
    /// A fresh node holding `value`, with no successor.
    pub fn new(value: T) -> (r: Node<T>)
        ensures
            r.value == value,
            r.next is None,
    {
        Node { value, next: None }
    }

    /// Replaces this node's successor.
    pub fn set_next(&mut self, next: Option<NodeRef<T>>)
        ensures
            final(self).value == old(self).value,
            final(self).next == next,
    {
        self.next = next;
    }
}

/// A list of values in insertion order: `push` appends at the tail, `pop`
/// removes at the head, `get` and `delete` address values by index.
pub struct LinkedList<T> {
    elems: Vec<T>,
    /// The number of values held; always equal to the model's length.
    pub size: u32,
}

impl<T> View for LinkedList<T> {
    type V = Seq<T>;

    closed spec fn view(&self) -> Seq<T> {
        self.elems@
    }
}

impl<T> LinkedList<T> {
    /// The structural invariant: the public counter agrees with the storage.
    pub closed spec fn wf(&self) -> bool {
        self.size == self@.len()
    }
}

impl<T> Default for LinkedList<T> {
    /// The empty list.
    fn default() -> (r: Self)
        ensures
            r@ == Seq::<T>::empty(),
            r.wf(),
    {
        LinkedList { elems: Vec::new(), size: 0 }
    }
}

impl<T: Duplicable> LinkedList<T> {
    /// The number of values held.
    pub fn len(&self) -> (r: u32)
        requires
            self.wf(),
        ensures
            r == self@.len(),
    {
        self.size
    }

    /// Appends `v` at the tail of the list.
    pub fn push(&mut self, v: T)
        requires
            old(self).wf(),
            old(self)@.len() < u32::MAX,
        ensures
            final(self).wf(),
            final(self)@ == old(self)@.push(v),
    {
        self.elems.push(v);
        self.size = self.size + 1;
    }

    /// Removes the value at the head and returns it; `None` on an empty
    /// list.
    pub fn pop(&mut self) -> (r: Option<T>)
        requires
            old(self).wf(),
        ensures
            final(self).wf(),
            old(self)@.len() == 0 ==> r is None && final(self)@ == old(self)@,
            old(self)@.len() > 0 ==> r == Some(old(self)@.first()) && final(self)@ == old(
                self,
            )@.skip(1),
    {
        if self.elems.len() == 0 {
            None
        } else {
            let v = self.elems.remove(0);
            self.size = self.size - 1;
            assert(final(self)@ =~= old(self)@.skip(1));
            Some(v)
        }
    }

    /// Whether the list holds no values.
    pub fn is_empty(&self) -> (r: bool)
        requires
            self.wf(),
        ensures
            r == (self@.len() == 0),
    {
        self.size == 0
    }

    /// The value at `index`, or `None` past the end of the list.
    pub fn get(&self, index: usize) -> (r: Option<T>)
        requires
            self.wf(),
        ensures
            r == if index < self@.len() {
                Some(self@[index as int])
            } else {
                None::<T>
            },
    {
        if index < self.elems.len() {
            Some(self.elems[index].duplicate())
        } else {
            None
        }
    }

    /// The value at the head, or `None` on an empty list.
    pub fn head(&self) -> (r: Option<T>)
        requires
            self.wf(),
        ensures
            r == if self@.len() > 0 {
                Some(self@.first())
            } else {
                None::<T>
            },
    {
        if self.elems.len() > 0 {
            Some(self.elems[0].duplicate())
        } else {
            None
        }
    }

    /// The value at the tail, or `None` on an empty list.
    pub fn tail(&self) -> (r: Option<T>)
        requires
            self.wf(),
        ensures
            r == if self@.len() > 0 {
                Some(self@.last())
            } else {
                None::<T>
            },
    {
        if self.elems.len() > 0 {
            let i: usize = self.elems.len() - 1;
            Some(self.elems[i].duplicate())
        } else {
            None
        }
    }

    /// Removes the value at `index`.  An index at or past the end leaves
    /// the list unchanged and reports `IndexOutOfRangeError`.
    pub fn delete(&mut self, index: u32) -> (r: Result<(), LinkedListError>)
        requires
            old(self).wf(),
            old(self)@.len() > 0,
        ensures
            final(self).wf(),
            index < old(self)@.len() ==> r is Ok && final(self)@ == old(self)@.remove(
                index as int,
            ),
            index >= old(self)@.len() ==> r is Err && final(self)@ == old(self)@,
    {
        if index > self.size - 1 {
            return Err(LinkedListError::IndexOutOfRangeError);
        }
        self.elems.remove(index as usize);
        self.size = self.size - 1;
        Ok(())
    }

    /// Starts an iterator over the list, borrowing it.
    pub fn into_iter(&self) -> (r: LinkedListIterator<'_, T>)
        requires
            self.wf(),
        ensures
            r.wf(),
            r.items() == self@,
            r.pos() == 0,
    {
        LinkedListIterator { list: self, index: 0 }
    }
}

/// A cursor over a borrowed [`LinkedList`], yielding its values from the
/// head onward.
pub struct LinkedListIterator<'a, T> {
    list: &'a LinkedList<T>,
    index: usize,
}

impl<'a, T: Duplicable> LinkedListIterator<'a, T> {
    /// The sequence this cursor walks.
    pub closed spec fn items(&self) -> Seq<T> {
        self.list@
    }

    /// How many values have been yielded so far.
    pub closed spec fn pos(&self) -> int {
        self.index as int
    }

    /// The cursor's invariant: the borrowed list is well formed.
    pub closed spec fn wf(&self) -> bool {
        self.list.wf()
    }

    /// The next value from the head onward, or `None` once the list is
    /// exhausted.
    pub fn next(&mut self) -> (r: Option<T>)
        requires
            old(self).wf(),
        ensures
            final(self).wf(),
            final(self).items() == old(self).items(),
            old(self).pos() < old(self).items().len() ==> r == Some(
                old(self).items()[old(self).pos()],
            ) && final(self).pos() == old(self).pos() + 1,
            old(self).pos() >= old(self).items().len() ==> r is None && final(self).pos() == old(
                self,
            ).pos(),
    {
        let result = self.list.get(self.index);
        if result.is_some() {
            self.index = self.index + 1;
        }
        result
    }
}

} // verus!
