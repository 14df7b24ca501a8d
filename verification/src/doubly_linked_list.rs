//! A doubly ended list: append at the tail, pop at either end, walk it
//! forwards or backwards.
//!
//! Entries are kept in a growable buffer whose order is the list order, so
//! the model of a list is the sequence of its values.  The [`Node`] and
//! [`NodeRef`] types are the two-way building blocks for hand-made chains;
//! the list keeps its own storage.

use crate::traits::Duplicable;
use vstd::prelude::*;

verus! {

/// An owned handle on a [`Node`].
pub struct NodeRef<T>(pub Box<Node<T>>);

impl<T: Duplicable> Clone for NodeRef<T> {
    /// A copy of the handle and of the whole chain it owns.
    fn clone(&self) -> (r: Self)
        ensures
            r == *self,
        decreases *self,
    {
        NodeRef(Box::new((*self.0).clone()))
    }
}

impl<T: Duplicable> NodeRef<T> {
    /// Wraps `v` in an owned handle.
    pub fn new(v: Node<T>) -> (r: NodeRef<T>)
        ensures
            *r.0 == v,
    {
        NodeRef(Box::new(v))
    }

    /// Reads the value out of the node.
    pub fn get_value(&mut self) -> (r: T)
        ensures
            r == old(self).0.value,
            *final(self) == *old(self),
    {
        self.0.value.duplicate()
    }
}

/// One link of a hand-made chain: a value, an optional owned successor and
/// an optional owned predecessor.
pub struct Node<T> {
    pub value: T,
    pub next: Option<NodeRef<T>>,
    pub previous: Option<NodeRef<T>>,
}

impl<T: Duplicable> Clone for Node<T> {
    /// A copy of the node and of the chains it owns, equal to the original.
    fn clone(&self) -> (r: Self)
        ensures
            r == *self,
        decreases *self,
    {
        let next = match &self.next {
            None => None,
            Some(nr) => Some(nr.clone()),
        };
        let previous = match &self.previous {
            None => None,
            Some(nr) => Some(nr.clone()),
        };
        Node { value: self.value.duplicate(), next, previous }
    }
}

impl<T> Node<T> {
    /// A fresh node holding `value`, linked to nothing.
    pub fn new(value: T) -> (r: Node<T>)
        ensures
            r.value == value,
            r.next is None,
            r.previous is None,
    {
        Node { value, next: None, previous: None }
    }
}

/// A list of values in insertion order: `push` appends at the tail,
/// `pop_front` and `pop_back` remove at the two ends, `get` addresses
/// values by index.
pub struct LinkedList<T> {
    elems: Vec<T>,
    /// The number of values held; always equal to the model's length.
    pub size: u32,
}

impl<T> View for LinkedList<T> {
    type V = Seq<T>;

    closed spec fn view(&self) -> Seq<T> {
        self.elems@
    }
}

impl<T> LinkedList<T> {
    /// The structural invariant: the public counter agrees with the storage.
    pub closed spec fn wf(&self) -> bool {
        self.size == self@.len()
    }
}

impl<T> Default for LinkedList<T> {
    /// The empty list.
    fn default() -> (r: Self)
        ensures
            r@ == Seq::<T>::empty(),
            r.wf(),
    {
        LinkedList { elems: Vec::new(), size: 0 }
    }
}

impl<T: Duplicable> LinkedList<T> {
    /// The number of values held.
    pub fn len(&self) -> (r: usize)
        requires
            self.wf(),
        ensures
            r == self@.len(),
    {
        self.elems.len()
    }

    /// Appends `v` at the tail of the list.
    pub fn push(&mut self, v: T)
        requires
            old(self).wf(),
            old(self)@.len() < u32::MAX,
        ensures
            final(self).wf(),
            final(self)@ == old(self)@.push(v),
    {
        self.elems.push(v);
        self.size = self.size + 1;
    }

    /// Removes the value at the head and returns it; `None` on an empty
    /// list.
    pub fn pop_front(&mut self) -> (r: Option<T>)
        requires
            old(self).wf(),
        ensures
            final(self).wf(),
            old(self)@.len() == 0 ==> r is None && final(self)@ == old(self)@,
            old(self)@.len() > 0 ==> r == Some(old(self)@.first()) && final(self)@ == old(
                self,
            )@.skip(1),
    {
        if self.elems.len() == 0 {
            None
        } else {
            let v = self.elems.remove(0);
            self.size = self.size - 1;
            assert(self@ =~= old(self)@.skip(1));
            Some(v)
        }
    }

    /// Removes the value at the tail and returns it; `None` on an empty
    /// list.
    pub fn pop_back(&mut self) -> (r: Option<T>)
        requires
            old(self).wf(),
        ensures
            final(self).wf(),
            old(self)@.len() == 0 ==> r is None && final(self)@ == old(self)@,
            old(self)@.len() > 0 ==> r == Some(old(self)@.last()) && final(self)@ == old(
                self,
            )@.drop_last(),
    {
        match self.elems.pop() {
            None => None,
            Some(v) => {
                self.size = self.size - 1;
                assert(self@ =~= old(self)@.drop_last());
                Some(v)
            },
        }
    }

    /// Whether the list holds no values.
    pub fn is_empty(&self) -> (r: bool)
        requires
            self.wf(),
        ensures
            r == (self@.len() == 0),
    {
        self.size == 0
    }

    /// The value at `index`, or `None` past the end of the list.
    pub fn get(&self, index: usize) -> (r: Option<T>)
        requires
            self.wf(),
        ensures
            r == if index < self@.len() {
                Some(self@[index as int])
            } else {
                None::<T>
            },
    {
        if index < self.elems.len() {
            Some(self.elems[index].duplicate())
        } else {
            None
        }
    }

    /// The value at the head, or `None` on an empty list.
    pub fn head(&self) -> (r: Option<T>)
        requires
            self.wf(),
        ensures
            r == if self@.len() > 0 {
                Some(self@.first())
            } else {
                None::<T>
            },
    {
        if self.elems.len() > 0 {
            Some(self.elems[0].duplicate())
        } else {
            None
        }
    }

    /// The value at the tail, or `None` on an empty list.
    pub fn tail(&self) -> (r: Option<T>)
        requires
            self.wf(),
        ensures
            r == if self@.len() > 0 {
                Some(self@.last())
            } else {
                None::<T>
            },
    {
        if self.elems.len() > 0 {
            let i: usize = self.elems.len() - 1;
            Some(self.elems[i].duplicate())
        } else {
            None
        }
    }

    /// Starts a two-way cursor over the list, borrowing it.  The cursor
    /// stands before the head; `next` walks towards the tail, `next_back`
    /// starts over from the tail and walks towards the head.
    pub fn into_iter(&self) -> (r: LinkedListIterator<'_, T>)
        requires
            self.wf(),
        ensures
            r.wf(),
            r.items() == self@,
            r.pos() is None,
    {
        LinkedListIterator { list: self, current: None }
    }
}

/// A two-way cursor over a borrowed [`LinkedList`].
///
/// The cursor remembers the index it last yielded, or `None` when it has
/// not yielded yet or has run off either end; from `None`, `next` starts
/// at the head and `next_back` at the tail.
pub struct LinkedListIterator<'a, T> {
    list: &'a LinkedList<T>,
    current: Option<usize>,
}

impl<'a, T: Duplicable> LinkedListIterator<'a, T> {
    /// The sequence this cursor walks.
    pub closed spec fn items(&self) -> Seq<T> {
        self.list@
    }

    /// The index last yielded, if any.
    pub closed spec fn pos(&self) -> Option<int> {
        match self.current {
            None => None,
            Some(i) => Some(i as int),
        }
    }

    /// The cursor's invariant: the borrowed list is well formed and the
    /// remembered index, if any, lies inside it.
    pub closed spec fn wf(&self) -> bool {
        &&& self.list.wf()
        &&& match self.current {
            None => true,
            Some(i) => i < self.list@.len(),
        }
    }

    /// Steps towards the tail and yields the value there, or `None` when
    /// the cursor runs off the tail end.
    pub fn next(&mut self) -> (r: Option<T>)
        requires
            old(self).wf(),
        ensures
            final(self).wf(),
            final(self).items() == old(self).items(),
            ({
                let stepped: Option<int> = match old(self).pos() {
                    None => if old(self).items().len() > 0 {
                        Some(0int)
                    } else {
                        None
                    },
                    Some(i) => if i + 1 < old(self).items().len() {
                        Some(i + 1)
                    } else {
                        None
                    },
                };
                final(self).pos() == stepped && r == match stepped {
                    Some(j) => Some(old(self).items()[j]),
                    None => None::<T>,
                }
            }),
    {
        match self.current {
            None => {
                if self.list.elems.len() > 0 {
                    self.current = Some(0);
                } else {
                    self.current = None;
                }
            },
            Some(i) => {
                if i + 1 < self.list.elems.len() {
                    self.current = Some(i + 1);
                } else {
                    self.current = None;
                }
            },
        }
        match self.current {
            Some(i) => Some(self.list.elems[i].duplicate()),
            None => None,
        }
    }

    /// Steps towards the head and yields the value there, or `None` when
    /// the cursor runs off the head end.  From a fresh cursor it starts at
    /// the tail.
    pub fn next_back(&mut self) -> (r: Option<T>)
        requires
            old(self).wf(),
        ensures
            final(self).wf(),
            final(self).items() == old(self).items(),
            ({
                let stepped: Option<int> = match old(self).pos() {
                    None => if old(self).items().len() > 0 {
                        Some(old(self).items().len() - 1)
                    } else {
                        None
                    },
                    Some(i) => if i > 0 {
                        Some(i - 1)
                    } else {
                        None
                    },
                };
                final(self).pos() == stepped && r == match stepped {
                    Some(j) => Some(old(self).items()[j]),
                    None => None::<T>,
                }
            }),
    {
        match self.current {
            None => {
                let n: usize = self.list.elems.len();
                if n > 0 {
                    self.current = Some(n - 1);
                } else {
                    self.current = None;
                }
            },
            Some(i) => {
                if i > 0 {
                    self.current = Some(i - 1);
                } else {
                    self.current = None;
                }
            },
        }
        match self.current {
            Some(i) => Some(self.list.elems[i].duplicate()),
            None => None,
        }
    }
}

} // verus!
