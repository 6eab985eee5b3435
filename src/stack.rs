//! A stack on a singly linked list of boxed nodes.

use vstd::prelude::*;

verus! {

/// One entry of the list and the rest of the list after it.
pub struct Node<T> {
    elem: T,
    next: Option<Box<Node<T>>>,
}

impl<T> Node<T> {
    /// The entries from this node on.
    pub closed spec fn entries(&self) -> Seq<T> {
        seq![self.elem] + link_view(self.next)
    }
}

impl<T: Default> Default for Node<T> {
    /// A node holding the default value and nothing after it.
    fn default() -> (r: Node<T>)
        ensures
            r.entries().len() == 1,
    {
        let r = Node { elem: T::default(), next: None };
        assert(link_view::<T>(None) =~= Seq::empty());
        r
    }
}

/// The entries of the list that starts at `link`, top first.
pub closed spec fn link_view<T>(link: Option<Box<Node<T>>>) -> Seq<T>
    decreases link,
{
    match link {
        None => Seq::empty(),
        Some(node) => seq![node.elem] + link_view(node.next),
    }
}

/// The entries of the list that starts at `link`, top first.
pub closed spec fn ref_view<T>(link: Option<&Node<T>>) -> Seq<T> {
    match link {
        None => Seq::empty(),
        Some(node) => seq![node.elem] + link_view(node.next),
    }
}

/// A last-in, first-out stack that counts its entries.
pub struct List<T> {
    head: Option<Box<Node<T>>>,
    size: usize,
}

impl<T> View for List<T> {
    type V = Seq<T>;

    /// The entries, top first.
    closed spec fn view(&self) -> Seq<T> {
        link_view(self.head)
    }
}

impl<T> List<T> {
    /// The stored count matches the entries.
    pub closed spec fn wf(&self) -> bool {
        self.size == link_view(self.head).len()
    }

    /// An empty stack.
    pub fn new() -> (r: List<T>)
        ensures
            r.wf(),
            r@ == Seq::<T>::empty(),
    {
        List { head: None, size: 0 }
    }

    /// Puts `elem` on top.
    pub fn push(&mut self, elem: T)
        requires
            old(self).wf(),
            old(self)@.len() < usize::MAX,
        ensures
            final(self).wf(),
            final(self)@ == seq![elem] + old(self)@,
    {
        let next = self.head.take();
        self.head = Some(Box::new(Node { elem, next }));
        self.size = self.size + 1;
    }

    /// Takes the top entry off, or returns `None` when the stack is empty.
    pub fn pop(&mut self) -> (r: Option<T>)
        requires
            old(self).wf(),
        ensures
            final(self).wf(),
            match r {
                None => old(self)@.len() == 0 && final(self)@ == old(self)@,
                Some(x) => old(self)@.len() > 0 && x == old(self)@[0] && final(self)@
                    == old(self)@.drop_first(),
            },
    {
        match self.head.take() {
            None => None,
            Some(node) => {
                let node = *node;
                proof {
                    assert(old(self)@.drop_first() =~= link_view(node.next));
                }
                self.head = node.next;
                self.size = self.size - 1;
                Some(node.elem)
            },
        }
    }

    /// The top entry, or `None` when the stack is empty.
    pub fn top(&self) -> (r: Option<&T>)
        ensures
            match r {
                None => self@.len() == 0,
                Some(x) => self@.len() > 0 && *x == self@[0],
            },
    {
        match &self.head {
            None => None,
            Some(node) => Some(&node.elem),
        }
    }

    /// The top entry for writing, or `None` when the stack is empty.
    pub fn top_mut(&mut self) -> (r: Option<&mut T>)
        requires
            old(self).wf(),
        ensures
            match r {
                None => old(self)@.len() == 0 && final(self)@ == old(self)@,
                Some(x) => old(self)@.len() > 0 && *x == old(self)@[0] && final(self)@
                    == old(self)@.update(0, *final(x)),
            },
            final(self).wf(),
    {
        match &mut self.head {
            None => None,
            Some(node) => Some(&mut node.elem),
        }
    }

    /// Walks the entries for writing, top first.
    pub fn iter_mut(&mut self) -> (r: IterMut<'_, T>)
        ensures
            r@ == old(self)@,
    {
        IterMut {
            next: match &mut self.head {
                None => None,
                Some(node) => Some(&mut **node),
            },
        }
    }

    /// The number of entries.
    pub fn size(&self) -> (r: usize)
        requires
            self.wf(),
        ensures
            r == self@.len(),
    {
        self.size
    }

    /// Whether the stack has no entries.
    pub fn empty(&self) -> (r: bool)
        requires
            self.wf(),
        ensures
            r == (self@.len() == 0),
    {
        self.size == 0
    }

    /// Hands the entries out by value, top first.
    pub fn into_iter(self) -> (r: IntoIter<T>)
        requires
            self.wf(),
        ensures
            r@ == self@,
            r.0.wf(),
    {
        IntoIter(self)
    }

    /// Walks the entries by reference, top first.
    pub fn iter(&self) -> (r: Iter<'_, T>)
        ensures
            r@ == self@,
    {
        Iter {
            next: match &self.head {
                None => None,
                Some(node) => Some(&**node),
            },
        }
    }
}

impl<T> Default for List<T> {
    fn default() -> (r: List<T>)
        ensures
            r.wf(),
            r@ == Seq::<T>::empty(),
    {
        List::new()
    }
}

/// The entries of a list, handed out by value, top first.
pub struct IntoIter<T>(pub List<T>);

impl<T> View for IntoIter<T> {
    type V = Seq<T>;

    /// The entries not yet handed out.
    closed spec fn view(&self) -> Seq<T> {
        self.0@
    }
}

impl<T> IntoIter<T> {
    /// The next entry, or `None` when all have been handed out.
    pub fn next(&mut self) -> (r: Option<T>)
        requires
            old(self).0.wf(),
        ensures
            final(self).0.wf(),
            match r {
                None => old(self)@.len() == 0 && final(self)@ == old(self)@,
                Some(x) => old(self)@.len() > 0 && x == old(self)@[0] && final(self)@
                    == old(self)@.drop_first(),
            },
    {
        self.0.pop()
    }
}

/// The entries of a list, by reference, top first.
pub struct Iter<'a, T> {
    next: Option<&'a Node<T>>,
}

impl<'a, T> View for Iter<'a, T> {
    type V = Seq<T>;

    /// The entries not yet visited.
    closed spec fn view(&self) -> Seq<T> {
        ref_view(self.next)
    }
}

impl<'a, T> Iter<'a, T> {
    /// The next entry, or `None` when all have been visited.
    pub fn next(&mut self) -> (r: Option<&'a T>)
        ensures
            match r {
                None => old(self)@.len() == 0 && final(self)@ == old(self)@,
                Some(x) => old(self)@.len() > 0 && *x == old(self)@[0] && final(self)@
                    == old(self)@.drop_first(),
            },
    {
        match self.next {
            None => None,
            Some(node) => {
                self.next = match &node.next {
                    None => None,
                    Some(n) => Some(&**n),
                };
                proof {
                    assert(old(self)@.drop_first() =~= self@);
                }
                Some(&node.elem)
            },
        }
    }
}

/// The entries of a list, for writing, top first.
pub struct IterMut<'a, T> {
    next: Option<&'a mut Node<T>>,
}

impl<'a, T> View for IterMut<'a, T> {
    type V = Seq<T>;

    /// The entries not yet visited, as they stand now.
    closed spec fn view(&self) -> Seq<T> {
        match self.next {
            None => Seq::empty(),
            Some(node) => seq![node.elem] + link_view(node.next),
        }
    }
}

impl<'a, T> IterMut<'a, T> {
    /// The next entry for writing, or `None` when all have been visited.
    pub fn next(&mut self) -> (r: Option<&'a mut T>)
        ensures
            match r {
                None => old(self)@.len() == 0 && final(self)@ == old(self)@,
                Some(x) => old(self)@.len() > 0 && *x == old(self)@[0] && final(self)@
                    == old(self)@.drop_first(),
            },
    {
        match self.next.take() {
            None => None,
            Some(node) => {
                self.next = match &mut node.next {
                    None => None,
                    Some(n) => Some(&mut **n),
                };
                Some(&mut node.elem)
            },
        }
    }
}

} // verus!
