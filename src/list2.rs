use vstd::prelude::*;
use crate::model::{front, after_front, deref_opt};

verus! {

/// One cell of the chain: a value and, optionally, the owned rest of the chain.
pub struct Node<T> {
    elem: T,
    next: NodeLink<T>,
}

type NodeLink<T> = Option<Box<Node<T>>>;

/// The values reached from `link`, first cell first.
pub closed spec fn link_elems<T>(link: NodeLink<T>) -> Seq<T>
    decreases link,
{
    match link {
        Some(node) => seq![node.elem] + link_elems(node.next),
        None => Seq::empty(),
    }
}

/// A stack whose cells form a chain of optional boxed nodes owned by the head.
pub struct List<T> {
    head: NodeLink<T>,
}

impl<T> View for List<T> {
    type V = Seq<T>;

    closed spec fn view(&self) -> Seq<T> {
        link_elems(self.head)
    }
}

impl<T> List<T> {
    /// An empty list.
    pub fn new() -> (r: Self)
        ensures
            r@ == Seq::<T>::empty(),
    {
        Self { head: None }
    }

    /// Puts `elem` in front of the current elements.
    pub fn push(&mut self, elem: T)
        ensures
            final(self)@ == seq![elem] + old(self)@,
    {
        let node = Box::new(Node { elem, next: self.head.take() });
        self.head = Some(node);
    }

    /// Removes the first element and returns it; `None` on an empty list.
    pub fn pop(&mut self) -> (r: Option<T>)
        ensures
            r == front(old(self)@),
            final(self)@ == after_front(old(self)@),
    {
        match self.head.take() {
            Some(head) => {
                let node = *head;
                self.head = node.next;
                Some(node.elem)
            },
            None => None,
        }
    }

    /// The first element, borrowed; `None` on an empty list.
    pub fn peek(&self) -> (r: Option<&T>)
        ensures
            deref_opt(r) == front(self@),
    {
        match &self.head {
            Some(node) => Some(&node.elem),
            None => None,
        }
    }

    /// Moves the first `n` elements into a new list, which holds them in
    /// their original order; `self` keeps the rest.
    pub fn take(&mut self, n: usize) -> (r: List<T>)
        requires
            n <= old(self)@.len(),
        ensures
            r@ == old(self)@.subrange(0, n as int),
            final(self)@ == old(self)@.subrange(n as int, old(self)@.len() as int),
    {
        let ghost orig = self@;
        let mut reversed = List::new();
        let mut i: usize = 0;
        while i < n
            invariant
                i <= n <= orig.len(),
                self@ == orig.subrange(i as int, orig.len() as int),
                reversed@ == orig.subrange(0, i as int).reverse(),
            decreases n - i,
        {
            if let Some(e) = self.pop() {
                reversed.push(e);
            }
            assert(reversed@ =~= orig.subrange(0, i + 1).reverse());
            assert(self@ =~= orig.subrange(i + 1, orig.len() as int));
            i = i + 1;
        }
        let mut new_list = List::new();
        while i > 0
            invariant
                i <= n <= orig.len(),
                reversed@ == orig.subrange(0, i as int).reverse(),
                new_list@ == orig.subrange(i as int, n as int),
            decreases i,
        {
            if let Some(e) = reversed.pop() {
                new_list.push(e);
            }
            assert(reversed@ =~= orig.subrange(0, i - 1).reverse());
            assert(new_list@ =~= orig.subrange(i - 1, n as int));
            i = i - 1;
        }
        new_list
    }

    /// A fresh walk over the elements, head to tail.
    pub fn iter(&self) -> (r: ListIter<'_, T>)
        ensures
            r@ == self@,
    {
        ListIter::new(self)
    }
}

/// A forward walk over the nodes of a `List`, borrowing it.
pub struct ListIter<'a, T> {
    next: &'a NodeLink<T>,
}

impl<'a, T> View for ListIter<'a, T> {
    type V = Seq<T>;

    /// The elements that the walk has yet to hand out.
    closed spec fn view(&self) -> Seq<T> {
        link_elems(*self.next)
    }
}

impl<'a, T> ListIter<'a, T> {
    /// A walk that starts at the head of `list`.
    pub fn new(list: &'a List<T>) -> (r: Self)
        ensures
            r@ == list@,
    {
        Self { next: &list.head }
    }

    /// Hands out the next element and moves past it; `None` once the walk is over.
    pub fn next(&mut self) -> (r: Option<&'a T>)
        ensures
            deref_opt(r) == front(old(self)@),
            final(self)@ == after_front(old(self)@),
    {
        match self.next {
            Some(node) => {
                self.next = &node.next;
                Some(&node.elem)
            },
            None => None,
        }
    }
}

} // verus!
