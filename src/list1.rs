use vstd::prelude::*;
use crate::model::{front, after_front, deref_opt};

verus! {

/// A chain of owned cells: either the end, or a value and the rest of the chain.
pub enum ListLink<T> {
    Cons(T, Box<ListLink<T>>),
    Nil,
}

impl<T> ListLink<T> {
    /// The values of the chain, first cell first.
    pub open spec fn elems(&self) -> Seq<T>
        decreases self,
    {
        match *self {
            ListLink::Cons(e, next) => seq![e] + next.elems(),
            ListLink::Nil => Seq::empty(),
        }
    }
}

/// A stack whose cells form a chain of `ListLink`s owned by the head.
pub struct List<T> {
    head: ListLink<T>,
}

impl<T> View for List<T> {
    type V = Seq<T>;

    closed spec fn view(&self) -> Seq<T> {
        self.head.elems()
    }
}

impl<T> List<T> {
    /// An empty list.
    pub fn new() -> (r: Self)
        ensures
            r@ == Seq::<T>::empty(),
    {
        Self { head: ListLink::Nil }
    }

    /// Puts `elem` in front of the current elements.
    pub fn push(&mut self, elem: T)
        ensures
            final(self)@ == seq![elem] + old(self)@,
    {
        let mut head = ListLink::Nil;
        std::mem::swap(&mut head, &mut self.head);
        self.head = ListLink::Cons(elem, Box::new(head));
    }

    /// Removes the first element and returns it; `None` on an empty list.
    pub fn pop(&mut self) -> (r: Option<T>)
        ensures
            r == front(old(self)@),
            final(self)@ == after_front(old(self)@),
    {
        let mut head = ListLink::Nil;
        std::mem::swap(&mut head, &mut self.head);
        match head {
            ListLink::Cons(e, next) => {
                self.head = *next;
                Some(e)
            },
            ListLink::Nil => None,
        }
    }

    /// The first element, borrowed; `None` on an empty list.
    pub fn peek(&self) -> (r: Option<&T>)
        ensures
            deref_opt(r) == front(self@),
    {
        match &self.head {
            ListLink::Cons(e, _) => Some(e),
            ListLink::Nil => None,
        }
    }

    /// Moves the first `n` elements into a new list, which holds them in
    /// their original order; `self` keeps the rest.
    pub fn take(&mut self, n: usize) -> (r: List<T>)
        requires
            n <= old(self)@.len(),
        ensures
            r@ == old(self)@.subrange(0, n as int),
            final(self)@ == old(self)@.subrange(n as int, old(self)@.len() as int),
    {
        let ghost orig = self@;
        let mut reversed = List::new();
        let mut i: usize = 0;
        while i < n
            invariant
                i <= n <= orig.len(),
                self@ == orig.subrange(i as int, orig.len() as int),
                reversed@ == orig.subrange(0, i as int).reverse(),
            decreases n - i,
        {
            if let Some(e) = self.pop() {
                reversed.push(e);
            }
            assert(reversed@ =~= orig.subrange(0, i + 1).reverse());
            assert(self@ =~= orig.subrange(i + 1, orig.len() as int));
            i = i + 1;
        }
        let mut res = List::new();
        while i > 0
            invariant
                i <= n <= orig.len(),
                reversed@ == orig.subrange(0, i as int).reverse(),
                res@ == orig.subrange(i as int, n as int),
            decreases i,
        {
            if let Some(e) = reversed.pop() {
                res.push(e);
            }
            assert(reversed@ =~= orig.subrange(0, i - 1).reverse());
            assert(res@ =~= orig.subrange(i - 1, n as int));
            i = i - 1;
        }
        res
    }

    /// A fresh walk over the elements, head to tail.
    pub fn iter(&self) -> (r: ListIter<'_, T>)
        ensures
            r@ == self@,
    {
        ListIter::new(self)
    }
}

/// A forward walk over the cells of a `List`, borrowing it.
pub struct ListIter<'a, T> {
    next: &'a ListLink<T>,
}

impl<'a, T> View for ListIter<'a, T> {
    type V = Seq<T>;

    /// The elements that the walk has yet to hand out.
    closed spec fn view(&self) -> Seq<T> {
        self.next.elems()
    }
}

impl<'a, T> ListIter<'a, T> {
    /// A walk that starts at the head of `list`.
    pub fn new(list: &'a List<T>) -> (r: Self)
        ensures
            r@ == list@,
    {
        Self { next: &list.head }
    }

    /// Hands out the next element and moves past it; `None` once the walk is over.
    pub fn next(&mut self) -> (r: Option<&'a T>)
        ensures
            deref_opt(r) == front(old(self)@),
            final(self)@ == after_front(old(self)@),
    {
        match self.next {
            ListLink::Cons(e, next) => {
                self.next = &**next;
                Some(e)
            },
            ListLink::Nil => None,
        }
    }
}

} // verus!
