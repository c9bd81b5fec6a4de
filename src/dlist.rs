use vstd::prelude::*;
use crate::model::{front, after_front, back, before_back, deref_opt};

verus! {

/// One slot of the arena: a value while the slot is in use, and the slots of
/// its neighbours. `next` is the forward link, `prev` the back-reference.
pub struct DNode<T> {
    v: Option<T>,
    prev: Option<usize>,
    next: Option<usize>,
}

/// A doubly linked list whose nodes live in one arena, linked by slot index.
/// Freed slots are kept on a stack and reused.
pub struct DList<T> {
    nodes: Vec<DNode<T>>,
    free: Vec<usize>,
    head: Option<usize>,
    tail: Option<usize>,
    /// The slots of the list's nodes, head to tail.
    order: Ghost<Seq<usize>>,
}

impl<T> DList<T> {
    /// The slot of the node at position `i`, counted from the head.
    pub closed spec fn slot(&self, i: int) -> usize {
        self.order@[i]
    }

    /// The back-reference held by slot `k`.
    pub closed spec fn prev_link(&self, k: usize) -> Option<usize> {
        self.nodes@[k as int].prev
    }

    /// The forward link held by slot `k`.
    pub closed spec fn next_link(&self, k: usize) -> Option<usize> {
        self.nodes@[k as int].next
    }

    /// The slot of the first node, if any.
    pub closed spec fn head_slot(&self) -> Option<usize> {
        self.head
    }

    /// The slot of the last node, if any.
    pub closed spec fn tail_slot(&self) -> Option<usize> {
        self.tail
    }

    /// The arena and its links describe one chain: each node's back-reference
    /// names its predecessor and its forward link its successor, the head has
    /// no predecessor and the tail no successor.
    #[verifier::opaque]
    pub closed spec fn wf(&self) -> bool {
        let ord = self.order@;
        let n = ord.len();
        &&& chain_ok(self.nodes@, ord)
        &&& free_ok(self.nodes@, self.free@)
        &&& self.head == (if n == 0 { None } else { Some(ord[0]) })
        &&& self.tail == (if n == 0 { None } else { Some(ord[n - 1]) })
    }
}

/// `ord` lists distinct slots of `nodes` that hold values, each linked back to
/// the slot before it and forward to the slot after it.
spec fn chain_ok<T>(nodes: Seq<DNode<T>>, ord: Seq<usize>) -> bool {
    let n = ord.len();
    &&& forall|i: int| 0 <= i < n ==> (#[trigger] ord[i]) < nodes.len() && nodes[ord[i] as int].v is Some
    &&& forall|i: int, j: int| 0 <= i < j < n ==> ord[i] != ord[j]
    &&& forall|i: int| 0 <= i < n ==> (#[trigger] nodes[ord[i] as int]).prev
            == (if i == 0 { None } else { Some(ord[i - 1]) })
    &&& forall|i: int| 0 <= i < n ==> (#[trigger] nodes[ord[i] as int]).next
            == (if i == n - 1 { None } else { Some(ord[i + 1]) })
}

/// `free` lists distinct slots of `nodes` that hold no value.
spec fn free_ok<T>(nodes: Seq<DNode<T>>, free: Seq<usize>) -> bool {
    &&& forall|i: int| 0 <= i < free.len() ==> (#[trigger] free[i]) < nodes.len() && nodes[free[i] as int].v is None
    &&& forall|i: int, j: int| 0 <= i < j < free.len() ==> free[i] != free[j]
}

/// Taking the node at position `p` out of a chain, with its neighbours linked
/// to each other, leaves a chain of the remaining positions.
proof fn lemma_unlink_chain<T>(nodes: Seq<DNode<T>>, after: Seq<DNode<T>>, ord: Seq<usize>, p: int)
    requires
        chain_ok(nodes, ord),
        0 <= p < ord.len(),
        after.len() == nodes.len(),
        forall|j: int| 0 <= j < nodes.len() && j != ord[p] as int
            && (p == 0 || j != ord[p - 1] as int) && (p + 1 >= ord.len() || j != ord[p + 1] as int)
            ==> #[trigger] after[j] == nodes[j],
        p > 0 ==> after[ord[p - 1] as int] == (DNode {
            v: nodes[ord[p - 1] as int].v,
            prev: nodes[ord[p - 1] as int].prev,
            next: nodes[ord[p] as int].next,
        }),
        p + 1 < ord.len() ==> after[ord[p + 1] as int] == (DNode {
            v: nodes[ord[p + 1] as int].v,
            prev: nodes[ord[p] as int].prev,
            next: nodes[ord[p + 1] as int].next,
        }),
    ensures
        chain_ok(after, ord.remove(p)),
        forall|i: int| 0 <= i < ord.len() - 1 ==>
            after[ord.remove(p)[i] as int].v == nodes[ord.remove(p)[i] as int].v,
{
    let nord = ord.remove(p);
    let n = ord.len();
    assert forall|i: int| 0 <= i < nord.len() implies (#[trigger] nord[i]) < after.len()
        && after[nord[i] as int] == (DNode {
            v: nodes[nord[i] as int].v,
            prev: if i == 0 { None } else { Some(nord[i - 1]) },
            next: if i == nord.len() - 1 { None } else { Some(nord[i + 1]) },
        }) by {
        if i < p {
            assert(nord[i] == ord[i]);
            assert(ord[i] != ord[p]);
            if p + 1 < n {
                assert(ord[i] != ord[p + 1]);
            }
            if i + 1 < p {
                assert(ord[i] != ord[p - 1]);
            }
            if i > 0 {
                assert(nord[i - 1] == ord[i - 1]);
            }
            if i + 1 < p {
                assert(nord[i + 1] == ord[i + 1]);
            }
        } else {
            assert(nord[i] == ord[i + 1]);
            assert(ord[i + 1] != ord[p]);
            if p > 0 {
                assert(ord[i + 1] != ord[p - 1]);
            }
            if i > p {
                assert(ord[i + 1] != ord[p + 1]);
                assert(nord[i - 1] == ord[i]);
            }
            if i + 1 < nord.len() {
                assert(nord[i + 1] == ord[i + 2]);
            }
        }
    }
    assert forall|i: int, j: int| 0 <= i < j < nord.len() implies nord[i] != nord[j] by {
        let a = if i < p { i } else { i + 1 };
        let b = if j < p { j } else { j + 1 };
        assert(nord[i] == ord[a] && nord[j] == ord[b]);
    }
}

impl<T> View for DList<T> {
    type V = Seq<T>;

    closed spec fn view(&self) -> Seq<T> {
        Seq::new(self.order@.len(), |i: int| self.nodes@[self.order@[i] as int].v->0)
    }
}

impl<T> DList<T> {
    /// An empty list.
    pub fn new() -> (r: Self)
        ensures
            r.wf(),
            r@ == Seq::<T>::empty(),
    {
        reveal(DList::wf);
        let r = Self { nodes: Vec::new(), free: Vec::new(), head: None, tail: None, order: Ghost(Seq::empty()) };
        assert(r@ =~= Seq::<T>::empty());
        r
    }

    /// Puts `elem` in front of the current elements.
    pub fn push_front(&mut self, elem: T)
        requires
            old(self).wf(),
        ensures
            final(self).wf(),
            final(self)@ == seq![elem] + old(self)@,
            forall|i: int| 0 <= i < old(self)@.len() ==> final(self).slot(i + 1) == old(self).slot(i),
            final(self).head_slot() matches Some(k) && final(self).prev_link(k) is None
                && final(self).next_link(k) == old(self).head_slot(),
            old(self).head_slot() matches Some(h) ==> final(self).prev_link(h) == final(self).head_slot(),
            old(self)@.len() > 0 ==> final(self).tail_slot() == old(self).tail_slot(),
            old(self)@.len() == 0 ==> final(self).tail_slot() == final(self).head_slot(),
    {
        reveal(DList::wf);
        let ghost ord = self.order@;
        let old_head = self.head;
        proof {
            if ord.len() > 0 {
                assert(ord[0] < self.nodes@.len());
            }
        }
        let k = self.new_slot(elem, None, old_head);
        match old_head {
            Some(h) => {
                self.nodes[h].prev = Some(k);
            },
            None => {
                self.tail = Some(k);
            },
        }
        self.head = Some(k);
        self.order = Ghost(seq![k].add(ord));
        assert forall|i: int| 1 <= i < self.order@.len() implies self.order@[i] != k by {
            assert(ord[i - 1] != k);
        }
        assert(self.wf());
        assert(self@ =~= seq![elem] + old(self)@);
    }

    /// Puts `elem` after the current elements.
    pub fn push_back(&mut self, elem: T)
        requires
            old(self).wf(),
        ensures
            final(self).wf(),
            final(self)@ == old(self)@.push(elem),
            forall|i: int| 0 <= i < old(self)@.len() ==> final(self).slot(i) == old(self).slot(i),
            final(self).tail_slot() matches Some(k) && final(self).next_link(k) is None
                && final(self).prev_link(k) == old(self).tail_slot(),
            old(self).tail_slot() matches Some(t) ==> final(self).next_link(t) == final(self).tail_slot(),
            old(self)@.len() > 0 ==> final(self).head_slot() == old(self).head_slot(),
            old(self)@.len() == 0 ==> final(self).head_slot() == final(self).tail_slot(),
    {
        reveal(DList::wf);
        let ghost ord = self.order@;
        let old_tail = self.tail;
        proof {
            if ord.len() > 0 {
                assert(ord[ord.len() - 1] < self.nodes@.len());
            }
        }
        let k = self.new_slot(elem, old_tail, None);
        match old_tail {
            Some(t) => {
                self.nodes[t].next = Some(k);
            },
            None => {
                self.head = Some(k);
            },
        }
        self.tail = Some(k);
        self.order = Ghost(ord.push(k));
        assert forall|i: int| 0 <= i < ord.len() implies self.order@[i] != k by {
            assert(ord[i] != k);
        }
        assert(self.wf());
        assert(self@ =~= old(self)@.push(elem));
    }

    /// Removes the first element and returns it; `None` on an empty list.
    pub fn pop_front(&mut self) -> (r: Option<T>)
        requires
            old(self).wf(),
        ensures
            final(self).wf(),
            r == front(old(self)@),
            final(self)@ == after_front(old(self)@),
            forall|i: int| 0 <= i < final(self)@.len() ==> final(self).slot(i) == old(self).slot(i + 1),
            old(self)@.len() > 1 ==> final(self).tail_slot() == old(self).tail_slot()
                && final(self).head_slot() == old(self).next_link(old(self).slot(0))
                && final(self).prev_link(final(self).slot(0)) is None,
            old(self)@.len() <= 1 ==> final(self).head_slot() is None && final(self).tail_slot() is None,
    {
        proof {
            reveal(DList::wf);
        }
        match self.head {
            Some(h) => {
                let v = self.unlink(h, Ghost(0));
                assert(self@ =~= after_front(old(self)@));
                Some(v)
            },
            None => None,
        }
    }

    /// Removes the last element and returns it; `None` on an empty list.
    pub fn pop_back(&mut self) -> (r: Option<T>)
        requires
            old(self).wf(),
        ensures
            final(self).wf(),
            r == back(old(self)@),
            final(self)@ == before_back(old(self)@),
            forall|i: int| 0 <= i < final(self)@.len() ==> final(self).slot(i) == old(self).slot(i),
            old(self)@.len() > 1 ==> final(self).head_slot() == old(self).head_slot()
                && final(self).tail_slot() == old(self).prev_link(old(self).slot(old(self)@.len() - 1))
                && final(self).next_link(final(self).slot(final(self)@.len() - 1)) is None,
            old(self)@.len() <= 1 ==> final(self).head_slot() is None && final(self).tail_slot() is None,
    {
        proof {
            reveal(DList::wf);
        }
        match self.tail {
            Some(t) => {
                let ghost p = self@.len() - 1;
                let v = self.unlink(t, Ghost(p));
                assert(self@ =~= before_back(old(self)@));
                Some(v)
            },
            None => None,
        }
    }

    /// Moves the first `n` elements into a new list by popping each from the
    /// front of `self` and pushing it onto the front of the new list, which so
    /// holds them in reverse order; `self` keeps the rest.
    pub fn take(&mut self, n: usize) -> (r: DList<T>)
        requires
            old(self).wf(),
            n <= old(self)@.len(),
        ensures
            final(self).wf(),
            r.wf(),
            r@ == old(self)@.subrange(0, n as int).reverse(),
            final(self)@ == old(self)@.subrange(n as int, old(self)@.len() as int),
    {
        let ghost orig = self@;
        let mut rlist = DList::new();
        let mut i: usize = 0;
        while i < n
            invariant
                i <= n <= orig.len(),
                self.wf(),
                rlist.wf(),
                self@ == orig.subrange(i as int, orig.len() as int),
                rlist@ == orig.subrange(0, i as int).reverse(),
            decreases n - i,
        {
            if let Some(e) = self.pop_front() {
                rlist.push_front(e);
            }
            assert(rlist@ =~= orig.subrange(0, i + 1).reverse());
            assert(self@ =~= orig.subrange(i + 1, orig.len() as int));
            i = i + 1;
        }
        rlist
    }

    /// The first element, borrowed; `None` on an empty list.
    pub fn peek(&self) -> (r: Option<&T>)
        requires
            self.wf(),
        ensures
            deref_opt(r) == front(self@),
    {
        proof {
            reveal(DList::wf);
        }
        match self.head {
            Some(h) => {
                assert(self.order@[0] < self.nodes@.len());
                match &self.nodes[h].v {
                    Some(v) => Some(v),
                    None => None,
                }
            },
            None => None,
        }
    }

    /// Removes the node at 1-based position `n`, counted from the head, splices
    /// its neighbours together and returns its value; `popn(1)` is `pop_front`.
    /// When `n` is 0 or beyond the length, nothing changes and `None` is returned.
    pub fn popn(&mut self, n: usize) -> (r: Option<T>)
        requires
            old(self).wf(),
        ensures
            final(self).wf(),
            n == 0 || n > old(self)@.len() ==> r is None && final(self)@ == old(self)@,
            0 < n <= old(self)@.len() ==> r == Some(old(self)@[n - 1])
                && final(self)@ == old(self)@.remove(n - 1),
    {
        proof {
            reveal(DList::wf);
        }
        let ghost ord = self.order@;
        let ghost orig = self@;
        if n == 0 {
            return None;
        }
        let mut cur = match self.head {
            Some(h) => h,
            None => {
                return None;
            },
        };
        let mut i: usize = 1;
        while i < n
            invariant
                self.wf(),
                self.order@ == ord,
                self@ == orig,
                1 <= i <= n,
                i <= ord.len(),
                cur == ord[i - 1],
            decreases n - i,
        {
            proof {
                reveal(DList::wf);
            }
            assert(ord[i - 1] < self.nodes@.len());
            match self.nodes[cur].next {
                Some(nx) => {
                    cur = nx;
                    i = i + 1;
                },
                None => {
                    return None;
                },
            }
        }
        let v = self.unlink(cur, Ghost((n - 1) as int));
        Some(v)
    }

    /// Detaches the node at position `p`, repairs its neighbours' links, frees
    /// its slot and returns its value.
    #[verifier::rlimit(50)]
    fn unlink(&mut self, k: usize, Ghost(p): Ghost<int>) -> (r: T)
        requires
            old(self).wf(),
            0 <= p < old(self)@.len(),
            k == old(self).order@[p],
        ensures
            final(self).wf(),
            r == old(self)@[p as int],
            final(self)@ == old(self)@.remove(p as int),
            final(self).order@ == old(self).order@.remove(p),
    {
        reveal(DList::wf);
        let ghost ord = self.order@;
        let ghost n = ord.len();
        let ghost nodes0 = self.nodes@;
        assert(ord[p as int] < nodes0.len());
        let prev = self.nodes[k].prev;
        let next = self.nodes[k].next;
        proof {
            if p > 0 {
                assert(ord[p - 1] < nodes0.len());
                assert(ord[p - 1] != ord[p as int]);
            }
            if p + 1 < n {
                assert(ord[p + 1] < nodes0.len());
                assert(ord[p + 1] != ord[p as int]);
            }
            if p > 0 && p + 1 < n {
                assert(ord[p - 1] != ord[p + 1]);
            }
        }
        match prev {
            Some(pk) => {
                self.nodes[pk].next = next;
            },
            None => {
                self.head = next;
            },
        }
        match next {
            Some(nk) => {
                self.nodes[nk].prev = prev;
            },
            None => {
                self.tail = prev;
            },
        }
        let ghost nodes1 = self.nodes@;
        let v = self.nodes[k].v.take();
        self.nodes[k].prev = None;
        self.nodes[k].next = None;
        self.free.push(k);
        self.order = Ghost(ord.remove(p as int));
        proof {
            assert(self.nodes@ == nodes1.update(k as int, DNode { v: None, prev: None, next: None }));
            lemma_unlink_chain(nodes0, self.nodes@, ord, p as int);
            let free = self.free@;
            assert forall|i: int| 0 <= i < free.len() implies
                (#[trigger] free[i]) < self.nodes@.len() && self.nodes@[free[i] as int].v is None by {
                if i < free.len() - 1 {
                    assert(free[i] == old(self).free@[i]);
                    assert(nodes0[free[i] as int].v is None);
                }
            }
            assert forall|i: int, j: int| 0 <= i < j < free.len() implies free[i] != free[j] by {
                if j == free.len() - 1 {
                    assert(old(self).free@[i] == free[i]);
                    assert(nodes0[free[i] as int].v is None);
                } else {
                    assert(old(self).free@[i] == free[i] && old(self).free@[j] == free[j]);
                }
            }
            let nord = self.order@;
            if nord.len() > 0 {
                if p == 0 {
                    assert(nord[0] == ord[1]);
                } else {
                    assert(nord[0] == ord[0]);
                }
                if p == n - 1 {
                    assert(nord[nord.len() - 1] == ord[n - 2]);
                } else {
                    assert(nord[nord.len() - 1] == ord[n - 1]);
                }
            }
            assert(self.wf());
            assert(self@ =~= old(self)@.remove(p as int));
        }
        v.unwrap()
    }

    /// Stores `elem` in an unused slot, with the given links, and returns the slot.
    fn new_slot(&mut self, elem: T, prev: Option<usize>, next: Option<usize>) -> (k: usize)
        requires
            old(self).wf(),
        ensures
            final(self).order == old(self).order,
            final(self).head == old(self).head,
            final(self).tail == old(self).tail,
            k < final(self).nodes@.len(),
            old(self).nodes@.len() <= final(self).nodes@.len(),
            final(self).nodes@[k as int] == (DNode { v: Some(elem), prev, next }),
            forall|i: int| 0 <= i < old(self).order@.len() ==> old(self).order@[i] != k,
            forall|j: int| 0 <= j < old(self).nodes@.len() && j != k ==> final(self).nodes@[j] == old(self).nodes@[j],
            forall|i: int| 0 <= i < final(self).free@.len() ==>
                (#[trigger] final(self).free@[i]) < final(self).nodes@.len() && final(self).nodes@[final(self).free@[i] as int].v is None,
            forall|i: int, j: int| 0 <= i < j < final(self).free@.len() ==> final(self).free@[i] != final(self).free@[j],
    {
        reveal(DList::wf);
        let node = DNode { v: Some(elem), prev, next };
        match self.free.pop() {
            Some(k) => {
                assert(old(self).free@[old(self).free@.len() - 1] == k);
                self.nodes[k] = node;
                assert forall|i: int| 0 <= i < self.free@.len() implies
                    (#[trigger] self.free@[i]) < self.nodes@.len() && self.nodes@[self.free@[i] as int].v is None by {
                    assert(old(self).free@[i] == self.free@[i]);
                }
                k
            },
            None => {
                let k = self.nodes.len();
                self.nodes.push(node);
                k
            },
        }
    }
}

/// Back-references mirror forward links in every list the operations build:
/// following a node's forward link and then the back-reference found there
/// returns to the node, and the other way round; the head has no
/// back-reference and the tail no forward link.
pub proof fn lemma_links_round_trip<T>(l: &DList<T>)
    requires
        l.wf(),
    ensures
        l@.len() == 0 <==> l.head_slot() is None,
        l@.len() == 0 <==> l.tail_slot() is None,
        l.head_slot() matches Some(h) ==> l.prev_link(h) is None && h == l.slot(0),
        l.tail_slot() matches Some(t) ==> l.next_link(t) is None && t == l.slot(l@.len() - 1),
        forall|i: int| 0 <= i < l@.len() ==> (l.next_link(#[trigger] l.slot(i)) matches Some(j)
            ==> l.prev_link(j) == Some(l.slot(i))),
        forall|i: int| 0 <= i < l@.len() ==> (l.prev_link(#[trigger] l.slot(i)) matches Some(j)
            ==> l.next_link(j) == Some(l.slot(i))),
{
    reveal(DList::wf);
    let ord = l.order@;
    let n = ord.len();
    if n > 0 {
        assert(l.nodes@[ord[0] as int].prev is None);
        assert(l.nodes@[ord[n - 1] as int].next is None);
    }
    assert forall|i: int| 0 <= i < l@.len() implies (l.next_link(#[trigger] l.slot(i)) matches Some(j)
        ==> l.prev_link(j) == Some(l.slot(i))) by {
        if i + 1 < n {
            assert(l.nodes@[ord[i] as int].next == Some(ord[i + 1]));
            assert(l.nodes@[ord[i + 1] as int].prev == Some(ord[i]));
        }
    }
    assert forall|i: int| 0 <= i < l@.len() implies (l.prev_link(#[trigger] l.slot(i)) matches Some(j)
        ==> l.next_link(j) == Some(l.slot(i))) by {
        if i > 0 {
            assert(l.nodes@[ord[i] as int].prev == Some(ord[i - 1]));
            assert(l.nodes@[ord[i - 1] as int].next == Some(ord[i]));
        }
    }
}

/// A forward walk over the nodes of a `DList`, borrowing it.
pub struct DListIter<'a, T> {
    list: &'a DList<T>,
    next: Option<usize>,
    /// The position of the node that `next` names.
    pos: Ghost<int>,
}

impl<'a, T> DListIter<'a, T> {
    /// The walk points into its list at position `pos`, or past its end.
    pub closed spec fn wf(&self) -> bool {
        &&& self.list.wf()
        &&& 0 <= self.pos@ <= self.list@.len()
        &&& self.next == (if self.pos@ < self.list@.len() { Some(self.list.order@[self.pos@]) } else { None })
    }
}

impl<'a, T> View for DListIter<'a, T> {
    type V = Seq<T>;

    /// The elements that the walk has yet to hand out.
    closed spec fn view(&self) -> Seq<T> {
        self.list@.subrange(self.pos@, self.list@.len() as int)
    }
}

impl<'a, T> DListIter<'a, T> {
    /// A walk that starts at the head of `list`.
    pub fn new(list: &'a DList<T>) -> (r: Self)
        requires
            list.wf(),
        ensures
            r.wf(),
            r@ == list@,
    {
        proof {
            reveal(DList::wf);
        }
        let r = Self { list, next: list.head, pos: Ghost(0) };
        assert(r@ =~= list@);
        r
    }

    /// Hands out the next element and moves past it; `None` once the walk is over.
    pub fn next(&mut self) -> (r: Option<&'a T>)
        requires
            old(self).wf(),
        ensures
            final(self).wf(),
            deref_opt(r) == front(old(self)@),
            final(self)@ == after_front(old(self)@),
    {
        proof {
            reveal(DList::wf);
        }
        let list = self.list;
        match self.next {
            Some(k) => {
                let ghost p = self.pos@;
                assert(list.order@[p] < list.nodes@.len());
                self.next = list.nodes[k].next;
                self.pos = Ghost(p + 1);
                assert(self@ =~= after_front(old(self)@));
                match &list.nodes[k].v {
                    Some(v) => Some(v),
                    None => None,
                }
            },
            None => None,
        }
    }
}

} // verus!
