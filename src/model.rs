use vstd::prelude::*;

verus! {

/// The first element of `s`, if there is one.
pub open spec fn front<T>(s: Seq<T>) -> Option<T> {
    if s.len() == 0 {
        None
    } else {
        Some(s[0])
    }
}

/// `s` without its first element; the empty sequence stays empty.
pub open spec fn after_front<T>(s: Seq<T>) -> Seq<T> {
    if s.len() == 0 {
        s
    } else {
        s.drop_first()
    }
}

/// The last element of `s`, if there is one.
pub open spec fn back<T>(s: Seq<T>) -> Option<T> {
    if s.len() == 0 {
        None
    } else {
        Some(s.last())
    }
}

/// `s` without its last element; the empty sequence stays empty.
pub open spec fn before_back<T>(s: Seq<T>) -> Seq<T> {
    if s.len() == 0 {
        s
    } else {
        s.drop_last()
    }
}

/// The value a borrowed result refers to.
pub open spec fn deref_opt<T>(r: Option<&T>) -> Option<T> {
    match r {
        Some(x) => Some(*x),
        None => None,
    }
}

/// The contents after pushing each of `vs`, in order, onto the front of `s`.
pub open spec fn pushed_front_all<T>(s: Seq<T>, vs: Seq<T>) -> Seq<T>
    decreases vs.len(),
{
    if vs.len() == 0 {
        s
    } else {
        seq![vs.last()] + pushed_front_all(s, vs.drop_last())
    }
}

/// The contents after pushing each of `vs`, in order, onto the back of `s`.
pub open spec fn pushed_back_all<T>(s: Seq<T>, vs: Seq<T>) -> Seq<T>
    decreases vs.len(),
{
    if vs.len() == 0 {
        s
    } else {
        pushed_back_all(s, vs.drop_last()).push(vs.last())
    }
}

/// What `k` successive pops from the front hand back, starting from contents `s`.
pub open spec fn front_pops<T>(s: Seq<T>, k: nat) -> Seq<Option<T>>
    decreases k,
{
    if k == 0 {
        Seq::empty()
    } else {
        seq![front(s)] + front_pops(after_front(s), (k - 1) as nat)
    }
}

/// What `k` successive pops from the back hand back, starting from contents `s`.
pub open spec fn back_pops<T>(s: Seq<T>, k: nat) -> Seq<Option<T>>
    decreases k,
{
    if k == 0 {
        Seq::empty()
    } else {
        seq![back(s)] + back_pops(before_back(s), (k - 1) as nat)
    }
}

/// Each element of `s`, present.
pub open spec fn all_present<T>(s: Seq<T>) -> Seq<Option<T>> {
    s.map_values(|v: T| Some(v))
}

/// `m` absent results.
pub open spec fn absent<T>(m: nat) -> Seq<Option<T>> {
    Seq::new(m, |i: int| None)
}

proof fn lemma_pushed_front_all<T>(s: Seq<T>, vs: Seq<T>)
    ensures
        pushed_front_all(s, vs) == vs.reverse() + s,
    decreases vs.len(),
{
    if vs.len() > 0 {
        lemma_pushed_front_all(s, vs.drop_last());
        assert(vs.reverse() =~= seq![vs.last()] + vs.drop_last().reverse());
        assert(pushed_front_all(s, vs) =~= vs.reverse() + s);
    } else {
        assert(vs.reverse() + s =~= s);
    }
}

proof fn lemma_pushed_back_all<T>(s: Seq<T>, vs: Seq<T>)
    ensures
        pushed_back_all(s, vs) == s + vs,
    decreases vs.len(),
{
    if vs.len() > 0 {
        lemma_pushed_back_all(s, vs.drop_last());
        assert(s + vs =~= (s + vs.drop_last()).push(vs.last()));
    } else {
        assert(s + vs =~= s);
    }
}

/// Popping from the front hands out a prefix `t` in order, then the rest.
proof fn lemma_front_pops_prefix<T>(t: Seq<T>, s: Seq<T>, m: nat)
    ensures
        front_pops(t + s, t.len() + m) == all_present(t) + front_pops(s, m),
    decreases t.len(),
{
    if t.len() > 0 {
        assert(after_front(t + s) =~= t.drop_first() + s);
        lemma_front_pops_prefix(t.drop_first(), s, m);
        assert(front_pops(t + s, t.len() + m) == seq![Some(t[0])] + front_pops(t.drop_first() + s, (t.len() - 1 + m) as nat));
        assert(all_present(t) =~= seq![Some(t[0])] + all_present(t.drop_first()));
        assert(front_pops(t + s, t.len() + m) =~= all_present(t) + front_pops(s, m));
    } else {
        assert(t + s =~= s);
        assert(all_present(t) + front_pops(s, m) =~= front_pops(s, m));
    }
}

/// Popping from the back hands out a suffix `t` last element first, then the rest.
proof fn lemma_back_pops_suffix<T>(s: Seq<T>, t: Seq<T>, m: nat)
    ensures
        back_pops(s + t, t.len() + m) == all_present(t.reverse()) + back_pops(s, m),
    decreases t.len(),
{
    if t.len() > 0 {
        assert(before_back(s + t) =~= s + t.drop_last());
        lemma_back_pops_suffix(s, t.drop_last(), m);
        assert(back_pops(s + t, t.len() + m) == seq![Some(t.last())] + back_pops(s + t.drop_last(), (t.len() - 1 + m) as nat));
        assert(t.reverse() =~= seq![t.last()] + t.drop_last().reverse());
        assert(all_present(t.reverse()) =~= seq![Some(t.last())] + all_present(t.drop_last().reverse()));
        assert(back_pops(s + t, t.len() + m) =~= all_present(t.reverse()) + back_pops(s, m));
    } else {
        assert(s + t =~= s);
        assert(t.reverse() =~= t);
        assert(all_present(t.reverse()) + back_pops(s, m) =~= back_pops(s, m));
    }
}

/// Pops on empty contents find nothing.
proof fn lemma_pops_on_empty<T>(m: nat)
    ensures
        front_pops(Seq::<T>::empty(), m) == absent::<T>(m),
        back_pops(Seq::<T>::empty(), m) == absent::<T>(m),
    decreases m,
{
    if m > 0 {
        lemma_pops_on_empty::<T>((m - 1) as nat);
        assert(absent::<T>(m) =~= seq![None] + absent::<T>((m - 1) as nat));
    } else {
        assert(absent::<T>(m) =~= Seq::empty());
    }
}

/// Pushing `v1..vn` onto the front of any list and then popping `n` times
/// from the front hands back `vn, ..., v1`.
pub proof fn lemma_push_front_pop_front_lifo<T>(s: Seq<T>, vs: Seq<T>)
    ensures
        front_pops(pushed_front_all(s, vs), vs.len()) == all_present(vs.reverse()),
{
    lemma_pushed_front_all(s, vs);
    lemma_front_pops_prefix(vs.reverse(), s, 0);
    assert(front_pops(s, 0) =~= Seq::empty());
    assert(all_present(vs.reverse()) + Seq::<Option<T>>::empty() =~= all_present(vs.reverse()));
}

/// Pushing `v1..vn` onto the back of any list and then popping `n` times
/// from the back hands back `vn, ..., v1`.
pub proof fn lemma_push_back_pop_back_lifo<T>(s: Seq<T>, vs: Seq<T>)
    ensures
        back_pops(pushed_back_all(s, vs), vs.len()) == all_present(vs.reverse()),
{
    lemma_pushed_back_all(s, vs);
    lemma_back_pops_suffix(s, vs, 0);
    assert(back_pops(s, 0) =~= Seq::empty());
    assert(all_present(vs.reverse()) + Seq::<Option<T>>::empty() =~= all_present(vs.reverse()));
}

/// Pushing `v1..vn` onto the back of an empty list and then popping `n`
/// times from the front hands back `v1, ..., vn`.
pub proof fn lemma_push_back_pop_front_fifo<T>(vs: Seq<T>)
    ensures
        front_pops(pushed_back_all(Seq::empty(), vs), vs.len()) == all_present(vs),
{
    lemma_pushed_back_all(Seq::empty(), vs);
    assert(Seq::<T>::empty() + vs =~= vs + Seq::<T>::empty());
    lemma_front_pops_prefix(vs, Seq::empty(), 0);
    assert(front_pops(Seq::<T>::empty(), 0) =~= Seq::empty());
    assert(all_present(vs) + Seq::<Option<T>>::empty() =~= all_present(vs));
}

/// Pushing `v1..vn` onto the front of an empty list and then popping `n`
/// times from the back hands back `v1, ..., vn`.
pub proof fn lemma_push_front_pop_back_fifo<T>(vs: Seq<T>)
    ensures
        back_pops(pushed_front_all(Seq::empty(), vs), vs.len()) == all_present(vs),
{
    lemma_pushed_front_all(Seq::empty(), vs);
    lemma_back_pops_suffix(Seq::empty(), vs.reverse(), 0);
    assert(Seq::<T>::empty() + vs.reverse() =~= vs.reverse() + Seq::<T>::empty());
    assert(vs.reverse().reverse() =~= vs);
    assert(back_pops(Seq::<T>::empty(), 0) =~= Seq::empty());
    assert(all_present(vs) + Seq::<Option<T>>::empty() =~= all_present(vs));
}

/// Once a list is exhausted by popping, every further pop, from either end,
/// finds nothing: `len + m` pops hand back each element and then `m` absences.
pub proof fn lemma_pops_after_exhaustion<T>(s: Seq<T>, m: nat)
    ensures
        front_pops(s, s.len() + m) == all_present(s) + absent::<T>(m),
        back_pops(s, s.len() + m) == all_present(s.reverse()) + absent::<T>(m),
{
    lemma_pops_on_empty::<T>(m);
    assert(s + Seq::<T>::empty() =~= s);
    assert(Seq::<T>::empty() + s =~= s);
    lemma_front_pops_prefix(s, Seq::empty(), m);
    lemma_back_pops_suffix(Seq::empty(), s, m);
}

} // verus!
