//! What a run of pushes or pops does to the contents of a container, stated
//! step by step over the contents alone. The laws of each list type are
//! phrased with these.

use vstd::prelude::*;

verus! {

/// The contents after adding the values of `s`, first to last, each at the
/// front of contents that start as `v`.
pub open spec fn pushed_front<T>(v: Seq<T>, s: Seq<T>) -> Seq<T>
    decreases s.len(),
{
    if s.len() == 0 {
        v
    } else {
        seq![s.last()] + pushed_front(v, s.drop_last())
    }
}

/// The contents after adding the values of `s`, first to last, each at the
/// back of contents that start as `v`.
pub open spec fn pushed_back<T>(v: Seq<T>, s: Seq<T>) -> Seq<T>
    decreases s.len(),
{
    if s.len() == 0 {
        v
    } else {
        pushed_back(v, s.drop_last()).push(s.last())
    }
}

/// What `k` removals from the front of contents `v` hand back, in order
/// (`None` for each one made while empty), and what is left.
pub open spec fn popped_front<T>(v: Seq<T>, k: nat) -> (Seq<Option<T>>, Seq<T>)
    decreases k,
{
    if k == 0 {
        (Seq::empty(), v)
    } else if v.len() == 0 {
        let (out, rest) = popped_front(v, (k - 1) as nat);
        (seq![None] + out, rest)
    } else {
        let (out, rest) = popped_front(v.drop_first(), (k - 1) as nat);
        (seq![Some(v[0])] + out, rest)
    }
}

/// What `k` removals from the back of contents `v` hand back, in order
/// (`None` for each one made while empty), and what is left.
pub open spec fn popped_back<T>(v: Seq<T>, k: nat) -> (Seq<Option<T>>, Seq<T>)
    decreases k,
{
    if k == 0 {
        (Seq::empty(), v)
    } else if v.len() == 0 {
        let (out, rest) = popped_back(v, (k - 1) as nat);
        (seq![None] + out, rest)
    } else {
        let (out, rest) = popped_back(v.drop_last(), (k - 1) as nat);
        (seq![Some(v.last())] + out, rest)
    }
}

/// The values of `s`, each wrapped in `Some`.
pub open spec fn somes<T>(s: Seq<T>) -> Seq<Option<T>> {
    s.map_values(|x: T| Some(x))
}

/// Adding `s` at the front puts it, reversed, before `v`.
pub proof fn lemma_pushed_front<T>(v: Seq<T>, s: Seq<T>)
    ensures
        pushed_front(v, s) == s.reverse() + v,
    decreases s.len(),
{
    if s.len() > 0 {
        lemma_pushed_front(v, s.drop_last());
        assert(s.reverse() =~= seq![s.last()] + s.drop_last().reverse());
        assert(pushed_front(v, s) =~= s.reverse() + v);
    } else {
        assert(s.reverse() + v =~= v);
    }
}

/// Adding `s` at the back puts it after `v`.
pub proof fn lemma_pushed_back<T>(v: Seq<T>, s: Seq<T>)
    ensures
        pushed_back(v, s) == v + s,
    decreases s.len(),
{
    if s.len() > 0 {
        lemma_pushed_back(v, s.drop_last());
        assert(pushed_back(v, s) =~= v + s);
    } else {
        assert(v + s =~= v);
    }
}

/// Removing `a.len()` values from the front of `a + b` hands back `a` and
/// leaves `b`.
pub proof fn lemma_popped_front<T>(a: Seq<T>, b: Seq<T>)
    ensures
        popped_front(a + b, a.len()) == (somes(a), b),
    decreases a.len(),
{
    if a.len() > 0 {
        lemma_popped_front(a.drop_first(), b);
        assert((a + b).drop_first() =~= a.drop_first() + b);
        assert(somes(a) =~= seq![Some(a[0])] + somes(a.drop_first()));
    } else {
        assert(a + b =~= b);
        assert(somes(a) =~= Seq::empty());
    }
}

/// Removing `b.len()` values from the back of `a + b` hands back `b`
/// reversed and leaves `a`.
pub proof fn lemma_popped_back<T>(a: Seq<T>, b: Seq<T>)
    ensures
        popped_back(a + b, b.len()) == (somes(b.reverse()), a),
    decreases b.len(),
{
    if b.len() > 0 {
        lemma_popped_back(a, b.drop_last());
        assert((a + b).drop_last() =~= a + b.drop_last());
        assert(somes(b.reverse()) =~= seq![Some(b.last())] + somes(b.drop_last().reverse()));
    } else {
        assert(a + b =~= a);
        assert(somes(b.reverse()) =~= Seq::empty());
    }
}

} // verus!
