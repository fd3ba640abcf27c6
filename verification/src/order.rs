//! A stable sort of values by a strict order on what they stand for.
use crate::text::{
    lemma_text_lt_between, lemma_text_lt_irreflexive, lemma_text_lt_transitive, less, text_lt,
};
use vstd::multiset::Multiset;
use vstd::prelude::*;
use vstd::seq_lib::{to_multiset_contains, to_multiset_insert, to_multiset_remove};

verus! {

/// Values with a strict order on their views.
pub trait Ranked: View + Sized {
    /// Whether `a` comes before `b`.
    spec fn ranks_before(a: Self::V, b: Self::V) -> bool;

    proof fn ranks_irreflexive(a: Self::V)
        ensures
            !Self::ranks_before(a, a),
    ;

    proof fn ranks_transitive(a: Self::V, b: Self::V, c: Self::V)
        requires
            Self::ranks_before(a, b),
            Self::ranks_before(b, c),
        ensures
            Self::ranks_before(a, c),
    ;

    proof fn ranks_between(a: Self::V, b: Self::V, c: Self::V)
        requires
            Self::ranks_before(a, c),
        ensures
            Self::ranks_before(a, b) || Self::ranks_before(b, c),
    ;

    /// Whether the value comes before `other`.
    fn is_before(&self, other: &Self) -> (out: bool)
        ensures
            out == Self::ranks_before(self@, other@),
    ;
}

/// What the values of a sequence stand for.
pub open spec fn viewed<T: View>(s: Seq<T>) -> Seq<T::V> {
    s.map_values(|x: T| x@)
}

/// No value comes before an earlier one.
pub open spec fn in_order<T: Ranked>(s: Seq<T::V>) -> bool {
    forall|i: int, j: int|
        0 <= i < j < s.len() ==> !T::ranks_before(#[trigger] s[j], #[trigger] s[i])
}

/// The values that share the rank of `x`: neither comes before the other.
pub open spec fn level_with<T: Ranked>(x: T::V) -> spec_fn(T::V) -> bool {
    |y: T::V| !T::ranks_before(x, y) && !T::ranks_before(y, x)
}

/// Whether the values that share a rank follow each other in `after` as they do
/// in `before`.
pub open spec fn ties_kept<T: Ranked>(before: Seq<T::V>, after: Seq<T::V>) -> bool {
    forall|x: T::V| #[trigger]
        after.filter(level_with::<T>(x)) == before.filter(level_with::<T>(x))
}

/// A value that is put behind the values that it does not come before is the last
/// of its rank.
proof fn lemma_insert_ties<T: Ranked>(list: Seq<T::V>, p: int, v: T::V, x: T::V)
    requires
        in_order::<T>(list),
        0 <= p <= list.len(),
        p < list.len() ==> T::ranks_before(v, list[p]),
    ensures
        list.insert(p, v).filter(level_with::<T>(x)) == list.push(v).filter(level_with::<T>(x)),
{
    let f = level_with::<T>(x);
    let head = list.take(p);
    let tail = list.skip(p);
    let one = seq![v];
    assert(list =~= head + tail);
    assert(list.insert(p, v) =~= head + one + tail);
    assert(list.push(v) =~= list + one);
    Seq::filter_distributes_over_add(head + one, tail, f);
    Seq::filter_distributes_over_add(head, one, f);
    Seq::filter_distributes_over_add(head, tail, f);
    Seq::filter_distributes_over_add(list, one, f);
    reveal_with_fuel(Seq::filter, 2);
    if f(v) {
        assert forall|k: int| 0 <= k < tail.len() implies !f(#[trigger] tail[k]) by {
            let y = tail[k];
            assert(y == list[p + k]);
            if k > 0 {
                assert(!T::ranks_before(list[p + k], list[p]));
                T::ranks_between(v, y, list[p]);
            }
            T::ranks_between(v, x, y);
        }
        lemma_none_left(tail, f);
        assert(tail.filter(f) =~= Seq::<T::V>::empty());
    } else {
        assert(one.drop_last() =~= Seq::<T::V>::empty());
        assert(one.filter(f) =~= Seq::<T::V>::empty());
    }
    assert(list.insert(p, v).filter(f) =~= list.push(v).filter(f));
}

proof fn lemma_none_left<V>(s: Seq<V>, f: spec_fn(V) -> bool)
    requires
        forall|k: int| 0 <= k < s.len() ==> !f(#[trigger] s[k]),
    ensures
        s.filter(f).len() == 0,
    decreases s.len(),
{
    reveal(Seq::filter);
    if s.len() > 0 {
        assert(s.last() == s[s.len() - 1]);
        assert forall|k: int| 0 <= k < s.drop_last().len() implies !f(
            #[trigger] s.drop_last()[k],
        ) by {
            assert(s.drop_last()[k] == s[k]);
        }
        lemma_none_left(s.drop_last(), f);
    }
}

/// Puts a value behind the values of an ordered list that it does not come
/// before.
fn insert_ranked<T: Ranked>(list: &mut Vec<T>, value: T)
    requires
        in_order::<T>(viewed(old(list)@)),
    ensures
        in_order::<T>(viewed(final(list)@)),
        ties_kept::<T>(viewed(old(list)@).push(value@), viewed(final(list)@)),
        viewed(final(list)@).to_multiset() == viewed(old(list)@).to_multiset().insert(value@),
{
    let mut p: usize = 0;
    while p < list.len() && !value.is_before(&list[p])
        invariant
            p <= list@.len(),
            forall|k: int|
                0 <= k < p ==> !T::ranks_before(value@, #[trigger] viewed(list@)[k]),
        decreases list@.len() - p,
    {
        assert(viewed(list@)[p as int] == list@[p as int]@);
        p += 1;
    }
    let ghost before = viewed(list@);
    let ghost v = value@;
    proof {
        if p < list@.len() {
            assert(before[p as int] == list@[p as int]@);
        }
    }
    list.insert(p, value);
    proof {
        let after = viewed(list@);
        assert(after =~= before.insert(p as int, v));
        to_multiset_insert(before, p as int, v);
        assert forall|x: T::V| #[trigger]
            after.filter(level_with::<T>(x)) == before.push(v).filter(level_with::<T>(x)) by {
            lemma_insert_ties::<T>(before, p as int, v, x);
        }
        assert forall|i: int, j: int| 0 <= i < j < after.len() implies !T::ranks_before(
            #[trigger] after[j],
            #[trigger] after[i],
        ) by {
            if i == p {
                assert(after[j] == before[j - 1]);
                if T::ranks_before(after[j], v) {
                    T::ranks_transitive(after[j], v, before[p as int]);
                    if j - 1 == p {
                        T::ranks_irreflexive(before[p as int]);
                    } else {
                        assert(!T::ranks_before(before[j - 1], before[p as int]));
                    }
                }
            } else if i > p {
                assert(after[i] == before[i - 1] && after[j] == before[j - 1]);
            } else if j == p {
                assert(after[i] == before[i]);
            } else if j > p {
                assert(after[i] == before[i] && after[j] == before[j - 1]);
            } else {
                assert(after[i] == before[i] && after[j] == before[j]);
            }
        }
    }
}

/// The values of a list in order; values that share a rank stay in the order of
/// the list.
pub fn sorted<T: Ranked>(list: Vec<T>) -> (out: Vec<T>)
    ensures
        in_order::<T>(viewed(out@)),
        ties_kept::<T>(viewed(list@), viewed(out@)),
        viewed(out@).to_multiset() == viewed(list@).to_multiset(),
{
    let ghost given = viewed(list@);
    let ghost all = viewed(list@).to_multiset();
    let ghost mut n: int = 0;
    let mut rest = list;
    let mut out: Vec<T> = Vec::new();
    proof {
        assert(viewed(out@) =~= Seq::<T::V>::empty());
        lemma_empty_multiset(viewed(out@));
        assert(given.take(0) =~= viewed(out@));
        assert(given.skip(0) =~= given);
    }
    while rest.len() > 0
        invariant
            0 <= n <= given.len(),
            viewed(rest@) == given.skip(n),
            in_order::<T>(viewed(out@)),
            ties_kept::<T>(given.take(n), viewed(out@)),
            viewed(out@).to_multiset().add(viewed(rest@).to_multiset()) =~= all,
        decreases rest@.len(),
    {
        let ghost before = viewed(rest@);
        let value = rest.remove(0);
        proof {
            assert(viewed(rest@) =~= before.remove(0));
            assert(before[0] == value@);
            to_multiset_remove(before, 0);
            to_multiset_contains(before, value@);
            assert(before.remove(0) =~= given.skip(n + 1));
            assert(value@ == given[n]);
        }
        let ghost sofar = viewed(out@);
        let ghost v = value@;
        insert_ranked(&mut out, value);
        proof {
            lemma_ties_push::<T>(given.take(n), sofar, v);
            assert(given.take(n + 1) =~= given.take(n).push(v));
            n = n + 1;
        }
    }
    proof {
        assert(rest@.len() == viewed(rest@).len());
        assert(given.take(n) =~= given);
        assert(viewed(rest@) =~= Seq::<T::V>::empty());
        lemma_empty_multiset(viewed(rest@));
        assert(viewed(out@).to_multiset() =~= all);
    }
    out
}

proof fn lemma_ties_push<T: Ranked>(a: Seq<T::V>, b: Seq<T::V>, v: T::V)
    requires
        ties_kept::<T>(a, b),
    ensures
        ties_kept::<T>(a.push(v), b.push(v)),
{
    reveal(Seq::filter);
    assert forall|x: T::V| #[trigger]
        b.push(v).filter(level_with::<T>(x)) == a.push(v).filter(level_with::<T>(x)) by {
        assert(a.push(v).drop_last() =~= a);
        assert(b.push(v).drop_last() =~= b);
        assert(b.filter(level_with::<T>(x)) == a.filter(level_with::<T>(x)));
    }
}

proof fn lemma_empty_multiset<V>(s: Seq<V>)
    requires
        s.len() == 0,
    ensures
        s.to_multiset() =~= Multiset::<V>::empty(),
{
    broadcast use vstd::seq_lib::group_to_multiset_ensures;

    assert(s.to_multiset().len() == 0);
}

impl Ranked for String {
    open spec fn ranks_before(a: Seq<char>, b: Seq<char>) -> bool {
        text_lt(a, b)
    }

    proof fn ranks_irreflexive(a: Seq<char>) {
        lemma_text_lt_irreflexive(a);
    }

    proof fn ranks_transitive(a: Seq<char>, b: Seq<char>, c: Seq<char>) {
        lemma_text_lt_transitive(a, b, c);
    }

    proof fn ranks_between(a: Seq<char>, b: Seq<char>, c: Seq<char>) {
        lemma_text_lt_between(a, b, c);
    }

    fn is_before(&self, other: &String) -> (out: bool) {
        less(self.as_str(), other.as_str())
    }
}

} // verus!
