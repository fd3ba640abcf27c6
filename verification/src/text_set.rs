//! Ordered sets of texts, held as lists without repetition.
use crate::text::{
    holds, lemma_text_lt_irreflexive, lemma_text_lt_total, lemma_text_lt_transitive, less, same,
    text_lt, views,
};
use vstd::prelude::*;

verus! {

/// A sequence of texts in strictly increasing order.
pub open spec fn ascending(s: Seq<Seq<char>>) -> bool {
    forall|i: int, j: int| 0 <= i < j < s.len() ==> text_lt(#[trigger] s[i], #[trigger] s[j])
}

/// Puts a text into an ordered set, and says whether it was new.
pub fn insert_text(set: &mut Vec<String>, text: String) -> (out: bool)
    requires
        ascending(views(old(set)@)),
    ensures
        ascending(views(final(set)@)),
        out == !views(old(set)@).contains(text@),
        forall|t: Seq<char>| #[trigger]
            views(final(set)@).contains(t) <==> views(old(set)@).contains(t) || t == text@,
{
    let mut p: usize = 0;
    while p < set.len() && less(set[p].as_str(), text.as_str())
        invariant
            p <= set@.len(),
            forall|k: int| 0 <= k < p ==> text_lt(#[trigger] views(set@)[k], text@),
        decreases set@.len() - p,
    {
        assert(views(set@)[p as int] == set@[p as int]@);
        p += 1;
    }
    let ghost before = views(set@);
    if p < set.len() && same(set[p].as_str(), text.as_str()) {
        assert(before[p as int] == text@);
        return false;
    }
    let ghost t0 = text@;
    proof {
        assert forall|k: int| 0 <= k < before.len() implies before[k] != t0 by {
            lemma_text_lt_irreflexive(t0);
            if k > p {
                assert(before[p as int] == set@[p as int]@);
                lemma_text_lt_total(before[p as int], t0);
                assert(text_lt(t0, before[p as int]));
                lemma_text_lt_transitive(t0, before[p as int], before[k]);
            } else if k == p {
                assert(before[p as int] == set@[p as int]@);
            }
        }
    }
    set.insert(p, text);
    proof {
        let after = views(set@);
        assert(after =~= before.insert(p as int, t0));
        assert forall|i: int, j: int| 0 <= i < j < after.len() implies text_lt(
            #[trigger] after[i],
            #[trigger] after[j],
        ) by {
            if j > p && i == p {
                assert(after[j] == before[j - 1]);
                lemma_text_lt_total(before[p as int], t0);
                assert(text_lt(t0, before[p as int]));
                if j - 1 > p {
                    assert(text_lt(before[p as int], before[j - 1]));
                    lemma_text_lt_transitive(t0, before[p as int], before[j - 1]);
                }
            } else if i > p {
                assert(after[i] == before[i - 1] && after[j] == before[j - 1]);
            } else if j == p {
                assert(after[i] == before[i]);
            } else if j > p {
                assert(after[i] == before[i] && after[j] == before[j - 1]);
            } else {
                assert(after[i] == before[i] && after[j] == before[j]);
            }
        }
        assert forall|t: Seq<char>| #[trigger] after.contains(t) <==> before.contains(t) || t
            == t0 by {
            if before.contains(t) {
                let k = choose|k: int| 0 <= k < before.len() && before[k] == t;
                if k < p {
                    assert(after[k] == t);
                } else {
                    assert(after[k + 1] == t);
                }
            }
            if t == t0 {
                assert(after[p as int] == t);
            }
            if after.contains(t) && t != t0 {
                let k = choose|k: int| 0 <= k < after.len() && after[k] == t;
                if k < p {
                    assert(before[k] == t);
                } else {
                    assert(before[k - 1] == t);
                }
            }
        }
    }
    true
}

/// The texts of one ordered set that are not in another, in order.
pub fn difference(a: &Vec<String>, b: &Vec<String>) -> (out: Vec<String>)
    requires
        ascending(views(a@)),
    ensures
        ascending(views(out@)),
        forall|t: Seq<char>| #[trigger]
            views(out@).contains(t) <==> views(a@).contains(t) && !views(b@).contains(t),
{
    let mut out: Vec<String> = Vec::new();
    let mut i: usize = 0;
    while i < a.len()
        invariant
            i <= a@.len(),
            ascending(views(a@)),
            ascending(views(out@)),
            forall|k: int|
                0 <= k < out@.len() ==> (exists|m: int|
                    0 <= m < i && #[trigger] views(a@)[m] == #[trigger] views(out@)[k]),
            forall|t: Seq<char>| #[trigger]
                views(out@).contains(t) <==> views(a@).take(i as int).contains(t) && !views(
                    b@,
                ).contains(t),
        decreases a@.len() - i,
    {
        let ghost before = views(out@);
        let ghost cur = views(a@)[i as int];
        let ghost prev = views(a@).take(i as int);
        let ghost next = views(a@).take(i + 1);
        proof {
            assert(next =~= prev.push(cur));
            assert forall|t: Seq<char>| next.contains(t) <==> prev.contains(t) || t == cur by {
                if prev.contains(t) {
                    let k = choose|k: int| 0 <= k < prev.len() && prev[k] == t;
                    assert(next[k] == t);
                }
                if t == cur {
                    assert(next[i as int] == t);
                }
                if next.contains(t) && t != cur {
                    let k = choose|k: int| 0 <= k < next.len() && next[k] == t;
                    assert(prev[k] == t);
                }
            }
        }
        if !holds(b, a[i].as_str()) {
            let s = a[i].clone();
            out.push(s);
            proof {
                let after = views(out@);
                assert(after =~= before.push(cur));
                assert forall|x: int, y: int| 0 <= x < y < after.len() implies text_lt(
                    #[trigger] after[x],
                    #[trigger] after[y],
                ) by {
                    if y == before.len() {
                        let m = choose|m: int|
                            0 <= m < i && #[trigger] views(a@)[m] == #[trigger] before[x];
                        assert(text_lt(views(a@)[m], views(a@)[i as int]));
                    } else {
                        assert(before[x] == after[x] && before[y] == after[y]);
                    }
                }
                assert forall|k: int| 0 <= k < out@.len() implies (exists|m: int|
                    0 <= m < i + 1 && #[trigger] views(a@)[m] == #[trigger] after[k]) by {
                    if k == before.len() {
                        assert(views(a@)[i as int] == after[k]);
                    } else {
                        assert(before[k] == after[k]);
                        let m = choose|m: int|
                            0 <= m < i && #[trigger] views(a@)[m] == #[trigger] before[k];
                        assert(views(a@)[m] == after[k]);
                    }
                }
                assert forall|t: Seq<char>| #[trigger] after.contains(t) <==> next.contains(t)
                    && !views(b@).contains(t) by {
                    if before.contains(t) {
                        let k = choose|k: int| 0 <= k < before.len() && before[k] == t;
                        assert(after[k] == t);
                    }
                    if t == cur {
                        assert(after[before.len() as int] == t);
                    }
                    if after.contains(t) && t != cur {
                        let k = choose|k: int| 0 <= k < after.len() && after[k] == t;
                        assert(before[k] == t);
                    }
                }
            }
        }
        i += 1;
    }
    assert(views(a@).take(i as int) =~= views(a@));
    out
}

/// Two ascending sequences with the same members are the same.
pub proof fn ascending_is_unique(a: Seq<Seq<char>>, b: Seq<Seq<char>>)
    requires
        ascending(a),
        ascending(b),
        forall|t: Seq<char>| a.contains(t) <==> b.contains(t),
    ensures
        a == b,
    decreases a.len(),
{
    if a.len() == 0 {
        if b.len() > 0 {
            assert(b.contains(b[0]));
            assert(a.contains(b[0]));
        }
        assert(a =~= b);
    } else {
        assert(a.contains(a.last()));
        assert(b.contains(a.last()));
        let k = choose|k: int| 0 <= k < b.len() && b[k] == a.last();
        assert(b.contains(b.last()));
        assert(a.contains(b.last()));
        let m = choose|m: int| 0 <= m < a.len() && a[m] == b.last();
        if k < b.len() - 1 {
            assert(text_lt(b[k], b.last()));
            if m < a.len() - 1 {
                assert(text_lt(a[m], a.last()));
                lemma_text_lt_transitive(a.last(), b.last(), a.last());
            }
            lemma_text_lt_irreflexive(a.last());
        }
        assert(a.last() == b.last());
        let x = a.drop_last();
        let y = b.drop_last();
        assert forall|t: Seq<char>| x.contains(t) <==> y.contains(t) by {
            lemma_text_lt_irreflexive(t);
            if x.contains(t) {
                let i = choose|i: int| 0 <= i < x.len() && x[i] == t;
                assert(a[i] == t);
                assert(a.contains(t));
                let j = choose|j: int| 0 <= j < b.len() && b[j] == t;
                assert(text_lt(a[i], a.last()));
                assert(y[j] == t);
            }
            if y.contains(t) {
                let i = choose|i: int| 0 <= i < y.len() && y[i] == t;
                assert(b[i] == t);
                assert(b.contains(t));
                let j = choose|j: int| 0 <= j < a.len() && a[j] == t;
                assert(text_lt(b[i], b.last()));
                assert(x[j] == t);
            }
        }
        assert(ascending(x));
        assert(ascending(y));
        ascending_is_unique(x, y);
        assert(a =~= x.push(a.last()));
        assert(b =~= y.push(b.last()));
    }
}

} // verus!
