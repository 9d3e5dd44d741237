//! The order of strings: lexicographic by code point, which is the order
//! `Ord for String` gives (it compares the UTF-8 bytes, and UTF-8 keeps the
//! order of code points); and sorted lists without repeats.
use vstd::prelude::*;

use crate::text::views;

verus! {

/// `a` comes before `b`.
pub open spec fn lex_lt(a: Seq<char>, b: Seq<char>) -> bool
    decreases a.len(),
{
    if a.len() == 0 {
        b.len() > 0
    } else if b.len() == 0 {
        false
    } else if a[0] != b[0] {
        a[0] < b[0]
    } else {
        lex_lt(a.drop_first(), b.drop_first())
    }
}

/// Nothing comes before itself, and of two different texts exactly one
/// comes first.
pub proof fn lemma_lex_total(a: Seq<char>, b: Seq<char>)
    ensures
        !lex_lt(a, a),
        a != b ==> (lex_lt(a, b) || lex_lt(b, a)),
        !(lex_lt(a, b) && lex_lt(b, a)),
    decreases a.len(),
{
    if a.len() > 0 {
        lemma_lex_total(a.drop_first(), a.drop_first());
        if b.len() > 0 {
            lemma_lex_total(a.drop_first(), b.drop_first());
            if a != b && a[0] == b[0] {
                assert(a.drop_first() != b.drop_first()) by {
                    if a.drop_first() == b.drop_first() {
                        assert(a =~= seq![a[0]] + a.drop_first());
                        assert(b =~= seq![b[0]] + b.drop_first());
                    }
                }
            }
            if a[0] != b[0] {
                assert(a[0] < b[0] || b[0] < a[0]);
            }
        }
    } else {
        if b.len() == 0 {
            assert(a =~= b);
        }
    }
}

/// The order is transitive.
pub proof fn lemma_lex_trans(a: Seq<char>, b: Seq<char>, c: Seq<char>)
    requires
        lex_lt(a, b),
        lex_lt(b, c),
    ensures
        lex_lt(a, c),
    decreases a.len(),
{
    if a.len() > 0 && b.len() > 0 && c.len() > 0 {
        if a[0] == b[0] && b[0] == c[0] {
            lemma_lex_trans(a.drop_first(), b.drop_first(), c.drop_first());
        }
    }
}

/// Whether `a` comes before `b`.
pub fn lex_less(a: &Vec<char>, b: &Vec<char>) -> (res: bool)
    ensures
        res == lex_lt(a@, b@),
{
    let mut i: usize = 0;
    assert(a@.skip(0) =~= a@ && b@.skip(0) =~= b@);
    while i < a.len() && i < b.len() && a[i] == b[i]
        invariant
            i <= a.len(),
            i <= b.len(),
            lex_lt(a@, b@) == lex_lt(a@.skip(i as int), b@.skip(i as int)),
        decreases a.len() - i,
    {
        assert(a@.skip(i as int).drop_first() =~= a@.skip(i + 1));
        assert(b@.skip(i as int).drop_first() =~= b@.skip(i + 1));
        i = i + 1;
    }
    if i == a.len() {
        i < b.len()
    } else if i == b.len() {
        false
    } else {
        assert(a@.skip(i as int)[0] == a@[i as int]);
        assert(b@.skip(i as int)[0] == b@[i as int]);
        a[i] < b[i]
    }
}

/// Each text comes before the ones after it (so none repeats).
pub open spec fn strictly_sorted(s: Seq<Seq<char>>) -> bool {
    forall|i: int, j: int| 0 <= i < j < s.len() ==> lex_lt(#[trigger] s[i], #[trigger] s[j])
}

/// Adds `x` to a sorted list without repeats, keeping it sorted and
/// without repeats.
pub fn insert_sorted(v: &mut Vec<Vec<char>>, x: Vec<char>)
    requires
        strictly_sorted(views(old(v)@)),
    ensures
        strictly_sorted(views(final(v)@)),
        forall|t: Seq<char>|
            views(final(v)@).contains(t) <==> (views(old(v)@).contains(t) || t == x@),
{
    let ghost old_v = views(v@);
    let mut i: usize = 0;
    while i < v.len() && lex_less(&v[i], &x)
        invariant
            i <= v.len(),
            old_v == views(v@),
            strictly_sorted(old_v),
            forall|k: int| 0 <= k < i ==> lex_lt(#[trigger] old_v[k], x@),
        decreases v.len() - i,
    {
        assert(old_v[i as int] == v@[i as int]@);
        i = i + 1;
    }
    if i < v.len() {
        assert(old_v[i as int] == v@[i as int]@);
        proof {
            lemma_lex_total(old_v[i as int], x@);
        }
    }
    if i < v.len() && crate::text::chars_eq(&v[i], &x) {
        assert(old_v.contains(x@) && old_v[i as int] == x@);
        return;
    }
    proof {
        if i < v.len() {
            assert(lex_lt(x@, old_v[i as int]));
        }
    }
    let ghost xv = x@;
    v.insert(i, x);
    let ghost nv = views(v@);
    assert(nv =~= old_v.insert(i as int, xv));
    assert forall|a: int, b: int| 0 <= a < b < nv.len() implies lex_lt(
        #[trigger] nv[a],
        #[trigger] nv[b],
    ) by {
        if b < i {
            assert(nv[a] == old_v[a] && nv[b] == old_v[b]);
        } else if b == i {
            assert(nv[a] == old_v[a]);
        } else if a == i {
            assert(nv[b] == old_v[b - 1]);
            if b - 1 > i {
                assert(lex_lt(old_v[i as int], old_v[b - 1]));
                lemma_lex_trans(xv, old_v[i as int], old_v[b - 1]);
            }
        } else if a < i {
            assert(nv[a] == old_v[a] && nv[b] == old_v[b - 1]);
        } else {
            assert(nv[a] == old_v[a - 1] && nv[b] == old_v[b - 1]);
        }
    }
    assert forall|t: Seq<char>| nv.contains(t) <==> (old_v.contains(t) || t == xv) by {
        if nv.contains(t) {
            let k = choose|k: int| 0 <= k < nv.len() && nv[k] == t;
            if k < i {
                assert(old_v[k] == t);
            } else if k > i {
                assert(old_v[k - 1] == t);
            }
        }
        if old_v.contains(t) {
            let k = choose|k: int| 0 <= k < old_v.len() && old_v[k] == t;
            if k < i {
                assert(nv[k] == t);
            } else {
                assert(nv[k + 1] == t);
            }
        }
        if t == xv {
            assert(nv[i as int] == t);
        }
    }
}

/// Two lists hold the same texts.
pub open spec fn same_elements(a: Seq<Seq<char>>, b: Seq<Seq<char>>) -> bool {
    forall|t: Seq<char>| a.contains(t) <==> b.contains(t)
}

/// The texts of `s` sorted, each once.
pub open spec fn sorted_set(s: Seq<Seq<char>>) -> Seq<Seq<char>> {
    choose|r: Seq<Seq<char>>| strictly_sorted(r) && same_elements(r, s)
}

/// Two sorted lists without repeats that hold the same texts are equal.
pub proof fn lemma_sorted_unique(a: Seq<Seq<char>>, b: Seq<Seq<char>>)
    requires
        strictly_sorted(a),
        strictly_sorted(b),
        same_elements(a, b),
    ensures
        a == b,
    decreases a.len(),
{
    if a.len() == 0 {
        if b.len() > 0 {
            assert(b.contains(b[0]));
        }
        assert(a =~= b);
    } else {
        assert(a.contains(a[0]));
        assert(b.len() > 0);
        assert(b.contains(b[0]));
        if a[0] != b[0] {
            let ka = choose|k: int| 0 <= k < b.len() && b[k] == a[0];
            let kb = choose|k: int| 0 <= k < a.len() && a[k] == b[0];
            assert(ka > 0 && kb > 0);
            assert(lex_lt(b[0], b[ka]));
            assert(lex_lt(a[0], a[kb]));
            lemma_lex_total(a[0], b[0]);
        }
        let a2 = a.drop_first();
        let b2 = b.drop_first();
        assert forall|i: int, j: int| 0 <= i < j < a2.len() implies lex_lt(
            #[trigger] a2[i],
            #[trigger] a2[j],
        ) by {
            assert(a2[i] == a[i + 1] && a2[j] == a[j + 1]);
        }
        assert forall|i: int, j: int| 0 <= i < j < b2.len() implies lex_lt(
            #[trigger] b2[i],
            #[trigger] b2[j],
        ) by {
            assert(b2[i] == b[i + 1] && b2[j] == b[j + 1]);
        }
        assert forall|t: Seq<char>| a2.contains(t) <==> b2.contains(t) by {
            if a2.contains(t) {
                let k = choose|k: int| 0 <= k < a2.len() && a2[k] == t;
                assert(a[k + 1] == t);
                assert(lex_lt(a[0], t));
                lemma_lex_total(a[0], t);
                assert(b.contains(t));
                let m = choose|m: int| 0 <= m < b.len() && b[m] == t;
                assert(m != 0);
                assert(b2[m - 1] == t);
            }
            if b2.contains(t) {
                let k = choose|k: int| 0 <= k < b2.len() && b2[k] == t;
                assert(b[k + 1] == t);
                assert(lex_lt(b[0], t));
                lemma_lex_total(b[0], t);
                assert(a.contains(t));
                let m = choose|m: int| 0 <= m < a.len() && a[m] == t;
                assert(m != 0);
                assert(a2[m - 1] == t);
            }
        }
        lemma_sorted_unique(a2, b2);
        assert(a =~= seq![a[0]] + a2);
        assert(b =~= seq![b[0]] + b2);
    }
}

/// A sorted list without repeats holding the texts of `s` is `sorted_set(s)`.
pub proof fn lemma_is_sorted_set(r: Seq<Seq<char>>, s: Seq<Seq<char>>)
    requires
        strictly_sorted(r),
        same_elements(r, s),
    ensures
        sorted_set(s) == r,
{
    let c = sorted_set(s);
    assert(strictly_sorted(c) && same_elements(c, s));
    assert(same_elements(c, r));
    lemma_sorted_unique(c, r);
}

/// `r` with `x` put in its place (unchanged when `x` is in it already).
pub open spec fn inserted(r: Seq<Seq<char>>, x: Seq<char>) -> Seq<Seq<char>>
    decreases r.len(),
{
    if r.len() == 0 {
        seq![x]
    } else if r[0] == x {
        r
    } else if lex_lt(x, r[0]) {
        seq![x] + r
    } else {
        seq![r[0]] + inserted(r.drop_first(), x)
    }
}

proof fn lemma_inserted(r: Seq<Seq<char>>, x: Seq<char>)
    requires
        strictly_sorted(r),
    ensures
        strictly_sorted(inserted(r, x)),
        forall|t: Seq<char>|
            #![trigger inserted(r, x).contains(t)]
            inserted(r, x).contains(t) <==> (r.contains(t) || t == x),
        inserted(r, x).len() > 0 && (inserted(r, x)[0] == x || (r.len() > 0 && inserted(r, x)[0]
            == r[0])),
    decreases r.len(),
{
    let q = inserted(r, x);
    if r.len() == 0 {
        assert(q[0] == x);
    } else if r[0] == x {
        assert(r.contains(x) && r[0] == x);
    } else if lex_lt(x, r[0]) {
        assert forall|a: int, b: int| 0 <= a < b < q.len() implies lex_lt(
            #[trigger] q[a],
            #[trigger] q[b],
        ) by {
            if a == 0 {
                assert(q[b] == r[b - 1]);
                if b - 1 > 0 {
                    lemma_lex_trans(x, r[0], r[b - 1]);
                }
            } else {
                assert(q[a] == r[a - 1] && q[b] == r[b - 1]);
            }
        }
        assert forall|t: Seq<char>| q.contains(t) <==> (r.contains(t) || t == x) by {
            if q.contains(t) {
                let k = choose|k: int| 0 <= k < q.len() && q[k] == t;
                if k > 0 {
                    assert(r[k - 1] == t);
                }
            }
            if r.contains(t) {
                let k = choose|k: int| 0 <= k < r.len() && r[k] == t;
                assert(q[k + 1] == t);
            }
            assert(q[0] == x);
        }
    } else {
        let r2 = r.drop_first();
        assert forall|a: int, b: int| 0 <= a < b < r2.len() implies lex_lt(
            #[trigger] r2[a],
            #[trigger] r2[b],
        ) by {
            assert(r2[a] == r[a + 1] && r2[b] == r[b + 1]);
        }
        lemma_inserted(r2, x);
        let q2 = inserted(r2, x);
        lemma_lex_total(x, r[0]);
        assert(lex_lt(r[0], x));
        assert forall|a: int, b: int| 0 <= a < b < q.len() implies lex_lt(
            #[trigger] q[a],
            #[trigger] q[b],
        ) by {
            if a == 0 {
                assert(q[b] == q2[b - 1]);
                assert(q2.contains(q2[b - 1]));
                if q2[b - 1] != x {
                    assert(r2.contains(q2[b - 1]));
                    let k = choose|k: int| 0 <= k < r2.len() && r2[k] == q2[b - 1];
                    assert(r[k + 1] == q2[b - 1]);
                }
            } else {
                assert(q[a] == q2[a - 1] && q[b] == q2[b - 1]);
            }
        }
        assert forall|t: Seq<char>| q.contains(t) <==> (r.contains(t) || t == x) by {
            if q.contains(t) {
                let k = choose|k: int| 0 <= k < q.len() && q[k] == t;
                if k > 0 {
                    assert(q2[k - 1] == t);
                    assert(q2.contains(t));
                    if t != x {
                        assert(r2.contains(t));
                        let m = choose|m: int| 0 <= m < r2.len() && r2[m] == t;
                        assert(r[m + 1] == t);
                    }
                }
            }
            if r.contains(t) {
                let k = choose|k: int| 0 <= k < r.len() && r[k] == t;
                if k > 0 {
                    assert(r2[k - 1] == t);
                    assert(r2.contains(t));
                    assert(q2.contains(t));
                    let m = choose|m: int| 0 <= m < q2.len() && q2[m] == t;
                    assert(q[m + 1] == t);
                }
            }
            if t == x {
                assert(q2.contains(x));
                let m = choose|m: int| 0 <= m < q2.len() && q2[m] == x;
                assert(q[m + 1] == x);
            }
        }
    }
}

/// Every list of texts has a sorted list without repeats holding the same
/// texts, and `sorted_set` is that list.
pub proof fn lemma_sorted_set(s: Seq<Seq<char>>)
    ensures
        strictly_sorted(sorted_set(s)),
        same_elements(sorted_set(s), s),
    decreases s.len(),
{
    if s.len() == 0 {
        let e = Seq::<Seq<char>>::empty();
        assert(strictly_sorted(e) && same_elements(e, s));
    } else {
        lemma_sorted_set(s.drop_last());
        let r = sorted_set(s.drop_last());
        lemma_inserted(r, s.last());
        let q = inserted(r, s.last());
        assert forall|t: Seq<char>| q.contains(t) <==> s.contains(t) by {
            if s.contains(t) {
                let k = choose|k: int| 0 <= k < s.len() && s[k] == t;
                if k < s.len() - 1 {
                    assert(s.drop_last()[k] == t);
                }
            }
            if s.drop_last().contains(t) {
                let k = choose|k: int| 0 <= k < s.drop_last().len() && s.drop_last()[k] == t;
                assert(s[k] == t);
            }
            if t == s.last() {
                assert(s[s.len() - 1] == t);
            }
        }
        assert(strictly_sorted(q) && same_elements(q, s));
    }
}

} // verus!
