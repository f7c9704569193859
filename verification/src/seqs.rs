//! Small general sequence lemmas used by the store and the flat-file codec:
//! how `filter` interacts with `push` and composition, first-match lookup,
//! and the multiset of an insertion.

use vstd::prelude::*;
use vstd::multiset::Multiset;
use vstd::seq_lib::group_to_multiset_ensures;
use vstd::seq_lib::lemma_multiset_commutative;

verus! {

pub broadcast proof fn lemma_filter_push<A>(t: Seq<A>, x: A, pred: spec_fn(A) -> bool)
    ensures
        #[trigger] t.push(x).filter(pred) == if pred(x) {
            t.filter(pred).push(x)
        } else {
            t.filter(pred)
        },
{
    reveal(Seq::filter);
    assert(t.push(x).drop_last() =~= t);
    assert(t.push(x).last() == x);
}

/// Filtering twice is one filter by any predicate equivalent to the
/// conjunction.
pub proof fn lemma_filter_compose_equiv<A>(
    s: Seq<A>,
    p: spec_fn(A) -> bool,
    q: spec_fn(A) -> bool,
    r: spec_fn(A) -> bool,
)
    requires
        forall|i: int| 0 <= i < s.len() ==> ((p(#[trigger] s[i]) && q(s[i])) <==> r(s[i])),
    ensures
        s.filter(p).filter(q) == s.filter(r),
    decreases s.len(),
{
    reveal(Seq::filter);
    if s.len() == 0 {
        assert(s.filter(p) =~= Seq::<A>::empty());
        assert(s.filter(r) =~= Seq::<A>::empty());
    } else {
        let t = s.drop_last();
        let l = s.last();
        assert(forall|i: int| 0 <= i < t.len() ==> t[i] == #[trigger] s[i]);
        lemma_filter_compose_equiv(t, p, q, r);
        assert(s =~= t.push(l));
        lemma_filter_push(t, l, p);
        lemma_filter_push(t, l, r);
        assert(l == s[s.len() - 1]);
        if p(l) {
            lemma_filter_push(t.filter(p), l, q);
        }
    }
}

/// Two pointwise-equivalent predicates filter a sequence identically.
pub proof fn lemma_filter_equiv<A>(s: Seq<A>, p: spec_fn(A) -> bool, q: spec_fn(A) -> bool)
    requires
        forall|i: int| 0 <= i < s.len() ==> (p(#[trigger] s[i]) <==> q(s[i])),
    ensures
        s.filter(p) == s.filter(q),
    decreases s.len(),
{
    reveal(Seq::filter);
    if s.len() > 0 {
        let t = s.drop_last();
        let l = s.last();
        lemma_filter_equiv(t, p, q);
        assert(s =~= t.push(l));
        lemma_filter_push(t, l, p);
        lemma_filter_push(t, l, q);
        assert(l == s[s.len() - 1]);
    }
}

/// The index of the first element satisfying `pred`, or -1.
pub open spec fn find_first<A>(s: Seq<A>, pred: spec_fn(A) -> bool) -> int
    decreases s.len(),
{
    if s.len() == 0 {
        -1
    } else {
        let r = find_first(s.drop_last(), pred);
        if r >= 0 {
            r
        } else if pred(s.last()) {
            s.len() - 1
        } else {
            -1
        }
    }
}

/// What the first match means for `filter`: a negative result is an empty
/// filtered sequence, a non-negative one is the index of the first match,
/// which heads the filtered sequence.
pub proof fn lemma_find_first<A>(s: Seq<A>, pred: spec_fn(A) -> bool)
    ensures
        find_first(s, pred) < 0 ==> s.filter(pred).len() == 0 && forall|i: int|
            0 <= i < s.len() ==> !pred(#[trigger] s[i]),
        find_first(s, pred) >= 0 ==> {
            let k = find_first(s, pred);
            &&& 0 <= k < s.len()
            &&& pred(s[k])
            &&& forall|i: int| 0 <= i < k ==> !pred(#[trigger] s[i])
            &&& s.filter(pred).len() > 0
            &&& s.filter(pred)[0] == s[k]
        },
    decreases s.len(),
{
    reveal(Seq::filter);
    if s.len() > 0 {
        let t = s.drop_last();
        let l = s.last();
        lemma_find_first(t, pred);
        assert(s =~= t.push(l));
        lemma_filter_push(t, l, pred);
        assert(forall|i: int| 0 <= i < t.len() ==> t[i] == #[trigger] s[i]);
        assert(l == s[s.len() - 1]);
    }
}

pub proof fn lemma_find_first_none<A>(s: Seq<A>, pred: spec_fn(A) -> bool)
    requires
        forall|i: int| 0 <= i < s.len() ==> !pred(#[trigger] s[i]),
    ensures
        find_first(s, pred) < 0,
    decreases s.len(),
{
    if s.len() > 0 {
        let t = s.drop_last();
        assert(forall|i: int| 0 <= i < t.len() ==> t[i] == #[trigger] s[i]);
        lemma_find_first_none(t, pred);
        assert(!pred(s[s.len() - 1]));
    }
}

pub proof fn lemma_find_first_at<A>(s: Seq<A>, pred: spec_fn(A) -> bool, k: int)
    requires
        0 <= k < s.len(),
        pred(s[k]),
        forall|i: int| 0 <= i < k ==> !pred(#[trigger] s[i]),
    ensures
        find_first(s, pred) == k,
    decreases s.len(),
{
    let t = s.drop_last();
    assert(forall|i: int| 0 <= i < t.len() ==> t[i] == #[trigger] s[i]);
    if k < s.len() - 1 {
        lemma_find_first_at(t, pred, k);
    } else {
        lemma_find_first_none(t, pred);
        assert(pred(s.last()));
    }
}

/// A filter whose predicate holds everywhere changes nothing.
pub proof fn lemma_filter_all<A>(s: Seq<A>, pred: spec_fn(A) -> bool)
    requires
        forall|i: int| 0 <= i < s.len() ==> pred(#[trigger] s[i]),
    ensures
        s.filter(pred) == s,
    decreases s.len(),
{
    reveal(Seq::filter);
    if s.len() > 0 {
        let t = s.drop_last();
        assert(forall|i: int| 0 <= i < t.len() ==> t[i] == #[trigger] s[i]);
        lemma_filter_all(t, pred);
        assert(pred(s.last()));
        assert(s.filter(pred) =~= s);
    }
}

/// Two positions with the same value put it twice in the multiset.
pub proof fn lemma_dup_count<A>(s: Seq<A>, i: int, j: int)
    requires
        0 <= i < j < s.len(),
        s[i] == s[j],
    ensures
        s.to_multiset().count(s[i]) >= 2,
{
    broadcast use group_to_multiset_ensures;

    assert(s.remove(i).to_multiset() =~= s.to_multiset().remove(s[i]));
    assert(s.remove(i)[j - 1] == s[j]);
    assert(s.remove(i).contains(s[j]));
    assert(s.remove(i).to_multiset().count(s[j]) > 0);
}

/// Membership carries across equal multisets.
pub proof fn lemma_multiset_transfer<A>(a: Seq<A>, b: Seq<A>, x: A)
    requires
        a.to_multiset() == b.to_multiset(),
        a.contains(x),
    ensures
        b.contains(x),
{
    broadcast use group_to_multiset_ensures;

    assert(a.to_multiset().count(x) > 0);
}

/// A value counted at least twice sits at two distinct positions.
pub proof fn lemma_count2_dup<A>(s: Seq<A>, x: A)
    requires
        s.to_multiset().count(x) >= 2,
    ensures
        exists|a: int, b: int| 0 <= a < b < s.len() && s[a] == x && s[b] == x,
{
    broadcast use group_to_multiset_ensures;

    assert(s.contains(x));
    let a = choose|a: int| 0 <= a < s.len() && s[a] == x;
    assert(s.remove(a).to_multiset() =~= s.to_multiset().remove(x));
    assert(s.remove(a).to_multiset().count(x) >= 1);
    assert(s.remove(a).contains(x));
    let b0 = choose|b0: int| 0 <= b0 < s.remove(a).len() && s.remove(a)[b0] == x;
    if b0 < a {
        assert(s[b0] == x);
        assert(s[b0] == x && s[a] == x && b0 < a);
    } else {
        assert(s[b0 + 1] == x);
        assert(s[a] == x && s[b0 + 1] == x && a < b0 + 1);
    }
}

/// Every element of a filtered sequence occurs in the original.
pub proof fn lemma_filter_members<A>(s: Seq<A>, pred: spec_fn(A) -> bool)
    ensures
        forall|i: int|
            0 <= i < s.filter(pred).len() ==> s.contains(#[trigger] s.filter(pred)[i]),
    decreases s.len(),
{
    reveal(Seq::filter);
    if s.len() > 0 {
        let t = s.drop_last();
        let l = s.last();
        lemma_filter_members(t, pred);
        assert(s =~= t.push(l));
        lemma_filter_push(t, l, pred);
        assert forall|i: int|
            0 <= i < s.filter(pred).len() implies s.contains(#[trigger] s.filter(pred)[i]) by {
            if i < t.filter(pred).len() {
                assert(t.contains(t.filter(pred)[i]));
                let j = choose|j: int| 0 <= j < t.len() && t[j] == t.filter(pred)[i];
                assert(s[j] == t[j]);
            } else {
                assert(s.filter(pred)[i] == l);
                assert(s[s.len() - 1] == l);
            }
        }
    }
}

/// A pairwise property of a sequence carries over to any filtered form.
pub proof fn lemma_filter_pairwise<A>(s: Seq<A>, pred: spec_fn(A) -> bool, prop: spec_fn(A, A) -> bool)
    requires
        forall|i: int, j: int| 0 <= i < j < s.len() ==> #[trigger] prop(s[i], s[j]),
        forall|i: int, j: int| 0 <= i < j < s.len() ==> #[trigger] prop(s[j], s[i]),
    ensures
        forall|i: int, j: int|
            0 <= i < j < s.filter(pred).len() ==> #[trigger] prop(
                s.filter(pred)[i],
                s.filter(pred)[j],
            ),
    decreases s.len(),
{
    reveal(Seq::filter);
    if s.len() > 0 {
        let t = s.drop_last();
        let l = s.last();
        assert(forall|i: int| 0 <= i < t.len() ==> t[i] == #[trigger] s[i]);
        lemma_filter_pairwise(t, pred, prop);
        lemma_filter_members(t, pred);
        assert(s =~= t.push(l));
        lemma_filter_push(t, l, pred);
        let f = s.filter(pred);
        assert forall|i: int, j: int| 0 <= i < j < f.len() implies #[trigger] prop(f[i], f[j]) by {
            if j < t.filter(pred).len() {
            } else if pred(l) && j == f.len() - 1 && f.len() == t.filter(pred).len() + 1 {
                assert(f[j] == l);
                assert(f[i] == t.filter(pred)[i]);
                assert(t.contains(f[i]));
                let k = choose|k: int| 0 <= k < t.len() && t[k] == f[i];
                assert(prop(s[k], s[s.len() - 1]));
            }
        }
    }
}

/// Inserting anywhere adds exactly that element to the multiset.
pub proof fn lemma_insert_multiset<A>(s: Seq<A>, i: int, x: A)
    requires
        0 <= i <= s.len(),
    ensures
        s.insert(i, x).to_multiset() == s.to_multiset().insert(x),
{
    broadcast use group_to_multiset_ensures;

    let left = s.take(i);
    let right = s.skip(i);
    assert(s.insert(i, x) =~= left + (seq![x] + right));
    lemma_multiset_commutative(left, seq![x] + right);
    lemma_multiset_commutative(seq![x], right);
    assert(s =~= left + right);
    lemma_multiset_commutative(left, right);
    assert(seq![x] =~= Seq::<A>::empty().push(x));
    assert(seq![x].to_multiset() =~= Multiset::<A>::empty().insert(x));
    assert(s.insert(i, x).to_multiset() =~= s.to_multiset().insert(x));
}

} // verus!
