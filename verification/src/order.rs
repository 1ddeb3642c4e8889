//! Stable ordering by an integer key, as `sort_by_key` orders: equal keys keep
//! their original order.

use vstd::prelude::*;

verus! {

/// `s` with `x` placed before the first element whose key exceeds `x`'s.
pub open spec fn insert_by_key<T>(x: T, s: Seq<T>, key: spec_fn(T) -> int) -> Seq<T>
    decreases s.len(),
{
    if s.len() == 0 {
        seq![x]
    } else if key(x) < key(s[0]) {
        seq![x] + s
    } else {
        seq![s[0]] + insert_by_key(x, s.drop_first(), key)
    }
}

/// The stable sort of `s` by `key`: each element in turn is placed after every
/// earlier-placed element whose key is not larger.
pub open spec fn sort_by_key<T>(s: Seq<T>, key: spec_fn(T) -> int) -> Seq<T>
    decreases s.len(),
{
    if s.len() == 0 {
        s
    } else {
        insert_by_key(s.last(), sort_by_key(s.drop_last(), key), key)
    }
}

/// Keys never decrease along `s`.
pub open spec fn sorted_by<T>(s: Seq<T>, key: spec_fn(T) -> int) -> bool {
    forall|i: int, j: int| 0 <= i < j < s.len() ==> key(#[trigger] s[i]) <= key(#[trigger] s[j])
}

/// Where `x` goes in `s`: before the first element whose key exceeds `x`'s.
pub proof fn lemma_insert_at<T>(x: T, s: Seq<T>, key: spec_fn(T) -> int, p: int)
    requires
        0 <= p <= s.len(),
        forall|k: int| 0 <= k < p ==> !(key(x) < key(#[trigger] s[k])),
        p == s.len() || key(x) < key(s[p]),
    ensures
        insert_by_key(x, s, key) == s.take(p).push(x) + s.skip(p),
    decreases p,
{
    if s.len() == 0 {
        assert(s.take(p).push(x) + s.skip(p) =~= seq![x]);
    } else if p == 0 {
        assert(s.take(0).push(x) + s.skip(0) =~= seq![x] + s);
    } else {
        let t = s.drop_first();
        assert forall|k: int| 0 <= k < p - 1 implies !(key(x) < key(#[trigger] t[k])) by {
            assert(t[k] == s[k + 1]);
        }
        lemma_insert_at(x, t, key, p - 1);
        assert(seq![s[0]] + (t.take(p - 1).push(x) + t.skip(p - 1)) =~= s.take(p).push(x) + s.skip(p));
    }
}

pub proof fn lemma_insert_sorted<T>(x: T, s: Seq<T>, key: spec_fn(T) -> int)
    requires
        sorted_by(s, key),
    ensures
        sorted_by(insert_by_key(x, s, key), key),
        insert_by_key(x, s, key).to_multiset() == s.to_multiset().insert(x),
    decreases s.len(),
{
    broadcast use vstd::seq_lib::group_to_multiset_ensures;
    let r = insert_by_key(x, s, key);
    if s.len() == 0 {
        assert(r =~= seq![x]);
        assert(seq![x] =~= Seq::<T>::empty().push(x));
    } else if key(x) < key(s[0]) {
        assert(r =~= seq![x] + s);
        assert forall|i: int, j: int| 0 <= i < j < r.len() implies key(#[trigger] r[i]) <= key(#[trigger] r[j]) by {
            if i > 0 {
                assert(r[i] == s[i - 1]);
                assert(r[j] == s[j - 1]);
            } else {
                assert(r[j] == s[j - 1]);
                assert(key(s[0]) <= key(s[j - 1]));
            }
        }
        vstd::seq_lib::lemma_multiset_commutative(seq![x], s);
        assert(seq![x] =~= Seq::<T>::empty().push(x));
    } else {
        let t = s.drop_first();
        assert forall|i: int, j: int| 0 <= i < j < t.len() implies key(#[trigger] t[i]) <= key(#[trigger] t[j]) by {
            assert(t[i] == s[i + 1]);
            assert(t[j] == s[j + 1]);
        }
        lemma_insert_sorted(x, t, key);
        let rt = insert_by_key(x, t, key);
        assert(r =~= seq![s[0]] + rt);
        assert forall|k: int| 0 <= k < rt.len() implies key(s[0]) <= key(#[trigger] rt[k]) by {
            assert(rt.to_multiset().count(rt[k]) > 0);
            assert(rt.to_multiset().count(rt[k]) == t.to_multiset().insert(x).count(rt[k]));
            if rt[k] != x {
                assert(t.to_multiset().count(rt[k]) > 0);
                assert(t.contains(rt[k]));
                let m = choose|m: int| 0 <= m < t.len() && t[m] == rt[k];
                assert(t[m] == s[m + 1]);
            }
        }
        assert forall|i: int, j: int| 0 <= i < j < r.len() implies key(#[trigger] r[i]) <= key(#[trigger] r[j]) by {
            if i > 0 {
                assert(r[i] == rt[i - 1]);
                assert(r[j] == rt[j - 1]);
            } else {
                assert(r[j] == rt[j - 1]);
            }
        }
        vstd::seq_lib::lemma_multiset_commutative(seq![s[0]], rt);
        vstd::seq_lib::lemma_multiset_commutative(seq![s[0]], t);
        assert(seq![s[0]] + t =~= s);
    }
}

/// The stable sort orders by key and keeps exactly the same elements.
pub proof fn lemma_sort_by_key<T>(s: Seq<T>, key: spec_fn(T) -> int)
    ensures
        sorted_by(sort_by_key(s, key), key),
        sort_by_key(s, key).to_multiset() == s.to_multiset(),
        sort_by_key(s, key).len() == s.len(),
    decreases s.len(),
{
    broadcast use vstd::seq_lib::group_to_multiset_ensures;
    if s.len() > 0 {
        lemma_sort_by_key(s.drop_last(), key);
        lemma_insert_sorted(s.last(), sort_by_key(s.drop_last(), key), key);
        assert(s.drop_last().push(s.last()) =~= s);
    }
    let r = sort_by_key(s, key);
    assert(r.len() == r.to_multiset().len());
    assert(s.len() == s.to_multiset().len());
}

} // verus!
