//! Association sequences: keyed pairs in strictly ascending key order, and the
//! map that such a sequence stands for.

use vstd::prelude::*;
use crate::key_order::{
    key_lt, lemma_key_lt_asymmetric, lemma_key_lt_irreflexive, lemma_key_lt_total,
    lemma_key_lt_transitive,
};

verus! {

/// The keys of `s` rise strictly from each pair to the next.
pub open spec fn ascending<T>(s: Seq<(Seq<char>, T)>) -> bool {
    forall|i: int, j: int| 0 <= i < j < s.len() ==> key_lt(#[trigger] s[i].0, #[trigger] s[j].0)
}

/// Some pair of `s` has the key `k`.
pub open spec fn has_key<T>(s: Seq<(Seq<char>, T)>, k: Seq<char>) -> bool {
    exists|i: int| 0 <= i < s.len() && #[trigger] s[i].0 == k
}

/// A place in `s` where the key `k` stands.
pub open spec fn place_of<T>(s: Seq<(Seq<char>, T)>, k: Seq<char>) -> int {
    choose|i: int| 0 <= i < s.len() && #[trigger] s[i].0 == k
}

/// The map from each key of `s` to the value paired with it.
pub open spec fn as_map<T>(s: Seq<(Seq<char>, T)>) -> Map<Seq<char>, T> {
    Map::new(|k: Seq<char>| has_key(s, k), |k: Seq<char>| s[place_of(s, k)].1)
}

/// The place where `k` stands or would have to be put: every key before it is
/// smaller, and no key from it on is.
pub open spec fn is_slot<T>(s: Seq<(Seq<char>, T)>, k: Seq<char>, p: int) -> bool {
    &&& 0 <= p <= s.len()
    &&& forall|i: int| 0 <= i < p ==> key_lt(#[trigger] s[i].0, k)
    &&& forall|i: int| p <= i < s.len() ==> !key_lt(#[trigger] s[i].0, k)
}

/// The ascending sequence that stands for the map `m`.
pub open spec fn listing<T>(m: Map<Seq<char>, T>) -> Seq<(Seq<char>, T)> {
    choose|s: Seq<(Seq<char>, T)>| ascending(s) && as_map(s) == m
}

/// In an ascending sequence each key stands at one place only.
pub proof fn lemma_place<T>(s: Seq<(Seq<char>, T)>, i: int)
    requires
        ascending(s),
        0 <= i < s.len(),
    ensures
        has_key(s, s[i].0),
        place_of(s, s[i].0) == i,
        as_map(s).contains_key(s[i].0),
        as_map(s)[s[i].0] == s[i].1,
{
    let j = place_of(s, s[i].0);
    lemma_key_lt_irreflexive(s[i].0);
    if j < i {
        assert(key_lt(s[j].0, s[i].0));
    } else if i < j {
        assert(key_lt(s[i].0, s[j].0));
    }
}

/// A key is in the sequence exactly when it stands at its slot.
pub proof fn lemma_slot<T>(s: Seq<(Seq<char>, T)>, k: Seq<char>, p: int)
    requires
        ascending(s),
        is_slot(s, k, p),
    ensures
        has_key(s, k) <==> (p < s.len() && s[p].0 == k),
        has_key(s, k) ==> place_of(s, k) == p,
{
    lemma_key_lt_irreflexive(k);
    if has_key(s, k) {
        let j = place_of(s, k);
        if j < p {
            assert(key_lt(s[j].0, k));
        } else if j > p {
            assert(key_lt(s[p].0, s[j].0));
            assert(!key_lt(s[p].0, k));
        }
    }
}

/// Putting a new key at its slot keeps the order and adds the key to the map.
pub proof fn lemma_insert<T>(s: Seq<(Seq<char>, T)>, k: Seq<char>, v: T, p: int)
    requires
        ascending(s),
        is_slot(s, k, p),
        !has_key(s, k),
    ensures
        ascending(s.insert(p, (k, v))),
        as_map(s.insert(p, (k, v))) == as_map(s).insert(k, v),
{
    let t = s.insert(p, (k, v));
    assert forall|i: int, j: int| 0 <= i < j < t.len() implies key_lt(
        #[trigger] t[i].0,
        #[trigger] t[j].0,
    ) by {
        if j == p {
            assert(t[i] == s[i]);
        } else if i == p {
            assert(t[j] == s[j - 1]);
            assert(!key_lt(s[j - 1].0, k));
            assert(s[j - 1].0 != k);
            lemma_key_lt_total(s[j - 1].0, k);
        } else {
            let si = if i < p { i } else { i - 1 };
            let sj = if j < p { j } else { j - 1 };
            assert(t[i] == s[si]);
            assert(t[j] == s[sj]);
        }
    }
    assert forall|q: Seq<char>| has_key(t, q) <==> (q == k || has_key(s, q)) by {
        if has_key(t, q) {
            let i = place_of(t, q);
            if i < p {
                assert(t[i] == s[i]);
            } else if i > p {
                assert(t[i] == s[i - 1]);
            }
        }
        if q == k {
            assert(t[p].0 == k);
        }
        if has_key(s, q) {
            let i = place_of(s, q);
            if i < p {
                assert(t[i] == s[i]);
            } else {
                assert(t[i + 1] == s[i]);
            }
        }
    }
    assert forall|q: Seq<char>| has_key(t, q) implies #[trigger] as_map(t)[q] == as_map(s).insert(
        k,
        v,
    )[q] by {
        let i = place_of(t, q);
        lemma_place(t, i);
        if i < p {
            assert(t[i] == s[i]);
            lemma_place(s, i);
        } else if i > p {
            assert(t[i] == s[i - 1]);
            lemma_place(s, i - 1);
        }
    }
    assert(as_map(t) =~= as_map(s).insert(k, v));
}

/// Replacing the value at a place keeps the order and updates the map.
pub proof fn lemma_update<T>(s: Seq<(Seq<char>, T)>, p: int, v: T)
    requires
        ascending(s),
        0 <= p < s.len(),
    ensures
        ascending(s.update(p, (s[p].0, v))),
        as_map(s.update(p, (s[p].0, v))) == as_map(s).insert(s[p].0, v),
{
    let k = s[p].0;
    let t = s.update(p, (k, v));
    assert forall|i: int, j: int| 0 <= i < j < t.len() implies key_lt(
        #[trigger] t[i].0,
        #[trigger] t[j].0,
    ) by {
        assert(t[i].0 == s[i].0);
        assert(t[j].0 == s[j].0);
    }
    assert forall|q: Seq<char>| has_key(t, q) <==> has_key(s, q) by {
        if has_key(t, q) {
            let i = place_of(t, q);
            assert(s[i].0 == q);
        }
        if has_key(s, q) {
            let i = place_of(s, q);
            assert(t[i].0 == q);
        }
    }
    lemma_place(s, p);
    assert forall|q: Seq<char>| has_key(t, q) implies #[trigger] as_map(t)[q] == as_map(s).insert(
        k,
        v,
    )[q] by {
        let i = place_of(t, q);
        lemma_place(t, i);
        if i != p {
            assert(t[i] == s[i]);
            lemma_place(s, i);
        }
    }
    assert(as_map(t) =~= as_map(s).insert(k, v));
}

/// Taking the pair at a place out keeps the order and removes its key from the map.
pub proof fn lemma_remove<T>(s: Seq<(Seq<char>, T)>, p: int)
    requires
        ascending(s),
        0 <= p < s.len(),
    ensures
        ascending(s.remove(p)),
        as_map(s.remove(p)) == as_map(s).remove(s[p].0),
{
    let k = s[p].0;
    let t = s.remove(p);
    assert forall|i: int, j: int| 0 <= i < j < t.len() implies key_lt(
        #[trigger] t[i].0,
        #[trigger] t[j].0,
    ) by {
        let si = if i < p { i } else { i + 1 };
        let sj = if j < p { j } else { j + 1 };
        assert(t[i] == s[si]);
        assert(t[j] == s[sj]);
    }
    lemma_place(s, p);
    assert forall|q: Seq<char>| has_key(t, q) <==> (q != k && has_key(s, q)) by {
        if has_key(t, q) {
            let i = place_of(t, q);
            let si = if i < p { i } else { i + 1 };
            assert(t[i] == s[si]);
            lemma_place(s, si);
        }
        if q != k && has_key(s, q) {
            let i = place_of(s, q);
            let ti = if i < p { i } else { i - 1 };
            assert(t[ti] == s[i]);
        }
    }
    assert forall|q: Seq<char>| has_key(t, q) implies #[trigger] as_map(t)[q] == as_map(s).remove(
        k,
    )[q] by {
        let i = place_of(t, q);
        lemma_place(t, i);
        let si = if i < p { i } else { i + 1 };
        assert(t[i] == s[si]);
        lemma_place(s, si);
    }
    assert(as_map(t) =~= as_map(s).remove(k));
}

/// The map of an ascending sequence is finite and has one key for each pair.
pub proof fn lemma_len<T>(s: Seq<(Seq<char>, T)>)
    requires
        ascending(s),
    ensures
        as_map(s).dom().finite(),
        as_map(s).dom().len() == s.len(),
    decreases s.len(),
{
    if s.len() == 0 {
        assert(as_map(s).dom() =~= Set::empty());
    } else {
        let p = s.len() - 1;
        lemma_remove(s, p);
        assert(s.remove(p) =~= s.drop_last());
        lemma_len(s.drop_last());
        lemma_place(s, p);
        assert(as_map(s).dom() =~= as_map(s.drop_last()).dom().insert(s[p].0));
    }
}

/// Two ascending sequences that stand for the same map are the same sequence.
pub proof fn lemma_same_map_same_sequence<T>(s: Seq<(Seq<char>, T)>, t: Seq<(Seq<char>, T)>)
    requires
        ascending(s),
        ascending(t),
        as_map(s) == as_map(t),
    ensures
        s == t,
    decreases s.len(),
{
    lemma_len(s);
    lemma_len(t);
    if s.len() == 0 {
        assert(s =~= t);
    } else {
        let p = s.len() - 1;
        lemma_place(s, p);
        lemma_place(t, p);
        // the last key of each is the greatest key of the common map
        let js = place_of(t, s[p].0);
        let jt = place_of(s, t[p].0);
        assert(has_key(t, s[p].0));
        assert(has_key(s, t[p].0));
        lemma_key_lt_irreflexive(s[p].0);
        if s[p].0 != t[p].0 {
            assert(js < p);
            assert(jt < p);
            assert(key_lt(t[js].0, t[p].0));
            assert(key_lt(s[jt].0, s[p].0));
            lemma_key_lt_asymmetric(s[p].0, t[p].0);
        }
        assert(s[p].1 == as_map(s)[s[p].0]);
        assert(t[p].1 == as_map(t)[t[p].0]);
        lemma_remove(s, p);
        lemma_remove(t, p);
        assert(s.remove(p) =~= s.drop_last());
        assert(t.remove(p) =~= t.drop_last());
        lemma_same_map_same_sequence(s.drop_last(), t.drop_last());
        assert(s =~= s.drop_last().push(s[p]));
        assert(t =~= t.drop_last().push(t[p]));
    }
}

/// An ascending sequence is the listing of its own map.
pub proof fn lemma_listing<T>(s: Seq<(Seq<char>, T)>)
    requires
        ascending(s),
    ensures
        listing(as_map(s)) == s,
{
    lemma_same_map_same_sequence(listing(as_map(s)), s);
}

/// The sequence `s` with `f` applied to each value.
pub open spec fn with_values<T, U>(s: Seq<(Seq<char>, T)>, f: spec_fn(T) -> U) -> Seq<
    (Seq<char>, U),
> {
    s.map_values(|p: (Seq<char>, T)| (p.0, f(p.1)))
}

/// Applying a function to each value keeps the order, and does to the map what
/// it does to the sequence.
pub proof fn lemma_with_values<T, U>(s: Seq<(Seq<char>, T)>, f: spec_fn(T) -> U)
    requires
        ascending(s),
    ensures
        ascending(with_values(s, f)),
        as_map(with_values(s, f)) == as_map(s).map_values(f),
        listing(as_map(s).map_values(f)) == with_values(s, f),
{
    let t = with_values(s, f);
    assert forall|i: int, j: int| 0 <= i < j < t.len() implies key_lt(
        #[trigger] t[i].0,
        #[trigger] t[j].0,
    ) by {
        assert(t[i].0 == s[i].0);
        assert(t[j].0 == s[j].0);
    }
    assert forall|q: Seq<char>| has_key(t, q) <==> has_key(s, q) by {
        if has_key(t, q) {
            let i = place_of(t, q);
            assert(s[i].0 == q);
        }
        if has_key(s, q) {
            let i = place_of(s, q);
            assert(t[i].0 == q);
        }
    }
    assert forall|q: Seq<char>| has_key(t, q) implies #[trigger] as_map(t)[q] == f(
        as_map(s)[q],
    ) by {
        let i = place_of(t, q);
        lemma_place(t, i);
        assert(s[i].0 == q);
        lemma_place(s, i);
    }
    assert(as_map(t) =~= as_map(s).map_values(f));
    lemma_listing(t);
}

/// The first `n + 1` pairs stand for the map of the first `n` with the next pair added.
pub proof fn lemma_take_next<T>(s: Seq<(Seq<char>, T)>, n: int)
    requires
        ascending(s),
        0 <= n < s.len(),
    ensures
        ascending(s.take(n)),
        ascending(s.take(n + 1)),
        !as_map(s.take(n)).contains_key(s[n].0),
        as_map(s.take(n + 1)) == as_map(s.take(n)).insert(s[n].0, s[n].1),
{
    let t = s.take(n);
    assert forall|i: int, j: int| 0 <= i < j < t.len() implies key_lt(
        #[trigger] t[i].0,
        #[trigger] t[j].0,
    ) by {
        assert(t[i] == s[i]);
        assert(t[j] == s[j]);
    }
    assert forall|i: int| 0 <= i < n implies key_lt(#[trigger] t[i].0, s[n].0) by {
        assert(t[i] == s[i]);
    }
    assert(is_slot(t, s[n].0, n));
    lemma_slot(t, s[n].0, n);
    lemma_insert(t, s[n].0, s[n].1, n);
    assert(t.insert(n, s[n]) =~= s.take(n + 1));
}

/// The empty sequence stands for the empty map.
pub proof fn lemma_empty<T>()
    ensures
        ascending(Seq::<(Seq<char>, T)>::empty()),
        as_map(Seq::<(Seq<char>, T)>::empty()) == Map::<Seq<char>, T>::empty(),
{
    assert(as_map(Seq::<(Seq<char>, T)>::empty()) =~= Map::<Seq<char>, T>::empty());
}

/// The map `m` has a listing: an ascending sequence that stands for it.
pub open spec fn listable<T>(m: Map<Seq<char>, T>) -> bool {
    ascending(listing(m)) && as_map(listing(m)) == m
}

/// The place where `k` stands in `s` or would have to be put.
pub open spec fn slot_of<T>(s: Seq<(Seq<char>, T)>, k: Seq<char>) -> int
    decreases s.len(),
{
    if s.len() == 0 {
        0
    } else if key_lt(s.last().0, k) {
        s.len() as int
    } else {
        slot_of(s.drop_last(), k)
    }
}

/// Every key has a slot in an ascending sequence.
pub proof fn lemma_slot_of<T>(s: Seq<(Seq<char>, T)>, k: Seq<char>)
    requires
        ascending(s),
    ensures
        is_slot(s, k, slot_of(s, k)),
    decreases s.len(),
{
    if s.len() > 0 {
        let n = s.len() - 1;
        if key_lt(s.last().0, k) {
            assert forall|i: int| 0 <= i < s.len() implies key_lt(#[trigger] s[i].0, k) by {
                if i < n {
                    assert(key_lt(s[i].0, s[n].0));
                    lemma_key_lt_transitive(s[i].0, s[n].0, k);
                }
            }
        } else {
            let t = s.drop_last();
            assert forall|i: int, j: int| 0 <= i < j < t.len() implies key_lt(
                #[trigger] t[i].0,
                #[trigger] t[j].0,
            ) by {
                assert(t[i] == s[i]);
                assert(t[j] == s[j]);
            }
            lemma_slot_of(t, k);
            let p = slot_of(t, k);
            assert forall|i: int| 0 <= i < p implies key_lt(#[trigger] s[i].0, k) by {
                assert(t[i] == s[i]);
            }
            assert forall|i: int| p <= i < s.len() implies !key_lt(#[trigger] s[i].0, k) by {
                if i < n {
                    assert(t[i] == s[i]);
                }
            }
        }
    }
}

/// Every finite map has a listing.
pub proof fn lemma_finite_listable<T>(m: Map<Seq<char>, T>)
    requires
        m.dom().finite(),
    ensures
        listable(m),
    decreases m.dom().len(),
{
    if m.dom().len() == 0 {
        lemma_empty::<T>();
        assert(m.dom() =~= Set::empty());
        assert(m =~= Map::<Seq<char>, T>::empty());
        lemma_listing(Seq::<(Seq<char>, T)>::empty());
    } else {
        let k = m.dom().choose();
        let rest = m.remove(k);
        lemma_finite_listable(rest);
        let s = listing(rest);
        lemma_slot_of(s, k);
        let p = slot_of(s, k);
        assert(!has_key(s, k)) by {
            assert(!as_map(s).contains_key(k));
        }
        lemma_insert(s, k, m[k], p);
        let t = s.insert(p, (k, m[k]));
        assert(as_map(t) =~= m);
        lemma_listing(t);
    }
}

} // verus!
