//! An ordered table from byte-string keys to records.
//!
//! Keys are ordered as byte strings: by the first byte in which they differ, a
//! proper prefix coming before its extensions. A table holds each key at most
//! once and lists its records in ascending key order, which is what makes a
//! scan by key prefix come out in creation order for keys that end in a
//! time-sortable identifier.

use vstd::prelude::*;

verus! {

/// `k` is the first position at which `a` and `b` differ, and `a` is the
/// smaller one there: either `a` ends at `k` and `b` goes on, or `a[k] < b[k]`.
pub open spec fn smaller_at(a: Seq<u8>, b: Seq<u8>, k: int) -> bool {
    &&& 0 <= k <= a.len()
    &&& k <= b.len()
    &&& forall|j: int| 0 <= j < k ==> a[j] == b[j]
    &&& k < b.len()
    &&& k < a.len() ==> a[k] < b[k]
}

/// The order of keys: `a` comes strictly before `b`.
pub open spec fn key_lt(a: Seq<u8>, b: Seq<u8>) -> bool {
    exists|k: int| smaller_at(a, b, k)
}

/// No key comes before itself.
pub proof fn lemma_key_lt_irreflexive(a: Seq<u8>)
    ensures
        !key_lt(a, a),
{
}

/// The order of keys is transitive.
pub proof fn lemma_key_lt_transitive(a: Seq<u8>, b: Seq<u8>, c: Seq<u8>)
    requires
        key_lt(a, b),
        key_lt(b, c),
    ensures
        key_lt(a, c),
{
    let k1 = choose|k: int| smaller_at(a, b, k);
    let k2 = choose|k: int| smaller_at(b, c, k);
    let k = if k1 <= k2 {
        k1
    } else {
        k2
    };
    assert(smaller_at(a, c, k));
}

/// Of two keys at most one comes before the other.
pub proof fn lemma_key_lt_asymmetric(a: Seq<u8>, b: Seq<u8>)
    requires
        key_lt(a, b),
    ensures
        !key_lt(b, a),
        a != b,
{
    if key_lt(b, a) {
        lemma_key_lt_transitive(a, b, a);
        lemma_key_lt_irreflexive(a);
    }
    lemma_key_lt_irreflexive(a);
}

/// How one key stands to another.
#[derive(Debug, Clone, Copy, PartialEq, Eq, Structural)]
pub enum Rank {
    /// It comes before the other.
    Before,
    /// It is the other.
    Same,
    /// It comes after the other.
    After,
}

/// What a [`Rank`] says of two keys.
pub open spec fn ranks(r: Rank, a: Seq<u8>, b: Seq<u8>) -> bool {
    match r {
        Rank::Before => key_lt(a, b),
        Rank::Same => a == b,
        Rank::After => key_lt(b, a),
    }
}

/// Compares two keys.
pub fn rank_keys(a: &[u8], b: &[u8]) -> (r: Rank)
    ensures
        ranks(r, a@, b@),
{
    let mut i: usize = 0;
    while i < a.len() && i < b.len()
        invariant
            i <= a@.len(),
            i <= b@.len(),
            forall|j: int| 0 <= j < i ==> a@[j] == b@[j],
        decreases a@.len() - i,
    {
        if a[i] < b[i] {
            assert(smaller_at(a@, b@, i as int));
            return Rank::Before;
        }
        if b[i] < a[i] {
            assert(smaller_at(b@, a@, i as int));
            return Rank::After;
        }
        i += 1;
    }
    if i < b.len() {
        assert(smaller_at(a@, b@, i as int));
        Rank::Before
    } else if i < a.len() {
        assert(smaller_at(b@, a@, i as int));
        Rank::After
    } else {
        assert(a@ =~= b@);
        Rank::Same
    }
}

/// Whether `key` begins with `prefix`.
pub fn has_prefix(key: &[u8], prefix: &[u8]) -> (r: bool)
    ensures
        r == prefix@.is_prefix_of(key@),
{
    if prefix.len() > key.len() {
        return false;
    }
    let mut i: usize = 0;
    while i < prefix.len()
        invariant
            i <= prefix@.len(),
            prefix@.len() <= key@.len(),
            forall|j: int| 0 <= j < i ==> prefix@[j] == key@[j],
        decreases prefix@.len() - i,
    {
        if prefix[i] != key[i] {
            assert(key@.subrange(0, prefix@.len() as int)[i as int] != prefix@[i as int]);
            return false;
        }
        i += 1;
    }
    assert(prefix@ =~= key@.subrange(0, prefix@.len() as int));
    true
}

/// A sequence of keyed records in strictly ascending key order.
pub open spec fn ascending<V>(s: Seq<(Seq<u8>, V)>) -> bool {
    forall|i: int, j: int| 0 <= i < j < s.len() ==> key_lt(#[trigger] s[i].0, #[trigger] s[j].0)
}

/// Whether some record of `s` is filed under `key`.
pub open spec fn has_key<V>(s: Seq<(Seq<u8>, V)>, key: Seq<u8>) -> bool {
    exists|i: int| 0 <= i < s.len() && #[trigger] s[i].0 == key
}

/// Where `key` is filed in `s`, if it is.
pub open spec fn position_of<V>(s: Seq<(Seq<u8>, V)>, key: Seq<u8>) -> int {
    choose|i: int| 0 <= i < s.len() && #[trigger] s[i].0 == key
}

/// The record filed under `key`, if there is one.
pub open spec fn record_at<V>(s: Seq<(Seq<u8>, V)>, key: Seq<u8>) -> Option<V> {
    if has_key(s, key) {
        Some(s[position_of(s, key)].1)
    } else {
        None
    }
}

/// How many keys of `s` come before `key`: the place where `key` belongs.
pub open spec fn place_of<V>(s: Seq<(Seq<u8>, V)>, key: Seq<u8>) -> int
    decreases s.len(),
{
    if s.len() == 0 {
        0
    } else if key_lt(s.last().0, key) {
        s.len() as int
    } else {
        place_of(s.drop_last(), key)
    }
}

/// `s` with `value` filed under `key`: in place of the record that was there,
/// or else where the key belongs.
pub open spec fn filed<V>(s: Seq<(Seq<u8>, V)>, key: Seq<u8>, value: V) -> Seq<(Seq<u8>, V)> {
    if has_key(s, key) {
        s.update(position_of(s, key), (key, value))
    } else {
        s.insert(place_of(s, key), (key, value))
    }
}

/// `s` without the record filed under `key`.
pub open spec fn unfiled<V>(s: Seq<(Seq<u8>, V)>, key: Seq<u8>) -> Seq<(Seq<u8>, V)> {
    if has_key(s, key) {
        s.remove(position_of(s, key))
    } else {
        s
    }
}

/// In an ascending sequence a key is filed at one place only.
pub proof fn lemma_position_unique<V>(s: Seq<(Seq<u8>, V)>, key: Seq<u8>, i: int)
    requires
        ascending(s),
        0 <= i < s.len(),
        s[i].0 == key,
    ensures
        has_key(s, key),
        position_of(s, key) == i,
        record_at(s, key) == Some(s[i].1),
{
    let p = position_of(s, key);
    if p < i {
        lemma_key_lt_irreflexive(key);
        assert(key_lt(s[p].0, s[i].0));
    } else if i < p {
        lemma_key_lt_irreflexive(key);
        assert(key_lt(s[i].0, s[p].0));
    }
}

/// The place of a key splits an ascending sequence: every key before it is
/// smaller than the key, and no key from it on is.
pub proof fn lemma_place_of<V>(s: Seq<(Seq<u8>, V)>, key: Seq<u8>)
    requires
        ascending(s),
    ensures
        0 <= place_of(s, key) <= s.len(),
        forall|j: int| 0 <= j < place_of(s, key) ==> key_lt(#[trigger] s[j].0, key),
        forall|j: int| place_of(s, key) <= j < s.len() ==> !key_lt(#[trigger] s[j].0, key),
    decreases s.len(),
{
    if s.len() == 0 {
    } else if key_lt(s.last().0, key) {
        assert forall|j: int| 0 <= j < s.len() implies key_lt(#[trigger] s[j].0, key) by {
            if j < s.len() - 1 {
                assert(key_lt(s[j].0, s[s.len() - 1].0));
                lemma_key_lt_transitive(s[j].0, s.last().0, key);
            }
        }
    } else {
        let front = s.drop_last();
        assert(ascending(front)) by {
            assert forall|i: int, j: int| 0 <= i < j < front.len() implies key_lt(
                #[trigger] front[i].0,
                #[trigger] front[j].0,
            ) by {
                assert(front[i] == s[i] && front[j] == s[j]);
            }
        }
        lemma_place_of(front, key);
        assert forall|j: int| 0 <= j < place_of(s, key) implies key_lt(#[trigger] s[j].0, key) by {
            assert(front[j] == s[j]);
        }
        assert forall|j: int| place_of(s, key) <= j < s.len() implies !key_lt(
            #[trigger] s[j].0,
            key,
        ) by {
            if j < s.len() - 1 {
                assert(front[j] == s[j]);
            }
        }
    }
}

/// A split point with the two properties of [`lemma_place_of`] is the place.
pub proof fn lemma_place_is<V>(s: Seq<(Seq<u8>, V)>, key: Seq<u8>, p: int)
    requires
        ascending(s),
        0 <= p <= s.len(),
        forall|j: int| 0 <= j < p ==> key_lt(#[trigger] s[j].0, key),
        forall|j: int| p <= j < s.len() ==> !key_lt(#[trigger] s[j].0, key),
    ensures
        place_of(s, key) == p,
{
    lemma_place_of(s, key);
    let q = place_of(s, key);
    if q < p {
        assert(key_lt(s[q].0, key));
    } else if p < q {
        assert(key_lt(s[p].0, key));
    }
}

/// Filing a record keeps the order, files the record, and leaves every other
/// key with the record it had.
pub proof fn lemma_filed<V>(s: Seq<(Seq<u8>, V)>, key: Seq<u8>, value: V)
    requires
        ascending(s),
    ensures
        ascending(filed(s, key, value)),
        record_at(filed(s, key, value), key) == Some(value),
        forall|other: Seq<u8>| other != key ==> record_at(filed(s, key, value), other) == record_at(
            s,
            other,
        ),
{
    let t = filed(s, key, value);
    if has_key(s, key) {
        let p = position_of(s, key);
        assert forall|i: int, j: int| 0 <= i < j < t.len() implies key_lt(
            #[trigger] t[i].0,
            #[trigger] t[j].0,
        ) by {
            assert(t[i].0 == s[i].0 && t[j].0 == s[j].0);
        }
        lemma_position_unique(t, key, p);
        assert forall|other: Seq<u8>| other != key implies record_at(t, other) == record_at(
            s,
            other,
        ) by {
            if has_key(s, other) {
                let q = position_of(s, other);
                assert(t[q] == s[q]);
                lemma_position_unique(t, other, q);
            } else if has_key(t, other) {
                let q = position_of(t, other);
                assert(s[q].0 == t[q].0);
            }
        }
    } else {
        let p = place_of(s, key);
        lemma_place_of(s, key);
        assert forall|j: int| p <= j < s.len() implies key_lt(key, #[trigger] s[j].0) by {
            lemma_trichotomy(s[j].0, key);
            assert(s[j].0 != key);
        }
        assert forall|i: int, j: int| 0 <= i < j < t.len() implies key_lt(
            #[trigger] t[i].0,
            #[trigger] t[j].0,
        ) by {
            let a = if i < p {
                s[i]
            } else if i == p {
                (key, value)
            } else {
                s[i - 1]
            };
            let b = if j < p {
                s[j]
            } else if j == p {
                (key, value)
            } else {
                s[j - 1]
            };
            assert(t[i] == a && t[j] == b);
            if i < p && j > p {
                assert(key_lt(s[i].0, s[j - 1].0));
            } else if i > p {
                assert(key_lt(s[i - 1].0, s[j - 1].0));
            } else if j < p {
                assert(key_lt(s[i].0, s[j].0));
            }
        }
        assert(t[p] == (key, value));
        lemma_position_unique(t, key, p);
        assert forall|other: Seq<u8>| other != key implies record_at(t, other) == record_at(
            s,
            other,
        ) by {
            if has_key(s, other) {
                let q = position_of(s, other);
                let q2 = if q < p {
                    q
                } else {
                    q + 1
                };
                assert(t[q2] == s[q]);
                lemma_position_unique(t, other, q2);
            } else if has_key(t, other) {
                let q = position_of(t, other);
                if q < p {
                    assert(t[q] == s[q]);
                } else {
                    assert(t[q] == s[q - 1]);
                }
            }
        }
    }
}

/// Removing a key keeps the order, removes the key, and leaves every other
/// key with the record it had.
pub proof fn lemma_unfiled<V>(s: Seq<(Seq<u8>, V)>, key: Seq<u8>)
    requires
        ascending(s),
    ensures
        ascending(unfiled(s, key)),
        record_at(unfiled(s, key), key) is None,
        forall|other: Seq<u8>| other != key ==> record_at(unfiled(s, key), other) == record_at(
            s,
            other,
        ),
{
    let t = unfiled(s, key);
    if has_key(s, key) {
        let p = position_of(s, key);
        assert forall|i: int| 0 <= i < t.len() implies #[trigger] t[i] == (if i < p {
            s[i]
        } else {
            s[i + 1]
        }) by {}
        assert forall|i: int, j: int| 0 <= i < j < t.len() implies key_lt(
            #[trigger] t[i].0,
            #[trigger] t[j].0,
        ) by {
            let a = if i < p {
                i
            } else {
                i + 1
            };
            let b = if j < p {
                j
            } else {
                j + 1
            };
            assert(t[i] == s[a] && t[j] == s[b]);
            assert(key_lt(s[a].0, s[b].0));
        }
        if has_key(t, key) {
            let q = position_of(t, key);
            let q2 = if q < p {
                q
            } else {
                q + 1
            };
            assert(t[q] == s[q2]);
            lemma_position_unique(s, key, q2);
        }
        assert forall|other: Seq<u8>| other != key implies record_at(t, other) == record_at(
            s,
            other,
        ) by {
            if has_key(s, other) {
                let q = position_of(s, other);
                let q2 = if q < p {
                    q
                } else {
                    q - 1
                };
                assert(t[q2] == s[q]);
                lemma_position_unique(t, other, q2);
            } else if has_key(t, other) {
                let q = position_of(t, other);
                let q2 = if q < p {
                    q
                } else {
                    q + 1
                };
                assert(t[q] == s[q2]);
            }
        }
    }
}

/// Of two keys, one comes before the other or they are the same key.
pub proof fn lemma_trichotomy(a: Seq<u8>, b: Seq<u8>)
    ensures
        key_lt(a, b) || a == b || key_lt(b, a),
    decreases a.len() + b.len(),
{
    lemma_common_prefix(a, b, 0);
}

/// From a position up to which two keys agree, either they differ further on
/// or they are the same key.
proof fn lemma_common_prefix(a: Seq<u8>, b: Seq<u8>, k: int)
    requires
        0 <= k <= a.len(),
        k <= b.len(),
        forall|j: int| 0 <= j < k ==> a[j] == b[j],
    ensures
        key_lt(a, b) || a == b || key_lt(b, a),
    decreases a.len() - k,
{
    if k == a.len() {
        if k == b.len() {
            assert(a =~= b);
        } else {
            assert(smaller_at(a, b, k));
        }
    } else if k == b.len() {
        assert(smaller_at(b, a, k));
    } else if a[k] < b[k] {
        assert(smaller_at(a, b, k));
    } else if b[k] < a[k] {
        assert(smaller_at(b, a, k));
    } else {
        lemma_common_prefix(a, b, k + 1);
    }
}

/// Taking a record out of an ascending sequence leaves it ascending.
pub proof fn lemma_remove_keeps_order<V>(s: Seq<(Seq<u8>, V)>, p: int)
    requires
        ascending(s),
        0 <= p < s.len(),
    ensures
        ascending(s.remove(p)),
{
    let t = s.remove(p);
    assert forall|i: int, j: int| 0 <= i < j < t.len() implies key_lt(
        #[trigger] t[i].0,
        #[trigger] t[j].0,
    ) by {
        let a = if i < p {
            i
        } else {
            i + 1
        };
        let b = if j < p {
            j
        } else {
            j + 1
        };
        assert(t[i] == s[a] && t[j] == s[b]);
        assert(key_lt(s[a].0, s[b].0));
    }
}

/// The views of a sequence of records, in the same order.
pub open spec fn views<V: View>(v: Seq<V>) -> Seq<V::V> {
    v.map_values(|x: V| x@)
}

/// The records of `s`, without their keys.
pub open spec fn records<V>(s: Seq<(Seq<u8>, V)>) -> Seq<V> {
    s.map_values(|e: (Seq<u8>, V)| e.1)
}

/// The records of `s` whose key begins with `prefix`, in the order of `s`.
pub open spec fn under_prefix<V>(s: Seq<(Seq<u8>, V)>, prefix: Seq<u8>) -> Seq<V> {
    records(s.filter(|e: (Seq<u8>, V)| prefix.is_prefix_of(e.0)))
}

/// What one more entry adds to a scan by prefix.
pub proof fn lemma_under_prefix_step<V>(s: Seq<(Seq<u8>, V)>, prefix: Seq<u8>, i: int)
    requires
        0 <= i < s.len(),
    ensures
        under_prefix(s.take(i + 1), prefix) == if prefix.is_prefix_of(s[i].0) {
            under_prefix(s.take(i), prefix).push(s[i].1)
        } else {
            under_prefix(s.take(i), prefix)
        },
{
    let pred = |e: (Seq<u8>, V)| prefix.is_prefix_of(e.0);
    let value = |e: (Seq<u8>, V)| e.1;
    s.lemma_take_succ_push(i);
    s.take(i).lemma_filter_push(s[i], pred);
    s.take(i).filter(pred).lemma_push_map_commute(value, s[i]);
}

/// What one more entry adds to a listing of all records.
pub proof fn lemma_records_step<V>(s: Seq<(Seq<u8>, V)>, i: int)
    requires
        0 <= i < s.len(),
    ensures
        records(s.take(i + 1)) == records(s.take(i)).push(s[i].1),
{
    let value = |e: (Seq<u8>, V)| e.1;
    s.lemma_take_succ_push(i);
    s.take(i).lemma_push_map_commute(value, s[i]);
}

/// What one more record adds to the views of a sequence.
pub proof fn lemma_views_push<V: View>(v: Seq<V>, x: V)
    ensures
        views(v.push(x)) == views(v).push(x@),
{
    v.lemma_push_map_commute(|x: V| x@, x);
}

/// `s` after each of `items` has been filed in turn.
pub open spec fn filed_all<V>(s: Seq<(Seq<u8>, V)>, items: Seq<(Seq<u8>, V)>) -> Seq<(Seq<u8>, V)>
    decreases items.len(),
{
    if items.len() == 0 {
        s
    } else {
        filed(filed_all(s, items.drop_last()), items.last().0, items.last().1)
    }
}

/// Filing a run of records keeps the order. Afterwards a key is filed
/// exactly when it was filed before or is the key of one of the records, and
/// a key that is not among the records' keys has the record it had.
pub proof fn lemma_filed_all<V>(s: Seq<(Seq<u8>, V)>, items: Seq<(Seq<u8>, V)>)
    requires
        ascending(s),
    ensures
        ascending(filed_all(s, items)),
        forall|key: Seq<u8>|
            has_key(filed_all(s, items), key) <==> has_key(s, key) || has_key(items, key),
        forall|key: Seq<u8>|
            !has_key(items, key) ==> record_at(filed_all(s, items), key) == record_at(s, key),
    decreases items.len(),
{
    if items.len() > 0 {
        let front = items.drop_last();
        let last = items.last();
        let before = filed_all(s, front);
        lemma_filed_all(s, front);
        lemma_filed(before, last.0, last.1);
        let after = filed_all(s, items);
        assert forall|key: Seq<u8>|
            has_key(after, key) <==> has_key(s, key) || has_key(items, key) by {
            if key == last.0 {
                assert(items[items.len() - 1].0 == key);
            } else {
                assert(record_at(after, key) == record_at(before, key));
                if has_key(front, key) {
                    let i = choose|i: int| 0 <= i < front.len() && #[trigger] front[i].0 == key;
                    assert(items[i].0 == key);
                }
                if has_key(items, key) {
                    let i = choose|i: int| 0 <= i < items.len() && #[trigger] items[i].0 == key;
                    assert(front[i].0 == key);
                }
            }
        }
        assert forall|key: Seq<u8>| !has_key(items, key) implies record_at(after, key)
            == record_at(s, key) by {
            if key == last.0 {
                assert(items[items.len() - 1].0 == key);
            }
            if has_key(front, key) {
                let i = choose|i: int| 0 <= i < front.len() && #[trigger] front[i].0 == key;
                assert(items[i].0 == key);
            }
        }
    }
}

/// After a run of records in ascending key order has been filed, each of
/// them is the record found under its key.
pub proof fn lemma_filed_all_holds<V>(s: Seq<(Seq<u8>, V)>, items: Seq<(Seq<u8>, V)>, i: int)
    requires
        ascending(s),
        ascending(items),
        0 <= i < items.len(),
    ensures
        record_at(filed_all(s, items), items[i].0) == Some(items[i].1),
    decreases items.len(),
{
    let front = items.drop_last();
    let last = items.last();
    let before = filed_all(s, front);
    lemma_filed_all(s, front);
    lemma_filed(before, last.0, last.1);
    if i < items.len() - 1 {
        assert(ascending(front)) by {
            assert forall|a: int, b: int| 0 <= a < b < front.len() implies key_lt(
                #[trigger] front[a].0,
                #[trigger] front[b].0,
            ) by {
                assert(front[a] == items[a] && front[b] == items[b]);
            }
        }
        lemma_filed_all_holds(s, front, i);
        assert(front[i] == items[i]);
        assert(key_lt(items[i].0, items[items.len() - 1].0));
        lemma_key_lt_asymmetric(items[i].0, last.0);
    }
}

/// Leaving records out of an ascending sequence leaves it ascending, and
/// every record that stays was there before.
pub proof fn lemma_filter_keeps_order<V>(s: Seq<(Seq<u8>, V)>, pred: spec_fn((Seq<u8>, V)) -> bool)
    requires
        ascending(s),
    ensures
        ascending(s.filter(pred)),
        forall|i: int|
            0 <= i < s.filter(pred).len() ==> s.contains(#[trigger] s.filter(pred)[i]) && pred(
                s.filter(pred)[i],
            ),
        forall|i: int| 0 <= i < s.len() && pred(s[i]) ==> s.filter(pred).contains(#[trigger] s[i]),
    decreases s.len(),
{
    broadcast use vstd::seq_lib::group_filter_ensures;

    let t = s.filter(pred);
    if s.len() == 0 {
        reveal(Seq::filter);
    } else {
        let front = s.drop_last();
        assert(front.push(s.last()) =~= s);
        front.lemma_filter_push(s.last(), pred);
        assert(ascending(front)) by {
            assert forall|a: int, b: int| 0 <= a < b < front.len() implies key_lt(
                #[trigger] front[a].0,
                #[trigger] front[b].0,
            ) by {
                assert(front[a] == s[a] && front[b] == s[b]);
            }
        }
        lemma_filter_keeps_order(front, pred);
        let ft = front.filter(pred);
        assert forall|i: int| 0 <= i < t.len() implies s.contains(#[trigger] t[i]) && pred(
            t[i],
        ) by {
            if i < ft.len() {
                assert(t[i] == ft[i]);
                assert(front.contains(ft[i]));
                let m = choose|m: int| 0 <= m < front.len() && front[m] == ft[i];
                assert(s[m] == ft[i]);
            } else {
                assert(t[i] == s[s.len() - 1]);
            }
        }
        assert forall|a: int, b: int| 0 <= a < b < t.len() implies key_lt(
            #[trigger] t[a].0,
            #[trigger] t[b].0,
        ) by {
            if b < ft.len() {
                assert(t[a] == ft[a] && t[b] == ft[b]);
            } else {
                assert(t[a] == ft[a]);
                assert(front.contains(ft[a]));
                let m = choose|m: int| 0 <= m < front.len() && front[m] == ft[a];
                assert(s[m] == ft[a]);
                assert(key_lt(s[m].0, s[s.len() - 1].0));
            }
        }
    }
}

/// The view of an optional record.
pub open spec fn opt_view<V: View>(o: Option<V>) -> Option<V::V> {
    match o {
        Some(v) => Some(v@),
        None => None,
    }
}

/// One record of a table, with the key it is filed under.
pub struct Slot<V> {
    pub key: Vec<u8>,
    pub value: V,
}

/// An ordered table from byte-string keys to records of type `V`.
pub struct Tree<V> {
    slots: Vec<Slot<V>>,
}

impl<V: View> Tree<V> {
    /// The table's content: the views of its records with their keys, in the
    /// table's order.
    pub closed spec fn entries(&self) -> Seq<(Seq<u8>, V::V)> {
        Seq::new(self.slots@.len(), |i: int| (self.slots@[i].key@, self.slots@[i].value@))
    }

    /// The table's invariant: keys ascend strictly, so none occurs twice.
    pub open spec fn wf(&self) -> bool {
        ascending(self.entries())
    }

    /// An empty table.
    pub fn new() -> (tree: Self)
        ensures
            tree.wf(),
            tree.entries() == Seq::<(Seq<u8>, V::V)>::empty(),
    {
        let tree = Tree { slots: Vec::new() };
        assert(tree.entries() =~= Seq::<(Seq<u8>, V::V)>::empty());
        tree
    }

    /// The number of records.
    pub fn len(&self) -> (n: usize)
        ensures
            n == self.entries().len(),
    {
        self.slots.len()
    }

    /// The key of the record at position `i`.
    pub fn key_at(&self, i: usize) -> (key: &Vec<u8>)
        requires
            i < self.entries().len(),
        ensures
            key@ == self.entries()[i as int].0,
    {
        &self.slots[i].key
    }

    /// The record at position `i`.
    pub fn value_at(&self, i: usize) -> (value: &V)
        requires
            i < self.entries().len(),
        ensures
            value@ == self.entries()[i as int].1,
    {
        &self.slots[i].value
    }

    /// Takes the record at position `i` out of the table.
    pub fn pop_at(&mut self, i: usize) -> (slot: Slot<V>)
        requires
            old(self).wf(),
            i < old(self).entries().len(),
        ensures
            final(self).wf(),
            final(self).entries() == old(self).entries().remove(i as int),
            (slot.key@, slot.value@) == old(self).entries()[i as int],
    {
        let ghost before = self.entries();
        proof {
            lemma_remove_keeps_order(before, i as int);
        }
        let slot = self.slots.remove(i);
        assert(self.entries() =~= before.remove(i as int));
        slot
    }

    /// The position at which `key` is filed, or, where it is not filed, the
    /// position at which it belongs.
    pub fn locate(&self, key: &[u8]) -> (r: Result<usize, usize>)
        requires
            self.wf(),
        ensures
            r matches Ok(i) ==> i < self.entries().len() && self.entries()[i as int].0 == key@
                && has_key(self.entries(), key@) && position_of(self.entries(), key@) == i,
            r matches Err(p) ==> !has_key(self.entries(), key@) && p == place_of(
                self.entries(),
                key@,
            ) && p <= self.entries().len(),
    {
        let mut i: usize = 0;
        while i < self.slots.len()
            invariant
                self.wf(),
                i <= self.entries().len(),
                self.entries().len() == self.slots@.len(),
                forall|j: int| 0 <= j < i ==> key_lt(#[trigger] self.entries()[j].0, key@),
            decreases self.slots@.len() - i,
        {
            let r = rank_keys(self.slots[i].key.as_slice(), key);
            assert(self.entries()[i as int].0 == self.slots@[i as int].key@);
            match r {
                Rank::Before => {},
                Rank::Same => {
                    proof {
                        lemma_position_unique(self.entries(), key@, i as int);
                    }
                    return Ok(i);
                },
                Rank::After => {
                    proof {
                        self.lemma_absent_from(key@, i as int);
                    }
                    return Err(i);
                },
            }
            i += 1;
        }
        proof {
            let s = self.entries();
            assert forall|j: int| 0 <= j < s.len() implies #[trigger] s[j].0 != key@ by {
                lemma_key_lt_asymmetric(s[j].0, key@);
            }
            lemma_place_is(s, key@, i as int);
        }
        Err(i)
    }

    /// Where every key before `p` is smaller than `key` and the key at `p` is
    /// larger, `key` is not filed and belongs at `p`.
    proof fn lemma_absent_from(&self, key: Seq<u8>, p: int)
        requires
            self.wf(),
            0 <= p < self.entries().len(),
            forall|j: int| 0 <= j < p ==> key_lt(#[trigger] self.entries()[j].0, key),
            key_lt(key, self.entries()[p].0),
        ensures
            !has_key(self.entries(), key),
            place_of(self.entries(), key) == p,
    {
        let s = self.entries();
        assert forall|j: int| p <= j < s.len() implies !key_lt(#[trigger] s[j].0, key) && s[j].0
            != key by {
            if j > p {
                assert(key_lt(s[p].0, s[j].0));
                lemma_key_lt_transitive(key, s[p].0, s[j].0);
            }
            lemma_key_lt_asymmetric(key, s[j].0);
        }
        assert forall|j: int| 0 <= j < p implies #[trigger] s[j].0 != key by {
            lemma_key_lt_asymmetric(s[j].0, key);
        }
        lemma_place_is(s, key, p);
    }

    /// The record filed under `key`, if there is one.
    pub fn get(&self, key: &[u8]) -> (r: Option<&V>)
        requires
            self.wf(),
        ensures
            match r {
                Some(value) => Some(value@) == record_at(self.entries(), key@),
                None => record_at(self.entries(), key@) is None,
            },
    {
        match self.locate(key) {
            Ok(i) => Some(&self.slots[i].value),
            Err(_) => None,
        }
    }

    /// Whether a record is filed under `key`.
    pub fn contains_key(&self, key: &[u8]) -> (r: bool)
        requires
            self.wf(),
        ensures
            r == has_key(self.entries(), key@),
    {
        self.locate(key).is_ok()
    }

    /// Files `value` under `key`, in place of the record that was filed there,
    /// which is returned.
    pub fn insert(&mut self, key: Vec<u8>, value: V) -> (previous: Option<V>)
        requires
            old(self).wf(),
        ensures
            final(self).wf(),
            final(self).entries() == filed(old(self).entries(), key@, value@),
            opt_view(previous) == record_at(old(self).entries(), key@),
    {
        proof {
            lemma_filed(self.entries(), key@, value@);
        }
        let ghost before = self.entries();
        match self.locate(key.as_slice()) {
            Ok(i) => {
                let previous = self.slots.remove(i);
                self.slots.insert(i, Slot { key, value });
                assert(self.entries() =~= before.update(i as int, (key@, value@)));
                Some(previous.value)
            },
            Err(p) => {
                self.slots.insert(p, Slot { key, value });
                assert(self.entries() =~= before.insert(p as int, (key@, value@)));
                None
            },
        }
    }

    /// Removes the record filed under `key` and returns it.
    pub fn remove(&mut self, key: &[u8]) -> (removed: Option<V>)
        requires
            old(self).wf(),
        ensures
            final(self).wf(),
            final(self).entries() == unfiled(old(self).entries(), key@),
            opt_view(removed) == record_at(old(self).entries(), key@),
    {
        proof {
            lemma_unfiled(self.entries(), key@);
        }
        let ghost before = self.entries();
        match self.locate(key) {
            Ok(i) => {
                let slot = self.slots.remove(i);
                assert(self.entries() =~= before.remove(i as int));
                Some(slot.value)
            },
            Err(_) => None,
        }
    }
}

} // verus!
