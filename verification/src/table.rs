//! Keyed tables backed by association vectors.
//!
//! The resource tables of this library (blob results by image key, image
//! and font resources, per-scene epochs) are association vectors with
//! unique keys. Their contracts speak of the abstract [`Map`] each vector
//! denotes; the lemmas here connect vector edits to map edits.

use vstd::prelude::*;

verus! {

/// Whether some entry carries key `k`.
pub open spec fn tbl_has<K, V>(s: Seq<(K, V)>, k: K) -> bool {
    exists|i: int| 0 <= i < s.len() && s[i].0 == k
}

/// No two entries carry the same key.
pub open spec fn tbl_unique<K, V>(s: Seq<(K, V)>) -> bool {
    forall|i: int, j: int| 0 <= i < j < s.len() ==> #[trigger] s[i].0 != #[trigger] s[j].0
}

/// The map an association vector denotes; later entries win, which does
/// not matter under [`tbl_unique`].
pub open spec fn tbl_map<K, V>(s: Seq<(K, V)>) -> Map<K, V>
    decreases s.len(),
{
    if s.len() == 0 {
        Map::empty()
    } else {
        tbl_map(s.drop_last()).insert(s.last().0, s.last().1)
    }
}

/// A key is in the denoted map exactly when some entry carries it.
pub proof fn lemma_tbl_dom<K, V>(s: Seq<(K, V)>, k: K)
    ensures
        tbl_has(s, k) == tbl_map(s).dom().contains(k),
    decreases s.len(),
{
    if s.len() == 0 {
    } else {
        lemma_tbl_dom(s.drop_last(), k);
        if s.last().0 == k {
            assert(s[s.len() - 1].0 == k);
        } else {
            assert(tbl_has(s.drop_last(), k) ==> tbl_has(s, k)) by {
                if tbl_has(s.drop_last(), k) {
                    let i = choose|i: int|
                        0 <= i < s.drop_last().len() && s.drop_last()[i].0 == k;
                    assert(s[i].0 == k);
                }
            }
            assert(tbl_has(s, k) ==> tbl_has(s.drop_last(), k)) by {
                if tbl_has(s, k) {
                    let i = choose|i: int| 0 <= i < s.len() && s[i].0 == k;
                    assert(i < s.len() - 1);
                    assert(s.drop_last()[i].0 == k);
                }
            }
        }
    }
}

/// Appending a new entry inserts it into the denoted map.
pub proof fn lemma_tbl_push<K, V>(s: Seq<(K, V)>, k: K, v: V)
    ensures
        tbl_map(s.push((k, v))) == tbl_map(s).insert(k, v),
        !tbl_has(s, k) && tbl_unique(s) ==> tbl_unique(s.push((k, v))),
{
    let sp = s.push((k, v));
    assert(sp.drop_last() =~= s);
    assert(sp.last() == (k, v));
    if !tbl_has(s, k) && tbl_unique(s) {
        assert forall|i: int, j: int| 0 <= i < j < sp.len() implies #[trigger] sp[i].0
            != #[trigger] sp[j].0 by {
            if j < s.len() {
                assert(s[i].0 != s[j].0);
            } else {
                assert(sp[j].0 == k);
                assert(sp[i].0 == s[i].0);
                assert(!(s[i].0 == k));
            }
        }
    }
}

/// The entry at a position of a unique table is what the denoted map
/// holds for its key.
pub proof fn lemma_tbl_at<K, V>(s: Seq<(K, V)>, i: int)
    requires
        tbl_unique(s),
        0 <= i < s.len(),
    ensures
        tbl_map(s).dom().contains(s[i].0),
        tbl_map(s)[s[i].0] == s[i].1,
    decreases s.len(),
{
    if i == s.len() - 1 {
    } else {
        assert(tbl_unique(s.drop_last())) by {
            assert forall|a: int, b: int| 0 <= a < b < s.drop_last().len() implies
                #[trigger] s.drop_last()[a].0 != #[trigger] s.drop_last()[b].0 by {
                assert(s[a].0 != s[b].0);
            }
        }
        lemma_tbl_at(s.drop_last(), i);
        assert(s.drop_last()[i] == s[i]);
        assert(s[i].0 != s.last().0);
    }
}

/// Removing the entry at a position removes its key from the denoted map.
pub proof fn lemma_tbl_remove<K, V>(s: Seq<(K, V)>, i: int)
    requires
        tbl_unique(s),
        0 <= i < s.len(),
    ensures
        tbl_map(s.remove(i)) == tbl_map(s).remove(s[i].0),
        tbl_unique(s.remove(i)),
    decreases s.len(),
{
    assert forall|a: int, b: int| 0 <= a < b < s.remove(i).len() implies #[trigger] s.remove(
        i,
    )[a].0 != #[trigger] s.remove(i)[b].0 by {
        s.remove_ensures(i);
        let a2: int = if a < i {
            a
        } else {
            a + 1
        };
        let b2: int = if b < i {
            b
        } else {
            b + 1
        };
        assert(s.remove(i)[a] == s[a2]);
        assert(s.remove(i)[b] == s[b2]);
        assert(s[a2].0 != s[b2].0);
    }
    if i == s.len() - 1 {
        assert(s.remove(i) =~= s.drop_last());
        assert(!tbl_has(s.drop_last(), s[i].0)) by {
            if tbl_has(s.drop_last(), s[i].0) {
                let j = choose|j: int|
                    0 <= j < s.drop_last().len() && s.drop_last()[j].0 == s[i].0;
                assert(s[j].0 == s[i].0);
                assert(j < i);
            }
        }
        lemma_tbl_dom(s.drop_last(), s[i].0);
        assert(tbl_map(s.drop_last()) =~= tbl_map(s).remove(s[i].0));
    } else {
        assert(tbl_unique(s.drop_last())) by {
            assert forall|a: int, b: int| 0 <= a < b < s.drop_last().len() implies
                #[trigger] s.drop_last()[a].0 != #[trigger] s.drop_last()[b].0 by {
                assert(s[a].0 != s[b].0);
            }
        }
        lemma_tbl_remove(s.drop_last(), i);
        assert(s.remove(i).drop_last() =~= s.drop_last().remove(i)) by {
            s.remove_ensures(i);
            s.drop_last().remove_ensures(i);
        }
        assert(s.remove(i).last() == s.last()) by {
            s.remove_ensures(i);
        }
        assert(tbl_map(s.remove(i)) == tbl_map(s.drop_last().remove(i)).insert(
            s.last().0,
            s.last().1,
        ));
        assert(s[i].0 != s.last().0);
        assert(tbl_map(s.drop_last()).remove(s[i].0).insert(s.last().0, s.last().1)
            =~= tbl_map(s.drop_last()).insert(s.last().0, s.last().1).remove(s[i].0));
    }
}

} // verus!

verus! {

/// Removing a key then inserting it again is just inserting it.
pub proof fn lemma_map_remove_insert<K, V>(m: Map<K, V>, k: K, v: V)
    ensures
        m.remove(k).insert(k, v) == m.insert(k, v),
{
    assert(m.remove(k).insert(k, v) =~= m.insert(k, v));
}

/// Removes the entry at a known position and hands it back.
pub fn tbl_remove_at<K, V>(v: &mut Vec<(K, V)>, i: usize) -> (r: (K, V))
    requires
        tbl_unique(old(v)@),
        i < old(v)@.len(),
    ensures
        tbl_unique(final(v)@),
        r == old(v)@[i as int],
        tbl_map(final(v)@) == tbl_map(old(v)@).remove(r.0),
        tbl_map(old(v)@).dom().contains(r.0),
        tbl_map(old(v)@)[r.0] == r.1,
        !tbl_has(final(v)@, r.0),
{
    proof {
        lemma_tbl_at(v@, i as int);
        lemma_tbl_remove(v@, i as int);
        lemma_tbl_dom(v@.remove(i as int), v@[i as int].0);
    }
    v.remove(i)
}

/// Appends an entry whose key no entry carries yet.
pub fn tbl_push_new<K, V>(v: &mut Vec<(K, V)>, k: K, value: V)
    requires
        tbl_unique(old(v)@),
        !tbl_has(old(v)@, k),
    ensures
        tbl_unique(final(v)@),
        tbl_map(final(v)@) == tbl_map(old(v)@).insert(k, value),
{
    proof {
        lemma_tbl_push(v@, k, value);
    }
    v.push((k, value));
}

} // verus!
