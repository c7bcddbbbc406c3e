//! Mathematical model of a key-value store: its contents are a map from
//! byte-string keys to byte-string values, and every write path is described
//! as a fold of single-key operations over that map.

use vstd::prelude::*;

verus! {

/// The contents after writing every record in order; a later record with the
/// same key overwrites an earlier one.
pub open spec fn put_all(
    m: Map<Seq<u8>, Seq<u8>>,
    recs: Seq<(Seq<u8>, Seq<u8>)>,
) -> Map<Seq<u8>, Seq<u8>>
    decreases recs.len(),
{
    if recs.len() == 0 {
        m
    } else {
        put_all(m, recs.drop_last()).insert(recs.last().0, recs.last().1)
    }
}

/// The contents after removing every listed key.
pub open spec fn remove_all(m: Map<Seq<u8>, Seq<u8>>, keys: Seq<Seq<u8>>) -> Map<Seq<u8>, Seq<u8>>
    decreases keys.len(),
{
    if keys.len() == 0 {
        m
    } else {
        remove_all(m, keys.drop_last()).remove(keys.last())
    }
}

/// The keys of a record sequence, in order.
pub open spec fn key_seq(recs: Seq<(Seq<u8>, Seq<u8>)>) -> Seq<Seq<u8>> {
    recs.map_values(|r: (Seq<u8>, Seq<u8>)| r.0)
}

/// The set of keys that a record sequence mentions.
pub open spec fn keys_of(recs: Seq<(Seq<u8>, Seq<u8>)>) -> Set<Seq<u8>> {
    key_seq(recs).to_set()
}

/// The abstract records of a sequence of byte-vector pairs.
pub open spec fn recs_view(rs: Seq<(Vec<u8>, Vec<u8>)>) -> Seq<(Seq<u8>, Seq<u8>)> {
    rs.map_values(|r: (Vec<u8>, Vec<u8>)| (r.0@, r.1@))
}

/// The abstract keys of a sequence of byte vectors.
pub open spec fn keys_view(ks: Seq<Vec<u8>>) -> Seq<Seq<u8>> {
    ks.map_values(|k: Vec<u8>| k@)
}

/// Writing records in two runs, one after the other, reaches the same
/// contents as writing their concatenation in one run.
pub proof fn lemma_put_all_append(
    m: Map<Seq<u8>, Seq<u8>>,
    a: Seq<(Seq<u8>, Seq<u8>)>,
    b: Seq<(Seq<u8>, Seq<u8>)>,
)
    ensures
        put_all(m, a + b) == put_all(put_all(m, a), b),
    decreases b.len(),
{
    if b.len() == 0 {
        assert(a + b =~= a);
    } else {
        lemma_put_all_append(m, a, b.drop_last());
        assert((a + b).drop_last() =~= a + b.drop_last());
        assert((a + b).last() == b.last());
    }
}

/// Writing records adds exactly their keys to the domain of the contents.
pub proof fn lemma_put_all_dom(m: Map<Seq<u8>, Seq<u8>>, recs: Seq<(Seq<u8>, Seq<u8>)>)
    ensures
        put_all(m, recs).dom() =~= m.dom() + keys_of(recs),
    decreases recs.len(),
{
    if recs.len() == 0 {
        assert(keys_of(recs) =~= Set::<Seq<u8>>::empty());
    } else {
        lemma_put_all_dom(m, recs.drop_last());
        assert forall|k: Seq<u8>| keys_of(recs).contains(k) implies
            keys_of(recs.drop_last()).contains(k) || k == recs.last().0 by {
            let ks = key_seq(recs);
            let i = choose|i: int| 0 <= i < ks.len() && ks[i] == k;
            if i < ks.len() - 1 {
                assert(key_seq(recs.drop_last())[i] == k);
            }
        }
        assert forall|k: Seq<u8>| keys_of(recs.drop_last()).contains(k) implies
            keys_of(recs).contains(k) by {
            let ks = key_seq(recs.drop_last());
            let i = choose|i: int| 0 <= i < ks.len() && ks[i] == k;
            assert(key_seq(recs)[i] == k);
        }
        assert(key_seq(recs)[recs.len() - 1] == recs.last().0);
    }
}

/// The last record written for a key decides its value.
pub proof fn lemma_put_all_last_wins(
    m: Map<Seq<u8>, Seq<u8>>,
    recs: Seq<(Seq<u8>, Seq<u8>)>,
    i: int,
)
    requires
        0 <= i < recs.len(),
        forall|j: int| i < j < recs.len() ==> (#[trigger] recs[j]).0 != recs[i].0,
    ensures
        put_all(m, recs).contains_key(recs[i].0),
        put_all(m, recs)[recs[i].0] == recs[i].1,
    decreases recs.len(),
{
    if i == recs.len() - 1 {
    } else {
        lemma_put_all_last_wins(m, recs.drop_last(), i);
    }
}

/// A key that no record mentions keeps its old binding.
pub proof fn lemma_put_all_untouched(
    m: Map<Seq<u8>, Seq<u8>>,
    recs: Seq<(Seq<u8>, Seq<u8>)>,
    k: Seq<u8>,
)
    requires
        !keys_of(recs).contains(k),
    ensures
        put_all(m, recs).contains_key(k) == m.contains_key(k),
        m.contains_key(k) ==> put_all(m, recs)[k] == m[k],
    decreases recs.len(),
{
    if recs.len() == 0 {
    } else {
        assert(key_seq(recs)[recs.len() - 1] == recs.last().0);
        assert(recs.last().0 != k) by {
            if recs.last().0 == k {
                assert(key_seq(recs).to_set().contains(k));
            }
        }
        assert(!keys_of(recs.drop_last()).contains(k)) by {
            if keys_of(recs.drop_last()).contains(k) {
                let ks = key_seq(recs.drop_last());
                let i = choose|i: int| 0 <= i < ks.len() && ks[i] == k;
                assert(key_seq(recs)[i] == k);
                assert(key_seq(recs).to_set().contains(k));
            }
        }
        lemma_put_all_untouched(m, recs.drop_last(), k);
    }
}

} // verus!
