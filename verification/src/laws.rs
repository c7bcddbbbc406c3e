//! The library's general laws, stated over the contents model that the
//! store's contracts use and proved once and for all.

use vstd::prelude::*;

use crate::model::{
    key_seq, keys_of, lemma_put_all_dom, lemma_put_all_last_wins, lemma_put_all_untouched,
    put_all,
};

verus! {

/// Round-trip: writing `v` under `k` makes `k` present, a read of `k`
/// returns exactly `v`, and its reported size is the length of `v`.
pub proof fn lemma_put_round_trip(m: Map<Seq<u8>, Seq<u8>>, k: Seq<u8>, v: Seq<u8>)
    ensures
        m.insert(k, v).contains_key(k),
        m.insert(k, v)[k] == v,
        m.insert(k, v)[k].len() == v.len(),
{
}

/// Delete idempotence: deleting an absent key leaves the contents unchanged,
/// and after any delete the key is absent, so reads and existence checks
/// reflect absence.
pub proof fn lemma_delete_idempotent(m: Map<Seq<u8>, Seq<u8>>, k: Seq<u8>)
    ensures
        !m.contains_key(k) ==> m.remove(k) == m,
        !m.remove(k).contains_key(k),
{
    if !m.contains_key(k) {
        assert(m.remove(k) =~= m);
    }
}

/// Bulk visibility: one bulk write of records with pairwise distinct keys
/// makes every record visible with exactly its value.  Together with the
/// unchanged-contents clause of a failed flush, this is the atomicity of a
/// bulk write: all records become visible, or none does.
pub proof fn lemma_bulk_put_all_visible(m: Map<Seq<u8>, Seq<u8>>, recs: Seq<(Seq<u8>, Seq<u8>)>)
    requires
        forall|p: int, q: int|
            0 <= p < q < recs.len() ==> (#[trigger] recs[p]).0 != (#[trigger] recs[q]).0,
    ensures
        forall|i: int|
            0 <= i < recs.len() ==> put_all(m, recs).contains_key((#[trigger] recs[i]).0)
                && put_all(m, recs)[recs[i].0] == recs[i].1,
{
    assert forall|i: int|
        0 <= i < recs.len() implies put_all(m, recs).contains_key((#[trigger] recs[i]).0)
        && put_all(m, recs)[recs[i].0] == recs[i].1 by {
        lemma_put_all_last_wins(m, recs, i);
    }
}

/// Bulk writes leave every key outside the batch untouched.
pub proof fn lemma_bulk_put_frame(m: Map<Seq<u8>, Seq<u8>>, recs: Seq<(Seq<u8>, Seq<u8>)>, k: Seq<u8>)
    requires
        !keys_of(recs).contains(k),
    ensures
        put_all(m, recs).contains_key(k) == m.contains_key(k),
        m.contains_key(k) ==> put_all(m, recs)[k] == m[k],
{
    lemma_put_all_untouched(m, recs, k);
}

/// Migration completeness: writing records with pairwise distinct keys into
/// an empty destination yields contents holding exactly one key per record,
/// every record visible.
pub proof fn lemma_migration_complete(recs: Seq<(Seq<u8>, Seq<u8>)>)
    requires
        forall|p: int, q: int|
            0 <= p < q < recs.len() ==> (#[trigger] recs[p]).0 != (#[trigger] recs[q]).0,
    ensures
        put_all(Map::<Seq<u8>, Seq<u8>>::empty(), recs).dom().finite(),
        put_all(Map::<Seq<u8>, Seq<u8>>::empty(), recs).dom().len() == recs.len(),
        forall|i: int|
            0 <= i < recs.len() ==> put_all(Map::<Seq<u8>, Seq<u8>>::empty(), recs).contains_key(
                (#[trigger] recs[i]).0,
            ),
{
    let e = Map::<Seq<u8>, Seq<u8>>::empty();
    lemma_put_all_dom(e, recs);
    let ks = key_seq(recs);
    assert(forall|i: int| 0 <= i < recs.len() ==> ks[i] == (#[trigger] recs[i]).0);
    assert(ks.no_duplicates());
    ks.unique_seq_to_set();
    assert(put_all(e, recs).dom() =~= ks.to_set());
    lemma_bulk_put_all_visible(e, recs);
}

/// Clear semantics: after a clear the contents are the empty map, so no key
/// is retrievable and the key count is zero.
pub proof fn lemma_clear_semantics(k: Seq<u8>)
    ensures
        !Map::<Seq<u8>, Seq<u8>>::empty().contains_key(k),
        Map::<Seq<u8>, Seq<u8>>::empty().dom().len() == 0,
{
    assert(Map::<Seq<u8>, Seq<u8>>::empty().dom() =~= Set::<Seq<u8>>::empty());
}

} // verus!
