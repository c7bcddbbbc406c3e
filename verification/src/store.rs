//! The key-value store façade: point reads and writes, deletes, existence
//! checks, atomic bulk writes and deletes, key counting, and full clear,
//! all specified against the contents map of `crate::model`.
//!
//! The store keeps its entries in a vector whose keys are unique; its view
//! is the map those entries denote.

use vstd::prelude::*;

use crate::errors::StoreError;
use crate::model::{
    key_seq, keys_of, keys_view, lemma_put_all_dom, lemma_put_all_last_wins, put_all, recs_view,
    remove_all,
};

verus! {

/// Entries with pairwise distinct keys.
pub open spec fn unique_keys(s: Seq<(Vec<u8>, Vec<u8>)>) -> bool {
    forall|i: int, j: int|
        0 <= i < j < s.len() ==> (#[trigger] s[i]).0@ != (#[trigger] s[j]).0@
}

/// The contents map that a sequence of entries denotes.
pub open spec fn map_of(s: Seq<(Vec<u8>, Vec<u8>)>) -> Map<Seq<u8>, Seq<u8>> {
    put_all(Map::<Seq<u8>, Seq<u8>>::empty(), recs_view(s))
}

/// Peeling off the final entry of a non-empty entry sequence.
proof fn lemma_map_of_unfold(s: Seq<(Vec<u8>, Vec<u8>)>)
    requires
        s.len() > 0,
    ensures
        map_of(s) == map_of(s.drop_last()).insert(s.last().0@, s.last().1@),
{
    assert(recs_view(s).drop_last() =~= recs_view(s.drop_last()));
    assert(recs_view(s).last() == (s.last().0@, s.last().1@));
}

/// A key is in the contents exactly when some entry carries it.
proof fn lemma_map_of_contains(s: Seq<(Vec<u8>, Vec<u8>)>, k: Seq<u8>)
    ensures
        map_of(s).contains_key(k) <==> (exists|i: int|
            0 <= i < s.len() && (#[trigger] s[i]).0@ == k),
{
    lemma_put_all_dom(Map::<Seq<u8>, Seq<u8>>::empty(), recs_view(s));
    let ks = key_seq(recs_view(s));
    assert(forall|i: int| 0 <= i < s.len() ==> ks[i] == (#[trigger] s[i]).0@);
    if map_of(s).contains_key(k) {
        assert(keys_of(recs_view(s)).contains(k));
        let i = choose|i: int| 0 <= i < ks.len() && ks[i] == k;
        assert(s[i].0@ == k);
    }
    if exists|i: int| 0 <= i < s.len() && (#[trigger] s[i]).0@ == k {
        let i = choose|i: int| 0 <= i < s.len() && (#[trigger] s[i]).0@ == k;
        assert(ks[i] == k);
        assert(ks.to_set().contains(k));
        assert(map_of(s).dom().contains(k));
    }
}

/// With unique keys, the entry that carries a key decides its value.
proof fn lemma_map_of_index(s: Seq<(Vec<u8>, Vec<u8>)>, i: int)
    requires
        unique_keys(s),
        0 <= i < s.len(),
    ensures
        map_of(s).contains_key(s[i].0@),
        map_of(s)[s[i].0@] == s[i].1@,
{
    assert(forall|j: int|
        0 <= j < s.len() ==> (#[trigger] recs_view(s)[j]) == (s[j].0@, s[j].1@));
    lemma_put_all_last_wins(Map::<Seq<u8>, Seq<u8>>::empty(), recs_view(s), i);
}

/// With unique keys, removing an entry removes exactly its key from the
/// contents.
proof fn lemma_map_of_remove(s: Seq<(Vec<u8>, Vec<u8>)>, i: int)
    requires
        unique_keys(s),
        0 <= i < s.len(),
    ensures
        map_of(s.remove(i)) == map_of(s).remove(s[i].0@),
    decreases s.len(),
{
    let k = s[i].0@;
    if i == s.len() - 1 {
        assert(s.remove(i) =~= s.drop_last());
        lemma_map_of_unfold(s);
        lemma_map_of_contains(s.drop_last(), k);
        assert(!map_of(s.drop_last()).contains_key(k));
        assert(map_of(s.drop_last()).insert(k, s.last().1@).remove(k) =~= map_of(
            s.drop_last(),
        ));
    } else {
        let s2 = s.drop_last();
        let e = s.last();
        assert(s.remove(i).drop_last() =~= s2.remove(i));
        assert(s.remove(i).last() == e);
        assert(s.remove(i).len() > 0);
        lemma_map_of_unfold(s.remove(i));
        lemma_map_of_remove(s2, i);
        lemma_map_of_unfold(s);
        assert(e.0@ != k);
        assert(map_of(s2).remove(k).insert(e.0@, e.1@) =~= map_of(s2).insert(
            e.0@,
            e.1@,
        ).remove(k));
    }
}

/// With unique keys, the contents hold exactly one key per entry.
proof fn lemma_map_of_count(s: Seq<(Vec<u8>, Vec<u8>)>)
    requires
        unique_keys(s),
    ensures
        map_of(s).dom().finite(),
        map_of(s).dom().len() == s.len(),
{
    lemma_put_all_dom(Map::<Seq<u8>, Seq<u8>>::empty(), recs_view(s));
    let ks = key_seq(recs_view(s));
    assert(forall|i: int| 0 <= i < s.len() ==> ks[i] == (#[trigger] s[i]).0@);
    assert(ks.no_duplicates());
    ks.unique_seq_to_set();
    assert(map_of(s).dom() =~= ks.to_set());
}

/// Configuration knobs recognized when opening a store over a persistent
/// engine: creation on a missing path, large-value offloading with its size
/// threshold, and direct I/O for background work and reads.  They tune the
/// engine's write path and have no effect on the contents.
pub struct StoreOptions {
    pub create_if_missing: bool,
    pub enable_large_value_offload: bool,
    pub large_value_threshold: u64,
    pub use_direct_io_for_flush_and_compaction: bool,
    pub use_direct_reads: bool,
}

/// The default options: create missing storage, and offload values above
/// half a mebibyte to the append-optimized area.
pub fn default_options() -> (r: StoreOptions)
    ensures
        r.create_if_missing,
        r.enable_large_value_offload,
        r.large_value_threshold == 512 * 1024,
        !r.use_direct_io_for_flush_and_compaction,
        !r.use_direct_reads,
{
    StoreOptions {
        create_if_missing: true,
        enable_large_value_offload: true,
        large_value_threshold: 512 * 1024,
        use_direct_io_for_flush_and_compaction: false,
        use_direct_reads: false,
    }
}

/// Byte-string equality.
fn bytes_eq(a: &[u8], b: &[u8]) -> (r: bool)
    ensures
        r == (a@ == b@),
{
    if a.len() != b.len() {
        return false;
    }
    let mut i: usize = 0;
    while i < a.len()
        invariant
            a@.len() == b@.len(),
            i <= a@.len(),
            forall|j: int| 0 <= j < i as int ==> a@[j] == b@[j],
        decreases a@.len() - i as int,
    {
        if a[i] != b[i] {
            return false;
        }
        i = i + 1;
    }
    proof {
        assert(a@ =~= b@);
    }
    true
}

/// A key-value store whose contents are the map of its entries.
pub struct KvStore {
    entries: Vec<(Vec<u8>, Vec<u8>)>,
}

impl View for KvStore {
    type V = Map<Seq<u8>, Seq<u8>>;

    closed spec fn view(&self) -> Map<Seq<u8>, Seq<u8>> {
        map_of(self.entries@)
    }
}

impl KvStore {
    /// Well-formed: no key occurs in two entries.
    pub closed spec fn wf(&self) -> bool {
        unique_keys(self.entries@)
    }

    /// An empty store.
    pub fn new() -> (r: KvStore)
        ensures
            r.wf(),
            r@ == Map::<Seq<u8>, Seq<u8>>::empty(),
    {
        KvStore { entries: Vec::new() }
    }

    /// The index of the entry that carries `key`, if any.
    fn find(&self, key: &[u8]) -> (r: Option<usize>)
        ensures
            match r {
                Some(i) => i < self.entries@.len() && self.entries@[i as int].0@ == key@,
                None => forall|i: int|
                    0 <= i < self.entries@.len() ==> (#[trigger] self.entries@[i]).0@ != key@,
            },
    {
        let mut i: usize = 0;
        while i < self.entries.len()
            invariant
                i <= self.entries@.len(),
                forall|j: int|
                    0 <= j < i as int ==> (#[trigger] self.entries@[j]).0@ != key@,
            decreases self.entries@.len() - i as int,
        {
            if bytes_eq(self.entries[i].0.as_slice(), key) {
                return Some(i);
            }
            i = i + 1;
        }
        None
    }

    /// Writes `value` under `key`, overwriting any existing value.
    pub fn put(&mut self, key: &[u8], value: &[u8]) -> (r: Result<(), StoreError>)
        requires
            old(self).wf(),
        ensures
            final(self).wf(),
            r is Ok,
            final(self)@ == old(self)@.insert(key@, value@),
    {
        let ghost s0 = self.entries@;
        match self.find(key) {
            Some(i) => {
                let _ = self.entries.remove(i);
                proof {
                    lemma_map_of_remove(s0, i as int);
                    assert forall|p: int, q: int|
                        0 <= p < q < self.entries@.len() implies (#[trigger] self.entries@[p]).0@
                        != (#[trigger] self.entries@[q]).0@ by {
                        assert(self.entries@ == s0.remove(i as int));
                    }
                    assert forall|p: int|
                        0 <= p < self.entries@.len() implies (#[trigger] self.entries@[p]).0@
                        != key@ by {
                        if p < i as int {
                            assert(self.entries@[p] == s0[p]);
                        } else {
                            assert(self.entries@[p] == s0[p + 1]);
                        }
                    }
                }
            },
            None => {},
        }
        let ghost s1 = self.entries@;
        self.entries.push((
            vstd::slice::slice_to_vec(key),
            vstd::slice::slice_to_vec(value),
        ));
        proof {
            lemma_map_of_unfold(self.entries@);
            assert(self.entries@.drop_last() =~= s1);
            assert(map_of(self.entries@) == map_of(s1).insert(key@, value@));
            assert(map_of(s1).insert(key@, value@) =~= map_of(s0).insert(key@, value@));
            assert forall|p: int, q: int|
                0 <= p < q < self.entries@.len() implies (#[trigger] self.entries@[p]).0@
                != (#[trigger] self.entries@[q]).0@ by {
                if q < self.entries@.len() - 1 {
                    assert(s1[p] == self.entries@[p] && s1[q] == self.entries@[q]);
                } else {
                    assert(s1[p] == self.entries@[p]);
                }
            }
        }
        Ok(())
    }

    /// Removes `key` if present; succeeds, and is a no-op, when it is absent.
    pub fn del(&mut self, key: &[u8]) -> (r: Result<(), StoreError>)
        requires
            old(self).wf(),
        ensures
            final(self).wf(),
            r is Ok,
            final(self)@ == old(self)@.remove(key@),
    {
        let ghost s0 = self.entries@;
        match self.find(key) {
            Some(i) => {
                let _ = self.entries.remove(i);
                proof {
                    lemma_map_of_remove(s0, i as int);
                    assert forall|p: int, q: int|
                        0 <= p < q < self.entries@.len() implies (#[trigger] self.entries@[p]).0@
                        != (#[trigger] self.entries@[q]).0@ by {
                        assert(self.entries@ == s0.remove(i as int));
                    }
                }
            },
            None => {
                proof {
                    lemma_map_of_contains(s0, key@);
                    assert(!map_of(s0).contains_key(key@));
                    assert(map_of(s0).remove(key@) =~= map_of(s0));
                }
            },
        }
        Ok(())
    }

    /// Returns the value stored under `key`, or `NotFound` when it is absent.
    pub fn get(&self, key: &[u8]) -> (r: Result<Vec<u8>, StoreError>)
        requires
            self.wf(),
        ensures
            r matches Ok(v) ==> self@.contains_key(key@) && v@ == self@[key@],
            r matches Err(e) ==> e is NotFound && !self@.contains_key(key@),
            self@.contains_key(key@) ==> r is Ok,
    {
        match self.find(key) {
            Some(i) => {
                proof {
                    lemma_map_of_index(self.entries@, i as int);
                }
                Ok(vstd::slice::slice_to_vec(self.entries[i].1.as_slice()))
            },
            None => {
                proof {
                    lemma_map_of_contains(self.entries@, key@);
                }
                Err(StoreError::NotFound)
            },
        }
    }

    /// Returns the byte length of the value stored under `key`, with the
    /// same absent-key outcome as `get`.
    pub fn get_size(&self, key: &[u8]) -> (r: Result<usize, StoreError>)
        requires
            self.wf(),
        ensures
            r matches Ok(n) ==> self@.contains_key(key@) && n == self@[key@].len(),
            r matches Err(e) ==> e is NotFound && !self@.contains_key(key@),
            self@.contains_key(key@) ==> r is Ok,
    {
        match self.find(key) {
            Some(i) => {
                proof {
                    lemma_map_of_index(self.entries@, i as int);
                }
                Ok(self.entries[i].1.len())
            },
            None => {
                proof {
                    lemma_map_of_contains(self.entries@, key@);
                }
                Err(StoreError::NotFound)
            },
        }
    }

    /// Whether `key` is present.
    pub fn has(&self, key: &[u8]) -> (r: Result<bool, StoreError>)
        requires
            self.wf(),
        ensures
            r matches Ok(b) ==> b == self@.contains_key(key@),
            r is Ok,
    {
        proof {
            lemma_map_of_contains(self.entries@, key@);
        }
        match self.find(key) {
            Some(_) => Ok(true),
            None => Ok(false),
        }
    }

    /// Applies all records as one atomic unit; the end state is as if they
    /// were written one by one in the given order, so a later record with a
    /// duplicate key wins.
    pub fn bulk_put(&mut self, records: &Vec<(Vec<u8>, Vec<u8>)>) -> (r: Result<(), StoreError>)
        requires
            old(self).wf(),
        ensures
            final(self).wf(),
            r is Ok,
            final(self)@ == put_all(old(self)@, recs_view(records@)),
    {
        let ghost m0 = self@;
        let ghost rv = recs_view(records@);
        let mut i: usize = 0;
        while i < records.len()
            invariant
                self.wf(),
                i <= records@.len(),
                rv == recs_view(records@),
                self@ == put_all(m0, rv.take(i as int)),
            decreases records@.len() - i as int,
        {
            let rec = &records[i];
            let _ = self.put(rec.0.as_slice(), rec.1.as_slice());
            proof {
                assert(rv.take(i as int + 1).drop_last() =~= rv.take(i as int));
                assert(rv.take(i as int + 1).last() == rv[i as int]);
                assert(rv[i as int] == (records@[i as int].0@, records@[i as int].1@));
            }
            i = i + 1;
        }
        proof {
            assert(rv.take(records@.len() as int) =~= rv);
        }
        Ok(())
    }

    /// Removes all listed keys as one atomic unit; keys that are absent are
    /// skipped without error.
    pub fn bulk_delete(&mut self, keys: &Vec<Vec<u8>>) -> (r: Result<(), StoreError>)
        requires
            old(self).wf(),
        ensures
            final(self).wf(),
            r is Ok,
            final(self)@ == remove_all(old(self)@, keys_view(keys@)),
    {
        let ghost m0 = self@;
        let ghost kv = keys_view(keys@);
        let mut i: usize = 0;
        while i < keys.len()
            invariant
                self.wf(),
                i <= keys@.len(),
                kv == keys_view(keys@),
                self@ == remove_all(m0, kv.take(i as int)),
            decreases keys@.len() - i as int,
        {
            let _ = self.del(keys[i].as_slice());
            proof {
                assert(kv.take(i as int + 1).drop_last() =~= kv.take(i as int));
                assert(kv.take(i as int + 1).last() == kv[i as int]);
                assert(kv[i as int] == keys@[i as int]@);
            }
            i = i + 1;
        }
        proof {
            assert(kv.take(keys@.len() as int) =~= kv);
        }
        Ok(())
    }

    /// Deletes every key in the store.
    pub fn clear(&mut self) -> (r: Result<(), StoreError>)
        requires
            old(self).wf(),
        ensures
            final(self).wf(),
            r is Ok,
            final(self)@ == Map::<Seq<u8>, Seq<u8>>::empty(),
    {
        self.entries.clear();
        proof {
            assert(recs_view(self.entries@) =~= Seq::<(Seq<u8>, Seq<u8>)>::empty());
        }
        Ok(())
    }

    /// The number of live keys.
    pub fn number_of_keys(&self) -> (r: Result<u64, StoreError>)
        requires
            self.wf(),
        ensures
            r is Ok,
            r matches Ok(n) ==> n as int == self@.dom().len(),
    {
        proof {
            lemma_map_of_count(self.entries@);
        }
        Ok(self.entries.len() as u64)
    }
}

} // verus!
