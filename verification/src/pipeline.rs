//! The batched migration pipeline: it drains a finite source sequence of
//! key/value records into fixed-size batches, flushes each full batch as one
//! atomic bulk write to the destination store, truncates at an optional
//! record limit, and reports progress whenever the cumulative byte volume
//! crosses a reporting interval.

use vstd::prelude::*;

use crate::errors::MigrationError;
use crate::model::{lemma_put_all_append, put_all, recs_view};
use crate::store::KvStore;

verus! {

/// One item of the source's iteration: a readable record, or a read failure.
pub enum SourceItem {
    Record(Vec<u8>, Vec<u8>),
    ReadError,
}

/// Running totals of a migration: records consumed, bytes of value data
/// consumed, and bulk writes issued.
#[derive(Clone, Copy, Debug)]
pub struct MigrationStats {
    pub count: u64,
    pub bytes: u64,
    pub flushes: u64,
}

/// One progress observation, emitted at a byte-volume checkpoint.
#[derive(Clone, Copy, Debug)]
pub struct ProgressReport {
    pub count: u64,
    pub bytes: u64,
}

/// Whether a source item is a readable record.
pub open spec fn is_record(it: SourceItem) -> bool {
    it matches SourceItem::Record(_, _)
}

/// The abstract record of a source item.
pub open spec fn rec_of(it: SourceItem) -> (Seq<u8>, Seq<u8>) {
    match it {
        SourceItem::Record(k, v) => (k@, v@),
        SourceItem::ReadError => (Seq::empty(), Seq::empty()),
    }
}

/// The abstract records of a source sequence.
pub open spec fn recs_of(s: Seq<SourceItem>) -> Seq<(Seq<u8>, Seq<u8>)> {
    s.map_values(|it: SourceItem| rec_of(it))
}

/// The value bytes that a source item carries.
pub open spec fn value_len(it: SourceItem) -> int {
    match it {
        SourceItem::Record(_, v) => v@.len() as int,
        SourceItem::ReadError => 0,
    }
}

/// The total value bytes of a source sequence.
pub open spec fn sum_bytes(s: Seq<SourceItem>) -> int
    decreases s.len(),
{
    if s.len() == 0 {
        0
    } else {
        sum_bytes(s.drop_last()) + value_len(s.last())
    }
}

/// How many leading items a run consumes: the whole source, or the limit
/// when one is configured and smaller.
pub open spec fn taken(len: int, limit: Option<u64>) -> int {
    match limit {
        Some(l) => if l as int <= len { l as int } else { len },
        None => len,
    }
}

/// How many bulk writes it takes to move `t` records in batches of `b`.
pub open spec fn flush_count(t: int, b: int) -> int
    recommends
        b >= 1,
{
    if t % b == 0 {
        t / b
    } else {
        t / b + 1
    }
}

/// The first `n` items are all readable records.
pub open spec fn records_before(s: Seq<SourceItem>, n: int) -> bool {
    forall|j: int| 0 <= j < n ==> is_record(#[trigger] s[j])
}

/// Taking records commutes with truncating the source.
pub proof fn lemma_recs_of_take(s: Seq<SourceItem>, n: int)
    requires
        0 <= n <= s.len(),
    ensures
        recs_of(s.take(n)) == recs_of(s).take(n),
{
    assert(recs_of(s.take(n)) =~= recs_of(s).take(n));
}

/// Consuming one more item adds exactly its value bytes.
pub proof fn lemma_sum_bytes_step(s: Seq<SourceItem>, n: int)
    requires
        0 <= n < s.len(),
    ensures
        sum_bytes(s.take(n + 1)) == sum_bytes(s.take(n)) + value_len(s[n]),
{
    assert(s.take(n + 1).drop_last() =~= s.take(n));
    assert(s.take(n + 1).last() == s[n]);
}

/// A prefix never carries more bytes than the whole source.
pub proof fn lemma_sum_bytes_prefix(s: Seq<SourceItem>, n: int)
    requires
        0 <= n <= s.len(),
    ensures
        sum_bytes(s.take(n)) <= sum_bytes(s),
    decreases s.len() - n,
{
    if n == s.len() {
        assert(s.take(n) =~= s);
    } else {
        lemma_sum_bytes_step(s, n);
        lemma_sum_bytes_prefix(s, n + 1);
    }
}

/// The migration pipeline's configuration: the batch capacity, an optional
/// record limit, and the byte interval between progress reports.
///
/// A capacity of one gives the unbuffered variant, where each record is
/// written to the destination as soon as it is consumed; larger capacities
/// bound peak memory to one batch while turning many small writes into few
/// atomic bulk writes.
#[derive(Clone, Copy, Debug)]
pub struct MigrationPipeline {
    pub batch_size: usize,
    pub limit: Option<u64>,
    pub report_interval: u64,
}

impl MigrationPipeline {
    /// A valid configuration: batches hold at least one record and the
    /// reporting interval is positive.
    pub open spec fn wf(&self) -> bool {
        &&& self.batch_size >= 1
        &&& self.report_interval >= 1
    }

    /// Drains the source in order into the destination store.
    ///
    /// On success the first `taken(..)` items were all records; the stats
    /// carry their count, their total value bytes, and the number of bulk
    /// writes issued; and the destination holds its old contents overwritten
    /// by those records in source order.  On a read error the run aborts,
    /// and the destination holds exactly the batches flushed before the
    /// error — a whole number of full batches — with nothing rolled back.
    pub fn run(&self, source: &Vec<SourceItem>, dest: &mut KvStore) -> (r: Result<
        (MigrationStats, Vec<ProgressReport>),
        MigrationError,
    >)
        requires
            self.wf(),
            old(dest).wf(),
            source@.len() < u64::MAX,
            sum_bytes(source@) <= u64::MAX,
        ensures
            final(dest).wf(),
            r matches Err(e) ==> e is SourceRead,
            r matches Ok(out) ==> ({
                let t = taken(source@.len() as int, self.limit);
                &&& records_before(source@, t)
                &&& out.0.count as int == t
                &&& out.0.bytes as int == sum_bytes(source@.take(t))
                &&& out.0.flushes as int == flush_count(t, self.batch_size as int)
                &&& final(dest)@ == put_all(old(dest)@, recs_of(source@).take(t))
                &&& forall|j: int|
                    0 <= j < out.1@.len() ==> (#[trigger] out.1@[j]).count <= out.0.count
                        && out.1@[j].bytes <= out.0.bytes
            }),
            r is Err ==> (exists|i: int|
                {
                    &&& 0 <= i < taken(source@.len() as int, self.limit)
                    &&& !(#[trigger] is_record(source@[i]))
                    &&& records_before(source@, i)
                    &&& final(dest)@ == put_all(
                        old(dest)@,
                        recs_of(source@).take(
                            i / (self.batch_size as int) * (self.batch_size as int),
                        ),
                    )
                }),
    {
        let ghost t = taken(source@.len() as int, self.limit);
        let ghost bigr = recs_of(source@);
        let ghost m0 = dest@;
        let lim: u64 = match self.limit {
            Some(l) => l,
            None => u64::MAX,
        };
        let mut batch: Vec<(Vec<u8>, Vec<u8>)> = Vec::new();
        let mut reports: Vec<ProgressReport> = Vec::new();
        let mut count: u64 = 0;
        let mut bytes: u64 = 0;
        let mut flushes: u64 = 0;
        let mut next_report: u64 = self.report_interval;
        let ghost mut committed: int = 0int;
        let mut i: usize = 0;
        while i < source.len() && count < lim
            invariant
                self.wf(),
                dest.wf(),
                m0 == old(dest)@,
                source@.len() < u64::MAX,
                sum_bytes(source@) <= u64::MAX,
                t == taken(source@.len() as int, self.limit),
                bigr == recs_of(source@),
                match self.limit {
                    Some(l) => lim == l,
                    None => lim == u64::MAX,
                },
                0 <= i as int <= t,
                count as int == i as int,
                records_before(source@, i as int),
                bytes as int == sum_bytes(source@.take(i as int)),
                committed == flushes as int * (self.batch_size as int),
                flushes as int <= committed <= i as int,
                batch@.len() == i as int - committed,
                batch@.len() < self.batch_size as int,
                recs_view(batch@) == bigr.subrange(committed, i as int),
                dest@ == put_all(m0, bigr.take(committed)),
                forall|j: int|
                    0 <= j < reports@.len() ==> (#[trigger] reports@[j]).count <= count
                        && reports@[j].bytes <= bytes,
            decreases source@.len() - i as int,
        {
            proof {
                assert((i as int) < t);
            }
            match &source[i] {
                SourceItem::ReadError => {
                    proof {
                        let ii = i as int;
                        let b = self.batch_size as int;
                        vstd::arithmetic::div_mod::lemma_fundamental_div_mod_converse(
                            ii,
                            b,
                            flushes as int,
                            ii - committed,
                        );
                        assert(committed == ii / b * b);
                        assert(!is_record(source@[ii]));
                    }
                    return Err(MigrationError::SourceRead);
                },
                SourceItem::Record(k, v) => {
                    let ghost bprev = batch@;
                    batch.push((
                        vstd::slice::slice_to_vec(k.as_slice()),
                        vstd::slice::slice_to_vec(v.as_slice()),
                    ));
                    proof {
                        let ii = i as int;
                        assert(bigr[ii] == (k@, v@));
                        assert(recs_view(batch@) =~= recs_view(bprev).push((k@, v@)));
                        assert(bigr.subrange(committed, ii + 1) =~= bigr.subrange(
                            committed,
                            ii,
                        ).push(bigr[ii]));
                        lemma_sum_bytes_step(source@, ii);
                        lemma_sum_bytes_prefix(source@, ii + 1);
                    }
                    count = count + 1;
                    bytes = bytes + (v.len() as u64);
                    if batch.len() == self.batch_size {
                        match dest.bulk_put(&batch) {
                            Ok(()) => {},
                            Err(e) => {
                                return Err(MigrationError::Store(e));
                            },
                        }
                        proof {
                            let ii = i as int;
                            let b = self.batch_size as int;
                            lemma_put_all_append(
                                m0,
                                bigr.take(committed),
                                bigr.subrange(committed, ii + 1),
                            );
                            assert(bigr.take(committed) + bigr.subrange(committed, ii + 1)
                                =~= bigr.take(ii + 1));
                            assert((flushes as int + 1) * b == flushes as int * b + b) by (nonlinear_arith);
                            committed = ii + 1;
                        }
                        flushes = flushes + 1;
                        batch.clear();
                        proof {
                            assert(recs_view(batch@) =~= bigr.subrange(committed, committed));
                        }
                    }
                    if bytes >= next_report {
                        reports.push(ProgressReport { count, bytes });
                        let q = bytes / self.report_interval;
                        if q < u64::MAX / self.report_interval {
                            proof {
                                let ri = self.report_interval as int;
                                let d = u64::MAX as int / ri;
                                vstd::arithmetic::div_mod::lemma_fundamental_div_mod(
                                    u64::MAX as int,
                                    ri,
                                );
                                assert(u64::MAX as int % ri >= 0) by (nonlinear_arith)
                                    requires ri >= 1;
                                assert(ri * d <= u64::MAX as int);
                                vstd::arithmetic::mul::lemma_mul_inequality(
                                    q as int + 1,
                                    d,
                                    ri,
                                );
                                assert(d * ri == ri * d) by (nonlinear_arith);
                            }
                            next_report = (q + 1) * self.report_interval;
                        } else {
                            next_report = u64::MAX;
                        }
                    }
                },
            }
            i = i + 1;
        }
        proof {
            assert(i as int == t);
        }
        if batch.len() > 0 {
            let ghost f0 = flushes as int;
            match dest.bulk_put(&batch) {
                Ok(()) => {},
                Err(e) => {
                    return Err(MigrationError::Store(e));
                },
            }
            proof {
                let b = self.batch_size as int;
                lemma_put_all_append(m0, bigr.take(committed), bigr.subrange(committed, t));
                assert(bigr.take(committed) + bigr.subrange(committed, t) =~= bigr.take(t));
                vstd::arithmetic::div_mod::lemma_fundamental_div_mod_converse(
                    t,
                    b,
                    f0,
                    t - committed,
                );
                assert(t / b == f0 && t % b != 0);
                committed = t;
            }
            flushes = flushes + 1;
        } else {
            proof {
                let b = self.batch_size as int;
                vstd::arithmetic::div_mod::lemma_fundamental_div_mod_converse(
                    t,
                    b,
                    flushes as int,
                    0int,
                );
                assert(t / b == flushes as int && t % b == 0);
            }
        }
        proof {
            lemma_recs_of_take(source@, t);
        }
        Ok((MigrationStats { count, bytes, flushes }, reports))
    }
}

} // verus!
