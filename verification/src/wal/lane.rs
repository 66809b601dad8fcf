//! One lane: its log and its store, what a read returns, and what reduction does.
use vstd::prelude::*;
use vstd::string::*;

use crate::error::{invalid, Error};
use crate::wal::combiner::{ReduceBlockStore, WalCombiner};
#[allow(unused_imports)]
use crate::wal::combiner::WalView;

verus! {

/// One lane.
#[derive(Debug)]
pub struct LaneState {
    pub combiner: Option<WalCombiner>,
    pub blockstore: Option<ReduceBlockStore>,
    pub completed_wal_extents: u64,
    pub reduced_extents: u64,
    pub contiguous_reduce_extents: u64,
    pub scattered_reduce_records: u64,
}

/// What a read refers to.
#[derive(Clone, Copy, Debug, PartialEq, Eq, Structural)]
pub struct ReadRef {
    pub dirty: bool,
    pub token: u64,
}

/// What is meant by a [`LaneState`].
pub struct LaneView {
    pub wal: Option<WalView>,
    pub store: Option<Seq<Seq<u8>>>,
    pub completed: u64,
    pub reduced: u64,
    pub contiguous: u64,
    pub scattered: u64,
}

/// A lane to which nothing has been written, with a log and a store as far as they are needed.
pub open spec fn fresh_lane(
    lane: nat,
    needs_wal: bool,
    needs_blockstore: bool,
    wal_records: nat,
    block_records: nat,
    record_bytes: nat,
    extent_records: nat,
) -> LaneView {
    let zero = crate::wal::arena::zero_record(record_bytes);
    LaneView {
        wal: if needs_wal {
            Some(
                WalView {
                    lane,
                    record_bytes,
                    extent_records,
                    wal: Seq::new(wal_records, |i: int| zero),
                    logicals: Seq::new(wal_records, |i: int| usize::MAX),
                    dirty: Seq::new(block_records, |i: int| usize::MAX),
                    next: 0,
                    start: 0,
                    pending: 0,
                    extents: 0,
                    max_extent: 0,
                },
            )
        } else {
            None
        },
        store: if needs_blockstore {
            Some(Seq::new(block_records, |i: int| zero))
        } else {
            None
        },
        completed: 0,
        reduced: 0,
        contiguous: 0,
        scattered: 0,
    }
}

/// Whether a lane of `block_records` records of `record_bytes` bytes is well formed.
pub open spec fn lane_wf(v: LaneView, block_records: nat, record_bytes: nat) -> bool {
    &&& block_records <= usize::MAX
    &&& v.wal matches Some(w) ==> crate::wal::combiner::wal_wf(w) && w.dirty.len() == block_records
        && w.record_bytes == record_bytes
    &&& v.store matches Some(s) ==> s.len() == block_records && forall|i: int|
        0 <= i < s.len() ==> (#[trigger] s[i]).len() == record_bytes
}

/// What a read of a logical record returns: the latest record of the log where there is one, else
/// the record of the store, else zeroes.
pub open spec fn content(v: LaneView, record_bytes: nat, logical: int) -> Seq<u8> {
    if v.wal is Some && v.wal->0.dirty[logical] != usize::MAX {
        v.wal->0.wal[v.wal->0.dirty[logical] as int]
    } else if v.store is Some {
        v.store->0[logical]
    } else {
        crate::wal::arena::zero_record(record_bytes)
    }
}

/// Whether a read finds the record in the log.
pub open spec fn is_dirty(v: LaneView, logical: int) -> bool {
    v.wal is Some && v.wal->0.dirty[logical] != usize::MAX
}

/// A store after a stretch of a log was copied into it, record by record.
pub open spec fn store_after(
    store: Seq<Seq<u8>>,
    wal: Seq<Seq<u8>>,
    logicals: Seq<usize>,
    start: int,
    n: nat,
) -> Seq<Seq<u8>>
    decreases n,
{
    if n == 0 {
        store
    } else {
        store_after(store, wal, logicals, start, (n - 1) as nat).update(
            logicals[start + n - 1] as int,
            wal[start + n - 1],
        )
    }
}

/// The latest records after a stretch of a log was forgotten, record by record.
pub open spec fn dirty_after(dirty: Seq<usize>, logicals: Seq<usize>, start: int, n: nat) -> Seq<
    usize,
>
    decreases n,
{
    if n == 0 {
        dirty
    } else {
        crate::wal::combiner::cleared(
            dirty_after(dirty, logicals, start, (n - 1) as nat),
            logicals[start + n - 1] as int,
            (start + n - 1) as usize,
        )
    }
}

/// A lane after a stretch of its log was reduced into its store.
pub open spec fn reduced(v: LaneView, start: int, n: nat) -> LaneView {
    let w = v.wal->0;
    let s = v.store->0;
    let run = crate::wal::combiner::contiguous_from(w.logicals, start, n as int, s.len() as int) is Some;
    LaneView {
        wal: Some(WalView { dirty: dirty_after(w.dirty, w.logicals, start, n), ..w }),
        store: Some(store_after(s, w.wal, w.logicals, start, n)),
        reduced: crate::wal::combiner::capped(v.reduced as int, 1),
        contiguous: if run {
            crate::wal::combiner::capped(v.contiguous as int, 1)
        } else {
            v.contiguous
        },
        scattered: if run {
            v.scattered
        } else {
            crate::wal::combiner::capped(v.scattered as int, n as int)
        },
        ..v
    }
}

/// A lane after a record was written.
pub open spec fn with_write(v: LaneView, logical: usize, data: Seq<u8>) -> LaneView {
    let w = v.wal->0;
    LaneView {
        wal: Some(crate::wal::combiner::appended(w, logical, data)),
        completed: if w.pending + 1 >= w.extent_records {
            crate::wal::combiner::capped(v.completed as int, 1)
        } else {
            v.completed
        },
        ..v
    }
}

/// A lane after its log became `w`: the extents that were closed meanwhile are counted.
pub open spec fn with_wal(v: LaneView, w: WalView) -> LaneView {
    LaneView {
        wal: Some(w),
        completed: crate::wal::combiner::capped(
            v.completed as int,
            if w.extents >= v.wal->0.extents {
                w.extents - v.wal->0.extents
            } else {
                0
            },
        ),
        ..v
    }
}

proof fn lemma_store_len(
    store: Seq<Seq<u8>>,
    wal: Seq<Seq<u8>>,
    logicals: Seq<usize>,
    start: int,
    n: nat,
)
    requires
        forall|i: int|
            start <= i < start + n ==> (#[trigger] logicals[i]) < store.len(),
    ensures
        store_after(store, wal, logicals, start, n).len() == store.len(),
    decreases n,
{
    if n > 0 {
        lemma_store_len(store, wal, logicals, start, (n - 1) as nat);
        assert(logicals[start + n - 1] < store.len());
    }
}

proof fn lemma_dirty_len(dirty: Seq<usize>, logicals: Seq<usize>, start: int, n: nat)
    requires
        forall|i: int|
            start <= i < start + n ==> (#[trigger] logicals[i]) < dirty.len(),
    ensures
        dirty_after(dirty, logicals, start, n).len() == dirty.len(),
        forall|l: int|
            0 <= l < dirty.len() ==> (#[trigger] dirty_after(dirty, logicals, start, n)[l])
                == usize::MAX || dirty_after(dirty, logicals, start, n)[l] == dirty[l],
    decreases n,
{
    if n > 0 {
        lemma_dirty_len(dirty, logicals, start, (n - 1) as nat);
        assert(logicals[start + n - 1] < dirty.len());
    }
}

/// A lane stays well formed when a stretch of its log is reduced.
pub proof fn lemma_reduced_wf(
    v: LaneView,
    block_records: nat,
    record_bytes: nat,
    start: int,
    n: nat,
)
    requires
        lane_wf(v, block_records, record_bytes),
        v.wal is Some,
        v.store is Some,
        0 <= start,
        start + n <= v.wal->0.next,
    ensures
        lane_wf(reduced(v, start, n), block_records, record_bytes),
{
    let w = v.wal->0;
    lemma_dirty_len(w.dirty, w.logicals, start, n);
    lemma_store_records(v, block_records, record_bytes, start, n);
}

proof fn lemma_store_records(
    v: LaneView,
    block_records: nat,
    record_bytes: nat,
    start: int,
    n: nat,
)
    requires
        lane_wf(v, block_records, record_bytes),
        v.wal is Some,
        v.store is Some,
        0 <= start,
        start + n <= v.wal->0.next,
    ensures
        ({
            let w = v.wal->0;
            let s = store_after(v.store->0, w.wal, w.logicals, start, n);
            s.len() == block_records && forall|i: int|
                0 <= i < s.len() ==> (#[trigger] s[i]).len() == record_bytes
        }),
    decreases n,
{
    let w = v.wal->0;
    lemma_store_len(v.store->0, w.wal, w.logicals, start, n);
    if n > 0 {
        lemma_store_records(v, block_records, record_bytes, start, (n - 1) as nat);
        let s = store_after(v.store->0, w.wal, w.logicals, start, n);
        let p = store_after(v.store->0, w.wal, w.logicals, start, (n - 1) as nat);
        assert(w.logicals[start + n - 1] < w.dirty.len());
        assert(w.wal[start + n - 1].len() == record_bytes);
        assert forall|i: int| 0 <= i < s.len() implies (#[trigger] s[i]).len() == record_bytes by {
            if i != w.logicals[start + n - 1] {
                assert(s[i] == p[i]);
            }
        }
    }
}

impl LaneState {
    /// What the lane means.
    pub open spec fn view(&self) -> LaneView {
        LaneView {
            wal: match self.combiner {
                Some(c) => Some(c@),
                None => None,
            },
            store: match self.blockstore {
                Some(b) => Some(b.arena@),
                None => None,
            },
            completed: self.completed_wal_extents,
            reduced: self.reduced_extents,
            contiguous: self.contiguous_reduce_extents,
            scattered: self.scattered_reduce_records,
        }
    }

    /// Whether the lane is well formed.
    pub open spec fn wf(&self, block_records: nat, record_bytes: nat) -> bool {
        &&& lane_wf(self@, block_records, record_bytes)
        &&& self.combiner matches Some(c) ==> c.wf()
        &&& self.blockstore matches Some(b) ==> b.wf() && b.arena.record_bytes == record_bytes
            && b.arena.records == block_records
    }

    /// A new lane, with a log and a store as far as they are needed.
    pub fn new(
        lane: usize,
        needs_wal: bool,
        needs_blockstore: bool,
        wal_records: usize,
        block_records: usize,
        record_bytes: usize,
        extent_records: usize,
    ) -> (r: Result<LaneState, Error>)
        requires
            extent_records > 0,
        ensures
            match r {
                Ok(s) => {
                    &&& s.wf(block_records as nat, record_bytes as nat)
                    &&& needs_blockstore ==> block_records * record_bytes <= usize::MAX
                    &&& needs_wal ==> wal_records * record_bytes <= usize::MAX
                    &&& s@ == fresh_lane(
                        lane as nat,
                        needs_wal,
                        needs_blockstore,
                        wal_records as nat,
                        block_records as nat,
                        record_bytes as nat,
                        extent_records as nat,
                    )
                    &&& forall|l: int|
                        0 <= l < block_records ==> content(s@, record_bytes as nat, l)
                            == crate::wal::arena::zero_record(record_bytes as nat) && !(
                        #[trigger] is_dirty(s@, l))
                },
                Err(e) => if needs_blockstore && block_records * record_bytes > usize::MAX {
                    e@ == crate::error::bad_input("blockstore arena size overflow"@)
                } else {
                    needs_wal && wal_records * record_bytes > usize::MAX && e@
                        == crate::error::bad_input("wal arena size overflow"@)
                },
            },
    {
        let blockstore: Option<ReduceBlockStore> = if needs_blockstore {
            match ReduceBlockStore::new(block_records, record_bytes) {
                Ok(b) => Some(b),
                Err(e) => {
                    return Err(e);
                },
            }
        } else {
            None
        };
        let combiner: Option<WalCombiner> = if needs_wal {
            match WalCombiner::new(lane, wal_records, block_records, record_bytes, extent_records) {
                Ok(c) => Some(c),
                Err(e) => {
                    return Err(e);
                },
            }
        } else {
            None
        };
        let state: LaneState = LaneState {
            combiner,
            blockstore,
            completed_wal_extents: 0,
            reduced_extents: 0,
            contiguous_reduce_extents: 0,
            scattered_reduce_records: 0,
        };
        proof {
            let fresh = fresh_lane(
                lane as nat,
                needs_wal,
                needs_blockstore,
                wal_records as nat,
                block_records as nat,
                record_bytes as nat,
                extent_records as nat,
            );
            if needs_wal {
                assert(state@.wal->0.wal =~= fresh.wal->0.wal);
                assert(state@.wal->0.logicals =~= fresh.wal->0.logicals);
                assert(state@.wal->0.dirty =~= fresh.wal->0.dirty);
            }
            if needs_blockstore {
                assert(state@.store->0 =~= fresh.store->0);
            }
        }
        Ok(state)
    }

    /// Writes a record; whether that filled an extent.
    pub fn append_write(&mut self, logical_record: usize, source: &[u8]) -> (r: Result<bool, Error>)
        requires
            exists|b: nat, rb: nat|
                #![trigger old(self).wf(b, rb)]
                old(self).wf(b, rb) && logical_record < b && source@.len() >= rb,
        ensures
            forall|b: nat, rb: nat|
                #![trigger final(self).wf(b, rb)]
                old(self).wf(b, rb) ==> final(self).wf(b, rb),
            match r {
                Ok(full) => {
                    &&& old(self)@.wal is Some
                    &&& old(self)@.wal->0.next < old(self)@.wal->0.wal.len()
                    &&& final(self)@ == with_write(
                        old(self)@,
                        logical_record,
                        source@.subrange(0, old(self)@.wal->0.record_bytes as int),
                    )
                    &&& full == (old(self)@.wal->0.pending + 1 >= old(self)@.wal->0.extent_records)
                },
                Err(e) => {
                    &&& final(self)@ == old(self)@
                    &&& match old(self)@.wal {
                        None => e@ == crate::error::bad_input(
                            "write attempted without a WAL combiner"@,
                        ),
                        Some(w) => w.next >= w.wal.len() && e@ == crate::wal::combiner::exhausted(
                            w.lane,
                            w.wal.len(),
                        ),
                    }
                },
            },
    {
        match &mut self.combiner {
            None => Err(invalid("write attempted without a WAL combiner")),
            Some(combiner) => match combiner.append_record(logical_record, source) {
                Ok(full) => {
                    if full {
                        self.completed_wal_extents = self.completed_wal_extents.saturating_add(1);
                    }
                    Ok(full)
                },
                Err(e) => Err(e),
            },
        }
    }

    /// Writes an extent in one piece: a record of `source` for each of the logical records.
    pub fn append_write_extent(&mut self, source: &[u8], logicals: &Vec<usize>) -> (r: Result<
        (),
        Error,
    >)
        requires
            exists|b: nat, rb: nat|
                #![trigger old(self).wf(b, rb)]
                old(self).wf(b, rb) && forall|i: int|
                    0 <= i < logicals@.len() ==> (#[trigger] logicals@[i]) < b,
        ensures
            forall|b: nat, rb: nat|
                #![trigger final(self).wf(b, rb)]
                old(self).wf(b, rb) ==> final(self).wf(b, rb),
            match r {
                Ok(_) => {
                    let w = old(self)@.wal->0;
                    &&& old(self)@.wal is Some
                    &&& logicals@.len() == 0 || (w.next + logicals@.len() <= w.wal.len()
                        && source@.len() >= logicals@.len() * w.record_bytes)
                    &&& final(self)@ == with_wal(
                        old(self)@,
                        if logicals@.len() == 0 {
                            w
                        } else {
                            crate::wal::combiner::extent_appended(
                                w,
                                logicals@,
                                crate::wal::arena::records_in(
                                    source@,
                                    w.record_bytes,
                                    logicals@.len(),
                                ),
                            )
                        },
                    )
                },
                Err(e) => {
                    &&& final(self)@ == old(self)@
                    &&& match old(self)@.wal {
                        None => e@ == crate::error::bad_input(
                            "write extent attempted without a WAL combiner"@,
                        ),
                        Some(w) => {
                            &&& logicals@.len() > 0
                            &&& if w.next + logicals@.len() > w.wal.len() {
                                e@ == crate::wal::combiner::exhausted(w.lane, w.wal.len())
                            } else {
                                &&& source@.len() < logicals@.len() * w.record_bytes
                                &&& e@ == crate::wal::combiner::short_source(
                                    source@.len(),
                                    logicals@.len() * w.record_bytes,
                                )
                            }
                        },
                    }
                },
            },
    {
        match &mut self.combiner {
            None => Err(invalid("write extent attempted without a WAL combiner")),
            Some(combiner) => {
                let before: u64 = combiner.wal_extents;
                let ghost w = combiner@;
                match combiner.append_extent(source, logicals) {
                    Ok(_) => {
                        proof {
                            crate::wal::combiner::lemma_all_written_shape(
                                w,
                                logicals@,
                                crate::wal::arena::records_in(
                                    source@,
                                    w.record_bytes,
                                    logicals@.len(),
                                ),
                            );
                        }
                        let more: u64 = combiner.wal_extents.saturating_sub(before);
                        self.completed_wal_extents = self.completed_wal_extents.saturating_add(
                            more,
                        );
                        Ok(())
                    },
                    Err(e) => Err(e),
                }
            },
        }
    }

    /// Closes the extent that is being filled.
    pub fn flush_wal(&mut self)
        requires
            exists|b: nat, rb: nat| old(self).wf(b, rb),
        ensures
            forall|b: nat, rb: nat|
                #![trigger final(self).wf(b, rb)]
                old(self).wf(b, rb) ==> final(self).wf(b, rb),
            final(self)@ == match old(self)@.wal {
                None => old(self)@,
                Some(w) => with_wal(old(self)@, crate::wal::combiner::extent_finished(w)),
            },
    {
        match &mut self.combiner {
            None => {},
            Some(combiner) => {
                let before: u64 = combiner.wal_extents;
                combiner.flush();
                let more: u64 = combiner.wal_extents.saturating_sub(before);
                self.completed_wal_extents = self.completed_wal_extents.saturating_add(more);
            },
        }
    }

    /// Copies a logical record out; whether it was found in the log.
    pub fn read_into(&self, logical_record: usize, out: &mut Vec<u8>) -> (hit: bool)
        requires
            exists|b: nat|
                #![trigger self.wf(b, old(out)@.len())]
                self.wf(b, old(out)@.len()) && logical_record < b,
        ensures
            hit == is_dirty(self@, logical_record as int),
            final(out)@ == content(self@, old(out)@.len(), logical_record as int),
    {
        if let Some(combiner) = &self.combiner {
            if combiner.read_dirty_into(logical_record, out) {
                return true;
            }
        }
        match &self.blockstore {
            Some(store) => {
                store.arena.read(logical_record, out);
            },
            None => {
                let n: usize = out.len();
                *out = crate::bytes::filled(0, n);
                proof {
                    assert(out@ =~= crate::wal::arena::zero_record(n as nat));
                }
            },
        }
        false
    }

    /// A reference to a logical record, where the log and the store lie at the given addresses.
    pub fn read_ref(&self, logical_record: usize, wal_base: u64, store_base: u64) -> (r: ReadRef)
        requires
            exists|b: nat, rb: nat|
                #![trigger self.wf(b, rb)]
                self.wf(b, rb) && logical_record < b,
        ensures
            r == ref_of(self@, logical_record as int, wal_base, store_base, match self.blockstore {
                Some(s) => s.arena.record_bytes as nat,
                None => 0,
            }),
    {
        if let Some(combiner) = &self.combiner {
            if let Some(token) = combiner.read_dirty_ref_token(logical_record, wal_base) {
                return ReadRef { dirty: true, token };
            }
        }
        if let Some(store) = &self.blockstore {
            let total: usize = store.arena.bytes.len();
            proof {
                assert(0 <= logical_record * store.arena.record_bytes <= total)
                    by (nonlinear_arith)
                    requires
                        logical_record < store.arena.records,
                        total == store.arena.records * store.arena.record_bytes,
                ;
            }
            let offset: usize = logical_record * store.arena.record_bytes;
            let address: u64 = store_base.wrapping_add(offset as u64);
            return ReadRef {
                dirty: false,
                token: store.record_ref_token(logical_record, address),
            };
        }
        ReadRef { dirty: false, token: 0 }
    }

    /// Reduces a stretch of the log that has just been completed.
    pub fn reduce_latest_completed_extent(&mut self, start: usize, records: usize) -> (r: Result<
        u64,
        Error,
    >)
        requires
            exists|b: nat, rb: nat|
                #![trigger old(self).wf(b, rb)]
                old(self).wf(b, rb) && (old(self)@.wal matches Some(w) ==> start + records
                    <= w.next),
        ensures
            forall|b: nat, rb: nat|
                #![trigger final(self).wf(b, rb)]
                old(self).wf(b, rb) ==> final(self).wf(b, rb),
            reduce_due(old(self)@, final(self)@, start as int, records as nat, r),
    {
        self.reduce_extent(start, records)
    }

    /// Reduces a stretch of the log: each of its records is copied into the store, and one that is
    /// the latest is no longer in the log. Gives the number of bytes.
    pub fn reduce_extent(&mut self, start: usize, records: usize) -> (r: Result<u64, Error>)
        requires
            exists|b: nat, rb: nat|
                #![trigger old(self).wf(b, rb)]
                old(self).wf(b, rb) && (old(self)@.wal matches Some(w) ==> start + records
                    <= w.next),
        ensures
            forall|b: nat, rb: nat|
                #![trigger final(self).wf(b, rb)]
                old(self).wf(b, rb) ==> final(self).wf(b, rb),
            reduce_due(old(self)@, final(self)@, start as int, records as nat, r),
    {
        let ghost (blocks, rb) = choose|b: nat, rb: nat|
            #![trigger old(self).wf(b, rb)]
            old(self).wf(b, rb) && (old(self)@.wal matches Some(w) ==> start + records <= w.next);
        if records == 0 {
            return Ok(0);
        }
        match &mut self.blockstore {
            None => Err(invalid("reduce attempted without a blockstore")),
            Some(store) => match &mut self.combiner {
                None => Err(invalid("reduce attempted without a WAL combiner")),
                Some(combiner) => {
                    let ghost s0 = store.arena@;
                    let ghost w0 = combiner@;
                    let log_len: usize = combiner.wal_logicals.len();
                    let total: usize = combiner.wal.bytes.len();
                    proof {
                        assert(0 <= records * combiner.wal.record_bytes <= total)
                            by (nonlinear_arith)
                            requires
                                records <= combiner.wal.records,
                                total == combiner.wal.records * combiner.wal.record_bytes,
                        ;
                        lemma_store_len(s0, w0.wal, w0.logicals, start as int, 0);
                    }
                    let run: Option<usize> = combiner.extent_is_contiguous(
                        start,
                        records,
                        store.arena.records,
                    );
                    let mut i: usize = 0;
                    while i < records
                        invariant
                            i <= records,
                            log_len == w0.logicals.len(),
                            start + records <= w0.next,
                            w0.next <= log_len,
                            crate::wal::combiner::wal_wf(w0),
                            combiner.wf(),
                            store.wf(),
                            s0.len() == w0.dirty.len(),
                            store.arena.records == s0.len(),
                            store.arena.record_bytes == combiner.wal.record_bytes,
                            store.arena.record_bytes == rb,
                            store.arena@ == store_after(
                                s0,
                                w0.wal,
                                w0.logicals,
                                start as int,
                                i as nat,
                            ),
                            combiner@ == (WalView {
                                dirty: dirty_after(
                                    w0.dirty,
                                    w0.logicals,
                                    start as int,
                                    i as nat,
                                ),
                                ..w0
                            }),
                        decreases records - i,
                    {
                        let at: usize = start + i;
                        let logical: usize = combiner.wal_logicals[at];
                        proof {
                            assert(w0.logicals[at as int] < w0.dirty.len());
                            lemma_dirty_len(w0.dirty, w0.logicals, start as int, i as nat);
                        }
                        store.arena.write_from(logical, &combiner.wal, at);
                        combiner.clear_dirty_if_current(logical, at);
                        i = i + 1;
                    }
                    if run.is_some() {
                        self.contiguous_reduce_extents = self.contiguous_reduce_extents.saturating_add(
                            1,
                        );
                    } else {
                        self.scattered_reduce_records = self.scattered_reduce_records.saturating_add(
                            records as u64,
                        );
                    }
                    self.reduced_extents = self.reduced_extents.saturating_add(1);
                    let moved: usize = records * combiner.wal.record_bytes;
                    proof {
                        assert(self@ == reduced(old(self)@, start as int, records as nat));
                        assert forall|b: nat, r2: nat|
                            #![trigger self.wf(b, r2)]
                            old(self).wf(b, r2) implies self.wf(b, r2) by {
                            lemma_reduced_wf(old(self)@, b, r2, start as int, records as nat);
                        }
                    }
                    Ok(moved as u64)
                },
            },
        }
    }

    /// The largest number of records in an extent so far.
    pub fn max_extent_records(&self) -> (n: usize)
        ensures
            n as nat == match self@.wal {
                Some(w) => w.max_extent,
                None => 0,
            },
    {
        match &self.combiner {
            Some(c) => c.max_extent_records,
            None => 0,
        }
    }

    /// How many extents have been closed.
    pub fn wal_extents(&self) -> (n: u64)
        ensures
            n == match self@.wal {
                Some(w) => w.extents,
                None => 0,
            },
    {
        match &self.combiner {
            Some(c) => c.wal_extents,
            None => 0,
        }
    }
}

/// What a reduction leaves behind and returns.
pub open spec fn reduce_due(
    before: LaneView,
    after: LaneView,
    start: int,
    records: nat,
    r: Result<u64, Error>,
) -> bool {
    if records == 0 {
        r == Ok::<u64, Error>(0) && after == before
    } else if before.store is None {
        after == before && r is Err && r->Err_0@ == crate::error::bad_input(
            "reduce attempted without a blockstore"@,
        )
    } else if before.wal is None {
        after == before && r is Err && r->Err_0@ == crate::error::bad_input(
            "reduce attempted without a WAL combiner"@,
        )
    } else {
        &&& after == reduced(before, start, records)
        &&& r == Ok::<u64, Error>((records * before.wal->0.record_bytes) as u64)
    }
}

/// A reference to a logical record.
pub open spec fn ref_of(
    v: LaneView,
    logical: int,
    wal_base: u64,
    store_base: u64,
    record_bytes: nat,
) -> ReadRef {
    if is_dirty(v, logical) {
        ReadRef {
            dirty: true,
            token: crate::wal::combiner::dirty_token(v.wal->0, logical, wal_base)->0,
        }
    } else if v.store is Some {
        ReadRef {
            dirty: false,
            token: crate::wal::combiner::block_token(
                logical as u64,
                record_bytes as u64,
                crate::random::word_add(store_base, (logical * record_bytes) as u64),
            ),
        }
    } else {
        ReadRef { dirty: false, token: 0 }
    }
}

/// A read returns the latest write, and a write changes no other record.
pub proof fn law_reads_return_the_latest_write(
    v: LaneView,
    block_records: nat,
    record_bytes: nat,
    logical: usize,
    data: Seq<u8>,
    other: int,
)
    requires
        lane_wf(v, block_records, record_bytes),
        v.wal is Some,
        v.wal->0.next < v.wal->0.wal.len(),
        logical < block_records,
        0 <= other < block_records,
        data.len() == record_bytes,
    ensures
        content(with_write(v, logical, data), record_bytes, logical as int) == data,
        is_dirty(with_write(v, logical, data), logical as int),
        other != logical ==> content(with_write(v, logical, data), record_bytes, other) == content(
            v,
            record_bytes,
            other,
        ),
{
    let w = v.wal->0;
    let n = with_write(v, logical, data).wal->0;
    assert(n.dirty == w.dirty.update(logical as int, w.next as usize));
    if other != logical && w.dirty[other] != usize::MAX {
        assert(w.dirty[other] < w.next);
    }
}

/// Closing an extent changes no record.
pub proof fn law_flush_changes_no_record(v: LaneView, record_bytes: nat, logical: int)
    requires
        v.wal is Some,
    ensures
        content(
            with_wal(v, crate::wal::combiner::extent_finished(v.wal->0)),
            record_bytes,
            logical,
        ) == content(v, record_bytes, logical),
{
}

/// Whether everything in the log from `from` on has not been reduced: each of those records is the
/// latest of its logical record, or a later one is.
pub open spec fn unreduced(w: WalView, from: int) -> bool {
    forall|i: int|
        from <= i < w.next ==> w.dirty[(#[trigger] w.logicals[i]) as int] != usize::MAX
            && w.dirty[w.logicals[i] as int] >= i
}

proof fn lemma_reduce_content(
    v: LaneView,
    block_records: nat,
    record_bytes: nat,
    start: int,
    n: nat,
    logical: int,
)
    requires
        lane_wf(v, block_records, record_bytes),
        v.wal is Some,
        v.store is Some,
        0 <= start,
        start + n <= v.wal->0.next,
        unreduced(v.wal->0, start),
        0 <= logical < block_records,
    ensures
        ({
            let w = v.wal->0;
            let d = dirty_after(w.dirty, w.logicals, start, n);
            let s = store_after(v.store->0, w.wal, w.logicals, start, n);
            &&& d[logical] != usize::MAX ==> d[logical] == w.dirty[logical]
            &&& d[logical] == usize::MAX ==> s[logical] == content(v, record_bytes, logical)
            &&& d[logical] == usize::MAX ==> w.dirty[logical] == usize::MAX || w.dirty[logical]
                < start + n
            &&& w.dirty[logical] != usize::MAX && w.dirty[logical] >= start + n ==> d[logical]
                == w.dirty[logical]
        }),
    decreases n,
{
    let w = v.wal->0;
    lemma_dirty_len(w.dirty, w.logicals, start, n);
    lemma_store_len(v.store->0, w.wal, w.logicals, start, n);
    if n > 0 {
        let m = (n - 1) as nat;
        lemma_reduce_content(v, block_records, record_bytes, start, m, logical);
        lemma_dirty_len(w.dirty, w.logicals, start, m);
        lemma_store_len(v.store->0, w.wal, w.logicals, start, m);
        let at = start + m;
        let l = w.logicals[at];
        assert(l < w.dirty.len());
        assert(w.dirty[l as int] != usize::MAX && w.dirty[l as int] >= at);
        if logical == l {
            lemma_reduce_content(v, block_records, record_bytes, start, m, l as int);
        }
    }
}

/// Reducing the log in order keeps what every read returns: a stretch that begins where nothing has
/// been reduced yet can be reduced, and afterwards everything behind it still has not been.
pub proof fn law_reduction_keeps_every_record(
    v: LaneView,
    block_records: nat,
    record_bytes: nat,
    start: int,
    n: nat,
    logical: int,
)
    requires
        lane_wf(v, block_records, record_bytes),
        v.wal is Some,
        v.store is Some,
        0 <= start,
        start + n <= v.wal->0.next,
        unreduced(v.wal->0, start),
        0 <= logical < block_records,
    ensures
        content(reduced(v, start, n), record_bytes, logical) == content(v, record_bytes, logical),
        unreduced(reduced(v, start, n).wal->0, start + n),
{
    let w = v.wal->0;
    let after = reduced(v, start, n).wal->0;
    lemma_reduce_content(v, block_records, record_bytes, start, n, logical);
    assert forall|i: int| start + n <= i < after.next implies after.dirty[(
    #[trigger] after.logicals[i]) as int] != usize::MAX && after.dirty[after.logicals[i] as int]
        >= i by {
        let l = w.logicals[i];
        assert(l < w.dirty.len());
        lemma_reduce_content(v, block_records, record_bytes, start, n, l as int);
    }
}

/// Writing keeps the log unreduced from any point on.
pub proof fn law_writes_are_unreduced(w: WalView, from: int, logical: usize, data: Seq<u8>)
    requires
        crate::wal::combiner::wal_wf(w),
        w.next < w.wal.len(),
        logical < w.dirty.len(),
        0 <= from <= w.next,
        unreduced(w, from),
    ensures
        unreduced(crate::wal::combiner::appended(w, logical, data), from),
{
    let n = crate::wal::combiner::appended(w, logical, data);
    assert(n.dirty == w.dirty.update(logical as int, w.next as usize));
    assert(n.logicals == w.logicals.update(w.next as int, logical));
    assert forall|i: int| from <= i < n.next implies n.dirty[(#[trigger] n.logicals[i]) as int]
        != usize::MAX && n.dirty[n.logicals[i] as int] >= i by {
        if i < w.next {
            assert(n.logicals[i] == w.logicals[i]);
        }
    }
}

proof fn lemma_all_written_record(w: WalView, logicals: Seq<usize>, data: Seq<Seq<u8>>, k: int)
    requires
        w.wal.len() == w.logicals.len(),
        w.next + logicals.len() <= w.wal.len(),
        0 <= k < w.next + logicals.len(),
    ensures
        crate::wal::combiner::all_written(w, logicals, data).wal[k] == if k < w.next {
            w.wal[k]
        } else {
            data[k - w.next]
        },
    decreases logicals.len(),
{
    if logicals.len() > 0 {
        lemma_all_written_sizes(w, logicals.drop_last(), data);
        if k < w.next + logicals.len() - 1 {
            lemma_all_written_record(w, logicals.drop_last(), data, k);
        }
    }
}

proof fn lemma_all_written_current(w: WalView, logicals: Seq<usize>, data: Seq<Seq<u8>>, i: int)
    requires
        w.next + logicals.len() <= usize::MAX,
        0 <= i < logicals.len(),
        forall|j: int| 0 <= j < logicals.len() ==> (#[trigger] logicals[j]) < w.dirty.len(),
        forall|j: int| i < j < logicals.len() ==> #[trigger] logicals[j] != logicals[i],
    ensures
        crate::wal::combiner::all_written(w, logicals, data).dirty[logicals[i] as int] == w.next + i,
    decreases logicals.len(),
{
    let head = logicals.drop_last();
    assert forall|j: int| 0 <= j < head.len() implies (#[trigger] head[j]) < w.dirty.len() by {
        assert(head[j] == logicals[j]);
    }
    lemma_all_written_others(w, head, data);
    assert(logicals[i] < w.dirty.len());
    assert(logicals[logicals.len() - 1] < w.dirty.len());
    if i < logicals.len() - 1 {
        assert forall|j: int| i < j < head.len() implies #[trigger] head[j] != head[i] by {
            assert(head[j] == logicals[j]);
        }
        lemma_all_written_current(w, head, data, i);
        assert(logicals[logicals.len() - 1] != logicals[i]);
    }
}

proof fn lemma_all_written_sizes(w: WalView, logicals: Seq<usize>, data: Seq<Seq<u8>>)
    requires
        w.next + logicals.len() <= w.wal.len(),
    ensures
        crate::wal::combiner::all_written(w, logicals, data).wal.len() == w.wal.len(),
        crate::wal::combiner::all_written(w, logicals, data).next == w.next + logicals.len(),
    decreases logicals.len(),
{
    if logicals.len() > 0 {
        lemma_all_written_sizes(w, logicals.drop_last(), data);
    }
}

proof fn lemma_all_written_others(w: WalView, logicals: Seq<usize>, data: Seq<Seq<u8>>)
    requires
        forall|j: int| 0 <= j < logicals.len() ==> (#[trigger] logicals[j]) < w.dirty.len(),
    ensures
        crate::wal::combiner::all_written(w, logicals, data).dirty.len() == w.dirty.len(),
        crate::wal::combiner::all_written(w, logicals, data).next == w.next + logicals.len(),
    decreases logicals.len(),
{
    if logicals.len() > 0 {
        let head = logicals.drop_last();
        assert forall|j: int| 0 <= j < head.len() implies (#[trigger] head[j]) < w.dirty.len() by {
            assert(head[j] == logicals[j]);
        }
        lemma_all_written_others(w, head, data);
        assert(logicals[logicals.len() - 1] < w.dirty.len());
    }
}

proof fn lemma_all_written_other(
    w: WalView,
    logicals: Seq<usize>,
    data: Seq<Seq<u8>>,
    other: int,
)
    requires
        0 <= other < w.dirty.len(),
        forall|j: int| 0 <= j < logicals.len() ==> (#[trigger] logicals[j]) < w.dirty.len(),
        forall|j: int| 0 <= j < logicals.len() ==> #[trigger] logicals[j] != other,
    ensures
        crate::wal::combiner::all_written(w, logicals, data).dirty[other] == w.dirty[other],
    decreases logicals.len(),
{
    if logicals.len() > 0 {
        let head = logicals.drop_last();
        assert forall|j: int| 0 <= j < head.len() implies (#[trigger] head[j]) < w.dirty.len()
            && head[j] != other by {
            assert(head[j] == logicals[j]);
        }
        lemma_all_written_other(w, head, data, other);
        lemma_all_written_others(w, head, data);
        assert(logicals[logicals.len() - 1] != other);
        assert(logicals[logicals.len() - 1] < w.dirty.len());
    }
}

/// After an extent was appended, a read of each of its logical records gives the bytes of the source at
/// the place of the record, the last one where a logical record occurs several times; every other
/// logical record reads as before.
pub proof fn law_an_extent_reads_as_its_records(
    v: LaneView,
    block_records: nat,
    record_bytes: nat,
    logicals: Seq<usize>,
    source: Seq<u8>,
    i: int,
    other: int,
)
    requires
        lane_wf(v, block_records, record_bytes),
        v.wal is Some,
        v.wal->0.next + logicals.len() <= v.wal->0.wal.len(),
        forall|j: int| 0 <= j < logicals.len() ==> (#[trigger] logicals[j]) < block_records,
        logicals.len() * record_bytes <= source.len(),
        0 <= i < logicals.len(),
        forall|j: int| i < j < logicals.len() ==> logicals[j] != logicals[i],
        0 <= other < block_records,
        forall|j: int| 0 <= j < logicals.len() ==> logicals[j] != other,
    ensures
        ({
            let after = with_wal(
                v,
                crate::wal::combiner::extent_appended(
                    v.wal->0,
                    logicals,
                    crate::wal::arena::records_in(source, record_bytes, logicals.len()),
                ),
            );
            let got = content(after, record_bytes, logicals[i] as int);
            &&& is_dirty(after, logicals[i] as int)
            &&& got.len() == record_bytes
            &&& forall|b: int| 0 <= b < record_bytes ==> #[trigger] got[b] == source[i * record_bytes + b]
            &&& content(after, record_bytes, other) == content(v, record_bytes, other)
            &&& is_dirty(after, other) == is_dirty(v, other)
            &&& after.store == v.store
        }),
{
    let w = v.wal->0;
    let data = crate::wal::arena::records_in(source, record_bytes, logicals.len());
    lemma_all_written_record(w, logicals, data, w.next + i);
    lemma_all_written_current(w, logicals, data, i);
    lemma_all_written_others(w, logicals, data);
    lemma_all_written_other(w, logicals, data, other);
    assert(logicals[i] < w.dirty.len());
    if is_dirty(v, other) {
        lemma_all_written_record(w, logicals, data, w.dirty[other] as int);
    }
    assert(i * record_bytes + record_bytes <= logicals.len() * record_bytes) by (nonlinear_arith)
        requires
            0 <= i < logicals.len(),
            0 <= record_bytes,
    ;
    assert(0 <= i * record_bytes) by (nonlinear_arith)
        requires
            0 <= i,
            0 <= record_bytes,
    ;
    assert(data[i].len() == record_bytes);
    let a = crate::wal::combiner::all_written(w, logicals, data);
    assert(a.wal[w.next + i] == data[i]);
}

/// Appending an extent leaves every read as appending its records one by one does.
pub proof fn law_an_extent_is_its_records_one_by_one(
    v: LaneView,
    block_records: nat,
    record_bytes: nat,
    logicals: Seq<usize>,
    source: Seq<u8>,
    logical: int,
)
    requires
        lane_wf(v, block_records, record_bytes),
        v.wal is Some,
        logicals.len() > 0,
        v.wal->0.next + logicals.len() <= v.wal->0.wal.len(),
        forall|j: int| 0 <= j < logicals.len() ==> (#[trigger] logicals[j]) < block_records,
        logicals.len() * record_bytes <= source.len(),
        0 <= logical < block_records,
    ensures
        ({
            let data = crate::wal::arena::records_in(source, record_bytes, logicals.len());
            let whole = with_wal(
                v,
                crate::wal::combiner::extent_appended(v.wal->0, logicals, data),
            );
            let but_last = with_wal(
                v,
                crate::wal::combiner::extent_appended(v.wal->0, logicals.drop_last(), data),
            );
            let last = source.subrange(
                (logicals.len() - 1) * record_bytes,
                (logicals.len() - 1) * record_bytes + record_bytes,
            );
            content(whole, record_bytes, logical) == content(
                with_write(but_last, logicals.last(), last),
                record_bytes,
                logical,
            )
        }),
{
    let w = v.wal->0;
    let data = crate::wal::arena::records_in(source, record_bytes, logicals.len());
    let head = logicals.drop_last();
    assert forall|j: int| 0 <= j < head.len() implies (#[trigger] head[j]) < w.dirty.len() by {
        assert(head[j] == logicals[j]);
    }
    lemma_all_written_others(w, head, data);
    lemma_all_written_sizes(w, head, data);
    assert(logicals[logicals.len() - 1] < w.dirty.len());
}

proof fn lemma_store_places(
    store: Seq<Seq<u8>>,
    wal: Seq<Seq<u8>>,
    logicals: Seq<usize>,
    start: int,
    n: nat,
)
    requires
        0 <= start,
        start + n <= logicals.len(),
        forall|i: int| start <= i < start + n ==> (#[trigger] logicals[i]) < store.len(),
    ensures
        ({
            let a = store_after(store, wal, logicals, start, n);
            &&& a.len() == store.len()
            &&& forall|k: int|
                start <= k < start + n && (forall|j: int|
                    k < j < start + n ==> logicals[j] != logicals[k]) ==> a[(
                #[trigger] logicals[k]) as int] == wal[k]
            &&& forall|l: int|
                0 <= l < store.len() && (forall|j: int|
                    start <= j < start + n ==> logicals[j] != l) ==> #[trigger] a[l] == store[l]
        }),
    decreases n,
{
    if n > 0 {
        let m = (n - 1) as nat;
        lemma_store_places(store, wal, logicals, start, m);
        let a = store_after(store, wal, logicals, start, n);
        let last = start + m;
        assert(logicals[last] < store.len());
        assert forall|k: int|
            start <= k < start + n && (forall|j: int|
                k < j < start + n ==> logicals[j] != logicals[k]) implies a[(
        #[trigger] logicals[k]) as int] == wal[k] by {
            if k < last {
                assert(logicals[last] != logicals[k]);
            }
        }
        assert forall|l: int|
            0 <= l < store.len() && (forall|j: int|
                start <= j < start + n ==> logicals[j] != l) implies #[trigger] a[l] == store[l] by {
            assert(logicals[last] != l);
        }
    }
}

proof fn lemma_dirty_places(dirty: Seq<usize>, logicals: Seq<usize>, start: int, n: nat)
    requires
        0 <= start,
        start + n <= logicals.len(),
        logicals.len() <= usize::MAX,
        forall|i: int| start <= i < start + n ==> (#[trigger] logicals[i]) < dirty.len(),
    ensures
        ({
            let a = dirty_after(dirty, logicals, start, n);
            &&& a.len() == dirty.len()
            &&& forall|l: int|
                0 <= l < dirty.len() ==> #[trigger] a[l] == if start <= dirty[l] < start + n
                    && logicals[dirty[l] as int] == l {
                    usize::MAX
                } else {
                    dirty[l]
                }
        }),
    decreases n,
{
    if n > 0 {
        lemma_dirty_places(dirty, logicals, start, (n - 1) as nat);
        assert(logicals[start + n - 1] < dirty.len());
    }
}

/// Reducing a part of the log moves its records: where the part holds the newest version of a logical
/// record, the block store has that version afterwards and the log is not read for it any more. What
/// the part does not hold stays as it was in the store, a version behind the part is still read from the
/// log, and the log itself keeps all of its bytes. Each reduction counts once, and as contiguous exactly
/// where the part names logical records that follow one another.
pub proof fn law_reduction_moves_records(
    v: LaneView,
    block_records: nat,
    record_bytes: nat,
    start: int,
    n: nat,
    k: int,
    other: int,
)
    requires
        lane_wf(v, block_records, record_bytes),
        v.wal is Some,
        v.store is Some,
        0 <= start <= k < start + n <= v.wal->0.next,
        forall|j: int|
            k < j < start + n ==> #[trigger] v.wal->0.logicals[j] != v.wal->0.logicals[k],
        0 <= other < block_records,
        forall|j: int| start <= j < start + n ==> #[trigger] v.wal->0.logicals[j] != other,
    ensures
        ({
            let w = v.wal->0;
            let l = w.logicals[k] as int;
            let a = reduced(v, start, n);
            &&& a.store->0[l] == w.wal[k]
            &&& w.dirty[l] == k ==> !is_dirty(a, l) && content(a, record_bytes, l) == w.wal[k]
            &&& w.dirty[l] >= start + n ==> a.wal->0.dirty[l] == w.dirty[l]
            &&& a.store->0[other] == v.store->0[other]
            &&& a.wal->0.dirty[other] == w.dirty[other]
            &&& a.wal->0.wal == w.wal
            &&& a.wal->0.next == w.next
            &&& v.reduced < u64::MAX ==> a.reduced == v.reduced + 1
            &&& v.contiguous < u64::MAX && v.scattered + n <= u64::MAX ==> if (forall|j: int|
                0 <= j < n ==> #[trigger] w.logicals[start + j] == w.logicals[start] + j) {
                a.contiguous == v.contiguous + 1 && a.scattered == v.scattered
            } else {
                a.contiguous == v.contiguous && a.scattered == v.scattered + n
            }
        }),
{
    let w = v.wal->0;
    let s = v.store->0;
    assert forall|i: int| start <= i < start + n implies (#[trigger] w.logicals[i]) < s.len() by {}
    lemma_store_places(s, w.wal, w.logicals, start, n);
    lemma_dirty_places(w.dirty, w.logicals, start, n);
    if forall|j: int| 0 <= j < n ==> #[trigger] w.logicals[start + j] == w.logicals[start] + j {
        assert(w.logicals[start + (n - 1)] == w.logicals[start] + (n - 1));
        assert(w.logicals[start + (n - 1)] < s.len());
        assert(w.logicals[start + 0] < s.len());
    }
}

/// An extent is closed as soon as it has as many records as it may: after each write fewer than that are
/// open, a closed extent counts once, and the longest so far is remembered.
pub proof fn law_extents_close_when_full(w: WalView, logical: usize, data: Seq<u8>)
    requires
        crate::wal::combiner::wal_wf(w),
        w.next < w.wal.len(),
        logical < w.dirty.len(),
        w.pending < w.extent_records,
    ensures
        ({
            let a = crate::wal::combiner::appended(w, logical, data);
            &&& a.next == w.next + 1
            &&& a.pending < a.extent_records
            &&& w.pending + 1 < w.extent_records ==> a.pending == w.pending + 1 && a.extents
                == w.extents && a.max_extent == w.max_extent
            &&& w.pending + 1 == w.extent_records ==> a.pending == 0 && a.start == w.next + 1
                && a.max_extent >= w.extent_records && (w.extents < u64::MAX ==> a.extents
                == w.extents + 1)
            &&& a.max_extent == w.max_extent || a.max_extent == w.pending + 1
            &&& forall|j: int| 0 <= j < w.next ==> #[trigger] a.wal[j] == w.wal[j]
            &&& a.wal[w.next as int] == data
            &&& a.logicals[w.next as int] == logical
        }),
{
}

/// Reducing a part of the log clears every entry of the dirty index that points into the part.
pub proof fn lemma_reduction_clears(
    v: LaneView,
    block_records: nat,
    record_bytes: nat,
    start: int,
    n: nat,
    logical: int,
)
    requires
        lane_wf(v, block_records, record_bytes),
        v.wal is Some,
        v.store is Some,
        0 <= start,
        start + n <= v.wal->0.next,
        0 <= logical < block_records,
    ensures
        reduced(v, start, n).wal->0.dirty.len() == block_records,
        start <= v.wal->0.dirty[logical] < start + n ==> !is_dirty(reduced(v, start, n), logical),
        !(start <= v.wal->0.dirty[logical] < start + n) ==> reduced(v, start, n).wal->0.dirty[logical]
            == v.wal->0.dirty[logical],
{
    let w = v.wal->0;
    lemma_dirty_places(w.dirty, w.logicals, start, n);
    assert(w.dirty[logical] == usize::MAX || (w.dirty[logical] < w.next
        && w.logicals[w.dirty[logical] as int] == logical));
}

} // verus!
