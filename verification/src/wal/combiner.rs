//! The log of one lane: records in the order in which they were written, which of them are the
//! latest, and the extents that they form.
use vstd::prelude::*;
use vstd::string::*;

use crate::error::{invalid, invalid_input, Error};
use crate::random::rotate_left;
use crate::text::{decimal, join2, join4};
use crate::wal::arena::RecordArena;
#[allow(unused_imports)]
use crate::error::Fault;

verus! {

/// The records of one lane after reduction.
#[derive(Debug)]
pub struct ReduceBlockStore {
    pub arena: RecordArena,
}

impl ReduceBlockStore {
    /// Whether the memory fits.
    pub open spec fn wf(&self) -> bool {
        self.arena.wf()
    }

    /// A store of records of zeroes.
    pub fn new(records: usize, record_bytes: usize) -> (r: Result<ReduceBlockStore, Error>)
        ensures
            match r {
                Ok(s) => {
                    &&& records * record_bytes <= usize::MAX
                    &&& s.wf()
                    &&& s.arena.records == records
                    &&& s.arena.record_bytes == record_bytes
                    &&& s.arena@ == Seq::new(
                        records as nat,
                        |i: int| crate::wal::arena::zero_record(record_bytes as nat),
                    )
                },
                Err(e) => records * record_bytes > usize::MAX && e@ == crate::error::bad_input(
                    "blockstore arena size overflow"@,
                ),
            },
    {
        match RecordArena::new(records, record_bytes) {
            Some(arena) => Ok(ReduceBlockStore { arena }),
            None => Err(invalid("blockstore arena size overflow")),
        }
    }

    /// A token for a record of the store whose memory lies at `address`.
    pub fn record_ref_token(&self, logical_record: usize, address: u64) -> (token: u64)
        ensures
            token == block_token(
                logical_record as u64,
                self.arena.record_bytes as u64,
                address,
            ),
    {
        0xb10c_570f_0000_0000u64.wrapping_add(logical_record as u64) ^ rotate_left(address, 17) ^ (
        self.arena.record_bytes as u64)
    }
}

/// A token for a record of a store.
pub open spec fn block_token(logical: u64, record_bytes: u64, address: u64) -> u64 {
    crate::random::word_add(0xb10c_570f_0000_0000u64, logical) ^ crate::random::rotated(
        address,
        17,
    ) ^ record_bytes
}

/// A token for a record of a log.
pub open spec fn wal_token(lane: u64, wal_record: u64, record_bytes: u64, address: u64) -> u64 {
    (lane << 48) ^ wal_record ^ crate::random::rotated(address, 17) ^ record_bytes
}

/// The log of one lane. The largest number stands for no record.
#[derive(Debug)]
pub struct WalCombiner {
    pub lane: usize,
    pub extent_records: usize,
    pub wal: RecordArena,
    pub wal_logicals: Vec<usize>,
    pub dirty: Vec<usize>,
    pub next_wal_record: usize,
    pub pending_extent_start: usize,
    pub pending_extent_records: usize,
    pub wal_extents: u64,
    pub max_extent_records: usize,
}

/// What is meant by a [`WalCombiner`].
pub struct WalView {
    pub lane: nat,
    pub record_bytes: nat,
    pub extent_records: nat,
    pub wal: Seq<Seq<u8>>,
    pub logicals: Seq<usize>,
    pub dirty: Seq<usize>,
    pub next: nat,
    pub start: nat,
    pub pending: nat,
    pub extents: u64,
    pub max_extent: nat,
}

/// Whether the parts of a log fit together: what was written has its logical record, and what is
/// latest for a logical record was written for it.
pub open spec fn wal_wf(w: WalView) -> bool {
    &&& w.next <= w.wal.len()
    &&& w.wal.len() == w.logicals.len()
    &&& w.wal.len() <= usize::MAX
    &&& w.dirty.len() <= usize::MAX
    &&& w.pending <= w.next
    &&& w.extent_records > 0
    &&& forall|i: int| 0 <= i < w.wal.len() ==> (#[trigger] w.wal[i]).len() == w.record_bytes
    &&& forall|i: int| 0 <= i < w.next ==> (#[trigger] w.logicals[i]) < w.dirty.len()
    &&& forall|l: int|
        0 <= l < w.dirty.len() ==> (#[trigger] w.dirty[l]) == usize::MAX || (w.dirty[l] < w.next
            && w.logicals[w.dirty[l] as int] == l)
}

/// The sum of two numbers, but no more than the largest.
pub open spec fn capped(a: int, b: int) -> u64 {
    if a + b > u64::MAX {
        u64::MAX
    } else {
        (a + b) as u64
    }
}

/// A log after the extent that is being filled was closed, where it holds anything.
pub open spec fn extent_finished(w: WalView) -> WalView {
    if w.pending == 0 {
        w
    } else {
        WalView {
            extents: capped(w.extents as int, 1),
            max_extent: if w.pending > w.max_extent {
                w.pending
            } else {
                w.max_extent
            },
            start: w.next,
            pending: 0,
            ..w
        }
    }
}

/// A log after a record was written to its end, before the extent is looked at.
pub open spec fn written(w: WalView, logical: usize, data: Seq<u8>) -> WalView {
    WalView {
        wal: w.wal.update(w.next as int, data),
        logicals: w.logicals.update(w.next as int, logical),
        dirty: w.dirty.update(logical as int, w.next as usize),
        next: w.next + 1,
        pending: w.pending + 1,
        ..w
    }
}

/// A log after a record was appended: a full extent is closed.
pub open spec fn appended(w: WalView, logical: usize, data: Seq<u8>) -> WalView {
    let n = written(w, logical, data);
    if n.pending >= w.extent_records {
        extent_finished(n)
    } else {
        n
    }
}

/// A log after records were written to its end, one after the other.
pub open spec fn all_written(w: WalView, logicals: Seq<usize>, data: Seq<Seq<u8>>) -> WalView
    decreases logicals.len(),
{
    if logicals.len() == 0 {
        w
    } else {
        written(
            all_written(w, logicals.drop_last(), data),
            logicals.last(),
            data[logicals.len() - 1],
        )
    }
}

/// A log after an extent was appended in one piece.
pub open spec fn extent_appended(w: WalView, logicals: Seq<usize>, data: Seq<Seq<u8>>) -> WalView {
    let n = all_written(w, logicals, data);
    if n.pending >= w.extent_records {
        extent_finished(n)
    } else {
        n
    }
}

/// What is said of a log that is full.
pub open spec fn exhausted(lane: nat, capacity: nat) -> Fault {
    crate::error::bad_input(
        "lane "@ + crate::text::decimal_text(lane) + " exhausted wal capacity "@
            + crate::text::decimal_text(capacity)
            + "; increase --records-per-lane or read percentage"@,
    )
}

/// What is said of an extent that is too short.
pub open spec fn short_source(have: nat, need: nat) -> Fault {
    crate::error::bad_input(
        "source extent has "@ + crate::text::decimal_text(have) + " bytes but "@
            + crate::text::decimal_text(need) + " are required"@,
    )
}

impl WalCombiner {
    /// What the log means.
    pub open spec fn view(&self) -> WalView {
        WalView {
            lane: self.lane as nat,
            record_bytes: self.wal.record_bytes as nat,
            extent_records: self.extent_records as nat,
            wal: self.wal@,
            logicals: self.wal_logicals@,
            dirty: self.dirty@,
            next: self.next_wal_record as nat,
            start: self.pending_extent_start as nat,
            pending: self.pending_extent_records as nat,
            extents: self.wal_extents,
            max_extent: self.max_extent_records as nat,
        }
    }

    /// Whether the parts of the log fit together.
    pub open spec fn wf(&self) -> bool {
        self.wal.wf() && wal_wf(self@)
    }

    /// An empty log.
    pub fn new(
        lane: usize,
        wal_records: usize,
        block_records: usize,
        record_bytes: usize,
        extent_records: usize,
    ) -> (r: Result<WalCombiner, Error>)
        requires
            extent_records > 0,
        ensures
            match r {
                Ok(w) => {
                    &&& wal_records * record_bytes <= usize::MAX
                    &&& w.wf()
                    &&& w@ == (WalView {
                        lane: lane as nat,
                        record_bytes: record_bytes as nat,
                        extent_records: extent_records as nat,
                        wal: Seq::new(
                            wal_records as nat,
                            |i: int| crate::wal::arena::zero_record(record_bytes as nat),
                        ),
                        logicals: Seq::new(wal_records as nat, |i: int| usize::MAX),
                        dirty: Seq::new(block_records as nat, |i: int| usize::MAX),
                        next: 0,
                        start: 0,
                        pending: 0,
                        extents: 0,
                        max_extent: 0,
                    })
                },
                Err(e) => wal_records * record_bytes > usize::MAX && e@ == crate::error::bad_input(
                    "wal arena size overflow"@,
                ),
            },
    {
        let wal: RecordArena = match RecordArena::new(wal_records, record_bytes) {
            Some(wal) => wal,
            None => {
                return Err(invalid("wal arena size overflow"));
            },
        };
        Ok(
            WalCombiner {
                lane,
                extent_records,
                wal,
                wal_logicals: none_of(wal_records),
                dirty: none_of(block_records),
                next_wal_record: 0,
                pending_extent_start: 0,
                pending_extent_records: 0,
                wal_extents: 0,
                max_extent_records: 0,
            },
        )
    }

    fn full(&self) -> (e: Error)
        ensures
            e@ == exhausted(self.lane as nat, self.wal_logicals@.len()),
    {
        let head: String = join4(
            "lane ",
            decimal(self.lane as u64).as_str(),
            " exhausted wal capacity ",
            decimal(self.wal_logicals.len() as u64).as_str(),
        );
        invalid_input(
            join2(head.as_str(), "; increase --records-per-lane or read percentage"),
        )
    }

    /// Closes the extent that is being filled, where it holds anything.
    pub fn finish_pending_extent(&mut self)
        requires
            old(self).wf(),
        ensures
            final(self).wf(),
            final(self)@ == extent_finished(old(self)@),
    {
        if self.pending_extent_records == 0 {
            return;
        }
        self.wal_extents = self.wal_extents.saturating_add(1);
        if self.pending_extent_records > self.max_extent_records {
            self.max_extent_records = self.pending_extent_records;
        }
        self.pending_extent_start = self.next_wal_record;
        self.pending_extent_records = 0;
    }

    /// Closes the extent that is being filled.
    pub fn flush(&mut self)
        requires
            old(self).wf(),
        ensures
            final(self).wf(),
            final(self)@ == extent_finished(old(self)@),
    {
        self.finish_pending_extent();
    }

    /// Appends a record; whether that filled an extent.
    pub fn append_record(&mut self, logical_record: usize, source: &[u8]) -> (r: Result<bool, Error>)
        requires
            old(self).wf(),
            logical_record < old(self).dirty@.len(),
            source@.len() >= old(self).wal.record_bytes,
        ensures
            final(self).wf(),
            match r {
                Ok(full) => {
                    let data = source@.subrange(0, old(self).wal.record_bytes as int);
                    &&& old(self)@.next < old(self)@.wal.len()
                    &&& final(self)@ == appended(old(self)@, logical_record, data)
                    &&& full == (old(self)@.pending + 1 >= old(self)@.extent_records)
                },
                Err(e) => {
                    &&& old(self)@.next >= old(self)@.wal.len()
                    &&& final(self)@ == old(self)@
                    &&& e@ == exhausted(old(self)@.lane, old(self)@.wal.len())
                },
            },
    {
        if self.next_wal_record >= self.wal_logicals.len() {
            return Err(self.full());
        }
        let ghost before = self@;
        let at: usize = self.next_wal_record;
        self.wal.write(at, source, 0);
        self.wal_logicals[at] = logical_record;
        self.dirty[logical_record] = at;
        self.next_wal_record = at + 1;
        self.pending_extent_records = self.pending_extent_records + 1;
        proof {
            lemma_written_wf(
                before,
                logical_record,
                source@.subrange(0, self.wal.record_bytes as int),
            );
        }
        let full: bool = self.pending_extent_records >= self.extent_records;
        if full {
            self.finish_pending_extent();
        }
        Ok(full)
    }

    /// Appends an extent in one piece: a record of `source` for each of the logical records.
    pub fn append_extent(&mut self, source: &[u8], logicals: &Vec<usize>) -> (r: Result<(), Error>)
        requires
            old(self).wf(),
            forall|i: int|
                0 <= i < logicals@.len() ==> (#[trigger] logicals@[i]) < old(self).dirty@.len(),
        ensures
            final(self).wf(),
            match r {
                Ok(_) => {
                    &&& logicals@.len() == 0 || (old(self)@.next + logicals@.len()
                        <= old(self)@.wal.len() && source@.len() >= logicals@.len()
                        * old(self)@.record_bytes)
                    &&& final(self)@ == if logicals@.len() == 0 {
                        old(self)@
                    } else {
                        extent_appended(
                            old(self)@,
                            logicals@,
                            crate::wal::arena::records_in(
                                source@,
                                old(self)@.record_bytes,
                                logicals@.len(),
                            ),
                        )
                    }
                },
                Err(e) => {
                    &&& logicals@.len() > 0
                    &&& final(self)@ == old(self)@
                    &&& if old(self)@.next + logicals@.len() > old(self)@.wal.len() {
                        e@ == exhausted(old(self)@.lane, old(self)@.wal.len())
                    } else {
                        &&& source@.len() < logicals@.len() * old(self)@.record_bytes
                        &&& e@ == short_source(
                            source@.len(),
                            logicals@.len() * old(self)@.record_bytes,
                        )
                    }
                },
            },
    {
        let records: usize = logicals.len();
        if records == 0 {
            return Ok(());
        }
        let room: usize = self.wal_logicals.len() - self.next_wal_record;
        if records > room {
            return Err(self.full());
        }
        let ghost before = self@;
        let rb: usize = self.wal.record_bytes;
        let total: usize = self.wal.bytes.len();
        proof {
            assert(records * rb <= total) by (nonlinear_arith)
                requires
                    records <= self.wal.records,
                    total == self.wal.records * rb,
            ;
        }
        let bytes: usize = records * rb;
        if source.len() < bytes {
            let head: String = join4(
                "source extent has ",
                decimal(source.len() as u64).as_str(),
                " bytes but ",
                decimal(bytes as u64).as_str(),
            );
            return Err(invalid_input(join2(head.as_str(), " are required")));
        }
        let ghost data = crate::wal::arena::records_in(source@, rb as nat, records as nat);
        let len: usize = source.len();
        let mut i: usize = 0;
        proof {
            assert(logicals@.subrange(0, 0) =~= Seq::<usize>::empty());
        }
        while i < records
            invariant
                i <= records,
                records == logicals@.len(),
                len == source@.len(),
                records * rb <= len,
                rb == self.wal.record_bytes,
                rb == before.record_bytes,
                self.wf(),
                wal_wf(before),
                before.next + records <= before.wal.len(),
                self.next_wal_record == before.next + i,
                self@.dirty.len() == before.dirty.len(),
                self@.wal.len() == before.wal.len(),
                forall|k: int|
                    0 <= k < records ==> (#[trigger] logicals@[k]) < before.dirty.len(),
                data == crate::wal::arena::records_in(source@, rb as nat, records as nat),
                self@ == all_written(before, logicals@.subrange(0, i as int), data),
                self@.pending == before.pending + i,
                self@.extent_records == before.extent_records,
            decreases records - i,
        {
            proof {
                let grown = logicals@.subrange(0, i + 1);
                assert(grown.drop_last() =~= logicals@.subrange(0, i as int));
                assert(grown.last() == logicals@[i as int]);
                assert(i * rb + rb <= records * rb) by (nonlinear_arith)
                    requires
                        i < records,
                ;
                assert(0 <= i * rb) by (nonlinear_arith);
            }
            let ghost prior = self@;
            let from: usize = i * rb;
            let at: usize = self.next_wal_record;
            let logical: usize = logicals[i];
            self.wal.write(at, source, from);
            self.wal_logicals[at] = logical;
            self.dirty[logical] = at;
            self.next_wal_record = at + 1;
            self.pending_extent_records = self.pending_extent_records + 1;
            proof {
                assert(source@.subrange(from as int, from + rb) =~= data[i as int]);
                lemma_written_wf(prior, logical, data[i as int]);
            }
            i = i + 1;
        }
        proof {
            assert(logicals@.subrange(0, i as int) =~= logicals@);
        }
        if self.pending_extent_records >= self.extent_records {
            self.finish_pending_extent();
        }
        Ok(())
    }

    /// The first logical record of a stretch of the log whose logical records follow each other,
    /// where that is so and they are all in the store.
    pub fn extent_is_contiguous(&self, start: usize, records: usize, block_records: usize) -> (r:
        Option<usize>)
        requires
            start + records <= self.wal_logicals@.len(),
        ensures
            r == contiguous_from(
                self.wal_logicals@,
                start as int,
                records as int,
                block_records as int,
            ),
    {
        if records == 0 {
            return None;
        }
        let len: usize = self.wal_logicals.len();
        let first: usize = self.wal_logicals[start];
        if first == usize::MAX || records > block_records || first > block_records - records {
            return None;
        }
        let mut i: usize = 1;
        while i < records
            invariant
                1 <= i <= records,
                len == self.wal_logicals@.len(),
                start + records <= len,
                first == self.wal_logicals@[start as int],
                first + records <= block_records,
                first != usize::MAX,
                forall|k: int|
                    0 <= k < i ==> #[trigger] self.wal_logicals@[start + k] == first + k,
            decreases records - i,
        {
            let at: usize = start + i;
            if self.wal_logicals[at] != first + i {
                assert(self.wal_logicals@[start + i] != first + i);
                return None;
            }
            i = i + 1;
        }
        Some(first)
    }

    /// Copies the latest record out of the log, where it is there.
    pub fn read_dirty_into(&self, logical_record: usize, out: &mut Vec<u8>) -> (hit: bool)
        requires
            self.wf(),
            logical_record < self.dirty@.len(),
            old(out)@.len() == self.wal.record_bytes,
        ensures
            hit == (self.dirty@[logical_record as int] != usize::MAX),
            final(out)@ == if hit {
                self.wal@[self.dirty@[logical_record as int] as int]
            } else {
                old(out)@
            },
    {
        let at: usize = self.dirty[logical_record];
        if at == usize::MAX {
            return false;
        }
        self.wal.read(at, out);
        true
    }

    /// A token for the latest record in the log, where it is there, if the log lies at `base`.
    pub fn read_dirty_ref_token(&self, logical_record: usize, base: u64) -> (token: Option<u64>)
        requires
            self.wf(),
            logical_record < self.dirty@.len(),
        ensures
            token == dirty_token(self@, logical_record as int, base),
    {
        let at: usize = self.dirty[logical_record];
        if at == usize::MAX {
            return None;
        }
        let total: usize = self.wal.bytes.len();
        proof {
            assert(0 <= at * self.wal.record_bytes <= total) by (nonlinear_arith)
                requires
                    at < self.wal.records,
                    total == self.wal.records * self.wal.record_bytes,
            ;
        }
        let offset: usize = at * self.wal.record_bytes;
        let address: u64 = base.wrapping_add(offset as u64);
        Some(
            ((self.lane as u64) << 48) ^ (at as u64) ^ rotate_left(address, 17) ^ (
            self.wal.record_bytes as u64),
        )
    }

    /// Forgets a record as the latest, where it is.
    pub fn clear_dirty_if_current(&mut self, logical_record: usize, wal_record: usize)
        requires
            old(self).wf(),
            logical_record < old(self).dirty@.len(),
        ensures
            final(self).wf(),
            final(self)@ == (WalView {
                dirty: cleared(old(self).dirty@, logical_record as int, wal_record),
                ..old(self)@
            }),
    {
        if self.dirty[logical_record] == wal_record {
            self.dirty[logical_record] = usize::MAX;
        }
    }
}

/// The latest records after one was forgotten where it is the latest.
pub open spec fn cleared(dirty: Seq<usize>, logical: int, wal_record: usize) -> Seq<usize> {
    if dirty[logical] == wal_record {
        dirty.update(logical, usize::MAX)
    } else {
        dirty
    }
}

/// A token for the latest record in a log that lies at `base`, where it is there.
pub open spec fn dirty_token(w: WalView, logical: int, base: u64) -> Option<u64> {
    let at = w.dirty[logical];
    if at == usize::MAX {
        None
    } else {
        Some(
            wal_token(
                w.lane as u64,
                at as u64,
                w.record_bytes as u64,
                crate::random::word_add(base, (at * w.record_bytes) as u64),
            ),
        )
    }
}

/// The first logical record of a stretch of a log whose logical records follow each other, where
/// that is so and they are all among the first `block_records`.
pub open spec fn contiguous_from(
    logicals: Seq<usize>,
    start: int,
    records: int,
    block_records: int,
) -> Option<usize> {
    if records == 0 || logicals[start] == usize::MAX || logicals[start] + records
        > block_records {
        None
    } else if forall|k: int|
        0 <= k < records ==> #[trigger] logicals[start + k] == logicals[start] + k {
        Some(logicals[start])
    } else {
        None
    }
}

fn none_of(n: usize) -> (v: Vec<usize>)
    ensures
        v@ == Seq::new(n as nat, |i: int| usize::MAX),
{
    let mut v: Vec<usize> = Vec::new();
    let mut i: usize = 0;
    while i < n
        invariant
            i <= n,
            v@ == Seq::new(i as nat, |k: int| usize::MAX),
        decreases n - i,
    {
        v.push(usize::MAX);
        proof {
            assert(v@ =~= Seq::new((i + 1) as nat, |k: int| usize::MAX));
        }
        i = i + 1;
    }
    v
}

/// Writing records changes neither how many logical records there are nor how long they are.
pub proof fn lemma_all_written_shape(w: WalView, logicals: Seq<usize>, data: Seq<Seq<u8>>)
    requires
        forall|i: int| 0 <= i < logicals.len() ==> (#[trigger] logicals[i]) < w.dirty.len(),
    ensures
        all_written(w, logicals, data).dirty.len() == w.dirty.len(),
        all_written(w, logicals, data).record_bytes == w.record_bytes,
        all_written(w, logicals, data).next == w.next + logicals.len(),
        extent_appended(w, logicals, data).dirty.len() == w.dirty.len(),
        extent_appended(w, logicals, data).record_bytes == w.record_bytes,
        extent_appended(w, logicals, data).next == w.next + logicals.len(),
    decreases logicals.len(),
{
    if logicals.len() > 0 {
        let head = logicals.drop_last();
        assert forall|i: int| 0 <= i < head.len() implies (#[trigger] head[i]) < w.dirty.len() by {
            assert(head[i] == logicals[i]);
        }
        lemma_all_written_shape(w, head, data);
        assert(logicals[logicals.len() - 1] < w.dirty.len());
    }
}

/// A log stays well formed when a record is written to its end.
pub proof fn lemma_written_wf(w: WalView, logical: usize, data: Seq<u8>)
    requires
        wal_wf(w),
        w.next < w.wal.len(),
        logical < w.dirty.len(),
        data.len() == w.record_bytes,
    ensures
        wal_wf(written(w, logical, data)),
        wal_wf(appended(w, logical, data)),
{
    let n = written(w, logical, data);
    assert forall|l: int| 0 <= l < n.dirty.len() implies (#[trigger] n.dirty[l]) == usize::MAX || (
    n.dirty[l] < n.next && n.logicals[n.dirty[l] as int] == l) by {
        if l != logical {
            assert(n.dirty[l] == w.dirty[l]);
        }
    }
}

/// A token tells records apart: no two records of a lane have one token at one address, nor one record at
/// two addresses.
pub proof fn law_tokens_tell_records_apart(
    lane: u64,
    r1: u64,
    r2: u64,
    record_bytes: u64,
    a1: u64,
    a2: u64,
)
    ensures
        wal_token(lane, r1, record_bytes, a1) == wal_token(lane, r2, record_bytes, a1) ==> r1 == r2,
        wal_token(lane, r1, record_bytes, a1) == wal_token(lane, r1, record_bytes, a2) ==> a1 == a2,
        block_token(r1, record_bytes, a1) == block_token(r2, record_bytes, a1) ==> r1 == r2,
        block_token(r1, record_bytes, a1) == block_token(r1, record_bytes, a2) ==> a1 == a2,
{
    let (x1, x2) = (crate::random::rotated(a1, 17), crate::random::rotated(a2, 17));
    let top = lane << 48;
    assert(top ^ r1 ^ x1 ^ record_bytes == top ^ r2 ^ x1 ^ record_bytes ==> r1 == r2)
        by (bit_vector);
    assert(top ^ r1 ^ x1 ^ record_bytes == top ^ r1 ^ x2 ^ record_bytes ==> x1 == x2)
        by (bit_vector);
    assert((a1 << 17u64) | (a1 >> 47u64) == (a2 << 17u64) | (a2 >> 47u64) ==> a1 == a2)
        by (bit_vector);
    let base = 0xb10c_570f_0000_0000u64;
    let (s1, s2) = (crate::random::word_add(base, r1), crate::random::word_add(base, r2));
    assert(s1 ^ x1 ^ record_bytes == s2 ^ x1 ^ record_bytes ==> s1 == s2) by (bit_vector);
    assert(s1 ^ x1 ^ record_bytes == s1 ^ x2 ^ record_bytes ==> x1 == x2) by (bit_vector);
}

/// The token of a record that is not in the blocks yet is that of its place in the log.
pub proof fn law_a_dirty_record_has_the_token_of_its_place(w: WalView, logical: usize, data: Seq<u8>, base: u64)
    requires
        wal_wf(w),
        w.next < w.wal.len(),
        logical < w.dirty.len(),
        data.len() == w.record_bytes,
        base + w.next * w.record_bytes <= u64::MAX,
    ensures
        dirty_token(written(w, logical, data), logical as int, base) == Some(
            wal_token(
                w.lane as u64,
                w.next as u64,
                w.record_bytes as u64,
                (base + w.next * w.record_bytes) as u64,
            ),
        ),
        forall|other: int|
            0 <= other < w.dirty.len() && other != logical ==> #[trigger] dirty_token(
                written(w, logical, data),
                other,
                base,
            ) == dirty_token(w, other, base),
{
    let n = w.next * w.record_bytes;
    assert(0 <= n) by (nonlinear_arith)
        requires
            n == w.next * w.record_bytes,
    ;
}

/// An extent is one piece exactly where its records follow one another in the blocks, from the first one
/// on and up to the end of the blocks.
pub proof fn law_one_piece_has_its_records_in_a_row(
    logicals: Seq<usize>,
    start: int,
    records: int,
    block_records: int,
)
    requires
        0 <= start,
        0 < records,
        start + records <= logicals.len(),
        block_records <= usize::MAX,
    ensures
        match contiguous_from(logicals, start, records, block_records) {
            Some(first) => forall|k: int|
                start <= k < start + records ==> (#[trigger] logicals[k]) == first + (k - start)
                    && logicals[k] < block_records,
            None => exists|k: int|
                start <= k < start + records && ((#[trigger] logicals[k]) != logicals[start] + (k
                    - start) || logicals[k] >= block_records),
        },
{
    match contiguous_from(logicals, start, records, block_records) {
        Some(first) => {
            assert forall|k: int| start <= k < start + records implies (#[trigger] logicals[k])
                == first + (k - start) && logicals[k] < block_records by {
                assert(logicals[start + (k - start)] == logicals[start] + (k - start));
            }
        },
        None => {
            if logicals[start] == usize::MAX {
                assert(logicals[start] >= block_records);
            } else if logicals[start] + records > block_records {
                let last = start + records - 1;
                assert(logicals[last] != logicals[start] + (last - start) || logicals[last]
                    >= block_records);
            } else {
                let k = choose|k: int|
                    0 <= k < records && #[trigger] logicals[start + k] != logicals[start] + k;
                assert(logicals[start + k] != logicals[start] + (start + k - start));
            }
        },
    }
}

/// A record is no longer held back once the place that it was last written to is cleared; clearing an
/// earlier place, or another record, leaves it as it was.
pub proof fn law_only_the_current_place_is_cleared(
    w: WalView,
    logical: usize,
    data: Seq<u8>,
    place: usize,
    other: int,
)
    requires
        wal_wf(w),
        w.next < w.wal.len(),
        logical < w.dirty.len(),
        0 <= other < w.dirty.len(),
        data.len() == w.record_bytes,
    ensures
        ({
            let dirty = written(w, logical, data).dirty;
            let after = cleared(dirty, logical as int, place);
            &&& place == w.next ==> after[logical as int] == usize::MAX
            &&& place != w.next ==> after[logical as int] == w.next
            &&& other != logical ==> after[other] == w.dirty[other]
        }),
{
}

} // verus!
