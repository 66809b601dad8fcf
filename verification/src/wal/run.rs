//! Runs over the lanes of a log: what is written, reduced and read, and what is counted.
use vstd::prelude::*;
use vstd::string::*;

use crate::bytes::{get_le, append_bytes};
use crate::error::Error;
use crate::wal::config::{Config, Mode, Pattern, ReadAccess};
use crate::wal::lane::{LaneState, ReadRef};
#[allow(unused_imports)]
use crate::error::Fault;
#[allow(unused_imports)]
use crate::wal::lane::LaneView;

verus! {

/// What a worker has counted.
#[derive(Clone, Copy, Debug, PartialEq, Eq, Structural)]
pub struct WorkerStats {
    pub ops: u64,
    pub writes: u64,
    pub reads: u64,
    pub dirty_hits: u64,
    pub dirty_misses: u64,
    pub wal_bytes: u64,
    pub reduce_bytes: u64,
    pub read_bytes: u64,
    pub read_ref_bytes: u64,
    pub wal_extents: u64,
    pub reduced_extents: u64,
    pub contiguous_reduce_extents: u64,
    pub scattered_reduce_records: u64,
    pub max_extent_records: usize,
    pub checksum: u64,
}

impl WorkerStats {
    /// Nothing counted yet.
    pub fn new() -> (s: WorkerStats)
        ensures
            s == no_work(),
    {
        WorkerStats {
            ops: 0,
            writes: 0,
            reads: 0,
            dirty_hits: 0,
            dirty_misses: 0,
            wal_bytes: 0,
            reduce_bytes: 0,
            read_bytes: 0,
            read_ref_bytes: 0,
            wal_extents: 0,
            reduced_extents: 0,
            contiguous_reduce_extents: 0,
            scattered_reduce_records: 0,
            max_extent_records: 0,
            checksum: 0,
        }
    }
}

/// Nothing counted yet.
pub open spec fn no_work() -> WorkerStats {
    WorkerStats {
        ops: 0,
        writes: 0,
        reads: 0,
        dirty_hits: 0,
        dirty_misses: 0,
        wal_bytes: 0,
        reduce_bytes: 0,
        read_bytes: 0,
        read_ref_bytes: 0,
        wal_extents: 0,
        reduced_extents: 0,
        contiguous_reduce_extents: 0,
        scattered_reduce_records: 0,
        max_extent_records: 0,
        checksum: 0,
    }
}

/// The sum of two numbers, but no more than the largest.
pub open spec fn plus(a: u64, b: int) -> u64 {
    crate::wal::combiner::capped(a as int, b)
}

/// The word that a number is scattered to.
pub open spec fn scrambled(v: u64) -> u64 {
    crate::random::mixed(crate::random::word_add(v, 0x9e37_79b9_7f4a_7c15))
}

/// Scatters a number over the words.
pub fn mix64(value: u64) -> (r: u64)
    ensures
        r == scrambled(value),
{
    crate::random::mix64(value.wrapping_add(0x9e37_79b9_7f4a_7c15))
}

/// The logical record that an operation of a lane touches.
pub open spec fn logical_of(c: Config, lane: usize, op: usize) -> usize {
    match c.pattern {
        Pattern::Sequential => op % c.block_records_per_lane,
        Pattern::Random => (scrambled(((lane as u64) << 32) ^ (op as u64)) as usize)
            % c.block_records_per_lane,
    }
}

/// The logical record that an operation of a lane touches.
pub fn logical_record(c: &Config, lane: usize, op: usize) -> (logical: usize)
    requires
        c.block_records_per_lane > 0,
    ensures
        logical == logical_of(*c, lane, op),
        logical < c.block_records_per_lane,
{
    match c.pattern {
        Pattern::Sequential => op % c.block_records_per_lane,
        Pattern::Random => {
            let value: u64 = mix64(((lane as u64) << 32) ^ (op as u64));
            (value as usize) % c.block_records_per_lane
        },
    }
}

/// Whether an operation of a mixed run reads.
pub open spec fn reads_at(lane: usize, op: usize, read_pct: u32) -> bool {
    scrambled(
        ((lane as u64) << 40) ^ crate::random::word_mul(op as u64, 0x9e37_79b9),
    ) % 100 < read_pct
}

/// Whether an operation of a mixed run reads.
pub fn mixed_is_read(lane: usize, op: usize, read_pct: u32) -> (yes: bool)
    ensures
        yes == reads_at(lane, op, read_pct),
{
    let value: u64 = mix64(((lane as u64) << 40) ^ (op as u64).wrapping_mul(0x9e37_79b9));
    value % 100 < read_pct as u64
}

/// A check over the first and the last eight bytes of a record, each with the lowest byte first.
pub open spec fn record_check(data: Seq<u8>) -> u64 {
    if data.len() < 16 {
        0
    } else {
        crate::random::word_add(
            crate::bytes::le_value(data.subrange(0, 8)) as u64,
            crate::bytes::le_value(data.subrange(data.len() - 8, data.len() as int)) as u64,
        )
    }
}

/// A check over the first and the last eight bytes of a record.
pub fn checksum_record(data: &Vec<u8>) -> (check: u64)
    ensures
        check == record_check(data@),
{
    let n: usize = data.len();
    if n < 16 {
        return 0;
    }
    proof {
        crate::bytes::lemma_byte_ranges();
        crate::bytes::lemma_le_value_bound(data@.subrange(0, 8));
        crate::bytes::lemma_le_value_bound(data@.subrange(n - 8, n as int));
    }
    let first: u64 = get_le(data.as_slice(), 0, 8);
    let last: u64 = get_le(data.as_slice(), n - 8, 8);
    first.wrapping_add(last)
}

/// The bytes that a worker writes into every record.
pub open spec fn pattern_bytes(worker: usize, record_bytes: nat) -> Seq<u8> {
    Seq::new(
        record_bytes,
        |i: int| scrambled(((worker as u64) << 32) ^ (i as u64)) as u8,
    )
}

/// The bytes that a worker writes into every record.
pub fn make_source_pattern(worker: usize, record_bytes: usize) -> (v: Vec<u8>)
    ensures
        v@ == pattern_bytes(worker, record_bytes as nat),
{
    let mut v: Vec<u8> = Vec::new();
    let mut i: usize = 0;
    while i < record_bytes
        invariant
            i <= record_bytes,
            v@ == pattern_bytes(worker, i as nat),
        decreases record_bytes - i,
    {
        v.push(mix64(((worker as u64) << 32) ^ (i as u64)) as u8);
        proof {
            assert(v@ =~= pattern_bytes(worker, (i + 1) as nat));
        }
        i = i + 1;
    }
    v
}

/// A record, repeated.
pub open spec fn repeated(record: Seq<u8>, n: nat) -> Seq<u8>
    decreases n,
{
    if n == 0 {
        Seq::empty()
    } else {
        repeated(record, (n - 1) as nat) + record
    }
}

proof fn lemma_repeated(record: Seq<u8>, n: nat)
    ensures
        repeated(record, n).len() == n * record.len(),
        forall|i: int|
            0 <= i < n ==> #[trigger] crate::wal::arena::record_at(
                repeated(record, n),
                record.len(),
                i,
            ) == record,
    decreases n,
{
    if n == 0 {
        assert(n * record.len() == 0) by (nonlinear_arith)
            requires
                n == 0,
        ;
    } else {
        let m = (n - 1) as nat;
        lemma_repeated(record, m);
        let all = repeated(record, n);
        let head = repeated(record, m);
        assert(n * record.len() == m * record.len() + record.len()) by (nonlinear_arith)
            requires
                n == m + 1,
        ;
        assert forall|i: int| 0 <= i < n implies #[trigger] crate::wal::arena::record_at(
            all,
            record.len(),
            i,
        ) == record by {
            if i < m {
                assert(0 <= i * record.len() && i * record.len() + record.len() <= m
                    * record.len()) by (nonlinear_arith)
                    requires
                        0 <= i < m,
                ;
                assert(crate::wal::arena::record_at(all, record.len(), i)
                    =~= crate::wal::arena::record_at(head, record.len(), i));
            } else {
                assert(crate::wal::arena::record_at(all, record.len(), i) =~= record);
            }
        }
    }
}

/// An extent of records that are all the same.
pub fn make_source_extent(worker: usize, record_bytes: usize, extent_records: usize) -> (v: Vec<u8>)
    ensures
        v@ == repeated(pattern_bytes(worker, record_bytes as nat), extent_records as nat),
{
    let source: Vec<u8> = make_source_pattern(worker, record_bytes);
    let mut v: Vec<u8> = Vec::new();
    let mut i: usize = 0;
    while i < extent_records
        invariant
            i <= extent_records,
            source@ == pattern_bytes(worker, record_bytes as nat),
            v@ == repeated(source@, i as nat),
        decreases extent_records - i,
    {
        append_bytes(&mut v, source.as_slice());
        i = i + 1;
    }
    v
}

/// A lane after a record was written, or why it could not be.
pub open spec fn write_result(v: LaneView, logical: usize, source: Seq<u8>) -> Result<
    LaneView,
    Fault,
> {
    match v.wal {
        None => Err(crate::error::bad_input("write attempted without a WAL combiner"@)),
        Some(w) => if w.next >= w.wal.len() {
            Err(crate::wal::combiner::exhausted(w.lane, w.wal.len()))
        } else {
            Ok(
                crate::wal::lane::with_write(
                    v,
                    logical,
                    source.subrange(0, w.record_bytes as int),
                ),
            )
        },
    }
}

/// A lane after an extent was written in one piece, or why it could not be.
pub open spec fn extent_result(v: LaneView, logicals: Seq<usize>, source: Seq<u8>) -> Result<
    LaneView,
    Fault,
> {
    match v.wal {
        None => Err(crate::error::bad_input("write extent attempted without a WAL combiner"@)),
        Some(w) => if logicals.len() == 0 {
            Ok(crate::wal::lane::with_wal(v, w))
        } else if w.next + logicals.len() > w.wal.len() {
            Err(crate::wal::combiner::exhausted(w.lane, w.wal.len()))
        } else if source.len() < logicals.len() * w.record_bytes {
            Err(
                crate::wal::combiner::short_source(
                    source.len(),
                    logicals.len() * w.record_bytes,
                ),
            )
        } else {
            Ok(
                crate::wal::lane::with_wal(
                    v,
                    crate::wal::combiner::extent_appended(
                        w,
                        logicals,
                        crate::wal::arena::records_in(source, w.record_bytes, logicals.len()),
                    ),
                ),
            )
        },
    }
}

/// A lane after a stretch of its log was reduced, and how many bytes that were.
pub open spec fn reduce_result(v: LaneView, start: int, n: nat) -> Result<(LaneView, u64), Fault> {
    if n == 0 {
        Ok((v, 0))
    } else if v.store is None {
        Err(crate::error::bad_input("reduce attempted without a blockstore"@))
    } else if v.wal is None {
        Err(crate::error::bad_input("reduce attempted without a WAL combiner"@))
    } else {
        Ok((crate::wal::lane::reduced(v, start, n), (n * v.wal->0.record_bytes) as u64))
    }
}

/// A lane after the extent that is being filled was closed.
pub open spec fn flushed(v: LaneView) -> LaneView {
    match v.wal {
        None => v,
        Some(w) => crate::wal::lane::with_wal(v, crate::wal::combiner::extent_finished(w)),
    }
}

/// The counts after `n` records were written.
pub open spec fn wrote(s: WorkerStats, n: int, bytes: int) -> WorkerStats {
    WorkerStats { writes: plus(s.writes, n), wal_bytes: plus(s.wal_bytes, bytes), ..s }
}

/// The counts after `n` operations.
pub open spec fn operated(s: WorkerStats, n: int) -> WorkerStats {
    WorkerStats { ops: plus(s.ops, n), ..s }
}

/// The counts after bytes were reduced.
pub open spec fn reduced_bytes(s: WorkerStats, bytes: u64) -> WorkerStats {
    WorkerStats { reduce_bytes: plus(s.reduce_bytes, bytes as int), ..s }
}

/// Where the log and the store of a lane lie.
#[derive(Clone, Copy, Debug, PartialEq, Eq, Structural)]
pub struct Bases {
    pub wal: u64,
    pub store: u64,
}

/// The counts after a read.
pub open spec fn read_counted(s: WorkerStats, v: LaneView, c: Config, logical: int, bases: Bases) -> WorkerStats {
    let hit = crate::wal::lane::is_dirty(v, logical);
    let s = if hit {
        WorkerStats { dirty_hits: plus(s.dirty_hits, 1), ..s }
    } else {
        WorkerStats { dirty_misses: plus(s.dirty_misses, 1), ..s }
    };
    let s = WorkerStats { reads: plus(s.reads, 1), ..s };
    match c.read_access {
        ReadAccess::Copy => WorkerStats {
            checksum: crate::random::word_add(
                s.checksum,
                record_check(crate::wal::lane::content(v, c.record_bytes as nat, logical)),
            ),
            read_bytes: plus(s.read_bytes, c.record_bytes as int),
            ..s
        },
        ReadAccess::Ref => WorkerStats {
            checksum: crate::random::word_add(
                s.checksum,
                crate::wal::lane::ref_of(
                    v,
                    logical,
                    bases.wal,
                    bases.store,
                    c.record_bytes as nat,
                ).token,
            ),
            read_ref_bytes: plus(s.read_ref_bytes, c.record_bytes as int),
            ..s
        },
    }
}

/// What the buffer of a worker holds after a read: where records are copied, the record.
pub open spec fn sunk(sink: Seq<u8>, v: LaneView, c: Config, logical: int) -> Seq<u8> {
    match c.read_access {
        ReadAccess::Copy => crate::wal::lane::content(v, c.record_bytes as nat, logical),
        ReadAccess::Ref => sink,
    }
}

/// Reads a record, as a copy or as a reference, and counts it.
pub fn record_read(
    state: &LaneState,
    logical: usize,
    c: &Config,
    bases: Bases,
    sink: &mut Vec<u8>,
    stats: &mut WorkerStats,
)
    requires
        state.wf(c.block_records_per_lane as nat, c.record_bytes as nat),
        logical < c.block_records_per_lane,
        old(sink)@.len() == c.record_bytes,
    ensures
        final(sink)@.len() == c.record_bytes,
        final(sink)@ == sunk(old(sink)@, state@, *c, logical as int),
        *final(stats) == read_counted(*old(stats), state@, *c, logical as int, bases),
{
    match c.read_access {
        ReadAccess::Copy => {
            let hit: bool = state.read_into(logical, sink);
            if hit {
                stats.dirty_hits = stats.dirty_hits.saturating_add(1);
            } else {
                stats.dirty_misses = stats.dirty_misses.saturating_add(1);
            }
            let check: u64 = checksum_record(sink);
            stats.checksum = stats.checksum.wrapping_add(check);
            stats.read_bytes = stats.read_bytes.saturating_add(c.record_bytes as u64);
            proof {
                lemma_content_len(
                    state@,
                    c.block_records_per_lane as nat,
                    c.record_bytes as nat,
                    logical as int,
                );
            }
        },
        ReadAccess::Ref => {
            let r: ReadRef = state.read_ref(logical, bases.wal, bases.store);
            if r.dirty {
                stats.dirty_hits = stats.dirty_hits.saturating_add(1);
            } else {
                stats.dirty_misses = stats.dirty_misses.saturating_add(1);
            }
            stats.checksum = stats.checksum.wrapping_add(r.token);
            stats.read_ref_bytes = stats.read_ref_bytes.saturating_add(c.record_bytes as u64);
        },
    }
    stats.reads = stats.reads.saturating_add(1);
}

proof fn lemma_content_len(v: LaneView, block_records: nat, record_bytes: nat, logical: int)
    requires
        crate::wal::lane::lane_wf(v, block_records, record_bytes),
        0 <= logical < block_records,
    ensures
        crate::wal::lane::content(v, record_bytes, logical).len() == record_bytes,
{
    if v.wal is Some {
        let w = v.wal->0;
        let at = w.dirty[logical];
        if at != usize::MAX {
            assert(w.wal[at as int].len() == w.record_bytes);
        }
    }
}

/// The logical records of an extent that begins with an operation.
pub open spec fn extent_logicals(c: Config, lane: usize, op: int, n: nat) -> Seq<usize> {
    Seq::new(n, |i: int| logical_of(c, lane, (op + i) as usize))
}

fn plan_extent(c: &Config, lane: usize, op: usize, n: usize) -> (v: Vec<usize>)
    requires
        c.block_records_per_lane > 0,
        op + n <= usize::MAX,
    ensures
        v@ == extent_logicals(*c, lane, op as int, n as nat),
        forall|i: int| 0 <= i < v@.len() ==> (#[trigger] v@[i]) < c.block_records_per_lane,
{
    let mut v: Vec<usize> = Vec::new();
    let mut i: usize = 0;
    while i < n
        invariant
            i <= n,
            op + n <= usize::MAX,
            c.block_records_per_lane > 0,
            v@ == extent_logicals(*c, lane, op as int, i as nat),
            forall|k: int| 0 <= k < v@.len() ==> (#[trigger] v@[k]) < c.block_records_per_lane,
        decreases n - i,
    {
        v.push(logical_record(c, lane, op + i));
        proof {
            assert(v@ =~= extent_logicals(*c, lane, op as int, (i + 1) as nat));
        }
        i = i + 1;
    }
    v
}

/// How many records the extent that begins with an operation has.
pub open spec fn extent_size(c: Config, op: int) -> nat {
    if c.extent_records <= c.records_per_lane - op {
        c.extent_records as nat
    } else {
        (c.records_per_lane - op) as nat
    }
}

/// What a run leaves behind and counts, and why it ended early, if it did.
pub struct Ran {
    pub lane: LaneView,
    pub stats: WorkerStats,
    pub fault: Option<Fault>,
}

/// A run that has come to its end.
pub open spec fn finished(lane: LaneView, stats: WorkerStats) -> Ran {
    Ran { lane, stats, fault: None }
}

/// A run that ends early.
pub open spec fn failed(lane: LaneView, stats: WorkerStats, fault: Fault) -> Ran {
    Ran { lane, stats, fault: Some(fault) }
}

/// Whether a run has ended as it should have.
pub open spec fn ended_as(
    r: Result<(), Error>,
    lane: LaneView,
    stats: WorkerStats,
    ran: Ran,
) -> bool {
    &&& lane == ran.lane
    &&& stats == ran.stats
    &&& match r {
        Ok(_) => ran.fault is None,
        Err(e) => ran.fault == Some(e@),
    }
}

/// A run that writes extents in one piece, from an operation on; `reduce` says that each is reduced
/// at once.
pub open spec fn bulk_from(
    v: LaneView,
    s: WorkerStats,
    c: Config,
    lane: usize,
    source: Seq<u8>,
    reduce: bool,
    op: int,
) -> Ran
    decreases c.records_per_lane - op,
{
    if op >= c.records_per_lane || c.extent_records == 0 {
        finished(v, s)
    } else {
        let n = extent_size(c, op);
        match extent_result(v, extent_logicals(c, lane, op, n), source) {
            Err(e) => failed(v, s, e),
            Ok(v2) => {
                let s2 = wrote(operated(s, n as int), n as int, n * c.record_bytes);
                if !reduce {
                    bulk_from(v2, s2, c, lane, source, reduce, op + n)
                } else {
                    match reduce_result(v2, op, n) {
                        Err(e) => failed(v2, s2, e),
                        Ok((v3, bytes)) => bulk_from(
                            v3,
                            reduced_bytes(s2, bytes),
                            c,
                            lane,
                            source,
                            reduce,
                            op + n,
                        ),
                    }
                }
            },
        }
    }
}

/// A run that writes record by record, from an operation on.
pub open spec fn singles_from(
    v: LaneView,
    s: WorkerStats,
    c: Config,
    lane: usize,
    source: Seq<u8>,
    op: int,
) -> Ran
    decreases c.records_per_lane - op,
{
    if op >= c.records_per_lane {
        finished(v, s)
    } else {
        match write_result(v, logical_of(c, lane, op as usize), source) {
            Err(e) => failed(v, s, e),
            Ok(v2) => singles_from(
                v2,
                wrote(operated(s, 1), 1, c.record_bytes as int),
                c,
                lane,
                source,
                op + 1,
            ),
        }
    }
}

/// Whether a lane is set up for a run.
pub open spec fn ready(state: LaneState, c: Config) -> bool {
    &&& c.block_records_per_lane > 0
    &&& c.extent_records > 0
    &&& state.wf(c.block_records_per_lane as nat, c.record_bytes as nat)
}

fn run_bulk(
    lane: usize,
    state: &mut LaneState,
    source_extent: &Vec<u8>,
    c: &Config,
    stats: &mut WorkerStats,
    reduce: bool,
) -> (r: Result<(), Error>)
    requires
        ready(*old(state), *c),
    ensures
        ready(*final(state), *c),
        ended_as(
            r,
            final(state)@,
            *final(stats),
            bulk_from(
                old(state)@,
                *old(stats),
                *c,
                lane,
                source_extent@,
                reduce,
                0,
            ),
        ),
{
    let ghost goal = bulk_from(state@, *stats, *c, lane, source_extent@, reduce, 0);
    let mut op: usize = 0;
    while op < c.records_per_lane
        invariant
            op <= c.records_per_lane,
            ready(*state, *c),
            goal == bulk_from(
                old(state)@,
                *old(stats),
                *c,
                lane,
                source_extent@,
                reduce,
                0,
            ),
            goal == bulk_from(state@, *stats, *c, lane, source_extent@, reduce, op as int),
            state@.wal matches Some(w) ==> w.next >= op,
        decreases c.records_per_lane - op,
    {
        let left: usize = c.records_per_lane - op;
        let n: usize = if c.extent_records <= left {
            c.extent_records
        } else {
            left
        };
        let logicals: Vec<usize> = plan_extent(c, lane, op, n);
        let ghost v = state@;
        match state.append_write_extent(source_extent.as_slice(), &logicals) {
            Ok(_) => {},
            Err(e) => {
                return Err(e);
            },
        }
        proof {
            let w = v.wal->0;
            crate::wal::combiner::lemma_all_written_shape(
                w,
                logicals@,
                crate::wal::arena::records_in(source_extent@, w.record_bytes, logicals@.len()),
            );
            assert(n * c.record_bytes <= source_extent@.len());
        }
        let total: usize = source_extent.len();
        let bytes: u64 = (n * c.record_bytes) as u64;
        stats.ops = stats.ops.saturating_add(n as u64);
        stats.writes = stats.writes.saturating_add(n as u64);
        stats.wal_bytes = stats.wal_bytes.saturating_add(bytes);
        if reduce {
            proof {
                assert(state.wf(c.block_records_per_lane as nat, c.record_bytes as nat));
            }
            match state.reduce_latest_completed_extent(op, n) {
                Ok(moved) => {
                    stats.reduce_bytes = stats.reduce_bytes.saturating_add(moved);
                },
                Err(e) => {
                    return Err(e);
                },
            }
        }
        op = op + n;
    }
    Ok(())
}

/// What a run that only writes leaves behind and counts.
pub open spec fn combined(
    v: LaneView,
    s: WorkerStats,
    c: Config,
    lane: usize,
    source: Seq<u8>,
    source_extent: Seq<u8>,
) -> Ran {
    if c.bulk_extents {
        bulk_from(v, s, c, lane, source_extent, false, 0)
    } else {
        singles_from(v, s, c, lane, source, 0)
    }
}

/// Runs a lane that only writes.
pub fn run_lane_combine(
    lane: usize,
    state: &mut LaneState,
    source: &Vec<u8>,
    source_extent: &Vec<u8>,
    c: &Config,
    stats: &mut WorkerStats,
) -> (r: Result<(), Error>)
    requires
        ready(*old(state), *c),
        source@.len() >= c.record_bytes,
    ensures
        ready(*final(state), *c),
        ended_as(
            r,
            final(state)@,
            *final(stats),
            combined(
                old(state)@,
                *old(stats),
                *c,
                lane,
                source@,
                source_extent@,
            ),
        ),
{
    if c.bulk_extents {
        return run_bulk(lane, state, source_extent, c, stats, false);
    }
    let ghost goal = singles_from(state@, *stats, *c, lane, source@, 0);
    let mut op: usize = 0;
    while op < c.records_per_lane
        invariant
            op <= c.records_per_lane,
            !c.bulk_extents,
            ready(*state, *c),
            source@.len() >= c.record_bytes,
            goal == singles_from(old(state)@, *old(stats), *c, lane, source@, 0),
            goal == singles_from(state@, *stats, *c, lane, source@, op as int),
        decreases c.records_per_lane - op,
    {
        let logical: usize = logical_record(c, lane, op);
        match state.append_write(logical, source.as_slice()) {
            Ok(_) => {},
            Err(e) => {
                return Err(e);
            },
        }
        stats.ops = stats.ops.saturating_add(1);
        stats.writes = stats.writes.saturating_add(1);
        stats.wal_bytes = stats.wal_bytes.saturating_add(c.record_bytes as u64);
        op = op + 1;
    }
    Ok(())
}

/// A run that writes record by record and reduces every full extent, from an operation on; `start`
/// and `n` give the records that have not been reduced.
pub open spec fn reduce_from(
    v: LaneView,
    s: WorkerStats,
    c: Config,
    lane: usize,
    source: Seq<u8>,
    op: int,
    start: int,
    n: nat,
) -> Ran
    decreases c.records_per_lane - op,
{
    if op >= c.records_per_lane {
        if n == 0 {
            finished(v, s)
        } else {
            match reduce_result(flushed(v), start, n) {
                Err(e) => failed(flushed(v), s, e),
                Ok((v2, bytes)) => finished(v2, reduced_bytes(s, bytes)),
            }
        }
    } else {
        match write_result(v, logical_of(c, lane, op as usize), source) {
            Err(e) => failed(v, s, e),
            Ok(v2) => {
                let s2 = wrote(operated(s, 1), 1, c.record_bytes as int);
                if n + 1 == c.extent_records {
                    match reduce_result(v2, start, n + 1) {
                        Err(e) => failed(v2, s2, e),
                        Ok((v3, bytes)) => reduce_from(
                            v3,
                            reduced_bytes(s2, bytes),
                            c,
                            lane,
                            source,
                            op + 1,
                            start + n + 1,
                            0,
                        ),
                    }
                } else {
                    reduce_from(v2, s2, c, lane, source, op + 1, start, n + 1)
                }
            },
        }
    }
}

/// What a run that reduces what it writes leaves behind and counts.
pub open spec fn reduced_run(
    v: LaneView,
    s: WorkerStats,
    c: Config,
    lane: usize,
    source: Seq<u8>,
    source_extent: Seq<u8>,
) -> Ran {
    if c.bulk_extents {
        bulk_from(v, s, c, lane, source_extent, true, 0)
    } else {
        reduce_from(v, s, c, lane, source, 0, 0, 0)
    }
}

/// Runs a lane that reduces what it writes.
pub fn run_lane_reduce(
    lane: usize,
    state: &mut LaneState,
    source: &Vec<u8>,
    source_extent: &Vec<u8>,
    c: &Config,
    stats: &mut WorkerStats,
) -> (r: Result<(), Error>)
    requires
        ready(*old(state), *c),
        source@.len() >= c.record_bytes,
    ensures
        ready(*final(state), *c),
        ended_as(
            r,
            final(state)@,
            *final(stats),
            reduced_run(
                old(state)@,
                *old(stats),
                *c,
                lane,
                source@,
                source_extent@,
            ),
        ),
{
    if c.bulk_extents {
        return run_bulk(lane, state, source_extent, c, stats, true);
    }
    let ghost goal = reduce_from(state@, *stats, *c, lane, source@, 0, 0, 0);
    let mut op: usize = 0;
    let mut start: usize = 0;
    let mut n: usize = 0;
    while op < c.records_per_lane
        invariant
            op <= c.records_per_lane,
            start + n == op,
            !c.bulk_extents,
            ready(*state, *c),
            source@.len() >= c.record_bytes,
            state@.wal matches Some(w) ==> w.next >= op,
            goal == reduce_from(old(state)@, *old(stats), *c, lane, source@, 0, 0, 0),
            goal == reduce_from(
                state@,
                *stats,
                *c,
                lane,
                source@,
                op as int,
                start as int,
                n as nat,
            ),
        decreases c.records_per_lane - op,
    {
        let logical: usize = logical_record(c, lane, op);
        match state.append_write(logical, source.as_slice()) {
            Ok(_) => {},
            Err(e) => {
                return Err(e);
            },
        }
        n = n + 1;
        stats.ops = stats.ops.saturating_add(1);
        stats.writes = stats.writes.saturating_add(1);
        stats.wal_bytes = stats.wal_bytes.saturating_add(c.record_bytes as u64);
        if n == c.extent_records {
            proof {
                assert(state.wf(c.block_records_per_lane as nat, c.record_bytes as nat));
            }
            match state.reduce_latest_completed_extent(start, n) {
                Ok(moved) => {
                    stats.reduce_bytes = stats.reduce_bytes.saturating_add(moved);
                },
                Err(e) => {
                    return Err(e);
                },
            }
            start = start + n;
            n = 0;
        }
        op = op + 1;
    }
    if n != 0 {
        state.flush_wal();
        proof {
            assert(state.wf(c.block_records_per_lane as nat, c.record_bytes as nat));
        }
        match state.reduce_latest_completed_extent(start, n) {
            Ok(moved) => {
                stats.reduce_bytes = stats.reduce_bytes.saturating_add(moved);
            },
            Err(e) => {
                return Err(e);
            },
        }
    }
    Ok(())
}

/// What the buffer of a worker holds after a run of reads: what the last of them has left there.
pub open spec fn read_sink(sink: Seq<u8>, v: LaneView, c: Config, lane: usize, ops: nat) -> Seq<u8> {
    if ops == 0 {
        sink
    } else {
        sunk(sink, v, c, logical_of(c, lane, (ops - 1) as usize) as int)
    }
}

/// The counts after the first reads of a lane that only reads.
pub open spec fn read_run(
    v: LaneView,
    s: WorkerStats,
    c: Config,
    lane: usize,
    bases: Bases,
    ops: nat,
) -> WorkerStats
    decreases ops,
{
    if ops == 0 {
        s
    } else {
        let before = read_run(v, s, c, lane, bases, (ops - 1) as nat);
        operated(
            read_counted(
                before,
                v,
                c,
                logical_of(c, lane, (ops - 1) as usize) as int,
                bases,
            ),
            1,
        )
    }
}

/// Runs a lane that only reads.
pub fn run_lane_read(
    lane: usize,
    state: &LaneState,
    c: &Config,
    bases: Bases,
    sink: &mut Vec<u8>,
    stats: &mut WorkerStats,
)
    requires
        ready(*state, *c),
        old(sink)@.len() == c.record_bytes,
    ensures
        final(sink)@.len() == c.record_bytes,
        final(sink)@ == read_sink(old(sink)@, state@, *c, lane, c.records_per_lane as nat),
        *final(stats) == read_run(
            state@,
            *old(stats),
            *c,
            lane,
            bases,
            c.records_per_lane as nat,
        ),
{
    let mut op: usize = 0;
    while op < c.records_per_lane
        invariant
            op <= c.records_per_lane,
            ready(*state, *c),
            sink@.len() == c.record_bytes,
            sink@ == read_sink(old(sink)@, state@, *c, lane, op as nat),
            *stats == read_run(state@, *old(stats), *c, lane, bases, op as nat),
        decreases c.records_per_lane - op,
    {
        let logical: usize = logical_record(c, lane, op);
        record_read(state, logical, c, bases, sink, stats);
        stats.ops = stats.ops.saturating_add(1);
        op = op + 1;
    }
}

/// A run that reads and writes, from an operation on; `start` and `n` give the records that have not
/// been reduced, `closed` how many extents were closed since the last reduction, and `sink` what the
/// buffer for reads holds.
pub open spec fn mixed_from(
    v: LaneView,
    s: WorkerStats,
    c: Config,
    lane: usize,
    source: Seq<u8>,
    bases: Bases,
    op: int,
    start: int,
    n: nat,
    closed: nat,
    sink: Seq<u8>,
) -> (Ran, Seq<u8>)
    decreases c.records_per_lane - op,
{
    let logical = logical_of(c, lane, op as usize);
    if op >= c.records_per_lane {
        if c.reduce_every_extents == 0 || n == 0 {
            (finished(v, s), sink)
        } else {
            match reduce_result(flushed(v), start, n) {
                Err(e) => (failed(flushed(v), s, e), sink),
                Ok((v2, bytes)) => (finished(v2, reduced_bytes(s, bytes)), sink),
            }
        }
    } else if reads_at(lane, op as usize, c.read_pct) {
        mixed_from(
            v,
            operated(read_counted(s, v, c, logical as int, bases), 1),
            c,
            lane,
            source,
            bases,
            op + 1,
            start,
            n,
            closed,
            sunk(sink, v, c, logical as int),
        )
    } else {
        match write_result(v, logical, source) {
            Err(e) => (failed(v, s, e), sink),
            Ok(v2) => {
                let s2 = wrote(s, 1, c.record_bytes as int);
                let full = v.wal->0.pending + 1 >= v.wal->0.extent_records;
                if full && c.reduce_every_extents != 0 && closed + 1 >= c.reduce_every_extents {
                    match reduce_result(v2, start, n + 1) {
                        Err(e) => (failed(v2, s2, e), sink),
                        Ok((v3, bytes)) => mixed_from(
                            v3,
                            operated(reduced_bytes(s2, bytes), 1),
                            c,
                            lane,
                            source,
                            bases,
                            op + 1,
                            start + n + 1,
                            0,
                            0,
                            sink,
                        ),
                    }
                } else {
                    mixed_from(
                        v2,
                        operated(s2, 1),
                        c,
                        lane,
                        source,
                        bases,
                        op + 1,
                        start,
                        n + 1,
                        if full {
                            closed + 1
                        } else {
                            closed
                        },
                        sink,
                    )
                }
            },
        }
    }
}

/// Runs a lane that reads and writes.
pub fn run_lane_mixed(
    lane: usize,
    state: &mut LaneState,
    source: &Vec<u8>,
    c: &Config,
    bases: Bases,
    sink: &mut Vec<u8>,
    stats: &mut WorkerStats,
) -> (r: Result<(), Error>)
    requires
        ready(*old(state), *c),
        source@.len() >= c.record_bytes,
        old(sink)@.len() == c.record_bytes,
    ensures
        final(sink)@.len() == c.record_bytes,
        ready(*final(state), *c),
        ({
            let (ran, left) = mixed_from(
                old(state)@,
                *old(stats),
                *c,
                lane,
                source@,
                bases,
                0,
                0,
                0,
                0,
                old(sink)@,
            );
            final(sink)@ == left && ended_as(r, final(state)@, *final(stats), ran)
        }),
{
    let ghost goal = mixed_from(state@, *stats, *c, lane, source@, bases, 0, 0, 0, 0, sink@);
    let mut op: usize = 0;
    let mut start: usize = 0;
    let mut n: usize = 0;
    let mut closed: usize = 0;
    while op < c.records_per_lane
        invariant
            op <= c.records_per_lane,
            start + n <= op,
            closed <= n,
            ready(*state, *c),
            source@.len() >= c.record_bytes,
            sink@.len() == c.record_bytes,
            state@.wal matches Some(w) ==> w.next >= start + n,
            goal == mixed_from(
                old(state)@,
                *old(stats),
                *c,
                lane,
                source@,
                bases,
                0,
                0,
                0,
                0,
                old(sink)@,
            ),
            goal == mixed_from(
                state@,
                *stats,
                *c,
                lane,
                source@,
                bases,
                op as int,
                start as int,
                n as nat,
                closed as nat,
                sink@,
            ),
        decreases c.records_per_lane - op,
    {
        let logical: usize = logical_record(c, lane, op);
        if mixed_is_read(lane, op, c.read_pct) {
            record_read(state, logical, c, bases, sink, stats);
        } else {
            let full: bool = match state.append_write(logical, source.as_slice()) {
                Ok(full) => full,
                Err(e) => {
                    return Err(e);
                },
            };
            n = n + 1;
            stats.writes = stats.writes.saturating_add(1);
            stats.wal_bytes = stats.wal_bytes.saturating_add(c.record_bytes as u64);
            if full {
                closed = closed + 1;
                if c.reduce_every_extents != 0 && closed >= c.reduce_every_extents {
                    proof {
                        assert(state.wf(c.block_records_per_lane as nat, c.record_bytes as nat));
                    }
                    match state.reduce_latest_completed_extent(start, n) {
                        Ok(moved) => {
                            stats.reduce_bytes = stats.reduce_bytes.saturating_add(moved);
                        },
                        Err(e) => {
                            return Err(e);
                        },
                    }
                    start = start + n;
                    n = 0;
                    closed = 0;
                }
            }
        }
        stats.ops = stats.ops.saturating_add(1);
        op = op + 1;
    }
    if c.reduce_every_extents != 0 && n != 0 {
        state.flush_wal();
        proof {
            assert(state.wf(c.block_records_per_lane as nat, c.record_bytes as nat));
        }
        match state.reduce_latest_completed_extent(start, n) {
            Ok(moved) => {
                stats.reduce_bytes = stats.reduce_bytes.saturating_add(moved);
            },
            Err(e) => {
                return Err(e);
            },
        }
    }
    Ok(())
}

/// What the turn of one lane leaves behind and counts, and what it leaves in the buffer for reads.
pub open spec fn lane_turn(
    v: LaneView,
    s: WorkerStats,
    c: Config,
    lane: usize,
    source: Seq<u8>,
    source_extent: Seq<u8>,
    bases: Bases,
    sink: Seq<u8>,
) -> (Ran, Seq<u8>) {
    let (run, left) = match c.mode {
        Mode::Combine => (combined(v, s, c, lane, source, source_extent), sink),
        Mode::Reduce => (reduced_run(v, s, c, lane, source, source_extent), sink),
        Mode::Read => (
            finished(v, read_run(v, s, c, lane, bases, c.records_per_lane as nat)),
            read_sink(sink, v, c, lane, c.records_per_lane as nat),
        ),
        Mode::Mixed => mixed_from(v, s, c, lane, source, bases, 0, 0, 0, 0, sink),
    };
    if run.fault is Some {
        (run, left)
    } else {
        let f = flushed(run.lane);
        (finished(f, with_totals(run.stats, f)), left)
    }
}

/// The counts of a worker with those of a lane that it has finished.
pub open spec fn with_totals(s: WorkerStats, v: LaneView) -> WorkerStats {
    let (extents, longest) = match v.wal {
        Some(w) => (w.extents, w.max_extent),
        None => (0, 0),
    };
    WorkerStats {
        wal_extents: plus(s.wal_extents, extents as int),
        reduced_extents: plus(s.reduced_extents, v.reduced as int),
        contiguous_reduce_extents: plus(s.contiguous_reduce_extents, v.contiguous as int),
        scattered_reduce_records: plus(s.scattered_reduce_records, v.scattered as int),
        max_extent_records: if longest > s.max_extent_records {
            longest as usize
        } else {
            s.max_extent_records
        },
        ..s
    }
}

/// Runs one lane of a worker, and adds its counts to the worker's.
pub fn run_worker(
    lane: usize,
    state: &mut LaneState,
    source: &Vec<u8>,
    source_extent: &Vec<u8>,
    c: &Config,
    bases: Bases,
    sink: &mut Vec<u8>,
    stats: &mut WorkerStats,
) -> (r: Result<(), Error>)
    requires
        ready(*old(state), *c),
        source@.len() >= c.record_bytes,
        old(sink)@.len() == c.record_bytes,
    ensures
        final(sink)@.len() == c.record_bytes,
        ready(*final(state), *c),
        ({
            let (ran, left) = lane_turn(
                old(state)@,
                *old(stats),
                *c,
                lane,
                source@,
                source_extent@,
                bases,
                old(sink)@,
            );
            final(sink)@ == left && ended_as(r, final(state)@, *final(stats), ran)
        }),
{
    let run: Result<(), Error> = match c.mode {
        Mode::Combine => run_lane_combine(lane, state, source, source_extent, c, stats),
        Mode::Reduce => run_lane_reduce(lane, state, source, source_extent, c, stats),
        Mode::Read => {
            run_lane_read(lane, state, c, bases, sink, stats);
            Ok(())
        },
        Mode::Mixed => run_lane_mixed(lane, state, source, c, bases, sink, stats),
    };
    match run {
        Ok(_) => {},
        Err(e) => {
            return Err(e);
        },
    }
    state.flush_wal();
    stats.wal_extents = stats.wal_extents.saturating_add(state.wal_extents());
    stats.reduced_extents = stats.reduced_extents.saturating_add(state.reduced_extents);
    stats.contiguous_reduce_extents = stats.contiguous_reduce_extents.saturating_add(
        state.contiguous_reduce_extents,
    );
    stats.scattered_reduce_records = stats.scattered_reduce_records.saturating_add(
        state.scattered_reduce_records,
    );
    let longest: usize = state.max_extent_records();
    if longest > stats.max_extent_records {
        stats.max_extent_records = longest;
    }
    Ok(())
}

/// The counts of two workers together.
pub fn merge(total: WorkerStats, s: WorkerStats) -> (sum: WorkerStats)
    ensures
        sum == (WorkerStats {
            ops: plus(total.ops, s.ops as int),
            writes: plus(total.writes, s.writes as int),
            reads: plus(total.reads, s.reads as int),
            dirty_hits: plus(total.dirty_hits, s.dirty_hits as int),
            dirty_misses: plus(total.dirty_misses, s.dirty_misses as int),
            wal_bytes: plus(total.wal_bytes, s.wal_bytes as int),
            reduce_bytes: plus(total.reduce_bytes, s.reduce_bytes as int),
            read_bytes: plus(total.read_bytes, s.read_bytes as int),
            read_ref_bytes: plus(total.read_ref_bytes, s.read_ref_bytes as int),
            wal_extents: plus(total.wal_extents, s.wal_extents as int),
            reduced_extents: plus(total.reduced_extents, s.reduced_extents as int),
            contiguous_reduce_extents: plus(
                total.contiguous_reduce_extents,
                s.contiguous_reduce_extents as int,
            ),
            scattered_reduce_records: plus(
                total.scattered_reduce_records,
                s.scattered_reduce_records as int,
            ),
            max_extent_records: if s.max_extent_records > total.max_extent_records {
                s.max_extent_records
            } else {
                total.max_extent_records
            },
            checksum: crate::random::word_add(total.checksum, s.checksum),
        }),
{
    WorkerStats {
        ops: total.ops.saturating_add(s.ops),
        writes: total.writes.saturating_add(s.writes),
        reads: total.reads.saturating_add(s.reads),
        dirty_hits: total.dirty_hits.saturating_add(s.dirty_hits),
        dirty_misses: total.dirty_misses.saturating_add(s.dirty_misses),
        wal_bytes: total.wal_bytes.saturating_add(s.wal_bytes),
        reduce_bytes: total.reduce_bytes.saturating_add(s.reduce_bytes),
        read_bytes: total.read_bytes.saturating_add(s.read_bytes),
        read_ref_bytes: total.read_ref_bytes.saturating_add(s.read_ref_bytes),
        wal_extents: total.wal_extents.saturating_add(s.wal_extents),
        reduced_extents: total.reduced_extents.saturating_add(s.reduced_extents),
        contiguous_reduce_extents: total.contiguous_reduce_extents.saturating_add(
            s.contiguous_reduce_extents,
        ),
        scattered_reduce_records: total.scattered_reduce_records.saturating_add(
            s.scattered_reduce_records,
        ),
        max_extent_records: if s.max_extent_records > total.max_extent_records {
            s.max_extent_records
        } else {
            total.max_extent_records
        },
        checksum: total.checksum.wrapping_add(s.checksum),
    }
}

/// Every record of an extent that a worker makes is the worker's record.
pub proof fn law_extent_repeats_the_record(worker: usize, record_bytes: nat, n: nat, i: int)
    requires
        0 <= i < n,
    ensures
        crate::wal::arena::record_at(
            repeated(pattern_bytes(worker, record_bytes), n),
            record_bytes,
            i,
        ) == pattern_bytes(worker, record_bytes),
        repeated(pattern_bytes(worker, record_bytes), n).len() == n * record_bytes,
{
    lemma_repeated(pattern_bytes(worker, record_bytes), n);
}

proof fn lemma_write_keeps_lane(
    v: LaneView,
    block_records: nat,
    record_bytes: nat,
    logical: usize,
    data: Seq<u8>,
)
    requires
        crate::wal::lane::lane_wf(v, block_records, record_bytes),
        v.wal is Some,
        v.wal->0.next < v.wal->0.wal.len(),
        logical < block_records,
        data.len() == record_bytes,
    ensures
        crate::wal::lane::lane_wf(
            crate::wal::lane::with_write(v, logical, data),
            block_records,
            record_bytes,
        ),
{
    crate::wal::combiner::lemma_written_wf(v.wal->0, logical, data);
}

/// A run that writes record after record leaves the source in every logical record that it wrote, and
/// changes no other.
pub proof fn law_single_writes_reach_their_records(
    v: LaneView,
    s: WorkerStats,
    c: Config,
    lane: usize,
    source: Seq<u8>,
    op: int,
    logical: int,
)
    requires
        c.block_records_per_lane > 0,
        crate::wal::lane::lane_wf(v, c.block_records_per_lane as nat, c.record_bytes as nat),
        source.len() >= c.record_bytes,
        0 <= op,
        0 <= logical < c.block_records_per_lane,
        singles_from(v, s, c, lane, source, op).fault is None,
    ensures
        ({
            let after = singles_from(v, s, c, lane, source, op).lane;
            let rb = c.record_bytes as nat;
            &&& (exists|k: usize|
                op <= k < c.records_per_lane && #[trigger] logical_of(c, lane, k) == logical)
                ==> crate::wal::lane::content(after, rb, logical) == source.subrange(0, rb as int)
            &&& (forall|k: usize|
                op <= k < c.records_per_lane ==> #[trigger] logical_of(c, lane, k) != logical)
                ==> crate::wal::lane::content(after, rb, logical) == crate::wal::lane::content(
                v,
                rb,
                logical,
            )
        }),
    decreases c.records_per_lane - op,
{
    if op < c.records_per_lane {
        let rb = c.record_bytes as nat;
        let l = logical_of(c, lane, op as usize);
        let data = source.subrange(0, rb as int);
        let next = crate::wal::lane::with_write(v, l, data);
        lemma_write_keeps_lane(v, c.block_records_per_lane as nat, rb, l, data);
        crate::wal::lane::law_reads_return_the_latest_write(
            v,
            c.block_records_per_lane as nat,
            rb,
            l,
            data,
            logical,
        );
        law_single_writes_reach_their_records(
            next,
            wrote(operated(s, 1), 1, c.record_bytes as int),
            c,
            lane,
            source,
            op + 1,
            logical,
        );
        if exists|k: usize|
            op <= k < c.records_per_lane && #[trigger] logical_of(c, lane, k) == logical {
            let k = choose|k: usize|
                op <= k < c.records_per_lane && #[trigger] logical_of(c, lane, k) == logical;
            if k > op {
                assert(logical_of(c, lane, k) == logical);
            }
        }
    }
}

/// A run that writes record after record counts every record once as an operation and as a write, with its
/// bytes.
pub proof fn law_single_writes_are_counted(
    v: LaneView,
    s: WorkerStats,
    c: Config,
    lane: usize,
    source: Seq<u8>,
    op: int,
)
    requires
        0 <= op <= c.records_per_lane,
        singles_from(v, s, c, lane, source, op).fault is None,
        s.ops + (c.records_per_lane - op) <= u64::MAX,
        s.writes + (c.records_per_lane - op) <= u64::MAX,
        s.wal_bytes + (c.records_per_lane - op) * c.record_bytes <= u64::MAX,
    ensures
        ({
            let t = singles_from(v, s, c, lane, source, op).stats;
            &&& t.ops == s.ops + (c.records_per_lane - op)
            &&& t.writes == s.writes + (c.records_per_lane - op)
            &&& t.wal_bytes == s.wal_bytes + (c.records_per_lane - op) * c.record_bytes
            &&& t.reads == s.reads
            &&& t.reduce_bytes == s.reduce_bytes
        }),
    decreases c.records_per_lane - op,
{
    let left = c.records_per_lane - op;
    let rb = c.record_bytes as int;
    if op < c.records_per_lane {
        assert(left * rb == (left - 1) * rb + rb) by (nonlinear_arith);
        assert((left - 1) * rb >= 0) by (nonlinear_arith)
            requires
                left >= 1,
                rb >= 0,
        ;
        let data = source.subrange(0, v.wal->0.record_bytes as int);
        law_single_writes_are_counted(
            crate::wal::lane::with_write(v, logical_of(c, lane, op as usize), data),
            wrote(operated(s, 1), 1, rb),
            c,
            lane,
            source,
            op + 1,
        );
    } else {
        assert(left * rb == 0) by (nonlinear_arith)
            requires
                left == 0,
        ;
    }
}

/// A run of reads counts every read once, as a hit or as a miss, and its bytes as copied or as referred to;
/// it writes nothing.
pub proof fn law_reads_are_counted(
    v: LaneView,
    s: WorkerStats,
    c: Config,
    lane: usize,
    bases: Bases,
    ops: nat,
)
    requires
        s.ops + ops <= u64::MAX,
        s.reads + ops <= u64::MAX,
        s.dirty_hits + ops <= u64::MAX,
        s.dirty_misses + ops <= u64::MAX,
        s.read_bytes + ops * c.record_bytes <= u64::MAX,
        s.read_ref_bytes + ops * c.record_bytes <= u64::MAX,
    ensures
        ({
            let t = read_run(v, s, c, lane, bases, ops);
            &&& t.ops == s.ops + ops
            &&& t.reads == s.reads + ops
            &&& (t.dirty_hits - s.dirty_hits) + (t.dirty_misses - s.dirty_misses) == ops
            &&& t.dirty_hits >= s.dirty_hits && t.dirty_misses >= s.dirty_misses
            &&& c.read_access is Copy ==> t.read_bytes == s.read_bytes + ops * c.record_bytes
                && t.read_ref_bytes == s.read_ref_bytes
            &&& c.read_access is Ref ==> t.read_ref_bytes == s.read_ref_bytes + ops * c.record_bytes
                && t.read_bytes == s.read_bytes
            &&& t.writes == s.writes && t.wal_bytes == s.wal_bytes && t.reduce_bytes
                == s.reduce_bytes
        }),
    decreases ops,
{
    let rb = c.record_bytes as int;
    if ops > 0 {
        assert(ops * rb == (ops - 1) * rb + rb) by (nonlinear_arith);
        assert((ops - 1) * rb >= 0) by (nonlinear_arith)
            requires
                ops >= 1,
                rb >= 0,
        ;
        law_reads_are_counted(v, s, c, lane, bases, (ops - 1) as nat);
    } else {
        assert(ops * rb == 0) by (nonlinear_arith)
            requires
                ops == 0,
        ;
    }
}

/// A read finds a record dirty exactly where the log has a newer version of it than the block store.
pub proof fn law_a_read_is_a_hit_or_a_miss(
    s: WorkerStats,
    v: LaneView,
    c: Config,
    logical: int,
    bases: Bases,
)
    requires
        s.dirty_hits < u64::MAX,
        s.dirty_misses < u64::MAX,
    ensures
        ({
            let t = read_counted(s, v, c, logical, bases);
            if crate::wal::lane::is_dirty(v, logical) {
                t.dirty_hits == s.dirty_hits + 1 && t.dirty_misses == s.dirty_misses
            } else {
                t.dirty_hits == s.dirty_hits && t.dirty_misses == s.dirty_misses + 1
            }
        }),
{
}

/// A run that reduces what it writes leaves the source in every logical record that it wrote, changes no
/// other, and leaves nothing in the log that the block store does not have: every record is read from the
/// block store afterwards.
#[verifier::spinoff_prover]
#[verifier::rlimit(60)]
pub proof fn law_reducing_runs_empty_the_log(
    v: LaneView,
    s: WorkerStats,
    c: Config,
    lane: usize,
    source: Seq<u8>,
    op: int,
    start: int,
    n: nat,
    logical: int,
)
    requires
        c.block_records_per_lane > 0,
        crate::wal::lane::lane_wf(v, c.block_records_per_lane as nat, c.record_bytes as nat),
        v.wal is Some,
        v.store is Some,
        v.wal->0.next == start + n,
        0 <= start,
        n < c.extent_records,
        crate::wal::lane::unreduced(v.wal->0, start),
        forall|l: int|
            0 <= l < v.wal->0.dirty.len() ==> #[trigger] v.wal->0.dirty[l] == usize::MAX
                || v.wal->0.dirty[l] >= start,
        source.len() >= c.record_bytes,
        0 <= op,
        0 <= logical < c.block_records_per_lane,
        reduce_from(v, s, c, lane, source, op, start, n).fault is None,
    ensures
        ({
            let after = reduce_from(v, s, c, lane, source, op, start, n).lane;
            let rb = c.record_bytes as nat;
            &&& !crate::wal::lane::is_dirty(after, logical)
            &&& (exists|k: usize|
                op <= k < c.records_per_lane && #[trigger] logical_of(c, lane, k) == logical)
                ==> crate::wal::lane::content(after, rb, logical) == source.subrange(0, rb as int)
            &&& (forall|k: usize|
                op <= k < c.records_per_lane ==> #[trigger] logical_of(c, lane, k) != logical)
                ==> crate::wal::lane::content(after, rb, logical) == crate::wal::lane::content(
                v,
                rb,
                logical,
            )
        }),
    decreases c.records_per_lane - op,
{
    let rb = c.record_bytes as nat;
    let blocks = c.block_records_per_lane as nat;
    if op >= c.records_per_lane {
        if n > 0 {
            let f = flushed(v);
            crate::wal::lane::law_reduction_keeps_every_record(f, blocks, rb, start, n, logical);
            crate::wal::lane::lemma_reduction_clears(f, blocks, rb, start, n, logical);
        } else {
            assert(v.wal->0.dirty[logical] == usize::MAX || v.wal->0.dirty[logical] >= start);
        }
    } else {
        let l = logical_of(c, lane, op as usize);
        let data = source.subrange(0, rb as int);
        let next = crate::wal::lane::with_write(v, l, data);
        lemma_write_keeps_lane(v, blocks, rb, l, data);
        crate::wal::lane::law_reads_return_the_latest_write(v, blocks, rb, l, data, logical);
        crate::wal::lane::law_writes_are_unreduced(v.wal->0, start, l, data);
        let s2 = wrote(operated(s, 1), 1, c.record_bytes as int);
        if exists|k: usize|
            op <= k < c.records_per_lane && #[trigger] logical_of(c, lane, k) == logical {
            let k = choose|k: usize|
                op <= k < c.records_per_lane && #[trigger] logical_of(c, lane, k) == logical;
            if k > op {
                assert(logical_of(c, lane, k) == logical);
            }
        }
        if n + 1 == c.extent_records {
            let moved = crate::wal::lane::reduced(next, start, n + 1);
            crate::wal::lane::lemma_reduced_wf(next, blocks, rb, start, n + 1);
            crate::wal::lane::law_reduction_keeps_every_record(
                next,
                blocks,
                rb,
                start,
                n + 1,
                logical,
            );
            assert forall|x: int| 0 <= x < moved.wal->0.dirty.len() implies #[trigger] moved.wal->0.dirty[x]
                == usize::MAX || moved.wal->0.dirty[x] >= start + n + 1 by {
                crate::wal::lane::lemma_reduction_clears(next, blocks, rb, start, n + 1, x);
            }
            law_reducing_runs_empty_the_log(
                moved,
                reduced_bytes(s2, ((n + 1) * next.wal->0.record_bytes) as u64),
                c,
                lane,
                source,
                op + 1,
                start + n + 1,
                0,
                logical,
            );
        } else {
            law_reducing_runs_empty_the_log(
                next,
                s2,
                c,
                lane,
                source,
                op + 1,
                start,
                n + 1,
                logical,
            );
        }
    }
}

/// The operations of an extent are those from its first one on, as many as an extent has or as are left.
pub proof fn law_an_extent_takes_the_next_operations(c: Config, lane: usize, op: int, i: int)
    requires
        0 <= op < c.records_per_lane,
        c.extent_records > 0,
        0 <= i < extent_size(c, op),
    ensures
        0 < extent_size(c, op) <= c.extent_records,
        op + extent_size(c, op) <= c.records_per_lane,
        extent_size(c, op) < c.extent_records ==> op + extent_size(c, op) == c.records_per_lane,
        extent_logicals(c, lane, op, extent_size(c, op)).len() == extent_size(c, op),
        extent_logicals(c, lane, op, extent_size(c, op))[i] == logical_of(
            c,
            lane,
            (op + i) as usize,
        ),
{
}

/// A run that writes extents counts every record once, as an operation and as a write, with its bytes.
pub proof fn law_extents_are_counted(
    v: LaneView,
    s: WorkerStats,
    c: Config,
    lane: usize,
    source: Seq<u8>,
    op: int,
)
    requires
        0 <= op <= c.records_per_lane,
        c.extent_records > 0,
        bulk_from(v, s, c, lane, source, false, op).fault is None,
        s.ops + (c.records_per_lane - op) <= u64::MAX,
        s.writes + (c.records_per_lane - op) <= u64::MAX,
        s.wal_bytes + (c.records_per_lane - op) * c.record_bytes <= u64::MAX,
    ensures
        ({
            let t = bulk_from(v, s, c, lane, source, false, op).stats;
            &&& t.ops == s.ops + (c.records_per_lane - op)
            &&& t.writes == s.writes + (c.records_per_lane - op)
            &&& t.wal_bytes == s.wal_bytes + (c.records_per_lane - op) * c.record_bytes
            &&& t.reads == s.reads
            &&& t.reduce_bytes == s.reduce_bytes
        }),
    decreases c.records_per_lane - op,
{
    let left = c.records_per_lane - op;
    let rb = c.record_bytes as int;
    if op < c.records_per_lane {
        let n = extent_size(c, op);
        assert(left * rb == (left - n) * rb + n * rb) by (nonlinear_arith);
        assert((left - n) * rb >= 0) by (nonlinear_arith)
            requires
                left >= n,
                rb >= 0,
        ;
        assert(n * rb >= 0) by (nonlinear_arith)
            requires
                n >= 0,
                rb >= 0,
        ;
        let next = extent_result(v, extent_logicals(c, lane, op, n), source)->Ok_0;
        law_extents_are_counted(
            next,
            wrote(operated(s, n as int), n as int, n * rb),
            c,
            lane,
            source,
            op + n,
        );
    } else {
        assert(left * rb == 0) by (nonlinear_arith)
            requires
                left == 0,
        ;
    }
}

/// A mixed run does each of its operations once, as a read or as a write.
pub proof fn law_mixed_operations_are_counted(
    v: LaneView,
    s: WorkerStats,
    c: Config,
    lane: usize,
    source: Seq<u8>,
    bases: Bases,
    op: int,
    start: int,
    n: nat,
    closed: nat,
    sink: Seq<u8>,
)
    requires
        0 <= op <= c.records_per_lane,
        mixed_from(v, s, c, lane, source, bases, op, start, n, closed, sink).0.fault is None,
        s.ops + (c.records_per_lane - op) <= u64::MAX,
        s.writes + (c.records_per_lane - op) <= u64::MAX,
        s.reads + (c.records_per_lane - op) <= u64::MAX,
    ensures
        ({
            let t = mixed_from(v, s, c, lane, source, bases, op, start, n, closed, sink).0.stats;
            &&& t.ops == s.ops + (c.records_per_lane - op)
            &&& (t.reads - s.reads) + (t.writes - s.writes) == c.records_per_lane - op
            &&& t.reads >= s.reads && t.writes >= s.writes
        }),
    decreases c.records_per_lane - op,
{
    if op < c.records_per_lane {
        let logical = logical_of(c, lane, op as usize);
        if reads_at(lane, op as usize, c.read_pct) {
            law_mixed_operations_are_counted(
                v,
                operated(read_counted(s, v, c, logical as int, bases), 1),
                c,
                lane,
                source,
                bases,
                op + 1,
                start,
                n,
                closed,
                sunk(sink, v, c, logical as int),
            );
        } else {
            let v2 = write_result(v, logical, source)->Ok_0;
            let s2 = wrote(s, 1, c.record_bytes as int);
            let full = v.wal->0.pending + 1 >= v.wal->0.extent_records;
            if full && c.reduce_every_extents != 0 && closed + 1 >= c.reduce_every_extents {
                let (v3, bytes) = reduce_result(v2, start, n + 1)->Ok_0;
                law_mixed_operations_are_counted(
                    v3,
                    operated(reduced_bytes(s2, bytes), 1),
                    c,
                    lane,
                    source,
                    bases,
                    op + 1,
                    start + n + 1,
                    0,
                    0,
                    sink,
                );
            } else {
                law_mixed_operations_are_counted(
                    v2,
                    operated(s2, 1),
                    c,
                    lane,
                    source,
                    bases,
                    op + 1,
                    start,
                    n + 1,
                    if full {
                        closed + 1
                    } else {
                        closed
                    },
                    sink,
                );
            }
        }
    }
}

/// A mixed run of reads alone never writes, and one of writes alone never reads.
pub proof fn law_the_read_share_is_kept(lane: usize, op: usize, read_pct: u32)
    ensures
        read_pct == 0 ==> !reads_at(lane, op, read_pct),
        read_pct >= 100 ==> reads_at(lane, op, read_pct),
{
}

/// Sequential operations name the logical records one after the other, and from the first again once all
/// of them were named; random ones name some logical record.
pub proof fn law_operations_name_logical_records(c: Config, lane: usize, op: usize)
    requires
        c.block_records_per_lane > 0,
        op < usize::MAX,
    ensures
        logical_of(c, lane, op) < c.block_records_per_lane,
        c.pattern is Sequential ==> {
            &&& op == 0 ==> logical_of(c, lane, op) == 0
            &&& logical_of(c, lane, op) + 1 < c.block_records_per_lane ==> logical_of(
                c,
                lane,
                (op + 1) as usize,
            ) == logical_of(c, lane, op) + 1
            &&& logical_of(c, lane, op) + 1 == c.block_records_per_lane ==> logical_of(
                c,
                lane,
                (op + 1) as usize,
            ) == 0
        },
{
    let n = c.block_records_per_lane as int;
    let k = op as int % n;
    let q = op as int / n;
    vstd::arithmetic::div_mod::lemma_fundamental_div_mod(op as int, n);
    if k + 1 == n {
        assert(op + 1 == n * (q + 1)) by (nonlinear_arith)
            requires
                op as int == n * q + k,
                k + 1 == n,
        ;
        vstd::arithmetic::div_mod::lemma_fundamental_div_mod_converse(op + 1, n, q + 1, 0);
    } else {
        vstd::arithmetic::div_mod::lemma_fundamental_div_mod_converse(op + 1, n, q, k + 1);
    }
}

/// A turn that succeeds leaves no extent open, and one that only reads leaves every record as it was and
/// writes nothing.
pub proof fn law_a_turn_leaves_no_extent_open(
    v: LaneView,
    s: WorkerStats,
    c: Config,
    lane: usize,
    source: Seq<u8>,
    source_extent: Seq<u8>,
    bases: Bases,
    sink: Seq<u8>,
    logical: int,
)
    ensures
        ({
            let (run, left) = lane_turn(v, s, c, lane, source, source_extent, bases, sink);
            let rb = c.record_bytes as nat;
            &&& run.fault is None && run.lane.wal is Some ==> run.lane.wal->0.pending == 0
            &&& c.mode is Read ==> run.fault is None && run.lane.store == v.store
                && crate::wal::lane::content(run.lane, rb, logical) == crate::wal::lane::content(
                v,
                rb,
                logical,
            )
            &&& c.mode is Read && c.read_access is Copy && c.records_per_lane > 0 ==> left
                == crate::wal::lane::content(
                v,
                rb,
                logical_of(c, lane, (c.records_per_lane - 1) as usize) as int,
            )
            &&& c.mode is Combine || c.mode is Reduce ==> left == sink
        }),
{
    if v.wal is Some {
        crate::wal::lane::law_flush_changes_no_record(v, c.record_bytes as nat, logical);
    }
}

/// A turn that combines single writes leaves the source in each record that it wrote and changes no other.
pub proof fn law_a_combining_turn_writes_the_source(
    v: LaneView,
    s: WorkerStats,
    c: Config,
    lane: usize,
    source: Seq<u8>,
    source_extent: Seq<u8>,
    bases: Bases,
    sink: Seq<u8>,
    logical: int,
)
    requires
        c.mode is Combine,
        !c.bulk_extents,
        c.block_records_per_lane > 0,
        crate::wal::lane::lane_wf(v, c.block_records_per_lane as nat, c.record_bytes as nat),
        source.len() >= c.record_bytes,
        0 <= logical < c.block_records_per_lane,
        lane_turn(v, s, c, lane, source, source_extent, bases, sink).0.fault is None,
    ensures
        ({
            let after = lane_turn(v, s, c, lane, source, source_extent, bases, sink).0.lane;
            let rb = c.record_bytes as nat;
            &&& (exists|k: usize|
                0 <= k < c.records_per_lane && #[trigger] logical_of(c, lane, k) == logical)
                ==> crate::wal::lane::content(after, rb, logical) == source.subrange(0, rb as int)
            &&& (forall|k: usize|
                0 <= k < c.records_per_lane ==> #[trigger] logical_of(c, lane, k) != logical)
                ==> crate::wal::lane::content(after, rb, logical) == crate::wal::lane::content(
                v,
                rb,
                logical,
            )
        }),
{
    let run = singles_from(v, s, c, lane, source, 0);
    law_single_writes_reach_their_records(v, s, c, lane, source, 0, logical);
    if run.lane.wal is Some {
        crate::wal::lane::law_flush_changes_no_record(run.lane, c.record_bytes as nat, logical);
    }
}

} // verus!
