//! The rules by which ingress lanes, the dispatcher and the owners pass work on.
use vstd::prelude::*;
use vstd::string::*;

use crate::error::{corrupt, Error, ErrorKind};
use crate::order::ring::{SequenceRing, SpscRing};
use crate::random::{rotate_left, xorshift64};
use crate::text::{decimal, join4};
#[allow(unused_imports)]
use crate::error::Fault;

verus! {

/// The flag of a descriptor that carries no work and ends a stream.
pub const DESC_F_BARRIER: u16 = 1;

/// Where the random choices of a global-atomic lane start, before its number is mixed in.
pub const ATOMIC_SEED: u64 = 0x9e37_79b9_7f4a_7c15;

/// Where the random choices of an owner-matrix lane start, before its number is mixed in.
pub const OWNER_SEED: u64 = 0xa076_1d64_78bd_642f;

/// Where the random choices of an ordered-dispatch lane start, before its number is mixed in.
pub const DISPATCH_SEED: u64 = 0xe703_7ed1_a0b4_28db;

/// One unit of work on its way to the owner of its record.
#[derive(Clone, Copy, Debug, PartialEq, Eq, Structural)]
pub struct OrderDesc {
    pub record: u64,
    pub sequence: u64,
    pub payload_slot: u32,
    pub generation: u32,
    pub ingress_lane: u16,
    pub flags: u16,
}

impl Default for OrderDesc {
    fn default() -> (desc: OrderDesc)
        ensures
            desc == blank_desc(),
    {
        OrderDesc {
            record: 0,
            sequence: 0,
            payload_slot: 0,
            generation: 0,
            ingress_lane: 0,
            flags: 0,
        }
    }
}

/// The descriptor with every field zero.
pub open spec fn blank_desc() -> OrderDesc {
    OrderDesc { record: 0, sequence: 0, payload_slot: 0, generation: 0, ingress_lane: 0, flags: 0 }
}

/// Whether a descriptor ends a stream.
pub open spec fn is_barrier(desc: OrderDesc) -> bool {
    desc.flags & DESC_F_BARRIER != 0
}

/// A payload slot on its way back to the lane it came from.
#[derive(Clone, Copy, Debug, PartialEq, Eq, Structural)]
pub struct ReleaseDesc {
    pub sequence: u64,
    pub payload_slot: u32,
    pub generation: u32,
}

impl Default for ReleaseDesc {
    fn default() -> (desc: ReleaseDesc)
        ensures
            desc == (ReleaseDesc { sequence: 0, payload_slot: 0, generation: 0 }),
    {
        ReleaseDesc { sequence: 0, payload_slot: 0, generation: 0 }
    }
}

/// The release of the slot that a descriptor holds.
pub open spec fn release_of(desc: OrderDesc) -> ReleaseDesc {
    ReleaseDesc {
        sequence: desc.sequence,
        payload_slot: desc.payload_slot,
        generation: desc.generation,
    }
}

/// Where in a list of rings, one for each pair of lanes, the ring from `ingress` to `owner` stands.
pub fn matrix_index(ingress: usize, owner: usize, lanes: usize) -> (at: usize)
    requires
        ingress < lanes,
        owner < lanes,
        lanes * lanes <= usize::MAX,
    ensures
        at == ingress * lanes + owner,
        at < lanes * lanes,
{
    assert(ingress * lanes + owner < lanes * lanes) by (nonlinear_arith)
        requires
            ingress < lanes,
            owner < lanes,
    ;
    assert(0 <= ingress * lanes) by (nonlinear_arith)
        requires
            0 <= ingress,
            0 <= lanes,
    ;
    ingress * lanes + owner
}

/// Different pairs of lanes have different rings.
pub proof fn law_matrix_is_injective(a: nat, b: nat, c: nat, d: nat, lanes: nat)
    requires
        a < lanes,
        b < lanes,
        c < lanes,
        d < lanes,
        a * lanes + b == c * lanes + d,
    ensures
        a == c && b == d,
{
    assert(a == c) by (nonlinear_arith)
        requires
            a * lanes + b == c * lanes + d,
            a < lanes,
            b < lanes,
            c < lanes,
            d < lanes,
    ;
}

/// One try to push a value that has to be pushed; a try that fails is counted.
pub fn push_wait<T: Copy>(ring: &mut SpscRing<T>, value: T, spins: &mut u64) -> (done: bool)
    requires
        *old(spins) < u64::MAX,
    ensures
        final(ring).capacity() == old(ring).capacity(),
        done == (old(ring)@.len() < old(ring).capacity()),
        final(ring)@ == if done {
            old(ring)@.push(value)
        } else {
            old(ring)@
        },
        *final(spins) == if done {
            *old(spins) as int
        } else {
            *old(spins) + 1
        },
{
    match ring.try_push(value) {
        Ok(_) => true,
        Err(_) => {
            *spins = *spins + 1;
            false
        },
    }
}

/// One try to push the rest of a batch, from `offset` on; gives the new offset, and counts a try
/// that pushes nothing.
pub fn push_slice_wait<T: Copy>(
    ring: &mut SpscRing<T>,
    values: &[T],
    offset: usize,
    spins: &mut u64,
) -> (next: usize)
    requires
        offset <= values@.len(),
        *old(spins) < u64::MAX,
    ensures
        final(ring).capacity() == old(ring).capacity(),
        offset <= next <= values@.len(),
        next == values@.len() || final(ring)@.len() == final(ring).capacity(),
        final(ring)@ == old(ring)@ + values@.subrange(offset as int, next as int),
        *final(spins) == if next == offset && offset < values@.len() {
            *old(spins) + 1
        } else {
            *old(spins) as int
        },
{
    let ghost before = ring@;
    let mut next: usize = offset;
    proof {
        assert(ring@ =~= before + values@.subrange(offset as int, offset as int));
    }
    while next < values.len()
        invariant
            offset <= next <= values@.len(),
            ring.capacity() == old(ring).capacity(),
            before == old(ring)@,
            ring@ == before + values@.subrange(offset as int, next as int),
            *spins == *old(spins),
            *spins < u64::MAX,
        decreases values@.len() - next,
    {
        match ring.try_push(values[next]) {
            Ok(_) => {
                proof {
                    assert(ring@ =~= before + values@.subrange(offset as int, next + 1));
                }
                next = next + 1;
            },
            Err(_) => {
                if next == offset {
                    *spins = *spins + 1;
                }
                return next;
            },
        }
    }
    next
}

/// One try to publish a value that has to be published; a try that fails is counted.
pub fn publish_wait<T: Copy>(
    ring: &mut SequenceRing<T>,
    sequence: u64,
    value: T,
    spins: &mut u64,
) -> (done: bool)
    requires
        *old(spins) < u64::MAX,
    ensures
        final(ring).capacity() == old(ring).capacity(),
        done == (sequence != 0 && sequence != crate::order::ring::SEQUENCE_RESERVED
            && !crate::order::ring::slot_taken(old(ring)@, sequence, old(ring).capacity())),
        final(ring)@ == if done {
            old(ring)@.insert(sequence, value)
        } else {
            old(ring)@
        },
        *final(spins) == if done {
            *old(spins) as int
        } else {
            *old(spins) + 1
        },
{
    match ring.try_publish(sequence, value) {
        Ok(_) => true,
        Err(_) => {
            *spins = *spins + 1;
            false
        },
    }
}

/// The next pseudo-random word; `state` moves on to it.
pub fn next_random(state: &mut u64) -> (value: u64)
    ensures
        value == crate::random::xorshift(*old(state)),
        *final(state) == value,
{
    let value: u64 = xorshift64(*state);
    *state = value;
    value
}

/// The record that the generator in state `state` chooses among `records`, and the state after it.
/// A share of `hot_percent` of the choices goes to the first record.
pub open spec fn chosen_record(state: u64, records: u64, hot_percent: u32) -> (u64, u64) {
    let a = crate::random::xorshift(state);
    let b = crate::random::xorshift(a);
    if hot_percent == 0 {
        (a % records, a)
    } else if a % 100 < hot_percent {
        (0, a)
    } else {
        (b % records, b)
    }
}

/// Chooses the next record among `records`.
pub fn next_record(state: &mut u64, records: u64, hot_percent: u32) -> (record: u64)
    requires
        records > 0,
    ensures
        (record, *final(state)) == chosen_record(*old(state), records, hot_percent),
        record < records,
{
    if hot_percent == 0 {
        return next_random(state) % records;
    }
    let selector: u64 = next_random(state);
    if selector % 100 < hot_percent as u64 {
        0
    } else {
        next_random(state) % records
    }
}

/// The generation after `g`; never zero.
pub open spec fn next_generation(g: u32) -> u32 {
    if g == u32::MAX {
        1
    } else {
        (g + 1) as u32
    }
}

/// The payload slots of one ingress lane: which are free, and the generation that each is in.
#[derive(Debug)]
pub struct SlotPool {
    pub free: Vec<u32>,
    pub generations: Vec<u32>,
}

impl SlotPool {
    /// Whether the free slots exist and every generation is above zero.
    pub open spec fn wf(&self) -> bool {
        &&& self.generations@.len() <= u32::MAX
        &&& forall|i: int|
            0 <= i < self.free@.len() ==> #[trigger] self.free@[i] < self.generations@.len()
        &&& forall|i: int| 0 <= i < self.generations@.len() ==> #[trigger] self.generations@[i] >= 1
    }

    /// A pool of `window` free slots in their first generation; the lowest is taken first.
    pub fn new(window: u32) -> (pool: SlotPool)
        ensures
            pool.wf(),
            pool.free@ == Seq::new(window as nat, |i: int| (window - 1 - i) as u32),
            pool.generations@ == Seq::new(window as nat, |i: int| 1u32),
    {
        let mut free: Vec<u32> = Vec::new();
        let mut generations: Vec<u32> = Vec::new();
        let mut i: u32 = 0;
        while i < window
            invariant
                i <= window,
                free@ == Seq::new(i as nat, |k: int| (window - 1 - k) as u32),
                generations@ == Seq::new(i as nat, |k: int| 1u32),
            decreases window - i,
        {
            free.push(window - 1 - i);
            generations.push(1);
            proof {
                assert(free@ =~= Seq::new((i + 1) as nat, |k: int| (window - 1 - k) as u32));
                assert(generations@ =~= Seq::new((i + 1) as nat, |k: int| 1u32));
            }
            i = i + 1;
        }
        SlotPool { free, generations }
    }

    /// Takes a free slot, with its generation.
    pub fn take(&mut self) -> (taken: (u32, u32))
        requires
            old(self).wf(),
            old(self).free@.len() > 0,
        ensures
            final(self).wf(),
            taken.0 == old(self).free@.last(),
            taken.1 == old(self).generations@[taken.0 as int],
            final(self).free@ == old(self).free@.drop_last(),
            final(self).generations@ == old(self).generations@,
    {
        let n: usize = self.free.len();
        let slot: u32 = self.free[n - 1];
        let popped: Option<u32> = self.free.pop();
        (slot, self.generations[slot as usize])
    }

    /// Whether `release` names a slot in the generation that the slot is in.
    pub open spec fn current(&self, release: ReleaseDesc) -> bool {
        release.payload_slot < self.generations@.len()
            && self.generations@[release.payload_slot as int] == release.generation
    }

    /// Takes a slot back, which moves on to its next generation; a release that is not of the
    /// slot's generation changes nothing and fails with `stale`.
    pub fn give_back(&mut self, release: ReleaseDesc, stale: &str) -> (r: Result<(), Error>)
        requires
            old(self).wf(),
        ensures
            final(self).wf(),
            match r {
                Ok(_) => {
                    &&& old(self).current(release)
                    &&& final(self).free@ == old(self).free@.push(release.payload_slot)
                    &&& final(self).generations@ == old(self).generations@.update(
                        release.payload_slot as int,
                        next_generation(release.generation),
                    )
                },
                Err(e) => {
                    &&& !old(self).current(release)
                    &&& *final(self) == *old(self)
                    &&& e@ == (ErrorKind::InvalidData, stale@)
                },
            },
    {
        let slot: usize = release.payload_slot as usize;
        if slot >= self.generations.len() || self.generations[slot] != release.generation {
            return Err(Error::of(ErrorKind::InvalidData, stale));
        }
        let g: u32 = self.generations[slot];
        let next: u32 = if g == u32::MAX {
            1
        } else {
            g + 1
        };
        self.generations[slot] = next;
        self.free.push(release.payload_slot);
        Ok(())
    }

    /// Whether every slot has come back, once the work is over.
    pub fn finish(&self, leaked: &str) -> (r: Result<(), Error>)
        ensures
            match r {
                Ok(_) => self.free@.len() == self.generations@.len(),
                Err(e) => self.free@.len() != self.generations@.len() && e@ == (
                    ErrorKind::InvalidData,
                    leaked@,
                ),
            },
    {
        if self.free.len() != self.generations.len() {
            return Err(Error::of(ErrorKind::InvalidData, leaked));
        }
        Ok(())
    }
}

/// A release that was accepted is refused when it comes a second time.
pub proof fn law_second_release_is_stale(pool: SlotPool, release: ReleaseDesc, after: SlotPool)
    requires
        pool.wf(),
        pool.current(release),
        after.generations@ == pool.generations@.update(
            release.payload_slot as int,
            next_generation(release.generation),
        ),
    ensures
        !after.current(release),
{
}

/// Whether the free slots and the slots `out` are, without repetition, all the slots of the pool.
pub open spec fn partitioned(pool: SlotPool, out: Set<u32>) -> bool {
    &&& forall|i: int, j: int|
        0 <= i < j < pool.free@.len() ==> #[trigger] pool.free@[i] != #[trigger] pool.free@[j]
    &&& forall|i: int| 0 <= i < pool.free@.len() ==> !out.contains(#[trigger] pool.free@[i])
    &&& forall|s: u32|
        s < pool.generations@.len() ==> #[trigger] out.contains(s) || pool.free@.contains(s)
}

/// Payload slots are neither leaked nor handed out twice: taking moves a slot from the free ones
/// to those that are out, and giving back a slot that is out moves it back.
pub proof fn law_slots_stay_partitioned(
    pool: SlotPool,
    out: Set<u32>,
    taken: SlotPool,
    slot: u32,
    given: SlotPool,
    back: u32,
)
    requires
        pool.wf(),
        partitioned(pool, out),
        taken.generations@.len() == pool.generations@.len(),
        given.generations@.len() == pool.generations@.len(),
        pool.free@.len() > 0 ==> slot == pool.free@.last() && taken.free@ == pool.free@.drop_last(),
        given.free@ == pool.free@.push(back),
        out.contains(back),
    ensures
        pool.free@.len() > 0 ==> partitioned(taken, out.insert(slot)) && !out.contains(slot),
        partitioned(given, out.remove(back)),
{
    if pool.free@.len() > 0 {
        let n = pool.free@.len() - 1;
        assert(pool.free@[n] == slot);
        assert forall|s: u32| s < taken.generations@.len() implies #[trigger] out.insert(
            slot,
        ).contains(s) || taken.free@.contains(s) by {
            assert(out.contains(s) || pool.free@.contains(s));
            if s != slot && pool.free@.contains(s) {
                let k = choose|k: int| 0 <= k < pool.free@.len() && pool.free@[k] == s;
                assert(taken.free@[k] == s);
            }
        }
        assert forall|i: int| 0 <= i < taken.free@.len() implies !out.insert(slot).contains(
            #[trigger] taken.free@[i],
        ) by {
            assert(taken.free@[i] == pool.free@[i]);
            assert(pool.free@[i] != pool.free@[n]);
        }
        assert forall|i: int, j: int| 0 <= i < j < taken.free@.len() implies
            #[trigger] taken.free@[i] != #[trigger] taken.free@[j] by {
            assert(pool.free@[i] != pool.free@[j]);
        }
    }
    assert forall|i: int, j: int| 0 <= i < j < given.free@.len() implies #[trigger] given.free@[i]
        != #[trigger] given.free@[j] by {
        if j < pool.free@.len() {
            assert(pool.free@[i] != pool.free@[j]);
        } else {
            assert(!out.contains(pool.free@[i]));
        }
    }
    assert forall|i: int| 0 <= i < given.free@.len() implies !out.remove(back).contains(
        #[trigger] given.free@[i],
    ) by {
        if i < pool.free@.len() {
            assert(!out.contains(pool.free@[i]));
        }
    }
    assert forall|s: u32| s < given.generations@.len() implies #[trigger] out.remove(
        back,
    ).contains(s) || given.free@.contains(s) by {
        assert(out.contains(s) || pool.free@.contains(s));
        if s == back {
            assert(given.free@[pool.free@.len() as int] == s);
        } else if pool.free@.contains(s) {
            let k = choose|k: int| 0 <= k < pool.free@.len() && pool.free@[k] == s;
            assert(given.free@[k] == s);
        }
    }
}

/// What an owner knows: the last sequence number of each of its records, and its counters.
#[derive(Debug)]
pub struct Owner {
    pub owner: u64,
    pub lanes: u64,
    pub latest: Vec<u64>,
    pub ops: u64,
    pub checksum: u64,
}

/// The state of an [`Owner`].
pub struct OwnerView {
    pub owner: u64,
    pub lanes: u64,
    pub latest: Seq<u64>,
    pub ops: nat,
    pub checksum: u64,
}

impl View for Owner {
    type V = OwnerView;

    open spec fn view(&self) -> OwnerView {
        OwnerView {
            owner: self.owner,
            lanes: self.lanes,
            latest: self.latest@,
            ops: self.ops as nat,
            checksum: self.checksum,
        }
    }
}

/// How many records each owner keeps when `records` are dealt out to `lanes` owners.
pub open spec fn records_per_owner(records: nat, lanes: nat) -> nat {
    let share = if records % lanes == 0 {
        records / lanes
    } else {
        records / lanes + 1
    };
    if share == 0 {
        1
    } else {
        share
    }
}

/// The owner's state after it has taken the work in `desc`.
pub open spec fn owned(v: OwnerView, desc: OrderDesc) -> OwnerView {
    let at = (desc.record / v.lanes) as int;
    OwnerView {
        latest: v.latest.update(at, desc.sequence),
        ops: v.ops + 1,
        checksum: v.checksum ^ crate::random::word_add(v.latest[at], desc.record),
        ..v
    }
}

/// What an owner has made of a batch: its state, the releases by ingress lane, and whether the batch
/// ended the stream, or the fault that stopped it.
pub struct BatchView {
    pub owner: OwnerView,
    pub releases: Seq<(u16, ReleaseDesc)>,
    pub end: Result<bool, Fault>,
}

/// What an owner in state `v` makes of a batch from the dispatcher. What came before a faulty
/// descriptor is taken and released; nothing after it is looked at.
pub open spec fn batch_taken(v: OwnerView, batch: Seq<OrderDesc>) -> BatchView
    decreases batch.len(),
{
    if batch.len() == 0 {
        BatchView { owner: v, releases: Seq::empty(), end: Ok(false) }
    } else {
        let t = batch_taken(v, batch.drop_last());
        let desc = batch.last();
        if t.end is Err {
            t
        } else if is_barrier(desc) {
            BatchView { end: Ok(true), ..t }
        } else if t.end->Ok_0 || desc.record % t.owner.lanes != t.owner.owner {
            BatchView {
                end: Err(crate::error::bad_data("ordered-dispatch owner batch topology mismatch"@)),
                ..t
            }
        } else if t.owner.latest[(desc.record / t.owner.lanes) as int] >= desc.sequence {
            BatchView {
                end: Err(crate::error::bad_data("ordered-dispatch regressed per-record sequence"@)),
                ..t
            }
        } else {
            BatchView {
                owner: owned(t.owner, desc),
                releases: t.releases.push((desc.ingress_lane, release_of(desc))),
                ..t
            }
        }
    }
}

proof fn lemma_batch_stops(v: OwnerView, batch: Seq<OrderDesc>, n: int)
    requires
        0 <= n <= batch.len(),
        batch_taken(v, batch.subrange(0, n)).end is Err,
    ensures
        batch_taken(v, batch) == batch_taken(v, batch.subrange(0, n)),
    decreases batch.len(),
{
    if n < batch.len() {
        assert(batch.drop_last().subrange(0, n) =~= batch.subrange(0, n));
        lemma_batch_stops(v, batch.drop_last(), n);
    } else {
        assert(batch.subrange(0, n) =~= batch);
    }
}

/// What an owner has made of a batch: the releases by ingress lane, and whether the batch ended the
/// stream, or the fault that stopped it.
#[derive(Debug)]
pub struct OwnedBatch {
    pub releases: Vec<(u16, ReleaseDesc)>,
    pub end: Result<bool, Error>,
}

impl Owner {
    /// Whether the owner is one of the lanes.
    pub open spec fn wf(&self) -> bool {
        self.owner < self.lanes
    }

    /// Whether the owner keeps a place for the record of `desc`, where that is its own.
    pub open spec fn places(&self, desc: OrderDesc) -> bool {
        !is_barrier(desc) && desc.record % self.lanes == self.owner ==> desc.record / self.lanes
            < self.latest@.len()
    }

    /// An owner that has seen no work yet.
    pub fn new(owner: u64, lanes: u64, records: usize) -> (o: Owner)
        requires
            owner < lanes,
        ensures
            o.wf(),
            o@ == (OwnerView {
                owner,
                lanes,
                latest: Seq::new(
                    records_per_owner(records as nat, lanes as nat),
                    |i: int| 0u64,
                ),
                ops: 0,
                checksum: 0,
            }),
    {
        let total: u64 = records as u64;
        let whole: u64 = total / lanes;
        let share: u64 = if total % lanes == 0 {
            whole
        } else {
            assert(whole < total) by (nonlinear_arith)
                requires
                    whole == total / lanes,
                    total % lanes != 0,
                    lanes > 0,
            ;
            whole + 1
        };
        let share: u64 = if share == 0 {
            1
        } else {
            share
        };
        let mut latest: Vec<u64> = Vec::new();
        let mut i: u64 = 0;
        while i < share
            invariant
                i <= share,
                latest@ == Seq::new(i as nat, |k: int| 0u64),
            decreases share - i,
        {
            latest.push(0);
            proof {
                assert(latest@ =~= Seq::new((i + 1) as nat, |k: int| 0u64));
            }
            i = i + 1;
        }
        Owner { owner, lanes, latest, ops: 0, checksum: 0 }
    }

    /// Takes a batch from the dispatcher, up to the first descriptor that is faulty.
    pub fn take_batch(&mut self, batch: &[OrderDesc]) -> (r: OwnedBatch)
        requires
            old(self).wf(),
            old(self).ops + batch@.len() <= u64::MAX,
            forall|i: int| 0 <= i < batch@.len() ==> old(self).places(#[trigger] batch@[i]),
        ensures
            final(self).wf(),
            final(self)@ == batch_taken(old(self)@, batch@).owner,
            r.releases@ == batch_taken(old(self)@, batch@).releases,
            crate::error::agrees(r.end, batch_taken(old(self)@, batch@).end),
    {
        let places: usize = self.latest.len();
        let ghost v = self@;
        let mut releases: Vec<(u16, ReleaseDesc)> = Vec::new();
        let mut ended: bool = false;
        let mut i: usize = 0;
        proof {
            assert(batch@.subrange(0, 0) =~= Seq::<OrderDesc>::empty());
            assert(releases@ =~= Seq::<(u16, ReleaseDesc)>::empty());
        }
        while i < batch.len()
            invariant
                i <= batch@.len(),
                self.owner == old(self).owner,
                self.lanes == old(self).lanes,
                self.owner < self.lanes,
                v == old(self)@,
                self.latest@.len() == old(self).latest@.len() == places,
                self.ops <= old(self).ops + i,
                old(self).ops + batch@.len() <= u64::MAX,
                forall|k: int| 0 <= k < batch@.len() ==> old(self).places(#[trigger] batch@[k]),
                batch_taken(v, batch@.subrange(0, i as int)) == (BatchView {
                    owner: self@,
                    releases: releases@,
                    end: Ok(ended),
                }),
            decreases batch@.len() - i,
        {
            let desc: OrderDesc = batch[i];
            proof {
                assert(batch@.subrange(0, i + 1).drop_last() =~= batch@.subrange(0, i as int));
                assert(old(self).places(batch@[i as int]));
            }
            if desc.flags & DESC_F_BARRIER != 0 {
                ended = true;
            } else {
                if ended || desc.record % self.lanes != self.owner {
                    proof {
                        lemma_batch_stops(v, batch@, i + 1);
                    }
                    let end: Result<bool, Error> = Err(
                        corrupt("ordered-dispatch owner batch topology mismatch"),
                    );
                    return OwnedBatch { releases, end };
                }
                let at: usize = (desc.record / self.lanes) as usize;
                let previous: u64 = self.latest[at];
                if previous >= desc.sequence {
                    proof {
                        lemma_batch_stops(v, batch@, i + 1);
                    }
                    let end: Result<bool, Error> = Err(
                        corrupt("ordered-dispatch regressed per-record sequence"),
                    );
                    return OwnedBatch { releases, end };
                }
                self.latest[at] = desc.sequence;
                self.checksum = self.checksum ^ previous.wrapping_add(desc.record);
                self.ops = self.ops + 1;
                releases.push(
                    (
                        desc.ingress_lane,
                        ReleaseDesc {
                            sequence: desc.sequence,
                            payload_slot: desc.payload_slot,
                            generation: desc.generation,
                        },
                    ),
                );
            }
            i = i + 1;
        }
        proof {
            assert(batch@.subrange(0, i as int) =~= batch@);
        }
        OwnedBatch { releases, end: Ok(ended) }
    }

    /// Takes one descriptor that came straight from `ingress`.
    pub fn take_direct(&mut self, ingress: u64, desc: OrderDesc) -> (r: Result<ReleaseDesc, Error>)
        requires
            old(self).wf(),
            old(self).ops < u64::MAX,
            old(self).places(desc),
            !is_barrier(desc),
        ensures
            final(self).wf(),
            match r {
                Ok(release) => {
                    &&& desc.record % old(self).lanes == old(self).owner
                    &&& desc.ingress_lane == ingress
                    &&& final(self)@ == owned(old(self)@, desc)
                    &&& release == release_of(desc)
                },
                Err(e) => {
                    &&& desc.record % old(self).lanes != old(self).owner || desc.ingress_lane
                        != ingress
                    &&& *final(self) == *old(self)
                    &&& e@ == (
                        ErrorKind::InvalidData,
                        "owner-matrix descriptor topology mismatch"@,
                    )
                },
            },
    {
        if desc.record % self.lanes != self.owner || desc.ingress_lane as u64 != ingress {
            return Err(
                Error::of(ErrorKind::InvalidData, "owner-matrix descriptor topology mismatch"),
            );
        }
        let places: usize = self.latest.len();
        let at: usize = (desc.record / self.lanes) as usize;
        let previous: u64 = self.latest[at];
        self.latest[at] = desc.sequence;
        self.checksum = self.checksum ^ previous.wrapping_add(desc.record);
        self.ops = self.ops + 1;
        Ok(
            ReleaseDesc {
                sequence: desc.sequence,
                payload_slot: desc.payload_slot,
                generation: desc.generation,
            },
        )
    }
}

/// In what an owner accepts, the sequence numbers of a record only go up: each is above what the
/// owner had for the record, and at most what it has afterwards. Whatever comes, no record goes back,
/// and each release stands for one more operation.
pub proof fn law_owner_sequences_only_rise(v: OwnerView, batch: Seq<OrderDesc>)
    requires
        v.lanes > 0,
        forall|i: int|
            0 <= i < batch.len() && !is_barrier(#[trigger] batch[i]) ==> batch[i].record / v.lanes
                < v.latest.len(),
    ensures
        ({
            let w = batch_taken(v, batch).owner;
            &&& w.owner == v.owner && w.lanes == v.lanes
            &&& w.latest.len() == v.latest.len()
            &&& forall|k: int| 0 <= k < v.latest.len() ==> v.latest[k] <= #[trigger] w.latest[k]
            &&& w.ops == v.ops + batch_taken(v, batch).releases.len()
            &&& batch_taken(v, batch).end is Ok ==> forall|i: int|
                0 <= i < batch.len() && !is_barrier(#[trigger] batch[i]) ==> {
                    let at = (batch[i].record / v.lanes) as int;
                    &&& v.latest[at] < batch[i].sequence <= w.latest[at]
                    &&& batch[i].record % v.lanes == v.owner
                }
        }),
    decreases batch.len(),
{
    if batch.len() > 0 {
        let head = batch.drop_last();
        assert forall|i: int| 0 <= i < head.len() && !is_barrier(#[trigger] head[i]) implies head[i].record
            / v.lanes < v.latest.len() by {
            assert(head[i] == batch[i]);
        }
        law_owner_sequences_only_rise(v, head);
        let u = batch_taken(v, head).owner;
        let w = batch_taken(v, batch).owner;
        let last = batch.last();
        assert(last == batch[batch.len() - 1]);
        assert forall|i: int|
            batch_taken(v, batch).end is Ok && 0 <= i < batch.len() && !is_barrier(
                #[trigger] batch[i],
            ) implies {
            let at = (batch[i].record / v.lanes) as int;
            &&& v.latest[at] < batch[i].sequence <= w.latest[at]
            &&& batch[i].record % v.lanes == v.owner
        } by {
            if i < head.len() {
                assert(head[i] == batch[i]);
                let at = (batch[i].record / v.lanes) as int;
                assert(u.latest[at] <= w.latest[at]);
            } else {
                let at = (last.record / v.lanes) as int;
                assert(v.latest[at] <= u.latest[at]);
            }
        }
    }
}

/// The descriptors of `batch` whose record belongs to `owner`, in their order.
pub open spec fn routed(batch: Seq<OrderDesc>, lanes: u64, owner: u64) -> Seq<OrderDesc>
    decreases batch.len(),
{
    if batch.len() == 0 {
        Seq::empty()
    } else {
        let head = routed(batch.drop_last(), lanes, owner);
        if batch.last().record % lanes == owner {
            head.push(batch.last())
        } else {
            head
        }
    }
}

/// The last sequence number of the round that starts at `expected`.
pub open spec fn round_end(expected: u64, batch: u64, total: u64) -> int {
    let end = if expected + batch > u64::MAX {
        u64::MAX - 1
    } else if expected + batch == 0 {
        0
    } else {
        expected + batch - 1
    };
    if total <= end {
        total as int
    } else {
        end
    }
}

/// The dispatcher: it consumes sequence numbers without a gap, round by round, and sorts the work of
/// a round by owner.
#[derive(Debug)]
pub struct Dispatcher {
    pub lanes: u64,
    pub total: u64,
    /// At most how many descriptors a round has.
    pub batch: u64,
    pub expected: u64,
    /// The last sequence number of the round.
    pub end: u64,
    /// What the round has gathered so far.
    pub held: Vec<OrderDesc>,
    pub ops: u64,
    pub spins: u64,
    pub checksum: u64,
}

/// What the dispatcher does next.
#[derive(Clone, Copy, Debug, PartialEq, Eq, Structural)]
pub enum DispatchStep {
    /// Look for the expected number.
    Gather,
    /// Hand the round to the owners.
    Deliver,
    /// Send each owner the barrier that ends its stream.
    Close,
}

/// What lies under the numbers `from..to`, in their order.
pub open spec fn consumed(ring: Map<u64, OrderDesc>, from: int, to: int) -> Seq<OrderDesc> {
    Seq::new((to - from) as nat, |i: int| ring[(from + i) as u64])
}

/// The checksum after the descriptors of `batch` have been dispatched.
pub open spec fn dispatch_checksum(checksum: u64, batch: Seq<OrderDesc>, lanes: u64) -> u64
    decreases batch.len(),
{
    if batch.len() == 0 {
        checksum
    } else {
        dispatch_checksum(checksum, batch.drop_last(), lanes) ^ crate::random::rotated(
            batch.last().sequence,
            batch.last().record % lanes,
        )
    }
}

impl Dispatcher {
    /// Whether the numbers through the last of a round have been consumed in order, and no round goes
    /// past the last request.
    pub open spec fn wf(&self) -> bool {
        &&& self.lanes > 0
        &&& self.batch > 0
        &&& self.total < u64::MAX
        &&& 1 <= self.expected <= self.total + 1
        &&& self.end <= self.total
        &&& self.expected <= self.end + 1
        &&& self.ops == self.expected - 1
    }

    /// A dispatcher that has passed on nothing yet and waits for the first of `total` requests.
    pub fn new(lanes: u64, total: u64, batch: u64) -> (d: Dispatcher)
        requires
            lanes > 0,
            batch > 0,
            total < u64::MAX,
        ensures
            d.wf(),
            d.held@.len() == 0,
            d == (Dispatcher {
                lanes,
                total,
                batch,
                expected: 1,
                end: 0,
                held: d.held,
                ops: 0,
                spins: 0,
                checksum: 0,
            }),
    {
        Dispatcher {
            lanes,
            total,
            batch,
            expected: 1,
            end: 0,
            held: Vec::new(),
            ops: 0,
            spins: 0,
            checksum: 0,
        }
    }

    /// What comes next: a round is gathered to its end and then delivered, and when all requests have
    /// gone out the streams are closed.
    pub open spec fn step(&self) -> DispatchStep {
        if self.expected <= self.end {
            DispatchStep::Gather
        } else if self.held@.len() > 0 {
            DispatchStep::Deliver
        } else if self.expected <= self.total {
            DispatchStep::Gather
        } else {
            DispatchStep::Close
        }
    }

    /// What comes next. Where a round is over and delivered, the next one is opened.
    pub fn next_step(&mut self) -> (step: DispatchStep)
        requires
            old(self).wf(),
        ensures
            final(self).wf(),
            step == old(self).step(),
            step == DispatchStep::Gather ==> final(self).expected <= final(self).end,
            *final(self) == (Dispatcher {
                end: if old(self).expected > old(self).end && step == DispatchStep::Gather {
                    round_end(old(self).expected, old(self).batch, old(self).total) as u64
                } else {
                    old(self).end
                },
                ..*old(self)
            }),
    {
        if self.expected <= self.end {
            DispatchStep::Gather
        } else if self.held.len() > 0 {
            DispatchStep::Deliver
        } else if self.expected <= self.total {
            let end: u64 = self.expected.saturating_add(self.batch).saturating_sub(1);
            self.end = if self.total <= end {
                self.total
            } else {
                end
            };
            DispatchStep::Gather
        } else {
            DispatchStep::Close
        }
    }

    /// Consumes what is there of the round, from the expected number on without a gap. Where a number
    /// is not there yet, that is counted as one idle look.
    pub fn gather(&mut self, ring: &mut SequenceRing<OrderDesc>)
        requires
            old(self).wf(),
            old(self).spins < u64::MAX,
        ensures
            final(self).wf(),
            old(self).expected <= final(self).expected,
            *final(self) == (Dispatcher {
                expected: final(self).expected,
                held: final(self).held,
                ops: (final(self).expected - 1) as u64,
                spins: if final(self).expected <= old(self).end {
                    (old(self).spins + 1) as u64
                } else {
                    old(self).spins
                },
                checksum: dispatch_checksum(
                    old(self).checksum,
                    consumed(
                        old(ring)@,
                        old(self).expected as int,
                        final(self).expected as int,
                    ),
                    old(self).lanes,
                ),
                ..*old(self)
            }),
            final(self).held@ == old(self).held@ + consumed(
                old(ring)@,
                old(self).expected as int,
                final(self).expected as int,
            ),
            forall|s: u64|
                old(self).expected <= s < final(self).expected ==> #[trigger] old(
                    ring,
                )@.dom().contains(s),
            final(self).expected <= old(self).end ==> !old(ring)@.dom().contains(
                final(self).expected,
            ),
            forall|s: u64|
                #![trigger final(ring)@.dom().contains(s)]
                final(ring)@.dom().contains(s) == (old(ring)@.dom().contains(s) && !(old(
                    self,
                ).expected <= s < final(self).expected)) && (final(ring)@.dom().contains(s)
                    ==> final(ring)@[s] == old(ring)@[s]),
            final(ring).capacity() == old(ring).capacity(),
    {
        let ghost start = self.expected;
        let ghost full = ring@;
        let ghost before = self.held@;
        proof {
            assert(consumed(full, start as int, start as int) =~= Seq::<OrderDesc>::empty());
            assert(before + consumed(full, start as int, start as int) =~= before);
        }
        while self.expected <= self.end
            invariant
                self.wf(),
                self.lanes == old(self).lanes,
                self.total == old(self).total,
                self.batch == old(self).batch,
                self.end == old(self).end,
                self.spins == old(self).spins,
                self.spins < u64::MAX,
                start == old(self).expected,
                full == old(ring)@,
                before == old(self).held@,
                start <= self.expected,
                ring.capacity() == old(ring).capacity(),
                self.held@ == before + consumed(full, start as int, self.expected as int),
                self.checksum == dispatch_checksum(
                    old(self).checksum,
                    consumed(full, start as int, self.expected as int),
                    self.lanes,
                ),
                forall|s: u64| start <= s < self.expected ==> #[trigger] full.dom().contains(s),
                forall|s: u64| #[trigger]
                    ring@.dom().contains(s) == (full.dom().contains(s) && !(start <= s
                        < self.expected)) && (ring@.dom().contains(s) ==> ring@[s] == full[s]),
            decreases self.end + 1 - self.expected,
        {
            let expected: u64 = self.expected;
            let ghost rest = ring@;
            match ring.try_consume(expected) {
                Some(desc) => {
                    let owner: u64 = desc.record % self.lanes;
                    self.checksum = self.checksum ^ rotate_left(desc.sequence, owner);
                    self.held.push(desc);
                    proof {
                        assert(rest.dom().contains(expected));
                        let more = consumed(full, start as int, expected + 1);
                        assert(more.last() == desc);
                        assert(more.drop_last() =~= consumed(full, start as int, expected as int));
                        assert(self.held@ =~= before + more);
                    }
                    self.ops = self.ops + 1;
                    self.expected = expected + 1;
                },
                None => {
                    proof {
                        assert(rest.dom().contains(expected) == full.dom().contains(expected));
                    }
                    self.spins = self.spins + 1;
                    return;
                },
            }
        }
    }

    /// The descriptors of the round that go to `owner`, in their order.
    pub fn route(&self, owner: u64) -> (out: Vec<OrderDesc>)
        requires
            self.lanes > 0,
        ensures
            out@ == routed(self.held@, self.lanes, owner),
    {
        let mut out: Vec<OrderDesc> = Vec::new();
        let mut i: usize = 0;
        let ghost batch = self.held@;
        proof {
            assert(batch.subrange(0, 0) =~= Seq::<OrderDesc>::empty());
            assert(out@ =~= Seq::<OrderDesc>::empty());
        }
        while i < self.held.len()
            invariant
                i <= self.held@.len(),
                batch == self.held@,
                self.lanes > 0,
                out@ == routed(batch.subrange(0, i as int), self.lanes, owner),
            decreases self.held@.len() - i,
        {
            proof {
                assert(batch.subrange(0, i + 1).drop_last() =~= batch.subrange(0, i as int));
            }
            if self.held[i].record % self.lanes == owner {
                out.push(self.held[i]);
            }
            i = i + 1;
        }
        proof {
            assert(batch.subrange(0, i as int) =~= batch);
        }
        out
    }

    /// Hands the round out, sorted by owner: the list at each place goes to the owner of that number.
    pub fn deliver(&mut self) -> (lists: Vec<Vec<OrderDesc>>)
        requires
            old(self).wf(),
            old(self).lanes <= usize::MAX,
        ensures
            final(self).wf(),
            final(self).held@.len() == 0,
            *final(self) == (Dispatcher { held: final(self).held, ..*old(self) }),
            lists@.len() == old(self).lanes,
            forall|owner: int|
                0 <= owner < lists@.len() ==> (#[trigger] lists@[owner])@ == routed(
                    old(self).held@,
                    old(self).lanes,
                    owner as u64,
                ),
    {
        let mut lists: Vec<Vec<OrderDesc>> = Vec::new();
        let mut owner: u64 = 0;
        while owner < self.lanes
            invariant
                *self == *old(self),
                self.wf(),
                owner <= self.lanes,
                lists@.len() == owner,
                forall|k: int|
                    0 <= k < lists@.len() ==> (#[trigger] lists@[k])@ == routed(
                        old(self).held@,
                        old(self).lanes,
                        k as u64,
                    ),
            decreases self.lanes - owner,
        {
            let list: Vec<OrderDesc> = self.route(owner);
            lists.push(list);
            owner = owner + 1;
        }
        self.held = Vec::new();
        lists
    }

    /// The descriptor that ends the stream of an owner.
    pub fn last_desc(&self) -> (desc: OrderDesc)
        ensures
            desc == (OrderDesc { flags: DESC_F_BARRIER, ..blank_desc() }),
            is_barrier(desc),
    {
        proof {
            assert(1u16 & 1u16 != 0) by (bit_vector);
        }
        OrderDesc {
            record: 0,
            sequence: 0,
            payload_slot: 0,
            generation: 0,
            ingress_lane: 0,
            flags: DESC_F_BARRIER,
        }
    }

    /// The counters of the dispatcher; how often its thread was switched is for others to tell.
    pub fn finish(&self) -> (stats: ThreadStats)
        ensures
            stats == (ThreadStats {
                ops: self.ops,
                spins: self.spins,
                checksum: self.checksum,
                voluntary: 0,
                involuntary: 0,
            }),
    {
        ThreadStats {
            ops: self.ops,
            spins: self.spins,
            checksum: self.checksum,
            voluntary: 0,
            involuntary: 0,
        }
    }
}

/// The streams are closed only after every request was consumed and every round delivered.
pub proof fn law_dispatch_closes_after_all_requests(d: Dispatcher)
    requires
        d.wf(),
        d.step() == DispatchStep::Close,
    ensures
        d.expected == d.total + 1,
        d.ops == d.total,
        d.held@.len() == 0,
{
}

/// What goes to an owner in two rounds, one after the other, is what goes to it of both together:
/// dispatch never changes the order of an owner's work.
pub proof fn law_routing_keeps_order(
    first: Seq<OrderDesc>,
    second: Seq<OrderDesc>,
    lanes: u64,
    owner: u64,
)
    ensures
        routed(first + second, lanes, owner) == routed(first, lanes, owner) + routed(
            second,
            lanes,
            owner,
        ),
    decreases second.len(),
{
    if second.len() == 0 {
        assert(first + second =~= first);
        assert(routed(first, lanes, owner) + routed(second, lanes, owner) =~= routed(
            first,
            lanes,
            owner,
        ));
    } else {
        law_routing_keeps_order(first, second.drop_last(), lanes, owner);
        assert((first + second).drop_last() =~= first + second.drop_last());
        assert(routed(first + second, lanes, owner) =~= routed(first, lanes, owner) + routed(
            second,
            lanes,
            owner,
        ));
    }
}

/// Every descriptor goes to the owner of its record, and to no other.
pub proof fn law_routing_reaches_the_owner(batch: Seq<OrderDesc>, lanes: u64, owner: u64, i: int)
    requires
        lanes > 0,
        0 <= i < batch.len(),
    ensures
        routed(batch, lanes, batch[i].record % lanes).contains(batch[i]),
        forall|k: int|
            0 <= k < routed(batch, lanes, owner).len() ==> (#[trigger] routed(
                batch,
                lanes,
                owner,
            )[k]).record % lanes == owner,
    decreases batch.len(),
{
    let head = batch.drop_last();
    let mine = batch[i].record % lanes;
    if head.len() > 0 {
        law_routing_reaches_the_owner(
            head,
            lanes,
            owner,
            if i < head.len() {
                i
            } else {
                0
            },
        );
    }
    assert forall|k: int| 0 <= k < routed(batch, lanes, owner).len() implies (#[trigger] routed(
        batch,
        lanes,
        owner,
    )[k]).record % lanes == owner by {
        if k < routed(head, lanes, owner).len() {
            assert(routed(batch, lanes, owner)[k] == routed(head, lanes, owner)[k]);
        }
    }
    if i < head.len() {
        assert(head[i] == batch[i]);
        let k = choose|k: int|
            0 <= k < routed(head, lanes, mine).len() && routed(head, lanes, mine)[k] == batch[i];
        assert(routed(batch, lanes, mine)[k] == batch[i]);
    } else {
        assert(routed(batch, lanes, mine)[routed(head, lanes, mine).len() as int] == batch[i]);
    }
}

/// How the requests of an ingress lane get to the owners.
#[derive(Clone, Copy, Debug, PartialEq, Eq, Structural)]
pub enum Discipline {
    /// Straight, each over a ring of its own.
    OwnerMatrix,
    /// Through the dispatcher.
    OrderedDispatch,
}

/// What is said of a release whose slot has moved on.
pub open spec fn stale_text(discipline: Discipline, terminal: bool) -> Seq<char> {
    match discipline {
        Discipline::OwnerMatrix => if terminal {
            "owner-matrix stale terminal payload release"@
        } else {
            "owner-matrix stale payload release"@
        },
        Discipline::OrderedDispatch => if terminal {
            "ordered-dispatch stale terminal payload release"@
        } else {
            "ordered-dispatch stale payload release"@
        },
    }
}

/// What is said of a lane that did not get all slots back.
pub open spec fn leaked_text(discipline: Discipline) -> Seq<char> {
    match discipline {
        Discipline::OwnerMatrix => "owner-matrix leaked payload slots"@,
        Discipline::OrderedDispatch => "ordered-dispatch leaked payload slots"@,
    }
}

/// One ingress lane.
#[derive(Debug)]
pub struct Ingress {
    pub discipline: Discipline,
    pub lane: u16,
    pub lanes: u64,
    pub records: u64,
    pub hot_percent: u32,
    /// How many requests the lane sends.
    pub ops: u64,
    pub pool: SlotPool,
    pub random: u64,
    pub sent: u64,
    pub closed: bool,
    pub released: u64,
    pub cursor: u64,
    pub spins: u64,
    pub checksum: u64,
}

/// What an ingress lane does next.
#[derive(Clone, Copy, Debug, PartialEq, Eq, Structural)]
pub enum IngressStep {
    /// Look for a release from this owner.
    Poll { owner: u64 },
    /// Send the next request.
    Send,
    /// Send each owner the barrier that ends the lane's stream.
    Close,
    /// All slots are back.
    Finish,
}

impl Ingress {
    /// Whether the lane's slots are in order and it has a record and an owner to choose.
    pub open spec fn wf(&self) -> bool {
        &&& self.pool.wf()
        &&& self.records > 0
        &&& self.cursor < self.lanes
        &&& self.sent <= self.ops
    }

    /// A lane with all of its `window` slots free, which looks at the first owner first.
    pub fn new(
        discipline: Discipline,
        lane: u16,
        lanes: u64,
        records: u64,
        hot_percent: u32,
        window: u32,
        ops: u64,
    ) -> (i: Ingress)
        requires
            lanes > 0,
            records > 0,
        ensures
            i.wf(),
            i.pool.free@ == Seq::new(window as nat, |k: int| (window - 1 - k) as u32),
            i.pool.generations@ == Seq::new(window as nat, |k: int| 1u32),
            i == (Ingress {
                discipline,
                lane,
                lanes,
                records,
                hot_percent,
                ops,
                pool: i.pool,
                random: (match discipline {
                    Discipline::OwnerMatrix => OWNER_SEED,
                    Discipline::OrderedDispatch => DISPATCH_SEED,
                }) ^ (lane as u64),
                sent: 0,
                closed: false,
                released: 0,
                cursor: 0,
                spins: 0,
                checksum: 0,
            }),
    {
        let seed: u64 = match discipline {
            Discipline::OwnerMatrix => OWNER_SEED,
            Discipline::OrderedDispatch => DISPATCH_SEED,
        };
        Ingress {
            discipline,
            lane,
            lanes,
            records,
            hot_percent,
            ops,
            pool: SlotPool::new(window),
            random: seed ^ (lane as u64),
            sent: 0,
            closed: false,
            released: 0,
            cursor: 0,
            spins: 0,
            checksum: 0,
        }
    }

    /// What comes next. While requests are to be sent, releases are looked for only where no slot is
    /// free; then a lane that talks to the owners ends its streams, and waits for all slots.
    pub open spec fn step(&self) -> IngressStep {
        if self.sent < self.ops {
            if self.pool.free@.len() == 0 {
                IngressStep::Poll { owner: self.cursor }
            } else {
                IngressStep::Send
            }
        } else if self.discipline == Discipline::OwnerMatrix && !self.closed {
            IngressStep::Close
        } else if self.released != self.ops {
            IngressStep::Poll { owner: self.cursor }
        } else {
            IngressStep::Finish
        }
    }

    /// What comes next. The owner after one that is looked at is next then, and the streams are ended
    /// once.
    pub fn next_step(&mut self) -> (step: IngressStep)
        requires
            old(self).wf(),
        ensures
            final(self).wf(),
            step == old(self).step(),
            *final(self) == (Ingress {
                cursor: if step is Poll {
                    ((old(self).cursor + 1) % old(self).lanes as int) as u64
                } else {
                    old(self).cursor
                },
                closed: old(self).closed || step == IngressStep::Close,
                ..*old(self)
            }),
    {
        let poll: bool = if self.sent < self.ops {
            if self.pool.free.len() > 0 {
                return IngressStep::Send;
            }
            true
        } else {
            let direct: bool = match self.discipline {
                Discipline::OwnerMatrix => true,
                Discipline::OrderedDispatch => false,
            };
            if direct && !self.closed {
                self.closed = true;
                return IngressStep::Close;
            }
            self.released != self.ops
        };
        if !poll {
            return IngressStep::Finish;
        }
        let owner: u64 = self.cursor;
        self.cursor = (owner + 1) % self.lanes;
        IngressStep::Poll { owner }
    }

    /// The request that goes out next, under the given number.
    pub open spec fn request(&self, sequence: u64) -> OrderDesc {
        let slot = self.pool.free@.last();
        OrderDesc {
            record: chosen_record(self.random, self.records, self.hot_percent).0,
            sequence,
            payload_slot: slot,
            generation: self.pool.generations@[slot as int],
            ingress_lane: self.lane,
            flags: 0,
        }
    }

    /// Work for the next record, in a free slot, under a number that all lanes share.
    pub fn next_desc(&mut self, sequence: u64) -> (desc: OrderDesc)
        requires
            old(self).wf(),
            old(self).step() == IngressStep::Send,
        ensures
            final(self).wf(),
            desc == old(self).request(sequence),
            final(self).pool.free@ == old(self).pool.free@.drop_last(),
            final(self).pool.generations@ == old(self).pool.generations@,
            *final(self) == (Ingress {
                pool: final(self).pool,
                random: chosen_record(
                    old(self).random,
                    old(self).records,
                    old(self).hot_percent,
                ).1,
                sent: (old(self).sent + 1) as u64,
                ..*old(self)
            }),
    {
        let (slot, generation): (u32, u32) = self.pool.take();
        let record: u64 = next_record(&mut self.random, self.records, self.hot_percent);
        self.sent = self.sent + 1;
        OrderDesc {
            record,
            sequence,
            payload_slot: slot,
            generation,
            ingress_lane: self.lane,
            flags: 0,
        }
    }

    /// Work for the next record under the lane's own next number, and the owner that it goes to.
    pub fn next_direct(&mut self) -> (out: (u64, OrderDesc))
        requires
            old(self).wf(),
            old(self).step() == IngressStep::Send,
        ensures
            final(self).wf(),
            out.1 == old(self).request((old(self).sent + 1) as u64),
            out.0 == out.1.record % old(self).lanes,
            final(self).pool.free@ == old(self).pool.free@.drop_last(),
            final(self).pool.generations@ == old(self).pool.generations@,
            *final(self) == (Ingress {
                pool: final(self).pool,
                random: chosen_record(
                    old(self).random,
                    old(self).records,
                    old(self).hot_percent,
                ).1,
                sent: (old(self).sent + 1) as u64,
                ..*old(self)
            }),
    {
        let sequence: u64 = self.sent + 1;
        let desc: OrderDesc = self.next_desc(sequence);
        (desc.record % self.lanes, desc)
    }

    /// The descriptor that ends the lane's stream to an owner.
    pub fn last_desc(&self) -> (desc: OrderDesc)
        ensures
            desc == (OrderDesc {
                ingress_lane: self.lane,
                flags: DESC_F_BARRIER,
                ..blank_desc()
            }),
            is_barrier(desc),
    {
        proof {
            assert(1u16 & 1u16 != 0) by (bit_vector);
        }
        OrderDesc {
            record: 0,
            sequence: 0,
            payload_slot: 0,
            generation: 0,
            ingress_lane: self.lane,
            flags: DESC_F_BARRIER,
        }
    }

    /// Takes what was found of `owner`'s releases: nothing is counted as one idle look. After the last
    /// request releases go into the checksum.
    pub fn accept_release(&mut self, owner: u64, found: Option<ReleaseDesc>) -> (r: Result<
        (),
        Error,
    >)
        requires
            old(self).wf(),
            old(self).released < u64::MAX,
            old(self).spins < u64::MAX,
        ensures
            final(self).wf(),
            match found {
                None => r is Ok && *final(self) == (Ingress {
                    spins: (old(self).spins + 1) as u64,
                    ..*old(self)
                }),
                Some(release) => match r {
                    Ok(_) => {
                        &&& old(self).pool.current(release)
                        &&& final(self).pool.free@ == old(self).pool.free@.push(
                            release.payload_slot,
                        )
                        &&& final(self).pool.generations@ == old(self).pool.generations@.update(
                            release.payload_slot as int,
                            next_generation(release.generation),
                        )
                        &&& *final(self) == (Ingress {
                            pool: final(self).pool,
                            released: (old(self).released + 1) as u64,
                            checksum: if old(self).sent == old(self).ops {
                                old(self).checksum ^ crate::random::rotated(
                                    release.sequence,
                                    owner,
                                )
                            } else {
                                old(self).checksum
                            },
                            ..*old(self)
                        })
                    },
                    Err(e) => {
                        &&& !old(self).pool.current(release)
                        &&& *final(self) == *old(self)
                        &&& e@ == crate::error::bad_data(
                            stale_text(old(self).discipline, old(self).sent == old(self).ops),
                        )
                    },
                },
            },
    {
        let release: ReleaseDesc = match found {
            Some(release) => release,
            None => {
                self.spins = self.spins + 1;
                return Ok(());
            },
        };
        let terminal: bool = self.sent == self.ops;
        let stale: &str = match self.discipline {
            Discipline::OwnerMatrix => if terminal {
                "owner-matrix stale terminal payload release"
            } else {
                "owner-matrix stale payload release"
            },
            Discipline::OrderedDispatch => if terminal {
                "ordered-dispatch stale terminal payload release"
            } else {
                "ordered-dispatch stale payload release"
            },
        };
        match self.pool.give_back(release, stale) {
            Ok(_) => {},
            Err(e) => {
                return Err(e);
            },
        }
        self.released = self.released + 1;
        if terminal {
            self.checksum = self.checksum ^ rotate_left(release.sequence, owner);
        }
        Ok(())
    }

    /// The counters of a lane that got all slots back; how often its thread was switched is for others
    /// to tell.
    pub fn finish(&self) -> (r: Result<ThreadStats, Error>)
        ensures
            match r {
                Ok(stats) => self.pool.free@.len() == self.pool.generations@.len() && stats == (
                ThreadStats {
                    ops: self.ops,
                    spins: self.spins,
                    checksum: self.checksum,
                    voluntary: 0,
                    involuntary: 0,
                }),
                Err(e) => self.pool.free@.len() != self.pool.generations@.len() && e@
                    == crate::error::bad_data(leaked_text(self.discipline)),
            },
    {
        let leaked: &str = match self.discipline {
            Discipline::OwnerMatrix => "owner-matrix leaked payload slots",
            Discipline::OrderedDispatch => "ordered-dispatch leaked payload slots",
        };
        match self.pool.finish(leaked) {
            Ok(_) => Ok(
                ThreadStats {
                    ops: self.ops,
                    spins: self.spins,
                    checksum: self.checksum,
                    voluntary: 0,
                    involuntary: 0,
                },
            ),
            Err(e) => Err(e),
        }
    }
}

/// The counters of one worker.
#[derive(Clone, Copy, Debug)]
pub struct ThreadStats {
    pub ops: u64,
    pub spins: u64,
    pub checksum: u64,
    pub voluntary: u64,
    pub involuntary: u64,
}

/// The counters of a run.
#[derive(Clone, Copy, Debug)]
pub struct RunTotals {
    pub logical_ops: u64,
    pub spins: u64,
    pub checksum: u64,
    pub voluntary: u64,
    pub involuntary: u64,
}

/// The sum of one counter over workers.
pub open spec fn total_of(stats: Seq<ThreadStats>, counter: spec_fn(ThreadStats) -> u64) -> nat
    decreases stats.len(),
{
    if stats.len() == 0 {
        0
    } else {
        total_of(stats.drop_last(), counter) + counter(stats.last()) as nat
    }
}

/// The exclusive or of the checksums of workers.
pub open spec fn checksum_of(stats: Seq<ThreadStats>) -> u64
    decreases stats.len(),
{
    if stats.len() == 0 {
        0
    } else {
        checksum_of(stats.drop_last()) ^ stats.last().checksum
    }
}

/// The totals of workers.
pub open spec fn sums(stats: Seq<ThreadStats>, totals: RunTotals) -> bool {
    &&& totals.logical_ops == total_of(stats, |s: ThreadStats| s.ops)
    &&& totals.spins == total_of(stats, |s: ThreadStats| s.spins)
    &&& totals.voluntary == total_of(stats, |s: ThreadStats| s.voluntary)
    &&& totals.involuntary == total_of(stats, |s: ThreadStats| s.involuntary)
    &&& totals.checksum == checksum_of(stats)
}

/// Whether what the workers waited can be added up in 64 bits.
pub open spec fn waits_fit(stats: Seq<ThreadStats>) -> bool {
    &&& total_of(stats, |s: ThreadStats| s.spins) <= u64::MAX
    &&& total_of(stats, |s: ThreadStats| s.voluntary) <= u64::MAX
    &&& total_of(stats, |s: ThreadStats| s.involuntary) <= u64::MAX
}

/// Whether the counters of workers can be added up in 64 bits.
pub open spec fn sums_fit(stats: Seq<ThreadStats>) -> bool {
    total_of(stats, |s: ThreadStats| s.ops) <= u64::MAX && waits_fit(stats)
}

proof fn lemma_total_prefix(stats: Seq<ThreadStats>, counter: spec_fn(ThreadStats) -> u64, n: int)
    requires
        0 <= n <= stats.len(),
    ensures
        total_of(stats.subrange(0, n), counter) <= total_of(stats, counter),
    decreases stats.len(),
{
    if n < stats.len() {
        lemma_total_prefix(stats.drop_last(), counter, n);
        assert(stats.drop_last().subrange(0, n) =~= stats.subrange(0, n));
    } else {
        assert(stats.subrange(0, n) =~= stats);
    }
}

/// Adds up the counters of workers, unless there are too many operations to count.
pub fn checked_add_up(stats: &[ThreadStats]) -> (r: Option<RunTotals>)
    requires
        waits_fit(stats@),
    ensures
        match r {
            Some(totals) => sums(stats@, totals),
            None => total_of(stats@, |s: ThreadStats| s.ops) > u64::MAX,
        },
{
    let mut totals: RunTotals = RunTotals {
        logical_ops: 0,
        spins: 0,
        checksum: 0,
        voluntary: 0,
        involuntary: 0,
    };
    let mut i: usize = 0;
    proof {
        assert(stats@.subrange(0, 0) =~= Seq::<ThreadStats>::empty());
    }
    while i < stats.len()
        invariant
            i <= stats@.len(),
            waits_fit(stats@),
            sums(stats@.subrange(0, i as int), totals),
        decreases stats@.len() - i,
    {
        let s: ThreadStats = stats[i];
        proof {
            let grown = stats@.subrange(0, i + 1);
            assert(grown.drop_last() =~= stats@.subrange(0, i as int));
            assert(grown.last() == s);
            lemma_total_prefix(stats@, |s: ThreadStats| s.ops, i + 1);
            lemma_total_prefix(stats@, |s: ThreadStats| s.spins, i + 1);
            lemma_total_prefix(stats@, |s: ThreadStats| s.voluntary, i + 1);
            lemma_total_prefix(stats@, |s: ThreadStats| s.involuntary, i + 1);
        }
        totals.logical_ops = match totals.logical_ops.checked_add(s.ops) {
            Some(n) => n,
            None => {
                return None;
            },
        };
        totals.spins = totals.spins + s.spins;
        totals.checksum = totals.checksum ^ s.checksum;
        totals.voluntary = totals.voluntary + s.voluntary;
        totals.involuntary = totals.involuntary + s.involuntary;
        i = i + 1;
    }
    proof {
        assert(stats@.subrange(0, i as int) =~= stats@);
    }
    Some(totals)
}

/// Adds up the counters of workers.
pub fn add_up(stats: &[ThreadStats]) -> (totals: RunTotals)
    requires
        sums_fit(stats@),
    ensures
        sums(stats@, totals),
{
    match checked_add_up(stats) {
        Some(totals) => totals,
        None => RunTotals { logical_ops: 0, spins: 0, checksum: 0, voluntary: 0, involuntary: 0 },
    }
}

/// The text of a complaint that `done` operations were processed where `due` were expected.
pub open spec fn miscount(who: Seq<char>, done: nat, due: nat) -> Seq<char> {
    who + crate::text::decimal_text(done) + " operations, expected "@ + crate::text::decimal_text(
        due,
    )
}

fn miscounted(who: &str, done: u64, due: u64) -> (e: Error)
    ensures
        e@ == (ErrorKind::InvalidData, miscount(who@, done as nat, due as nat)),
{
    let a: String = decimal(done);
    let b: String = decimal(due);
    Error::new(
        ErrorKind::InvalidData,
        join4(who, a.as_str(), " operations, expected ", b.as_str()),
    )
}

/// Settles an ordered-dispatch run: the dispatcher and the owners have to have processed exactly
/// what the ingress lanes submitted.
pub fn run_ordered_dispatch(
    ingress: &[ThreadStats],
    dispatcher: ThreadStats,
    owners: &[ThreadStats],
) -> (r: Result<RunTotals, Error>)
    requires
        sums_fit(ingress@),
        dispatcher.ops == total_of(ingress@, |s: ThreadStats| s.ops) ==> {
            &&& total_of(owners@, |s: ThreadStats| s.ops) <= u64::MAX
            &&& waits_fit(ingress@ + seq![dispatcher] + owners@)
        },
    ensures
        ({
            let due = total_of(ingress@, |s: ThreadStats| s.ops);
            let done = total_of(owners@, |s: ThreadStats| s.ops);
            match r {
                Ok(totals) => {
                    &&& dispatcher.ops == due
                    &&& done == due
                    &&& totals.logical_ops == due
                    &&& totals.spins == total_of(ingress@, |s: ThreadStats| s.spins)
                        + dispatcher.spins + total_of(owners@, |s: ThreadStats| s.spins)
                    &&& totals.voluntary == total_of(ingress@, |s: ThreadStats| s.voluntary)
                        + dispatcher.voluntary + total_of(owners@, |s: ThreadStats| s.voluntary)
                    &&& totals.involuntary == total_of(ingress@, |s: ThreadStats| s.involuntary)
                        + dispatcher.involuntary + total_of(owners@, |s: ThreadStats| s.involuntary)
                    &&& totals.checksum == checksum_of(ingress@) ^ dispatcher.checksum
                        ^ checksum_of(owners@)
                },
                Err(e) => e@ == (
                    ErrorKind::InvalidData,
                    if dispatcher.ops != due {
                        miscount("ordered dispatcher processed "@, dispatcher.ops as nat, due)
                    } else {
                        miscount("ordered owners processed "@, done, due)
                    },
                ) && (dispatcher.ops != due || done != due),
            }
        }),
{
    let sent: RunTotals = add_up(ingress);
    if dispatcher.ops != sent.logical_ops {
        return Err(miscounted("ordered dispatcher processed ", dispatcher.ops, sent.logical_ops));
    }
    proof {
        let front = ingress@ + seq![dispatcher];
        lemma_total_concat(front, owners@, |s: ThreadStats| s.spins);
        lemma_total_concat(front, owners@, |s: ThreadStats| s.voluntary);
        lemma_total_concat(front, owners@, |s: ThreadStats| s.involuntary);
        assert(front.drop_last() =~= ingress@);
        assert(front.last() == dispatcher);
    }
    let owned: RunTotals = add_up(owners);
    if owned.logical_ops != sent.logical_ops {
        return Err(miscounted("ordered owners processed ", owned.logical_ops, sent.logical_ops));
    }
    Ok(
        RunTotals {
            logical_ops: sent.logical_ops,
            spins: sent.spins + dispatcher.spins + owned.spins,
            checksum: sent.checksum ^ dispatcher.checksum ^ owned.checksum,
            voluntary: sent.voluntary + dispatcher.voluntary + owned.voluntary,
            involuntary: sent.involuntary + dispatcher.involuntary + owned.involuntary,
        },
    )
}

proof fn lemma_total_concat(
    a: Seq<ThreadStats>,
    b: Seq<ThreadStats>,
    counter: spec_fn(ThreadStats) -> u64,
)
    ensures
        total_of(a + b, counter) == total_of(a, counter) + total_of(b, counter),
    decreases b.len(),
{
    if b.len() == 0 {
        assert(a + b =~= a);
    } else {
        lemma_total_concat(a, b.drop_last(), counter);
        assert((a + b).drop_last() =~= a + b.drop_last());
    }
}

/// Settles an owner-matrix run: the owners have to have processed exactly what the ingress lanes
/// submitted.
pub fn run_owner(ingress: &[ThreadStats], owners: &[ThreadStats]) -> (r: Result<RunTotals, Error>)
    requires
        sums_fit(ingress@),
        waits_fit(ingress@ + owners@),
    ensures
        ({
            let due = total_of(ingress@, |s: ThreadStats| s.ops);
            let done = total_of(owners@, |s: ThreadStats| s.ops);
            match r {
                Ok(totals) => {
                    &&& done == due
                    &&& totals.logical_ops == due
                    &&& totals.spins == total_of(ingress@, |s: ThreadStats| s.spins) + total_of(
                        owners@,
                        |s: ThreadStats| s.spins,
                    )
                    &&& totals.voluntary == total_of(ingress@, |s: ThreadStats| s.voluntary)
                        + total_of(owners@, |s: ThreadStats| s.voluntary)
                    &&& totals.involuntary == total_of(ingress@, |s: ThreadStats| s.involuntary)
                        + total_of(owners@, |s: ThreadStats| s.involuntary)
                    &&& totals.checksum == checksum_of(ingress@) ^ checksum_of(owners@)
                },
                Err(e) => if done > u64::MAX {
                    e@ == (ErrorKind::Other, "owner operation count overflow"@)
                } else {
                    done != due && e@ == (
                        ErrorKind::InvalidData,
                        miscount("owner-matrix processed "@, done, due),
                    )
                },
            }
        }),
{
    let sent: RunTotals = add_up(ingress);
    proof {
        lemma_total_concat(ingress@, owners@, |s: ThreadStats| s.spins);
        lemma_total_concat(ingress@, owners@, |s: ThreadStats| s.voluntary);
        lemma_total_concat(ingress@, owners@, |s: ThreadStats| s.involuntary);
    }
    let owned: RunTotals = match checked_add_up(owners) {
        Some(owned) => owned,
        None => {
            return Err(
                Error::new(ErrorKind::Other, "owner operation count overflow".to_string()),
            );
        },
    };
    if owned.logical_ops != sent.logical_ops {
        return Err(miscounted("owner-matrix processed ", owned.logical_ops, sent.logical_ops));
    }
    Ok(
        RunTotals {
            logical_ops: sent.logical_ops,
            spins: sent.spins + owned.spins,
            checksum: sent.checksum ^ owned.checksum,
            voluntary: sent.voluntary + owned.voluntary,
            involuntary: sent.involuntary + owned.involuntary,
        },
    )
}

/// The barriers that an owner has seen, one for each ingress lane.
#[derive(Debug)]
pub struct Barriers {
    pub seen: Vec<bool>,
    pub count: usize,
}

impl Barriers {
    /// Whether the count is that of the lanes with a barrier.
    pub open spec fn wf(&self) -> bool {
        self.count == crate::topology::scenario::count_true(self.seen@)
    }

    /// No lane has sent a barrier.
    pub fn new(lanes: usize) -> (b: Barriers)
        ensures
            b.wf(),
            b.seen@ == Seq::new(lanes as nat, |i: int| false),
            b.count == 0,
    {
        let mut seen: Vec<bool> = Vec::new();
        while seen.len() < lanes
            invariant
                seen@.len() <= lanes,
                seen@ == Seq::new(seen@.len(), |i: int| false),
                crate::topology::scenario::count_true(seen@) == 0,
            decreases lanes - seen@.len(),
        {
            let ghost before = seen@;
            seen.push(false);
            proof {
                assert(seen@.drop_last() =~= before);
                assert(seen@ =~= Seq::new(seen@.len(), |i: int| false));
            }
        }
        Barriers { seen, count: 0 }
    }

    /// Notes a barrier from `ingress`; a second one from the same lane changes nothing. Tells
    /// whether every lane has sent one.
    pub fn note(&mut self, ingress: usize) -> (all: bool)
        requires
            old(self).wf(),
            ingress < old(self).seen@.len(),
        ensures
            final(self).wf(),
            final(self).seen@ == old(self).seen@.update(ingress as int, true),
            all == (final(self).count == final(self).seen@.len()),
    {
        let lanes: usize = self.seen.len();
        if !self.seen[ingress] {
            proof {
                lemma_set_one(self.seen@, ingress as int);
                lemma_count_bound(self.seen@.update(ingress as int, true));
            }
            self.seen[ingress] = true;
            self.count = self.count + 1;
        } else {
            proof {
                assert(self.seen@.update(ingress as int, true) =~= self.seen@);
            }
        }
        self.count == lanes
    }
}

/// An owner of the matrix: it looks at one ingress lane after the other until each has ended its
/// stream.
#[derive(Debug)]
pub struct MatrixOwner {
    pub owner: Owner,
    pub barriers: Barriers,
    pub cursor: u64,
    pub spins: u64,
}

impl MatrixOwner {
    /// Whether the owner looks at one of the lanes and keeps a mark for each.
    pub open spec fn wf(&self) -> bool {
        &&& self.owner.wf()
        &&& self.barriers.wf()
        &&& self.barriers.seen@.len() == self.owner.lanes
        &&& self.cursor < self.owner.lanes
    }

    /// An owner that has seen no work and no end yet.
    pub fn new(owner: u64, lanes: u64, records: usize) -> (m: MatrixOwner)
        requires
            owner < lanes,
            lanes <= usize::MAX,
        ensures
            m.wf(),
            m.owner@ == (OwnerView {
                owner,
                lanes,
                latest: Seq::new(
                    records_per_owner(records as nat, lanes as nat),
                    |i: int| 0u64,
                ),
                ops: 0,
                checksum: 0,
            }),
            m.barriers.seen@ == Seq::new(lanes as nat, |i: int| false),
            m.barriers.count == 0,
            m.cursor == 0,
            m.spins == 0,
    {
        MatrixOwner {
            owner: Owner::new(owner, lanes, records),
            barriers: Barriers::new(lanes as usize),
            cursor: 0,
            spins: 0,
        }
    }

    /// The lane that is looked at next, and the one after it is next then; none where every lane has
    /// ended its stream.
    pub fn next_poll(&mut self) -> (ingress: Option<u64>)
        requires
            old(self).wf(),
        ensures
            final(self).wf(),
            match ingress {
                None => old(self).barriers.count == old(self).owner.lanes && *final(self) == *old(
                    self,
                ),
                Some(ingress) => {
                    &&& old(self).barriers.count != old(self).owner.lanes
                    &&& ingress == old(self).cursor
                    &&& *final(self) == (MatrixOwner {
                        cursor: ((old(self).cursor + 1) % old(self).owner.lanes as int) as u64,
                        ..*old(self)
                    })
                },
            },
    {
        if self.barriers.count as u64 == self.owner.lanes {
            return None;
        }
        let ingress: u64 = self.cursor;
        self.cursor = (ingress + 1) % self.owner.lanes;
        Some(ingress)
    }

    /// Takes what was found of `ingress`: nothing is counted as one idle look, a barrier ends the
    /// lane's stream, and work gives the release that goes back.
    pub fn take(&mut self, ingress: u64, found: Option<OrderDesc>) -> (r: Result<
        Option<ReleaseDesc>,
        Error,
    >)
        requires
            old(self).wf(),
            ingress < old(self).owner.lanes,
            old(self).spins < u64::MAX,
            old(self).owner.ops < u64::MAX,
            found matches Some(desc) ==> old(self).owner.places(desc),
        ensures
            final(self).wf(),
            match found {
                None => r == Ok::<Option<ReleaseDesc>, Error>(None) && *final(self) == (
                MatrixOwner { spins: (old(self).spins + 1) as u64, ..*old(self) }),
                Some(desc) => if is_barrier(desc) {
                    &&& r == Ok::<Option<ReleaseDesc>, Error>(None)
                    &&& final(self).barriers.seen@ == old(self).barriers.seen@.update(
                        ingress as int,
                        true,
                    )
                    &&& *final(self) == (MatrixOwner {
                        barriers: final(self).barriers,
                        ..*old(self)
                    })
                } else if desc.record % old(self).owner.lanes != old(self).owner.owner
                    || desc.ingress_lane != ingress {
                    &&& r is Err
                    &&& r->Err_0@ == crate::error::bad_data(
                        "owner-matrix descriptor topology mismatch"@,
                    )
                    &&& *final(self) == *old(self)
                } else {
                    &&& r == Ok::<Option<ReleaseDesc>, Error>(Some(release_of(desc)))
                    &&& final(self).owner@ == owned(old(self).owner@, desc)
                    &&& *final(self) == (MatrixOwner { owner: final(self).owner, ..*old(self) })
                },
            },
    {
        let desc: OrderDesc = match found {
            Some(desc) => desc,
            None => {
                self.spins = self.spins + 1;
                return Ok(None);
            },
        };
        if desc.flags & DESC_F_BARRIER != 0 {
            let lanes: usize = self.barriers.seen.len();
            assert(ingress < lanes);
            self.barriers.note(ingress as usize);
            return Ok(None);
        }
        match self.owner.take_direct(ingress, desc) {
            Ok(release) => Ok(Some(release)),
            Err(e) => Err(e),
        }
    }

    /// The counters of the owner; how often its thread was switched is for others to tell.
    pub fn finish(&self) -> (stats: ThreadStats)
        ensures
            stats == (ThreadStats {
                ops: self.owner.ops,
                spins: self.spins,
                checksum: self.owner.checksum,
                voluntary: 0,
                involuntary: 0,
            }),
    {
        ThreadStats {
            ops: self.owner.ops,
            spins: self.spins,
            checksum: self.owner.checksum,
            voluntary: 0,
            involuntary: 0,
        }
    }
}

proof fn lemma_count_bound(s: Seq<bool>)
    ensures
        crate::topology::scenario::count_true(s) <= s.len(),
    decreases s.len(),
{
    if s.len() > 0 {
        lemma_count_bound(s.drop_last());
    }
}

proof fn lemma_set_one(s: Seq<bool>, i: int)
    requires
        0 <= i < s.len(),
        !s[i],
    ensures
        crate::topology::scenario::count_true(s.update(i, true))
            == crate::topology::scenario::count_true(s) + 1,
    decreases s.len(),
{
    if i < s.len() - 1 {
        lemma_set_one(s.drop_last(), i);
        assert(s.update(i, true).drop_last() =~= s.drop_last().update(i, true));
    } else {
        assert(s.update(i, true).drop_last() =~= s.drop_last());
    }
}

/// What the latest-sequence table of a lane is after one access, with the checksum of the access.
/// The table is indexed by record; the access replaces what stood there by `sequence`.
pub fn touch_record(table: &mut Vec<u64>, record: u64, sequence: u64, checksum: u64) -> (next: u64)
    requires
        record < old(table)@.len(),
    ensures
        final(table)@ == old(table)@.update(record as int, sequence),
        next == checksum ^ crate::random::word_add(old(table)@[record as int], record),
{
    let places: usize = table.len();
    let at: usize = record as usize;
    let previous: u64 = table[at];
    table[at] = sequence;
    checksum ^ previous.wrapping_add(record)
}

/// The words for a run's result: what is known of payload slots, and the order that was kept.
pub open spec fn result_words(label: Seq<char>) -> (Seq<char>, Seq<char>) {
    if label == "global-atomic"@ {
        ("not-modeled"@, "global-submit+per-record-atomic"@)
    } else if label == "lane-local"@ {
        ("not-modeled"@, "lane-private-ceiling"@)
    } else if label == "owner-matrix"@ {
        ("exact"@, "stable-owner-arrival-unlinked-concurrent"@)
    } else if label == "ordered-dispatch"@ {
        ("exact"@, "global-submit-dispatch+stable-owner"@)
    } else {
        ("unknown"@, "unknown"@)
    }
}

/// The words for a run's result.
pub fn finish_result(label: &str) -> (words: (&'static str, &'static str))
    ensures
        (words.0@, words.1@) == result_words(label@),
{
    if crate::text::str_eq(label, "global-atomic") {
        ("not-modeled", "global-submit+per-record-atomic")
    } else if crate::text::str_eq(label, "lane-local") {
        ("not-modeled", "lane-private-ceiling")
    } else if crate::text::str_eq(label, "owner-matrix") {
        ("exact", "stable-owner-arrival-unlinked-concurrent")
    } else if crate::text::str_eq(label, "ordered-dispatch") {
        ("exact", "global-submit-dispatch+stable-owner")
    } else {
        ("unknown", "unknown")
    }
}

/// Each release answers the descriptor at its own place in the batch: it goes to the ingress lane that the
/// descriptor came from, and names the sequence number, the slot and the generation of the descriptor.
/// Only work is released, and of a batch that ends well all of the work is; what follows the work is then
/// barriers.
pub proof fn law_releases_answer_their_requests(v: OwnerView, batch: Seq<OrderDesc>)
    ensures
        ({
            let t = batch_taken(v, batch);
            &&& t.releases.len() <= batch.len()
            &&& forall|i: int|
                0 <= i < t.releases.len() ==> {
                    &&& (#[trigger] t.releases[i]).0 == batch[i].ingress_lane
                    &&& t.releases[i].1.sequence == batch[i].sequence
                    &&& t.releases[i].1.payload_slot == batch[i].payload_slot
                    &&& t.releases[i].1.generation == batch[i].generation
                    &&& !is_barrier(batch[i])
                }
            &&& t.end is Ok ==> forall|i: int|
                t.releases.len() <= i < batch.len() ==> is_barrier(#[trigger] batch[i])
            &&& t.end is Ok ==> t.end->Ok_0 == (t.releases.len() < batch.len())
        }),
    decreases batch.len(),
{
    if batch.len() > 0 {
        let head = batch.drop_last();
        law_releases_answer_their_requests(v, head);
        let t = batch_taken(v, batch);
        let u = batch_taken(v, head);
        assert(forall|j: int| 0 <= j < head.len() ==> #[trigger] head[j] == batch[j]);
        assert(batch[batch.len() - 1] == batch.last());
        assert forall|i: int| 0 <= i < t.releases.len() implies {
            &&& (#[trigger] t.releases[i]).0 == batch[i].ingress_lane
            &&& t.releases[i].1.sequence == batch[i].sequence
            &&& t.releases[i].1.payload_slot == batch[i].payload_slot
            &&& t.releases[i].1.generation == batch[i].generation
            &&& !is_barrier(batch[i])
        } by {
            if i < u.releases.len() {
                assert(t.releases[i] == u.releases[i]);
                assert(head[i] == batch[i]);
            }
        }
        if t.end is Ok {
            assert forall|i: int| t.releases.len() <= i < batch.len() implies is_barrier(
                #[trigger] batch[i],
            ) by {
                if i < head.len() {
                    assert(head[i] == batch[i]);
                }
            }
        }
    }
}

/// A batch is refused only for a reason: some descriptor that is no barrier comes after a barrier, belongs
/// to another owner, or has a sequence number that is not above the last one of its record.
pub proof fn law_batches_are_refused_for_a_reason(v: OwnerView, batch: Seq<OrderDesc>)
    requires
        v.lanes > 0,
        forall|i: int|
            0 <= i < batch.len() && !is_barrier(#[trigger] batch[i]) ==> batch[i].record / v.lanes
                < v.latest.len(),
    ensures
        batch_taken(v, batch).end is Err ==> exists|k: int|
            0 <= k < batch.len() && !is_barrier(#[trigger] batch[k]) && {
                ||| batch[k].record % v.lanes != v.owner
                ||| exists|j: int| 0 <= j < k && is_barrier(#[trigger] batch[j])
                ||| batch_taken(v, batch.subrange(0, k)).owner.latest[(batch[k].record
                    / v.lanes) as int] >= batch[k].sequence
            },
    decreases batch.len(),
{
    if batch.len() > 0 {
        let head = batch.drop_last();
        assert(forall|j: int| 0 <= j < head.len() ==> #[trigger] head[j] == batch[j]);
        law_batches_are_refused_for_a_reason(v, head);
        law_releases_answer_their_requests(v, head);
        law_owner_sequences_only_rise(v, head);
        let u = batch_taken(v, head);
        if u.end is Err {
            let k = choose|k: int|
                0 <= k < head.len() && !is_barrier(#[trigger] head[k]) && {
                    ||| head[k].record % v.lanes != v.owner
                    ||| exists|j: int| 0 <= j < k && is_barrier(#[trigger] head[j])
                    ||| batch_taken(v, head.subrange(0, k)).owner.latest[(head[k].record
                        / v.lanes) as int] >= head[k].sequence
                };
            assert(head.subrange(0, k) =~= batch.subrange(0, k));
            assert(batch[k] == head[k]);
            if exists|j: int| 0 <= j < k && is_barrier(#[trigger] head[j]) {
                let j = choose|j: int| 0 <= j < k && is_barrier(#[trigger] head[j]);
                assert(is_barrier(batch[j]));
            }
        } else if batch_taken(v, batch).end is Err {
            let k = batch.len() - 1;
            assert(batch.subrange(0, k) =~= head);
            assert(!is_barrier(batch[k]));
            if u.end->Ok_0 {
                let j = u.releases.len() as int;
                assert(head[j] == batch[j]);
                assert(is_barrier(batch[j]));
            }
        }
    }
}

/// The owner remembers of each record the sequence number of the last descriptor that it took, and nothing
/// changes for a record that no descriptor of the batch names.
pub proof fn law_owners_remember_the_last_sequence(v: OwnerView, batch: Seq<OrderDesc>, k: int)
    requires
        v.lanes > 0,
        0 <= k < v.latest.len(),
        forall|i: int|
            0 <= i < batch.len() && !is_barrier(#[trigger] batch[i]) ==> batch[i].record / v.lanes
                < v.latest.len(),
    ensures
        ({
            let t = batch_taken(v, batch);
            &&& (forall|i: int|
                0 <= i < t.releases.len() ==> (#[trigger] batch[i]).record / v.lanes != k)
                ==> t.owner.latest[k] == v.latest[k]
            &&& forall|i: int|
                0 <= i < t.releases.len() && (#[trigger] batch[i]).record / v.lanes == k && (forall|
                    j: int,
                |
                    i < j < t.releases.len() ==> (#[trigger] batch[j]).record / v.lanes != k)
                    ==> t.owner.latest[k] == batch[i].sequence
        }),
    decreases batch.len(),
{
    if batch.len() > 0 {
        let head = batch.drop_last();
        assert(forall|j: int| 0 <= j < head.len() ==> #[trigger] head[j] == batch[j]);
        law_owners_remember_the_last_sequence(v, head, k);
        law_owner_sequences_only_rise(v, head);
        law_releases_answer_their_requests(v, head);
        let t = batch_taken(v, batch);
        let u = batch_taken(v, head);
        let n = batch.len() - 1;
        if t.releases.len() == u.releases.len() {
            assert(t.owner == u.owner);
            assert forall|i: int|
                0 <= i < t.releases.len() && (#[trigger] batch[i]).record / v.lanes == k && (forall|
                    j: int,
                |
                    i < j < t.releases.len() ==> (#[trigger] batch[j]).record / v.lanes
                        != k) implies t.owner.latest[k] == batch[i].sequence by {
                assert(head[i] == batch[i]);
                assert forall|j: int| i < j < u.releases.len() implies (#[trigger] head[j]).record
                    / v.lanes != k by {
                    assert(head[j] == batch[j]);
                }
            }
            if forall|i: int| 0 <= i < t.releases.len() ==> (#[trigger] batch[i]).record / v.lanes != k {
                assert forall|i: int| 0 <= i < u.releases.len() implies (#[trigger] head[i]).record
                    / v.lanes != k by {
                    assert(head[i] == batch[i]);
                }
            }
        } else {
            assert(u.releases.len() == n);
            assert(batch[n] == batch.last());
            assert forall|i: int|
                0 <= i < t.releases.len() && (#[trigger] batch[i]).record / v.lanes == k && (forall|
                    j: int,
                |
                    i < j < t.releases.len() ==> (#[trigger] batch[j]).record / v.lanes
                        != k) implies t.owner.latest[k] == batch[i].sequence by {
                if i < n {
                    assert(head[i] == batch[i]);
                    assert(batch[n].record / v.lanes != k);
                    assert forall|j: int| i < j < u.releases.len() implies (#[trigger] head[j]).record
                        / v.lanes != k by {
                        assert(head[j] == batch[j]);
                    }
                }
            }
            if forall|i: int| 0 <= i < t.releases.len() ==> (#[trigger] batch[i]).record / v.lanes != k {
                assert(batch[n].record / v.lanes != k);
                assert forall|i: int| 0 <= i < u.releases.len() implies (#[trigger] head[i]).record
                    / v.lanes != k by {
                    assert(head[i] == batch[i]);
                }
            }
        }
    }
}

/// A descriptor is a barrier exactly where the lowest bit of its flags is set.
pub proof fn law_the_lowest_flag_marks_a_barrier(desc: OrderDesc)
    ensures
        is_barrier(desc) == (desc.flags % 2 == 1),
{
    let flags = desc.flags;
    assert((flags & 1u16 != 0) == (flags % 2 == 1)) by (bit_vector);
}

/// A request carries the lane that sends it, a free slot with the slot's present generation, and the given
/// sequence number; its release is then accepted once the slot is taken, and gives the slot back, so that
/// the lane has the free slots that it had before the request.
pub proof fn law_a_release_undoes_a_request(ingress: Ingress, sequence: u64, after: SlotPool)
    requires
        ingress.wf(),
        ingress.pool.free@.len() > 0,
        after.free@ == ingress.pool.free@.drop_last(),
        after.generations@ == ingress.pool.generations@,
    ensures
        ({
            let desc = ingress.request(sequence);
            let release = release_of(desc);
            &&& desc.ingress_lane == ingress.lane
            &&& desc.sequence == sequence
            &&& desc.record < ingress.records
            &&& !is_barrier(desc)
            &&& ingress.pool.free@.contains(desc.payload_slot)
            &&& release.sequence == sequence
            &&& after.current(release)
            &&& after.free@.push(release.payload_slot) == ingress.pool.free@
            &&& next_generation(release.generation) != release.generation
            &&& next_generation(release.generation) >= 1
        }),
{
    let desc = ingress.request(sequence);
    let free = ingress.pool.free@;
    law_the_lowest_flag_marks_a_barrier(desc);
    assert(free[free.len() - 1] == free.last());
    assert(free.last() < ingress.pool.generations@.len());
    assert(free.drop_last().push(free.last()) =~= free);
}

/// A round of the dispatcher goes on from where the last one ended, takes no more than a batch, and takes a
/// whole batch unless the requests end first.
pub proof fn law_a_round_takes_a_batch(expected: u64, batch: u64, total: u64)
    requires
        1 <= expected <= total,
        batch > 0,
        total < u64::MAX,
    ensures
        expected <= round_end(expected, batch, total) <= total,
        round_end(expected, batch, total) - expected < batch,
        round_end(expected, batch, total) < total ==> round_end(expected, batch, total) - expected + 1
            == batch,
{
}

/// What the dispatcher consumes from the ring is the requests in the order of their sequence numbers, none
/// left out and none twice.
pub proof fn law_requests_are_consumed_in_order(
    ring: Map<u64, OrderDesc>,
    from: int,
    middle: int,
    to: int,
)
    requires
        0 <= from <= middle <= to <= u64::MAX,
    ensures
        consumed(ring, from, to).len() == to - from,
        forall|s: u64| from <= s < to ==> consumed(ring, from, to)[s - from] == #[trigger] ring[s],
        consumed(ring, from, to) == consumed(ring, from, middle) + consumed(ring, middle, to),
{
    assert(consumed(ring, from, to) =~= consumed(ring, from, middle) + consumed(ring, middle, to));
}

/// Two requests of one owner stand in the owner's list in the order of the batch.
pub proof fn law_a_delivery_is_in_order(
    batch: Seq<OrderDesc>,
    lanes: u64,
    owner: u64,
    a: int,
    b: int,
)
    requires
        lanes > 0,
        0 <= a < b < batch.len(),
        batch[a].record % lanes == owner,
        batch[b].record % lanes == owner,
    ensures
        exists|i: int, j: int|
            0 <= i < j < routed(batch, lanes, owner).len() && #[trigger] routed(
                batch,
                lanes,
                owner,
            )[i] == batch[a] && #[trigger] routed(batch, lanes, owner)[j] == batch[b],
{
    let head = batch.subrange(0, b);
    let tail = batch.subrange(b, batch.len() as int);
    assert(head + tail =~= batch);
    law_routing_keeps_order(head, tail, lanes, owner);
    law_routing_reaches_the_owner(head, lanes, owner, a);
    law_routing_reaches_the_owner(tail, lanes, owner, 0);
    let h = routed(head, lanes, owner);
    let t = routed(tail, lanes, owner);
    assert(head[a] == batch[a]);
    assert(tail[0] == batch[b]);
    let i = choose|i: int| 0 <= i < h.len() && h[i] == batch[a];
    let j = choose|j: int| 0 <= j < t.len() && t[j] == batch[b];
    assert(routed(batch, lanes, owner) == h + t);
    assert(routed(batch, lanes, owner)[i] == batch[a]);
    assert(routed(batch, lanes, owner)[h.len() + j] == batch[b]);
}

/// A record is chosen below the number of records; with a hot share of all requests it is always the first.
pub proof fn law_chosen_records_are_within_reach(state: u64, records: u64, hot_percent: u32)
    requires
        records > 0,
    ensures
        chosen_record(state, records, hot_percent).0 < records,
        hot_percent >= 100 ==> chosen_record(state, records, hot_percent).0 == 0,
{
}

/// The counters of a run are the sums over its threads: two parts add up, and one thread counts as it is.
pub proof fn law_counters_add_up(
    first: Seq<ThreadStats>,
    second: Seq<ThreadStats>,
    counter: spec_fn(ThreadStats) -> u64,
    one: ThreadStats,
)
    ensures
        total_of(first + second, counter) == total_of(first, counter) + total_of(second, counter),
        total_of(seq![one], counter) == counter(one),
    decreases second.len(),
{
    reveal_with_fuel(total_of, 2);
    assert(seq![one].drop_last() =~= Seq::<ThreadStats>::empty());
    if second.len() == 0 {
        assert(first + second =~= first);
    } else {
        law_counters_add_up(first, second.drop_last(), counter, one);
        assert((first + second).drop_last() =~= first + second.drop_last());
    }
}

/// A request is delivered to the owner of its record once, and to no other owner.
pub proof fn law_a_request_is_delivered_once(desc: OrderDesc, lanes: u64, owner: u64)
    ensures
        routed(seq![desc], lanes, owner) == if desc.record % lanes == owner {
            seq![desc]
        } else {
            Seq::empty()
        },
{
    reveal_with_fuel(routed, 2);
    assert(seq![desc].drop_last() =~= Seq::<OrderDesc>::empty());
}

/// The checksums of all threads are combined into one, whichever way the threads are divided, and that of
/// one thread is its own.
pub proof fn law_checksums_are_combined(
    first: Seq<ThreadStats>,
    second: Seq<ThreadStats>,
    one: ThreadStats,
)
    ensures
        checksum_of(first + second) == checksum_of(first) ^ checksum_of(second),
        checksum_of(seq![one]) == one.checksum,
    decreases second.len(),
{
    reveal_with_fuel(checksum_of, 2);
    let own = one.checksum;
    assert(0u64 ^ own == own) by (bit_vector);
    assert(seq![one].drop_last() =~= Seq::<ThreadStats>::empty());
    let a = checksum_of(first);
    if second.len() == 0 {
        assert(first + second =~= first);
        assert(a ^ 0u64 == a) by (bit_vector);
    } else {
        law_checksums_are_combined(first, second.drop_last(), one);
        assert((first + second).drop_last() =~= first + second.drop_last());
        let b = checksum_of(second.drop_last());
        let c = second.last().checksum;
        assert((a ^ b) ^ c == a ^ (b ^ c)) by (bit_vector);
    }
}

/// What the dispatcher hands on in two batches has the checksum of both together, and each request tells
/// in it by its sequence and its owner.
pub proof fn law_the_dispatcher_sums_its_batches(
    checksum: u64,
    first: Seq<OrderDesc>,
    second: Seq<OrderDesc>,
    one: OrderDesc,
    lanes: u64,
)
    requires
        lanes > 0,
    ensures
        dispatch_checksum(checksum, first + second, lanes) == dispatch_checksum(
            dispatch_checksum(checksum, first, lanes),
            second,
            lanes,
        ),
        dispatch_checksum(checksum, seq![one], lanes) ^ checksum == crate::random::rotated(
            one.sequence,
            one.record % lanes,
        ),
    decreases second.len(),
{
    reveal_with_fuel(dispatch_checksum, 2);
    assert(seq![one].drop_last() =~= Seq::<OrderDesc>::empty());
    let turned = crate::random::rotated(one.sequence, one.record % lanes);
    assert((checksum ^ turned) ^ checksum == turned) by (bit_vector);
    if second.len() == 0 {
        assert(first + second =~= first);
    } else {
        law_the_dispatcher_sums_its_batches(checksum, first, second.drop_last(), one, lanes);
        assert((first + second).drop_last() =~= first + second.drop_last());
    }
}

/// An owner has a place for every record that falls to it, and no more places than that takes.
pub proof fn law_owners_have_a_place_for_each_record(records: nat, lanes: nat, record: nat)
    requires
        lanes > 0,
        record < records,
    ensures
        record / lanes < records_per_owner(records, lanes),
        (records_per_owner(records, lanes) - 1) * lanes < records,
{
    let (r, n, x) = (records as int, lanes as int, record as int);
    vstd::arithmetic::div_mod::lemma_fundamental_div_mod(r, n);
    vstd::arithmetic::div_mod::lemma_fundamental_div_mod(x, n);
    vstd::arithmetic::div_mod::lemma_mod_bound(r, n);
    vstd::arithmetic::div_mod::lemma_mod_bound(x, n);
    let (q, p) = (r / n, x / n);
    assert(n * q == q * n && n * p == p * n) by (nonlinear_arith);
    assert((q - 1) * n == q * n - n) by (nonlinear_arith);
    vstd::arithmetic::div_mod::lemma_div_pos_is_pos(r, n);
    if p > q {
        assert(p * n >= q * n + n) by (nonlinear_arith)
            requires
                p >= q + 1,
                n > 0,
        ;
    }
    if p == q {
        assert(p * n == q * n);
    }
}

} // verus!
