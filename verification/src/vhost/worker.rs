//! The worker of one queue: which requests take the asynchronous lane, and in what order a round
//! of the queue goes.
use vstd::prelude::*;
use vstd::string::*;

use crate::error::{invalid, Error};
use crate::vhost::regions::GuestRegions;
use crate::vhost::request::{
    parse_header, DescriptorMeta, RequestHeader, RequestKind, SECTOR_SIZE,
};
#[allow(unused_imports)]
use crate::error::Fault;

verus! {

/// The number of the first event that stands for completions of a lane.
pub const ARENA_CQ_EVENT_BASE: u16 = 65;

/// How many looks at an empty queue stand between two looks at the clock, less one.
pub const POLL_DEADLINE_SAMPLE_MASK: u32 = 255;

/// What an asynchronous lane can take.
#[derive(Clone, Copy, Debug, PartialEq, Eq, Structural)]
pub struct LaneShape {
    pub slot_bytes: u64,
    pub read_only: bool,
    /// Whether the lane goes over registered memory, else through an arena.
    pub direct: bool,
    pub writeback: bool,
    pub capacity_bytes: u64,
}

/// A request that takes the asynchronous lane.
#[derive(Clone, Copy, Debug, PartialEq, Eq, Structural)]
pub struct ArenaDataPlan {
    pub data: DescriptorMeta,
    pub data_host_address: u64,
    pub status_host_address: u64,
    pub offset: u64,
    pub kind: RequestKind,
}

/// Whether the header of a chain of three can be read and its status be written.
pub open spec fn ends_fit(header: DescriptorMeta, status: DescriptorMeta) -> bool {
    !header.writable && header.length >= 16 && status.writable && status.length > 0
}

/// Whether the header of a chain of three can be read and its status be written.
pub fn header_and_status_fit(header: DescriptorMeta, status: DescriptorMeta) -> (yes: bool)
    ensures
        yes == ends_fit(header, status),
{
    !header.writable && header.length >= 16 && status.writable && status.length != 0
}

/// Whether a lane takes a request of the given kind with the given data: a read into memory that the
/// device may write, or a write out of memory that it may not; of exactly one slot, or over
/// registered memory of at most one; and a write only where the lane may write and need not make it
/// durable first.
pub open spec fn lane_takes(shape: LaneShape, kind: RequestKind, data: DescriptorMeta) -> bool {
    &&& kind == RequestKind::Read || kind == RequestKind::Write
    &&& data.writable == (kind == RequestKind::Read)
    &&& if shape.direct {
        0 < data.length <= shape.slot_bytes
    } else {
        data.length == shape.slot_bytes
    }
    &&& kind == RequestKind::Write ==> !shape.read_only && (shape.direct || shape.writeback)
}

/// What a request with the given header becomes, which was read out of the descriptor `head`; nothing
/// where it does not take the lane.
pub open spec fn plan_of(
    regions: GuestRegions,
    shape: LaneShape,
    head: DescriptorMeta,
    header: RequestHeader,
    data: DescriptorMeta,
    status: DescriptorMeta,
) -> Result<Option<ArenaDataPlan>, Fault> {
    let offset = header.sector * 512;
    let alignment = if shape.direct {
        512
    } else {
        shape.slot_bytes as int
    };
    let first = crate::vhost::regions::region_for(
        regions.regions@,
        regions.last as int,
        data.address as int,
        data.length as int,
    );
    if !ends_fit(head, status) || !lane_takes(shape, header.kind, data) {
        Ok(None)
    } else if offset > u64::MAX {
        Err(crate::error::bad_input("sector offset overflow"@))
    } else if offset + data.length > u64::MAX {
        Err(crate::error::bad_input("request range overflow"@))
    } else if offset % alignment != 0 || offset + data.length > shape.capacity_bytes {
        Ok(None)
    } else if first is None {
        Ok(None)
    } else {
        match crate::vhost::regions::region_for(
            regions.regions@,
            first->0,
            status.address as int,
            1,
        ) {
            None => Ok(None),
            Some(second) => Ok(
                Some(
                    ArenaDataPlan {
                        data,
                        data_host_address: crate::vhost::regions::host_of(
                            regions.regions@[first->0],
                            data.address as int,
                        ) as u64,
                        status_host_address: crate::vhost::regions::host_of(
                            regions.regions@[second],
                            status.address as int,
                        ) as u64,
                        offset: offset as u64,
                        kind: header.kind,
                    },
                ),
            ),
        }
    }
}

/// The region that is remembered after the memory of a request was looked for. It is looked for only
/// where the request takes the lane and lies in the volume as the lane needs it.
pub open spec fn last_of(
    regions: GuestRegions,
    shape: LaneShape,
    head: DescriptorMeta,
    header: RequestHeader,
    data: DescriptorMeta,
    status: DescriptorMeta,
) -> int {
    let offset = header.sector * 512;
    let alignment = if shape.direct {
        512
    } else {
        shape.slot_bytes as int
    };
    let first = crate::vhost::regions::region_for(
        regions.regions@,
        regions.last as int,
        data.address as int,
        data.length as int,
    );
    if !ends_fit(head, status) || !lane_takes(shape, header.kind, data) || offset + data.length
        > u64::MAX || offset % alignment != 0 || offset + data.length > shape.capacity_bytes
        || first is None {
        regions.last as int
    } else {
        crate::vhost::regions::last_after(regions.regions@, first->0, status.address as int, 1)
    }
}

/// What a request becomes whose header has been read; nothing where it does not take the lane.
pub fn prepare_three_arena_plan(
    regions: &mut GuestRegions,
    shape: LaneShape,
    head: DescriptorMeta,
    header_bytes: &[u8; 16],
    data: DescriptorMeta,
    status: DescriptorMeta,
) -> (r: Result<Option<ArenaDataPlan>, Error>)
    requires
        old(regions).wf(),
        shape.direct || shape.slot_bytes > 0,
    ensures
        final(regions).wf(),
        final(regions).regions == old(regions).regions,
        final(regions).last == last_of(
            *old(regions),
            shape,
            head,
            crate::vhost::request::header_in(header_bytes@),
            data,
            status,
        ),
        crate::error::agrees(
            r,
            plan_of(
                *old(regions),
                shape,
                head,
                crate::vhost::request::header_in(header_bytes@),
                data,
                status,
            ),
        ),
{
    if !header_and_status_fit(head, status) {
        return Ok(None);
    }
    let header: RequestHeader = parse_header(header_bytes);
    let length: u64 = data.length as u64;
    let kind_fits: bool = match header.kind {
        RequestKind::Read => data.writable,
        RequestKind::Write => !data.writable && !shape.read_only && (shape.direct
            || shape.writeback),
        _ => false,
    };
    let length_fits: bool = if shape.direct {
        length != 0 && length <= shape.slot_bytes
    } else {
        length == shape.slot_bytes
    };
    if !kind_fits || !length_fits {
        return Ok(None);
    }
    let offset: u64 = match header.sector.checked_mul(SECTOR_SIZE) {
        Some(offset) => offset,
        None => {
            return Err(invalid("sector offset overflow"));
        },
    };
    let end: u64 = match offset.checked_add(length) {
        Some(end) => end,
        None => {
            return Err(invalid("request range overflow"));
        },
    };
    let alignment: u64 = if shape.direct {
        SECTOR_SIZE
    } else {
        shape.slot_bytes
    };
    if offset % alignment != 0 || end > shape.capacity_bytes {
        return Ok(None);
    }
    let data_host_address: u64 = match regions.guest_host_address(data.address, length) {
        Some(host) => host,
        None => {
            return Ok(None);
        },
    };
    let status_host_address: u64 = match regions.guest_host_address(status.address, 1) {
        Some(host) => host,
        None => {
            return Ok(None);
        },
    };
    Ok(
        Some(
            ArenaDataPlan { data, data_host_address, status_host_address, offset, kind: header.kind },
        ),
    )
}

/// What the descriptors of a request become: only a header, one piece of data and a status take the lane.
pub fn prepare_arena_plan(
    regions: &mut GuestRegions,
    shape: LaneShape,
    header_bytes: &[u8; 16],
    descriptors: &[DescriptorMeta],
) -> (r: Result<Option<ArenaDataPlan>, Error>)
    requires
        old(regions).wf(),
        shape.direct || shape.slot_bytes > 0,
    ensures
        final(regions).wf(),
        final(regions).regions == old(regions).regions,
        final(regions).last == if descriptors@.len() == 3 {
            last_of(
                *old(regions),
                shape,
                descriptors@[0],
                crate::vhost::request::header_in(header_bytes@),
                descriptors@[1],
                descriptors@[2],
            )
        } else {
            old(regions).last as int
        },
        crate::error::agrees(
            r,
            if descriptors@.len() == 3 {
                plan_of(
                    *old(regions),
                    shape,
                    descriptors@[0],
                    crate::vhost::request::header_in(header_bytes@),
                    descriptors@[1],
                    descriptors@[2],
                )
            } else {
                Ok(None)
            },
        ),
{
    if descriptors.len() != 3 {
        return Ok(None);
    }
    prepare_three_arena_plan(
        regions,
        shape,
        descriptors[0],
        header_bytes,
        descriptors[1],
        descriptors[2],
    )
}

/// A request that takes the lane has a header that can be read and a status that can be written,
/// moves bytes of the volume, and its first byte is aligned: to a sector over registered memory, else
/// to a slot.
pub proof fn law_planned_requests_stay_in_the_volume(
    regions: GuestRegions,
    shape: LaneShape,
    head: DescriptorMeta,
    header: RequestHeader,
    data: DescriptorMeta,
    status: DescriptorMeta,
    plan: ArenaDataPlan,
)
    requires
        plan_of(regions, shape, head, header, data, status) == Ok::<Option<ArenaDataPlan>, Fault>(
            Some(plan),
        ),
        shape.slot_bytes > 0,
    ensures
        plan.offset + plan.data.length <= shape.capacity_bytes,
        plan.data.length > 0,
        plan.data.length <= shape.slot_bytes,
        plan.kind == RequestKind::Write ==> !shape.read_only,
        plan.offset == header.sector * 512,
        !shape.direct ==> plan.offset % shape.slot_bytes == 0,
        ends_fit(head, status),
{
}

/// What the driver has published, as far as it was looked up.
#[derive(Clone, Copy, Debug, PartialEq, Eq, Structural)]
pub struct AvailCache {
    pub ring: u64,
    pub idx: u16,
    pub valid: bool,
}

/// The state of a split ring.
#[derive(Clone, Copy, Debug, PartialEq, Eq, Structural)]
pub struct RingState {
    pub ready: bool,
    pub size: u16,
    pub next_avail: u16,
    pub avail_ring: u64,
}

/// What has to be read next to find the head of a chain.
#[derive(Clone, Copy, Debug, PartialEq, Eq, Structural)]
pub enum FastNeed {
    /// The complete parser has to do it.
    Fallback,
    /// The published number lies at this host address.
    Index(u64),
    /// The published number is known.
    Known,
    /// Nothing was published.
    Empty,
    /// The number of the head lies at this host address.
    Head(u64),
}

/// The host address of two aligned bytes of guest memory, where there is one.
pub open spec fn even_host(regions: GuestRegions, address: int) -> Option<u64> {
    match crate::vhost::regions::region_for(regions.regions@, regions.last as int, address, 2) {
        None => None,
        Some(at) => {
            let host = crate::vhost::regions::host_of(regions.regions@[at], address) as u64;
            if address > u64::MAX || host % 2 != 0 {
                None
            } else {
                Some(host)
            }
        },
    }
}

/// Whether the number that the driver published has to be looked up again.
pub open spec fn stale(cache: AvailCache, ring: RingState) -> bool {
    !cache.valid || cache.ring != ring.avail_ring || cache.idx == ring.next_avail
}

/// Whether the number that the driver published has to be read, and where it lies.
pub fn prepare_arena_fast(ring: RingState, cache: AvailCache, regions: &mut GuestRegions) -> (r:
    FastNeed)
    requires
        old(regions).wf(),
    ensures
        final(regions).wf(),
        final(regions).regions == old(regions).regions,
        final(regions).last == if !ring.ready || ring.size == 0 || ring.avail_ring % 2 != 0 || !stale(
            cache,
            ring,
        ) {
            old(regions).last as int
        } else {
            crate::vhost::regions::last_after(
                old(regions).regions@,
                old(regions).last as int,
                ring.avail_ring + 2,
                2,
            )
        },
        r == if !ring.ready || ring.size == 0 || ring.avail_ring % 2 != 0 {
            FastNeed::Fallback
        } else if !stale(cache, ring) {
            FastNeed::Known
        } else {
            match even_host(*old(regions), ring.avail_ring + 2) {
                Some(host) => FastNeed::Index(host),
                None => FastNeed::Fallback,
            }
        },
{
    if !ring.ready || ring.size == 0 || ring.avail_ring % 2 != 0 {
        return FastNeed::Fallback;
    }
    if cache.valid && cache.ring == ring.avail_ring && cache.idx != ring.next_avail {
        return FastNeed::Known;
    }
    match ring.avail_ring.checked_add(2) {
        Some(address) => match regions.guest_host_address(address, 2) {
            Some(host) => if host % 2 == 0 {
                FastNeed::Index(host)
            } else {
                FastNeed::Fallback
            },
            None => FastNeed::Fallback,
        },
        None => FastNeed::Fallback,
    }
}

/// Where the number of the next head lies, once the published number `avail_idx` is known.
pub fn next_head(ring: RingState, avail_idx: u16, regions: &mut GuestRegions) -> (r: FastNeed)
    requires
        old(regions).wf(),
        ring.size > 0,
    ensures
        final(regions).wf(),
        final(regions).regions == old(regions).regions,
        final(regions).last == ({
            let available = (avail_idx - ring.next_avail) % 0x1_0000;
            if available == 0 || available > ring.size {
                old(regions).last as int
            } else {
                crate::vhost::regions::last_after(
                    old(regions).regions@,
                    old(regions).last as int,
                    ring.avail_ring + (ring.next_avail as int % ring.size as int) * 2 + 4,
                    2,
                )
            }
        }),
        ({
            let available = (avail_idx - ring.next_avail) % 0x1_0000;
            r == if available == 0 {
                FastNeed::Empty
            } else if available > ring.size {
                FastNeed::Fallback
            } else {
                match even_host(
                    *old(regions),
                    ring.avail_ring + (ring.next_avail as int % ring.size as int) * 2 + 4,
                ) {
                    Some(host) => FastNeed::Head(host),
                    None => FastNeed::Fallback,
                }
            }
        }),
{
    let available: u16 = avail_idx.wrapping_sub(ring.next_avail);
    if available == 0 {
        return FastNeed::Empty;
    }
    if available > ring.size {
        return FastNeed::Fallback;
    }
    let offset: u64 = (ring.next_avail % ring.size) as u64 * 2 + 4;
    match ring.avail_ring.checked_add(offset) {
        Some(address) => match regions.guest_host_address(address, 2) {
            Some(host) => if host % 2 == 0 {
                FastNeed::Head(host)
            } else {
                FastNeed::Fallback
            },
            None => FastNeed::Fallback,
        },
        None => FastNeed::Fallback,
    }
}

/// Where a round of a queue stands.
#[derive(Clone, Copy, Debug, PartialEq, Eq, Structural)]
pub enum Phase {
    Start,
    OldDrained,
    Refreshed,
    ReapFirst,
    Capacity,
    FullSubmit,
    FullWait,
    Fast,
    Queueing,
    Popping,
    Preparing,
    Draining { invalid: bool },
    Running,
    Adding,
    LastSubmit,
    LastWait,
    LastReap,
    Signal,
    Done,
}

/// A round of a queue.
#[derive(Clone, Copy, Debug, PartialEq, Eq, Structural)]
pub struct Round {
    pub phase: Phase,
    pub used_any: bool,
    /// Whether the queue has an asynchronous lane.
    pub lane: bool,
    /// Whether the lane is an arena.
    pub arena: bool,
    /// Whether completions of the lane raise events.
    pub completion_event: bool,
}

/// What came of the last action of a round.
#[derive(Clone, Copy, Debug, PartialEq, Eq, Structural)]
pub enum Seen {
    /// It was done.
    Done,
    /// Whether the memory table is another than the one in use, and how many requests are on their
    /// way.
    Memory { replaced: bool, outstanding: usize },
    /// Whether something was handed back to the driver.
    Used(bool),
    /// Whether the lane has room.
    Room(bool),
    /// The fast look at the ring found a request for the lane.
    FastPrepared,
    /// The fast look at the ring found nothing.
    FastEmpty,
    /// The ring has to be read with the complete parser.
    FastFallback,
    /// Whether there was a chain.
    Popped(bool),
    /// The chain is a request for the lane.
    DataPrepared,
    /// The chain has to be carried out at once.
    DataLoaded,
    /// The chain cannot be read.
    DataInvalid,
    /// Whether the chain could be handed back.
    Added(bool),
    /// How many requests are on their way.
    Outstanding(usize),
    /// Whether the driver asked to be notified, and how many requests are on their way.
    Notify { required: bool, outstanding: usize },
}

/// What a chain that was taken from the ring becomes. `loaded` says whether its descriptors could be
/// read, and `plan` what they became; a queue without a lane carries every chain out at once.
pub fn prepare_arena_data(lane: bool, loaded: bool, plan: &Option<ArenaDataPlan>) -> (seen: Seen)
    ensures
        seen == if lane && !loaded {
            Seen::DataInvalid
        } else if lane && plan is Some {
            Seen::DataPrepared
        } else {
            Seen::DataLoaded
        },
{
    if !lane {
        return Seen::DataLoaded;
    }
    if !loaded {
        return Seen::DataInvalid;
    }
    match plan {
        Some(_) => Seen::DataPrepared,
        None => Seen::DataLoaded,
    }
}

/// What a round does next.
#[derive(Clone, Copy, Debug, PartialEq, Eq, Structural)]
pub enum Action {
    /// Wait for all requests that are on their way.
    Drain,
    /// Take the new memory table.
    Refresh,
    /// Hand one completed request back, without waiting.
    RetireReady,
    /// Hand one completed request back, after waiting for it.
    RetireWait,
    /// Say whether the lane has room.
    AskRoom,
    /// Submit what was queued.
    Submit,
    /// Look at the ring.
    PrepareFast,
    /// Put the request on its way.
    QueuePrepared,
    /// Take a chain with the complete parser.
    Pop,
    /// See whether the chain takes the lane.
    PrepareData,
    /// Carry out a chain whose descriptors have been loaded.
    RunLoaded,
    /// Load and carry out a chain.
    RunChain,
    /// Count a chain that cannot be read.
    RefuseChain,
    /// Hand the chain back.
    AddUsed,
    /// Say how many requests are on their way.
    AskOutstanding,
    /// Say whether the driver asked to be notified.
    AskNotify,
    /// The round is over; whether the driver is notified, and whether it is only because nothing is
    /// on its way any more.
    Finish { signal: bool, forced: bool },
}

/// What can have come of the last action.
pub open spec fn expected(phase: Phase, seen: Seen) -> bool {
    match phase {
        Phase::Start => seen is Memory,
        Phase::OldDrained | Phase::ReapFirst | Phase::FullWait | Phase::Queueing | Phase::LastWait
        | Phase::LastReap => seen is Used,
        Phase::Draining { .. } => seen is Used,
        Phase::Refreshed | Phase::FullSubmit | Phase::Running => seen is Done,
        Phase::Capacity => seen is Room,
        Phase::Fast => seen is FastPrepared || seen is FastEmpty || seen is FastFallback,
        Phase::Popping => seen is Popped,
        Phase::Preparing => seen is DataPrepared || seen is DataLoaded || seen is DataInvalid,
        Phase::Adding => seen is Added,
        Phase::LastSubmit => seen is Outstanding,
        Phase::Signal => seen is Notify,
        Phase::Done => false,
    }
}

/// The round at the top of its loop.
pub open spec fn top(r: Round) -> (Round, Action) {
    if r.lane {
        (Round { phase: Phase::Capacity, ..r }, Action::AskRoom)
    } else {
        (Round { phase: Phase::Popping, ..r }, Action::Pop)
    }
}

/// The round with what the last action handed back.
pub open spec fn noting(r: Round, seen: Seen) -> Round {
    match seen {
        Seen::Used(used) => Round { used_any: r.used_any || used, ..r },
        Seen::Added(added) => Round { used_any: r.used_any || added, ..r },
        _ => r,
    }
}

/// How a round goes on.
pub open spec fn step(r: Round, seen: Seen) -> (Round, Action) {
    let n = noting(r, seen);
    match r.phase {
        Phase::Start => if seen is Memory && seen->replaced && seen->Memory_outstanding != 0 {
            (Round { phase: Phase::OldDrained, ..n }, Action::Drain)
        } else {
            (Round { phase: Phase::Refreshed, ..n }, Action::Refresh)
        },
        Phase::OldDrained => (Round { phase: Phase::Refreshed, ..n }, Action::Refresh),
        Phase::Refreshed => (Round { phase: Phase::ReapFirst, ..n }, Action::RetireReady),
        Phase::ReapFirst => if seen == Seen::Used(true) {
            (n, Action::RetireReady)
        } else {
            top(n)
        },
        Phase::Capacity => if seen == Seen::Room(true) {
            (Round { phase: Phase::Fast, ..n }, Action::PrepareFast)
        } else {
            (Round { phase: Phase::FullSubmit, ..n }, Action::Submit)
        },
        Phase::FullSubmit => (Round { phase: Phase::FullWait, ..n }, Action::RetireWait),
        Phase::FullWait => (Round { phase: Phase::Fast, ..n }, Action::PrepareFast),
        Phase::Fast => if seen == Seen::FastPrepared {
            (Round { phase: Phase::Queueing, ..n }, Action::QueuePrepared)
        } else if seen == Seen::FastEmpty {
            (Round { phase: Phase::LastSubmit, ..n }, Action::Submit)
        } else {
            (Round { phase: Phase::Popping, ..n }, Action::Pop)
        },
        Phase::Queueing => top(n),
        Phase::Popping => if seen == Seen::Popped(true) {
            if r.lane {
                (Round { phase: Phase::Preparing, ..n }, Action::PrepareData)
            } else {
                (Round { phase: Phase::Running, ..n }, Action::RunChain)
            }
        } else {
            (Round { phase: Phase::LastSubmit, ..n }, Action::Submit)
        },
        Phase::Preparing => if seen == Seen::DataPrepared {
            (Round { phase: Phase::Queueing, ..n }, Action::QueuePrepared)
        } else {
            (
                Round { phase: Phase::Draining { invalid: seen == Seen::DataInvalid }, ..n },
                Action::Drain,
            )
        },
        Phase::Draining { invalid } => (
            Round { phase: Phase::Running, ..n },
            if invalid {
                Action::RefuseChain
            } else {
                Action::RunLoaded
            },
        ),
        Phase::Running => (Round { phase: Phase::Adding, ..n }, Action::AddUsed),
        Phase::Adding => if seen == Seen::Added(true) {
            top(n)
        } else {
            (Round { phase: Phase::LastSubmit, ..n }, Action::Submit)
        },
        Phase::LastSubmit => if seen is Outstanding && seen->Outstanding_0 != 0 && !n.used_any
            && !r.completion_event {
            (Round { phase: Phase::LastWait, ..n }, Action::RetireWait)
        } else {
            (Round { phase: Phase::LastReap, ..n }, Action::RetireReady)
        },
        Phase::LastWait => (Round { phase: Phase::LastReap, ..n }, Action::RetireReady),
        Phase::LastReap => if seen == Seen::Used(true) {
            (n, Action::RetireReady)
        } else if n.used_any {
            (Round { phase: Phase::Signal, ..n }, Action::AskNotify)
        } else {
            (
                Round { phase: Phase::Done, ..n },
                Action::Finish { signal: false, forced: false },
            )
        },
        Phase::Signal => (
            Round { phase: Phase::Done, ..n },
            if seen is Notify {
                let idle = seen->Notify_outstanding == 0;
                Action::Finish {
                    signal: seen->required || idle,
                    forced: idle && !seen->required && r.arena,
                }
            } else {
                Action::Finish { signal: false, forced: false }
            },
        ),
        Phase::Done => (n, Action::Finish { signal: false, forced: false }),
    }
}

fn go(r: Round, phase: Phase, used: bool, action: Action) -> (next: (Round, Action))
    ensures
        next == (Round { phase, used_any: r.used_any || used, ..r }, action),
{
    (Round { phase, used_any: r.used_any || used, ..r }, action)
}

fn go_top(r: Round, used: bool) -> (next: (Round, Action))
    ensures
        next == top(Round { used_any: r.used_any || used, ..r }),
{
    if r.lane {
        go(r, Phase::Capacity, used, Action::AskRoom)
    } else {
        go(r, Phase::Popping, used, Action::Pop)
    }
}

/// Starts a round: the memory table is looked at first.
pub fn start_round(lane: bool, arena: bool, completion_event: bool) -> (r: Round)
    ensures
        r == (Round { phase: Phase::Start, used_any: false, lane, arena, completion_event }),
{
    Round { phase: Phase::Start, used_any: false, lane, arena, completion_event }
}

/// How a round goes on after what came of its last action.
pub fn process_queue(r: Round, seen: Seen) -> (next: (Round, Action))
    requires
        expected(r.phase, seen),
    ensures
        next == step(r, seen),
{
    let used: bool = match seen {
        Seen::Used(used) => used,
        Seen::Added(added) => added,
        _ => false,
    };
    match r.phase {
        Phase::Start => match seen {
            Seen::Memory { replaced, outstanding } => if replaced && outstanding != 0 {
                go(r, Phase::OldDrained, used, Action::Drain)
            } else {
                go(r, Phase::Refreshed, used, Action::Refresh)
            },
            _ => go(r, Phase::Refreshed, used, Action::Refresh),
        },
        Phase::OldDrained => go(r, Phase::Refreshed, used, Action::Refresh),
        Phase::Refreshed => go(r, Phase::ReapFirst, used, Action::RetireReady),
        Phase::ReapFirst => if used {
            go(r, Phase::ReapFirst, used, Action::RetireReady)
        } else {
            go_top(r, used)
        },
        Phase::Capacity => match seen {
            Seen::Room(true) => go(r, Phase::Fast, used, Action::PrepareFast),
            _ => go(r, Phase::FullSubmit, used, Action::Submit),
        },
        Phase::FullSubmit => go(r, Phase::FullWait, used, Action::RetireWait),
        Phase::FullWait => go(r, Phase::Fast, used, Action::PrepareFast),
        Phase::Fast => match seen {
            Seen::FastPrepared => go(r, Phase::Queueing, used, Action::QueuePrepared),
            Seen::FastEmpty => go(r, Phase::LastSubmit, used, Action::Submit),
            _ => go(r, Phase::Popping, used, Action::Pop),
        },
        Phase::Queueing => go_top(r, used),
        Phase::Popping => match seen {
            Seen::Popped(true) => if r.lane {
                go(r, Phase::Preparing, used, Action::PrepareData)
            } else {
                go(r, Phase::Running, used, Action::RunChain)
            },
            _ => go(r, Phase::LastSubmit, used, Action::Submit),
        },
        Phase::Preparing => match seen {
            Seen::DataPrepared => go(r, Phase::Queueing, used, Action::QueuePrepared),
            Seen::DataInvalid => go(r, Phase::Draining { invalid: true }, used, Action::Drain),
            _ => go(r, Phase::Draining { invalid: false }, used, Action::Drain),
        },
        Phase::Draining { invalid } => if invalid {
            go(r, Phase::Running, used, Action::RefuseChain)
        } else {
            go(r, Phase::Running, used, Action::RunLoaded)
        },
        Phase::Running => go(r, Phase::Adding, used, Action::AddUsed),
        Phase::Adding => if used {
            go_top(r, used)
        } else {
            go(r, Phase::LastSubmit, used, Action::Submit)
        },
        Phase::LastSubmit => match seen {
            Seen::Outstanding(n) => if n != 0 && !r.used_any && !r.completion_event {
                go(r, Phase::LastWait, used, Action::RetireWait)
            } else {
                go(r, Phase::LastReap, used, Action::RetireReady)
            },
            _ => go(r, Phase::LastReap, used, Action::RetireReady),
        },
        Phase::LastWait => go(r, Phase::LastReap, used, Action::RetireReady),
        Phase::LastReap => if used {
            go(r, Phase::LastReap, used, Action::RetireReady)
        } else if r.used_any {
            go(r, Phase::Signal, used, Action::AskNotify)
        } else {
            go(r, Phase::Done, used, Action::Finish { signal: false, forced: false })
        },
        Phase::Signal => match seen {
            Seen::Notify { required, outstanding } => {
                let idle: bool = outstanding == 0;
                go(
                    r,
                    Phase::Done,
                    used,
                    Action::Finish {
                        signal: required || idle,
                        forced: idle && !required && r.arena,
                    },
                )
            },
            _ => go(r, Phase::Done, used, Action::Finish { signal: false, forced: false }),
        },
        Phase::Done => go(r, Phase::Done, used, Action::Finish { signal: false, forced: false }),
    }
}

/// The order of requests is kept around one that is carried out at once: where the queue has a lane,
/// such a request is carried out only directly after everything on the lane was drained.
pub proof fn law_requests_keep_their_order(r: Round, seen: Seen)
    requires
        expected(r.phase, seen),
        step(r, seen).1 == Action::RunLoaded || step(r, seen).1 == Action::RefuseChain || (step(
            r,
            seen,
        ).1 == Action::RunChain && r.lane),
    ensures
        r.phase is Draining,
        forall|before: Round, s: Seen|
            expected(before.phase, s) && (#[trigger] step(before, s)).0.phase is Draining
                ==> step(before, s).1 == Action::Drain,
{
}

/// A driver that was handed something back is notified whenever nothing is left on its way, and one
/// that was handed nothing back is not.
pub proof fn law_idle_driver_is_notified(r: Round, seen: Seen)
    requires
        expected(r.phase, seen),
        step(r, seen).1 is Finish,
    ensures
        step(r, seen).1->signal ==> r.phase == Phase::Signal,
        r.phase == Phase::Signal && seen->Notify_outstanding == 0 ==> step(r, seen).1->signal,
        r.phase == Phase::Signal && seen->required ==> step(r, seen).1->signal,
        forall|before: Round, s: Seen|
            expected(before.phase, s) && (#[trigger] step(before, s)).0.phase == Phase::Signal
                ==> step(before, s).0.used_any,
{
}

/// What was handed back is never forgotten before the end of a round.
pub proof fn law_used_is_remembered(r: Round, seen: Seen)
    requires
        expected(r.phase, seen),
    ensures
        r.used_any ==> step(r, seen).0.used_any,
        seen == Seen::Used(true) ==> step(r, seen).0.used_any,
{
}

/// Whether the driver is notified after completed requests were handed back, and whether it is only
/// because nothing is on its way any more.
pub fn reap_arena_ready(used_any: bool, required: bool, outstanding: usize, arena: bool) -> (r: (
    bool,
    bool,
))
    ensures
        r.0 == (used_any && (required || outstanding == 0)),
        r.1 == (used_any && outstanding == 0 && !required && arena),
{
    let idle: bool = outstanding == 0;
    (used_any && (required || idle), used_any && idle && !required && arena)
}

/// Whether polling goes on after a look at the queue: it ends once a sampled empty look comes after
/// the time is over. Gives the number of empty looks too.
pub fn poll_queue(found: bool, empty_polls: u32, time_over: bool) -> (r: (bool, u32))
    ensures
        ({
            let looks: int = if found {
                0
            } else {
                (empty_polls + 1) % 0x1_0000_0000
            };
            r.1 == looks && r.0 == (found || looks % 256 != 0 || !time_over)
        }),
{
    if found {
        return (true, 0);
    }
    let looks: u32 = empty_polls.wrapping_add(1);
    (!(looks % (POLL_DEADLINE_SAMPLE_MASK + 1) == 0 && time_over), looks)
}

/// Whether an event is one that the worker of a queue handles.
pub open spec fn event_fault(
    event: u16,
    readable: bool,
    rings: nat,
    thread: nat,
    workers: nat,
) -> Option<Fault> {
    if !readable || (event != 0 && event != ARENA_CQ_EVENT_BASE + thread) || rings != 1 {
        Some(crate::error::bad_input("unexpected vhost event"@))
    } else if thread >= workers {
        Some(crate::error::bad_input("invalid queue worker"@))
    } else {
        None
    }
}

/// Whether an event is one that the worker of a queue handles.
pub fn check_event(event: u16, readable: bool, rings: usize, thread: usize, workers: usize) -> (r:
    Result<(), Error>)
    ensures
        match r {
            Ok(_) => event_fault(
                event,
                readable,
                rings as nat,
                thread as nat,
                workers as nat,
            ) is None,
            Err(e) => event_fault(
                event,
                readable,
                rings as nat,
                thread as nat,
                workers as nat,
            ) == Some(e@),
        },
{
    let completion: bool = event >= ARENA_CQ_EVENT_BASE && (event - ARENA_CQ_EVENT_BASE) as usize
        == thread;
    if !readable || (event != 0 && !completion) || rings != 1 {
        return Err(invalid("unexpected vhost event"));
    }
    if thread >= workers {
        return Err(invalid("invalid queue worker"));
    }
    Ok(())
}

/// Where the handling of an event stands: which action was the last.
#[derive(Clone, Copy, Debug, PartialEq, Eq, Structural)]
pub enum EventPhase {
    Start,
    Pinned,
    Started,
    Disarmed,
    Consumed,
    Ready,
    Disabled,
    Processed,
    Polled,
    Enabled,
    Counted,
    Cleared,
    Armed,
    Worked,
    Reaped,
    DisarmedAgain,
    Last,
    Done,
}

/// What the worker of a queue is set up for.
#[derive(Clone, Copy, Debug, PartialEq, Eq, Structural)]
pub struct EventSetup {
    pub pinned: bool,
    pub has_cpu: bool,
    pub completion_event: bool,
    pub event_idx: bool,
    pub poll: bool,
}

/// What is done next about an event.
#[derive(Clone, Copy, Debug, PartialEq, Eq, Structural)]
pub enum EventAction {
    /// Bind the thread to its processor.
    Pin,
    /// Start the lane.
    StartLane,
    /// Switch completion events off.
    Disarm,
    /// Clear the completion event.
    Consume,
    /// Run deferred work of the lane.
    RunTaskWork,
    /// Switch notifications by the driver off.
    DisableNotification,
    /// Run a round of the queue.
    Process,
    /// Run rounds until the queue stays empty.
    Poll,
    /// Switch notifications by the driver on again, and say whether more has come meanwhile.
    EnableNotification,
    /// Say whether requests are on their way.
    AskOutstanding,
    /// Switch completion events on.
    Arm,
    /// Hand completed requests back, and say whether there were any.
    Reap,
    /// The handling is over.
    Finish,
}

/// What is done once the lane runs and its event has been cleared.
pub open spec fn begin_queue(s: EventSetup) -> (EventPhase, EventAction) {
    if s.event_idx {
        (EventPhase::Disabled, EventAction::DisableNotification)
    } else {
        (EventPhase::Processed, EventAction::Process)
    }
}

/// What is done once the lane has been started.
pub open spec fn begin_event(s: EventSetup) -> (EventPhase, EventAction) {
    if s.completion_event {
        (EventPhase::Disarmed, EventAction::Disarm)
    } else {
        begin_queue(s)
    }
}

/// What is done once the queue has been handled.
pub open spec fn end_queue(s: EventSetup) -> (EventPhase, EventAction) {
    if s.completion_event {
        (EventPhase::Counted, EventAction::AskOutstanding)
    } else {
        (EventPhase::Done, EventAction::Finish)
    }
}

/// What is done once rounds have been run.
pub open spec fn after_rounds(s: EventSetup) -> (EventPhase, EventAction) {
    if s.event_idx {
        (EventPhase::Enabled, EventAction::EnableNotification)
    } else {
        end_queue(s)
    }
}

/// How the handling of an event goes on. `yes` is the answer where the last action asked for one.
pub open spec fn event_step(s: EventSetup, phase: EventPhase, yes: bool) -> (
    EventPhase,
    EventAction,
) {
    match phase {
        EventPhase::Start => if s.pinned {
            begin_event(s)
        } else if s.has_cpu {
            (EventPhase::Pinned, EventAction::Pin)
        } else {
            (EventPhase::Started, EventAction::StartLane)
        },
        EventPhase::Pinned => (EventPhase::Started, EventAction::StartLane),
        EventPhase::Started => begin_event(s),
        EventPhase::Disarmed => (EventPhase::Consumed, EventAction::Consume),
        EventPhase::Consumed => (EventPhase::Ready, EventAction::RunTaskWork),
        EventPhase::Ready => begin_queue(s),
        EventPhase::Disabled => (EventPhase::Processed, EventAction::Process),
        EventPhase::Processed => if s.poll {
            (EventPhase::Polled, EventAction::Poll)
        } else {
            after_rounds(s)
        },
        EventPhase::Polled => after_rounds(s),
        EventPhase::Enabled => if yes {
            (EventPhase::Disabled, EventAction::DisableNotification)
        } else {
            end_queue(s)
        },
        EventPhase::Counted => if yes {
            (EventPhase::Cleared, EventAction::Consume)
        } else {
            (EventPhase::Last, EventAction::Consume)
        },
        EventPhase::Cleared => (EventPhase::Armed, EventAction::Arm),
        EventPhase::Armed => (EventPhase::Worked, EventAction::RunTaskWork),
        EventPhase::Worked => (EventPhase::Reaped, EventAction::Reap),
        EventPhase::Reaped => if yes {
            (EventPhase::DisarmedAgain, EventAction::Disarm)
        } else {
            (EventPhase::Done, EventAction::Finish)
        },
        EventPhase::DisarmedAgain => (EventPhase::Counted, EventAction::AskOutstanding),
        EventPhase::Last => (EventPhase::Done, EventAction::Finish),
        EventPhase::Done => (EventPhase::Done, EventAction::Finish),
    }
}

/// How the handling of an event goes on. `yes` is the answer where the last action asked for one.
pub fn handle_event(s: EventSetup, phase: EventPhase, yes: bool) -> (r: (EventPhase, EventAction))
    ensures
        r == event_step(s, phase, yes),
{
    let queue: (EventPhase, EventAction) = if s.event_idx {
        (EventPhase::Disabled, EventAction::DisableNotification)
    } else {
        (EventPhase::Processed, EventAction::Process)
    };
    let begin: (EventPhase, EventAction) = if s.completion_event {
        (EventPhase::Disarmed, EventAction::Disarm)
    } else {
        queue
    };
    let end: (EventPhase, EventAction) = if s.completion_event {
        (EventPhase::Counted, EventAction::AskOutstanding)
    } else {
        (EventPhase::Done, EventAction::Finish)
    };
    let rounds: (EventPhase, EventAction) = if s.event_idx {
        (EventPhase::Enabled, EventAction::EnableNotification)
    } else {
        end
    };
    match phase {
        EventPhase::Start => if s.pinned {
            begin
        } else if s.has_cpu {
            (EventPhase::Pinned, EventAction::Pin)
        } else {
            (EventPhase::Started, EventAction::StartLane)
        },
        EventPhase::Pinned => (EventPhase::Started, EventAction::StartLane),
        EventPhase::Started => begin,
        EventPhase::Disarmed => (EventPhase::Consumed, EventAction::Consume),
        EventPhase::Consumed => (EventPhase::Ready, EventAction::RunTaskWork),
        EventPhase::Ready => queue,
        EventPhase::Disabled => (EventPhase::Processed, EventAction::Process),
        EventPhase::Processed => if s.poll {
            (EventPhase::Polled, EventAction::Poll)
        } else {
            rounds
        },
        EventPhase::Polled => rounds,
        EventPhase::Enabled => if yes {
            (EventPhase::Disabled, EventAction::DisableNotification)
        } else {
            end
        },
        EventPhase::Counted => if yes {
            (EventPhase::Cleared, EventAction::Consume)
        } else {
            (EventPhase::Last, EventAction::Consume)
        },
        EventPhase::Cleared => (EventPhase::Armed, EventAction::Arm),
        EventPhase::Armed => (EventPhase::Worked, EventAction::RunTaskWork),
        EventPhase::Worked => (EventPhase::Reaped, EventAction::Reap),
        EventPhase::Reaped => if yes {
            (EventPhase::DisarmedAgain, EventAction::Disarm)
        } else {
            (EventPhase::Done, EventAction::Finish)
        },
        EventPhase::DisarmedAgain => (EventPhase::Counted, EventAction::AskOutstanding),
        EventPhase::Last => (EventPhase::Done, EventAction::Finish),
        EventPhase::Done => (EventPhase::Done, EventAction::Finish),
    }
}

/// No completion is missed: where completions raise events and requests are left on their way, the
/// handling ends only after the events were switched on and a look for completions found none.
pub proof fn law_idle_lane_is_armed(s: EventSetup, phase: EventPhase, yes: bool)
    requires
        s.completion_event,
        event_step(s, phase, yes).1 == EventAction::Finish,
    ensures
        phase == EventPhase::Done || phase == EventPhase::Last || (phase == EventPhase::Reaped
            && !yes),
        forall|p: EventPhase, y: bool|
            (#[trigger] event_step(s, p, y)).0 == EventPhase::Last ==> p == EventPhase::Counted
                && !y,
        forall|p: EventPhase, y: bool|
            (#[trigger] event_step(s, p, y)).0 == EventPhase::Reaped ==> p == EventPhase::Worked,
        forall|p: EventPhase, y: bool|
            (#[trigger] event_step(s, p, y)).0 == EventPhase::Worked ==> p == EventPhase::Armed,
        forall|p: EventPhase, y: bool|
            (#[trigger] event_step(s, p, y)).0 == EventPhase::Armed ==> event_step(s, p, y).1
                == EventAction::Arm,
{
}

/// A plan moves the request's own bytes: its data and its status lie in the host where the regions that
/// hold them say.
pub proof fn law_plans_use_the_memory_of_the_request(
    regions: GuestRegions,
    shape: LaneShape,
    head: DescriptorMeta,
    header: RequestHeader,
    data: DescriptorMeta,
    status: DescriptorMeta,
    plan: ArenaDataPlan,
)
    requires
        regions.wf(),
        plan_of(regions, shape, head, header, data, status) == Ok::<Option<ArenaDataPlan>, Fault>(
            Some(plan),
        ),
    ensures
        plan.data == data,
        plan.kind == header.kind,
        plan.kind == RequestKind::Read || plan.kind == RequestKind::Write,
        plan.kind == RequestKind::Read ==> data.writable,
        plan.kind == RequestKind::Write ==> !data.writable,
        exists|i: int|
            {
                &&& 0 <= i < regions.regions@.len()
                &&& (#[trigger] regions.regions@[i]).guest_start <= data.address
                &&& data.address + data.length <= regions.regions@[i].guest_end
                &&& plan.data_host_address - regions.regions@[i].host_start == data.address
                    - regions.regions@[i].guest_start
            },
        exists|i: int|
            {
                &&& 0 <= i < regions.regions@.len()
                &&& (#[trigger] regions.regions@[i]).guest_start <= status.address
                &&& status.address < regions.regions@[i].guest_end
                &&& plan.status_host_address - regions.regions@[i].host_start == status.address
                    - regions.regions@[i].guest_start
            },
{
    let first = crate::vhost::regions::region_for(
        regions.regions@,
        regions.last as int,
        data.address as int,
        data.length as int,
    );
    crate::vhost::regions::law_addresses_keep_their_place(
        regions.regions@,
        regions.last as int,
        data.address as int,
        data.length as int,
        0,
    );
    crate::vhost::regions::law_addresses_keep_their_place(
        regions.regions@,
        first->0,
        status.address as int,
        1,
        0,
    );
    let second = crate::vhost::regions::region_for(
        regions.regions@,
        first->0,
        status.address as int,
        1,
    );
    let a = regions.regions@[first->0];
    let b = regions.regions@[second->0];
    assert(crate::vhost::regions::region_wf(a));
    assert(crate::vhost::regions::region_wf(b));
}

/// Every request that is taken from the ring is answered before the next one is taken: it is put on the
/// lane where it was prepared for it; otherwise it is run, or refused where it could not be read, and its
/// used entry is written. On a full lane, what is queued is submitted and waited for first.
pub proof fn law_taken_requests_are_answered(r: Round, seen: Seen)
    requires
        expected(r.phase, seen),
    ensures
        ({
            let (next, action) = step(r, seen);
            &&& r.phase == Phase::Popping && seen == Seen::Popped(true) ==> action == if r.lane {
                Action::PrepareData
            } else {
                Action::RunChain
            }
            &&& r.phase == Phase::Preparing && seen == Seen::DataPrepared ==> action
                == Action::QueuePrepared
            &&& r.phase == Phase::Preparing && seen != Seen::DataPrepared ==> action == Action::Drain
                && next.phase == (Phase::Draining { invalid: seen == Seen::DataInvalid })
            &&& r.phase matches Phase::Draining { invalid } ==> action == if invalid {
                Action::RefuseChain
            } else {
                Action::RunLoaded
            }
            &&& action == Action::RunChain || action == Action::RunLoaded || action
                == Action::RefuseChain ==> next.phase == Phase::Running
            &&& r.phase == Phase::Running ==> action == Action::AddUsed
            &&& r.phase == Phase::Capacity && seen == Seen::Room(false) ==> action == Action::Submit
                && next.phase == Phase::FullSubmit
            &&& r.phase == Phase::FullSubmit ==> action == Action::RetireWait
            &&& action == Action::PrepareFast ==> r.phase == Phase::FullWait || seen == Seen::Room(
                true,
            )
            &&& r.phase == Phase::Fast && seen == Seen::FastPrepared ==> action
                == Action::QueuePrepared
            &&& next.lane == r.lane && next.arena == r.arena && next.completion_event
                == r.completion_event
        }),
{
}

/// A round first drains what is under way in memory that was replaced, and then always reads the memory
/// table before it touches a request; it ends only once nothing more is ready.
pub proof fn law_rounds_begin_and_end_in_order(r: Round, seen: Seen)
    requires
        expected(r.phase, seen),
    ensures
        ({
            let (next, action) = step(r, seen);
            &&& r.phase == Phase::Start && seen->replaced && seen->Memory_outstanding > 0 ==> action
                == Action::Drain && next.phase == Phase::OldDrained
            &&& r.phase == Phase::Start && !(seen->replaced && seen->Memory_outstanding > 0)
                ==> action == Action::Refresh
            &&& r.phase == Phase::OldDrained ==> action == Action::Refresh
            &&& action == Action::Refresh ==> next.phase == Phase::Refreshed
            &&& next.phase == Phase::Done ==> r.phase == Phase::Signal || (r.phase == Phase::LastReap
                && seen == Seen::Used(false) && !r.used_any)
            &&& r.phase == Phase::LastReap && seen == Seen::Used(false) && r.used_any ==> action
                == Action::AskNotify
            &&& r.phase == Phase::LastReap && seen == Seen::Used(true) ==> action
                == Action::RetireReady
            &&& r.phase == Phase::LastSubmit && seen->Outstanding_0 > 0 && !r.used_any
                && !r.completion_event ==> action == Action::RetireWait
        }),
{
}

/// With event indexes, notifications are off while the queue is worked on, and they are on again, with
/// nothing left in the ring, before the event ends; a lane is started once before its first request.
pub proof fn law_notifications_are_restored(s: EventSetup, phase: EventPhase, yes: bool)
    ensures
        ({
            let (next, action) = event_step(s, phase, yes);
            &&& s.event_idx && action == EventAction::Process ==> phase == EventPhase::Disabled
            &&& next == EventPhase::Disabled ==> action == EventAction::DisableNotification
            &&& s.event_idx && phase == EventPhase::Processed ==> action == EventAction::Poll || action
                == EventAction::EnableNotification
            &&& s.event_idx && phase == EventPhase::Polled ==> action
                == EventAction::EnableNotification
            &&& phase == EventPhase::Processed && s.poll ==> action == EventAction::Poll
            &&& phase == EventPhase::Enabled && yes ==> action == EventAction::DisableNotification
            &&& phase == EventPhase::Start && !s.pinned ==> action == if s.has_cpu {
                EventAction::Pin
            } else {
                EventAction::StartLane
            }
            &&& phase == EventPhase::Pinned ==> action == EventAction::StartLane
            &&& phase == EventPhase::Reaped && yes ==> action == EventAction::Disarm
        }),
{
}

/// A request that a lane takes is planned, up to the very end of the volume, wherever its data and its
/// status lie in the memory of the guest.
pub proof fn law_fitting_requests_are_planned(
    regions: GuestRegions,
    shape: LaneShape,
    head: DescriptorMeta,
    header: RequestHeader,
    data: DescriptorMeta,
    status: DescriptorMeta,
    i: int,
    j: int,
)
    requires
        regions.wf(),
        !head.writable,
        head.length >= 16,
        status.writable,
        status.length > 0,
        (header.kind == RequestKind::Read && data.writable) || (header.kind == RequestKind::Write
            && !data.writable && !shape.read_only && (shape.direct || shape.writeback)),
        if shape.direct {
            1 <= data.length <= shape.slot_bytes
        } else {
            data.length == shape.slot_bytes && (header.sector * 512) % (shape.slot_bytes as int) == 0
        },
        header.sector * 512 + data.length <= shape.capacity_bytes,
        0 <= regions.last < regions.regions@.len(),
        0 <= i < regions.regions@.len(),
        regions.regions@[i].guest_start <= data.address,
        data.address + data.length <= regions.regions@[i].guest_end,
        0 <= j < regions.regions@.len(),
        regions.regions@[j].guest_start <= status.address,
        status.address + 1 <= regions.regions@[j].guest_end,
    ensures
        plan_of(regions, shape, head, header, data, status) matches Ok(Some(plan)) && plan.offset
            == header.sector * 512,
{
    crate::vhost::regions::law_every_held_range_is_found(
        regions.regions@,
        regions.last as int,
        data.address as int,
        data.length as int,
    );
    let first = crate::vhost::regions::region_for(
        regions.regions@,
        regions.last as int,
        data.address as int,
        data.length as int,
    );
    crate::vhost::regions::law_addresses_keep_their_place(
        regions.regions@,
        regions.last as int,
        data.address as int,
        data.length as int,
        0,
    );
    crate::vhost::regions::law_every_held_range_is_found(
        regions.regions@,
        first->0,
        status.address as int,
        1,
    );
}

} // verus!
