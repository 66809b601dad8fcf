//! How a lane retires its requests, and what it does when it is full.
use vstd::prelude::*;
use vstd::string::*;

use crate::error::{Error, ErrorKind};
use crate::text::{decimal, join3};
use crate::vhost::queue::{ArenaCompletionStats, ArenaQueue, DirectCompletionStats, DirectDataQueue};
use crate::vhost::request::{retire, virtio_need_event, RequestKind, Stats};
#[allow(unused_imports)]
use crate::vhost::queue::larger;
#[allow(unused_imports)]
use crate::vhost::request::Outcome;

verus! {

/// What became of a request that a lane over shared memory has completed: the number that the ring gave,
/// whether the buffer came back in time, whether a read could be copied to the guest, and whether the
/// buffer of a write could be handed back.
#[derive(Clone, Copy, Debug, PartialEq, Eq, Structural)]
pub struct ArenaResult {
    pub result: i32,
    pub reacquired: bool,
    pub copied: bool,
    pub handed_back: bool,
}

/// Whether a request that a lane over shared memory has completed was carried out.
pub open spec fn arena_done(kind: RequestKind, length: u32, r: ArenaResult) -> bool {
    let moved = r.result == length as i32;
    match kind {
        RequestKind::Read => moved && r.reacquired && r.copied,
        RequestKind::Write => moved && r.handed_back,
        _ => moved,
    }
}

/// What is still to be tried for a request of a lane over shared memory, once the ring gave its number:
/// the buffer of a read that moved everything is waited for and copied, that of a write is handed back.
#[derive(Clone, Copy, Debug, PartialEq, Eq, Structural)]
pub enum ArenaFollowup {
    Copy,
    HandBack,
    Nothing,
}

/// What is still to be tried for a request of a lane over shared memory.
pub fn arena_followup(kind: RequestKind, length: u32, result: i32) -> (f: ArenaFollowup)
    ensures
        f == match kind {
            RequestKind::Read => if result == length as i32 {
                ArenaFollowup::Copy
            } else {
                ArenaFollowup::Nothing
            },
            RequestKind::Write => ArenaFollowup::HandBack,
            _ => ArenaFollowup::Nothing,
        },
{
    match kind {
        RequestKind::Read => if result == length as i32 {
            ArenaFollowup::Copy
        } else {
            ArenaFollowup::Nothing
        },
        RequestKind::Write => ArenaFollowup::HandBack,
        _ => ArenaFollowup::Nothing,
    }
}

/// Counts a request that a lane over shared memory has completed, and gives its status and its length in
/// the used ring.
pub fn retire_arena_one(kind: RequestKind, length: u32, r: ArenaResult, stats: &mut Stats) -> (out: (
    u8,
    u32,
))
    requires
        kind == RequestKind::Read || kind == RequestKind::Write,
        old(stats).has_room(length as int),
    ensures
        out == crate::vhost::request::retired(kind, length, arena_done(kind, length, r)),
        *final(stats) == crate::vhost::request::counted(
            *old(stats),
            if arena_done(kind, length, r) {
                Outcome::Done { kind, len: length as u64 }
            } else {
                Outcome::Failed
            },
        ),
{
    let moved: bool = r.result == length as i32;
    let success: bool = match kind {
        RequestKind::Read => moved && r.reacquired && r.copied,
        RequestKind::Write => moved && r.handed_back,
        _ => moved,
    };
    retire(kind, length, success, stats)
}

/// Whether a request that a lane over registered memory has completed was carried out: a read was copied
/// to the guest, and a write is durable unless the device may hold it back.
pub open spec fn direct_done(kind: RequestKind, copied: bool, writeback: bool, flushed: bool) -> bool {
    match kind {
        RequestKind::Read => copied,
        RequestKind::Write => writeback || flushed,
        _ => true,
    }
}

/// Whether a write must be made durable before it is retired.
pub fn flushes_before_retiring(kind: RequestKind, writeback: bool) -> (yes: bool)
    ensures
        yes == (kind == RequestKind::Write && !writeback),
{
    kind == RequestKind::Write && !writeback
}

/// Counts a request that a lane over registered memory has completed, and gives its status and its length
/// in the used ring.
pub fn retire_direct_one(
    kind: RequestKind,
    length: u32,
    copied: bool,
    writeback: bool,
    flushed: bool,
    stats: &mut Stats,
) -> (out: (u8, u32))
    requires
        kind == RequestKind::Read || kind == RequestKind::Write,
        old(stats).has_room(length as int),
    ensures
        out == crate::vhost::request::retired(
            kind,
            length,
            direct_done(kind, copied, writeback, flushed),
        ),
        *final(stats) == crate::vhost::request::counted(
            *old(stats),
            if direct_done(kind, copied, writeback, flushed) {
                Outcome::Done { kind, len: length as u64 }
            } else {
                Outcome::Failed
            },
        ),
{
    let success: bool = match kind {
        RequestKind::Read => copied,
        RequestKind::Write => writeback || flushed,
        _ => true,
    };
    retire(kind, length, success, stats)
}

/// A write-through device does not show a write as done before it is durable.
pub proof fn law_write_through_waits_for_durability(length: u32, copied: bool, flushed: bool)
    requires
        !flushed,
    ensures
        !direct_done(RequestKind::Write, copied, false, flushed),
        crate::vhost::request::retired(
            RequestKind::Write,
            length,
            direct_done(RequestKind::Write, copied, false, flushed),
        ) == (crate::vhost::request::VIRTIO_BLK_S_IOERR, 0u32),
{
}

/// Whether the driver is told of used entries. `event` is the index at which it asked to be told, where
/// that could be read; without it, it is told once too often rather than not at all.
pub fn arena_needs_notification(event_idx: bool, event: Option<u16>, new_used: u16, old_used: u16) -> (yes:
    bool)
    ensures
        yes == (!event_idx || match event {
            Some(event) => crate::vhost::request::in_interval(event, new_used, old_used),
            None => true,
        }),
{
    if !event_idx {
        return true;
    }
    match event {
        Some(event) => virtio_need_event(event, new_used, old_used),
        None => true,
    }
}

/// What a lane does once a request could or could not be queued.
#[derive(Clone, Copy, Debug, PartialEq, Eq, Structural)]
pub enum Pressure {
    /// Go on.
    Queued,
    /// Drain what is on its way, let the device free its buffers where the lane has any, and try again.
    Drain { barrier: bool },
}

/// What a lane does once a request could or could not be queued; where it still could not after it was
/// drained, that is a failure.
pub fn queue_arena_with_pressure(queued: bool, drained: bool, arena: bool, lane: usize) -> (r: Result<
    Pressure,
    Error,
>)
    ensures
        match r {
            Ok(p) => p == if queued {
                Pressure::Queued
            } else {
                Pressure::Drain { barrier: arena }
            } && (queued || !drained),
            Err(e) => !queued && drained && e@ == (
                ErrorKind::WouldBlock,
                "vhost asynchronous lane "@ + crate::text::decimal_text(lane as nat)
                    + " remained full after draining completions"@,
            ),
        },
{
    if queued {
        return Ok(Pressure::Queued);
    }
    if !drained {
        return Ok(Pressure::Drain { barrier: arena });
    }
    let digits: String = decimal(lane as u64);
    Err(
        Error::new(
            ErrorKind::WouldBlock,
            join3(
                "vhost asynchronous lane ",
                digits.as_str(),
                " remained full after draining completions",
            ),
        ),
    )
}

/// What a lane does while it is drained.
#[derive(Clone, Copy, Debug, PartialEq, Eq, Structural)]
pub enum Drain {
    /// Retire one request, and wait for it.
    Wait,
    /// Retire one request that is ready, if any is.
    Poll,
    Done,
}

/// What a lane does next while it is drained, once everything was submitted: it waits for a request,
/// takes all that are ready by then, and so on until none is on its way. `last` is what it did last, and
/// whether a request was retired.
pub fn drain_arena(last: Option<(Drain, bool)>, outstanding: usize) -> (next: Drain)
    ensures
        next == match last {
            Some((Drain::Wait, _)) => Drain::Poll,
            Some((Drain::Poll, true)) => Drain::Poll,
            _ => if outstanding != 0 {
                Drain::Wait
            } else {
                Drain::Done
            },
        },
{
    match last {
        Some((Drain::Wait, _)) => Drain::Poll,
        Some((Drain::Poll, true)) => Drain::Poll,
        _ => if outstanding != 0 {
            Drain::Wait
        } else {
            Drain::Done
        },
    }
}

/// What came of a try to get a buffer.
#[derive(Clone, Copy, Debug, PartialEq, Eq, Structural)]
pub enum Probe {
    Got,
    Full,
    Failed,
}

/// What is to be done after such a try: a full arena is synchronised, which frees what was handed over,
/// and any other failure is passed on.
pub fn pressure_sync(probe: Probe) -> (r: Result<bool, ()>)
    ensures
        match r {
            Ok(sync) => sync == (probe == Probe::Full) && probe != Probe::Failed,
            Err(_) => probe == Probe::Failed,
        },
{
    match probe {
        Probe::Got => Ok(false),
        Probe::Full => Ok(true),
        Probe::Failed => Err(()),
    }
}

/// The asynchronous queue of a worker, if it has one.
#[derive(Debug)]
pub enum DataQueue {
    Arena(ArenaQueue),
    Direct(DirectDataQueue),
    Absent,
}

impl DataQueue {
    /// The lane of a queue from what its stage has opened for it, and whether its completions raise
    /// events: `completion_events` asks for them, and only a lane over shared memory has them.
    pub fn new(
        arena: Option<ArenaQueue>,
        direct: Option<DirectDataQueue>,
        completion_events: bool,
    ) -> (r: Result<(DataQueue, bool), Error>)
        ensures
            match r {
                Ok((queue, events)) => {
                    &&& match (arena, direct) {
                        (Some(a), None) => queue == DataQueue::Arena(a),
                        (None, Some(d)) => queue == DataQueue::Direct(d),
                        (None, None) => queue is Absent,
                        (Some(_), Some(_)) => false,
                    }
                    &&& events == (completion_events && arena is Some)
                },
                Err(e) => arena is Some && direct is Some && e@ == crate::error::bad_data(
                    "a vhost queue cannot have both block-arena and direct-OFI transports"@,
                ),
            },
    {
        match (arena, direct) {
            (Some(_), Some(_)) => Err(
                Error::of(
                    ErrorKind::InvalidData,
                    "a vhost queue cannot have both block-arena and direct-OFI transports",
                ),
            ),
            (Some(arena), None) => Ok((DataQueue::Arena(arena), completion_events)),
            (None, Some(direct)) => Ok((DataQueue::Direct(direct), false)),
            (None, None) => Ok((DataQueue::Absent, false)),
        }
    }

    /// Whether another request can go out; where there is no queue, nothing holds it back. The slots
    /// of a direct lane are those of its transport: `transport_has_capacity` is what that says.
    pub fn async_data_has_capacity(&self, transport_has_capacity: bool) -> (yes: bool)
        ensures
            yes == match self {
                DataQueue::Arena(q) => q.free@.len() > 0,
                DataQueue::Direct(_) => transport_has_capacity,
                DataQueue::Absent => true,
            },
    {
        match self {
            DataQueue::Arena(q) => q.has_capacity(),
            DataQueue::Direct(_) => transport_has_capacity,
            DataQueue::Absent => true,
        }
    }

    /// Whether the counts of ring entries can still grow.
    pub open spec fn counts_entries(&self) -> bool {
        match self {
            DataQueue::Arena(q) => q.stats.direct_avail_entries < u64::MAX
                && q.stats.direct_used_entries < u64::MAX,
            DataQueue::Direct(q) => q.stats.direct_avail_entries < u64::MAX
                && q.stats.direct_used_entries < u64::MAX,
            DataQueue::Absent => true,
        }
    }

    /// Counts a head that was taken from the available ring without the complete parser.
    pub fn note_avail_entry(&mut self)
        requires
            old(self).counts_entries(),
        ensures
            match *old(self) {
                DataQueue::Arena(q) => *final(self) == DataQueue::Arena(
                    (ArenaQueue {
                        stats: ArenaCompletionStats {
                            direct_avail_entries: (q.stats.direct_avail_entries + 1) as u64,
                            ..q.stats
                        },
                        ..q
                    }),
                ),
                DataQueue::Direct(q) => *final(self) == DataQueue::Direct(
                    (DirectDataQueue {
                        stats: DirectCompletionStats {
                            direct_avail_entries: (q.stats.direct_avail_entries + 1) as u64,
                            ..q.stats
                        },
                        ..q
                    }),
                ),
                DataQueue::Absent => *final(self) is Absent,
            },
    {
        match self {
            DataQueue::Arena(q) => {
                q.stats.direct_avail_entries = q.stats.direct_avail_entries + 1;
            },
            DataQueue::Direct(q) => {
                q.stats.direct_avail_entries = q.stats.direct_avail_entries + 1;
            },
            DataQueue::Absent => {},
        }
    }

    /// Counts an entry that was put into the used ring where it lies.
    pub fn note_used_entry(&mut self)
        requires
            old(self).counts_entries(),
        ensures
            match *old(self) {
                DataQueue::Arena(q) => *final(self) == DataQueue::Arena(
                    (ArenaQueue {
                        stats: ArenaCompletionStats {
                            direct_used_entries: (q.stats.direct_used_entries + 1) as u64,
                            ..q.stats
                        },
                        ..q
                    }),
                ),
                DataQueue::Direct(q) => *final(self) == DataQueue::Direct(
                    (DirectDataQueue {
                        stats: DirectCompletionStats {
                            direct_used_entries: (q.stats.direct_used_entries + 1) as u64,
                            ..q.stats
                        },
                        ..q
                    }),
                ),
                DataQueue::Absent => *final(self) is Absent,
            },
    {
        match self {
            DataQueue::Arena(q) => {
                q.stats.direct_used_entries = q.stats.direct_used_entries + 1;
            },
            DataQueue::Direct(q) => {
                q.stats.direct_used_entries = q.stats.direct_used_entries + 1;
            },
            DataQueue::Absent => {},
        }
    }

    /// How many requests are on their way.
    pub fn arena_outstanding(&self) -> (n: usize)
        requires
            self matches DataQueue::Arena(q) ==> q.wf(),
        ensures
            n == match self {
                DataQueue::Arena(q) => q.out(),
                DataQueue::Direct(q) => q.outstanding as int,
                DataQueue::Absent => 0,
            },
    {
        match self {
            DataQueue::Arena(q) => q.outstanding(),
            DataQueue::Direct(q) => q.outstanding,
            DataQueue::Absent => 0,
        }
    }
}

fn max_of(a: u64, b: u64) -> (m: u64)
    ensures
        m == larger(a as int, b as int),
{
    if a >= b {
        a
    } else {
        b
    }
}

/// Nothing seen yet.
pub open spec fn no_arena_stats() -> ArenaCompletionStats {
    ArenaCompletionStats {
        submit_calls: 0,
        submitted_requests: 0,
        submit_batch_max: 0,
        outstanding_max: 0,
        wait_calls: 0,
        wait_cqes: 0,
        wait_batch_max: 0,
        wait_cq_head_publications: 0,
        ready_batch_publications: 0,
        ready_batched_cqes: 0,
        ready_batch_max: 0,
        direct_used_entries: 0,
        direct_avail_entries: 0,
        completion_event_wakes: 0,
        completion_event_cqes: 0,
        completion_event_arms: 0,
        completion_event_disarms: 0,
        completion_event_task_runs: 0,
        forced_idle_notifications: 0,
    }
}

/// What the lanes over shared memory have seen together.
pub open spec fn arena_completion_stats_of(list: Seq<ArenaCompletionStats>) -> ArenaCompletionStats
    decreases list.len(),
{
    if list.len() == 0 {
        no_arena_stats()
    } else {
        let t = arena_completion_stats_of(list.drop_last());
        let s = list.last();
        ArenaCompletionStats {
            submit_calls: (t.submit_calls + s.submit_calls) as u64,
            submitted_requests: (t.submitted_requests + s.submitted_requests) as u64,
            submit_batch_max: larger(t.submit_batch_max as int, s.submit_batch_max as int),
            outstanding_max: larger(t.outstanding_max as int, s.outstanding_max as int),
            wait_calls: (t.wait_calls + s.wait_calls) as u64,
            wait_cqes: (t.wait_cqes + s.wait_cqes) as u64,
            wait_batch_max: larger(t.wait_batch_max as int, s.wait_batch_max as int),
            wait_cq_head_publications: (t.wait_cq_head_publications + s.wait_cq_head_publications) as u64,
            ready_batch_publications: (t.ready_batch_publications + s.ready_batch_publications) as u64,
            ready_batched_cqes: (t.ready_batched_cqes + s.ready_batched_cqes) as u64,
            ready_batch_max: larger(t.ready_batch_max as int, s.ready_batch_max as int),
            direct_used_entries: (t.direct_used_entries + s.direct_used_entries) as u64,
            direct_avail_entries: (t.direct_avail_entries + s.direct_avail_entries) as u64,
            completion_event_wakes: (t.completion_event_wakes + s.completion_event_wakes) as u64,
            completion_event_cqes: (t.completion_event_cqes + s.completion_event_cqes) as u64,
            completion_event_arms: (t.completion_event_arms + s.completion_event_arms) as u64,
            completion_event_disarms: (t.completion_event_disarms + s.completion_event_disarms) as u64,
            completion_event_task_runs: (t.completion_event_task_runs + s.completion_event_task_runs) as u64,
            forced_idle_notifications: (t.forced_idle_notifications + s.forced_idle_notifications) as u64,
        }
    }
}

/// Whether what some lanes have seen can be added up.
pub open spec fn arena_completion_stats_fit(list: Seq<ArenaCompletionStats>) -> bool
    decreases list.len(),
{
    list.len() > 0 ==> {
        let t = arena_completion_stats_of(list.drop_last());
        let s = list.last();
        &&& arena_completion_stats_fit(list.drop_last())
        &&& t.submit_calls + s.submit_calls <= u64::MAX
        &&& t.submitted_requests + s.submitted_requests <= u64::MAX
        &&& t.wait_calls + s.wait_calls <= u64::MAX
        &&& t.wait_cqes + s.wait_cqes <= u64::MAX
        &&& t.wait_cq_head_publications + s.wait_cq_head_publications <= u64::MAX
        &&& t.ready_batch_publications + s.ready_batch_publications <= u64::MAX
        &&& t.ready_batched_cqes + s.ready_batched_cqes <= u64::MAX
        &&& t.direct_used_entries + s.direct_used_entries <= u64::MAX
        &&& t.direct_avail_entries + s.direct_avail_entries <= u64::MAX
        &&& t.completion_event_wakes + s.completion_event_wakes <= u64::MAX
        &&& t.completion_event_cqes + s.completion_event_cqes <= u64::MAX
        &&& t.completion_event_arms + s.completion_event_arms <= u64::MAX
        &&& t.completion_event_disarms + s.completion_event_disarms <= u64::MAX
        &&& t.completion_event_task_runs + s.completion_event_task_runs <= u64::MAX
        &&& t.forced_idle_notifications + s.forced_idle_notifications <= u64::MAX
    }
}

proof fn lemma_arena_completion_stats_prefix(list: Seq<ArenaCompletionStats>, n: int)
    requires
        0 <= n <= list.len(),
        arena_completion_stats_fit(list),
    ensures
        arena_completion_stats_fit(list.subrange(0, n)),
    decreases list.len() - n,
{
    if n < list.len() {
        lemma_arena_completion_stats_prefix(list, n + 1);
        assert(list.subrange(0, n + 1).drop_last() =~= list.subrange(0, n));
    } else {
        assert(list.subrange(0, n) =~= list);
    }
}

/// What the lanes over shared memory have seen together.
pub fn arena_completion_stats(list: &Vec<ArenaCompletionStats>) -> (total: ArenaCompletionStats)
    requires
        arena_completion_stats_fit(list@),
    ensures
        total == arena_completion_stats_of(list@),
{
    let mut t: ArenaCompletionStats = ArenaCompletionStats {
        submit_calls: 0,
        submitted_requests: 0,
        submit_batch_max: 0,
        outstanding_max: 0,
        wait_calls: 0,
        wait_cqes: 0,
        wait_batch_max: 0,
        wait_cq_head_publications: 0,
        ready_batch_publications: 0,
        ready_batched_cqes: 0,
        ready_batch_max: 0,
        direct_used_entries: 0,
        direct_avail_entries: 0,
        completion_event_wakes: 0,
        completion_event_cqes: 0,
        completion_event_arms: 0,
        completion_event_disarms: 0,
        completion_event_task_runs: 0,
        forced_idle_notifications: 0,
    };
    let mut i: usize = 0;
    proof {
        assert(list@.subrange(0, 0) =~= Seq::<ArenaCompletionStats>::empty());
    }
    while i < list.len()
        invariant
            i <= list@.len(),
            arena_completion_stats_fit(list@),
            t == arena_completion_stats_of(list@.subrange(0, i as int)),
        decreases list@.len() - i,
    {
        proof {
            lemma_arena_completion_stats_prefix(list@, i + 1);
            assert(list@.subrange(0, i + 1).drop_last() =~= list@.subrange(0, i as int));
            assert(list@.subrange(0, i + 1).last() == list@[i as int]);
        }
        let s: ArenaCompletionStats = list[i];
        t = ArenaCompletionStats {
            submit_calls: t.submit_calls + s.submit_calls,
            submitted_requests: t.submitted_requests + s.submitted_requests,
            submit_batch_max: max_of(t.submit_batch_max, s.submit_batch_max),
            outstanding_max: max_of(t.outstanding_max, s.outstanding_max),
            wait_calls: t.wait_calls + s.wait_calls,
            wait_cqes: t.wait_cqes + s.wait_cqes,
            wait_batch_max: max_of(t.wait_batch_max, s.wait_batch_max),
            wait_cq_head_publications: t.wait_cq_head_publications + s.wait_cq_head_publications,
            ready_batch_publications: t.ready_batch_publications + s.ready_batch_publications,
            ready_batched_cqes: t.ready_batched_cqes + s.ready_batched_cqes,
            ready_batch_max: max_of(t.ready_batch_max, s.ready_batch_max),
            direct_used_entries: t.direct_used_entries + s.direct_used_entries,
            direct_avail_entries: t.direct_avail_entries + s.direct_avail_entries,
            completion_event_wakes: t.completion_event_wakes + s.completion_event_wakes,
            completion_event_cqes: t.completion_event_cqes + s.completion_event_cqes,
            completion_event_arms: t.completion_event_arms + s.completion_event_arms,
            completion_event_disarms: t.completion_event_disarms + s.completion_event_disarms,
            completion_event_task_runs: t.completion_event_task_runs + s.completion_event_task_runs,
            forced_idle_notifications: t.forced_idle_notifications + s.forced_idle_notifications,
        };
        i = i + 1;
    }
    proof {
        assert(list@.subrange(0, i as int) =~= list@);
    }
    t
}

/// Nothing seen yet.
pub open spec fn no_direct_stats() -> DirectCompletionStats {
    DirectCompletionStats {
        posts: 0,
        post_eagain: 0,
        cq_polls: 0,
        cq_completions: 0,
        cq_batch_max: 0,
        outstanding_max: 0,
        direct_avail_entries: 0,
        direct_used_entries: 0,
    }
}

/// What the lanes over registered memory have seen together.
pub open spec fn direct_completion_stats_of(list: Seq<DirectCompletionStats>) -> DirectCompletionStats
    decreases list.len(),
{
    if list.len() == 0 {
        no_direct_stats()
    } else {
        let t = direct_completion_stats_of(list.drop_last());
        let s = list.last();
        DirectCompletionStats {
            posts: (t.posts + s.posts) as u64,
            post_eagain: (t.post_eagain + s.post_eagain) as u64,
            cq_polls: (t.cq_polls + s.cq_polls) as u64,
            cq_completions: (t.cq_completions + s.cq_completions) as u64,
            cq_batch_max: larger(t.cq_batch_max as int, s.cq_batch_max as int),
            outstanding_max: larger(t.outstanding_max as int, s.outstanding_max as int),
            direct_avail_entries: (t.direct_avail_entries + s.direct_avail_entries) as u64,
            direct_used_entries: (t.direct_used_entries + s.direct_used_entries) as u64,
        }
    }
}

/// Whether what some lanes have seen can be added up.
pub open spec fn direct_completion_stats_fit(list: Seq<DirectCompletionStats>) -> bool
    decreases list.len(),
{
    list.len() > 0 ==> {
        let t = direct_completion_stats_of(list.drop_last());
        let s = list.last();
        &&& direct_completion_stats_fit(list.drop_last())
        &&& t.posts + s.posts <= u64::MAX
        &&& t.post_eagain + s.post_eagain <= u64::MAX
        &&& t.cq_polls + s.cq_polls <= u64::MAX
        &&& t.cq_completions + s.cq_completions <= u64::MAX
        &&& t.direct_avail_entries + s.direct_avail_entries <= u64::MAX
        &&& t.direct_used_entries + s.direct_used_entries <= u64::MAX
    }
}

proof fn lemma_direct_completion_stats_prefix(list: Seq<DirectCompletionStats>, n: int)
    requires
        0 <= n <= list.len(),
        direct_completion_stats_fit(list),
    ensures
        direct_completion_stats_fit(list.subrange(0, n)),
    decreases list.len() - n,
{
    if n < list.len() {
        lemma_direct_completion_stats_prefix(list, n + 1);
        assert(list.subrange(0, n + 1).drop_last() =~= list.subrange(0, n));
    } else {
        assert(list.subrange(0, n) =~= list);
    }
}

/// What the lanes over registered memory have seen together.
pub fn direct_completion_stats(list: &Vec<DirectCompletionStats>) -> (total: DirectCompletionStats)
    requires
        direct_completion_stats_fit(list@),
    ensures
        total == direct_completion_stats_of(list@),
{
    let mut t: DirectCompletionStats = DirectCompletionStats {
        posts: 0,
        post_eagain: 0,
        cq_polls: 0,
        cq_completions: 0,
        cq_batch_max: 0,
        outstanding_max: 0,
        direct_avail_entries: 0,
        direct_used_entries: 0,
    };
    let mut i: usize = 0;
    proof {
        assert(list@.subrange(0, 0) =~= Seq::<DirectCompletionStats>::empty());
    }
    while i < list.len()
        invariant
            i <= list@.len(),
            direct_completion_stats_fit(list@),
            t == direct_completion_stats_of(list@.subrange(0, i as int)),
        decreases list@.len() - i,
    {
        proof {
            lemma_direct_completion_stats_prefix(list@, i + 1);
            assert(list@.subrange(0, i + 1).drop_last() =~= list@.subrange(0, i as int));
            assert(list@.subrange(0, i + 1).last() == list@[i as int]);
        }
        let s: DirectCompletionStats = list[i];
        t = DirectCompletionStats {
            posts: t.posts + s.posts,
            post_eagain: t.post_eagain + s.post_eagain,
            cq_polls: t.cq_polls + s.cq_polls,
            cq_completions: t.cq_completions + s.cq_completions,
            cq_batch_max: max_of(t.cq_batch_max, s.cq_batch_max),
            outstanding_max: max_of(t.outstanding_max, s.outstanding_max),
            direct_avail_entries: t.direct_avail_entries + s.direct_avail_entries,
            direct_used_entries: t.direct_used_entries + s.direct_used_entries,
        };
        i = i + 1;
    }
    proof {
        assert(list@.subrange(0, i as int) =~= list@);
    }
    t
}

/// A request is good only where the whole of it was moved: a read also has its memory back and its bytes
/// copied, and a write has its slot handed back.
pub proof fn law_good_requests_moved_everything(kind: RequestKind, length: u32, r: ArenaResult)
    requires
        length <= i32::MAX,
    ensures
        arena_done(kind, length, r) ==> r.result == length,
        kind == RequestKind::Read ==> arena_done(kind, length, r) == (r.result == length
            && r.reacquired && r.copied),
        kind == RequestKind::Write ==> arena_done(kind, length, r) == (r.result == length
            && r.handed_back),
{
}

/// A direct request is good where a read was copied, or a write is allowed to stay in the cache or was
/// flushed.
pub proof fn law_good_direct_requests(copied: bool, writeback: bool, flushed: bool)
    ensures
        direct_done(RequestKind::Read, copied, writeback, flushed) == copied,
        direct_done(RequestKind::Write, copied, true, flushed),
        direct_done(RequestKind::Write, copied, false, flushed) == flushed,
{
}

/// The counters of several arena queues are sums, and the largest of those that are maxima.
pub proof fn law_arena_counters_add_up(list: Seq<ArenaCompletionStats>, one: ArenaCompletionStats)
    requires
        arena_completion_stats_fit(list.push(one)),
    ensures
        ({
            let a = arena_completion_stats_of(list);
            let b = arena_completion_stats_of(list.push(one));
            &&& b.submit_calls - a.submit_calls == one.submit_calls
            &&& b.submitted_requests - a.submitted_requests == one.submitted_requests
            &&& b.wait_calls - a.wait_calls == one.wait_calls
            &&& b.wait_cqes - a.wait_cqes == one.wait_cqes
            &&& b.wait_cq_head_publications - a.wait_cq_head_publications
                == one.wait_cq_head_publications
            &&& b.ready_batch_publications - a.ready_batch_publications
                == one.ready_batch_publications
            &&& b.ready_batched_cqes - a.ready_batched_cqes == one.ready_batched_cqes
            &&& b.direct_used_entries - a.direct_used_entries == one.direct_used_entries
            &&& b.direct_avail_entries - a.direct_avail_entries == one.direct_avail_entries
            &&& b.completion_event_wakes - a.completion_event_wakes == one.completion_event_wakes
            &&& b.completion_event_cqes - a.completion_event_cqes == one.completion_event_cqes
            &&& b.completion_event_arms - a.completion_event_arms == one.completion_event_arms
            &&& b.completion_event_disarms - a.completion_event_disarms
                == one.completion_event_disarms
            &&& b.completion_event_task_runs - a.completion_event_task_runs
                == one.completion_event_task_runs
            &&& b.forced_idle_notifications - a.forced_idle_notifications
                == one.forced_idle_notifications
            &&& b.submit_batch_max >= a.submit_batch_max && b.submit_batch_max >= one.submit_batch_max
            &&& b.outstanding_max >= a.outstanding_max && b.outstanding_max >= one.outstanding_max
            &&& b.wait_batch_max >= a.wait_batch_max && b.wait_batch_max >= one.wait_batch_max
            &&& b.ready_batch_max >= a.ready_batch_max && b.ready_batch_max >= one.ready_batch_max
            &&& list.len() == 0 ==> b == one
        }),
{
    assert(list.push(one).drop_last() =~= list);
}

/// The counters of several direct queues add up, and their maxima are those of all.
pub proof fn law_direct_counters_add_up(list: Seq<DirectCompletionStats>, one: DirectCompletionStats)
    requires
        direct_completion_stats_fit(list.push(one)),
    ensures
        ({
            let a = direct_completion_stats_of(list);
            let b = direct_completion_stats_of(list.push(one));
            &&& b.posts - a.posts == one.posts
            &&& b.post_eagain - a.post_eagain == one.post_eagain
            &&& b.cq_polls - a.cq_polls == one.cq_polls
            &&& b.cq_completions - a.cq_completions == one.cq_completions
            &&& b.direct_avail_entries - a.direct_avail_entries == one.direct_avail_entries
            &&& b.direct_used_entries - a.direct_used_entries == one.direct_used_entries
            &&& b.cq_batch_max >= a.cq_batch_max && b.cq_batch_max >= one.cq_batch_max
            &&& b.outstanding_max >= a.outstanding_max && b.outstanding_max >= one.outstanding_max
            &&& list.len() == 0 ==> b == one
        }),
{
    assert(list.push(one).drop_last() =~= list);
}

} // verus!
