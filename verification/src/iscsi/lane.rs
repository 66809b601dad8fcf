//! Work for the lanes of the target, and what is told of it when it is done.
use vstd::prelude::*;
use vstd::string::*;

use crate::error::{invalid_input, Error};
use crate::iscsi::header::{BLOCK_SIZE, LANE_PIPELINE};
use crate::iscsi::scsi::{check_range, sense_invalid_field, sense_medium_error};
use crate::iscsi::writer::{Command, Completion};
#[allow(unused_imports)]
use crate::iscsi::writer::CompletionView;

verus! {

/// A piece of work for one lane.
#[derive(Debug)]
pub enum LaneTask {
    Read { command: Command, lba: u64, blocks: u32 },
    Write { command: Command, lba: u64, payload: Vec<u8>, fua: bool },
    Barrier,
}

impl LaneTask {
    /// The command that the task answers, where it moves data.
    pub open spec fn command_of(&self) -> Option<Command> {
        match self {
            LaneTask::Read { command, .. } => Some(*command),
            LaneTask::Write { command, .. } => Some(*command),
            LaneTask::Barrier => None,
        }
    }

    /// The first block of the task.
    pub open spec fn lba_of(&self) -> int {
        match self {
            LaneTask::Read { lba, .. } => *lba as int,
            LaneTask::Write { lba, .. } => *lba as int,
            LaneTask::Barrier => 0,
        }
    }

    /// How many bytes the task moves.
    pub open spec fn byte_len(&self) -> int {
        match self {
            LaneTask::Read { blocks, .. } => *blocks * 4096,
            LaneTask::Write { payload: blocks, .. } => blocks@.len() as int,
            LaneTask::Barrier => 0,
        }
    }

    /// Whether the task is a write that has to be durable when it is answered.
    pub open spec fn is_fua(&self) -> bool {
        match self {
            LaneTask::Write { fua, .. } => *fua,
            _ => false,
        }
    }

    /// Whether the task is a write that has to be durable when it is answered.
    pub fn fua(&self) -> (yes: bool)
        ensures
            yes == self.is_fua(),
    {
        match self {
            LaneTask::Write { fua, .. } => *fua,
            _ => false,
        }
    }
}

/// What a lane has done.
#[derive(Clone, Copy, Debug, PartialEq, Eq, Structural)]
pub struct LaneCounts {
    pub reads: u64,
    pub writes: u64,
    pub barriers: u64,
    pub fua_writes: u64,
    pub fua_drains: u64,
    pub fan_batches: u64,
    pub fan_tasks: u64,
    pub max_fan_batch: usize,
}

impl LaneCounts {
    /// Nothing done yet.
    pub fn new() -> (counts: LaneCounts)
        ensures
            counts == (LaneCounts {
                reads: 0,
                writes: 0,
                barriers: 0,
                fua_writes: 0,
                fua_drains: 0,
                fan_batches: 0,
                fan_tasks: 0,
                max_fan_batch: 0,
            }),
    {
        LaneCounts {
            reads: 0,
            writes: 0,
            barriers: 0,
            fua_writes: 0,
            fua_drains: 0,
            fan_batches: 0,
            fan_tasks: 0,
            max_fan_batch: 0,
        }
    }

    /// Whether every count can still grow by `n`.
    pub open spec fn has_room(&self, n: int) -> bool {
        &&& self.reads + n <= u64::MAX
        &&& self.writes + n <= u64::MAX
        &&& self.barriers + n <= u64::MAX
        &&& self.fua_writes + n <= u64::MAX
        &&& self.fua_drains + n <= u64::MAX
        &&& self.fan_batches + n <= u64::MAX
        &&& self.fan_tasks + n <= u64::MAX
    }
}

/// What a backend made of a task.
#[derive(Debug)]
pub enum SyncResult {
    /// The blocks that were read.
    Data(Vec<u8>),
    /// Written, and made durable where that was asked for; or drained.
    Done,
    Failed,
}

/// What is told the initiator of a task that a backend has carried out.
pub open spec fn sync_completion(task: LaneTask, result: SyncResult) -> Option<CompletionView> {
    match task {
        LaneTask::Read { command, .. } => match result {
            SyncResult::Data(payload) => Some(
                CompletionView::Data { command, payload: payload@ },
            ),
            _ => Some(
                CompletionView::Check { command, sense: crate::iscsi::scsi::sense(0x03, 0x11, 0) },
            ),
        },
        LaneTask::Write { command, .. } => match result {
            SyncResult::Done => Some(CompletionView::Good { command }),
            _ => Some(
                CompletionView::Check { command, sense: crate::iscsi::scsi::sense(0x03, 0x11, 0) },
            ),
        },
        LaneTask::Barrier => None,
    }
}

/// What a task that a backend has carried out adds to the counts.
pub open spec fn sync_counts(task: LaneTask, result: SyncResult, counts: LaneCounts) -> LaneCounts {
    match task {
        LaneTask::Read { blocks, .. } => if result is Data {
            LaneCounts { reads: (counts.reads + blocks) as u64, ..counts }
        } else {
            counts
        },
        LaneTask::Write { payload: blocks, fua, .. } => if result is Done {
            let more: int = if fua {
                1
            } else {
                0
            };
            LaneCounts {
                writes: (counts.writes + blocks@.len() / 4096) as u64,
                fua_writes: (counts.fua_writes + more) as u64,
                fua_drains: (counts.fua_drains + more) as u64,
                ..counts
            }
        } else {
            counts
        },
        LaneTask::Barrier => LaneCounts { barriers: (counts.barriers + 1) as u64, ..counts },
    }
}

/// Counts a task that a backend has carried out, and says what is told the initiator.
pub fn complete_sync_task(task: LaneTask, result: SyncResult, counts: &mut LaneCounts) -> (r: Option<
    Completion,
>)
    requires
        old(counts).has_room(1 + task.byte_len() / 4096),
    ensures
        *final(counts) == sync_counts(task, result, *old(counts)),
        match r {
            Some(c) => sync_completion(task, result) == Some(c@),
            None => sync_completion(task, result) is None,
        },
{
    match task {
        LaneTask::Read { command, lba, blocks } => match result {
            SyncResult::Data(payload) => {
                counts.reads = counts.reads + blocks as u64;
                Some(Completion::Data { command, payload })
            },
            _ => Some(Completion::Check { command, sense: sense_medium_error() }),
        },
        LaneTask::Write { command, lba, payload: blocks, fua } => match result {
            SyncResult::Done => {
                counts.writes = counts.writes + (blocks.len() / BLOCK_SIZE as usize) as u64;
                if fua {
                    counts.fua_writes = counts.fua_writes + 1;
                    counts.fua_drains = counts.fua_drains + 1;
                }
                Some(Completion::Good { command })
            },
            _ => Some(Completion::Check { command, sense: sense_medium_error() }),
        },
        LaneTask::Barrier => {
            counts.barriers = counts.barriers + 1;
            None
        },
    }
}

/// A command whose blocks are on their way to or from the device, block by block.
#[derive(Clone, Copy, Debug, PartialEq, Eq, Structural)]
pub struct ArenaInFlight {
    pub command: Command,
    pub block_count: usize,
    pub remaining: usize,
    pub failed: bool,
    pub write: bool,
    pub fua: bool,
}

/// How many blocks are on their way in all.
pub open spec fn blocks_out(s: Seq<Option<ArenaInFlight>>) -> nat
    decreases s.len(),
{
    if s.len() == 0 {
        0
    } else {
        blocks_out(s.drop_last()) + match s.last() {
            Some(r) => r.remaining as nat,
            None => 0,
        }
    }
}

proof fn lemma_blocks_out_update(s: Seq<Option<ArenaInFlight>>, i: int, v: Option<ArenaInFlight>)
    requires
        0 <= i < s.len(),
    ensures
        blocks_out(s.update(i, v)) + (match s[i] {
            Some(r) => r.remaining as nat,
            None => 0,
        }) == blocks_out(s) + (match v {
            Some(r) => r.remaining as nat,
            None => 0,
        }),
    decreases s.len(),
{
    if i < s.len() - 1 {
        lemma_blocks_out_update(s.drop_last(), i, v);
        assert(s.update(i, v).drop_last() =~= s.drop_last().update(i, v));
    } else {
        assert(s.update(i, v).drop_last() =~= s.drop_last());
    }
}

proof fn lemma_full_table(s: Seq<Option<ArenaInFlight>>)
    requires
        forall|i: int| 0 <= i < s.len() ==> (#[trigger] s[i]) is Some && s[i]->0.remaining >= 1,
    ensures
        blocks_out(s) >= s.len(),
    decreases s.len(),
{
    if s.len() > 0 {
        let head = s.drop_last();
        assert forall|i: int| 0 <= i < head.len() implies (#[trigger] head[i]) is Some
            && head[i]->0.remaining >= 1 by {
            assert(head[i] == s[i]);
        }
        lemma_full_table(head);
        assert(s[s.len() - 1] is Some);
    }
}

proof fn lemma_one_of(s: Seq<Option<ArenaInFlight>>, i: int)
    requires
        0 <= i < s.len(),
        s[i] is Some,
    ensures
        s[i]->0.remaining <= blocks_out(s),
    decreases s.len(),
{
    if i < s.len() - 1 {
        lemma_one_of(s.drop_last(), i);
    }
}

/// What happens to a task that a lane has received.
#[derive(Clone, Copy, Debug, PartialEq, Eq, Structural)]
pub enum Admission {
    /// It waits until all blocks that are on their way have arrived.
    Barrier,
    /// It is carried out at once: it is too large for the window, and nothing is on its way.
    Sync,
    /// It waits for room.
    Defer,
    /// It goes out under this slot.
    Slot(usize),
}

/// What a lane does once it cannot take more work for now.
#[derive(Clone, Copy, Debug, PartialEq, Eq, Structural)]
pub enum ArenaStep {
    /// Acknowledge the barrier.
    Acknowledge,
    /// Nothing is left to do.
    Stop,
    /// Wait for the next task.
    Receive,
    /// Wait for a block to arrive.
    Complete,
}

/// The commands of one lane whose blocks are on their way: at most 64 blocks in all.
#[derive(Debug)]
pub struct ArenaLane {
    pub inflight: Vec<Option<ArenaInFlight>>,
    pub outstanding: usize,
    pub barrier: bool,
    pub disconnected: bool,
}

impl ArenaLane {
    /// Whether the count of blocks is right, the window is kept, and every command waits for
    /// something.
    pub open spec fn wf(&self) -> bool {
        &&& self.inflight@.len() == 64
        &&& self.outstanding == blocks_out(self.inflight@)
        &&& self.outstanding <= 64
        &&& forall|i: int|
            0 <= i < 64 ==> ((#[trigger] self.inflight@[i]) matches Some(r) ==> 1 <= r.remaining
                <= r.block_count <= 64)
    }

    /// A lane with nothing to do.
    pub fn new() -> (lane: ArenaLane)
        ensures
            lane.wf(),
            lane.outstanding == 0,
            !lane.barrier,
            !lane.disconnected,
            forall|i: int| 0 <= i < 64 ==> (#[trigger] lane.inflight@[i]) is None,
    {
        let mut inflight: Vec<Option<ArenaInFlight>> = Vec::new();
        let mut i: usize = 0;
        while i < LANE_PIPELINE
            invariant
                i <= 64,
                inflight@.len() == i,
                blocks_out(inflight@) == 0,
                forall|k: int| 0 <= k < i ==> (#[trigger] inflight@[k]) is None,
            decreases 64 - i,
        {
            let ghost before = inflight@;
            inflight.push(None);
            proof {
                assert(inflight@.drop_last() =~= before);
            }
            i = i + 1;
        }
        ArenaLane { inflight, outstanding: 0, barrier: false, disconnected: false }
    }

    /// Whether the lane looks for another task.
    pub fn wants_task(&self) -> (yes: bool)
        ensures
            yes == (!self.barrier && self.outstanding < 64),
    {
        !self.barrier && self.outstanding < LANE_PIPELINE
    }

    /// What happens to a task that the lane has received while it wanted one. Where the window has
    /// room there is always a free slot.
    pub fn run_arena_lane(&self, task: &LaneTask) -> (r: Admission)
        requires
            self.wf(),
            self.outstanding < 64,
        ensures
            match task.command_of() {
                None => r == Admission::Barrier,
                Some(_) => {
                    let blocks = task.byte_len() / 4096;
                    if blocks > 64 && self.outstanding == 0 {
                        r == Admission::Sync
                    } else if self.outstanding + blocks > 64 {
                        r == Admission::Defer
                    } else {
                        &&& r matches Admission::Slot(slot)
                        &&& slot < 64
                        &&& self.inflight@[slot as int] is None
                        &&& forall|i: int|
                            0 <= i < slot ==> (#[trigger] self.inflight@[i]) is Some
                    }
                },
            },
    {
        let blocks: u64 = match task {
            LaneTask::Read { blocks, .. } => *blocks as u64,
            LaneTask::Write { payload: blocks, .. } => (blocks.len() / BLOCK_SIZE as usize) as u64,
            LaneTask::Barrier => {
                return Admission::Barrier;
            },
        };
        if blocks > LANE_PIPELINE as u64 {
            if self.outstanding == 0 {
                return Admission::Sync;
            }
            return Admission::Defer;
        }
        if self.outstanding as u64 + blocks > LANE_PIPELINE as u64 {
            return Admission::Defer;
        }
        let mut i: usize = 0;
        while i < LANE_PIPELINE
            invariant
                i <= 64,
                self.wf(),
                self.outstanding < 64,
                blocks == task.byte_len() / 4096,
                self.outstanding + blocks <= 64,
                task.command_of() is Some,
                forall|k: int| 0 <= k < i ==> (#[trigger] self.inflight@[k]) is Some,
            decreases 64 - i,
        {
            if self.inflight[i].is_none() {
                return Admission::Slot(i);
            }
            i = i + 1;
        }
        proof {
            assert forall|k: int| 0 <= k < 64 implies (#[trigger] self.inflight@[k]) is Some
                && self.inflight@[k]->0.remaining >= 1 by {
                assert(self.inflight@[k] is Some);
            }
            lemma_full_table(self.inflight@);
        }
        Admission::Defer
    }

    /// What the lane does once it takes no more work for now.
    pub fn next_step(&self) -> (r: ArenaStep)
        ensures
            r == if self.outstanding > 0 {
                ArenaStep::Complete
            } else if self.barrier {
                ArenaStep::Acknowledge
            } else if self.disconnected {
                ArenaStep::Stop
            } else {
                ArenaStep::Receive
            },
    {
        if self.outstanding > 0 {
            ArenaStep::Complete
        } else if self.barrier {
            ArenaStep::Acknowledge
        } else if self.disconnected {
            ArenaStep::Stop
        } else {
            ArenaStep::Receive
        }
    }

    /// Puts a task under a slot after `queued` of its blocks could be sent on their way. Where none
    /// could, the slot stays free and the initiator is told.
    pub fn queue_arena_task(&mut self, slot: usize, task: &LaneTask, queued: usize) -> (r: Option<
        Completion,
    >)
        requires
            old(self).wf(),
            slot < 64,
            old(self).inflight@[slot as int] is None,
            task.command_of() is Some,
            queued <= task.byte_len() / 4096,
            old(self).outstanding + task.byte_len() / 4096 <= 64,
        ensures
            final(self).wf(),
            final(self).barrier == old(self).barrier,
            final(self).disconnected == old(self).disconnected,
            if queued == 0 {
                &&& final(self).inflight@ == old(self).inflight@
                &&& final(self).outstanding == old(self).outstanding
                &&& r is Some
                &&& r->0@ == (CompletionView::Check {
                    command: task.command_of()->0,
                    sense: crate::iscsi::scsi::sense(0x03, 0x11, 0),
                })
            } else {
                &&& r is None
                &&& final(self).outstanding == old(self).outstanding + queued
                &&& final(self).inflight@ == old(self).inflight@.update(
                    slot as int,
                    Some(
                        ArenaInFlight {
                            command: task.command_of()->0,
                            block_count: (task.byte_len() / 4096) as usize,
                            remaining: queued,
                            failed: queued < task.byte_len() / 4096,
                            write: task is Write,
                            fua: task.is_fua(),
                        },
                    ),
                )
            },
    {
        let (command, block_count, write, fua): (Command, usize, bool, bool) = match task {
            LaneTask::Read { command, blocks, .. } => (*command, *blocks as usize, false, false),
            LaneTask::Write { command, payload: blocks, fua, .. } => (
                *command,
                blocks.len() / BLOCK_SIZE as usize,
                true,
                *fua,
            ),
            LaneTask::Barrier => {
                return None;
            },
        };
        if queued == 0 {
            return Some(Completion::Check { command, sense: sense_medium_error() });
        }
        let request: ArenaInFlight = ArenaInFlight {
            command,
            block_count,
            remaining: queued,
            failed: queued < block_count,
            write,
            fua,
        };
        proof {
            lemma_blocks_out_update(self.inflight@, slot as int, Some(request));
        }
        self.outstanding = self.outstanding + queued;
        self.inflight[slot] = Some(request);
        None
    }

    /// Takes note of a block that has arrived; gives the command that it was the last of. A block of
    /// an unknown slot is ignored.
    pub fn finish_arena_io(&mut self, slot: u64, result: i32) -> (r: Option<ArenaInFlight>)
        requires
            old(self).wf(),
        ensures
            final(self).wf(),
            final(self).barrier == old(self).barrier,
            final(self).disconnected == old(self).disconnected,
            if slot >= 64 || old(self).inflight@[slot as int] is None {
                &&& final(self).inflight@ == old(self).inflight@
                &&& final(self).outstanding == old(self).outstanding
                &&& r is None
            } else {
                let before = old(self).inflight@[slot as int]->0;
                let after = ArenaInFlight {
                    remaining: (before.remaining - 1) as usize,
                    failed: before.failed || result != 4096,
                    ..before
                };
                &&& final(self).outstanding == old(self).outstanding - 1
                &&& if before.remaining == 1 {
                    &&& r == Some(after)
                    &&& final(self).inflight@ == old(self).inflight@.update(slot as int, None)
                } else {
                    &&& r is None
                    &&& final(self).inflight@ == old(self).inflight@.update(
                        slot as int,
                        Some(after),
                    )
                }
            },
    {
        if slot >= LANE_PIPELINE as u64 {
            return None;
        }
        let at: usize = slot as usize;
        let mut request: ArenaInFlight = match self.inflight[at] {
            Some(request) => request,
            None => {
                return None;
            },
        };
        proof {
            lemma_one_of(self.inflight@, at as int);
        }
        if result != BLOCK_SIZE as i32 {
            request.failed = true;
        }
        request.remaining = request.remaining - 1;
        self.outstanding = self.outstanding - 1;
        if request.remaining != 0 {
            proof {
                lemma_blocks_out_update(self.inflight@, at as int, Some(request));
            }
            self.inflight[at] = Some(request);
            return None;
        }
        proof {
            lemma_blocks_out_update(self.inflight@, at as int, None);
        }
        self.inflight[at] = None;
        Some(request)
    }
}

/// Whether a task may go to the device, and how many blocks it moves; else what the initiator is
/// told. A write of more blocks than a request can count is an error of the lane.
pub fn arena_range(capacity_bytes: u64, task: &LaneTask) -> (r: Result<
    Result<u32, Completion>,
    Error,
>)
    requires
        task.command_of() is Some,
    ensures
        match r {
            Err(e) => task.byte_len() / 4096 > u32::MAX && e@ == crate::error::bad_input(
                "write too large"@,
            ),
            Ok(Ok(blocks)) => blocks == task.byte_len() / 4096 && crate::iscsi::scsi::in_volume(
                capacity_bytes,
                task.lba_of() as u64,
                blocks,
            ),
            Ok(Err(c)) => {
                &&& task.byte_len() / 4096 <= u32::MAX
                &&& !crate::iscsi::scsi::in_volume(
                    capacity_bytes,
                    task.lba_of() as u64,
                    (task.byte_len() / 4096) as u32,
                )
                &&& c@ == (CompletionView::Check {
                    command: task.command_of()->0,
                    sense: crate::iscsi::scsi::sense(0x05, 0x24, 0),
                })
            },
        },
{
    let (command, lba, blocks): (Command, u64, u32) = match task {
        LaneTask::Read { command, lba, blocks } => (*command, *lba, *blocks),
        LaneTask::Write { command, lba, payload: blocks, .. } => {
            let count: usize = blocks.len() / BLOCK_SIZE as usize;
            if count > u32::MAX as usize {
                return Err(invalid_input("write too large".to_string()));
            }
            (*command, *lba, count as u32)
        },
        LaneTask::Barrier => {
            return Ok(Ok(0));
        },
    };
    match check_range(capacity_bytes, lba, blocks) {
        Ok(_) => Ok(Ok(blocks)),
        Err(_) => Ok(Err(Completion::Check { command, sense: sense_invalid_field() })),
    }
}

/// Counts a command whose blocks have all arrived, and says what is told the initiator. `sound` is
/// false where the blocks of a read could not be taken back from the device, or a write that has to
/// be durable could not be made so.
pub fn conclude(request: ArenaInFlight, sound: bool, payload: Vec<u8>, counts: &mut LaneCounts) -> (c:
    Completion)
    requires
        old(counts).has_room(1 + request.block_count),
    ensures
        ({
            let good = !request.failed && sound;
            let drains: int = if request.write && request.fua {
                1
            } else {
                0
            };
            &&& *final(counts) == LaneCounts {
                reads: (old(counts).reads + if good && !request.write {
                    request.block_count as int
                } else {
                    0
                }) as u64,
                writes: (old(counts).writes + if good && request.write {
                    request.block_count as int
                } else {
                    0
                }) as u64,
                fua_writes: (old(counts).fua_writes + drains) as u64,
                fua_drains: (old(counts).fua_drains + drains) as u64,
                ..*old(counts)
            }
            &&& c@ == if !good {
                CompletionView::Check {
                    command: request.command,
                    sense: crate::iscsi::scsi::sense(0x03, 0x11, 0),
                }
            } else if request.write {
                CompletionView::Good { command: request.command }
            } else {
                CompletionView::Data { command: request.command, payload: payload@ }
            }
        }),
{
    if request.write && request.fua {
        counts.fua_writes = counts.fua_writes + 1;
        counts.fua_drains = counts.fua_drains + 1;
    }
    if request.failed || !sound {
        return Completion::Check { command: request.command, sense: sense_medium_error() };
    }
    if request.write {
        counts.writes = counts.writes + request.block_count as u64;
        Completion::Good { command: request.command }
    } else {
        counts.reads = counts.reads + request.block_count as u64;
        Completion::Data { command: request.command, payload }
    }
}

/// A lane never has more than 64 blocks on their way, and where it has fewer, one of its 64 slots
/// is free.
pub proof fn law_a_slot_is_free_below_the_window(lane: ArenaLane)
    requires
        lane.wf(),
        lane.outstanding < 64,
    ensures
        exists|i: int| 0 <= i < 64 && (#[trigger] lane.inflight@[i]) is None,
{
    if forall|i: int| 0 <= i < 64 ==> (#[trigger] lane.inflight@[i]) is Some {
        assert forall|k: int| 0 <= k < 64 implies (#[trigger] lane.inflight@[k]) is Some
            && lane.inflight@[k]->0.remaining >= 1 by {
            assert(lane.inflight@[k] is Some);
        }
        lemma_full_table(lane.inflight@);
    }
}

/// A task is completed towards the command that asked for it: a read with the bytes that were read, a
/// write with a good status once it is done, either with a medium error otherwise, and a barrier not at all.
pub proof fn law_tasks_complete_their_command(task: LaneTask, result: SyncResult)
    ensures
        match sync_completion(task, result) {
            Some(CompletionView::Data { command, payload }) => task is Read && Some(command)
                == task.command_of() && (result matches SyncResult::Data(bytes) && payload
                == bytes@),
            Some(CompletionView::Good { command }) => task is Write && Some(command)
                == task.command_of() && result is Done,
            Some(CompletionView::Check { command, sense }) => {
                &&& Some(command) == task.command_of()
                &&& !(task is Read && result is Data) && !(task is Write && result is Done)
                &&& sense[2] == 3 && sense[12] == 0x11
            },
            Some(_) => false,
            None => task is Barrier,
        },
{
}

/// Only what succeeded is counted, by the blocks that it moved; a forced write counts as such and as a
/// drain, and a barrier counts once.
pub proof fn law_tasks_count_what_they_moved(task: LaneTask, result: SyncResult, counts: LaneCounts)
    requires
        counts.has_room(1 + task.byte_len() / 4096),
    ensures
        ({
            let after = sync_counts(task, result, counts);
            let blocks = task.byte_len() / 4096;
            let read = task is Read && result is Data;
            let written = task is Write && result is Done;
            &&& after.reads - counts.reads == if read {
                blocks
            } else {
                0
            }
            &&& after.writes - counts.writes == if written {
                blocks
            } else {
                0
            }
            &&& after.fua_writes - counts.fua_writes == if written && task.is_fua() {
                1int
            } else {
                0
            }
            &&& after.fua_drains - counts.fua_drains == after.fua_writes - counts.fua_writes
            &&& after.barriers - counts.barriers == if task is Barrier {
                1int
            } else {
                0
            }
            &&& after.fan_batches == counts.fan_batches && after.fan_tasks == counts.fan_tasks
            &&& after.max_fan_batch == counts.max_fan_batch
        }),
{
}

} // verus!
