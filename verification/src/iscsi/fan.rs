//! The lane-local fan transport: commands that go out together and come back in any order.
use vstd::prelude::*;
use vstd::string::*;

use crate::bytes::copy_range;
use crate::error::{corrupt, invalid, invalid_data, Error};
use crate::iscsi::header::{BLOCK_SIZE, COMMAND_WINDOW, LANE_PIPELINE};
use crate::iscsi::lane::{LaneCounts, LaneTask};
use crate::iscsi::scsi::validate_capacity;
use crate::iscsi::writer::{Command, Completion};
use crate::text::{decimal, join2, join3, join4, trim};
#[allow(unused_imports)]
use crate::error::Fault;
#[allow(unused_imports)]
use crate::iscsi::writer::CompletionView;

verus! {

/// What a frame of the fan transport is.
#[derive(Clone, Copy, Debug, PartialEq, Eq, Structural)]
pub enum FanOp {
    Read,
    Write,
    Sync,
    Batch,
    ReadResponse,
    WriteAck,
    SyncAck,
    BatchResponse,
    ReadRangeResponse,
    Unknown,
}

/// The fields of a frame that the transport looks at. `code` is the number that a frame which
/// arrived had for its operation; it is 0 in a frame that is yet to be sent.
#[derive(Clone, Copy, Debug, PartialEq, Eq, Structural)]
pub struct FanFrame {
    pub op: FanOp,
    pub code: u16,
    pub shard: u32,
    pub len: u32,
    pub offset: u64,
    pub request_id: u64,
}

/// The operation, shard, length and offset of a frame, as a message shows them.
pub open spec fn frame_text(frame: FanFrame) -> Seq<char> {
    " op="@ + crate::text::decimal_text(frame.code as nat) + " shard="@
        + crate::text::decimal_text(frame.shard as nat) + " len="@ + crate::text::decimal_text(
        frame.len as nat,
    ) + " offset="@ + crate::text::decimal_text(frame.offset as nat)
}

/// An error about a frame, which the message shows.
fn frame_error(what: &str, frame: FanFrame) -> (error: Error)
    ensures
        error@ == crate::error::bad_data(what@ + frame_text(frame)),
{
    let head: String = join4(
        " op=",
        decimal(frame.code as u64).as_str(),
        " shard=",
        decimal(frame.shard as u64).as_str(),
    );
    let tail: String = join4(
        " len=",
        decimal(frame.len as u64).as_str(),
        " offset=",
        decimal(frame.offset).as_str(),
    );
    let text: String = join3(what, head.as_str(), tail.as_str());
    proof {
        assert(text@ =~= what@ + frame_text(frame));
    }
    invalid_data(text)
}

/// Where a frame belongs.
#[derive(Clone, Copy, Debug, PartialEq, Eq, Structural)]
pub struct FanTopology {
    pub lane_id: u32,
    pub lane_count: u32,
    pub preferred_worker: u32,
    pub queue_id: u32,
    pub request_id: u64,
    pub tier_id: u32,
}

/// A fan of lane-local connections: one address and one processor for each lane.
#[derive(Debug)]
pub struct FanBackend {
    pub addrs: Vec<String>,
    pub capacity_bytes: u64,
    pub lane_cpus: Vec<usize>,
    pub window: usize,
    pub batch_spin_us: u64,
}

/// The fault on which a fan is refused, if it is.
pub open spec fn fan_fault(
    addrs: Seq<Seq<char>>,
    capacity: u64,
    cpus: nat,
    window: nat,
    spin: Option<Seq<char>>,
) -> Option<Fault> {
    if capacity == 0 || capacity % 4096 != 0 {
        Some(
            crate::error::bad_input(
                "capacity must be a non-zero multiple of 4096 bytes"@,
            ),
        )
    } else if addrs.len() == 0 || exists|i: int|
        0 <= i < addrs.len() && crate::text::trim_text(#[trigger] addrs[i]).len() == 0 {
        Some(
            crate::error::bad_input(
                "--fan-addrs must contain one non-empty TCP address per lane"@,
            ),
        )
    } else if addrs.len() != cpus {
        Some(
            crate::error::bad_input(
                "direct fan topology has "@ + crate::text::decimal_text(addrs.len())
                    + " addresses but "@ + crate::text::decimal_text(cpus) + " lane CPUs"@,
            ),
        )
    } else if window == 0 || window > 4096 {
        Some(crate::error::bad_input("--fan-window must be in 1..=4096"@))
    } else {
        match spin {
            None => None,
            Some(text) => match crate::text::unsigned_value(text, u64::MAX as nat) {
                None => Some(
                    crate::error::bad_input("ZCISCSI_FAN_BATCH_SPIN_US must be an integer"@),
                ),
                Some(us) => if us > 1000 {
                    Some(crate::error::bad_input("ZCISCSI_FAN_BATCH_SPIN_US must be in 0..=1000"@))
                } else {
                    None
                },
            },
        }
    }
}

impl FanBackend {
    /// A fan over the given addresses. `spin` is how long a lane may look for more work before it
    /// sends, in microseconds, where that was set; else two.
    pub fn open_fan(
        addrs: Vec<String>,
        capacity_bytes: u64,
        lane_cpus: Vec<usize>,
        window: usize,
        spin: Option<String>,
    ) -> (r: Result<FanBackend, Error>)
        ensures
            ({
                let said = match spin {
                    Some(s) => Some(s@),
                    None => None,
                };
                let fault = fan_fault(
                    crate::text::texts(addrs@),
                    capacity_bytes,
                    lane_cpus@.len(),
                    window as nat,
                    said,
                );
                match r {
                    Ok(fan) => {
                        &&& fault is None
                        &&& fan.addrs == addrs
                        &&& fan.capacity_bytes == capacity_bytes
                        &&& fan.lane_cpus == lane_cpus
                        &&& fan.window == window
                        &&& fan.batch_spin_us == match said {
                            Some(s) => crate::text::unsigned_value(s, u64::MAX as nat)->0,
                            None => 2,
                        }
                    },
                    Err(e) => fault == Some(e@),
                }
            }),
    {
        match validate_capacity(capacity_bytes) {
            Ok(_) => {},
            Err(e) => {
                return Err(e);
            },
        }
        let mut blank: bool = addrs.len() == 0;
        let mut i: usize = 0;
        let ghost views = crate::text::texts(addrs@);
        while i < addrs.len()
            invariant
                i <= addrs@.len(),
                views == crate::text::texts(addrs@),
                blank == (addrs@.len() == 0 || exists|k: int|
                    0 <= k < i && crate::text::trim_text(#[trigger] views[k]).len() == 0),
            decreases addrs@.len() - i,
        {
            let t: String = trim(addrs[i].as_str());
            assert(views[i as int] == addrs@[i as int]@);
            if t.as_str().unicode_len() == 0 {
                blank = true;
            }
            i = i + 1;
        }
        if blank {
            return Err(invalid("--fan-addrs must contain one non-empty TCP address per lane"));
        }
        if addrs.len() != lane_cpus.len() {
            let head: String = join4(
                "direct fan topology has ",
                decimal(addrs.len() as u64).as_str(),
                " addresses but ",
                decimal(lane_cpus.len() as u64).as_str(),
            );
            return Err(
                crate::error::invalid_input(crate::text::join2(head.as_str(), " lane CPUs")),
            );
        }
        if window == 0 || window > COMMAND_WINDOW as usize {
            return Err(invalid("--fan-window must be in 1..=4096"));
        }
        let batch_spin_us: u64 = match spin {
            Some(text) => match crate::text::parse_unsigned(text.as_str(), u64::MAX) {
                Some(us) => us,
                None => {
                    return Err(invalid("ZCISCSI_FAN_BATCH_SPIN_US must be an integer"));
                },
            },
            None => 2,
        };
        if batch_spin_us > 1000 {
            return Err(invalid("ZCISCSI_FAN_BATCH_SPIN_US must be in 0..=1000"));
        }
        Ok(FanBackend { addrs, capacity_bytes, lane_cpus, window, batch_spin_us })
    }
}

/// The number under which a command travels.
pub open spec fn request_id(command: Command) -> u64 {
    (command.cmd_sn * 0x1_0000_0000 + command.itt) as u64
}

/// The number under which a command travels.
pub fn fan_request_id(command: Command) -> (id: u64)
    ensures
        id == request_id(command),
{
    command.cmd_sn as u64 * 0x1_0000_0000 + command.itt as u64
}

/// Commands with different numbers or tags travel under different numbers.
pub proof fn law_request_ids_are_distinct(a: Command, b: Command)
    requires
        request_id(a) == request_id(b),
    ensures
        a.cmd_sn == b.cmd_sn && a.itt == b.itt,
{
}

/// Where the frames of a lane belong.
pub fn fan_topology(lane: u64, lane_count: u64, request_id: u64) -> (r: Result<FanTopology, Error>)
    ensures
        crate::error::agrees(
            r,
            if lane > u32::MAX {
                Err(crate::error::bad_input("fan lane exceeds u32"@))
            } else if lane_count > u32::MAX {
                Err(crate::error::bad_input("fan lane count exceeds u32"@))
            } else {
                Ok(
                    FanTopology {
                        lane_id: lane as u32,
                        lane_count: lane_count as u32,
                        preferred_worker: lane as u32,
                        queue_id: lane as u32,
                        request_id,
                        tier_id: 0,
                    },
                )
            },
        ),
{
    if lane > u32::MAX as u64 {
        return Err(invalid("fan lane exceeds u32"));
    }
    if lane_count > u32::MAX as u64 {
        return Err(invalid("fan lane count exceeds u32"));
    }
    Ok(
        FanTopology {
            lane_id: lane as u32,
            lane_count: lane_count as u32,
            preferred_worker: lane as u32,
            queue_id: lane as u32,
            request_id,
            tier_id: 0,
        },
    )
}

/// The first byte of a task.
pub open spec fn byte_offset(task: LaneTask) -> int {
    task.lba_of() * 4096
}

/// The command that a task answers, where it moves data.
pub fn fan_task_command(task: &LaneTask) -> (r: Option<Command>)
    ensures
        r == task.command_of(),
{
    match task {
        LaneTask::Read { command, .. } => Some(*command),
        LaneTask::Write { command, .. } => Some(*command),
        LaneTask::Barrier => None,
    }
}

/// What a task asks for: the kind of frame, the first byte and the number of bytes.
pub open spec fn geometry(task: LaneTask) -> Result<(FanOp, u64, u64), Fault> {
    if task.command_of() is None {
        Err(crate::error::bad_input("barrier cannot be encoded as fan data I/O"@))
    } else if byte_offset(task) > u64::MAX {
        Err(crate::error::bad_input("fan LBA overflow"@))
    } else {
        Ok(
            (
                if task is Write {
                    FanOp::Write
                } else {
                    FanOp::Read
                },
                byte_offset(task) as u64,
                task.byte_len() as u64,
            ),
        )
    }
}

/// What a task asks for: the kind of frame, the first byte and the number of bytes.
pub fn fan_task_geometry(task: &LaneTask) -> (r: Result<(FanOp, u64, u64), Error>)
    ensures
        crate::error::agrees(r, geometry(*task)),
        r is Ok ==> r->Ok_0.2 == task.byte_len(),
{
    let (op, lba, len): (FanOp, u64, u64) = match task {
        LaneTask::Read { lba, blocks, .. } => (
            FanOp::Read,
            *lba,
            *blocks as u64 * 4096,
        ),
        LaneTask::Write { lba, payload: blocks, .. } => (FanOp::Write, *lba, blocks.len() as u64),
        LaneTask::Barrier => {
            return Err(invalid("barrier cannot be encoded as fan data I/O"));
        },
    };
    match lba.checked_mul(BLOCK_SIZE as u64) {
        Some(offset) => Ok((op, offset, len)),
        None => Err(invalid("fan LBA overflow")),
    }
}

/// Whether a task can be sent: it moves data that can be addressed and announced.
pub open spec fn sendable(task: LaneTask) -> bool {
    &&& task.command_of() is Some
    &&& byte_offset(task) <= u64::MAX
    &&& task.byte_len() <= u32::MAX
}

/// Whether all tasks can be sent.
pub open spec fn all_sendable(tasks: Seq<LaneTask>) -> bool {
    forall|i: int| 0 <= i < tasks.len() ==> sendable(#[trigger] tasks[i])
}

/// Whether a task travels under the given number.
pub open spec fn travels_as(task: LaneTask, id: u64) -> bool {
    task.command_of() matches Some(command) && request_id(command) == id
}

/// Where the first task with the given number stands; the number of tasks where there is none.
pub open spec fn task_place(tasks: Seq<LaneTask>, id: u64) -> int
    decreases tasks.len(),
{
    if tasks.len() == 0 {
        0
    } else if travels_as(tasks[0], id) {
        0
    } else {
        1 + task_place(tasks.drop_first(), id)
    }
}

proof fn lemma_task_place(tasks: Seq<LaneTask>, id: u64, at: int)
    requires
        0 <= at <= tasks.len(),
        forall|i: int| 0 <= i < at ==> !travels_as(#[trigger] tasks[i], id),
        at < tasks.len() ==> travels_as(tasks[at], id),
    ensures
        task_place(tasks, id) == at,
    decreases tasks.len(),
{
    if at > 0 {
        assert(!travels_as(tasks[0], id));
        let rest = tasks.drop_first();
        assert forall|i: int| 0 <= i < at - 1 implies !travels_as(#[trigger] rest[i], id) by {
            assert(rest[i] == tasks[i + 1]);
        }
        lemma_task_place(rest, id, at - 1);
    }
}

fn place_of(tasks: &[LaneTask], id: u64) -> (at: usize)
    ensures
        at == task_place(tasks@, id),
        at <= tasks@.len(),
        at < tasks@.len() ==> travels_as(tasks@[at as int], id),
{
    let mut i: usize = 0;
    while i < tasks.len()
        invariant
            i <= tasks@.len(),
            forall|k: int| 0 <= k < i ==> !travels_as(#[trigger] tasks@[k], id),
        decreases tasks@.len() - i,
    {
        let found: bool = match fan_task_command(&tasks[i]) {
            Some(command) => fan_request_id(command) == id,
            None => false,
        };
        if found {
            proof {
                lemma_task_place(tasks@, id, i as int);
            }
            return i;
        }
        i = i + 1;
    }
    proof {
        lemma_task_place(tasks@, id, i as int);
    }
    i
}

/// Whether `frame` answers `task` as it has to: the right kind, the same bytes, no shard.
pub open spec fn answers(frame: FanFrame, task: LaneTask) -> bool {
    &&& frame.op == if task is Write {
        FanOp::WriteAck
    } else {
        FanOp::ReadResponse
    }
    &&& frame.shard == 0
    &&& frame.len == task.byte_len()
    &&& frame.offset == byte_offset(task)
}

/// The fault on which an answer to one task is refused, if it is.
pub open spec fn answer_fault(tasks: Seq<LaneTask>, seen: Seq<bool>, frame: FanFrame) -> Option<
    Fault,
> {
    let at = task_place(tasks, frame.request_id);
    if at >= tasks.len() {
        Some(crate::error::bad_data("direct fan response has an unknown request id"@))
    } else if seen[at] {
        Some(crate::error::bad_data("direct fan response repeated a request id"@))
    } else if byte_offset(tasks[at]) > u64::MAX {
        Some(crate::error::bad_input("fan LBA overflow"@))
    } else if !answers(frame, tasks[at]) {
        Some(
            crate::error::bad_data("direct fan response member mismatch"@ + frame_text(frame)),
        )
    } else {
        None
    }
}

/// The task that a frame answers.
pub fn fan_response_task_index(tasks: &[LaneTask], seen: &[bool], frame: FanFrame) -> (r: Result<
    usize,
    Error,
>)
    requires
        seen@.len() == tasks@.len(),
    ensures
        match r {
            Ok(at) => {
                &&& answer_fault(tasks@, seen@, frame) is None
                &&& at == task_place(tasks@, frame.request_id)
                &&& at < tasks@.len()
            },
            Err(e) => answer_fault(tasks@, seen@, frame) == Some(e@),
        },
{
    let at: usize = place_of(tasks, frame.request_id);
    if at >= tasks.len() {
        return Err(corrupt("direct fan response has an unknown request id"));
    }
    if seen[at] {
        return Err(corrupt("direct fan response repeated a request id"));
    }
    let (op, offset, len): (FanOp, u64, u64) = match fan_task_geometry(&tasks[at]) {
        Ok(g) => g,
        Err(e) => {
            return Err(e);
        },
    };
    let expected: FanOp = if op == FanOp::Read {
        FanOp::ReadResponse
    } else {
        FanOp::WriteAck
    };
    if frame.op != expected || frame.shard != 0 || frame.len as u64 != len || frame.offset
        != offset {
        return Err(frame_error("direct fan response member mismatch", frame));
    }
    Ok(at)
}

/// The reads that a range answer covers from the task at `at` on, as long as they are unanswered,
/// follow each other without a gap and end within the range: how many there are, and where the
/// last of them ends. A read that reaches past the end of the range is an error.
pub open spec fn range_cover(
    tasks: Seq<LaneTask>,
    seen: Seq<bool>,
    at: int,
    cursor: int,
    end: int,
) -> Result<(nat, int), Fault>
    decreases tasks.len() - at,
{
    if at < 0 || at >= tasks.len() || seen[at] || !(tasks[at] is Read) || byte_offset(tasks[at])
        != cursor {
        Ok((0, cursor))
    } else if cursor + tasks[at].byte_len() > u64::MAX {
        Err(crate::error::bad_data("range cursor overflow"@))
    } else if cursor + tasks[at].byte_len() > end {
        Err(crate::error::bad_data("direct fan range response split a pending read"@))
    } else if cursor + tasks[at].byte_len() == end {
        Ok((1, end))
    } else {
        more_cover(range_cover(tasks, seen, at + 1, cursor + tasks[at].byte_len(), end), 1)
    }
}

/// `cover` with `n` more tasks.
pub open spec fn more_cover(cover: Result<(nat, int), Fault>, n: nat) -> Result<
    (nat, int),
    Fault,
> {
    match cover {
        Ok((m, stop)) => Ok((m + n, stop)),
        Err(e) => Err(e),
    }
}

/// The fault on which a range answer is refused, if it is.
pub open spec fn range_fault(tasks: Seq<LaneTask>, seen: Seq<bool>, range: FanFrame) -> Option<
    Fault,
> {
    let end = range.offset + range.len;
    let at = task_place(tasks, range.request_id);
    if end > u64::MAX {
        Some(crate::error::bad_data("range overflow"@))
    } else if range.op != FanOp::ReadResponse || range.shard != 0 || range.len == 0 || range.len
        % 4096 != 0 {
        Some(crate::error::bad_data("direct fan range response member is invalid"@))
    } else if at >= tasks.len() {
        Some(crate::error::bad_data("direct fan range response has an unknown first request id"@))
    } else {
        match range_cover(tasks, seen, at, range.offset as int, end) {
            Err(e) => Some(e),
            Ok((n, stop)) => if n == 0 || stop != end {
                Some(
                    crate::error::bad_data(
                        "direct fan range response omitted or added read bytes"@,
                    ),
                )
            } else {
                None
            },
        }
    }
}

/// What a reply settles: which tasks are answered afterwards, where in the bytes of the reply those
/// of each newly answered read begin, and how many bytes it has.
pub struct Settled {
    pub seen: Seq<bool>,
    pub starts: Seq<Option<u64>>,
    pub used: int,
}

/// `s` with the answer to one task.
pub open spec fn with_answer(tasks: Seq<LaneTask>, s: Settled, frame: FanFrame) -> Settled {
    let at = task_place(tasks, frame.request_id);
    if frame.op == FanOp::ReadResponse {
        Settled {
            seen: s.seen.update(at, true),
            starts: s.starts.update(at, Some(s.used as u64)),
            used: s.used + frame.len,
        }
    } else {
        Settled { seen: s.seen.update(at, true), ..s }
    }
}

/// `s` with the answer to a run of reads.
pub open spec fn with_range(tasks: Seq<LaneTask>, s: Settled, range: FanFrame) -> Settled {
    let at = task_place(tasks, range.request_id);
    let n = range_cover(
        tasks,
        s.seen,
        at,
        range.offset as int,
        range.offset + range.len,
    )->Ok_0.0;
    Settled {
        seen: Seq::new(s.seen.len(), |i: int| s.seen[i] || at <= i < at + n),
        starts: Seq::new(
            s.starts.len(),
            |i: int|
                if at <= i < at + n {
                    Some((s.used + byte_offset(tasks[i]) - range.offset) as u64)
                } else {
                    s.starts[i]
                },
        ),
        used: s.used + range.len,
    }
}

/// What a list of answers settles, one after the other; `ranges` says whether each answers a run of
/// reads.
pub open spec fn settle_all(
    tasks: Seq<LaneTask>,
    seen: Seq<bool>,
    ranges: bool,
    frames: Seq<FanFrame>,
) -> Result<Settled, Fault>
    decreases frames.len(),
{
    if frames.len() == 0 {
        Ok(Settled { seen, starts: Seq::new(tasks.len(), |i: int| None), used: 0 })
    } else {
        match settle_all(tasks, seen, ranges, frames.drop_last()) {
            Err(e) => Err(e),
            Ok(s) => {
                let f = frames.last();
                let fault = if ranges {
                    range_fault(tasks, s.seen, f)
                } else {
                    answer_fault(tasks, s.seen, f)
                };
                match fault {
                    Some(e) => Err(e),
                    None => Ok(
                        if ranges {
                            with_range(tasks, s, f)
                        } else {
                            with_answer(tasks, s, f)
                        },
                    ),
                }
            },
        }
    }
}

/// How many frames follow the outer frame of a reply.
pub open spec fn member_count(outer: FanFrame) -> Result<u32, Fault> {
    if outer.op == FanOp::ReadResponse || outer.op == FanOp::WriteAck {
        Ok(0)
    } else if outer.op == FanOp::BatchResponse && outer.shard != 0 {
        Err(crate::error::bad_data("direct fan batch response has a non-zero shard"@))
    } else if outer.op == FanOp::ReadRangeResponse && outer.shard != 0 {
        Err(crate::error::bad_data("direct fan range response has a non-zero shard"@))
    } else if outer.op == FanOp::BatchResponse || outer.op == FanOp::ReadRangeResponse {
        if outer.len == 0 {
            Err(crate::error::bad_data("direct fan response envelope is empty"@))
        } else {
            Ok(outer.len)
        }
    } else {
        Err(
            crate::error::bad_data(
                "unexpected direct fan response op="@ + crate::text::decimal_text(
                    outer.code as nat,
                ),
            ),
        )
    }
}

/// How many frames follow the outer frame of a reply.
pub fn fan_read_response_headers(outer: FanFrame) -> (r: Result<u32, Error>)
    ensures
        crate::error::agrees(r, member_count(outer)),
{
    if outer.op == FanOp::ReadResponse || outer.op == FanOp::WriteAck {
        return Ok(0);
    }
    if outer.op == FanOp::BatchResponse {
        if outer.shard != 0 {
            return Err(corrupt("direct fan batch response has a non-zero shard"));
        }
    } else if outer.op == FanOp::ReadRangeResponse {
        if outer.shard != 0 {
            return Err(corrupt("direct fan range response has a non-zero shard"));
        }
    } else {
        return Err(
            invalid_data(
                join2("unexpected direct fan response op=", decimal(outer.code as u64).as_str()),
            ),
        );
    }
    if outer.len == 0 {
        return Err(corrupt("direct fan response envelope is empty"));
    }
    Ok(outer.len)
}

/// What a reply settles: the outer frame and the frames that follow it.
pub open spec fn reply_settles(
    tasks: Seq<LaneTask>,
    seen: Seq<bool>,
    outer: FanFrame,
    members: Seq<FanFrame>,
) -> Result<Settled, Fault> {
    if outer.op == FanOp::ReadResponse || outer.op == FanOp::WriteAck {
        settle_all(tasks, seen, false, seq![outer])
    } else {
        match settle_all(tasks, seen, outer.op == FanOp::ReadRangeResponse, members) {
            Err(e) => Err(e),
            Ok(s) => if s.used != outer.offset {
                Err(
                    crate::error::bad_data(
                        if outer.op == FanOp::ReadRangeResponse {
                            "direct fan range response misstated read payload bytes"@
                        } else {
                            "direct fan batch response misstated read payload bytes"@
                        },
                    ),
                )
            } else {
                Ok(s)
            },
        }
    }
}

/// What a reply settles; its bytes have not been read yet.
#[derive(Debug)]
pub struct FanPlan {
    pub seen: Vec<bool>,
    pub starts: Vec<Option<u64>>,
    pub used: u64,
}

impl FanPlan {
    /// What the plan says.
    pub open spec fn settled(&self) -> Settled {
        Settled { seen: self.seen@, starts: self.starts@, used: self.used as int }
    }

    /// Whether the plan fits the tasks: exactly the reads that it newly answers have their place in
    /// the bytes of the reply.
    pub open spec fn fits(&self, tasks: Seq<LaneTask>, before: Seq<bool>) -> bool {
        settled_fits(self.settled(), tasks, before)
    }

    fn take_answer(&mut self, tasks: &[LaneTask], frame: FanFrame, Ghost(before): Ghost<Seq<bool>>) -> (r:
        Result<(), Error>)
        requires
            all_sendable(tasks@),
            old(self).fits(tasks@, before),
            old(self).used + u32::MAX <= u64::MAX,
        ensures
            match r {
                Ok(_) => {
                    &&& answer_fault(tasks@, old(self).seen@, frame) is None
                    &&& final(self).settled() == with_answer(tasks@, old(self).settled(), frame)
                    &&& final(self).fits(tasks@, before)
                    &&& final(self).used <= old(self).used + u32::MAX
                },
                Err(e) => answer_fault(tasks@, old(self).seen@, frame) == Some(e@),
            },
    {
        let at: usize = match fan_response_task_index(tasks, self.seen.as_slice(), frame) {
            Ok(at) => at,
            Err(e) => {
                return Err(e);
            },
        };
        let ghost prior = self.settled();
        if frame.op == FanOp::ReadResponse {
            self.starts[at] = Some(self.used);
            self.used = self.used + frame.len as u64;
        }
        self.seen[at] = true;
        proof {
            let next = self.settled();
            assert(next.seen =~= with_answer(tasks@, prior, frame).seen);
            assert(next.starts =~= with_answer(tasks@, prior, frame).starts);
            assert forall|i: int| #![trigger next.starts[i]] 0 <= i < tasks@.len() implies place_due(
                tasks@[i],
                before[i],
                next.seen[i],
                next.starts[i],
                next.used,
            ) by {
                assert(place_due(
                    tasks@[i],
                    before[i],
                    prior.seen[i],
                    prior.starts[i],
                    prior.used,
                ));
            }
        }
        Ok(())
    }

    fn take_range(&mut self, tasks: &[LaneTask], range: FanFrame, Ghost(before): Ghost<Seq<bool>>) -> (r:
        Result<(), Error>)
        requires
            all_sendable(tasks@),
            old(self).fits(tasks@, before),
            old(self).used + u32::MAX <= u64::MAX,
        ensures
            match r {
                Ok(_) => {
                    &&& range_fault(tasks@, old(self).seen@, range) is None
                    &&& final(self).settled() == with_range(tasks@, old(self).settled(), range)
                    &&& final(self).fits(tasks@, before)
                    &&& final(self).used <= old(self).used + u32::MAX
                },
                Err(e) => range_fault(tasks@, old(self).seen@, range) == Some(e@),
            },
    {
        let range_len: u64 = range.len as u64;
        let range_end: u64 = match range.offset.checked_add(range_len) {
            Some(end) => end,
            None => {
                return Err(corrupt("range overflow"));
            },
        };
        if range.op != FanOp::ReadResponse || range.shard != 0 || range_len == 0 || range_len % (
        BLOCK_SIZE as u64) != 0 {
            return Err(corrupt("direct fan range response member is invalid"));
        }
        let at: usize = place_of(tasks, range.request_id);
        if at >= tasks.len() {
            return Err(corrupt("direct fan range response has an unknown first request id"));
        }
        let ghost seen = self.seen@;
        let ghost whole = range_cover(
            tasks@,
            seen,
            at as int,
            range.offset as int,
            range_end as int,
        );
        let mut n: usize = 0;
        let mut cursor: u64 = range.offset;
        let mut open: bool = true;
        let total: usize = tasks.len();
        let self_seen: &Vec<bool> = &self.seen;
        while open && n < total - at
            invariant
                all_sendable(tasks@),
                seen == self_seen@,
                seen == old(self).seen@,
                seen.len() == total,
                total == tasks@.len(),
                at < total,
                n <= total - at,
                range.offset <= cursor <= range_end,
                whole == range_cover(
                    tasks@,
                    seen,
                    at as int,
                    range.offset as int,
                    range_end as int,
                ),
                range_fault(tasks@, seen, range) == (match whole {
                    Err(e) => Some(e),
                    Ok((m, stop)) => if m == 0 || stop != range_end {
                        Some(
                            crate::error::bad_data(
                                "direct fan range response omitted or added read bytes"@,
                            ),
                        )
                    } else {
                        None
                    },
                }),
                open ==> more_cover(
                    range_cover(tasks@, seen, at + n, cursor as int, range_end as int),
                    n as nat,
                ) == whole,
                !open ==> whole == Ok::<(nat, int), Fault>((n as nat, cursor as int)),
                forall|i: int|
                    at <= i < at + n ==> !seen[i] && (#[trigger] tasks@[i]) is Read && range.offset
                        <= byte_offset(tasks@[i]) && byte_offset(tasks@[i]) + tasks@[i].byte_len()
                        <= cursor,
            decreases (total - at - n) + (if open {
                1int
            } else {
                0int
            }),
        {
            let k: usize = at + n;
            assert(sendable(tasks@[k as int]));
            let (op, offset, len): (FanOp, u64, u64) = match fan_task_geometry(&tasks[k]) {
                Ok(g) => g,
                Err(e) => {
                    return Err(e);
                },
            };
            if self_seen[k] || op != FanOp::Read || offset != cursor {
                open = false;
            } else {
                let end: u64 = match cursor.checked_add(len) {
                    Some(end) => end,
                    None => {
                        return Err(corrupt("range cursor overflow"));
                    },
                };
                if end > range_end {
                    return Err(corrupt("direct fan range response split a pending read"));
                }
                cursor = end;
                n = n + 1;
                if cursor == range_end {
                    open = false;
                }
            }
        }
        assert(whole == Ok::<(nat, int), Fault>((n as nat, cursor as int)));
        if n == 0 || cursor != range_end {
            return Err(corrupt("direct fan range response omitted or added read bytes"));
        }
        let ghost prior = self.settled();
        let base: u64 = self.used;
        let mut i: usize = at;
        while i < at + n
            invariant
                all_sendable(tasks@),
                at <= i <= at + n,
                at + n <= total,
                total == tasks@.len(),
                base == prior.used,
                base + u32::MAX <= u64::MAX,
                self.used == base,
                prior.seen.len() == total,
                prior.starts.len() == total,
                self.seen@.len() == total,
                self.starts@.len() == total,
                range_end == range.offset + range.len,
                forall|k: int|
                    at <= k < at + n ==> !prior.seen[k] && (#[trigger] tasks@[k]) is Read
                        && range.offset <= byte_offset(tasks@[k]) && byte_offset(tasks@[k])
                        + tasks@[k].byte_len() <= range_end,
                forall|k: int|
                    0 <= k < total ==> #[trigger] self.seen@[k] == (prior.seen[k] || at <= k < i),
                forall|k: int|
                    0 <= k < total ==> #[trigger] self.starts@[k] == if at <= k < i {
                        Some((base + byte_offset(tasks@[k]) - range.offset) as u64)
                    } else {
                        prior.starts[k]
                    },
            decreases at + n - i,
        {
            assert(tasks@[i as int] is Read && sendable(tasks@[i as int]));
            let (op, offset, len): (FanOp, u64, u64) = match fan_task_geometry(&tasks[i]) {
                Ok(g) => g,
                Err(e) => {
                    return Err(e);
                },
            };
            self.starts[i] = Some(base + (offset - range.offset));
            self.seen[i] = true;
            i = i + 1;
        }
        self.used = base + range_len;
        proof {
            let next = self.settled();
            assert(next.seen =~= with_range(tasks@, prior, range).seen);
            assert(next.starts =~= with_range(tasks@, prior, range).starts);
            assert forall|i: int| #![trigger next.starts[i]] 0 <= i < tasks@.len() implies place_due(
                tasks@[i],
                before[i],
                next.seen[i],
                next.starts[i],
                next.used,
            ) by {
                assert(place_due(
                    tasks@[i],
                    before[i],
                    prior.seen[i],
                    prior.starts[i],
                    prior.used,
                ));
                if at <= i < at + n {
                    assert(tasks@[i] is Read);
                }
            }
        }
        Ok(())
    }
}

/// Whether a task has its place in the bytes of a reply exactly when the reply newly answers it and
/// it is a read; and then all its bytes are there.
pub open spec fn place_due(
    task: LaneTask,
    before: bool,
    seen: bool,
    start: Option<u64>,
    used: int,
) -> bool {
    &&& before ==> seen
    &&& match start {
        Some(at) => seen && !before && task is Read && at + task.byte_len() <= used,
        None => !seen || before || !(task is Read),
    }
}

/// Whether what was settled fits the tasks.
pub open spec fn settled_fits(s: Settled, tasks: Seq<LaneTask>, before: Seq<bool>) -> bool {
    &&& s.seen.len() == tasks.len()
    &&& s.starts.len() == tasks.len()
    &&& before.len() == tasks.len()
    &&& forall|i: int|
        #![trigger s.starts[i]]
        0 <= i < tasks.len() ==> place_due(tasks[i], before[i], s.seen[i], s.starts[i], s.used)
}

/// How many of a list of flags are not set.
pub open spec fn count_false(s: Seq<bool>) -> nat
    decreases s.len(),
{
    if s.len() == 0 {
        0
    } else {
        count_false(s.drop_last()) + if s.last() {
            0nat
        } else {
            1
        }
    }
}

proof fn lemma_count_false_zero(s: Seq<bool>)
    ensures
        count_false(s) == 0 <==> forall|i: int| 0 <= i < s.len() ==> #[trigger] s[i],
    decreases s.len(),
{
    if s.len() > 0 {
        lemma_count_false_zero(s.drop_last());
        if count_false(s) == 0 {
            assert forall|i: int| 0 <= i < s.len() implies #[trigger] s[i] by {
                if i < s.len() - 1 {
                    assert(s.drop_last()[i]);
                }
            }
        } else if forall|i: int| 0 <= i < s.len() ==> #[trigger] s[i] {
            assert(s[s.len() - 1]);
            assert forall|i: int| 0 <= i < s.drop_last().len() implies #[trigger] s.drop_last()[i] by {
                assert(s[i]);
            }
        }
    }
}

/// Whether the payload of a task is there exactly when it is due: after the answer to a read, with
/// the length of the read.
pub open spec fn payload_due(task: LaneTask, seen: bool, payload: Option<Vec<u8>>) -> bool {
    if seen && task is Read {
        payload is Some && payload->0@.len() == task.byte_len()
    } else {
        payload is None
    }
}

/// The tasks of one window, which of them have been answered, and the bytes of the reads.
#[derive(Debug)]
pub struct FanWindow {
    pub tasks: Vec<LaneTask>,
    pub seen: Vec<bool>,
    pub payloads: Vec<Option<Vec<u8>>>,
}

impl FanWindow {
    /// Whether the parts of the window fit together.
    pub open spec fn wf(&self) -> bool {
        &&& self.seen@.len() == self.tasks@.len()
        &&& self.payloads@.len() == self.tasks@.len()
        &&& all_sendable(self.tasks@)
        &&& forall|i: int|
            #![trigger self.payloads@[i]]
            0 <= i < self.tasks@.len() ==> payload_due(
                self.tasks@[i],
                self.seen@[i],
                self.payloads@[i],
            )
    }

    /// A window in which nothing has been answered yet.
    pub fn new(tasks: Vec<LaneTask>) -> (w: FanWindow)
        requires
            all_sendable(tasks@),
        ensures
            w.wf(),
            w.tasks == tasks,
            w.seen@ == Seq::new(tasks@.len(), |i: int| false),
            forall|i: int| 0 <= i < tasks@.len() ==> (#[trigger] w.payloads@[i]) is None,
    {
        let n: usize = tasks.len();
        let mut seen: Vec<bool> = Vec::new();
        let mut payloads: Vec<Option<Vec<u8>>> = Vec::new();
        let mut i: usize = 0;
        while i < n
            invariant
                i <= n,
                seen@ == Seq::new(i as nat, |k: int| false),
                payloads@.len() == i,
                forall|k: int| 0 <= k < i ==> #[trigger] payloads@[k] is None,
            decreases n - i,
        {
            seen.push(false);
            payloads.push(None);
            proof {
                assert(seen@ =~= Seq::new((i + 1) as nat, |k: int| false));
            }
            i = i + 1;
        }
        FanWindow { tasks, seen, payloads }
    }

    /// How many tasks have not been answered.
    pub fn remaining(&self) -> (n: usize)
        ensures
            n == count_false(self.seen@),
    {
        let mut n: usize = 0;
        let mut i: usize = 0;
        proof {
            assert(self.seen@.subrange(0, 0) =~= Seq::<bool>::empty());
        }
        while i < self.seen.len()
            invariant
                n <= i <= self.seen@.len(),
                n == count_false(self.seen@.subrange(0, i as int)),
            decreases self.seen@.len() - i,
        {
            proof {
                assert(self.seen@.subrange(0, i + 1).drop_last() =~= self.seen@.subrange(
                    0,
                    i as int,
                ));
            }
            if !self.seen[i] {
                n = n + 1;
            }
            i = i + 1;
        }
        proof {
            assert(self.seen@.subrange(0, i as int) =~= self.seen@);
        }
        n
    }

    /// What a reply settles: its outer frame, and the frames that followed it where there were any.
    /// The bytes of the reads follow; the plan says how many there are and whose they are.
    pub fn fan_receive_task_responses(&self, outer: FanFrame, members: &[FanFrame]) -> (r: Result<
        FanPlan,
        Error,
    >)
        requires
            self.wf(),
            member_count(outer) == Ok::<u32, Fault>(members@.len() as u32),
            members@.len() <= u32::MAX,
        ensures
            match r {
                Ok(plan) => {
                    &&& reply_settles(self.tasks@, self.seen@, outer, members@) == Ok::<
                        Settled,
                        Fault,
                    >(plan.settled())
                    &&& plan.fits(self.tasks@, self.seen@)
                },
                Err(e) => reply_settles(self.tasks@, self.seen@, outer, members@) == Err::<
                    Settled,
                    Fault,
                >(e@),
            },
    {
        let n: usize = self.tasks.len();
        let mut seen: Vec<bool> = Vec::new();
        let mut starts: Vec<Option<u64>> = Vec::new();
        let mut i: usize = 0;
        while i < n
            invariant
                i <= n,
                n == self.tasks@.len(),
                self.wf(),
                seen@ == self.seen@.subrange(0, i as int),
                starts@ == Seq::new(i as nat, |k: int| None::<u64>),
            decreases n - i,
        {
            seen.push(self.seen[i]);
            starts.push(None);
            proof {
                assert(seen@ =~= self.seen@.subrange(0, i + 1));
                assert(starts@ =~= Seq::new((i + 1) as nat, |k: int| None::<u64>));
            }
            i = i + 1;
        }
        let mut plan: FanPlan = FanPlan { seen, starts, used: 0 };
        let ghost before = self.seen@;
        let tasks: &[LaneTask] = self.tasks.as_slice();
        proof {
            assert(plan.seen@ =~= self.seen@);
            assert(plan.fits(self.tasks@, before));
        }
        if outer.op == FanOp::ReadResponse || outer.op == FanOp::WriteAck {
            proof {
                reveal_with_fuel(settle_all, 2);
                assert(seq![outer].drop_last() =~= Seq::<FanFrame>::empty());
                assert(seq![outer].last() == outer);
            }
            return match plan.take_answer(tasks, outer, Ghost(before)) {
                Ok(_) => Ok(plan),
                Err(e) => Err(e),
            };
        }
        let ranges: bool = outer.op == FanOp::ReadRangeResponse;
        let count: usize = members.len();
        let mut k: usize = 0;
        proof {
            assert(members@.subrange(0, 0) =~= Seq::<FanFrame>::empty());
        }
        while k < count
            invariant
                k <= count,
                count == members@.len(),
                count <= u32::MAX,
                self.wf(),
                tasks@ == self.tasks@,
                before == self.seen@,
                ranges == (outer.op == FanOp::ReadRangeResponse),
                outer.op != FanOp::ReadResponse && outer.op != FanOp::WriteAck,
                plan.fits(tasks@, before),
                plan.used <= k * u32::MAX,
                settle_all(tasks@, before, ranges, members@.subrange(0, k as int)) == Ok::<
                    Settled,
                    Fault,
                >(plan.settled()),
            decreases count - k,
        {
            let frame: FanFrame = members[k];
            proof {
                let grown = members@.subrange(0, k + 1);
                assert(grown.drop_last() =~= members@.subrange(0, k as int));
                assert(grown.last() == frame);
                assert(k * u32::MAX + u32::MAX <= u64::MAX) by (nonlinear_arith)
                    requires
                        k < u32::MAX,
                ;
                assert((k + 1) * u32::MAX == k * u32::MAX + u32::MAX) by (nonlinear_arith);
            }
            let step: Result<(), Error> = if ranges {
                plan.take_range(tasks, frame, Ghost(before))
            } else {
                plan.take_answer(tasks, frame, Ghost(before))
            };
            match step {
                Ok(_) => {},
                Err(e) => {
                    proof {
                        lemma_settle_fails(tasks@, before, ranges, members@, k + 1);
                    }
                    return Err(e);
                },
            }
            k = k + 1;
        }
        proof {
            assert(members@.subrange(0, k as int) =~= members@);
        }
        if outer.offset != plan.used {
            if ranges {
                return Err(corrupt("direct fan range response misstated read payload bytes"));
            }
            return Err(corrupt("direct fan batch response misstated read payload bytes"));
        }
        Ok(plan)
    }

    /// Takes the bytes of a reply: every read that the plan newly answers gets its own.
    pub fn settle(&mut self, plan: FanPlan, bytes: &[u8])
        requires
            old(self).wf(),
            plan.fits(old(self).tasks@, old(self).seen@),
            bytes@.len() == plan.used,
        ensures
            final(self).wf(),
            final(self).tasks == old(self).tasks,
            final(self).seen == plan.seen,
            forall|i: int|
                0 <= i < old(self).tasks@.len() ==> match plan.starts@[i] {
                    Some(at) => (#[trigger] final(self).payloads@[i]) is Some && final(self).payloads@[i]->0@ == bytes@.subrange(
                        at as int,
                        at + old(self).tasks@[i].byte_len(),
                    ),
                    None => final(self).payloads@[i] == old(self).payloads@[i],
                },
    {
        let n: usize = self.tasks.len();
        let ghost before = *self;
        let len: usize = bytes.len();
        let mut i: usize = 0;
        while i < n
            invariant
                i <= n,
                n == self.tasks@.len(),
                before == *old(self),
                before.wf(),
                self.tasks == before.tasks,
                self.seen == before.seen,
                self.payloads@.len() == n,
                plan.fits(before.tasks@, before.seen@),
                bytes@.len() == plan.used,
                len == bytes@.len(),
                forall|k: int|
                    0 <= k < i ==> match plan.starts@[k] {
                        Some(at) => (#[trigger] self.payloads@[k]) is Some
                            && self.payloads@[k]->0@ == bytes@.subrange(
                            at as int,
                            at + before.tasks@[k].byte_len(),
                        ),
                        None => self.payloads@[k] == before.payloads@[k],
                    },
                forall|k: int|
                    i <= k < n ==> #[trigger] self.payloads@[k] == before.payloads@[k],
            decreases n - i,
        {
            proof {
                let s = plan.settled();
                assert(place_due(
                    before.tasks@[i as int],
                    before.seen@[i as int],
                    s.seen[i as int],
                    s.starts[i as int],
                    s.used,
                ));
                assert(sendable(before.tasks@[i as int]));
            }
            match plan.starts[i] {
                Some(at) => {
                    let (op, offset, size): (FanOp, u64, u64) = match fan_task_geometry(
                        &self.tasks[i],
                    ) {
                        Ok(g) => g,
                        Err(_) => (FanOp::Unknown, 0, 0),
                    };
                    let start: usize = at as usize;
                    let end: usize = (at + size) as usize;
                    self.payloads[i] = Some(copy_range(bytes, start, end));
                },
                None => {},
            }
            i = i + 1;
        }
        self.seen = plan.seen;
        proof {
            assert forall|k: int| #![trigger self.payloads@[k]] 0 <= k < n implies payload_due(
                self.tasks@[k],
                self.seen@[k],
                self.payloads@[k],
            ) by {
                let s = plan.settled();
                assert(place_due(
                    before.tasks@[k],
                    before.seen@[k],
                    s.seen[k],
                    s.starts[k],
                    s.used,
                ));
                assert(payload_due(before.tasks@[k], before.seen@[k], before.payloads@[k]));
            }
        }
    }
}

proof fn lemma_settle_fails(
    tasks: Seq<LaneTask>,
    seen: Seq<bool>,
    ranges: bool,
    frames: Seq<FanFrame>,
    k: int,
)
    requires
        0 <= k <= frames.len(),
        settle_all(tasks, seen, ranges, frames.subrange(0, k)) is Err,
    ensures
        settle_all(tasks, seen, ranges, frames) == settle_all(
            tasks,
            seen,
            ranges,
            frames.subrange(0, k),
        ),
    decreases frames.len(),
{
    if k == frames.len() {
        assert(frames.subrange(0, k) =~= frames);
    } else {
        assert(frames.drop_last().subrange(0, k) =~= frames.subrange(0, k));
        lemma_settle_fails(tasks, seen, ranges, frames.drop_last(), k);
    }
}

/// Judges the answer to a request to drain.
pub fn fan_sync(response: FanFrame) -> (r: Result<(), Error>)
    ensures
        crate::error::agrees(
            r,
            if response.op == FanOp::SyncAck && response.shard == 0 && response.len == 0
                && response.offset == 0 {
                Ok(())
            } else {
                Err(
                    crate::error::bad_data(
                        "direct fan SYNC response mismatch"@ + frame_text(response),
                    ),
                )
            },
        ),
{
    if response.op != FanOp::SyncAck || response.shard != 0 || response.len != 0 || response.offset
        != 0 {
        return Err(frame_error("direct fan SYNC response mismatch", response));
    }
    Ok(())
}

/// The frames of a wire batch: the envelope, where there is more than one task, and a frame for
/// each task.
#[derive(Debug)]
pub struct FanWire {
    pub envelope: Option<FanFrame>,
    pub frames: Vec<FanFrame>,
}

/// The frame that asks for a task.
pub open spec fn task_frame(task: LaneTask) -> FanFrame {
    FanFrame {
        op: if task is Write {
            FanOp::Write
        } else {
            FanOp::Read
        },
        code: 0,
        shard: 0,
        len: task.byte_len() as u32,
        offset: byte_offset(task) as u64,
        request_id: request_id(task.command_of()->0),
    }
}

/// How many bytes the writes of a list of tasks send.
pub open spec fn write_bytes(tasks: Seq<LaneTask>) -> int
    decreases tasks.len(),
{
    if tasks.len() == 0 {
        0
    } else {
        write_bytes(tasks.drop_last()) + if tasks.last() is Write {
            tasks.last().byte_len()
        } else {
            0
        }
    }
}

/// Whether some task starts at a byte that cannot be addressed.
pub open spec fn unaddressed(tasks: Seq<LaneTask>) -> bool {
    exists|i: int| 0 <= i < tasks.len() && byte_offset(#[trigger] tasks[i]) > u64::MAX
}

/// The frames that send one to 64 tasks together.
pub fn fan_send_tasks(tasks: &[LaneTask]) -> (r: Result<FanWire, Error>)
    requires
        forall|i: int|
            0 <= i < tasks@.len() ==> (#[trigger] tasks@[i]).command_of() is Some
                && tasks@[i].byte_len() <= u32::MAX,
    ensures
        match r {
            Ok(wire) => {
                &&& 1 <= tasks@.len() <= 64
                &&& all_sendable(tasks@)
                &&& wire.frames@ == Seq::new(tasks@.len(), |i: int| task_frame(tasks@[i]))
                &&& wire.envelope == if tasks@.len() == 1 {
                    None
                } else {
                    Some(
                        FanFrame {
                            op: FanOp::Batch,
                            code: 0,
                            shard: 0,
                            len: tasks@.len() as u32,
                            offset: write_bytes(tasks@) as u64,
                            request_id: 0,
                        },
                    )
                }
            },
            Err(e) => if tasks@.len() == 0 || tasks@.len() > 64 {
                e@ == crate::error::bad_input("direct fan wire batch must contain 1..=64 tasks"@)
            } else {
                unaddressed(tasks@) && e@ == crate::error::bad_input("fan LBA overflow"@)
            },
        },
{
    if tasks.len() == 0 || tasks.len() > LANE_PIPELINE {
        return Err(invalid("direct fan wire batch must contain 1..=64 tasks"));
    }
    let mut frames: Vec<FanFrame> = Vec::new();
    let mut payload: u64 = 0;
    let mut i: usize = 0;
    proof {
        assert(tasks@.subrange(0, 0) =~= Seq::<LaneTask>::empty());
    }
    while i < tasks.len()
        invariant
            i <= tasks@.len(),
            1 <= tasks@.len() <= 64,
            forall|k: int|
                0 <= k < tasks@.len() ==> (#[trigger] tasks@[k]).command_of() is Some
                    && tasks@[k].byte_len() <= u32::MAX,
            forall|k: int| 0 <= k < i ==> byte_offset(#[trigger] tasks@[k]) <= u64::MAX,
            frames@ == Seq::new(i as nat, |k: int| task_frame(tasks@[k])),
            payload == write_bytes(tasks@.subrange(0, i as int)),
            payload <= i * u32::MAX,
        decreases tasks@.len() - i,
    {
        proof {
            let grown = tasks@.subrange(0, i + 1);
            assert(grown.drop_last() =~= tasks@.subrange(0, i as int));
            assert(grown.last() == tasks@[i as int]);
        }
        assert(tasks@[i as int].command_of() is Some);
        let (op, offset, len): (FanOp, u64, u64) = match fan_task_geometry(&tasks[i]) {
            Ok(g) => g,
            Err(e) => {
                assert(byte_offset(tasks@[i as int]) > u64::MAX);
                return Err(e);
            },
        };
        let request_id: u64 = match fan_task_command(&tasks[i]) {
            Some(command) => fan_request_id(command),
            None => 0,
        };
        frames.push(FanFrame { op, code: 0, shard: 0, len: len as u32, offset, request_id });
        if op == FanOp::Write {
            payload = payload + len;
        }
        proof {
            assert(frames@ =~= Seq::new((i + 1) as nat, |k: int| task_frame(tasks@[k])));
        }
        i = i + 1;
    }
    proof {
        assert(tasks@.subrange(0, i as int) =~= tasks@);
    }
    let envelope: Option<FanFrame> = if tasks.len() == 1 {
        None
    } else {
        Some(
            FanFrame {
                op: FanOp::Batch,
                code: 0,
                shard: 0,
                len: tasks.len() as u32,
                offset: payload,
                request_id: 0,
            },
        )
    };
    Ok(FanWire { envelope, frames })
}

/// What is told of a task whose window has been answered.
pub open spec fn window_completion(task: LaneTask, payload: Option<Vec<u8>>) -> CompletionView {
    if task is Read {
        CompletionView::Data { command: task.command_of()->0, payload: payload->0@ }
    } else {
        CompletionView::Good { command: task.command_of()->0 }
    }
}

/// How many blocks the reads, or else the writes, of a list of tasks move.
pub open spec fn blocks_moved(tasks: Seq<LaneTask>, writes: bool) -> int
    decreases tasks.len(),
{
    if tasks.len() == 0 {
        0
    } else {
        blocks_moved(tasks.drop_last(), writes) + if writes == tasks.last() is Write {
            tasks.last().byte_len() / 4096
        } else {
            0
        }
    }
}

/// How many writes of a list of tasks have to be durable when they are answered.
pub open spec fn fua_count(tasks: Seq<LaneTask>) -> nat
    decreases tasks.len(),
{
    if tasks.len() == 0 {
        0
    } else {
        fua_count(tasks.drop_last()) + if tasks.last().is_fua() {
            1nat
        } else {
            0
        }
    }
}

/// How many writes of a list of tasks have to be durable when they are answered: where there are
/// any, the lane drains before it answers.
pub fn fua_writes(tasks: &[LaneTask]) -> (n: u64)
    ensures
        n == fua_count(tasks@),
        n <= tasks@.len(),
{
    let mut n: u64 = 0;
    let mut i: usize = 0;
    proof {
        assert(tasks@.subrange(0, 0) =~= Seq::<LaneTask>::empty());
    }
    while i < tasks.len()
        invariant
            n <= i <= tasks@.len(),
            n == fua_count(tasks@.subrange(0, i as int)),
        decreases tasks@.len() - i,
    {
        proof {
            assert(tasks@.subrange(0, i + 1).drop_last() =~= tasks@.subrange(0, i as int));
        }
        if tasks[i].fua() {
            n = n + 1;
        }
        i = i + 1;
    }
    proof {
        assert(tasks@.subrange(0, i as int) =~= tasks@);
    }
    n
}

/// What a window adds to the counts of its lane.
pub open spec fn window_counts(tasks: Seq<LaneTask>, counts: LaneCounts) -> LaneCounts {
    LaneCounts {
        reads: (counts.reads + blocks_moved(tasks, false)) as u64,
        writes: (counts.writes + blocks_moved(tasks, true)) as u64,
        fua_writes: (counts.fua_writes + fua_count(tasks)) as u64,
        fua_drains: (counts.fua_drains + if fua_count(tasks) > 0 {
            1int
        } else {
            0
        }) as u64,
        ..counts
    }
}

proof fn lemma_blocks_moved_grow(tasks: Seq<LaneTask>, n: int, write: bool)
    requires
        0 <= n <= tasks.len(),
    ensures
        0 <= blocks_moved(tasks.subrange(0, n), write) <= blocks_moved(tasks, write),
    decreases tasks.len() - n,
{
    lemma_blocks_moved_positive(tasks.subrange(0, n), write);
    if n < tasks.len() {
        lemma_blocks_moved_grow(tasks, n + 1, write);
        assert(tasks.subrange(0, n + 1).drop_last() =~= tasks.subrange(0, n));
    } else {
        assert(tasks.subrange(0, n) =~= tasks);
    }
}

proof fn lemma_blocks_moved_positive(tasks: Seq<LaneTask>, write: bool)
    ensures
        0 <= blocks_moved(tasks, write),
    decreases tasks.len(),
{
    if tasks.len() > 0 {
        lemma_blocks_moved_positive(tasks.drop_last(), write);
    }
}

/// Counts a window whose tasks have all been answered, and says what is told the initiator, in the
/// order in which the tasks came.
pub fn fan_complete_window(window: FanWindow, counts: &mut LaneCounts) -> (r: Vec<Completion>)
    requires
        window.wf(),
        count_false(window.seen@) == 0,
        old(counts).has_room(
            1 + window.tasks@.len() + blocks_moved(window.tasks@, false) + blocks_moved(
                window.tasks@,
                true,
            ),
        ),
    ensures
        *final(counts) == window_counts(window.tasks@, *old(counts)),
        r@.len() == window.tasks@.len(),
        forall|i: int|
            0 <= i < r@.len() ==> (#[trigger] r@[i])@ == window_completion(
                window.tasks@[i],
                window.payloads@[i],
            ),
{
    let mut window: FanWindow = window;
    let ghost whole = window;
    let ghost start = *counts;
    let n: usize = window.tasks.len();
    let fua: u64 = fua_writes(window.tasks.as_slice());
    proof {
        lemma_blocks_moved_positive(whole.tasks@, false);
        lemma_blocks_moved_positive(whole.tasks@, true);
    }
    if fua != 0 {
        counts.fua_writes = counts.fua_writes + fua;
        counts.fua_drains = counts.fua_drains + 1;
    }
    let ghost drained = *counts;
    let mut told: Vec<Completion> = Vec::new();
    let mut i: usize = 0;
    proof {
        lemma_count_false_zero(whole.seen@);
        lemma_blocks_moved_grow(whole.tasks@, 0, false);
        lemma_blocks_moved_grow(whole.tasks@, 0, true);
        assert(whole.tasks@.subrange(0, 0) =~= Seq::<LaneTask>::empty());
    }
    while i < n
        invariant
            i <= n,
            n == whole.tasks@.len(),
            whole.wf(),
            window.tasks == whole.tasks,
            window.payloads@.len() == n,
            forall|k: int| 0 <= k < n ==> #[trigger] whole.seen@[k],
            forall|k: int| i <= k < n ==> #[trigger] window.payloads@[k] == whole.payloads@[k],
            told@.len() == i,
            forall|k: int|
                0 <= k < i ==> (#[trigger] told@[k])@ == window_completion(
                    whole.tasks@[k],
                    whole.payloads@[k],
                ),
            start.has_room(
                1 + n + blocks_moved(whole.tasks@, false) + blocks_moved(whole.tasks@, true),
            ),
            *counts == (LaneCounts {
                reads: (start.reads + blocks_moved(whole.tasks@.subrange(0, i as int), false))
                    as u64,
                writes: (start.writes + blocks_moved(whole.tasks@.subrange(0, i as int), true))
                    as u64,
                ..drained
            }),
            0 <= blocks_moved(whole.tasks@.subrange(0, i as int), false),
            0 <= blocks_moved(whole.tasks@.subrange(0, i as int), true),
        decreases n - i,
    {
        proof {
            assert(whole.tasks@.subrange(0, i + 1).drop_last() =~= whole.tasks@.subrange(
                0,
                i as int,
            ));
            assert(whole.tasks@.subrange(0, i + 1).last() == whole.tasks@[i as int]);
            lemma_blocks_moved_grow(whole.tasks@, i + 1, false);
            lemma_blocks_moved_grow(whole.tasks@, i + 1, true);
            assert(sendable(whole.tasks@[i as int]));
            assert(whole.seen@[i as int]);
            assert(payload_due(
                whole.tasks@[i as int],
                whole.seen@[i as int],
                whole.payloads@[i as int],
            ));
        }
        let payload: Option<Vec<u8>> = window.payloads[i].take();
        match &window.tasks[i] {
            LaneTask::Read { command, blocks, .. } => {
                counts.reads = counts.reads + *blocks as u64;
                match payload {
                    Some(payload) => told.push(Completion::Data { command: *command, payload }),
                    None => {},
                }
            },
            LaneTask::Write { command, payload: blocks, .. } => {
                counts.writes = counts.writes + (blocks.len() / BLOCK_SIZE as usize) as u64;
                told.push(Completion::Good { command: *command });
            },
            LaneTask::Barrier => {},
        }
        i = i + 1;
    }
    proof {
        assert(whole.tasks@.subrange(0, i as int) =~= whole.tasks@);
    }
    told
}

/// A window that is being gathered.
#[derive(Debug)]
pub struct FanGather {
    pub window: usize,
    pub tasks: Vec<LaneTask>,
    pub stop_at_fua: bool,
    pub barrier: bool,
    pub spin_single: bool,
}

impl FanGather {
    /// Whether what has been gathered moves data, is not empty, keeps the window, and holds a write
    /// that has to be durable in the last place only.
    pub open spec fn wf(&self) -> bool {
        &&& 1 <= self.tasks@.len()
        &&& self.tasks@.len() <= self.window
        &&& self.stop_at_fua == self.tasks@.last().is_fua()
        &&& forall|i: int|
            0 <= i < self.tasks@.len() ==> (#[trigger] self.tasks@[i]).command_of() is Some
        &&& forall|i: int|
            0 <= i < self.tasks@.len() - 1 ==> !(#[trigger] self.tasks@[i]).is_fua()
    }

    /// Starts with the first task. `spin_single` says that it was there when the lane looked.
    pub fn new(window: usize, first: LaneTask, spin_single: bool) -> (g: FanGather)
        requires
            window >= 1,
            first.command_of() is Some,
        ensures
            g.wf(),
            g.tasks@ == seq![first],
            g.window == window,
            !g.barrier,
            g.spin_single == spin_single,
    {
        let stop_at_fua: bool = first.fua();
        let mut tasks: Vec<LaneTask> = Vec::new();
        tasks.push(first);
        FanGather { window, tasks, stop_at_fua, barrier: false, spin_single }
    }

    /// Whether another task may join.
    pub fn open(&self) -> (yes: bool)
        ensures
            yes == (self.tasks@.len() < self.window && !self.stop_at_fua && !self.barrier),
    {
        self.tasks.len() < self.window && !self.stop_at_fua && !self.barrier
    }

    /// Takes a task that was there; a barrier closes the window and waits for the next round.
    pub fn run_fan_lane(&mut self, task: LaneTask)
        requires
            old(self).wf(),
            old(self).tasks@.len() < old(self).window,
            !old(self).stop_at_fua,
            !old(self).barrier,
        ensures
            final(self).wf(),
            final(self).window == old(self).window,
            final(self).spin_single == old(self).spin_single,
            final(self).barrier == (task is Barrier),
            final(self).tasks@ == if task is Barrier {
                old(self).tasks@
            } else {
                old(self).tasks@.push(task)
            },
    {
        match task {
            LaneTask::Barrier => {
                self.barrier = true;
            },
            _ => {
                self.stop_at_fua = task.fua();
                self.tasks.push(task);
            },
        }
    }

    /// Whether the lane looks again after it found nothing. `may_spin` says that spinning is
    /// switched on and its time is not over.
    pub fn looks_again(&self, may_spin: bool) -> (yes: bool)
        ensures
            yes == ((self.tasks@.len() > 1 || self.spin_single) && may_spin),
    {
        (self.tasks.len() > 1 || self.spin_single) && may_spin
    }

    /// Counts the window that has been gathered.
    pub fn count(&self, counts: &mut LaneCounts)
        requires
            old(counts).has_room((1 + self.tasks@.len()) as int),
        ensures
            *final(counts) == (LaneCounts {
                fan_batches: (old(counts).fan_batches + 1) as u64,
                fan_tasks: (old(counts).fan_tasks + self.tasks@.len()) as u64,
                max_fan_batch: if self.tasks@.len() > old(counts).max_fan_batch {
                    self.tasks@.len() as usize
                } else {
                    old(counts).max_fan_batch
                },
                ..*old(counts)
            }),
    {
        counts.fan_batches = counts.fan_batches + 1;
        counts.fan_tasks = counts.fan_tasks + self.tasks.len() as u64;
        if self.tasks.len() > counts.max_fan_batch {
            counts.max_fan_batch = self.tasks.len();
        }
    }
}

/// Once no answer is left to come, every task has been answered, and every read has all its bytes.
pub proof fn law_full_window_has_every_payload(w: FanWindow, i: int)
    requires
        w.wf(),
        count_false(w.seen@) == 0,
        0 <= i < w.tasks@.len(),
    ensures
        w.seen@[i],
        w.tasks@[i] is Read ==> w.payloads@[i] is Some && w.payloads@[i]->0@.len()
            == w.tasks@[i].byte_len(),
{
    lemma_count_false_zero(w.seen@);
    assert(w.seen@[i]);
    assert(payload_due(w.tasks@[i], w.seen@[i], w.payloads@[i]));
}

/// A task that has been answered is never answered again: a reply that answers it is refused.
pub proof fn law_an_answer_is_not_repeated(tasks: Seq<LaneTask>, seen: Seq<bool>, frame: FanFrame)
    requires
        seen.len() == tasks.len(),
        task_place(tasks, frame.request_id) < tasks.len(),
        seen[task_place(tasks, frame.request_id)],
        0 <= task_place(tasks, frame.request_id),
    ensures
        answer_fault(tasks, seen, frame) is Some,
        range_fault(tasks, seen, frame) is Some,
{
}

/// A frame asks for the task's own bytes: it has the offset of the task's first block and the length of
/// the task, and its identifier is the command's sequence number and task tag.
pub proof fn law_frames_ask_for_the_bytes_of_their_task(task: LaneTask)
    requires
        sendable(task),
    ensures
        ({
            let frame = task_frame(task);
            let command = task.command_of()->0;
            &&& frame.request_id / 0x1_0000_0000 == command.cmd_sn
            &&& frame.shard == 0 && frame.code == 0
            &&& frame.request_id % 0x1_0000_0000 == command.itt
            &&& match task {
                LaneTask::Read { lba, blocks, .. } => frame.op == FanOp::Read && frame.offset == lba
                    * 4096 && frame.len == blocks * 4096,
                LaneTask::Write { lba, payload, .. } => frame.op == FanOp::Write && frame.offset
                    == lba * 4096 && frame.len == payload@.len(),
                LaneTask::Barrier => false,
            }
            &&& geometry(task) == Ok::<(FanOp, u64, u64), Fault>(
                (frame.op, frame.offset, frame.len as u64),
            )
        }),
{
}

proof fn lemma_first_traveller(tasks: Seq<LaneTask>, id: u64)
    ensures
        0 <= task_place(tasks, id) <= tasks.len(),
        task_place(tasks, id) < tasks.len() ==> travels_as(tasks[task_place(tasks, id)], id),
        forall|j: int| 0 <= j < task_place(tasks, id) ==> !travels_as(#[trigger] tasks[j], id),
    decreases tasks.len(),
{
    if tasks.len() > 0 && !travels_as(tasks[0], id) {
        let rest = tasks.drop_first();
        lemma_first_traveller(rest, id);
        assert forall|j: int| 0 <= j < task_place(tasks, id) implies !travels_as(
            #[trigger] tasks[j],
            id,
        ) by {
            if j > 0 {
                assert(rest[j - 1] == tasks[j]);
            }
        }
    }
}

/// An answer is accepted only for a task that waits for it, and only where it tells of the very bytes that
/// the task asked for: its offset, its length and its direction.
pub proof fn law_answers_tell_of_the_bytes_asked_for(
    tasks: Seq<LaneTask>,
    seen: Seq<bool>,
    frame: FanFrame,
)
    requires
        answer_fault(tasks, seen, frame) is None,
    ensures
        ({
            let at = task_place(tasks, frame.request_id);
            &&& 0 <= at < tasks.len()
            &&& !seen[at]
            &&& tasks[at].command_of() matches Some(command) && command.cmd_sn * 0x1_0000_0000
                + command.itt == frame.request_id
            &&& frame.shard == 0
            &&& match tasks[at] {
                LaneTask::Read { lba, blocks, .. } => frame.op == FanOp::ReadResponse && frame.offset
                    == lba * 4096 && frame.len == blocks * 4096,
                LaneTask::Write { lba, payload, .. } => frame.op == FanOp::WriteAck && frame.offset
                    == lba * 4096 && frame.len == payload@.len(),
                LaneTask::Barrier => false,
            }
        }),
{
    lemma_first_traveller(tasks, frame.request_id);
}

/// An answer settles its own task and no other; a read gets the bytes behind those that were handed out
/// before.
pub proof fn law_an_answer_settles_its_task(
    tasks: Seq<LaneTask>,
    s: Settled,
    frame: FanFrame,
    other: int,
)
    requires
        s.seen.len() == tasks.len(),
        s.starts.len() == tasks.len(),
        0 <= s.used <= u64::MAX,
        answer_fault(tasks, s.seen, frame) is None,
        0 <= other < tasks.len(),
        other != task_place(tasks, frame.request_id),
    ensures
        ({
            let at = task_place(tasks, frame.request_id);
            let t = with_answer(tasks, s, frame);
            &&& t.seen[at]
            &&& tasks[at] is Read ==> t.starts[at] == Some(s.used as u64) && t.used == s.used
                + tasks[at].byte_len()
            &&& tasks[at] is Write ==> t.starts == s.starts && t.used == s.used
            &&& t.seen[other] == s.seen[other]
            &&& t.starts[other] == s.starts[other]
        }),
{
    lemma_first_traveller(tasks, frame.request_id);
}

/// The reads that a range answers stand one behind the other, from the task that it names on, none of them
/// answered before; their bytes are one piece of the volume, from the start of the range to its end.
pub proof fn law_a_range_covers_reads_in_a_row(
    tasks: Seq<LaneTask>,
    seen: Seq<bool>,
    at: int,
    cursor: int,
    end: int,
)
    requires
        0 <= at,
        range_cover(tasks, seen, at, cursor, end) is Ok,
        range_cover(tasks, seen, at, cursor, end)->Ok_0.0 > 0,
    ensures
        ({
            let (n, stop) = range_cover(tasks, seen, at, cursor, end)->Ok_0;
            &&& at + n <= tasks.len()
            &&& tasks[at].lba_of() * 4096 == cursor
            &&& tasks[at + n - 1].lba_of() * 4096 + tasks[at + n - 1].byte_len() == stop
            &&& stop <= end
            &&& forall|i: int|
                at <= i < at + n ==> !seen[i] && #[trigger] tasks[i] is Read
            &&& forall|i: int|
                at < i < at + n ==> (#[trigger] tasks[i]).lba_of() * 4096 == tasks[i - 1].lba_of()
                    * 4096 + tasks[i - 1].byte_len()
        }),
    decreases tasks.len() - at,
{
    let len = tasks[at].byte_len();
    if cursor + len != end {
        let rest = range_cover(tasks, seen, at + 1, cursor + len, end)->Ok_0;
        if rest.0 > 0 {
            law_a_range_covers_reads_in_a_row(tasks, seen, at + 1, cursor + len, end);
        }
    }
}

/// A range hands each of its reads the bytes at the read's own place in the range, and settles no other
/// task.
pub proof fn law_a_range_settles_its_reads(
    tasks: Seq<LaneTask>,
    s: Settled,
    range: FanFrame,
    i: int,
)
    requires
        all_sendable(tasks),
        s.seen.len() == tasks.len(),
        s.starts.len() == tasks.len(),
        0 <= s.used,
        s.used + range.len <= u64::MAX,
        range_fault(tasks, s.seen, range) is None,
        0 <= i < tasks.len(),
    ensures
        ({
            let at = task_place(tasks, range.request_id);
            let end = range.offset + range.len;
            let n = range_cover(tasks, s.seen, at, range.offset as int, end)->Ok_0.0;
            let t = with_range(tasks, s, range);
            &&& n > 0
            &&& t.used == s.used + range.len
            &&& at <= i < at + n ==> {
                &&& t.seen[i]
                &&& t.starts[i] is Some
                &&& t.starts[i]->0 - s.used == tasks[i].lba_of() * 4096 - range.offset
                &&& s.used <= t.starts[i]->0
                &&& t.starts[i]->0 + tasks[i].byte_len() <= t.used
            }
            &&& !(at <= i < at + n) ==> t.seen[i] == s.seen[i] && t.starts[i] == s.starts[i]
        }),
{
    let at = task_place(tasks, range.request_id);
    let end = range.offset + range.len;
    lemma_first_traveller(tasks, range.request_id);
    law_a_range_covers_reads_in_a_row(tasks, s.seen, at, range.offset as int, end);
    let n = range_cover(tasks, s.seen, at, range.offset as int, end)->Ok_0.0;
    if at <= i < at + n {
        lemma_row_bounds(tasks, at, n, i);
    }
}

proof fn lemma_row_bounds(tasks: Seq<LaneTask>, at: int, n: nat, i: int)
    requires
        0 <= at <= i < at + n <= tasks.len(),
        forall|j: int|
            at < j < at + n ==> (#[trigger] tasks[j]).lba_of() * 4096 == tasks[j - 1].lba_of() * 4096
                + tasks[j - 1].byte_len(),
        forall|j: int| at <= j < at + n ==> (#[trigger] tasks[j]).byte_len() >= 0,
    ensures
        tasks[at].lba_of() * 4096 <= tasks[i].lba_of() * 4096,
        tasks[i].lba_of() * 4096 + tasks[i].byte_len() <= tasks[at + n - 1].lba_of() * 4096 + tasks[at
            + n - 1].byte_len(),
    decreases n,
{
    if n > 1 {
        if i < at + n - 1 {
            lemma_row_bounds(tasks, at, (n - 1) as nat, i);
            assert(tasks[at + n - 1].lba_of() * 4096 == tasks[at + n - 2].lba_of() * 4096 + tasks[at
                + n - 2].byte_len());
            assert(tasks[at + n - 1].byte_len() >= 0);
        } else {
            lemma_row_bounds(tasks, at, (n - 1) as nat, i - 1);
            assert(tasks[i].lba_of() * 4096 == tasks[i - 1].lba_of() * 4096 + tasks[i
                - 1].byte_len());
            assert(tasks[i - 1].byte_len() >= 0);
        }
    }
}

/// What is counted of a window is the sum over its tasks: the bytes of its writes, the blocks that were
/// read and written, and the forced writes.
pub proof fn law_windows_count_each_task(tasks: Seq<LaneTask>, one: LaneTask)
    ensures
        write_bytes(tasks.push(one)) - write_bytes(tasks) == if one is Write {
            one.byte_len()
        } else {
            0
        },
        blocks_moved(tasks.push(one), true) - blocks_moved(tasks, true) == if one is Write {
            one.byte_len() / 4096
        } else {
            0
        },
        blocks_moved(tasks.push(one), false) - blocks_moved(tasks, false) == if one is Write {
            0
        } else {
            one.byte_len() / 4096
        },
        fua_count(tasks.push(one)) - fua_count(tasks) == if one.is_fua() {
            1int
        } else {
            0
        },
        write_bytes(Seq::empty()) == 0,
        blocks_moved(Seq::empty(), true) == 0,
        blocks_moved(Seq::empty(), false) == 0,
        fua_count(Seq::empty()) == 0,
{
    assert(tasks.push(one).drop_last() =~= tasks);
}

/// A window is complete exactly where every task of it was answered.
pub proof fn law_windows_wait_for_every_task(seen: Seq<bool>, one: bool)
    ensures
        count_false(seen.push(one)) == count_false(seen) + if one {
            0int
        } else {
            1
        },
        count_false(Seq::empty()) == 0,
        count_false(seen) == 0 <==> forall|i: int| 0 <= i < seen.len() ==> #[trigger] seen[i],
    decreases seen.len(),
{
    assert(seen.push(one).drop_last() =~= seen);
    if seen.len() > 0 {
        let head = seen.drop_last();
        law_windows_wait_for_every_task(head, one);
        assert(forall|j: int| 0 <= j < head.len() ==> #[trigger] head[j] == seen[j]);
        assert(seen[seen.len() - 1] == seen.last());
        if count_false(seen) == 0 {
            assert forall|i: int| 0 <= i < seen.len() implies #[trigger] seen[i] by {
                if i < head.len() {
                    assert(head[i]);
                }
            }
        }
        if forall|i: int| 0 <= i < seen.len() ==> #[trigger] seen[i] {
            assert forall|i: int| 0 <= i < head.len() implies #[trigger] head[i] by {
                assert(seen[i]);
            }
        }
    }
}

/// A task of a complete window is completed towards its own command, a read with the bytes that came for
/// it.
pub proof fn law_window_tasks_complete_their_command(task: LaneTask, payload: Option<Vec<u8>>)
    requires
        task.command_of() is Some,
    ensures
        match window_completion(task, payload) {
            CompletionView::Data { command, payload: bytes } => task is Read && Some(command)
                == task.command_of() && bytes == payload->0@,
            CompletionView::Good { command } => task is Write && Some(command) == task.command_of(),
            _ => false,
        },
{
}

/// A window that is complete counts the blocks that it moved as read or written, its writes that had to be
/// stable, and one drain if there was any of these; what the tasks before it did stays counted.
pub proof fn law_a_window_is_counted_once(tasks: Seq<LaneTask>, counts: LaneCounts)
    requires
        0 <= counts.reads + blocks_moved(tasks, false) <= u64::MAX,
        0 <= counts.writes + blocks_moved(tasks, true) <= u64::MAX,
        counts.fua_writes + fua_count(tasks) <= u64::MAX,
        counts.fua_drains < u64::MAX,
    ensures
        ({
            let after = window_counts(tasks, counts);
            &&& after.reads - counts.reads == blocks_moved(tasks, false)
            &&& after.writes - counts.writes == blocks_moved(tasks, true)
            &&& after.fua_writes - counts.fua_writes == fua_count(tasks)
            &&& after.fua_drains - counts.fua_drains == if after.fua_writes == counts.fua_writes {
                0int
            } else {
                1
            }
            &&& after.barriers == counts.barriers
            &&& after.fan_batches == counts.fan_batches
            &&& after.fan_tasks == counts.fan_tasks
            &&& after.max_fan_batch == counts.max_fan_batch
        }),
{
}

/// An envelope says how many answers it holds, which is at least one, and how many bytes were read for
/// them; an answer outside an envelope stands for itself.
pub proof fn law_envelopes_tell_what_they_hold(
    tasks: Seq<LaneTask>,
    seen: Seq<bool>,
    outer: FanFrame,
    members: Seq<FanFrame>,
)
    ensures
        match member_count(outer) {
            Ok(n) => if n == 0 {
                &&& outer.op == FanOp::ReadResponse || outer.op == FanOp::WriteAck
                &&& reply_settles(tasks, seen, outer, members) == settle_all(
                    tasks,
                    seen,
                    false,
                    seq![outer],
                )
            } else {
                &&& n == outer.len
                &&& outer.shard == 0
                &&& outer.op == FanOp::BatchResponse || outer.op == FanOp::ReadRangeResponse
                &&& reply_settles(tasks, seen, outer, members) matches Ok(s) ==> s.used
                    == outer.offset && settle_all(
                    tasks,
                    seen,
                    outer.op == FanOp::ReadRangeResponse,
                    members,
                ) == Ok::<Settled, Fault>(s)
            },
            Err(_) => outer.op != FanOp::ReadResponse && outer.op != FanOp::WriteAck && (
            outer.shard != 0 || outer.len == 0 || (outer.op != FanOp::BatchResponse && outer.op
                != FanOp::ReadRangeResponse)),
        },
{
}

} // verus!
