//! What the target does with the protocol data units of one session.
use std::collections::HashMap;
use vstd::prelude::*;
use vstd::string::*;

use crate::bytes::filled;
use crate::error::{corrupt, Error};
use crate::iscsi::header::{
    update_exp_cmd, Header, OP_DATA_OUT, OP_LOGOUT_REQUEST, OP_NOP_OUT, OP_SCSI_COMMAND,
    OP_TASK_REQUEST, OP_TEXT_REQUEST,
};
use crate::iscsi::keys::{append_text, text_pairs};
use crate::iscsi::lane::LaneTask;
use crate::iscsi::scsi::{
    check_range, parse_rw, scsi_control, sense_invalid_field, sense_invalid_lun,
    sense_lba_out_of_range, sense_medium_error,
};
use crate::iscsi::writer::{Command, Completion};
use crate::text::{decimal, join2, join3, join4, str_eq};
use crate::topology::dataset::hex_digit;
#[allow(unused_imports)]
use crate::error::Fault;
#[allow(unused_imports)]
use crate::iscsi::writer::CompletionView;

verus! {

/// The task management function that resets a logical unit.
pub const TASK_FUNCTION_LOGICAL_UNIT_RESET: u8 = 5;

/// The answer to a task management request that was carried out.
pub const TASK_RESPONSE_COMPLETE: u8 = 0;

/// The answer to a task management request for an unknown unit.
pub const TASK_RESPONSE_LUN_DOES_NOT_EXIST: u8 = 2;

/// The answer to an unknown task management function.
pub const TASK_RESPONSE_FUNCTION_UNSUPPORTED: u8 = 5;

/// The answer to a task management request that failed.
pub const TASK_RESPONSE_REJECTED: u8 = 255;

/// A write of which some data are still to come.
#[derive(Debug)]
pub struct PendingWrite {
    pub command: Command,
    pub lba: u64,
    pub fua: bool,
    pub received: usize,
    pub data: Vec<u8>,
}

/// What a [`PendingWrite`] means.
pub struct PendingView {
    pub command: Command,
    pub lba: u64,
    pub fua: bool,
    pub received: nat,
    pub data: Seq<u8>,
}

impl View for PendingWrite {
    type V = PendingView;

    open spec fn view(&self) -> PendingView {
        PendingView {
            command: self.command,
            lba: self.lba,
            fua: self.fua,
            received: self.received as nat,
            data: self.data@,
        }
    }
}

/// The pending writes by the tag of their command.
pub open spec fn pending_view(m: Map<u32, PendingWrite>) -> Map<u32, PendingView> {
    m.map_values(|p: PendingWrite| p@)
}

/// What a command asks for, once the target has looked at it.
pub enum ScsiOutcome {
    /// The initiator is told at once.
    Reply(CompletionView),
    /// A lane reads.
    Read { command: Command, lba: u64, blocks: u32 },
    /// A lane writes.
    Write { command: Command, lba: u64, data: Seq<u8>, fua: bool },
    /// The rest of the data is asked for.
    Ask(PendingView),
    /// Everything that was written is to be made durable.
    Flush { command: Command },
}

/// What is to be done about a command.
#[derive(Debug)]
pub enum ScsiAction {
    Reply(Completion),
    Lane { lane: usize, task: LaneTask },
    Flush { command: Command },
}

/// The command that a header carries.
pub open spec fn command_in(header: Seq<u8>) -> Command {
    Command {
        itt: crate::iscsi::header::field(header, 16, 4) as u32,
        lun: crate::iscsi::header::field(header, 8, 8) as u64,
        expected: crate::iscsi::header::field(header, 20, 4) as u32,
        cmd_sn: crate::iscsi::header::field(header, 24, 4) as u32,
    }
}

/// The refusal of a command with the given additional sense code.
pub open spec fn refusal(command: Command, asc: u8) -> ScsiOutcome {
    ScsiOutcome::Reply(
        CompletionView::Check { command, sense: crate::iscsi::scsi::sense(0x05, asc, 0) },
    )
}

/// The first `n` bytes of what is written where only `data` has come so far.
pub open spec fn zero_filled(data: Seq<u8>, n: nat) -> Seq<u8> {
    Seq::new(
        n,
        |i: int|
            if i < data.len() {
                data[i]
            } else {
                0
            },
    )
}

/// What a command asks for on a volume of `capacity` bytes.
pub open spec fn scsi_outcome(header: Seq<u8>, data: Seq<u8>, capacity: u64) -> Result<
    ScsiOutcome,
    Fault,
> {
    let command = command_in(header);
    let cdb = header.subrange(32, 48);
    let (lba, blocks) = crate::iscsi::scsi::rw_fields(cdb);
    if command.lun != 0 {
        Ok(refusal(command, 0x25))
    } else if crate::iscsi::scsi::is_read(cdb) || crate::iscsi::scsi::is_write(cdb) {
        if blocks == 0 {
            Err(crate::error::bad_input("zero-block transfer"@))
        } else if blocks * 4096 != command.expected {
            Ok(refusal(command, 0x24))
        } else if crate::iscsi::scsi::is_write(cdb) && data.len() > command.expected {
            Ok(refusal(command, 0x24))
        } else if !crate::iscsi::scsi::in_volume(capacity, lba as u64, blocks as u32) {
            Ok(refusal(command, 0x21))
        } else if crate::iscsi::scsi::is_read(cdb) {
            Ok(ScsiOutcome::Read { command, lba: lba as u64, blocks: blocks as u32 })
        } else if data.len() == command.expected {
            Ok(
                ScsiOutcome::Write {
                    command,
                    lba: lba as u64,
                    data,
                    fua: cdb[1] & 0x08 != 0,
                },
            )
        } else {
            Ok(
                ScsiOutcome::Ask(
                    PendingView {
                        command,
                        lba: lba as u64,
                        fua: cdb[1] & 0x08 != 0,
                        received: data.len(),
                        data: zero_filled(data, command.expected as nat),
                    },
                ),
            )
        }
    } else if cdb[0] == 0x35 || cdb[0] == 0x91 {
        Ok(ScsiOutcome::Flush { command })
    } else {
        match crate::iscsi::scsi::control_answer(cdb, capacity) {
            Ok(Some(payload)) => Ok(
                ScsiOutcome::Reply(CompletionView::Data { command, payload }),
            ),
            Ok(None) => Ok(ScsiOutcome::Reply(CompletionView::Good { command })),
            Err(sense) => Ok(ScsiOutcome::Reply(CompletionView::Check { command, sense })),
        }
    }
}

/// Whether an action is what an outcome asks for; the lane of a command goes by its number.
pub open spec fn carries_out(action: ScsiAction, outcome: ScsiOutcome, lanes: nat) -> bool {
    match outcome {
        ScsiOutcome::Reply(c) => action matches ScsiAction::Reply(a) && a@ == c,
        ScsiOutcome::Read { command, lba, blocks } => {
            &&& action matches ScsiAction::Lane { lane, task }
            &&& lane as nat == command.cmd_sn as nat % lanes
            &&& task == (LaneTask::Read { command, lba, blocks })
        },
        ScsiOutcome::Write { command, lba, data, fua } => {
            &&& action matches ScsiAction::Lane { lane, task }
            &&& lane as nat == command.cmd_sn as nat % lanes
            &&& writes(task, command, lba, data, fua)
        },
        ScsiOutcome::Ask(p) => {
            &&& action matches ScsiAction::Reply(a)
            &&& a@ == (CompletionView::R2t {
                command: p.command,
                offset: p.received as u32,
                len: (p.data.len() - p.received) as u32,
            })
        },
        ScsiOutcome::Flush { command } => action == (ScsiAction::Flush { command }),
    }
}

/// Whether a task is the given write.
pub open spec fn writes(task: LaneTask, command: Command, lba: u64, data: Seq<u8>, fua: bool) -> bool {
    &&& task matches LaneTask::Write { command: c, lba: l, payload, fua: f }
    &&& c == command
    &&& l == lba
    &&& payload@ == data
    &&& f == fua
}

fn read_cdb(header: &Header) -> (cdb: [u8; 16])
    ensures
        cdb@ == header@.subrange(32, 48),
{
    let mut cdb: [u8; 16] = [0u8;16];
    let mut i: usize = 0;
    while i < 16
        invariant
            i <= 16,
            forall|k: int| 0 <= k < i ==> #[trigger] cdb@[k] == header@[32 + k],
        decreases 16 - i,
    {
        cdb[i] = header.0[32 + i];
        i = i + 1;
    }
    proof {
        assert(cdb@ =~= header@.subrange(32, 48));
    }
    cdb
}

fn padded_write(data: &[u8], n: usize) -> (v: Vec<u8>)
    requires
        data@.len() <= n,
    ensures
        v@ == zero_filled(data@, n as nat),
{
    let mut v: Vec<u8> = filled(0, n);
    let mut i: usize = 0;
    while i < data.len()
        invariant
            i <= data@.len() <= n,
            v@.len() == n,
            forall|k: int|
                0 <= k < n ==> #[trigger] v@[k] == if k < i {
                    data@[k]
                } else {
                    0
                },
        decreases data@.len() - i,
    {
        v[i] = data[i];
        i = i + 1;
    }
    proof {
        assert(v@ =~= zero_filled(data@, n as nat));
    }
    v
}

/// Handles a SCSI command that came with the data segment `data`. A write that lacks data becomes
/// pending under the tag of its command.
pub fn handle_scsi_command(
    header: &Header,
    data: &[u8],
    capacity_bytes: u64,
    lanes: usize,
    exp_cmd_sn: &mut u32,
    pending: &mut HashMap<u32, PendingWrite>,
) -> (r: Result<ScsiAction, Error>)
    requires
        data@.len() == crate::iscsi::header::data_segment_len(header@),
        lanes > 0,
        crate::iscsi::scsi::is_read_capacity_16(header@.subrange(32, 48)) ==> capacity_bytes
            >= 4096,
    ensures
        *final(exp_cmd_sn) == crate::iscsi::header::expected_after(*old(exp_cmd_sn), header@),
        match r {
            Ok(action) => {
                &&& scsi_outcome(header@, data@, capacity_bytes) is Ok
                &&& carries_out(
                    action,
                    scsi_outcome(header@, data@, capacity_bytes)->Ok_0,
                    lanes as nat,
                )
                &&& match scsi_outcome(header@, data@, capacity_bytes)->Ok_0 {
                    ScsiOutcome::Ask(p) => pending_view(final(pending)@) == pending_view(
                        old(pending)@,
                    ).insert(p.command.itt, p),
                    _ => final(pending)@ == old(pending)@,
                }
            },
            Err(e) => {
                &&& scsi_outcome(header@, data@, capacity_bytes) == Err::<ScsiOutcome, Fault>(e@)
                &&& final(pending)@ == old(pending)@
            },
        },
{
    broadcast use vstd::std_specs::hash::group_hash_axioms;

    *exp_cmd_sn = update_exp_cmd(*exp_cmd_sn, header);
    let command: Command = Command {
        itt: header.u32(16),
        lun: header.u64(8),
        expected: header.u32(20),
        cmd_sn: header.u32(24),
    };
    let cdb: [u8; 16] = read_cdb(header);
    assert(command == command_in(header@));
    let lane: usize = (command.cmd_sn as u64 % lanes as u64) as usize;
    let op: u8 = cdb[0];
    if command.lun != 0 {
        return Ok(
            ScsiAction::Reply(Completion::Check { command, sense: sense_invalid_lun() }),
        );
    }
    if op == 0x08 || op == 0x28 || op == 0x88 {
        let (lba, blocks): (u64, u32) = match parse_rw(&cdb) {
            Ok(rw) => rw,
            Err(e) => {
                return Err(e);
            },
        };
        if blocks as u64 * 4096 != command.expected as u64 {
            return Ok(
                ScsiAction::Reply(Completion::Check { command, sense: sense_invalid_field() }),
            );
        }
        return match check_range(capacity_bytes, lba, blocks) {
            Err(_) => Ok(
                ScsiAction::Reply(Completion::Check { command, sense: sense_lba_out_of_range() }),
            ),
            Ok(_) => Ok(ScsiAction::Lane { lane, task: LaneTask::Read { command, lba, blocks } }),
        };
    }
    if op == 0x0a || op == 0x2a || op == 0x8a {
        let (lba, blocks): (u64, u32) = match parse_rw(&cdb) {
            Ok(rw) => rw,
            Err(e) => {
                return Err(e);
            },
        };
        let expected: u64 = blocks as u64 * 4096;
        if expected != command.expected as u64 || data.len() as u64 > expected {
            return Ok(
                ScsiAction::Reply(Completion::Check { command, sense: sense_invalid_field() }),
            );
        }
        match check_range(capacity_bytes, lba, blocks) {
            Err(_) => {
                return Ok(
                    ScsiAction::Reply(
                        Completion::Check { command, sense: sense_lba_out_of_range() },
                    ),
                );
            },
            Ok(_) => {},
        }
        let fua: bool = cdb[1] & 0x08 != 0;
        let payload: Vec<u8> = padded_write(data, expected as usize);
        if data.len() as u64 == expected {
            proof {
                assert(payload@ =~= data@);
            }
            return Ok(
                ScsiAction::Lane { lane, task: LaneTask::Write { command, lba, payload, fua } },
            );
        }
        let ghost before = pending@;
        let write: PendingWrite = PendingWrite {
            command,
            lba,
            fua,
            received: data.len(),
            data: payload,
        };
        let ghost added = write;
        pending.insert(command.itt, write);
        proof {
            assert(pending_view(pending@) =~= pending_view(before).insert(command.itt, added@));
        }
        return Ok(
            ScsiAction::Reply(
                Completion::R2t {
                    command,
                    offset: data.len() as u32,
                    len: (expected - data.len() as u64) as u32,
                },
            ),
        );
    }
    if op == 0x35 || op == 0x91 {
        return Ok(ScsiAction::Flush { command });
    }
    match scsi_control(&cdb, capacity_bytes) {
        Ok(Some(payload)) => Ok(ScsiAction::Reply(Completion::Data { command, payload })),
        Ok(None) => Ok(ScsiAction::Reply(Completion::Good { command })),
        Err(sense) => Ok(ScsiAction::Reply(Completion::Check { command, sense })),
    }
}

/// The answer to a request to make everything durable, once the lanes and the backend have done so
/// or failed.
pub fn flushed(command: Command, done: bool) -> (c: Completion)
    ensures
        c@ == if done {
            CompletionView::Good { command }
        } else {
            CompletionView::Check { command, sense: crate::iscsi::scsi::sense(0x03, 0x11, 0) }
        },
{
    if done {
        Completion::Good { command }
    } else {
        Completion::Check { command, sense: sense_medium_error() }
    }
}

/// A pending write after more of its data has come.
pub open spec fn filled_in(p: PendingView, offset: nat, data: Seq<u8>) -> PendingView {
    PendingView {
        received: if p.received >= offset + data.len() {
            p.received
        } else {
            offset + data.len()
        },
        data: crate::bytes::splice(p.data, offset as int, data),
        ..p
    }
}

/// The fault on which data that were asked for are refused, if they are.
pub open spec fn data_out_fault(
    pending: Map<u32, PendingView>,
    itt: u32,
    offset: nat,
    len: nat,
) -> Option<Fault> {
    if !pending.dom().contains(itt) {
        Some(crate::error::bad_data("Data-Out has no pending WRITE"@))
    } else if offset + len > pending[itt].data.len() {
        Some(crate::error::bad_data("iSCSI write data exceeds expected transfer length"@))
    } else {
        None
    }
}

/// What was done with data that were asked for and accepted: `sent` is what went to a lane.
pub open spec fn data_taken(
    header: Seq<u8>,
    data: Seq<u8>,
    lanes: nat,
    before: Map<u32, PendingView>,
    sent: Option<(usize, LaneTask)>,
    after: Map<u32, PendingView>,
) -> bool {
    let itt = crate::iscsi::header::field(header, 16, 4) as u32;
    let offset = crate::iscsi::header::field(header, 40, 4);
    let p = filled_in(before[itt], offset, data);
    &&& data_out_fault(before, itt, offset, data.len()) is None
    &&& match sent {
        Some((lane, task)) => {
            &&& p.received == p.data.len()
            &&& lane as nat == p.command.cmd_sn as nat % lanes
            &&& writes(task, p.command, p.lba, p.data, p.fua)
            &&& after == before.remove(itt)
        },
        None => {
            &&& p.received != p.data.len()
            &&& after == before.insert(itt, p)
        },
    }
}

/// Handles data that were asked for. Once the last byte of the write has come, the write goes to
/// its lane and is no longer pending.
pub fn handle_data_out(
    header: &Header,
    data: &[u8],
    lanes: usize,
    pending: &mut HashMap<u32, PendingWrite>,
) -> (r: Result<Option<(usize, LaneTask)>, Error>)
    requires
        data@.len() == crate::iscsi::header::data_segment_len(header@),
        lanes > 0,
    ensures
        match r {
            Ok(sent) => data_taken(
                header@,
                data@,
                lanes as nat,
                pending_view(old(pending)@),
                sent,
                pending_view(final(pending)@),
            ),
            Err(e) => {
                let itt = crate::iscsi::header::field(header@, 16, 4) as u32;
                let offset = crate::iscsi::header::field(header@, 40, 4);
                let fault = data_out_fault(pending_view(old(pending)@), itt, offset, data@.len());
                fault == Some(e@) && final(pending)@ == old(pending)@
            },
        },
{
    broadcast use vstd::std_specs::hash::group_hash_axioms;

    let itt: u32 = header.u32(16);
    let offset: u64 = header.u32(40) as u64;
    let len: u64 = data.len() as u64;
    let ghost before = pending@;
    proof {
        crate::bytes::lemma_byte_ranges();
        crate::bytes::lemma_be_value_bound(header@.subrange(5, 8));
    }
    let total: u64 = match pending.get(&itt) {
        Some(write) => write.data.len() as u64,
        None => {
            return Err(corrupt("Data-Out has no pending WRITE"));
        },
    };
    if offset + len > total {
        return Err(corrupt("iSCSI write data exceeds expected transfer length"));
    }
    match pending.remove(&itt) {
        None => Ok(None),
        Some(mut write) => {
            let ghost first = write@;
            let start: usize = offset as usize;
            let mut i: usize = 0;
            while i < data.len()
                invariant
                    i <= data@.len(),
                    start + data@.len() <= first.data.len(),
                    first.data.len() <= usize::MAX,
                    write.data@.len() == first.data.len(),
                    write.command == first.command,
                    write.lba == first.lba,
                    write.fua == first.fua,
                    write.received == first.received,
                    forall|k: int|
                        0 <= k < first.data.len() ==> #[trigger] write.data@[k] == if start <= k
                            < start + i {
                            data@[k - start]
                        } else {
                            first.data[k]
                        },
                decreases data@.len() - i,
            {
                let at: usize = start + i;
                write.data[at] = data[i];
                i = i + 1;
            }
            let end: usize = start + data.len();
            if write.received < end {
                write.received = end;
            }
            proof {
                assert(write.data@ =~= crate::bytes::splice(first.data, start as int, data@));
                assert(write@ == filled_in(first, offset as nat, data@));
            }
            if write.received == write.data.len() {
                let lane: usize = (write.command.cmd_sn as u64 % lanes as u64) as usize;
                proof {
                    assert(pending_view(pending@) =~= pending_view(before).remove(itt));
                }
                return Ok(
                    Some(
                        (
                            lane,
                            LaneTask::Write {
                                command: write.command,
                                lba: write.lba,
                                payload: write.data,
                                fua: write.fua,
                            },
                        ),
                    ),
                );
            }
            let ghost grown = write;
            pending.insert(itt, write);
            proof {
                assert(pending_view(pending@) =~= pending_view(before).insert(itt, grown@));
            }
            Ok(None)
        },
    }
}

/// What the target does with a unit that is no login.
#[derive(Debug)]
pub enum ConnectionStep {
    /// The initiator is told.
    Reply(Completion),
    /// All lanes are to be drained for a reset of the unit; then see [`task_drained`].
    Drain { itt: u32 },
    /// The unit is a SCSI command: see [`handle_scsi_command`].
    Scsi,
    /// The unit brings data that were asked for: see [`handle_data_out`].
    DataOut,
    /// The initiator is told, and the session ends.
    Logout(Completion),
}

/// What is meant by a [`ConnectionStep`].
pub enum StepView {
    Reply(CompletionView),
    Drain { itt: u32 },
    Scsi,
    DataOut,
    Logout(CompletionView),
}

impl View for ConnectionStep {
    type V = StepView;

    open spec fn view(&self) -> StepView {
        match self {
            ConnectionStep::Reply(c) => StepView::Reply(c@),
            ConnectionStep::Drain { itt } => StepView::Drain { itt: *itt },
            ConnectionStep::Scsi => StepView::Scsi,
            ConnectionStep::DataOut => StepView::DataOut,
            ConnectionStep::Logout(c) => StepView::Logout(c@),
        }
    }
}

/// Whether a text request asks for the targets.
pub open spec fn asks_targets(data: Seq<u8>) -> bool {
    exists|i: int|
        0 <= i < crate::iscsi::keys::key_values(data).len() && (
        #[trigger] crate::iscsi::keys::key_values(data)[i]).0 == "SendTargets"@
}

/// The text that answers a text request.
pub open spec fn targets_text(data: Seq<u8>, target: Seq<char>, advertised: Seq<char>) -> Seq<u8> {
    if asks_targets(data) {
        crate::iscsi::keys::pair_bytes("TargetName"@, target) + crate::iscsi::keys::pair_bytes(
            "TargetAddress"@,
            advertised + ",1"@,
        )
    } else {
        Seq::empty()
    }
}

/// The operation code of a unit.
pub open spec fn opcode_of(header: Seq<u8>) -> u8 {
    header[0] & 0x3f
}

/// What the target does with a unit that is no login.
pub open spec fn step_of(
    discovery: bool,
    header: Seq<u8>,
    data: Seq<u8>,
    target: Seq<char>,
    advertised: Seq<char>,
) -> Result<StepView, Fault> {
    let op = opcode_of(header);
    let itt = crate::iscsi::header::field(header, 16, 4) as u32;
    if op == OP_NOP_OUT {
        Ok(
            StepView::Reply(
                CompletionView::Nop {
                    itt,
                    ttt: crate::iscsi::header::field(header, 20, 4) as u32,
                    data,
                },
            ),
        )
    } else if op == OP_TEXT_REQUEST {
        Ok(
            StepView::Reply(
                CompletionView::Text { itt, data: targets_text(data, target, advertised) },
            ),
        )
    } else if op == OP_TASK_REQUEST && !discovery {
        if header[1] & 0x7f != TASK_FUNCTION_LOGICAL_UNIT_RESET {
            Ok(
                StepView::Reply(
                    CompletionView::Task { itt, response: TASK_RESPONSE_FUNCTION_UNSUPPORTED },
                ),
            )
        } else if crate::iscsi::header::field(header, 8, 8) != 0 {
            Ok(
                StepView::Reply(
                    CompletionView::Task { itt, response: TASK_RESPONSE_LUN_DOES_NOT_EXIST },
                ),
            )
        } else {
            Ok(StepView::Drain { itt })
        }
    } else if op == OP_SCSI_COMMAND && !discovery {
        Ok(StepView::Scsi)
    } else if op == OP_DATA_OUT && !discovery {
        Ok(StepView::DataOut)
    } else if op == OP_LOGOUT_REQUEST {
        Ok(StepView::Logout(CompletionView::Logout { itt }))
    } else {
        Err(
            crate::error::bad_data(
                "unsupported iSCSI opcode 0x"@ + crate::topology::dataset::hex_text(seq![op]),
            ),
        )
    }
}

/// Whether a step takes note of the number of the command itself.
pub open spec fn counts_command(step: StepView) -> bool {
    !(step is Scsi) && !(step is DataOut)
}

fn hex_byte(b: u8) -> (s: String)
    ensures
        s@ == crate::topology::dataset::hex_text(seq![b]),
{
    let mut s: String = String::from_str("");
    s.push(hex_digit(b / 16));
    s.push(hex_digit(b % 16));
    proof {
        reveal_strlit("");
        reveal_with_fuel(crate::topology::dataset::hex_text, 2);
        assert(seq![b].drop_last() =~= Seq::<u8>::empty());
        assert(seq![b].last() == b);
        assert(s@ =~= crate::topology::dataset::hex_text(seq![b]));
    }
    s
}

fn wants_targets(data: &[u8]) -> (yes: bool)
    ensures
        yes == asks_targets(data@),
{
    let pairs: Vec<(String, String)> = text_pairs(data);
    let ghost views = crate::iscsi::keys::key_values(data@);
    let mut i: usize = 0;
    while i < pairs.len()
        invariant
            i <= pairs@.len(),
            crate::iscsi::keys::pairs_view(pairs@) == views,
            views == crate::iscsi::keys::key_values(data@),
            forall|k: int| 0 <= k < i ==> (#[trigger] views[k]).0 != "SendTargets"@,
        decreases pairs@.len() - i,
    {
        assert(views[i as int].0 == pairs@[i as int].0@);
        if str_eq(pairs[i].0.as_str(), "SendTargets") {
            return true;
        }
        i = i + 1;
    }
    assert(views.len() == pairs@.len());
    false
}

/// Looks at a unit that is no login and came with the data segment `data`.
pub fn handle_connection(
    discovery: bool,
    header: &Header,
    data: Vec<u8>,
    target: &str,
    advertised: &str,
    exp_cmd_sn: &mut u32,
) -> (r: Result<ConnectionStep, Error>)
    requires
        data@.len() == crate::iscsi::header::data_segment_len(header@),
    ensures
        match r {
            Ok(step) => {
                &&& step_of(discovery, header@, data@, target@, advertised@) == Ok::<
                    StepView,
                    Fault,
                >(step@)
                &&& *final(exp_cmd_sn) == if counts_command(step@) {
                    crate::iscsi::header::expected_after(*old(exp_cmd_sn), header@)
                } else {
                    *old(exp_cmd_sn)
                }
            },
            Err(e) => {
                &&& step_of(discovery, header@, data@, target@, advertised@) == Err::<
                    StepView,
                    Fault,
                >(e@)
                &&& *final(exp_cmd_sn) == *old(exp_cmd_sn)
            },
        },
{
    let op: u8 = header.opcode();
    let itt: u32 = header.u32(16);
    if op == OP_NOP_OUT {
        *exp_cmd_sn = update_exp_cmd(*exp_cmd_sn, header);
        return Ok(ConnectionStep::Reply(Completion::Nop { itt, ttt: header.u32(20), data }));
    }
    if op == OP_TEXT_REQUEST {
        *exp_cmd_sn = update_exp_cmd(*exp_cmd_sn, header);
        let mut response: Vec<u8> = Vec::new();
        if wants_targets(data.as_slice()) {
            append_text(&mut response, "TargetName", target);
            append_text(&mut response, "TargetAddress", join2(advertised, ",1").as_str());
        }
        proof {
            assert(response@ =~= targets_text(data@, target@, advertised@));
        }
        return Ok(ConnectionStep::Reply(Completion::Text { itt, data: response }));
    }
    if op == OP_TASK_REQUEST && !discovery {
        *exp_cmd_sn = update_exp_cmd(*exp_cmd_sn, header);
        let function: u8 = header.0[1] & 0x7f;
        if function != TASK_FUNCTION_LOGICAL_UNIT_RESET {
            return Ok(
                ConnectionStep::Reply(
                    Completion::Task { itt, response: TASK_RESPONSE_FUNCTION_UNSUPPORTED },
                ),
            );
        }
        if header.u64(8) != 0 {
            return Ok(
                ConnectionStep::Reply(
                    Completion::Task { itt, response: TASK_RESPONSE_LUN_DOES_NOT_EXIST },
                ),
            );
        }
        return Ok(ConnectionStep::Drain { itt });
    }
    if op == OP_SCSI_COMMAND && !discovery {
        return Ok(ConnectionStep::Scsi);
    }
    if op == OP_DATA_OUT && !discovery {
        return Ok(ConnectionStep::DataOut);
    }
    if op == OP_LOGOUT_REQUEST {
        *exp_cmd_sn = update_exp_cmd(*exp_cmd_sn, header);
        return Ok(ConnectionStep::Logout(Completion::Logout { itt }));
    }
    Err(
        crate::error::invalid_data(
            join2("unsupported iSCSI opcode 0x", hex_byte(op).as_str()),
        ),
    )
}

/// The answer to a reset of the unit, once all lanes have been drained or that has failed. A reset
/// that succeeds forgets the pending writes.
pub fn task_drained(itt: u32, done: bool, pending: &mut HashMap<u32, PendingWrite>) -> (c: Completion)
    ensures
        c@ == (CompletionView::Task {
            itt,
            response: if done {
                TASK_RESPONSE_COMPLETE
            } else {
                TASK_RESPONSE_REJECTED
            },
        }),
        final(pending)@ == if done {
            Map::empty()
        } else {
            old(pending)@
        },
{
    if done {
        pending.clear();
        proof {
            assert(pending@ =~= Map::<u32, PendingWrite>::empty());
        }
        Completion::Task { itt, response: TASK_RESPONSE_COMPLETE }
    } else {
        Completion::Task { itt, response: TASK_RESPONSE_REJECTED }
    }
}

/// What was done about a task management request, by its answer.
pub open spec fn task_action(response: u8) -> Seq<char> {
    if response == TASK_RESPONSE_COMPLETE {
        "all-userspace-lanes-drained"@
    } else if response == TASK_RESPONSE_LUN_DOES_NOT_EXIST {
        "lun-does-not-exist"@
    } else if response == TASK_RESPONSE_FUNCTION_UNSUPPORTED {
        "function-unsupported"@
    } else {
        "userspace-lane-drain-failed"@
    }
}

/// The line that tells the operator of a task management request and its answer.
pub fn task_report(header: &Header, response: u8) -> (line: String)
    ensures
        line@ == "zciscsi-target-task-management: function="@ + crate::text::decimal_text(
            (header@[1] & 0x7f) as nat,
        ) + " lun="@ + crate::text::decimal_text(crate::iscsi::header::field(header@, 8, 8))
            + " response="@ + crate::text::decimal_text(response as nat) + " action="@
            + task_action(response) + " placement_owner=downstream-userspace-raid"@,
{
    let function: u8 = header.0[1] & 0x7f;
    let action: &str = if response == TASK_RESPONSE_COMPLETE {
        "all-userspace-lanes-drained"
    } else if response == TASK_RESPONSE_LUN_DOES_NOT_EXIST {
        "lun-does-not-exist"
    } else if response == TASK_RESPONSE_FUNCTION_UNSUPPORTED {
        "function-unsupported"
    } else {
        "userspace-lane-drain-failed"
    };
    let asked: String = join4(
        "zciscsi-target-task-management: function=",
        decimal(function as u64).as_str(),
        " lun=",
        decimal(header.u64(8)).as_str(),
    );
    let answered: String = join4(
        asked.as_str(),
        " response=",
        decimal(response as u64).as_str(),
        " action=",
    );
    join3(answered.as_str(), action, " placement_owner=downstream-userspace-raid")
}

/// Data that come in two parts are written as one: where a write lacks data, and exactly the rest
/// then comes as it was asked for, what goes to the lane is the one part followed by the other.
pub proof fn law_solicited_data_completes_a_write(
    header: Seq<u8>,
    first: Seq<u8>,
    rest: Seq<u8>,
    capacity: u64,
    p: PendingView,
)
    requires
        scsi_outcome(header, first, capacity) == Ok::<ScsiOutcome, Fault>(ScsiOutcome::Ask(p)),
        first.len() + rest.len() == p.data.len(),
    ensures
        ({
            let done = filled_in(p, p.received, rest);
            &&& done.received == done.data.len()
            &&& done.data == first + rest
            &&& done.command == command_in(header)
            &&& done.lba == p.lba
            &&& done.fua == p.fua
            &&& header.len() == 48 && header[32] == 0x2a ==> done.lba == header[34] * 0x100_0000
                + header[35] * 0x1_0000 + header[36] * 0x100 + header[37]
            &&& header.len() == 48 && header[32] == 0x0a ==> done.lba == (header[33] % 32)
                * 0x1_0000 + header[34] * 0x100 + header[35]
            &&& header.len() == 48 && header[32] == 0x8a ==> done.lba == header[34]
                * 0x100_0000_0000_0000 + header[35] * 0x1_0000_0000_0000 + header[36]
                * 0x100_0000_0000 + header[37] * 0x1_0000_0000 + header[38] * 0x100_0000
                + header[39] * 0x1_0000 + header[40] * 0x100 + header[41]
        }),
{
    let done = filled_in(p, p.received, rest);
    assert(done.data =~= first + rest);
    if header.len() == 48 {
        lemma_command_bytes(header);
    }
}

/// A write that has become pending asks for exactly the data that it lacks, and it lacks some.
pub proof fn law_pending_write_lacks_data(header: Seq<u8>, data: Seq<u8>, capacity: u64, p: PendingView)
    requires
        scsi_outcome(header, data, capacity) == Ok::<ScsiOutcome, Fault>(ScsiOutcome::Ask(p)),
    ensures
        p.received == data.len(),
        p.received < p.data.len(),
        p.data.len() == p.command.expected,
        p.data.len() % 4096 == 0,
{
}

/// Whatever a lane is asked to read or write lies within the volume.
pub proof fn law_lanes_stay_in_the_volume(header: Seq<u8>, data: Seq<u8>, capacity: u64)
    requires
        scsi_outcome(header, data, capacity) is Ok,
    ensures
        match scsi_outcome(header, data, capacity)->Ok_0 {
            ScsiOutcome::Read { lba, blocks, .. } => blocks > 0 && (lba + blocks) * 4096
                <= capacity,
            ScsiOutcome::Write { lba, data: all, .. } => all.len() > 0 && lba * 4096 + all.len()
                <= capacity,
            ScsiOutcome::Ask(p) => p.lba * 4096 + p.data.len() <= capacity,
            _ => true,
        },
{
}

/// A write that is accepted with all of its data goes to the block that the bytes of its command block
/// name, with those data and with the durability bit of the command block; the answer goes by the tag
/// of the command. A write is accepted whenever it has as many bytes as its blocks, and its blocks lie
/// in the volume.
pub proof fn law_writes_go_where_the_command_says(
    header: Seq<u8>,
    data: Seq<u8>,
    capacity: u64,
    lanes: nat,
    action: ScsiAction,
)
    requires
        header.len() == 48,
        scsi_outcome(header, data, capacity) is Ok,
        carries_out(action, scsi_outcome(header, data, capacity)->Ok_0, lanes),
    ensures
        match action {
            ScsiAction::Lane { lane, task: LaneTask::Write { command, lba, payload, fua } } => {
                &&& header[32] == 0x0a || header[32] == 0x2a || header[32] == 0x8a
                &&& header[32] == 0x0a ==> lba == (header[33] % 32) * 0x1_0000 + header[34] * 0x100
                    + header[35]
                &&& header[32] == 0x2a ==> lba == header[34] * 0x100_0000 + header[35] * 0x1_0000
                    + header[36] * 0x100 + header[37]
                &&& header[32] == 0x8a ==> lba == header[34] * 0x100_0000_0000_0000 + header[35]
                    * 0x1_0000_0000_0000 + header[36] * 0x100_0000_0000 + header[37]
                    * 0x1_0000_0000 + header[38] * 0x100_0000 + header[39] * 0x1_0000 + header[40]
                    * 0x100 + header[41]
                &&& payload@ == data
                &&& fua == (header[33] & 0x08 != 0)
                &&& command.itt == header[16] * 0x100_0000 + header[17] * 0x1_0000 + header[18]
                    * 0x100 + header[19]
                &&& lba * 4096 + payload@.len() <= capacity
                &&& lanes > 0 ==> lane == (header[24] * 0x100_0000 + header[25] * 0x1_0000
                    + header[26] * 0x100 + header[27]) % lanes as int
            },
            _ => true,
        },
        header[32] == 0x2a && header.subrange(8, 16) == Seq::new(8, |i: int| 0u8) && data.len() > 0
            && data.len() == (header[39] * 0x100 + header[40]) * 4096 && data.len() == header[20]
            * 0x100_0000 + header[21] * 0x1_0000 + header[22] * 0x100 + header[23] && (header[34]
            * 0x100_0000 + header[35] * 0x1_0000 + header[36] * 0x100 + header[37]) * 4096
            + data.len() <= capacity ==> (action matches ScsiAction::Lane { task, .. }
            && task is Write),
{
    lemma_command_bytes(header);
    let zero = Seq::new(8, |i: int| 0u8);
    if header.subrange(8, 16) == zero {
        crate::bytes::law_big_endian_values(zero);
    }
}

/// A read that is accepted asks a lane for the blocks that the bytes of its command block name, and for
/// as many bytes as the initiator expects.
pub proof fn law_reads_come_from_where_the_command_says(
    header: Seq<u8>,
    data: Seq<u8>,
    capacity: u64,
    lanes: nat,
    action: ScsiAction,
)
    requires
        header.len() == 48,
        scsi_outcome(header, data, capacity) is Ok,
        carries_out(action, scsi_outcome(header, data, capacity)->Ok_0, lanes),
    ensures
        match action {
            ScsiAction::Lane { lane, task: LaneTask::Read { command, lba, blocks } } => {
                &&& header[32] == 0x08 || header[32] == 0x28 || header[32] == 0x88
                &&& header[32] == 0x08 ==> {
                    &&& lba == (header[33] % 32) * 0x1_0000 + header[34] * 0x100 + header[35]
                    &&& blocks == if header[36] == 0 {
                        256
                    } else {
                        header[36] as int
                    }
                }
                &&& header[32] == 0x28 ==> {
                    &&& lba == header[34] * 0x100_0000 + header[35] * 0x1_0000 + header[36] * 0x100
                        + header[37]
                    &&& blocks == header[39] * 0x100 + header[40]
                }
                &&& header[32] == 0x88 ==> {
                    &&& lba == header[34] * 0x100_0000_0000_0000 + header[35] * 0x1_0000_0000_0000
                        + header[36] * 0x100_0000_0000 + header[37] * 0x1_0000_0000 + header[38]
                        * 0x100_0000 + header[39] * 0x1_0000 + header[40] * 0x100 + header[41]
                    &&& blocks == header[42] * 0x100_0000 + header[43] * 0x1_0000 + header[44]
                        * 0x100 + header[45]
                }
                &&& blocks * 4096 == header[20] * 0x100_0000 + header[21] * 0x1_0000 + header[22]
                    * 0x100 + header[23]
                &&& command.expected == blocks * 4096
                &&& command.itt == header[16] * 0x100_0000 + header[17] * 0x1_0000 + header[18]
                    * 0x100 + header[19]
                &&& (lba + blocks) * 4096 <= capacity
                &&& lanes > 0 ==> lane == (header[24] * 0x100_0000 + header[25] * 0x1_0000
                    + header[26] * 0x100 + header[27]) % lanes as int
            },
            _ => true,
        },
        header[32] == 0x28 && header.subrange(8, 16) == Seq::new(8, |i: int| 0u8) && header[39]
            * 0x100 + header[40] > 0 && (header[39] * 0x100 + header[40]) * 4096 == header[20]
            * 0x100_0000 + header[21] * 0x1_0000 + header[22] * 0x100 + header[23] && (header[34]
            * 0x100_0000 + header[35] * 0x1_0000 + header[36] * 0x100 + header[37] + header[39]
            * 0x100 + header[40]) * 4096 <= capacity ==> (action matches ScsiAction::Lane {
            task,
            ..
        } && task is Read),
{
    lemma_command_bytes(header);
    let zero = Seq::new(8, |i: int| 0u8);
    if header.subrange(8, 16) == zero {
        crate::bytes::law_big_endian_values(zero);
    }
}

/// A write of which data are still to come is kept under the tag of its command with the block that the
/// bytes of its command block name; each byte that has come stands at its place, and the rest is asked
/// for. Every other pending write stays as it was, and nothing else becomes pending.
pub proof fn law_pending_writes_remember_their_block(
    header: Seq<u8>,
    data: Seq<u8>,
    capacity: u64,
    lanes: nat,
    action: ScsiAction,
    before: Map<u32, PendingView>,
    after: Map<u32, PendingView>,
)
    requires
        header.len() == 48,
        scsi_outcome(header, data, capacity) is Ok,
        carries_out(action, scsi_outcome(header, data, capacity)->Ok_0, lanes),
        match scsi_outcome(header, data, capacity)->Ok_0 {
            ScsiOutcome::Ask(p) => after == before.insert(p.command.itt, p),
            _ => after == before,
        },
    ensures
        ({
            let tag = header[16] * 0x100_0000 + header[17] * 0x1_0000 + header[18] * 0x100
                + header[19];
            let expected = header[20] * 0x100_0000 + header[21] * 0x1_0000 + header[22] * 0x100
                + header[23];
            &&& forall|t: u32|
                t != tag ==> after.dom().contains(t) == #[trigger] before.dom().contains(t)
                    && after[t] == before[t]
            &&& action !is Reply || !(action->Reply_0@ is R2t) ==> after == before
            &&& action is Reply && action->Reply_0@ is R2t ==> {
                let p = after[tag as u32];
                &&& after.dom().contains(tag as u32)
                &&& header[32] == 0x0a || header[32] == 0x2a || header[32] == 0x8a
                &&& header[32] == 0x0a ==> p.lba == (header[33] % 32) * 0x1_0000 + header[34]
                    * 0x100 + header[35]
                &&& header[32] == 0x2a ==> p.lba == header[34] * 0x100_0000 + header[35]
                    * 0x1_0000 + header[36] * 0x100 + header[37]
                &&& header[32] == 0x8a ==> p.lba == header[34] * 0x100_0000_0000_0000
                    + header[35] * 0x1_0000_0000_0000 + header[36] * 0x100_0000_0000 + header[37]
                    * 0x1_0000_0000 + header[38] * 0x100_0000 + header[39] * 0x1_0000
                    + header[40] * 0x100 + header[41]
                &&& p.fua == (header[33] & 0x08 != 0)
                &&& p.command.itt == tag
                &&& p.command.cmd_sn == header[24] * 0x100_0000 + header[25] * 0x1_0000
                    + header[26] * 0x100 + header[27]
                &&& p.data.len() == expected
                &&& p.received == data.len() < expected
                &&& forall|k: int| 0 <= k < data.len() ==> #[trigger] p.data[k] == data[k]
                &&& p.lba * 4096 + expected <= capacity
                &&& action->Reply_0@->R2t_command == p.command
                &&& action->Reply_0@->R2t_offset == data.len()
                &&& action->Reply_0@->R2t_len == expected - data.len()
            }
        }),
{
    lemma_command_bytes(header);
}

/// Data that are sent later overwrite exactly the bytes of the pending write at which they were said to
/// stand. The write keeps its block, its command and its durability bit; where its last byte has come it
/// goes to its lane as it is then, and is no longer pending; no other pending write changes.
pub proof fn law_data_out_fills_its_place(
    header: Seq<u8>,
    data: Seq<u8>,
    lanes: nat,
    before: Map<u32, PendingView>,
    sent: Option<(usize, LaneTask)>,
    after: Map<u32, PendingView>,
)
    requires
        header.len() == 48,
        data_taken(header, data, lanes, before, sent, after),
    ensures
        ({
            let tag = header[16] * 0x100_0000 + header[17] * 0x1_0000 + header[18] * 0x100
                + header[19];
            let offset = header[40] * 0x100_0000 + header[41] * 0x1_0000 + header[42] * 0x100
                + header[43];
            let old_write = before[tag as u32];
            &&& before.dom().contains(tag as u32)
            &&& offset + data.len() <= old_write.data.len()
            &&& forall|t: u32|
                t != tag ==> after.dom().contains(t) == #[trigger] before.dom().contains(t)
                    && after[t] == before[t]
            &&& match sent {
                Some((lane, LaneTask::Write { command, lba, payload, fua })) => {
                    &&& !after.dom().contains(tag as u32)
                    &&& lanes > 0 ==> lane == old_write.command.cmd_sn as int % lanes as int
                    &&& command == old_write.command
                    &&& lba == old_write.lba
                    &&& fua == old_write.fua
                    &&& payload@.len() == old_write.data.len()
                    &&& payload@.len() == old_write.received || payload@.len() == offset
                        + data.len()
                    &&& forall|k: int|
                        0 <= k < payload@.len() ==> #[trigger] payload@[k] == if offset <= k
                            < offset + data.len() {
                            data[k - offset]
                        } else {
                            old_write.data[k]
                        }
                },
                Some(_) => false,
                None => {
                    let p = after[tag as u32];
                    &&& after.dom().contains(tag as u32)
                    &&& p.command == old_write.command
                    &&& p.lba == old_write.lba
                    &&& p.fua == old_write.fua
                    &&& p.data.len() == old_write.data.len()
                    &&& p.received != p.data.len()
                    &&& p.received >= old_write.received && p.received >= offset + data.len()
                    &&& p.received == old_write.received || p.received == offset + data.len()
                    &&& forall|k: int|
                        0 <= k < p.data.len() ==> #[trigger] p.data[k] == if offset <= k
                            < offset + data.len() {
                            data[k - offset]
                        } else {
                            old_write.data[k]
                        }
                },
            }
        }),
{
    lemma_command_bytes(header);
    crate::bytes::law_big_endian_values(header.subrange(40, 44));
}

/// A command for another unit is refused as such, one whose blocks do not fit what the initiator
/// expects as wrong in a field, and one whose blocks reach past the volume as out of range; the answer
/// carries the tag of the command, and no lane is asked.
pub proof fn law_refused_commands_are_told_why(
    header: Seq<u8>,
    data: Seq<u8>,
    capacity: u64,
    lanes: nat,
    action: ScsiAction,
)
    requires
        header.len() == 48,
        scsi_outcome(header, data, capacity) is Ok,
        carries_out(action, scsi_outcome(header, data, capacity)->Ok_0, lanes),
    ensures
        ({
            let tag = header[16] * 0x100_0000 + header[17] * 0x1_0000 + header[18] * 0x100
                + header[19];
            let expected = header[20] * 0x100_0000 + header[21] * 0x1_0000 + header[22] * 0x100
                + header[23];
            let lba = header[34] * 0x100_0000 + header[35] * 0x1_0000 + header[36] * 0x100
                + header[37];
            let blocks = header[39] * 0x100 + header[40];
            let ten = header[32] == 0x28 || header[32] == 0x2a;
            let unit = header.subrange(8, 16) == Seq::new(8, |i: int| 0u8);
            let told = |asc: u8|
                action is Reply && action->Reply_0@ is Check && action->Reply_0@->Check_command.itt
                    == tag && action->Reply_0@->sense.len() == 18 && action->Reply_0@->sense[0]
                    == 0x70 && action->Reply_0@->sense[2] == 5 && action->Reply_0@->sense[12] == asc;
            &&& !unit ==> told(0x25)
            &&& unit && ten && blocks * 4096 != expected ==> told(0x24)
            &&& unit && header[32] == 0x2a && data.len() > expected ==> told(0x24)
            &&& unit && ten && blocks * 4096 == expected && data.len() <= expected && (lba
                + blocks) * 4096 > capacity ==> told(0x21)
        }),
{
    lemma_command_bytes(header);
    let unit = header.subrange(8, 16);
    let zero = Seq::new(8, |i: int| 0u8);
    crate::bytes::law_big_endian_values(zero);
    if unit != zero {
        if crate::iscsi::header::field(header, 8, 8) == 0 {
            assert forall|i: int| 0 <= i < 8 implies unit[i] == zero[i] by {
                assert(unit[0] == 0 && unit[1] == 0 && unit[2] == 0 && unit[3] == 0 && unit[4] == 0
                    && unit[5] == 0 && unit[6] == 0 && unit[7] == 0);
            }
            assert(unit =~= zero);
        }
    }
}

proof fn lemma_command_bytes(header: Seq<u8>)
    requires
        header.len() == 48,
    ensures
        ({
            let h = header;
            let cdb = h.subrange(32, 48);
            &&& crate::iscsi::header::field(h, 8, 8) == h[8] * 0x100_0000_0000_0000 + h[9]
                * 0x1_0000_0000_0000 + h[10] * 0x100_0000_0000 + h[11] * 0x1_0000_0000 + h[12]
                * 0x100_0000 + h[13] * 0x1_0000 + h[14] * 0x100 + h[15]
            &&& crate::iscsi::header::field(h, 16, 4) == h[16] * 0x100_0000 + h[17] * 0x1_0000
                + h[18] * 0x100 + h[19]
            &&& crate::iscsi::header::field(h, 20, 4) == h[20] * 0x100_0000 + h[21] * 0x1_0000
                + h[22] * 0x100 + h[23]
            &&& crate::iscsi::header::field(h, 24, 4) == h[24] * 0x100_0000 + h[25] * 0x1_0000
                + h[26] * 0x100 + h[27]
            &&& crate::bytes::be_value(cdb.subrange(2, 6)) == h[34] * 0x100_0000 + h[35] * 0x1_0000
                + h[36] * 0x100 + h[37]
            &&& crate::bytes::be_value(cdb.subrange(7, 9)) == h[39] * 0x100 + h[40]
            &&& crate::bytes::be_value(cdb.subrange(2, 10)) == h[34] * 0x100_0000_0000_0000 + h[35]
                * 0x1_0000_0000_0000 + h[36] * 0x100_0000_0000 + h[37] * 0x1_0000_0000 + h[38]
                * 0x100_0000 + h[39] * 0x1_0000 + h[40] * 0x100 + h[41]
            &&& crate::bytes::be_value(cdb.subrange(10, 14)) == h[42] * 0x100_0000 + h[43]
                * 0x1_0000 + h[44] * 0x100 + h[45]
            &&& forall|i: int| 0 <= i < 16 ==> #[trigger] cdb[i] == h[32 + i]
        }),
{
    let cdb = header.subrange(32, 48);
    crate::bytes::law_big_endian_values(header.subrange(8, 16));
    crate::bytes::law_big_endian_values(header.subrange(16, 20));
    crate::bytes::law_big_endian_values(header.subrange(20, 24));
    crate::bytes::law_big_endian_values(header.subrange(24, 28));
    crate::bytes::law_big_endian_values(cdb.subrange(2, 6));
    crate::bytes::law_big_endian_values(cdb.subrange(7, 9));
    crate::bytes::law_big_endian_values(cdb.subrange(2, 10));
    crate::bytes::law_big_endian_values(cdb.subrange(10, 14));
}

/// Each unit of a session leads to the step of its kind, under its own task tag: a ping is echoed with its
/// data, a reset of the only unit drains the lanes, and any other task is refused for what it is. In a
/// discovery session there are neither commands nor data nor tasks.
pub proof fn law_units_lead_to_their_step(
    discovery: bool,
    header: Seq<u8>,
    data: Seq<u8>,
    target: Seq<char>,
    advertised: Seq<char>,
)
    requires
        header.len() == 48,
    ensures
        ({
            let step = step_of(discovery, header, data, target, advertised);
            let op = header[0] % 64;
            let tag = header[16] * 0x100_0000 + header[17] * 0x1_0000 + header[18] * 0x100
                + header[19];
            let transfer = header[20] * 0x100_0000 + header[21] * 0x1_0000 + header[22] * 0x100
                + header[23];
            let zero_unit = header.subrange(8, 16) == Seq::new(8, |i: int| 0u8);
            let reset = header[1] % 128 == 5;
            &&& op == 0 ==> (step matches Ok(StepView::Reply(CompletionView::Nop {
                itt,
                ttt,
                data: echo,
            })) && itt == tag && ttt == transfer && echo == data)
            &&& op == 4 ==> (step matches Ok(StepView::Reply(CompletionView::Text { itt, .. })) && itt
                == tag)
            &&& op == 6 ==> (step matches Ok(StepView::Logout(CompletionView::Logout { itt })) && itt
                == tag)
            &&& !discovery && op == 1 ==> step == Ok::<StepView, Fault>(StepView::Scsi)
            &&& !discovery && op == 5 ==> step == Ok::<StepView, Fault>(StepView::DataOut)
            &&& !discovery && op == 2 && reset && zero_unit ==> (step matches Ok(StepView::Drain {
                itt,
            }) && itt == tag)
            &&& !discovery && op == 2 && !reset ==> (step matches Ok(StepView::Reply(
                CompletionView::Task { itt, response },
            )) && itt == tag && response == 5)
            &&& !discovery && op == 2 && reset && !zero_unit ==> (step matches Ok(StepView::Reply(
                CompletionView::Task { itt, response },
            )) && itt == tag && response == 2)
            &&& discovery && (op == 1 || op == 2 || op == 5) ==> step is Err
            &&& op != 0 && op != 1 && op != 2 && op != 4 && op != 5 && op != 6 ==> step is Err
        }),
{
    let b = header[0];
    let f = header[1];
    assert(b & 0x3f == b % 64) by (bit_vector);
    assert(f & 0x7f == f % 128) by (bit_vector);
    crate::bytes::lemma_byte_ranges();
    let tag = header.subrange(16, 20);
    let transfer = header.subrange(20, 24);
    let unit = header.subrange(8, 16);
    crate::bytes::law_big_endian_values(tag);
    crate::bytes::law_big_endian_values(transfer);
    crate::bytes::law_big_endian_values(unit);
    crate::bytes::lemma_be_value_bound(tag);
    crate::bytes::lemma_be_value_bound(transfer);
    assert(tag[0] == header[16] && tag[1] == header[17] && tag[2] == header[18] && tag[3]
        == header[19]);
    assert(transfer[0] == header[20] && transfer[1] == header[21] && transfer[2] == header[22]
        && transfer[3] == header[23]);
    if crate::bytes::be_value(unit) == 0 {
        assert(unit =~= Seq::new(8, |i: int| 0u8));
    }
}

/// Who asks for the targets is told of this one, by its name and the address under which it is advertised.
pub proof fn law_targets_are_told_to_who_asks(
    data: Seq<u8>,
    target: Seq<char>,
    advertised: Seq<char>,
)
    requires
        crate::iscsi::keys::lacks(target, '\0'),
        crate::iscsi::keys::lacks(advertised, '\0'),
    ensures
        asks_targets(data) ==> crate::iscsi::keys::key_values(
            targets_text(data, target, advertised),
        ) == seq![("TargetName"@, target), ("TargetAddress"@, advertised + ",1"@)],
        !asks_targets(data) ==> targets_text(data, target, advertised).len() == 0,
{
    reveal_strlit("TargetName");
    reveal_strlit("TargetAddress");
    reveal_strlit(",1");
    let name = crate::iscsi::keys::pair_bytes("TargetName"@, target);
    let none = Seq::<u8>::empty();
    assert(none + name =~= name);
    crate::iscsi::keys::law_appended_pair_reads_back(none, "TargetName"@, target);
    assert(name.last() == 0u8);
    let place = advertised + ",1"@;
    assert(crate::iscsi::keys::lacks(place, '\0'));
    crate::iscsi::keys::law_appended_pair_reads_back(name, "TargetAddress"@, place);
    lemma_no_pairs();
    assert(crate::iscsi::keys::key_values(none).push(("TargetName"@, target)).push(
        ("TargetAddress"@, place),
    ) =~= seq![("TargetName"@, target), ("TargetAddress"@, place)]);
}

proof fn lemma_no_pairs()
    ensures
        crate::iscsi::keys::key_values(Seq::empty()).len() == 0,
{
    let none = Seq::<u8>::empty();
    let list = crate::iscsi::keys::entries(none);
    assert(list =~= seq![Seq::<u8>::empty()]);
    let entry = Seq::<u8>::empty();
    reveal_with_fuel(crate::iscsi::keys::pairs_of, 2);
    assert(list.drop_last() =~= Seq::<Seq<u8>>::empty());
    assert(crate::iscsi::keys::pair_of(entry) is None) by {
        if vstd::utf8::valid_utf8(entry) {
            let s = vstd::utf8::decode_utf8(entry);
            assert(s.len() == 0);
        }
    }
}

/// A cache is flushed where the command says so, and what is neither read nor written nor flushed is
/// answered at once, towards the command.
pub proof fn law_other_commands_are_answered(
    header: Seq<u8>,
    data: Seq<u8>,
    capacity: u64,
    lanes: nat,
    action: ScsiAction,
)
    requires
        header.len() == 48,
        scsi_outcome(header, data, capacity) is Ok,
        carries_out(action, scsi_outcome(header, data, capacity)->Ok_0, lanes),
        crate::iscsi::header::field(header, 8, 8) == 0,
        !(header[32] == 0x08 || header[32] == 0x28 || header[32] == 0x88),
        !(header[32] == 0x0a || header[32] == 0x2a || header[32] == 0x8a),
    ensures
        ({
            let tag = crate::iscsi::header::field(header, 16, 4);
            let answer = crate::iscsi::scsi::control_answer(header.subrange(32, 48), capacity);
            match action {
                ScsiAction::Flush { command } => (header[32] == 0x35 || header[32] == 0x91)
                    && command.itt == tag,
                ScsiAction::Reply(c) => header[32] != 0x35 && header[32] != 0x91 && match c@ {
                    CompletionView::Data { command, payload } => command.itt == tag && answer == Ok::<
                        Option<Seq<u8>>,
                        Seq<u8>,
                    >(Some(payload)),
                    CompletionView::Good { command } => command.itt == tag && answer == Ok::<
                        Option<Seq<u8>>,
                        Seq<u8>,
                    >(None),
                    CompletionView::Check { command, sense } => command.itt == tag && answer == Err::<
                        Option<Seq<u8>>,
                        Seq<u8>,
                    >(sense),
                    _ => false,
                },
                ScsiAction::Lane { .. } => false,
            }
        }),
{
    crate::bytes::lemma_byte_ranges();
    crate::bytes::lemma_be_value_bound(header.subrange(16, 20));
    let cdb = header.subrange(32, 48);
    assert(cdb[0] == header[32]);
}

} // verus!
