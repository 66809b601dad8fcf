//! What is sent to the initiator: one protocol data unit for each completion.
use vstd::prelude::*;
use vstd::string::*;

use crate::bytes::{append_bytes, copy_range};
use crate::error::Error;
use crate::iscsi::header::{
    serial_fields, Header, BLOCK_SIZE, DATA_IN_BATCH, OP_DATA_IN, OP_LOGOUT_RESPONSE, OP_NOP_IN,
    OP_R2T, OP_SCSI_RESPONSE, OP_TASK_RESPONSE, OP_TEXT_RESPONSE,
};
#[allow(unused_imports)]
use crate::error::ErrorKind;

verus! {

/// What identifies a SCSI command.
#[derive(Clone, Copy, Debug, PartialEq, Eq, Structural)]
pub struct Command {
    pub itt: u32,
    pub lun: u64,
    pub expected: u32,
    pub cmd_sn: u32,
}

/// Something to tell the initiator.
#[derive(Debug)]
pub enum Completion {
    Data { command: Command, payload: Vec<u8> },
    Good { command: Command },
    Check { command: Command, sense: Vec<u8> },
    R2t { command: Command, offset: u32, len: u32 },
    Text { itt: u32, data: Vec<u8> },
    Nop { itt: u32, ttt: u32, data: Vec<u8> },
    Task { itt: u32, response: u8 },
    Logout { itt: u32 },
}

/// What a [`Completion`] means.
pub enum CompletionView {
    Data { command: Command, payload: Seq<u8> },
    Good { command: Command },
    Check { command: Command, sense: Seq<u8> },
    R2t { command: Command, offset: u32, len: u32 },
    Text { itt: u32, data: Seq<u8> },
    Nop { itt: u32, ttt: u32, data: Seq<u8> },
    Task { itt: u32, response: u8 },
    Logout { itt: u32 },
}

impl View for Completion {
    type V = CompletionView;

    open spec fn view(&self) -> CompletionView {
        match self {
            Completion::Data { command, payload } => CompletionView::Data {
                command: *command,
                payload: payload@,
            },
            Completion::Good { command } => CompletionView::Good { command: *command },
            Completion::Check { command, sense } => CompletionView::Check {
                command: *command,
                sense: sense@,
            },
            Completion::R2t { command, offset, len } => CompletionView::R2t {
                command: *command,
                offset: *offset,
                len: *len,
            },
            Completion::Text { itt, data } => CompletionView::Text { itt: *itt, data: data@ },
            Completion::Nop { itt, ttt, data } => CompletionView::Nop {
                itt: *itt,
                ttt: *ttt,
                data: data@,
            },
            Completion::Task { itt, response } => CompletionView::Task {
                itt: *itt,
                response: *response,
            },
            Completion::Logout { itt } => CompletionView::Logout { itt: *itt },
        }
    }
}

/// A header with its data segment; padding is added on the wire.
#[derive(Debug)]
pub struct Pdu {
    pub header: Header,
    pub data: Vec<u8>,
}

/// The data segment that a completion is sent with.
pub open spec fn segment(c: CompletionView) -> Seq<u8> {
    match c {
        CompletionView::Data { payload, .. } => payload,
        CompletionView::Check { sense, .. } => crate::bytes::be_bytes(
            sense.len() % 65536,
            2,
        ) + sense,
        CompletionView::Text { data, .. } => data,
        CompletionView::Nop { data, .. } => data,
        _ => Seq::empty(),
    }
}

/// Data for a command, with the final flag, good status and what is left of the expected length.
pub open spec fn data_in_header(command: Command, len: nat, stat_sn: u32, exp: u32) -> Seq<u8> {
    let short = len < command.expected;
    let s = crate::iscsi::header::blank(OP_DATA_IN).update(1, 0x81).update(3, 0);
    let s = crate::iscsi::header::with_u64(s, 8, command.lun);
    let s = crate::iscsi::header::with_u32(s, 16, command.itt);
    let s = crate::iscsi::header::with_u32(s, 20, u32::MAX);
    let s = crate::iscsi::header::with_serials(s, stat_sn, exp);
    let s = crate::iscsi::header::with_u32(s, 36, 0);
    let s = crate::iscsi::header::with_u32(s, 40, 0);
    let s = crate::iscsi::header::with_data_len(s, len);
    if short {
        crate::iscsi::header::with_u32(
            s.update(1, s[1] | 0x02),
            44,
            (command.expected - len) as u32,
        )
    } else {
        s
    }
}

/// The header that a completion is sent with.
pub open spec fn header_of(c: CompletionView, stat_sn: u32, exp: u32) -> Seq<u8> {
    match c {
        CompletionView::Data { command, payload } => data_in_header(
            command,
            payload.len(),
            stat_sn,
            exp,
        ),
        CompletionView::Good { command } => {
            let s = crate::iscsi::header::blank(OP_SCSI_RESPONSE).update(1, 0x80);
            let s = crate::iscsi::header::with_u32(s, 16, command.itt);
            crate::iscsi::header::with_serials(s, stat_sn, exp)
        },
        CompletionView::Check { command, sense } => {
            let s = crate::iscsi::header::blank(OP_SCSI_RESPONSE).update(1, 0x80).update(3, 0x02);
            let s = crate::iscsi::header::with_u32(s, 16, command.itt);
            let s = crate::iscsi::header::with_serials(s, stat_sn, exp);
            crate::iscsi::header::with_data_len(s, sense.len() + 2)
        },
        CompletionView::R2t { command, offset, len } => {
            let s = crate::iscsi::header::blank(OP_R2T).update(1, 0x80);
            let s = crate::iscsi::header::with_u64(s, 8, command.lun);
            let s = crate::iscsi::header::with_u32(s, 16, command.itt);
            let s = crate::iscsi::header::with_u32(s, 20, command.itt);
            let s = crate::iscsi::header::with_serials(s, stat_sn, exp);
            let s = crate::iscsi::header::with_u32(s, 36, 0);
            let s = crate::iscsi::header::with_u32(s, 40, offset);
            crate::iscsi::header::with_u32(s, 44, len)
        },
        CompletionView::Text { itt, data } => {
            let s = crate::iscsi::header::blank(OP_TEXT_RESPONSE).update(1, 0x80);
            let s = crate::iscsi::header::with_u32(s, 16, itt);
            let s = crate::iscsi::header::with_u32(s, 20, u32::MAX);
            let s = crate::iscsi::header::with_serials(s, stat_sn, exp);
            crate::iscsi::header::with_data_len(s, data.len())
        },
        CompletionView::Nop { itt, ttt, data } => {
            let s = crate::iscsi::header::blank(OP_NOP_IN).update(1, 0x80);
            let s = crate::iscsi::header::with_u32(s, 16, itt);
            let s = crate::iscsi::header::with_u32(s, 20, ttt);
            let s = crate::iscsi::header::with_serials(s, stat_sn, exp);
            crate::iscsi::header::with_data_len(s, data.len())
        },
        CompletionView::Task { itt, response } => {
            let s = crate::iscsi::header::blank(OP_TASK_RESPONSE).update(1, 0x80).update(
                2,
                response,
            );
            let s = crate::iscsi::header::with_u32(s, 16, itt);
            crate::iscsi::header::with_serials(s, stat_sn, exp)
        },
        CompletionView::Logout { itt } => {
            let s = crate::iscsi::header::blank(OP_LOGOUT_RESPONSE).update(1, 0x80);
            let s = crate::iscsi::header::with_u32(s, 16, itt);
            crate::iscsi::header::with_serials(s, stat_sn, exp)
        },
    }
}

/// The error for a data segment that cannot be announced.
pub open spec fn too_long() -> (ErrorKind, Seq<char>) {
    (ErrorKind::InvalidInput, "iSCSI data segment exceeds 24-bit length"@)
}

fn data_in(command: Command, len: usize, stat_sn: u32, exp: u32) -> (r: Result<Header, Error>)
    ensures
        match r {
            Ok(header) => len <= 0xff_ffff && header@ == data_in_header(
                command,
                len as nat,
                stat_sn,
                exp,
            ),
            Err(e) => len > 0xff_ffff && e@ == too_long(),
        },
{
    let mut header: Header = Header::zeroed(OP_DATA_IN);
    header.put_byte(1, 0x81);
    header.put_byte(3, 0);
    header.put_u64(8, command.lun);
    header.put_u32(16, command.itt);
    header.put_u32(20, u32::MAX);
    serial_fields(&mut header, stat_sn, exp);
    header.put_u32(36, 0);
    header.put_u32(40, 0);
    match header.set_data_len(len) {
        Ok(_) => {},
        Err(e) => {
            return Err(e);
        },
    }
    if len < command.expected as usize {
        let flags: u8 = header.0[1] | 0x02;
        header.put_byte(1, flags);
        header.put_u32(44, command.expected - len as u32);
    }
    Ok(header)
}

fn answer(op: u8, itt: u32, ttt: Option<u32>, stat_sn: u32, exp: u32) -> (header: Header)
    ensures
        header@ == ({
            let s = crate::iscsi::header::blank(op).update(1, 0x80);
            let s = crate::iscsi::header::with_u32(s, 16, itt);
            let s = match ttt {
                Some(t) => crate::iscsi::header::with_u32(s, 20, t),
                None => s,
            };
            crate::iscsi::header::with_serials(s, stat_sn, exp)
        }),
{
    let mut header: Header = Header::zeroed(op);
    header.put_byte(1, 0x80);
    header.put_u32(16, itt);
    match ttt {
        Some(t) => {
            header.put_u32(20, t);
        },
        None => {},
    }
    serial_fields(&mut header, stat_sn, exp);
    header
}

/// The unit that tells the initiator of a completion.
pub fn completion_pdu(completion: &Completion, stat_sn: u32, exp: u32) -> (r: Result<Pdu, Error>)
    ensures
        match r {
            Ok(pdu) => {
                &&& segment(completion@).len() <= 0xff_ffff
                &&& pdu.header@ == header_of(completion@, stat_sn, exp)
                &&& pdu.data@ == segment(completion@)
            },
            Err(e) => segment(completion@).len() > 0xff_ffff && e@ == too_long(),
        },
{
    match completion {
        Completion::Data { command, payload } => {
            match data_in(*command, payload.len(), stat_sn, exp) {
                Ok(header) => {
                    let data: Vec<u8> = copy_range(payload.as_slice(), 0, payload.len());
                    proof {
                        assert(data@ =~= payload@);
                    }
                    Ok(Pdu { header, data })
                },
                Err(e) => Err(e),
            }
        },
        Completion::Good { command } => Ok(
            Pdu {
                header: answer(OP_SCSI_RESPONSE, command.itt, None, stat_sn, exp),
                data: Vec::new(),
            },
        ),
        Completion::Check { command, sense } => {
            let mut data: Vec<u8> = crate::bytes::filled(0, 2);
            crate::bytes::put_be(&mut data, 0, 2, sense.len() as u64 % 65536);
            append_bytes(&mut data, sense.as_slice());
            proof {
                crate::bytes::lemma_be_bytes_len(sense@.len() % 65536, 2);
                assert(data@ =~= segment(completion@));
            }
            let mut header: Header = Header::zeroed(OP_SCSI_RESPONSE);
            header.put_byte(1, 0x80);
            header.put_byte(3, 0x02);
            header.put_u32(16, command.itt);
            serial_fields(&mut header, stat_sn, exp);
            match header.set_data_len(data.len()) {
                Ok(_) => Ok(Pdu { header, data }),
                Err(e) => Err(e),
            }
        },
        Completion::R2t { command, offset, len } => {
            let mut header: Header = Header::zeroed(OP_R2T);
            header.put_byte(1, 0x80);
            header.put_u64(8, command.lun);
            header.put_u32(16, command.itt);
            header.put_u32(20, command.itt);
            serial_fields(&mut header, stat_sn, exp);
            header.put_u32(36, 0);
            header.put_u32(40, *offset);
            header.put_u32(44, *len);
            Ok(Pdu { header, data: Vec::new() })
        },
        Completion::Text { itt, data } => {
            let mut header: Header = answer(OP_TEXT_RESPONSE, *itt, Some(u32::MAX), stat_sn, exp);
            match header.set_data_len(data.len()) {
                Ok(_) => {
                    let copy: Vec<u8> = copy_range(data.as_slice(), 0, data.len());
                    proof {
                        assert(copy@ =~= data@);
                    }
                    Ok(Pdu { header, data: copy })
                },
                Err(e) => Err(e),
            }
        },
        Completion::Nop { itt, ttt, data } => {
            let mut header: Header = answer(OP_NOP_IN, *itt, Some(*ttt), stat_sn, exp);
            match header.set_data_len(data.len()) {
                Ok(_) => {
                    let copy: Vec<u8> = copy_range(data.as_slice(), 0, data.len());
                    proof {
                        assert(copy@ =~= data@);
                    }
                    Ok(Pdu { header, data: copy })
                },
                Err(e) => Err(e),
            }
        },
        Completion::Task { itt, response } => {
            let mut header: Header = Header::zeroed(OP_TASK_RESPONSE);
            header.put_byte(1, 0x80);
            header.put_byte(2, *response);
            header.put_u32(16, *itt);
            serial_fields(&mut header, stat_sn, exp);
            Ok(Pdu { header, data: Vec::new() })
        },
        Completion::Logout { itt } => Ok(
            Pdu {
                header: answer(OP_LOGOUT_RESPONSE, *itt, None, stat_sn, exp),
                data: Vec::new(),
            },
        ),
    }
}

/// Whether a completion carries exactly one block.
pub open spec fn is_block(c: CompletionView) -> bool {
    c matches CompletionView::Data { payload, .. } && payload.len() == 4096
}

/// What a list of completions means.
pub open spec fn completions_view(s: Seq<Completion>) -> Seq<CompletionView> {
    Seq::new(s.len(), |i: int| s[i]@)
}

/// How many completions at the head of the queue are sent together: single blocks that follow
/// each other, up to a batch; any other completion goes alone.
pub open spec fn batch_len(queue: Seq<CompletionView>, n: nat) -> nat
    decreases queue.len() - n,
{
    if n < queue.len() && n < DATA_IN_BATCH && is_block(queue[n as int]) {
        batch_len(queue, n + 1)
    } else if n == 0 {
        1
    } else {
        n
    }
}

/// Counters of the writer.
#[derive(Clone, Copy, Debug, PartialEq, Eq, Structural)]
pub struct WriterCounts {
    pub data_pdus: u64,
    pub data_batches: u64,
    pub max_data_batch: u64,
}

/// The counters after a batch of `n` blocks.
pub open spec fn counted(c: WriterCounts, n: nat) -> WriterCounts {
    WriterCounts {
        data_pdus: (c.data_pdus + n) as u64,
        data_batches: (c.data_batches + 1) as u64,
        max_data_batch: if c.max_data_batch >= n {
            c.max_data_batch
        } else {
            n as u64
        },
    }
}

fn carries_block(c: &Completion) -> (yes: bool)
    ensures
        yes == is_block(c@),
{
    match c {
        Completion::Data { payload, .. } => payload.len() == BLOCK_SIZE as usize,
        _ => false,
    }
}

/// Units for single blocks, sent together under status numbers that count up.
pub fn write_data_batch(batch: &[Completion], exp: u32, first_stat_sn: u32) -> (r: Result<
    Vec<Pdu>,
    Error,
>)
    requires
        forall|i: int| 0 <= i < batch@.len() ==> is_block(#[trigger] batch@[i]@),
    ensures
        r is Ok,
        r->Ok_0@.len() == batch@.len(),
        forall|i: int|
            0 <= i < batch@.len() ==> (#[trigger] r->Ok_0@[i]).header@ == header_of(
                batch@[i]@,
                ((first_stat_sn + i) % 0x1_0000_0000) as u32,
                exp,
            ) && r->Ok_0@[i].data@ == segment(batch@[i]@),
{
    let mut pdus: Vec<Pdu> = Vec::new();
    let mut stat_sn: u32 = first_stat_sn;
    let mut i: usize = 0;
    while i < batch.len()
        invariant
            i <= batch@.len(),
            pdus@.len() == i,
            stat_sn == (first_stat_sn + i) % 0x1_0000_0000,
            forall|k: int| 0 <= k < batch@.len() ==> is_block(#[trigger] batch@[k]@),
            forall|k: int|
                0 <= k < i ==> (#[trigger] pdus@[k]).header@ == header_of(
                    batch@[k]@,
                    ((first_stat_sn + k) % 0x1_0000_0000) as u32,
                    exp,
                ) && pdus@[k].data@ == segment(batch@[k]@),
        decreases batch@.len() - i,
    {
        assert(is_block(batch@[i as int]@));
        match completion_pdu(&batch[i], stat_sn, exp) {
            Ok(pdu) => {
                pdus.push(pdu);
            },
            Err(e) => {
                return Err(e);
            },
        }
        stat_sn = stat_sn.wrapping_add(1);
        i = i + 1;
    }
    Ok(pdus)
}

/// One round of the writer: the units for the head of the queue.
#[derive(Debug)]
pub struct WriterRound {
    pub pdus: Vec<Pdu>,
    pub taken: usize,
    pub stat_sn: u32,
    pub counts: WriterCounts,
}

/// One round of the writer. It takes the head of the queue, together with the blocks that follow
/// it where it is a block, and gives each unit the next status number.
pub fn writer_loop(
    queue: &[Completion],
    exp: u32,
    stat_sn: u32,
    counts: WriterCounts,
) -> (r: Result<WriterRound, Error>)
    requires
        queue@.len() > 0,
        counts.data_pdus + 64 <= u64::MAX,
        counts.data_batches < u64::MAX,
    ensures
        match r {
            Ok(round) => {
                &&& segment(queue@[0]@).len() <= 0xff_ffff
                &&& round.taken == batch_len(completions_view(queue@), 0)
                &&& round.taken <= queue@.len()
                &&& round.pdus@.len() == round.taken
                &&& round.stat_sn == (stat_sn + round.taken) % 0x1_0000_0000
                &&& forall|i: int|
                    0 <= i < round.taken ==> (#[trigger] round.pdus@[i]).header@ == header_of(
                        queue@[i]@,
                        ((stat_sn + i) % 0x1_0000_0000) as u32,
                        exp,
                    ) && round.pdus@[i].data@ == segment(queue@[i]@)
                &&& round.counts == if is_block(queue@[0]@) {
                    counted(counts, round.taken as nat)
                } else {
                    counts
                }
            },
            Err(e) => segment(queue@[0]@).len() > 0xff_ffff && e@ == too_long(),
        },
{
    let ghost view = completions_view(queue@);
    let mut n: usize = 0;
    while n < queue.len() && n < DATA_IN_BATCH && carries_block(&queue[n])
        invariant
            n <= queue@.len(),
            n <= 64,
            view == completions_view(queue@),
            forall|k: int| 0 <= k < n ==> is_block(#[trigger] queue@[k]@),
            batch_len(view, n as nat) == batch_len(view, 0),
        decreases queue@.len() - n,
    {
        assert(is_block(view[n as int]));
        n = n + 1;
    }
    if n == 0 {
        match completion_pdu(&queue[0], stat_sn, exp) {
            Ok(pdu) => {
                let mut pdus: Vec<Pdu> = Vec::new();
                pdus.push(pdu);
                Ok(WriterRound { pdus, taken: 1, stat_sn: stat_sn.wrapping_add(1), counts })
            },
            Err(e) => Err(e),
        }
    } else {
        assert(is_block(queue@[0]@));
        let head: &[Completion] = vstd::slice::slice_subrange(queue, 0, n);
        proof {
            assert forall|k: int| 0 <= k < head@.len() implies is_block(#[trigger] head@[k]@) by {
                assert(head@[k] == queue@[k]);
            }
        }
        match write_data_batch(head, exp, stat_sn) {
            Ok(pdus) => {
                let counts: WriterCounts = WriterCounts {
                    data_pdus: counts.data_pdus + n as u64,
                    data_batches: counts.data_batches + 1,
                    max_data_batch: if counts.max_data_batch >= n as u64 {
                        counts.max_data_batch
                    } else {
                        n as u64
                    },
                };
                Ok(WriterRound { pdus, taken: n, stat_sn: stat_sn.wrapping_add(n as u32), counts })
            },
            Err(e) => Err(e),
        }
    }
}

/// Every unit tells the initiator its status number, the next command that is expected and the
/// end of the command window, which is 4095 commands further.
pub proof fn law_units_carry_the_serial_window(c: CompletionView, stat_sn: u32, exp: u32)
    requires
        segment(c).len() <= 0xff_ffff,
    ensures
        crate::iscsi::header::field(header_of(c, stat_sn, exp), 24, 4) == stat_sn,
        crate::iscsi::header::field(header_of(c, stat_sn, exp), 28, 4) == exp,
        crate::iscsi::header::field(header_of(c, stat_sn, exp), 32, 4) == (exp + 4095)
            % 0x1_0000_0000,
{
    let h = header_of(c, stat_sn, exp);
    let last = crate::iscsi::header::wrapping_next(exp, 4095);
    crate::bytes::lemma_byte_ranges();
    crate::bytes::lemma_be_round_trip(stat_sn as nat, 4);
    crate::bytes::lemma_be_round_trip(exp as nat, 4);
    crate::bytes::lemma_be_round_trip(last as nat, 4);
    crate::bytes::lemma_be_bytes_len(stat_sn as nat, 4);
    crate::bytes::lemma_be_bytes_len(exp as nat, 4);
    crate::bytes::lemma_be_bytes_len(last as nat, 4);
    lemma_field_lens();
    assert(h.subrange(24, 28) =~= crate::bytes::be_bytes(stat_sn as nat, 4));
    assert(h.subrange(28, 32) =~= crate::bytes::be_bytes(exp as nat, 4));
    assert(h.subrange(32, 36) =~= crate::bytes::be_bytes(last as nat, 4));
}

proof fn lemma_field_lens()
    ensures
        forall|v: nat| #![trigger crate::bytes::be_bytes(v, 2)]
            crate::bytes::be_bytes(v, 2).len() == 2,
        forall|v: nat| #![trigger crate::bytes::be_bytes(v, 3)]
            crate::bytes::be_bytes(v, 3).len() == 3,
        forall|v: nat| #![trigger crate::bytes::be_bytes(v, 4)]
            crate::bytes::be_bytes(v, 4).len() == 4,
        forall|v: nat| #![trigger crate::bytes::be_bytes(v, 8)]
            crate::bytes::be_bytes(v, 8).len() == 8,
{
    assert forall|v: nat| #![trigger crate::bytes::be_bytes(v, 2)]
        crate::bytes::be_bytes(v, 2).len() == 2 by {
        crate::bytes::lemma_be_bytes_len(v, 2);
    }
    assert forall|v: nat| #![trigger crate::bytes::be_bytes(v, 3)]
        crate::bytes::be_bytes(v, 3).len() == 3 by {
        crate::bytes::lemma_be_bytes_len(v, 3);
    }
    assert forall|v: nat| #![trigger crate::bytes::be_bytes(v, 4)]
        crate::bytes::be_bytes(v, 4).len() == 4 by {
        crate::bytes::lemma_be_bytes_len(v, 4);
    }
    assert forall|v: nat| #![trigger crate::bytes::be_bytes(v, 8)]
        crate::bytes::be_bytes(v, 8).len() == 8 by {
        crate::bytes::lemma_be_bytes_len(v, 8);
    }
}

/// Completions are sent in the order in which they were queued: a round takes a non-empty prefix
/// of the queue, at most a batch.
pub proof fn law_rounds_keep_order(queue: Seq<CompletionView>)
    requires
        queue.len() > 0,
    ensures
        1 <= batch_len(queue, 0) <= queue.len(),
        batch_len(queue, 0) <= 64,
{
    lemma_batch_len_bounds(queue, 0);
}

proof fn lemma_batch_len_bounds(queue: Seq<CompletionView>, n: nat)
    requires
        queue.len() > 0,
        n <= queue.len(),
        n <= 64,
    ensures
        1 <= batch_len(queue, n) <= queue.len(),
        batch_len(queue, n) <= 64,
    decreases queue.len() - n,
{
    if n < queue.len() && n < DATA_IN_BATCH && is_block(queue[n as int]) {
        lemma_batch_len_bounds(queue, n + 1);
    }
}

/// A protocol data unit answers the command that it completes: it carries the command's task tag and says
/// how long its data segment is, under the operation code of its kind. Data that are shorter than the
/// initiator expects tell by how much; a request for data names the place and the length that it wants,
/// and a check condition says so in its status.
#[verifier::rlimit(60)]
#[verifier::spinoff_prover]
pub proof fn law_units_answer_their_command(c: CompletionView, stat_sn: u32, exp: u32)
    requires
        segment(c).len() <= 0xff_ffff,
    ensures
        ({
            let h = header_of(c, stat_sn, exp);
            let tag = crate::iscsi::header::field(h, 16, 4);
            &&& h.len() == 48
            &&& crate::iscsi::header::data_segment_len(h) == segment(c).len()
            &&& match c {
                CompletionView::Data { command, payload } => {
                    &&& h[0] == 0x25 && tag == command.itt && h[3] == 0
                    &&& crate::iscsi::header::field(h, 8, 8) == command.lun
                    &&& crate::iscsi::header::field(h, 44, 4) == if payload.len() < command.expected {
                        command.expected - payload.len()
                    } else {
                        0
                    }
                },
                CompletionView::Good { command } => h[0] == 0x21 && tag == command.itt && h[3] == 0,
                CompletionView::Check { command, .. } => h[0] == 0x21 && tag == command.itt && h[3]
                    == 2,
                CompletionView::R2t { command, offset, len } => {
                    &&& h[0] == 0x31 && tag == command.itt
                    &&& crate::iscsi::header::field(h, 8, 8) == command.lun
                    &&& crate::iscsi::header::field(h, 40, 4) == offset
                    &&& crate::iscsi::header::field(h, 44, 4) == len
                },
                CompletionView::Text { itt, .. } => h[0] == 0x24 && tag == itt,
                CompletionView::Nop { itt, ttt, .. } => h[0] == 0x20 && tag == itt
                    && crate::iscsi::header::field(h, 20, 4) == ttt,
                CompletionView::Task { itt, response } => h[0] == 0x22 && tag == itt && h[2]
                    == response,
                CompletionView::Logout { itt } => h[0] == 0x26 && tag == itt,
            }
        }),
{
    let h = header_of(c, stat_sn, exp);
    crate::bytes::lemma_byte_ranges();
    lemma_field_lens();
    let itt = match c {
        CompletionView::Data { command, .. } => command.itt,
        CompletionView::Good { command } => command.itt,
        CompletionView::Check { command, .. } => command.itt,
        CompletionView::R2t { command, .. } => command.itt,
        CompletionView::Text { itt, .. } => itt,
        CompletionView::Nop { itt, .. } => itt,
        CompletionView::Task { itt, .. } => itt,
        CompletionView::Logout { itt } => itt,
    };
    assert(h.subrange(16, 20) =~= crate::bytes::be_bytes(itt as nat, 4));
    crate::bytes::lemma_be_round_trip(itt as nat, 4);
    crate::bytes::lemma_be_round_trip(segment(c).len(), 3);
    crate::bytes::law_big_endian_values(h.subrange(5, 8));
    match c {
        CompletionView::Data { command, payload } => {
            assert(h.subrange(5, 8) =~= crate::bytes::be_bytes(payload.len(), 3));
            assert(h.subrange(8, 16) =~= crate::bytes::be_bytes(command.lun as nat, 8));
            crate::bytes::lemma_be_round_trip(command.lun as nat, 8);
            if payload.len() < command.expected {
                let short = (command.expected - payload.len()) as nat;
                assert(h.subrange(44, 48) =~= crate::bytes::be_bytes(short, 4));
                crate::bytes::lemma_be_round_trip(short, 4);
            } else {
                crate::bytes::law_big_endian_values(h.subrange(44, 48));
            }
        },
        CompletionView::R2t { command, offset, len } => {
            assert(h.subrange(8, 16) =~= crate::bytes::be_bytes(command.lun as nat, 8));
            assert(h.subrange(40, 44) =~= crate::bytes::be_bytes(offset as nat, 4));
            assert(h.subrange(44, 48) =~= crate::bytes::be_bytes(len as nat, 4));
            crate::bytes::lemma_be_round_trip(command.lun as nat, 8);
            crate::bytes::lemma_be_round_trip(offset as nat, 4);
            crate::bytes::lemma_be_round_trip(len as nat, 4);
        },
        CompletionView::Check { sense, .. } => {
            assert(h.subrange(5, 8) =~= crate::bytes::be_bytes(sense.len() + 2, 3));
        },
        CompletionView::Text { data, .. } => {
            assert(h.subrange(5, 8) =~= crate::bytes::be_bytes(data.len(), 3));
        },
        CompletionView::Nop { ttt, data, .. } => {
            assert(h.subrange(5, 8) =~= crate::bytes::be_bytes(data.len(), 3));
            assert(h.subrange(20, 24) =~= crate::bytes::be_bytes(ttt as nat, 4));
            crate::bytes::lemma_be_round_trip(ttt as nat, 4);
        },
        _ => {},
    }
}

/// The data segment of a completion is what the completion carries; sense data come behind their own
/// length, in two bytes.
pub proof fn law_segments_carry_the_data(c: CompletionView)
    ensures
        match c {
            CompletionView::Data { payload, .. } => segment(c) == payload,
            CompletionView::Text { data, .. } => segment(c) == data,
            CompletionView::Nop { data, .. } => segment(c) == data,
            CompletionView::Check { sense, .. } => {
                &&& segment(c).len() == sense.len() + 2
                &&& sense.len() < 0x1_0000 ==> segment(c)[0] * 0x100 + segment(c)[1] == sense.len()
                &&& segment(c).skip(2) == sense
            },
            _ => segment(c).len() == 0,
        },
{
    crate::bytes::lemma_byte_ranges();
    lemma_field_lens();
    match c {
        CompletionView::Check { sense, .. } => {
            let len = crate::bytes::be_bytes(sense.len() % 65536, 2);
            crate::bytes::lemma_be_round_trip(sense.len() % 65536, 2);
            crate::bytes::law_big_endian_values(len);
            assert(segment(c).skip(2) =~= sense);
            assert(segment(c)[0] == len[0] && segment(c)[1] == len[1]);
        },
        _ => {},
    }
}

proof fn lemma_batch_reaches(queue: Seq<CompletionView>, n: nat)
    requires
        n <= queue.len(),
        n <= DATA_IN_BATCH,
        forall|i: int| 0 <= i < n ==> is_block(#[trigger] queue[i]),
        queue.len() > 0,
    ensures
        ({
            let b = batch_len(queue, n);
            &&& b >= n
            &&& is_block(queue[0]) ==> forall|i: int| 0 <= i < b ==> is_block(#[trigger] queue[i])
            &&& is_block(queue[0]) ==> b == DATA_IN_BATCH || b == queue.len() || !is_block(
                queue[b as int],
            )
        }),
    decreases queue.len() - n,
{
    if n < queue.len() && n < DATA_IN_BATCH && is_block(queue[n as int]) {
        lemma_batch_reaches(queue, n + 1);
    }
}

/// A round takes blocks of data together, all that wait in a row up to the size of a batch; anything else
/// goes out alone.
pub proof fn law_rounds_take_blocks_together(queue: Seq<CompletionView>)
    requires
        queue.len() > 0,
    ensures
        !is_block(queue[0]) ==> batch_len(queue, 0) == 1,
        is_block(queue[0]) ==> forall|i: int|
            0 <= i < batch_len(queue, 0) ==> is_block(#[trigger] queue[i]),
        is_block(queue[0]) ==> batch_len(queue, 0) == 64 || batch_len(queue, 0) == queue.len()
            || !is_block(queue[batch_len(queue, 0) as int]),
{
    lemma_batch_reaches(queue, 0);
}

/// A batch of blocks counts its units, once as a batch, and the longest batch is remembered.
pub proof fn law_batches_are_counted(c: WriterCounts, n: nat)
    requires
        c.data_pdus + n <= u64::MAX,
        c.data_batches < u64::MAX,
    ensures
        counted(c, n).data_pdus - c.data_pdus == n,
        counted(c, n).data_batches - c.data_batches == 1,
        counted(c, n).max_data_batch >= c.max_data_batch,
        counted(c, n).max_data_batch >= n,
        counted(c, n).max_data_batch == c.max_data_batch || counted(c, n).max_data_batch == n,
{
}

} // verus!
