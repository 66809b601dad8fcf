//! The basic header segment of a protocol data unit.
use vstd::prelude::*;
use vstd::string::*;

use crate::bytes::{get_be, put_be};
use crate::error::{invalid, Error, ErrorKind};

verus! {

/// The length of a header in bytes.
pub const BHS_BYTES: usize = 48;

/// The block size of the volume in bytes.
pub const BLOCK_SIZE: u32 = 4096;

/// How many commands an initiator may have outstanding.
pub const COMMAND_WINDOW: u32 = 4096;

/// The longest data segment that is accepted.
pub const MAX_CONTROL_DATA: usize = 1_048_576;

/// The longest data segment that is offered to the initiator.
pub const MAX_SEGMENT: u32 = 262_144;

/// How many commands a lane works on at a time.
pub const LANE_PIPELINE: usize = 64;

/// How many data units are sent together.
pub const DATA_IN_BATCH: usize = 64;

pub const OP_NOP_OUT: u8 = 0x00;

pub const OP_SCSI_COMMAND: u8 = 0x01;

pub const OP_TASK_REQUEST: u8 = 0x02;

pub const OP_LOGIN_REQUEST: u8 = 0x03;

pub const OP_TEXT_REQUEST: u8 = 0x04;

pub const OP_DATA_OUT: u8 = 0x05;

pub const OP_LOGOUT_REQUEST: u8 = 0x06;

pub const OP_NOP_IN: u8 = 0x20;

pub const OP_SCSI_RESPONSE: u8 = 0x21;

pub const OP_TASK_RESPONSE: u8 = 0x22;

pub const OP_LOGIN_RESPONSE: u8 = 0x23;

pub const OP_TEXT_RESPONSE: u8 = 0x24;

pub const OP_DATA_IN: u8 = 0x25;

pub const OP_LOGOUT_RESPONSE: u8 = 0x26;

pub const OP_R2T: u8 = 0x31;

/// A header: 48 bytes.
#[derive(Clone, Copy, Debug)]
pub struct Header(pub [u8; 48]);

impl View for Header {
    type V = Seq<u8>;

    open spec fn view(&self) -> Seq<u8> {
        self.0@
    }
}

/// The bytes of a header with the given opcode and nothing else.
pub open spec fn blank(opcode: u8) -> Seq<u8> {
    Seq::new(48, |i: int| 0u8).update(0, opcode)
}

/// `s` with a 16-bit number put at `at`.
pub open spec fn with_u16(s: Seq<u8>, at: int, v: u16) -> Seq<u8> {
    crate::bytes::splice(s, at, crate::bytes::be_bytes(v as nat, 2))
}

/// `s` with a 32-bit number put at `at`.
pub open spec fn with_u32(s: Seq<u8>, at: int, v: u32) -> Seq<u8> {
    crate::bytes::splice(s, at, crate::bytes::be_bytes(v as nat, 4))
}

/// `s` with a 64-bit number put at `at`.
pub open spec fn with_u64(s: Seq<u8>, at: int, v: u64) -> Seq<u8> {
    crate::bytes::splice(s, at, crate::bytes::be_bytes(v as nat, 8))
}

/// `s` with the length of the data segment put in its place.
pub open spec fn with_data_len(s: Seq<u8>, len: nat) -> Seq<u8> {
    crate::bytes::splice(s, 5, crate::bytes::be_bytes(len, 3))
}

/// The number in the `n` bytes of `s` at `at`.
pub open spec fn field(s: Seq<u8>, at: int, n: int) -> nat {
    crate::bytes::be_value(s.subrange(at, at + n))
}

/// The length of the data segment that a header announces.
pub open spec fn data_segment_len(s: Seq<u8>) -> nat {
    field(s, 5, 3)
}

impl Header {
    /// A header with the given opcode and nothing else.
    pub fn zeroed(opcode: u8) -> (header: Header)
        ensures
            header@ == blank(opcode),
    {
        let mut bytes: [u8; 48] = [0u8;48];
        bytes[0] = opcode;
        proof {
            assert(bytes@ =~= blank(opcode));
        }
        Header(bytes)
    }

    /// The opcode, without the flag for immediate delivery.
    pub fn opcode(&self) -> (op: u8)
        ensures
            op == self@[0] & 0x3f,
    {
        self.0[0] & 0x3f
    }

    /// Whether the unit is to be delivered out of the command order.
    pub fn immediate(&self) -> (yes: bool)
        ensures
            yes == (self@[0] & 0x40 != 0),
    {
        self.0[0] & 0x40 != 0
    }

    /// The length of the data segment.
    pub fn data_len(&self) -> (len: usize)
        ensures
            len == data_segment_len(self@),
            len <= 0xff_ffff,
    {
        proof {
            crate::bytes::lemma_be_value_bound(self@.subrange(5, 8));
            crate::bytes::lemma_byte_ranges();
        }
        get_be(&self.0, 5, 3) as usize
    }

    /// Announces a data segment of `len` bytes.
    pub fn set_data_len(&mut self, len: usize) -> (r: Result<(), Error>)
        ensures
            match r {
                Ok(_) => len <= 0xff_ffff && final(self)@ == with_data_len(old(self)@, len as nat),
                Err(e) => len > 0xff_ffff && *final(self) == *old(self) && e@ == (
                    ErrorKind::InvalidInput,
                    "iSCSI data segment exceeds 24-bit length"@,
                ),
            },
    {
        if len > 0x00ff_ffff {
            return Err(invalid("iSCSI data segment exceeds 24-bit length"));
        }
        put_be(&mut self.0, 5, 3, len as u64);
        Ok(())
    }

    /// The 16-bit number at `offset`.
    pub fn u16(&self, offset: usize) -> (v: u16)
        requires
            offset + 2 <= 48,
        ensures
            v == field(self@, offset as int, 2),
    {
        proof {
            crate::bytes::lemma_be_value_bound(self@.subrange(offset as int, offset + 2));
            crate::bytes::lemma_byte_ranges();
        }
        get_be(&self.0, offset, 2) as u16
    }

    /// The 32-bit number at `offset`.
    pub fn u32(&self, offset: usize) -> (v: u32)
        requires
            offset + 4 <= 48,
        ensures
            v == field(self@, offset as int, 4),
    {
        proof {
            crate::bytes::lemma_be_value_bound(self@.subrange(offset as int, offset + 4));
            crate::bytes::lemma_byte_ranges();
        }
        get_be(&self.0, offset, 4) as u32
    }

    /// The 64-bit number at `offset`.
    pub fn u64(&self, offset: usize) -> (v: u64)
        requires
            offset + 8 <= 48,
        ensures
            v == field(self@, offset as int, 8),
    {
        get_be(&self.0, offset, 8)
    }

    /// Puts a 16-bit number at `offset`.
    pub fn put_u16(&mut self, offset: usize, value: u16)
        requires
            offset + 2 <= 48,
        ensures
            final(self)@ == with_u16(old(self)@, offset as int, value),
    {
        put_be(&mut self.0, offset, 2, value as u64);
    }

    /// Puts a 32-bit number at `offset`.
    pub fn put_u32(&mut self, offset: usize, value: u32)
        requires
            offset + 4 <= 48,
        ensures
            final(self)@ == with_u32(old(self)@, offset as int, value),
    {
        put_be(&mut self.0, offset, 4, value as u64);
    }

    /// Puts a 64-bit number at `offset`.
    pub fn put_u64(&mut self, offset: usize, value: u64)
        requires
            offset + 8 <= 48,
        ensures
            final(self)@ == with_u64(old(self)@, offset as int, value),
    {
        put_be(&mut self.0, offset, 8, value);
    }

    /// Puts one byte at `at`.
    pub fn put_byte(&mut self, at: usize, value: u8)
        requires
            at < 48,
        ensures
            final(self)@ == old(self)@.update(at as int, value),
    {
        self.0[at] = value;
    }
}

/// What is put into a header is read back from it.
pub proof fn law_header_fields_read_back(s: Seq<u8>, at: int, a: u16, b: u32, c: u64, len: nat)
    requires
        s.len() == 48,
        0 <= at <= 40,
        len <= 0xff_ffff,
    ensures
        field(with_u16(s, at, a), at, 2) == a,
        field(with_u32(s, at, b), at, 4) == b,
        field(with_u64(s, at, c), at, 8) == c,
        data_segment_len(with_data_len(s, len)) == len,
{
    crate::bytes::lemma_byte_ranges();
    crate::bytes::law_put_get_be(s, at, 2, a as nat);
    crate::bytes::law_put_get_be(s, at, 4, b as nat);
    crate::bytes::law_put_get_be(s, at, 8, c as nat);
    crate::bytes::law_put_get_be(s, 5, 3, len);
}

/// How many bytes follow a data segment of `len` bytes to fill a multiple of four.
pub open spec fn padding_len(len: int) -> int {
    (4 - len % 4) % 4
}

/// How many bytes of padding follow a data segment of `len` bytes.
pub fn read_padding(len: usize) -> (padding: usize)
    ensures
        padding == padding_len(len as int),
        padding < 4,
{
    (4 - len % 4) % 4
}

/// A data segment with its padding fills a multiple of four bytes, with at most three bytes of
/// padding.
pub proof fn law_padding_aligns(len: int)
    requires
        0 <= len,
    ensures
        0 <= padding_len(len) < 4,
        (len + padding_len(len)) % 4 == 0,
{
}

/// Judges a header that was read from an initiator.
pub fn read_header(header: &Header) -> (r: Result<(), Error>)
    ensures
        match r {
            Ok(_) => header@[4] == 0 && data_segment_len(header@) <= MAX_CONTROL_DATA,
            Err(e) => {
                &&& header@[4] != 0 || data_segment_len(header@) > MAX_CONTROL_DATA
                &&& e@ == (
                    ErrorKind::InvalidData,
                    if header@[4] != 0 {
                        "additional iSCSI header segments are not negotiated"@
                    } else {
                        "iSCSI data segment exceeds target safety limit"@
                    },
                )
            },
        },
{
    if header.0[4] != 0 {
        return Err(
            Error::of(
                ErrorKind::InvalidData,
                "additional iSCSI header segments are not negotiated",
            ),
        );
    }
    if header.data_len() > MAX_CONTROL_DATA {
        return Err(
            Error::of(ErrorKind::InvalidData, "iSCSI data segment exceeds target safety limit"),
        );
    }
    Ok(())
}

/// The next number after `n`, modulo a word of 32 bits.
pub open spec fn wrapping_next(n: u32, by: u32) -> u32 {
    ((n + by) % 0x1_0000_0000) as u32
}

/// `s` with the status number and the command window put in.
pub open spec fn with_serials(s: Seq<u8>, stat_sn: u32, exp_cmd_sn: u32) -> Seq<u8> {
    with_u32(
        with_u32(with_u32(s, 24, stat_sn), 28, exp_cmd_sn),
        32,
        wrapping_next(exp_cmd_sn, (COMMAND_WINDOW - 1) as u32),
    )
}

/// Puts the status number, the next expected command and the last command of the window in.
pub fn serial_fields(header: &mut Header, stat_sn: u32, exp_cmd_sn: u32)
    ensures
        final(header)@ == with_serials(old(header)@, stat_sn, exp_cmd_sn),
{
    header.put_u32(24, stat_sn);
    header.put_u32(28, exp_cmd_sn);
    header.put_u32(32, exp_cmd_sn.wrapping_add(COMMAND_WINDOW - 1));
}

/// The command number that is expected after a unit has arrived.
pub open spec fn expected_after(exp: u32, header: Seq<u8>) -> u32 {
    let next = wrapping_next(field(header, 24, 4) as u32, 1);
    if header[0] & 0x40 != 0 || exp >= next {
        exp
    } else {
        next
    }
}

/// The command number that is expected after a unit has arrived; a unit for immediate delivery
/// takes no number, and the expectation never goes back.
pub fn update_exp_cmd(exp: u32, header: &Header) -> (next: u32)
    ensures
        next == expected_after(exp, header@),
        next >= exp,
{
    if header.immediate() {
        return exp;
    }
    let candidate: u32 = header.u32(24).wrapping_add(1);
    if exp >= candidate {
        exp
    } else {
        candidate
    }
}

/// Where a write that has gone out `written` bytes further stands in a list of slices: the slice,
/// and the place in it.
pub open spec fn advanced(lens: Seq<nat>, index: nat, offset: nat, written: nat) -> (nat, nat)
    decreases lens.len() - index,
{
    if index >= lens.len() {
        (index, offset)
    } else {
        let available = (lens[index as int] - offset) as nat;
        if written < available {
            (index, offset + written)
        } else if written == available {
            (index + 1, 0)
        } else {
            advanced(lens, index + 1, 0, (written - available) as nat)
        }
    }
}

/// The lengths of slices.
pub open spec fn lens_of(slices: Seq<&[u8]>) -> Seq<nat> {
    Seq::new(slices.len(), |i: int| slices[i]@.len())
}

/// Moves a place in a list of slices on by `written` bytes.
pub fn advance_vectored(slices: &[&[u8]], index: &mut usize, offset: &mut usize, written: usize)
    requires
        *old(index) < slices@.len() ==> *old(offset) <= slices@[*old(index) as int]@.len(),
    ensures
        (*final(index) as nat, *final(offset) as nat) == advanced(
            lens_of(slices@),
            *old(index) as nat,
            *old(offset) as nat,
            written as nat,
        ),
        *final(index) < slices@.len() ==> *final(offset) <= slices@[*final(index) as int]@.len(),
{
    let ghost lens = lens_of(slices@);
    let ghost goal = advanced(lens, *index as nat, *offset as nat, written as nat);
    let mut remaining: usize = written;
    while *index < slices.len()
        invariant
            lens == lens_of(slices@),
            goal == advanced(
                lens,
                *old(index) as nat,
                *old(offset) as nat,
                written as nat,
            ),
            *index < slices@.len() ==> *offset <= slices@[*index as int]@.len(),
            goal == advanced(lens, *index as nat, *offset as nat, remaining as nat),
        decreases slices@.len() - *index,
    {
        let available: usize = slices[*index].len() - *offset;
        if remaining < available {
            *offset = *offset + remaining;
            return ;
        }
        remaining = remaining - available;
        *index = *index + 1;
        *offset = 0;
        if remaining == 0 {
            return ;
        }
    }
}

/// How many bytes lie before a place in a list of slices.
pub open spec fn bytes_before(lens: Seq<nat>, index: nat) -> nat
    decreases index,
{
    if index == 0 {
        0
    } else {
        bytes_before(lens, (index - 1) as nat) + lens[index - 1]
    }
}

/// Moving on by what was written moves the place by exactly that many bytes, as long as that many
/// are left: no byte is sent twice and none is left out.
pub proof fn law_advance_counts_bytes(lens: Seq<nat>, index: nat, offset: nat, written: nat)
    requires
        index < lens.len(),
        offset <= lens[index as int],
        bytes_before(lens, index) + offset + written <= bytes_before(lens, lens.len()),
    ensures
        ({
            let (i, o) = advanced(lens, index, offset, written);
            &&& i <= lens.len()
            &&& bytes_before(lens, i) + o == bytes_before(lens, index) + offset + written
        }),
    decreases lens.len() - index,
{
    let available = (lens[index as int] - offset) as nat;
    assert(bytes_before(lens, index + 1) == bytes_before(lens, index) + lens[index as int]);
    if written > available {
        lemma_before_mono(lens, index + 1, lens.len());
        if index + 1 < lens.len() {
            law_advance_counts_bytes(lens, index + 1, 0, (written - available) as nat);
        }
    }
}

proof fn lemma_before_mono(lens: Seq<nat>, a: nat, b: nat)
    requires
        a <= b,
    ensures
        bytes_before(lens, a) <= bytes_before(lens, b),
    decreases b,
{
    if a < b {
        lemma_before_mono(lens, a, (b - 1) as nat);
    }
}

/// Writing a field changes no byte outside the field.
pub proof fn law_header_fields_keep_the_rest(
    s: Seq<u8>,
    at: int,
    a: u16,
    b: u32,
    c: u64,
    len: nat,
    i: int,
)
    requires
        s.len() == 48,
        0 <= at <= 40,
        0 <= i < 48,
    ensures
        !(at <= i < at + 2) ==> with_u16(s, at, a)[i] == s[i],
        !(at <= i < at + 4) ==> with_u32(s, at, b)[i] == s[i],
        !(at <= i < at + 8) ==> with_u64(s, at, c)[i] == s[i],
        !(5 <= i < 8) ==> with_data_len(s, len)[i] == s[i],
{
    crate::bytes::lemma_be_bytes_len(a as nat, 2);
    crate::bytes::lemma_be_bytes_len(b as nat, 4);
    crate::bytes::lemma_be_bytes_len(c as nat, 8);
    crate::bytes::lemma_be_bytes_len(len, 3);
}

/// The expected command number never falls. A command that is not immediate takes it past its own number,
/// unless it is past it already or the numbers wrap around; an immediate command leaves it as it is.
pub proof fn law_commands_move_the_window(exp: u32, header: Seq<u8>)
    requires
        header.len() == 48,
    ensures
        ({
            let number = header[24] * 0x100_0000 + header[25] * 0x1_0000 + header[26] * 0x100
                + header[27];
            let next = expected_after(exp, header);
            &&& next >= exp
            &&& header[0] / 64 % 2 == 1 ==> next == exp
            &&& header[0] / 64 % 2 == 0 && number < u32::MAX ==> next > number
            &&& next == exp || next == number + 1
        }),
{
    let b = header[0];
    assert((b & 0x40 != 0) == (b / 64 % 2 == 1)) by (bit_vector);
    let s = header.subrange(24, 28);
    crate::bytes::law_big_endian_values(s);
    assert(s[0] == header[24] && s[1] == header[25] && s[2] == header[26] && s[3] == header[27]);
}

} // verus!
