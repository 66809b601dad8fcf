//! The SCSI commands of a direct-access volume with blocks of 4096 bytes.
use vstd::prelude::*;
use vstd::string::*;

use crate::bytes::{append_bytes, filled, get_be, put_be};
use crate::error::{invalid, Error, ErrorKind};
use crate::iscsi::header::BLOCK_SIZE;

verus! {

/// Whether a command block reads blocks.
pub open spec fn is_read(cdb: Seq<u8>) -> bool {
    cdb[0] == 0x08 || cdb[0] == 0x28 || cdb[0] == 0x88
}

/// Whether a command block writes blocks.
pub open spec fn is_write(cdb: Seq<u8>) -> bool {
    cdb[0] == 0x0a || cdb[0] == 0x2a || cdb[0] == 0x8a
}

/// The first block and the number of blocks of a read or write, as its width lays them out.
pub open spec fn rw_fields(cdb: Seq<u8>) -> (nat, nat) {
    if cdb[0] == 0x08 || cdb[0] == 0x0a {
        (
            (cdb[1] as nat % 32) * 65536 + cdb[2] as nat * 256 + cdb[3] as nat,
            if cdb[4] == 0 {
                256
            } else {
                cdb[4] as nat
            },
        )
    } else if cdb[0] == 0x28 || cdb[0] == 0x2a {
        (
            crate::bytes::be_value(cdb.subrange(2, 6)),
            crate::bytes::be_value(cdb.subrange(7, 9)),
        )
    } else {
        (
            crate::bytes::be_value(cdb.subrange(2, 10)),
            crate::bytes::be_value(cdb.subrange(10, 14)),
        )
    }
}

/// The first block and the number of blocks of a read or write.
pub fn parse_rw(cdb: &[u8; 16]) -> (r: Result<(u64, u32), Error>)
    ensures
        match r {
            Ok((lba, blocks)) => {
                &&& is_read(cdb@) || is_write(cdb@)
                &&& blocks > 0
                &&& (lba as nat, blocks as nat) == rw_fields(cdb@)
            },
            Err(e) => if !is_read(cdb@) && !is_write(cdb@) {
                e@ == (ErrorKind::InvalidInput, "not a READ/WRITE CDB"@)
            } else {
                rw_fields(cdb@).1 == 0 && e@ == (
                    ErrorKind::InvalidInput,
                    "zero-block transfer"@,
                )
            },
        },
{
    let op: u8 = cdb[0];
    proof {
        crate::bytes::lemma_byte_ranges();
        crate::bytes::lemma_be_value_bound(cdb@.subrange(2, 6));
        crate::bytes::lemma_be_value_bound(cdb@.subrange(7, 9));
        crate::bytes::lemma_be_value_bound(cdb@.subrange(10, 14));
    }
    let (lba, blocks): (u64, u32) = if op == 0x08 || op == 0x0a {
        (
            (cdb[1] % 32) as u64 * 65536 + cdb[2] as u64 * 256 + cdb[3] as u64,
            if cdb[4] == 0 {
                256
            } else {
                cdb[4] as u32
            },
        )
    } else if op == 0x28 || op == 0x2a {
        (get_be(cdb, 2, 4), get_be(cdb, 7, 2) as u32)
    } else if op == 0x88 || op == 0x8a {
        (get_be(cdb, 2, 8), get_be(cdb, 10, 4) as u32)
    } else {
        return Err(invalid("not a READ/WRITE CDB"));
    };
    if blocks == 0 {
        return Err(invalid("zero-block transfer"));
    }
    Ok((lba, blocks))
}

/// Sense data in the fixed format.
pub open spec fn sense(key: u8, asc: u8, ascq: u8) -> Seq<u8> {
    seq![0x70, 0, key, 0, 0, 0, 0, 10, 0, 0, 0, 0, asc, ascq, 0, 0, 0, 0]
}

/// Sense data in the fixed format.
pub fn fixed_sense(key: u8, asc: u8, ascq: u8) -> (data: Vec<u8>)
    ensures
        data@ == sense(key, asc, ascq),
{
    let data: Vec<u8> = vec![
        0x70,
        0,
        key,
        0,
        0,
        0,
        0,
        10,
        0,
        0,
        0,
        0,
        asc,
        ascq,
        0,
        0,
        0,
        0,
    ];
    proof {
        assert(data@ =~= sense(key, asc, ascq));
    }
    data
}

/// The sense of a command that is not supported.
pub fn sense_invalid_command() -> (data: Vec<u8>)
    ensures
        data@ == sense(0x05, 0x20, 0),
{
    fixed_sense(0x05, 0x20, 0)
}

/// The sense of a command with a field that is not valid.
pub fn sense_invalid_field() -> (data: Vec<u8>)
    ensures
        data@ == sense(0x05, 0x24, 0),
{
    fixed_sense(0x05, 0x24, 0)
}

/// The sense of a command for a unit that does not exist.
pub fn sense_invalid_lun() -> (data: Vec<u8>)
    ensures
        data@ == sense(0x05, 0x25, 0),
{
    fixed_sense(0x05, 0x25, 0)
}

/// The sense of a command for blocks outside the volume.
pub fn sense_lba_out_of_range() -> (data: Vec<u8>)
    ensures
        data@ == sense(0x05, 0x21, 0),
{
    fixed_sense(0x05, 0x21, 0)
}

/// The sense of a command that the medium has failed.
pub fn sense_medium_error() -> (data: Vec<u8>)
    ensures
        data@ == sense(0x03, 0x11, 0),
{
    fixed_sense(0x03, 0x11, 0)
}

/// The first `n` bytes of `s`, or all of it where it is not longer.
pub open spec fn cut(s: Seq<u8>, n: int) -> Seq<u8> {
    if n < s.len() {
        s.subrange(0, n)
    } else {
        s
    }
}

fn cut_to(data: Vec<u8>, n: usize) -> (r: Vec<u8>)
    ensures
        r@ == cut(data@, n as int),
{
    let mut data: Vec<u8> = data;
    if n < data.len() {
        data.truncate(n);
    }
    data
}

/// The identification of the volume.
pub open spec fn standard_inquiry() -> Seq<u8> {
    seq![
        0, 0, 6, 2, 31, 0, 0, 2,
        // "ZCUTILS "
        0x5a, 0x43, 0x55, 0x54, 0x49, 0x4c, 0x53, 0x20,
        // "userspace volume"
        0x75, 0x73, 0x65, 0x72, 0x73, 0x70, 0x61, 0x63, 0x65, 0x20, 0x76, 0x6f, 0x6c, 0x75, 0x6d, 0x65,
        // "0.1 "
        0x30, 0x2e, 0x31, 0x20,
    ]
}

/// The page with the serial number.
pub open spec fn serial_page() -> Seq<u8> {
    seq![
        0, 0x80, 0, 19,
        // "anonymous-zc-volume"
        0x61, 0x6e, 0x6f, 0x6e, 0x79, 0x6d, 0x6f, 0x75, 0x73, 0x2d, 0x7a, 0x63, 0x2d, 0x76, 0x6f, 0x6c,
        0x75, 0x6d, 0x65,
    ]
}

/// The page with the device identification.
pub open spec fn identification_page() -> Seq<u8> {
    seq![
        0, 0x83, 0, 28, 2, 1, 0, 24,
        // "ZCUTILS userspace-volume"
        0x5a, 0x43, 0x55, 0x54, 0x49, 0x4c, 0x53, 0x20, 0x75, 0x73, 0x65, 0x72, 0x73, 0x70, 0x61, 0x63,
        0x65, 0x2d, 0x76, 0x6f, 0x6c, 0x75, 0x6d, 0x65,
    ]
}

/// What an inquiry is answered with, before it is cut to the initiator's allocation: the standard
/// data, or the page that it asks for.
pub open spec fn inquiry_data(cdb: Seq<u8>) -> Option<Seq<u8>> {
    if cdb[1] & 1 == 0 {
        Some(standard_inquiry())
    } else if cdb[2] == 0x00 {
        Some(seq![0, 0, 0, 3, 0x00, 0x80, 0x83])
    } else if cdb[2] == 0x80 {
        Some(serial_page())
    } else if cdb[2] == 0x83 {
        Some(identification_page())
    } else {
        None
    }
}

/// Answers an inquiry.
pub fn inquiry(cdb: &[u8; 16]) -> (r: Result<Vec<u8>, Vec<u8>>)
    ensures
        match r {
            Ok(data) => inquiry_data(cdb@) is Some && data@ == cut(
                inquiry_data(cdb@)->0,
                cdb@[3] * 256 + cdb@[4],
            ),
            Err(s) => inquiry_data(cdb@) is None && s@ == sense(0x05, 0x24, 0),
        },
{
    let allocation: usize = cdb[3] as usize * 256 + cdb[4] as usize;
    let data: Vec<u8> = if cdb[1] & 1 == 0 {
        vec![
            0, 0, 6, 2, 31, 0, 0, 2,
            0x5a, 0x43, 0x55, 0x54, 0x49, 0x4c, 0x53, 0x20,
            0x75, 0x73, 0x65, 0x72, 0x73, 0x70, 0x61, 0x63, 0x65, 0x20, 0x76, 0x6f, 0x6c, 0x75, 0x6d, 0x65,
            0x30, 0x2e, 0x31, 0x20,
        ]
    } else if cdb[2] == 0x00 {
        vec![0, 0, 0, 3, 0x00, 0x80, 0x83]
    } else if cdb[2] == 0x80 {
        vec![
            0, 0x80, 0, 19,
            0x61, 0x6e, 0x6f, 0x6e, 0x79, 0x6d, 0x6f, 0x75, 0x73, 0x2d, 0x7a, 0x63, 0x2d, 0x76, 0x6f, 0x6c,
            0x75, 0x6d, 0x65,
        ]
    } else if cdb[2] == 0x83 {
        vec![
            0, 0x83, 0, 28, 2, 1, 0, 24,
            0x5a, 0x43, 0x55, 0x54, 0x49, 0x4c, 0x53, 0x20, 0x75, 0x73, 0x65, 0x72, 0x73, 0x70, 0x61, 0x63,
            0x65, 0x2d, 0x76, 0x6f, 0x6c, 0x75, 0x6d, 0x65,
        ]
    } else {
        return Err(sense_invalid_field());
    };
    proof {
        assert(data@ =~= inquiry_data(cdb@)->0);
    }
    Ok(cut_to(data, allocation))
}

/// Answers a request for sense data: there is none.
pub fn request_sense(allocation: usize) -> (data: Vec<u8>)
    ensures
        data@ == cut(sense(0, 0, 0), allocation as int),
{
    cut_to(fixed_sense(0, 0, 0), allocation)
}

/// The caching page: the write cache is on.
pub open spec fn caching() -> Seq<u8> {
    seq![0x08, 0x12, 0x04, 0, 0, 0, 0, 0, 0, 0, 0, 0, 0, 0, 0, 0, 0, 0, 0, 0]
}

/// The caching page.
pub fn caching_page() -> (page: Vec<u8>)
    ensures
        page@ == caching(),
{
    let page: Vec<u8> = vec![0x08, 0x12, 0x04, 0, 0, 0, 0, 0, 0, 0, 0, 0, 0, 0, 0, 0, 0, 0, 0, 0];
    proof {
        assert(page@ =~= caching());
    }
    page
}

/// Whether a mode sense asks for the caching page.
pub open spec fn wants_caching(cdb: Seq<u8>) -> bool {
    cdb[2] & 0x3f == 0x08 || cdb[2] & 0x3f == 0x3f
}

/// The mode parameters after a short header.
pub open spec fn mode_data_6(cdb: Seq<u8>) -> Seq<u8> {
    if wants_caching(cdb) {
        seq![23u8, 0, 0, 0] + caching()
    } else {
        seq![3u8, 0, 0, 0]
    }
}

/// Answers a short mode sense.
pub fn mode_sense_6(cdb: &[u8; 16]) -> (data: Vec<u8>)
    ensures
        data@ == cut(mode_data_6(cdb@), cdb@[4] as int),
{
    let page: u8 = cdb[2] & 0x3f;
    let mut data: Vec<u8> = if page == 0x08 || page == 0x3f {
        vec![23, 0, 0, 0]
    } else {
        vec![3, 0, 0, 0]
    };
    if page == 0x08 || page == 0x3f {
        append_bytes(&mut data, caching_page().as_slice());
    }
    proof {
        assert(data@ =~= mode_data_6(cdb@));
    }
    cut_to(data, cdb[4] as usize)
}

/// The mode parameters after a long header.
pub open spec fn mode_data_10(cdb: Seq<u8>) -> Seq<u8> {
    if wants_caching(cdb) {
        seq![0u8, 26, 0, 0, 0, 0, 0, 0] + caching()
    } else {
        seq![0u8, 6, 0, 0, 0, 0, 0, 0]
    }
}

/// Answers a long mode sense.
pub fn mode_sense_10(cdb: &[u8; 16]) -> (data: Vec<u8>)
    ensures
        data@ == cut(mode_data_10(cdb@), cdb@[7] * 256 + cdb@[8]),
{
    let page: u8 = cdb[2] & 0x3f;
    let mut data: Vec<u8> = if page == 0x08 || page == 0x3f {
        vec![0, 26, 0, 0, 0, 0, 0, 0]
    } else {
        vec![0, 6, 0, 0, 0, 0, 0, 0]
    };
    if page == 0x08 || page == 0x3f {
        append_bytes(&mut data, caching_page().as_slice());
    }
    proof {
        assert(data@ =~= mode_data_10(cdb@));
    }
    cut_to(data, cdb[7] as usize * 256 + cdb[8] as usize)
}

/// The last block of a volume as a number of 32 bits; the largest one where it does not fit.
pub open spec fn last_block_32(capacity_bytes: u64) -> nat {
    let blocks = capacity_bytes / 4096;
    if blocks == 0 {
        0
    } else if blocks - 1 > u32::MAX {
        u32::MAX as nat
    } else {
        (blocks - 1) as nat
    }
}

/// Answers a short read of the capacity: the last block and the block size.
pub fn read_capacity_10(capacity_bytes: u64) -> (data: Vec<u8>)
    ensures
        data@ == crate::bytes::be_bytes(last_block_32(capacity_bytes), 4)
            + crate::bytes::be_bytes(4096, 4),
{
    let blocks: u64 = capacity_bytes / (BLOCK_SIZE as u64);
    let last: u64 = if blocks == 0 {
        0
    } else if blocks - 1 > u32::MAX as u64 {
        u32::MAX as u64
    } else {
        blocks - 1
    };
    let mut data: Vec<u8> = filled(0, 8);
    let ghost zero = data@;
    put_be(&mut data, 0, 4, last);
    put_be(&mut data, 4, 4, BLOCK_SIZE as u64);
    proof {
        crate::bytes::lemma_be_bytes_len(last as nat, 4);
        crate::bytes::lemma_be_bytes_len(4096, 4);
        assert(data@ =~= crate::bytes::be_bytes(last as nat, 4) + crate::bytes::be_bytes(4096, 4));
    }
    data
}

/// Answers a long read of the capacity: the last block, the block size and twenty zero bytes.
pub fn read_capacity_16(capacity_bytes: u64) -> (data: Vec<u8>)
    requires
        capacity_bytes >= 4096,
    ensures
        data@ == crate::bytes::be_bytes((capacity_bytes / 4096 - 1) as nat, 8)
            + crate::bytes::be_bytes(4096, 4) + Seq::new(20, |i: int| 0u8),
{
    let last: u64 = capacity_bytes / (BLOCK_SIZE as u64) - 1;
    let mut data: Vec<u8> = filled(0, 32);
    put_be(&mut data, 0, 8, last);
    put_be(&mut data, 8, 4, BLOCK_SIZE as u64);
    proof {
        crate::bytes::lemma_be_bytes_len(last as nat, 8);
        crate::bytes::lemma_be_bytes_len(4096, 4);
        assert(data@ =~= crate::bytes::be_bytes(last as nat, 8) + crate::bytes::be_bytes(4096, 4)
            + Seq::new(20, |i: int| 0u8));
    }
    data
}

/// The list of units: the one with number zero.
pub open spec fn lun_list() -> Seq<u8> {
    seq![0, 0, 0, 8, 0, 0, 0, 0, 0, 0, 0, 0, 0, 0, 0, 0]
}

/// Answers a request for the list of units.
pub fn report_luns(cdb: &[u8; 16]) -> (data: Vec<u8>)
    ensures
        data@ == cut(lun_list(), crate::bytes::be_value(cdb@.subrange(6, 10)) as int),
{
    let data: Vec<u8> = vec![0, 0, 0, 8, 0, 0, 0, 0, 0, 0, 0, 0, 0, 0, 0, 0];
    proof {
        assert(data@ =~= lun_list());
        crate::bytes::lemma_byte_ranges();
        crate::bytes::lemma_be_value_bound(cdb@.subrange(6, 10));
    }
    let allocation: u64 = get_be(cdb, 6, 4);
    cut_to(data, allocation as usize)
}

/// Whether a command asks for the capacity in its long form.
pub open spec fn is_read_capacity_16(cdb: Seq<u8>) -> bool {
    cdb[0] == 0x9e && cdb[1] & 0x1f == 0x10
}

/// What a command that moves no blocks is answered with: nothing, data, or sense.
pub open spec fn control_answer(cdb: Seq<u8>, capacity: u64) -> Result<Option<Seq<u8>>, Seq<u8>> {
    let op = cdb[0];
    if op == 0x00 || op == 0x1b || op == 0x1e || op == 0x2f || op == 0x8f {
        Ok(None)
    } else if op == 0x03 {
        Ok(Some(cut(sense(0, 0, 0), cdb[4] as int)))
    } else if op == 0x12 {
        match inquiry_data(cdb) {
            Some(data) => Ok(Some(cut(data, cdb[3] * 256 + cdb[4]))),
            None => Err(sense(0x05, 0x24, 0)),
        }
    } else if op == 0x1a {
        Ok(Some(cut(mode_data_6(cdb), cdb[4] as int)))
    } else if op == 0x5a {
        Ok(Some(cut(mode_data_10(cdb), cdb[7] * 256 + cdb[8])))
    } else if op == 0x25 {
        Ok(
            Some(
                crate::bytes::be_bytes(last_block_32(capacity), 4) + crate::bytes::be_bytes(
                    4096,
                    4,
                ),
            ),
        )
    } else if is_read_capacity_16(cdb) {
        Ok(
            Some(
                crate::bytes::be_bytes((capacity / 4096 - 1) as nat, 8) + crate::bytes::be_bytes(
                    4096,
                    4,
                ) + Seq::new(20, |i: int| 0u8),
            ),
        )
    } else if op == 0xa0 {
        Ok(Some(cut(lun_list(), crate::bytes::be_value(cdb.subrange(6, 10)) as int)))
    } else {
        Err(sense(0x05, 0x20, 0))
    }
}

/// Answers a command that moves no blocks.
pub fn scsi_control(cdb: &[u8; 16], capacity_bytes: u64) -> (r: Result<Option<Vec<u8>>, Vec<u8>>)
    requires
        is_read_capacity_16(cdb@) ==> capacity_bytes >= 4096,
    ensures
        match r {
            Ok(Some(data)) => control_answer(cdb@, capacity_bytes) == Ok::<
                Option<Seq<u8>>,
                Seq<u8>,
            >(Some(data@)),
            Ok(None) => control_answer(cdb@, capacity_bytes) == Ok::<Option<Seq<u8>>, Seq<u8>>(
                None,
            ),
            Err(s) => control_answer(cdb@, capacity_bytes) == Err::<Option<Seq<u8>>, Seq<u8>>(s@),
        },
{
    let op: u8 = cdb[0];
    if op == 0x00 || op == 0x1b || op == 0x1e || op == 0x2f || op == 0x8f {
        Ok(None)
    } else if op == 0x03 {
        Ok(Some(request_sense(cdb[4] as usize)))
    } else if op == 0x12 {
        match inquiry(cdb) {
            Ok(data) => Ok(Some(data)),
            Err(s) => Err(s),
        }
    } else if op == 0x1a {
        Ok(Some(mode_sense_6(cdb)))
    } else if op == 0x5a {
        Ok(Some(mode_sense_10(cdb)))
    } else if op == 0x25 {
        Ok(Some(read_capacity_10(capacity_bytes)))
    } else if op == 0x9e && cdb[1] & 0x1f == 0x10 {
        Ok(Some(read_capacity_16(capacity_bytes)))
    } else if op == 0xa0 {
        Ok(Some(report_luns(cdb)))
    } else {
        Err(sense_invalid_command())
    }
}

/// Whether blocks lie in a volume of the given capacity.
pub open spec fn in_volume(capacity: u64, lba: u64, blocks: u32) -> bool {
    blocks > 0 && (lba + blocks) * 4096 <= capacity
}

/// Whether a transfer lies in the volume.
pub fn check_range(capacity_bytes: u64, lba: u64, blocks: u32) -> (r: Result<(), Error>)
    ensures
        match r {
            Ok(_) => in_volume(capacity_bytes, lba, blocks),
            Err(e) => {
                &&& !in_volume(capacity_bytes, lba, blocks)
                &&& e@ == (
                    ErrorKind::InvalidInput,
                    if (lba + blocks) * 4096 > u64::MAX {
                        "LBA overflow"@
                    } else {
                        "SCSI transfer is outside the volume"@
                    },
                )
            },
        },
{
    let end: u64 = match lba.checked_add(blocks as u64) {
        Some(blocks_end) => match blocks_end.checked_mul(BLOCK_SIZE as u64) {
            Some(end) => end,
            None => {
                return Err(invalid("LBA overflow"));
            },
        },
        None => {
            return Err(invalid("LBA overflow"));
        },
    };
    if blocks == 0 || end > capacity_bytes {
        return Err(invalid("SCSI transfer is outside the volume"));
    }
    Ok(())
}

/// Whether a capacity is a non-zero multiple of the block size.
pub fn validate_capacity(capacity_bytes: u64) -> (r: Result<(), Error>)
    ensures
        match r {
            Ok(_) => capacity_bytes != 0 && capacity_bytes % 4096 == 0,
            Err(e) => (capacity_bytes == 0 || capacity_bytes % 4096 != 0) && e@ == (
                ErrorKind::InvalidInput,
                "capacity must be a non-zero multiple of 4096 bytes"@,
            ),
        },
{
    if capacity_bytes == 0 || capacity_bytes % (BLOCK_SIZE as u64) != 0 {
        return Err(invalid("capacity must be a non-zero multiple of 4096 bytes"));
    }
    Ok(())
}

/// The last block that a volume reports is its last block that can be transferred, and the one
/// after it cannot.
pub proof fn law_reported_capacity_is_addressable(capacity: u64)
    requires
        capacity != 0,
        capacity % 4096 == 0,
    ensures
        in_volume(capacity, (capacity / 4096 - 1) as u64, 1),
        !in_volume(capacity, (capacity / 4096) as u64, 1),
{
}

/// A transfer is inside the volume exactly where it has a block and each of its blocks is.
pub proof fn law_transfers_have_all_blocks_in_the_volume(capacity: u64, lba: u64, blocks: u32)
    ensures
        in_volume(capacity, lba, blocks) <==> blocks > 0 && forall|b: int|
            lba <= b < lba + blocks ==> #[trigger] ((b + 1) * 4096) <= capacity,
{
    if blocks > 0 && forall|b: int|
        lba <= b < lba + blocks ==> #[trigger] ((b + 1) * 4096) <= capacity {
        let b = lba + blocks - 1;
        assert((b + 1) * 4096 <= capacity);
    }
}

/// A command block names its first block and its number of blocks in its own bytes: in three and one
/// bytes, in four and two, or in eight and four.
pub proof fn law_command_blocks_name_the_transfer(cdb: Seq<u8>)
    requires
        cdb.len() == 16,
        is_read(cdb) || is_write(cdb),
    ensures
        ({
            let (lba, blocks) = rw_fields(cdb);
            &&& cdb[0] < 0x20 ==> lba == (cdb[1] % 32) * 0x1_0000 + cdb[2] * 0x100 + cdb[3]
                && blocks == if cdb[4] == 0 {
                256
            } else {
                cdb[4] as int
            }
            &&& 0x20 <= cdb[0] < 0x80 ==> lba == cdb[2] * 0x100_0000 + cdb[3] * 0x1_0000 + cdb[4]
                * 0x100 + cdb[5] && blocks == cdb[7] * 0x100 + cdb[8]
            &&& cdb[0] >= 0x80 ==> lba == cdb[2] * 0x100_0000_0000_0000 + cdb[3] * 0x1_0000_0000_0000
                + cdb[4] * 0x100_0000_0000 + cdb[5] * 0x1_0000_0000 + cdb[6] * 0x100_0000 + cdb[7]
                * 0x1_0000 + cdb[8] * 0x100 + cdb[9] && blocks == cdb[10] * 0x100_0000 + cdb[11]
                * 0x1_0000 + cdb[12] * 0x100 + cdb[13]
        }),
{
    crate::bytes::law_big_endian_values(cdb.subrange(2, 6));
    crate::bytes::law_big_endian_values(cdb.subrange(7, 9));
    crate::bytes::law_big_endian_values(cdb.subrange(2, 10));
    crate::bytes::law_big_endian_values(cdb.subrange(10, 14));
}

/// The capacity that is reported in either form names the last block of the volume, as far as the form
/// can, and the size of a block.
pub proof fn law_the_last_block_is_reported(cdb: Seq<u8>, capacity: u64)
    requires
        cdb.len() == 16,
        capacity >= 4096,
        capacity % 4096 == 0,
        cdb[0] == 0x25 || (cdb[0] == 0x9e && cdb[1] & 0x1f == 0x10),
    ensures
        ({
            let answer = control_answer(cdb, capacity);
            let n: int = if cdb[0] == 0x25 {
                4
            } else {
                8
            };
            &&& answer is Ok && answer->Ok_0 is Some
            &&& answer->Ok_0->0.len() == if cdb[0] == 0x25 {
                8int
            } else {
                32int
            }
            &&& cdb[0] != 0x25 || capacity <= 0x1000_0000_0000 ==> (crate::bytes::be_value(
                answer->Ok_0->0.subrange(0, n),
            ) + 1) * 4096 == capacity
            &&& cdb[0] == 0x25 && capacity > 0x1000_0000_0000 ==> crate::bytes::be_value(
                answer->Ok_0->0.subrange(0, n),
            ) == u32::MAX
            &&& crate::bytes::be_value(answer->Ok_0->0.subrange(n, n + 4)) == 4096
        }),
{
    crate::bytes::lemma_byte_ranges();
    let answer = control_answer(cdb, capacity)->Ok_0->0;
    let last = (capacity / 4096 - 1) as nat;
    crate::bytes::lemma_be_bytes_len(4096, 4);
    crate::bytes::lemma_be_round_trip(4096, 4);
    if cdb[0] == 0x25 {
        crate::bytes::lemma_be_bytes_len(last_block_32(capacity), 4);
        crate::bytes::lemma_be_round_trip(last_block_32(capacity), 4);
        assert(answer.subrange(0, 4) =~= crate::bytes::be_bytes(last_block_32(capacity), 4));
        assert(answer.subrange(4, 8) =~= crate::bytes::be_bytes(4096, 4));
    } else {
        crate::bytes::lemma_be_bytes_len(last, 8);
        crate::bytes::lemma_be_round_trip(last, 8);
        assert(answer.subrange(0, 8) =~= crate::bytes::be_bytes(last, 8));
        assert(answer.subrange(8, 12) =~= crate::bytes::be_bytes(4096, 4));
    }
}

/// An answer is cut to the room that the initiator allows: it is the beginning of the whole answer, and no
/// shorter than it has to be.
pub proof fn law_answers_are_cut_to_their_room(s: Seq<u8>, n: int)
    requires
        0 <= n,
    ensures
        cut(s, n).len() <= n,
        cut(s, n).len() == n || cut(s, n) == s,
        forall|i: int| 0 <= i < cut(s, n).len() ==> #[trigger] cut(s, n)[i] == s[i],
{
}

/// An answer with data never exceeds the room that the command block allows, in the bytes where its kind
/// of command says so.
pub proof fn law_answers_fit_their_room(cdb: Seq<u8>, capacity: u64)
    requires
        cdb.len() == 16,
    ensures
        control_answer(cdb, capacity) matches Ok(Some(data)) ==> {
            &&& cdb[0] == 0x03 || cdb[0] == 0x1a ==> data.len() <= cdb[4]
            &&& cdb[0] == 0x12 ==> data.len() <= cdb[3] * 0x100 + cdb[4]
            &&& cdb[0] == 0x5a ==> data.len() <= cdb[7] * 0x100 + cdb[8]
            &&& cdb[0] == 0xa0 ==> data.len() <= cdb[6] * 0x100_0000 + cdb[7] * 0x1_0000 + cdb[8]
                * 0x100 + cdb[9]
        },
        control_answer(cdb, capacity) matches Err(told) ==> told.len() == 18 && told[2] == 5,
{
    crate::bytes::law_big_endian_values(cdb.subrange(6, 10));
}

/// Sense data say their key and their two codes, and how many bytes follow the eighth.
pub proof fn law_sense_data_say_the_reason(key: u8, asc: u8, ascq: u8)
    ensures
        sense(key, asc, ascq).len() == 18,
        sense(key, asc, ascq)[0] == 0x70,
        sense(key, asc, ascq)[2] == key,
        sense(key, asc, ascq)[7] == sense(key, asc, ascq).len() - 8,
        sense(key, asc, ascq)[12] == asc,
        sense(key, asc, ascq)[13] == ascq,
{
}

/// A page of mode data says its own length: all of its bytes but the length itself.
pub proof fn law_mode_data_say_their_length(cdb: Seq<u8>)
    requires
        cdb.len() == 16,
    ensures
        mode_data_6(cdb)[0] == mode_data_6(cdb).len() - 1,
        mode_data_10(cdb)[0] * 0x100 + mode_data_10(cdb)[1] == mode_data_10(cdb).len() - 2,
        wants_caching(cdb) ==> mode_data_6(cdb).skip(4) == caching() && mode_data_10(cdb).skip(8)
            == caching(),
        caching()[1] == caching().len() - 2,
{
    assert(mode_data_6(cdb).skip(4) =~= if wants_caching(cdb) {
        caching()
    } else {
        Seq::empty()
    });
    assert(mode_data_10(cdb).skip(8) =~= if wants_caching(cdb) {
        caching()
    } else {
        Seq::empty()
    });
}

} // verus!
