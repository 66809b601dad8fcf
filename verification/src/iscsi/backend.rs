//! What a target keeps its blocks in, and how a transfer falls on it: a file, a device reached through
//! shared buffers of one block each, or a fan of remote lanes.
use vstd::prelude::*;
use vstd::string::*;

use crate::error::{corrupt, invalid, invalid_input, Error, ErrorKind};
use crate::iscsi::fan::FanBackend;
use crate::iscsi::header::advance_vectored;
use crate::iscsi::scsi::check_range;
use crate::text::{decimal, join3, join4};
#[allow(unused_imports)]
use crate::error::Fault;
#[allow(unused_imports)]
use crate::iscsi::header::{advanced, lens_of};
#[allow(unused_imports)]
use crate::iscsi::scsi::in_volume;

verus! {

/// A device reached through shared buffers.
#[derive(Debug)]
pub struct ArenaBackend {
    pub capacity_bytes: u64,
    pub channels: u32,
    pub lane_cpus: Vec<usize>,
}

/// What a target keeps its blocks in.
#[derive(Debug)]
pub enum Backend {
    File { capacity_bytes: u64 },
    Arena(ArenaBackend),
    Fan(FanBackend),
}

/// The data of a transfer: bytes of the process, or shared buffers of one block each.
#[derive(Clone, Copy, Debug, PartialEq, Eq, Structural)]
pub enum Blocks {
    Bytes { len: usize },
    Buffers { count: usize },
}

/// A part of a transfer: a buffer, and the place of the part in it.
#[derive(Clone, Copy, Debug, PartialEq, Eq, Structural)]
pub struct Part {
    pub buffer: usize,
    pub start: usize,
    pub len: usize,
}

/// How a transfer falls on a backend: as one run of bytes at an offset, or block by block.
#[derive(Debug)]
pub enum Transfer {
    Run { offset: u64, len: usize },
    Each { offsets: Vec<u64> },
}

/// The fault on which an arena of that shape is refused, if it is.
pub open spec fn arena_fault(slot_bytes: usize, channels: u32, cpus: nat) -> Option<Fault> {
    if slot_bytes != 4096 {
        Some(
            crate::error::bad_input(
                "arena slot size "@ + crate::text::decimal_text(slot_bytes as nat)
                    + " is not the required 4096 bytes"@,
            ),
        )
    } else if cpus != channels {
        Some(
            crate::error::bad_input(
                "strict arena topology has "@ + crate::text::decimal_text(channels as nat)
                    + " lanes but "@ + crate::text::decimal_text(cpus) + " lane CPUs"@,
            ),
        )
    } else {
        None
    }
}

/// Checks that an arena hands out whole blocks and that each of its lanes has a CPU.
pub fn open_arena(slot_bytes: usize, channels: u32, cpus: usize) -> (r: Result<(), Error>)
    ensures
        match r {
            Ok(_) => arena_fault(slot_bytes, channels, cpus as nat) is None,
            Err(e) => arena_fault(slot_bytes, channels, cpus as nat) == Some(e@),
        },
{
    if slot_bytes != 4096 {
        return Err(
            invalid_input(
                join3(
                    "arena slot size ",
                    decimal(slot_bytes as u64).as_str(),
                    " is not the required 4096 bytes",
                ),
            ),
        );
    }
    if cpus as u64 != channels as u64 {
        let head: String = join4(
            "strict arena topology has ",
            decimal(channels as u64).as_str(),
            " lanes but ",
            decimal(cpus as u64).as_str(),
        );
        return Err(invalid_input(crate::text::join2(head.as_str(), " lane CPUs")));
    }
    Ok(())
}

/// The offsets of blocks one after the other.
pub open spec fn block_offsets(lba: u64, count: nat) -> Seq<u64> {
    Seq::new(count, |i: int| ((lba + i) * 4096) as u64)
}

fn offsets_from(lba: u64, count: usize) -> (v: Vec<u64>)
    requires
        (lba + count) * 4096 <= u64::MAX,
    ensures
        v@ == block_offsets(lba, count as nat),
{
    let mut v: Vec<u64> = Vec::new();
    let mut i: usize = 0;
    while i < count
        invariant
            i <= count,
            (lba + count) * 4096 <= u64::MAX,
            v@ == block_offsets(lba, i as nat),
        decreases count - i,
    {
        v.push((lba + i as u64) * 4096);
        i = i + 1;
        proof {
            assert(v@ =~= block_offsets(lba, i as nat));
        }
    }
    v
}

/// What a range that is not in the volume is refused with.
pub open spec fn range_fault(lba: u64, blocks: u32) -> Fault {
    (
        ErrorKind::InvalidInput,
        if (lba + blocks) * 4096 > u64::MAX {
            "LBA overflow"@
        } else {
            "SCSI transfer is outside the volume"@
        },
    )
}

impl Backend {
    pub open spec fn capacity(&self) -> u64 {
        match self {
            Backend::File { capacity_bytes } => *capacity_bytes,
            Backend::Arena(arena) => arena.capacity_bytes,
            Backend::Fan(fan) => fan.capacity_bytes,
        }
    }

    /// How many bytes the volume holds.
    pub fn capacity_bytes(&self) -> (n: u64)
        ensures
            n == self.capacity(),
    {
        match self {
            Backend::File { capacity_bytes } => *capacity_bytes,
            Backend::Arena(arena) => arena.capacity_bytes,
            Backend::Fan(fan) => fan.capacity_bytes,
        }
    }

    /// How many lanes the backend has.
    pub fn channels(&self) -> (n: usize)
        ensures
            n == match self {
                Backend::File { .. } => 1,
                Backend::Arena(arena) => arena.channels as int,
                Backend::Fan(fan) => fan.addrs@.len() as int,
            },
    {
        match self {
            Backend::File { .. } => 1,
            Backend::Arena(arena) => arena.channels as usize,
            Backend::Fan(fan) => fan.addrs.len(),
        }
    }

    /// The CPUs of the lanes, if they are pinned.
    pub fn lane_cpus(&self) -> (cpus: Vec<usize>)
        ensures
            cpus@ == match self {
                Backend::File { .. } => Seq::empty(),
                Backend::Arena(arena) => arena.lane_cpus@,
                Backend::Fan(fan) => fan.lane_cpus@,
            },
    {
        match self {
            Backend::File { .. } => Vec::new(),
            Backend::Arena(arena) => arena.lane_cpus.clone(),
            Backend::Fan(fan) => fan.lane_cpus.clone(),
        }
    }

    /// Where the data of a write is received: as bytes, or in one shared buffer for each block.
    pub fn allocate_write(&self, len: usize) -> (r: Result<Blocks, Error>)
        ensures
            match r {
                Ok(b) => {
                    &&& len != 0
                    &&& len % 4096 == 0
                    &&& b == if self is Arena {
                        Blocks::Buffers { count: (len / 4096) as usize }
                    } else {
                        Blocks::Bytes { len }
                    }
                },
                Err(e) => (len == 0 || len % 4096 != 0) && e@ == crate::error::bad_input(
                    "write length is not a non-zero 4 KiB multiple"@,
                ),
            },
    {
        if len == 0 || len % 4096 != 0 {
            return Err(invalid("write length is not a non-zero 4 KiB multiple"));
        }
        Ok(
            match self {
                Backend::Arena(_) => Blocks::Buffers { count: len / 4096 },
                _ => Blocks::Bytes { len },
            },
        )
    }

    /// How a read of blocks falls on the backend; a fan reads on its lanes.
    pub fn read_blocks(&self, lba: u64, blocks: u32) -> (r: Result<Transfer, Error>)
        requires
            blocks * 4096 <= usize::MAX,
        ensures
            match r {
                Ok(t) => {
                    &&& in_volume(self.capacity(), lba, blocks)
                    &&& match t {
                        Transfer::Run { offset, len } => self is File && offset == lba * 4096 && len
                            == blocks * 4096,
                        Transfer::Each { offsets } => self is Arena && offsets@ == block_offsets(
                            lba,
                            blocks as nat,
                        ),
                    }
                },
                Err(e) => if in_volume(self.capacity(), lba, blocks) {
                    self is Fan && e@ == (
                        ErrorKind::Other,
                        "direct fan reads are owned by the lane-local fan transport"@,
                    )
                } else {
                    e@ == range_fault(lba, blocks)
                },
            },
    {
        match check_range(self.capacity_bytes(), lba, blocks) {
            Ok(_) => {},
            Err(e) => {
                return Err(e);
            },
        }
        match self {
            Backend::File { .. } => Ok(
                Transfer::Run { offset: lba * 4096, len: blocks as usize * 4096 },
            ),
            Backend::Arena(_) => Ok(Transfer::Each { offsets: offsets_from(lba, blocks as usize) }),
            Backend::Fan(_) => Err(
                Error::of(
                    ErrorKind::Other,
                    "direct fan reads are owned by the lane-local fan transport",
                ),
            ),
        }
    }

    /// How a write falls on the backend; a fan writes on its lanes, and the data must be held as the
    /// backend holds it.
    pub fn write_blocks(&self, lba: u64, data: Blocks) -> (r: Result<Transfer, Error>)
        ensures
            ({
                let count = data.blocks();
                match r {
                    Ok(t) => {
                        &&& count <= u32::MAX
                        &&& in_volume(self.capacity(), lba, count as u32)
                        &&& match t {
                            Transfer::Run { offset, len } => self is File && data == (
                            Blocks::Bytes { len }) && offset == lba * 4096,
                            Transfer::Each { offsets } => self is Arena && data is Buffers
                                && offsets@ == block_offsets(lba, count),
                        }
                    },
                    Err(e) => if count > u32::MAX {
                        e@ == crate::error::bad_input("write too large"@)
                    } else if !in_volume(self.capacity(), lba, count as u32) {
                        e@ == range_fault(lba, count as u32)
                    } else if self is Fan {
                        e@ == (
                            ErrorKind::Other,
                            "direct fan writes are owned by the lane-local fan transport"@,
                        )
                    } else {
                        (self is File) == (data is Buffers) && e@ == crate::error::bad_data(
                            "backend payload type mismatch"@,
                        )
                    },
                }
            }),
    {
        let count: usize = match data {
            Blocks::Bytes { len } => len / 4096,
            Blocks::Buffers { count } => count,
        };
        if count as u64 > u32::MAX as u64 {
            return Err(invalid("write too large"));
        }
        match check_range(self.capacity_bytes(), lba, count as u32) {
            Ok(_) => {},
            Err(e) => {
                return Err(e);
            },
        }
        match self {
            Backend::Fan(_) => Err(
                Error::of(
                    ErrorKind::Other,
                    "direct fan writes are owned by the lane-local fan transport",
                ),
            ),
            Backend::File { .. } => match data {
                Blocks::Bytes { len } => Ok(Transfer::Run { offset: lba * 4096, len }),
                Blocks::Buffers { .. } => Err(corrupt("backend payload type mismatch")),
            },
            Backend::Arena(_) => match data {
                Blocks::Buffers { .. } => Ok(Transfer::Each { offsets: offsets_from(lba, count) }),
                Blocks::Bytes { .. } => Err(corrupt("backend payload type mismatch")),
            },
        }
    }
}

/// The parts of `len` bytes at an offset of buffers of one block each.
pub open spec fn parts_of(offset: nat, len: nat) -> Seq<Part>
    decreases len,
{
    if len == 0 {
        Seq::empty()
    } else {
        let within = offset % 4096;
        let take = if len < 4096 - within {
            len
        } else {
            (4096 - within) as nat
        };
        seq![
            Part { buffer: (offset / 4096) as usize, start: within as usize, len: take as usize },
        ] + parts_of(offset + take, (len - take) as nat)
    }
}

impl Blocks {
    /// How many whole blocks the data holds.
    pub open spec fn blocks(&self) -> nat {
        match self {
            Blocks::Bytes { len } => (*len / 4096) as nat,
            Blocks::Buffers { count } => *count as nat,
        }
    }

    pub open spec fn byte_len(&self) -> int {
        match self {
            Blocks::Bytes { len } => *len as int,
            Blocks::Buffers { count } => *count * 4096,
        }
    }

    /// How many bytes the data holds.
    pub fn len(&self) -> (n: usize)
        requires
            self.byte_len() <= usize::MAX,
        ensures
            n == self.byte_len(),
    {
        match self {
            Blocks::Bytes { len } => *len,
            Blocks::Buffers { count } => *count * 4096,
        }
    }

    /// Where `len` bytes that belong at an offset are received.
    pub fn read_from(&self, offset: usize, len: usize) -> (r: Result<Vec<Part>, Error>)
        requires
            self.byte_len() <= usize::MAX,
        ensures
            match r {
                Ok(parts) => offset + len <= self.byte_len() && parts@ == if *self is Buffers {
                    parts_of(offset as nat, len as nat)
                } else {
                    seq![Part { buffer: 0, start: offset, len }]
                },
                Err(e) => offset + len > self.byte_len() && e@ == crate::error::bad_data(
                    if offset + len > usize::MAX {
                        "write range overflow"@
                    } else {
                        "iSCSI write data exceeds expected transfer length"@
                    },
                ),
            },
    {
        let end: usize = match offset.checked_add(len) {
            Some(end) => end,
            None => {
                return Err(corrupt("write range overflow"));
            },
        };
        if end > self.len() {
            return Err(corrupt("iSCSI write data exceeds expected transfer length"));
        }
        let mut parts: Vec<Part> = Vec::new();
        match self {
            Blocks::Bytes { .. } => {
                parts.push(Part { buffer: 0, start: offset, len });
                proof {
                    assert(parts@ =~= seq![Part { buffer: 0, start: offset, len }]);
                }
            },
            Blocks::Buffers { .. } => {
                let mut at: usize = offset;
                let mut left: usize = len;
                while left != 0
                    invariant
                        at + left == end,
                        parts@ + parts_of(at as nat, left as nat) == parts_of(
                            offset as nat,
                            len as nat,
                        ),
                    decreases left,
                {
                    let within: usize = at % 4096;
                    let take: usize = if left < 4096 - within {
                        left
                    } else {
                        4096 - within
                    };
                    let ghost before = parts@;
                    parts.push(Part { buffer: at / 4096, start: within, len: take });
                    at = at + take;
                    left = left - take;
                    proof {
                        assert(parts@ + parts_of(at as nat, left as nat) =~= before + parts_of(
                            (at - take) as nat,
                            (left + take) as nat,
                        ));
                    }
                }
                proof {
                    assert(parts@ =~= parts@ + parts_of(at as nat, 0));
                }
            },
        }
        Ok(parts)
    }

    /// Checks that the data is held as bytes, as a fan needs it.
    pub fn bytes(&self) -> (r: Result<usize, Error>)
        ensures
            match r {
                Ok(n) => *self == (Blocks::Bytes { len: n }),
                Err(e) => *self is Buffers && e@ == crate::error::bad_data(
                    "direct fan transport received a non-userspace payload"@,
                ),
            },
    {
        match self {
            Blocks::Bytes { len } => Ok(*len),
            Blocks::Buffers { .. } => Err(
                corrupt("direct fan transport received a non-userspace payload"),
            ),
        }
    }
}

/// How many bytes parts hold together.
pub open spec fn parts_len(parts: Seq<Part>) -> int
    decreases parts.len(),
{
    if parts.len() == 0 {
        0
    } else {
        parts[0].len + parts_len(parts.skip(1))
    }
}

/// The parts of a transfer hold all of it, and each lies within its block.
pub proof fn law_parts_cover_the_transfer(offset: nat, len: nat)
    requires
        offset + len <= usize::MAX,
    ensures
        parts_len(parts_of(offset, len)) == len,
        forall|i: int|
            0 <= i < parts_of(offset, len).len() ==> {
                let part = #[trigger] parts_of(offset, len)[i];
                0 < part.len && part.start + part.len <= 4096
            },
    decreases len,
{
    if len > 0 {
        let within = offset % 4096;
        let take = if len < 4096 - within {
            len
        } else {
            (4096 - within) as nat
        };
        law_parts_cover_the_transfer(offset + take, (len - take) as nat);
        let parts = parts_of(offset, len);
        let rest = parts_of(offset + take, (len - take) as nat);
        assert(parts.skip(1) =~= rest);
        assert forall|i: int| 0 <= i < parts.len() implies {
            let part = #[trigger] parts[i];
            0 < part.len && part.start + part.len <= 4096
        } by {
            if i > 0 {
                assert(parts[i] == rest[i - 1]);
            }
        }
    }
}

/// What came of a try to get a shared buffer.
#[derive(Clone, Copy, Debug, PartialEq, Eq, Structural)]
pub enum Allocation {
    Got,
    /// None is free.
    Full,
    Failed,
}

/// What is done after a try to get a shared buffer. Where none is free the device is drained once, which
/// frees what was handed over, and the buffer is asked for again; any other failure, and a second one,
/// is passed on.
#[derive(Clone, Copy, Debug, PartialEq, Eq, Structural)]
pub enum NextTry {
    Use,
    DrainAndTry,
    PassOn,
}

/// What is done after a try to get a shared buffer.
pub fn allocate_arena(first: bool, result: Allocation) -> (n: NextTry)
    ensures
        n == match result {
            Allocation::Got => NextTry::Use,
            Allocation::Full => if first {
                NextTry::DrainAndTry
            } else {
                NextTry::PassOn
            },
            Allocation::Failed => NextTry::PassOn,
        },
{
    match result {
        Allocation::Got => NextTry::Use,
        Allocation::Full => if first {
            NextTry::DrainAndTry
        } else {
            NextTry::PassOn
        },
        Allocation::Failed => NextTry::PassOn,
    }
}

/// Moves a place in a list of slices on by what a socket took, and says whether anything is left; a
/// socket that takes nothing is closed.
pub fn write_all_vectored(slices: &[&[u8]], index: &mut usize, offset: &mut usize, written: usize) -> (r:
    Result<bool, Error>)
    requires
        *old(index) < slices@.len(),
        *old(offset) <= slices@[*old(index) as int]@.len(),
    ensures
        match r {
            Ok(more) => {
                &&& written > 0
                &&& (*final(index) as nat, *final(offset) as nat) == advanced(
                    lens_of(slices@),
                    *old(index) as nat,
                    *old(offset) as nat,
                    written as nat,
                )
                &&& more == (*final(index) < slices@.len())
                &&& more ==> *final(offset) <= slices@[*final(index) as int]@.len()
            },
            Err(e) => {
                &&& written == 0
                &&& *final(index) == *old(index)
                &&& *final(offset) == *old(offset)
                &&& e@ == (ErrorKind::WriteZero, "iSCSI socket closed"@)
            },
        },
{
    if written == 0 {
        return Err(Error::of(ErrorKind::WriteZero, "iSCSI socket closed"));
    }
    advance_vectored(slices, index, offset, written);
    Ok(*index < slices.len())
}

/// The blocks of a transfer lie one behind the other from the first one on, each at its own offset, and
/// all of them inside a volume that the transfer is inside.
pub proof fn law_blocks_lie_in_a_row(lba: u64, count: u32, capacity: u64, i: int)
    requires
        in_volume(capacity, lba, count),
        0 <= i < count,
    ensures
        block_offsets(lba, count as nat).len() == count,
        block_offsets(lba, count as nat)[0] == lba * 4096,
        block_offsets(lba, count as nat)[i] - block_offsets(lba, count as nat)[0] == i * 4096,
        block_offsets(lba, count as nat)[i] + 4096 <= capacity,
{
}

/// The parts of a transfer over buffers begin where the transfer does, and each begins where the one
/// before it ended.
pub proof fn law_parts_follow_one_another(offset: nat, len: nat)
    requires
        offset + len <= usize::MAX,
        len > 0,
    ensures
        parts_of(offset, len).len() > 0,
        parts_of(offset, len)[0].buffer * 4096 + parts_of(offset, len)[0].start == offset,
        forall|i: int|
            0 < i < parts_of(offset, len).len() ==> {
                let part = #[trigger] parts_of(offset, len)[i];
                let before = parts_of(offset, len)[i - 1];
                part.buffer * 4096 + part.start == before.buffer * 4096 + before.start + before.len
            },
    decreases len,
{
    let within = offset % 4096;
    let take = if len < 4096 - within {
        len
    } else {
        (4096 - within) as nat
    };
    let rest = parts_of(offset + take, (len - take) as nat);
    let all = parts_of(offset, len);
    if len > take {
        law_parts_follow_one_another(offset + take, (len - take) as nat);
    }
    assert(all.len() == rest.len() + 1);
    assert forall|i: int| 0 < i < all.len() implies {
        let part = #[trigger] all[i];
        let before = all[i - 1];
        part.buffer * 4096 + part.start == before.buffer * 4096 + before.start + before.len
    } by {
        assert(all[i] == rest[i - 1]);
        if i > 1 {
            assert(all[i - 1] == rest[i - 2]);
        }
    }
}

} // verus!
