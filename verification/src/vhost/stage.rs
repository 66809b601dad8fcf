//! The stages below the block device: what they accept, and how a range is cut into slots.
use vstd::prelude::*;
use vstd::string::*;

use crate::error::{corrupt, invalid, invalid_input, Error, ErrorKind};
use crate::text::{decimal, join2, join4};
use crate::vhost::request::SECTOR_SIZE;
#[allow(unused_imports)]
use crate::error::Fault;

verus! {

/// A terminal file or device of a fixed capacity.
#[derive(Clone, Copy, Debug, PartialEq, Eq, Structural)]
pub struct FileLeaf {
    pub capacity: u64,
    pub read_only: bool,
}

/// The fault of a range that is not within `capacity` bytes, if it is not.
pub open spec fn range_fault(capacity: u64, offset: u64, len: nat, past_end: Seq<char>) -> Option<
    Fault,
> {
    if offset + len > u64::MAX {
        Some(crate::error::bad_input("I/O range overflow"@))
    } else if offset + len > capacity {
        Some((ErrorKind::UnexpectedEof, past_end))
    } else {
        None
    }
}

/// What is said of a range that goes past the end of a leaf.
pub open spec fn past_leaf(capacity: u64, offset: u64, len: nat) -> Seq<char> {
    "I/O range "@ + crate::text::decimal_text(offset as nat) + ".."@ + crate::text::decimal_text(
        (offset + len) as nat,
    ) + " exceeds leaf capacity "@ + crate::text::decimal_text(capacity as nat)
}

impl FileLeaf {
    /// A leaf over a file of the given length, which has to be a non-zero number of sectors.
    pub fn open(capacity: u64, read_only: bool) -> (r: Result<FileLeaf, Error>)
        ensures
            crate::error::agrees(
                r,
                if capacity == 0 || capacity % 512 != 0 {
                    Err(
                        crate::error::bad_input(
                            "terminal leaf size must be a non-zero multiple of 512, got "@
                                + crate::text::decimal_text(capacity as nat),
                        ),
                    )
                } else {
                    Ok(FileLeaf { capacity, read_only })
                },
            ),
    {
        if capacity == 0 || capacity % SECTOR_SIZE != 0 {
            return Err(
                invalid_input(
                    join2(
                        "terminal leaf size must be a non-zero multiple of 512, got ",
                        decimal(capacity).as_str(),
                    ),
                ),
            );
        }
        Ok(FileLeaf { capacity, read_only })
    }

    /// The end of a range, where it is within the leaf.
    pub fn checked_end(&self, offset: u64, len: usize) -> (r: Result<u64, Error>)
        ensures
            ({
                let fault = range_fault(
                    self.capacity,
                    offset,
                    len as nat,
                    past_leaf(self.capacity, offset, len as nat),
                );
                crate::error::agrees(
                    r,
                    match fault {
                        Some(e) => Err(e),
                        None => Ok((offset + len) as u64),
                    },
                )
            }),
    {
        let end: u64 = match offset.checked_add(len as u64) {
            Some(end) => end,
            None => {
                return Err(invalid("I/O range overflow"));
            },
        };
        if end > self.capacity {
            let head: String = join4(
                "I/O range ",
                decimal(offset).as_str(),
                "..",
                decimal(end).as_str(),
            );
            let tail: String = join2(
                " exceeds leaf capacity ",
                decimal(self.capacity).as_str(),
            );
            let text: String = join2(head.as_str(), tail.as_str());
            proof {
                assert(text@ =~= past_leaf(self.capacity, offset, len as nat));
            }
            return Err(Error::new(ErrorKind::UnexpectedEof, text));
        }
        Ok(end)
    }

    /// Whether a range may be written, and where it ends.
    pub fn write_end(&self, offset: u64, len: usize) -> (r: Result<u64, Error>)
        ensures
            ({
                let fault = range_fault(
                    self.capacity,
                    offset,
                    len as nat,
                    past_leaf(self.capacity, offset, len as nat),
                );
                crate::error::agrees(
                    r,
                    if self.read_only {
                        Err((ErrorKind::PermissionDenied, "terminal leaf is read-only"@))
                    } else {
                        match fault {
                            Some(e) => Err(e),
                            None => Ok((offset + len) as u64),
                        }
                    },
                )
            }),
    {
        if self.read_only {
            return Err(Error::of(ErrorKind::PermissionDenied, "terminal leaf is read-only"));
        }
        self.checked_end(offset, len)
    }
}

/// A stage that takes requests in shared slots.
#[derive(Clone, Copy, Debug, PartialEq, Eq, Structural)]
pub struct ArenaStage {
    pub slot_bytes: u64,
    pub capacity: u64,
    pub channels: u32,
    pub read_only: bool,
}

/// A part of a range that lies within one slot: the block that holds it, where in the block it
/// begins, how long it is, and whether it leaves some of the block as it is.
#[derive(Clone, Copy, Debug, PartialEq, Eq, Structural)]
pub struct SlotPart {
    pub block_offset: u64,
    pub slot_offset: u64,
    pub count: u64,
    pub partial: bool,
}

/// The part of a range that lies within the slot of its first byte.
pub open spec fn first_part(slot: int, offset: int, len: int) -> SlotPart {
    let within = offset % slot;
    let count = if len <= slot - within {
        len
    } else {
        slot - within
    };
    SlotPart {
        block_offset: (offset - within) as u64,
        slot_offset: within as u64,
        count: count as u64,
        partial: within != 0 || count != slot,
    }
}

/// Whether parts cover a range: each begins where the one before ended, within its own slot.
pub open spec fn covers(parts: Seq<SlotPart>, slot: int, offset: int, len: int) -> bool
    decreases parts.len(),
{
    if parts.len() == 0 {
        len == 0
    } else {
        &&& len > 0
        &&& parts[0] == first_part(slot, offset, len)
        &&& covers(
            parts.drop_first(),
            slot,
            offset + parts[0].count,
            len - parts[0].count,
        )
    }
}

impl ArenaStage {
    /// A stage whose slots are a power of two and no longer than the volume.
    pub fn open(slot_bytes: u64, capacity: u64, channels: u32, read_only: bool) -> (r: Result<
        ArenaStage,
        Error,
    >)
        ensures
            crate::error::agrees(
                r,
                if slot_bytes == 0 || !crate::order::ring::power_of_two(slot_bytes as nat) || capacity < slot_bytes {
                    Err(
                        crate::error::bad_data(
                            "invalid application-arena slot size or zcnblk capacity"@,
                        ),
                    )
                } else {
                    Ok(ArenaStage { slot_bytes, capacity, channels, read_only })
                },
            ),
    {
        if slot_bytes == 0 || !crate::order::ring::is_power_of_two(slot_bytes) || capacity
            < slot_bytes {
            return Err(corrupt("invalid application-arena slot size or zcnblk capacity"));
        }
        Ok(ArenaStage { slot_bytes, capacity, channels, read_only })
    }

    /// The end of a range, where it is within the volume.
    pub fn checked_end(&self, offset: u64, len: usize) -> (r: Result<u64, Error>)
        ensures
            ({
                let fault = range_fault(
                    self.capacity,
                    offset,
                    len as nat,
                    "I/O range exceeds zcnblk volume capacity"@,
                );
                crate::error::agrees(
                    r,
                    match fault {
                        Some(e) => Err(e),
                        None => Ok((offset + len) as u64),
                    },
                )
            }),
    {
        let end: u64 = match offset.checked_add(len as u64) {
            Some(end) => end,
            None => {
                return Err(invalid("I/O range overflow"));
            },
        };
        if end > self.capacity {
            return Err(
                Error::of(ErrorKind::UnexpectedEof, "I/O range exceeds zcnblk volume capacity"),
            );
        }
        Ok(end)
    }

    /// The lane that serves a queue.
    pub fn lane(&self, queue: u32) -> (lane: u32)
        requires
            self.channels > 0,
        ensures
            lane as int == queue as int % self.channels as int,
            lane < self.channels,
    {
        queue % self.channels
    }

    /// The lane of its own that a queue gets for its asynchronous requests.
    pub fn open_arena_queue(&self, queue: u64) -> (r: Result<u32, Error>)
        ensures
            crate::error::agrees(
                r,
                if queue > u32::MAX {
                    Err(crate::error::bad_input("queue exceeds u32"@))
                } else if queue >= self.channels {
                    Err(
                        crate::error::bad_input(
                            "vhost queue count exceeds zcnblk arena lane count"@,
                        ),
                    )
                } else {
                    Ok(queue as u32)
                },
            ),
    {
        if queue > u32::MAX as u64 {
            return Err(invalid("queue exceeds u32"));
        }
        let lane: u32 = queue as u32;
        if lane >= self.channels {
            return Err(invalid("vhost queue count exceeds zcnblk arena lane count"));
        }
        Ok(lane)
    }

    /// Cuts a range that is to be read into parts, each within one slot.
    pub fn read_parts(&self, offset: u64, len: usize) -> (r: Result<Vec<SlotPart>, Error>)
        requires
            self.slot_bytes > 0,
        ensures
            ({
                let fault = range_fault(
                    self.capacity,
                    offset,
                    len as nat,
                    "I/O range exceeds zcnblk volume capacity"@,
                );
                match r {
                    Ok(parts) => fault is None && covers(
                        parts@,
                        self.slot_bytes as int,
                        offset as int,
                        len as int,
                    ),
                    Err(e) => fault == Some(e@),
                }
            }),
    {
        match self.checked_end(offset, len) {
            Ok(_) => {},
            Err(e) => {
                return Err(e);
            },
        }
        let mut parts: Vec<SlotPart> = Vec::new();
        let mut at: u64 = offset;
        let mut left: u64 = len as u64;
        while left > 0
            invariant
                self.slot_bytes > 0,
                at + left == offset + len,
                offset + len <= u64::MAX,
                forall|tail: Seq<SlotPart>|
                    #![trigger parts@ + tail]
                    covers(tail, self.slot_bytes as int, at as int, left as int) ==> covers(
                        parts@ + tail,
                        self.slot_bytes as int,
                        offset as int,
                        len as int,
                    ),
            decreases left,
        {
            let within: u64 = at % self.slot_bytes;
            proof {
                vstd::arithmetic::div_mod::lemma_mod_decreases(at as nat, self.slot_bytes as nat);
            }
            let room: u64 = self.slot_bytes - within;
            let count: u64 = if left <= room {
                left
            } else {
                room
            };
            let part: SlotPart = SlotPart {
                block_offset: at - within,
                slot_offset: within,
                count,
                partial: within != 0 || count != self.slot_bytes,
            };
            let ghost before = parts@;
            parts.push(part);
            proof {
                let slot = self.slot_bytes as int;
                assert(part == first_part(slot, at as int, left as int));
                assert forall|tail: Seq<SlotPart>|
                    #![trigger parts@ + tail]
                    covers(tail, slot, at + count, left - count) implies covers(
                    parts@ + tail,
                    slot,
                    offset as int,
                    len as int,
                ) by {
                    let longer = seq![part] + tail;
                    assert(longer.drop_first() =~= tail);
                    assert(covers(longer, slot, at as int, left as int));
                    assert(before + longer =~= parts@ + tail);
                }
            }
            at = at + count;
            left = left - count;
        }
        proof {
            let none = Seq::<SlotPart>::empty();
            assert(covers(none, self.slot_bytes as int, at as int, left as int));
            assert(parts@ + none =~= parts@);
        }
        Ok(parts)
    }

    /// Cuts a range that is to be written into parts, each within one slot.
    pub fn write_parts(&self, offset: u64, len: usize) -> (r: Result<Vec<SlotPart>, Error>)
        requires
            self.slot_bytes > 0,
        ensures
            ({
                let fault = range_fault(
                    self.capacity,
                    offset,
                    len as nat,
                    "I/O range exceeds zcnblk volume capacity"@,
                );
                match r {
                    Ok(parts) => !self.read_only && fault is None && covers(
                        parts@,
                        self.slot_bytes as int,
                        offset as int,
                        len as int,
                    ),
                    Err(e) => if self.read_only {
                        e@ == (ErrorKind::PermissionDenied, "zcnblk userspace stage is read-only"@)
                    } else {
                        fault == Some(e@)
                    },
                }
            }),
    {
        if self.read_only {
            return Err(
                Error::of(ErrorKind::PermissionDenied, "zcnblk userspace stage is read-only"),
            );
        }
        self.read_parts(offset, len)
    }
}

/// How many bytes a list of parts moves.
pub open spec fn parts_len(parts: Seq<SlotPart>) -> int
    decreases parts.len(),
{
    if parts.len() == 0 {
        0
    } else {
        parts[0].count + parts_len(parts.drop_first())
    }
}

/// Parts that cover a range move exactly its bytes, and none reaches past its slot.
pub proof fn law_parts_cover_the_range(parts: Seq<SlotPart>, slot: int, offset: int, len: int)
    requires
        slot > 0,
        offset >= 0,
        offset + len <= u64::MAX,
        slot <= u64::MAX,
        covers(parts, slot, offset, len),
    ensures
        parts_len(parts) == len,
        forall|i: int|
            0 <= i < parts.len() ==> (#[trigger] parts[i]).slot_offset + parts[i].count <= slot
                && parts[i].block_offset as int % slot == 0,
    decreases parts.len(),
{
    if parts.len() > 0 {
        let rest = parts.drop_first();
        let within = offset % slot;
        assert(0 <= within < slot) by {
            vstd::arithmetic::div_mod::lemma_mod_bound(offset, slot);
        }
        assert(0 <= within <= offset) by {
            vstd::arithmetic::div_mod::lemma_mod_decreases(offset as nat, slot as nat);
        }
        assert((offset - within) % slot == 0) by {
            vstd::arithmetic::div_mod::lemma_fundamental_div_mod(offset, slot);
            vstd::arithmetic::div_mod::lemma_mod_multiples_basic(offset / slot, slot);
            assert(offset - within == (offset / slot) * slot) by (nonlinear_arith)
                requires
                    offset == slot * (offset / slot) + offset % slot,
                    within == offset % slot,
            ;
        }
        law_parts_cover_the_range(rest, slot, offset + parts[0].count, len - parts[0].count);
        assert forall|i: int| 0 <= i < parts.len() implies (#[trigger] parts[i]).slot_offset
            + parts[i].count <= slot && parts[i].block_offset as int % slot == 0 by {
            if i > 0 {
                assert(rest[i - 1] == parts[i]);
            }
        }
    }
}

/// Whether slots of the given size can be registered for remote access.
pub fn check_direct_slot(slot_bytes: u64) -> (r: Result<(), Error>)
    ensures
        crate::error::agrees(
            r,
            if 4096 <= slot_bytes <= 1048576 && crate::order::ring::power_of_two(slot_bytes as nat) {
                Ok(())
            } else {
                Err(
                    crate::error::bad_input(
                        "direct-OFI slot bytes must be a power of two in 4096..=1048576"@,
                    ),
                )
            },
        ),
{
    if slot_bytes < 4096 || slot_bytes > 1048576 || !crate::order::ring::is_power_of_two(
        slot_bytes,
    ) {
        return Err(invalid("direct-OFI slot bytes must be a power of two in 4096..=1048576"));
    }
    Ok(())
}

/// The parts of a range begin where the range does, and each begins where the one before it ended. A part
/// is partial exactly where it is less than a whole slot.
pub proof fn law_parts_follow_one_another(parts: Seq<SlotPart>, slot: int, offset: int, len: int)
    requires
        0 < slot <= u64::MAX,
        offset >= 0,
        offset + len <= u64::MAX,
        covers(parts, slot, offset, len),
    ensures
        parts.len() > 0 ==> parts[0].block_offset + parts[0].slot_offset == offset,
        forall|i: int|
            0 < i < parts.len() ==> {
                let part = #[trigger] parts[i];
                let before = parts[i - 1];
                part.block_offset + part.slot_offset == before.block_offset + before.slot_offset
                    + before.count
            },
        forall|i: int|
            0 <= i < parts.len() ==> (#[trigger] parts[i]).partial == (parts[i].count != slot)
                && parts[i].count > 0,
    decreases parts.len(),
{
    if parts.len() > 0 {
        let rest = parts.drop_first();
        let within = offset % slot;
        assert(0 <= within < slot && within <= offset) by (nonlinear_arith)
            requires
                within == offset % slot,
                slot > 0,
                offset >= 0,
        ;
        law_parts_follow_one_another(rest, slot, offset + parts[0].count, len - parts[0].count);
        assert forall|i: int| 0 < i < parts.len() implies {
            let part = #[trigger] parts[i];
            let before = parts[i - 1];
            part.block_offset + part.slot_offset == before.block_offset + before.slot_offset
                + before.count
        } by {
            assert(parts[i] == rest[i - 1]);
            if i > 1 {
                assert(parts[i - 1] == rest[i - 2]);
            }
        }
        assert forall|i: int| 0 <= i < parts.len() implies (#[trigger] parts[i]).partial == (
        parts[i].count != slot) && parts[i].count > 0 by {
            if i > 0 {
                assert(parts[i] == rest[i - 1]);
            }
        }
    }
}

/// A range is accepted exactly where it ends inside the volume.
pub proof fn law_ranges_end_inside_the_volume(
    capacity: u64,
    offset: u64,
    len: nat,
    past_end: Seq<char>,
)
    ensures
        range_fault(capacity, offset, len, past_end) is None <==> offset + len <= capacity,
        offset + len > capacity && offset + len <= u64::MAX ==> range_fault(
            capacity,
            offset,
            len,
            past_end,
        ) == Some((ErrorKind::UnexpectedEof, past_end)),
{
}

} // verus!
