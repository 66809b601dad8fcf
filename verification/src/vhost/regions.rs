//! Guest memory: regions, descriptor tables and rings, by host address.
use vstd::prelude::*;
use vstd::string::*;

use crate::bytes::get_le;
use crate::error::{corrupt, invalid_data, Error};
use crate::text::{decimal, join4};
use crate::vhost::request::{DescriptorMeta, MAX_DATA_DESCRIPTORS};
#[allow(unused_imports)]
use crate::error::Fault;

verus! {

/// The flag of a descriptor that another follows.
pub const VRING_DESC_F_NEXT: u16 = 1;

/// The flag of a descriptor that the device writes.
pub const VRING_DESC_F_WRITE: u16 = 2;

/// The flag of a descriptor that points to a table of descriptors.
pub const VRING_DESC_F_INDIRECT: u16 = 4;

/// A region of guest memory and where it lies in the memory of the device.
#[derive(Clone, Copy, Debug, PartialEq, Eq, Structural)]
pub struct GuestRegionFastPath {
    pub guest_start: u64,
    pub guest_end: u64,
    pub host_start: u64,
}

/// The regions of guest memory, and the one that was last used.
#[derive(Debug)]
pub struct GuestRegions {
    pub regions: Vec<GuestRegionFastPath>,
    pub last: usize,
}

/// Whether a region holds all of the `length` bytes from `start` on.
pub open spec fn holds(r: GuestRegionFastPath, start: int, length: int) -> bool {
    r.guest_start <= start && start + length <= r.guest_end
}

/// Where a guest address lies in a region.
pub open spec fn host_of(r: GuestRegionFastPath, start: int) -> int {
    r.host_start + start - r.guest_start
}

/// The first region that holds all of the bytes; the number of regions where none does.
pub open spec fn first_holding(regions: Seq<GuestRegionFastPath>, start: int, length: int) -> int
    decreases regions.len(),
{
    if regions.len() == 0 {
        0
    } else if holds(regions[0], start, length) {
        0
    } else {
        1 + first_holding(regions.drop_first(), start, length)
    }
}

proof fn lemma_first_holding(
    regions: Seq<GuestRegionFastPath>,
    start: int,
    length: int,
    at: int,
)
    requires
        0 <= at <= regions.len(),
        forall|i: int| 0 <= i < at ==> !holds(#[trigger] regions[i], start, length),
        at < regions.len() ==> holds(regions[at], start, length),
    ensures
        first_holding(regions, start, length) == at,
    decreases regions.len(),
{
    if at > 0 {
        assert(!holds(regions[0], start, length));
        let rest = regions.drop_first();
        assert forall|i: int| 0 <= i < at - 1 implies !holds(#[trigger] rest[i], start, length) by {
            assert(rest[i] == regions[i + 1]);
        }
        lemma_first_holding(rest, start, length, at - 1);
    }
}

/// The region that is used for an address: the one that was last used where it holds all of the
/// bytes, else the first that does.
pub open spec fn region_for(
    regions: Seq<GuestRegionFastPath>,
    last: int,
    start: int,
    length: int,
) -> Option<int> {
    if start + length > u64::MAX || last >= regions.len() {
        None
    } else if holds(regions[last], start, length) {
        Some(last)
    } else {
        let at = first_holding(regions, start, length);
        if at < regions.len() {
            Some(at)
        } else {
            None
        }
    }
}

/// The region that is remembered after an address was looked for: the one that holds it, else the one
/// before.
pub open spec fn last_after(
    regions: Seq<GuestRegionFastPath>,
    last: int,
    address: int,
    length: int,
) -> int {
    match region_for(regions, last, address, length) {
        Some(at) => at,
        None => last,
    }
}

/// Whether a region is not longer than the memory of the device.
pub open spec fn region_wf(r: GuestRegionFastPath) -> bool {
    r.guest_start <= r.guest_end && r.host_start + (r.guest_end - r.guest_start) <= u64::MAX
}

/// The regions of a memory table.
pub open spec fn regions_of(table: Seq<(u64, u64, u64)>) -> Seq<GuestRegionFastPath> {
    Seq::new(
        table.len(),
        |i: int|
            GuestRegionFastPath {
                guest_start: table[i].0,
                guest_end: (table[i].0 + table[i].1) as u64,
                host_start: table[i].2,
            },
    )
}

/// How many regions of a memory table, from one on, come before the first that goes past the end of
/// the address space.
pub open spec fn sound_prefix(table: Seq<(u64, u64, u64)>, from: int) -> int
    decreases table.len() - from,
{
    if from < 0 || from >= table.len() || table[from].0 + table[from].1 > u64::MAX {
        from
    } else {
        sound_prefix(table, from + 1)
    }
}

impl GuestRegions {
    /// Whether every region lies within the memory of the device.
    pub open spec fn wf(&self) -> bool {
        forall|i: int| 0 <= i < self.regions@.len() ==> region_wf(#[trigger] self.regions@[i])
    }

    /// No regions yet.
    pub fn new() -> (g: GuestRegions)
        ensures
            g.wf(),
            g.regions@.len() == 0,
            g.last == 0,
    {
        GuestRegions { regions: Vec::new(), last: 0 }
    }

    /// Takes the regions of a new memory table, each by its first guest address, its length and
    /// its host address, in place of those that were known. The table may not be empty, and no region
    /// may go past the end of the address space: those before such a region stay.
    pub fn refresh_guest_regions(&mut self, table: &Vec<(u64, u64, u64)>) -> (r: Result<(), Error>)
        requires
            forall|i: int|
                0 <= i < table@.len() ==> (#[trigger] table@[i]).2 + table@[i].1 <= u64::MAX,
        ensures
            final(self).wf(),
            final(self).regions@ == regions_of(table@.subrange(0, sound_prefix(table@, 0))),
            match r {
                Ok(_) => {
                    &&& table@.len() > 0
                    &&& sound_prefix(table@, 0) == table@.len()
                    &&& final(self).last == 0
                },
                Err(e) => {
                    &&& table@.len() == 0 || sound_prefix(table@, 0) < table@.len()
                    &&& final(self).last == old(self).last
                    &&& e@ == crate::error::bad_data(
                        if table@.len() == 0 {
                            "vhost guest memory table is empty"@
                        } else {
                            "guest memory region overflows"@
                        },
                    )
                },
            },
    {
        let mut regions: Vec<GuestRegionFastPath> = Vec::new();
        let mut i: usize = 0;
        proof {
            assert(regions@ =~= regions_of(table@.subrange(0, 0)));
        }
        while i < table.len()
            invariant
                i <= table@.len(),
                forall|k: int|
                    0 <= k < table@.len() ==> (#[trigger] table@[k]).2 + table@[k].1 <= u64::MAX,
                forall|k: int| 0 <= k < regions@.len() ==> region_wf(#[trigger] regions@[k]),
                regions@ == regions_of(table@.subrange(0, i as int)),
                sound_prefix(table@, 0) == sound_prefix(table@, i as int),
                self.last == old(self).last,
            decreases table@.len() - i,
        {
            let (guest_start, len, host_start): (u64, u64, u64) = table[i];
            match guest_start.checked_add(len) {
                Some(guest_end) => {
                    let ghost before = regions@;
                    regions.push(GuestRegionFastPath { guest_start, guest_end, host_start });
                    proof {
                        assert(table@[i as int].2 + table@[i as int].1 <= u64::MAX);
                        assert(regions@ =~= regions_of(table@.subrange(0, i + 1)));
                    }
                },
                None => {
                    self.regions = regions;
                    return Err(corrupt("guest memory region overflows"));
                },
            }
            i = i + 1;
        }
        let empty: bool = regions.len() == 0;
        self.regions = regions;
        if empty {
            return Err(corrupt("vhost guest memory table is empty"));
        }
        self.last = 0;
        Ok(())
    }

    /// The host address of `length` bytes of guest memory that lie within one region. The region is
    /// remembered.
    pub fn guest_host_address(&mut self, address: u64, length: u64) -> (r: Option<u64>)
        requires
            old(self).wf(),
        ensures
            final(self).wf(),
            final(self).regions == old(self).regions,
            match region_for(
                old(self).regions@,
                old(self).last as int,
                address as int,
                length as int,
            ) {
                Some(at) => {
                    &&& r == Some(host_of(old(self).regions@[at], address as int) as u64)
                    &&& host_of(old(self).regions@[at], address as int) + length <= u64::MAX
                    &&& final(self).last == at
                },
                None => r is None && final(self).last == old(self).last,
            },
    {
        let end: u64 = match address.checked_add(length) {
            Some(end) => end,
            None => {
                return None;
            },
        };
        if self.last >= self.regions.len() {
            return None;
        }
        let cached: GuestRegionFastPath = self.regions[self.last];
        assert(region_wf(self.regions@[self.last as int]));
        if address >= cached.guest_start && end <= cached.guest_end {
            return Some(cached.host_start + (address - cached.guest_start));
        }
        let mut i: usize = 0;
        while i < self.regions.len()
            invariant
                i <= self.regions@.len(),
                *self == *old(self),
                self.wf(),
                end == address + length,
                self.last < self.regions@.len(),
                !holds(self.regions@[self.last as int], address as int, length as int),
                forall|k: int|
                    0 <= k < i ==> !holds(
                        #[trigger] self.regions@[k],
                        address as int,
                        length as int,
                    ),
            decreases self.regions@.len() - i,
        {
            let region: GuestRegionFastPath = self.regions[i];
            if address >= region.guest_start && end <= region.guest_end {
                assert(region_wf(self.regions@[i as int]));
                proof {
                    lemma_first_holding(self.regions@, address as int, length as int, i as int);
                }
                self.last = i;
                return Some(region.host_start + (address - region.guest_start));
            }
            i = i + 1;
        }
        proof {
            lemma_first_holding(self.regions@, address as int, length as int, i as int);
        }
        None
    }
}

/// Whether no two regions share an address.
pub open spec fn apart(regions: Seq<GuestRegionFastPath>) -> bool {
    forall|i: int, k: int|
        #![trigger regions[i], regions[k]]
        0 <= i < k < regions.len() ==> regions[i].guest_end <= regions[k].guest_start
            || regions[k].guest_end <= regions[i].guest_start
}

/// Where no two regions share an address, what was used last has no influence on where an address
/// lies.
pub proof fn law_lookup_does_not_depend_on_the_past(
    regions: Seq<GuestRegionFastPath>,
    a: int,
    b: int,
    start: int,
    length: int,
)
    requires
        apart(regions),
        length > 0,
        0 <= a < regions.len(),
        0 <= b < regions.len(),
    ensures
        region_for(regions, a, start, length) == region_for(regions, b, start, length),
{
    lemma_first_holding_exists(regions, start, length);
    let at = first_holding(regions, start, length);
    if holds(regions[a], start, length) {
        assert(at < regions.len()) by {
            if at >= regions.len() {
                assert(!holds(regions[a], start, length));
            }
        }
        assert(holds(regions[at], start, length));
        assert(a == at);
    }
    if holds(regions[b], start, length) {
        assert(at < regions.len()) by {
            if at >= regions.len() {
                assert(!holds(regions[b], start, length));
            }
        }
        assert(holds(regions[at], start, length));
        assert(b == at);
    }
}

proof fn lemma_first_holding_exists(
    regions: Seq<GuestRegionFastPath>,
    start: int,
    length: int,
)
    ensures
        ({
            let at = first_holding(regions, start, length);
            &&& 0 <= at <= regions.len()
            &&& at < regions.len() ==> holds(regions[at], start, length)
            &&& forall|i: int| 0 <= i < at ==> !holds(#[trigger] regions[i], start, length)
        }),
    decreases regions.len(),
{
    if regions.len() > 0 && !holds(regions[0], start, length) {
        let rest = regions.drop_first();
        lemma_first_holding_exists(rest, start, length);
        let at = first_holding(regions, start, length);
        assert forall|i: int| 0 <= i < at implies !holds(#[trigger] regions[i], start, length) by {
            if i > 0 {
                assert(rest[i - 1] == regions[i]);
            }
        }
    }
}

/// An address that is found lies within its region, with all of its bytes.
pub proof fn law_lookup_stays_in_a_region(
    regions: Seq<GuestRegionFastPath>,
    last: int,
    start: int,
    length: int,
)
    requires
        0 <= last,
        region_for(regions, last, start, length) is Some,
    ensures
        ({
            let at = region_for(regions, last, start, length)->0;
            0 <= at < regions.len() && holds(regions[at], start, length)
        }),
{
    lemma_first_holding_exists(regions, start, length);
}

/// One descriptor of a table, and the number of the one that follows it.
pub struct Entry {
    pub meta: DescriptorMeta,
    pub flags: u16,
    pub next: u16,
}

/// The descriptor at `index` of a table.
pub open spec fn entry_at(table: Seq<u8>, index: int) -> Entry {
    let s = table.subrange(index * 16, index * 16 + 16);
    let flags = crate::bytes::le_value(s.subrange(12, 14)) as u16;
    Entry {
        meta: DescriptorMeta {
            address: crate::bytes::le_value(s.subrange(0, 8)) as u64,
            length: crate::bytes::le_value(s.subrange(8, 12)) as u32,
            writable: flags & VRING_DESC_F_WRITE != 0,
        },
        flags,
        next: crate::bytes::le_value(s.subrange(14, 16)) as u16,
    }
}

/// The chain of exactly three descriptors that starts at `head`, where there is one: the first two
/// name the next and the third names none, none is indirect, and their lengths can be added up.
pub open spec fn three_from(table: Seq<u8>, size: int, head: int) -> Option<
    (DescriptorMeta, DescriptorMeta, DescriptorMeta),
> {
    let a = entry_at(table, head);
    let b = entry_at(table, a.next as int);
    let c = entry_at(table, b.next as int);
    let direct = |e: Entry, more: bool|
        {
            &&& e.flags & VRING_DESC_F_INDIRECT == 0
            &&& (e.flags & VRING_DESC_F_NEXT != 0) == more
        };
    if head >= size || !direct(a, true) {
        None
    } else if a.next >= size || a.meta.length + b.meta.length > u32::MAX || !direct(b, true) {
        None
    } else if b.next >= size || a.meta.length + b.meta.length + c.meta.length > u32::MAX || !direct(
        c,
        false,
    ) {
        None
    } else {
        Some((a.meta, b.meta, c.meta))
    }
}

/// How many bytes of guest memory the descriptor table of a queue takes, where the queue can be
/// read without the complete parser.
pub fn table_span(descriptor_table: u64, queue_size: u16, head_index: u16) -> (r: Option<u64>)
    ensures
        r == if queue_size == 0 || head_index >= queue_size || descriptor_table % 16 != 0
            || queue_size > MAX_DATA_DESCRIPTORS {
            None
        } else {
            Some((queue_size * 16) as u64)
        },
{
    if queue_size == 0 || head_index >= queue_size || descriptor_table % 16 != 0
        || queue_size as usize > MAX_DATA_DESCRIPTORS {
        return None;
    }
    Some(queue_size as u64 * 16)
}

fn read_entry(table: &[u8], index: u16) -> (e: (DescriptorMeta, u16, u16))
    requires
        index * 16 + 16 <= table@.len(),
    ensures
        e.0 == entry_at(table@, index as int).meta,
        e.1 == entry_at(table@, index as int).flags,
        e.2 == entry_at(table@, index as int).next,
{
    let at: usize = index as usize * 16;
    let ghost s = table@.subrange(index * 16, index * 16 + 16);
    proof {
        crate::bytes::lemma_byte_ranges();
        assert(s.subrange(0, 8) =~= table@.subrange(at as int, at + 8));
        assert(s.subrange(8, 12) =~= table@.subrange(at + 8, at + 12));
        assert(s.subrange(12, 14) =~= table@.subrange(at + 12, at + 14));
        assert(s.subrange(14, 16) =~= table@.subrange(at + 14, at + 16));
        crate::bytes::lemma_le_value_bound(table@.subrange(at as int, at + 8));
        crate::bytes::lemma_le_value_bound(table@.subrange(at + 8, at + 12));
        crate::bytes::lemma_le_value_bound(table@.subrange(at + 12, at + 14));
        crate::bytes::lemma_le_value_bound(table@.subrange(at + 14, at + 16));
    }
    let address: u64 = get_le(table, at, 8);
    let length: u32 = get_le(table, at + 8, 4) as u32;
    let flags: u16 = get_le(table, at + 12, 2) as u16;
    let next: u16 = get_le(table, at + 14, 2) as u16;
    (
        DescriptorMeta { address, length, writable: flags & VRING_DESC_F_WRITE != 0 },
        flags,
        next,
    )
}

/// Loads a chain of exactly three descriptors out of the bytes of a descriptor table.
pub fn load_three_descriptors_fast(table: &[u8], queue_size: u16, head_index: u16) -> (r: Option<
    (DescriptorMeta, DescriptorMeta, DescriptorMeta),
>)
    requires
        table@.len() == queue_size * 16,
        head_index < queue_size,
    ensures
        r == three_from(table@, queue_size as int, head_index as int),
{
    let (a, a_flags, a_next): (DescriptorMeta, u16, u16) = read_entry(table, head_index);
    if a_flags & VRING_DESC_F_INDIRECT != 0 || a_flags & VRING_DESC_F_NEXT == 0 {
        return None;
    }
    if a_next >= queue_size {
        return None;
    }
    let (b, b_flags, b_next): (DescriptorMeta, u16, u16) = read_entry(table, a_next);
    if b_flags & VRING_DESC_F_INDIRECT != 0 || b_flags & VRING_DESC_F_NEXT == 0 {
        return None;
    }
    let two: u32 = match a.length.checked_add(b.length) {
        Some(two) => two,
        None => {
            return None;
        },
    };
    if b_next >= queue_size {
        return None;
    }
    let (c, c_flags, _): (DescriptorMeta, u16, u16) = read_entry(table, b_next);
    if c_flags & VRING_DESC_F_INDIRECT != 0 || c_flags & VRING_DESC_F_NEXT != 0 {
        return None;
    }
    match two.checked_add(c.length) {
        Some(_) => Some((a, b, c)),
        None => None,
    }
}

/// Where an entry of a used ring goes: the offset of the entry in the ring, how many bytes of the
/// ring have to lie within one region, and the number that is published afterwards.
#[derive(Clone, Copy, Debug, PartialEq, Eq, Structural)]
pub struct UsedSlot {
    pub element_offset: u64,
    pub span: u64,
    pub new_used: u16,
}

/// Where the next entry of a used ring goes; nothing where the ring is not aligned.
pub open spec fn used_slot(size: u16, next_used: u16, used_ring: u64, head: u16) -> Result<
    Option<UsedSlot>,
    Fault,
> {
    if size == 0 || head >= size {
        Err(
            crate::error::bad_data(
                "arena used entry has invalid head "@ + crate::text::decimal_text(head as nat)
                    + " for queue size "@ + crate::text::decimal_text(size as nat),
            ),
        )
    } else if used_ring % 4 != 0 {
        Ok(None)
    } else {
        let at = 4 + (next_used as int % size as int) * 8;
        Ok(
            Some(
                UsedSlot {
                    element_offset: at as u64,
                    span: (at + 8) as u64,
                    new_used: ((next_used + 1) % 0x1_0000) as u16,
                },
            ),
        )
    }
}

/// Where the next entry of a used ring goes; nothing where the ring is not aligned.
pub fn add_used_arena_fast(size: u16, next_used: u16, used_ring: u64, head_index: u16) -> (r: Result<
    Option<UsedSlot>,
    Error,
>)
    ensures
        crate::error::agrees(r, used_slot(size, next_used, used_ring, head_index)),
{
    if size == 0 || head_index >= size {
        return Err(
            invalid_data(
                join4(
                    "arena used entry has invalid head ",
                    decimal(head_index as u64).as_str(),
                    " for queue size ",
                    decimal(size as u64).as_str(),
                ),
            ),
        );
    }
    if used_ring % 4 != 0 {
        return Ok(None);
    }
    let at: u64 = 4 + (next_used % size) as u64 * 8;
    Ok(
        Some(
            UsedSlot { element_offset: at, span: at + 8, new_used: next_used.wrapping_add(1) },
        ),
    )
}

/// The guest address of the number at which the driver asks to be notified, where it can be told.
pub fn event_address(size: u16, avail_ring: u64) -> (r: Option<u64>)
    ensures
        r == if avail_ring + size * 2 + 4 > u64::MAX {
            None
        } else {
            Some((avail_ring + size * 2 + 4) as u64)
        },
{
    avail_ring.checked_add(size as u64 * 2 + 4)
}

/// An address is translated by its place in the region that holds it: what lies so many bytes behind the
/// start of the region in the guest lies as many bytes behind the start of its memory in the host.
pub proof fn law_addresses_keep_their_place(
    regions: Seq<GuestRegionFastPath>,
    last: int,
    start: int,
    length: int,
    step: int,
)
    requires
        0 <= last,
        0 <= step,
        region_for(regions, last, start, length) is Some,
    ensures
        ({
            let at = region_for(regions, last, start, length)->0;
            &&& 0 <= at < regions.len()
            &&& regions[at].guest_start <= start
            &&& start + length <= regions[at].guest_end
            &&& host_of(regions[at], start) - regions[at].host_start == start
                - regions[at].guest_start
            &&& host_of(regions[at], start + step) == host_of(regions[at], start) + step
            &&& host_of(regions[at], regions[at].guest_start as int) == regions[at].host_start
        }),
{
    law_lookup_stays_in_a_region(regions, last, start, length);
}

proof fn lemma_first_place(regions: Seq<GuestRegionFastPath>, start: int, length: int)
    ensures
        0 <= first_holding(regions, start, length) <= regions.len(),
        first_holding(regions, start, length) < regions.len() ==> holds(
            regions[first_holding(regions, start, length)],
            start,
            length,
        ),
        forall|i: int|
            0 <= i < first_holding(regions, start, length) ==> !holds(
                #[trigger] regions[i],
                start,
                length,
            ),
    decreases regions.len(),
{
    if regions.len() > 0 && !holds(regions[0], start, length) {
        let rest = regions.drop_first();
        lemma_first_place(rest, start, length);
        assert forall|i: int| 0 <= i < first_holding(regions, start, length) implies !holds(
            #[trigger] regions[i],
            start,
            length,
        ) by {
            if i > 0 {
                assert(rest[i - 1] == regions[i]);
            }
        }
    }
}

/// A range is found wherever some region holds all of it, and nowhere else.
pub proof fn law_every_held_range_is_found(
    regions: Seq<GuestRegionFastPath>,
    last: int,
    start: int,
    length: int,
)
    requires
        0 <= last < regions.len(),
        start + length <= u64::MAX,
    ensures
        region_for(regions, last, start, length) is Some <==> exists|i: int|
            0 <= i < regions.len() && (#[trigger] regions[i]).guest_start <= start && start + length
                <= regions[i].guest_end,
{
    lemma_first_place(regions, start, length);
    if exists|i: int|
        0 <= i < regions.len() && (#[trigger] regions[i]).guest_start <= start && start + length
            <= regions[i].guest_end {
        let i = choose|i: int|
            0 <= i < regions.len() && (#[trigger] regions[i]).guest_start <= start && start + length
                <= regions[i].guest_end;
        assert(holds(regions[i], start, length));
    }
    if region_for(regions, last, start, length) is Some {
        let at = region_for(regions, last, start, length)->0;
        assert(holds(regions[at], start, length));
    }
}

proof fn lemma_sound_prefix(table: Seq<(u64, u64, u64)>, from: int)
    requires
        0 <= from <= table.len(),
    ensures
        from <= sound_prefix(table, from) <= table.len(),
        forall|i: int|
            from <= i < sound_prefix(table, from) ==> (#[trigger] table[i]).0 + table[i].1 <= u64::MAX,
        sound_prefix(table, from) < table.len() ==> table[sound_prefix(table, from)].0
            + table[sound_prefix(table, from)].1 > u64::MAX,
    decreases table.len() - from,
{
    if from < table.len() && table[from].0 + table[from].1 <= u64::MAX {
        lemma_sound_prefix(table, from + 1);
    }
}

/// The regions of a memory table are its rows up to the first one that reaches past the address space,
/// each with its start, its length and its memory in the host.
pub proof fn law_the_memory_table_is_taken_over(table: Seq<(u64, u64, u64)>, i: int)
    ensures
        ({
            let n = sound_prefix(table, 0);
            let regions = regions_of(table.subrange(0, n));
            &&& 0 <= n <= table.len()
            &&& n < table.len() ==> table[n].0 + table[n].1 > u64::MAX
            &&& regions.len() == n
            &&& 0 <= i < n ==> {
                &&& table[i].0 + table[i].1 <= u64::MAX
                &&& regions[i].guest_start == table[i].0
                &&& regions[i].guest_end - regions[i].guest_start == table[i].1
                &&& regions[i].host_start == table[i].2
            }
        }),
{
    lemma_sound_prefix(table, 0);
    let n = sound_prefix(table, 0);
    if 0 <= i < n {
        assert(table.subrange(0, n)[i] == table[i]);
    }
}

/// A descriptor takes sixteen bytes of its table, the lowest byte of each number first: the address, the
/// length, the flags and the number of the next one. Its second flag says that the device may write.
pub proof fn law_descriptors_lie_in_their_table(table: Seq<u8>, index: int)
    requires
        0 <= index,
        index * 16 + 16 <= table.len(),
    ensures
        ({
            let e = entry_at(table, index);
            let at = index * 16;
            &&& e.meta.address == table[at] + table[at + 1] * 0x100 + table[at + 2] * 0x1_0000
                + table[at + 3] * 0x100_0000 + table[at + 4] * 0x1_0000_0000 + table[at + 5]
                * 0x100_0000_0000 + table[at + 6] * 0x1_0000_0000_0000 + table[at + 7]
                * 0x100_0000_0000_0000
            &&& e.meta.length == table[at + 8] + table[at + 9] * 0x100 + table[at + 10] * 0x1_0000
                + table[at + 11] * 0x100_0000
            &&& e.flags == table[at + 12] + table[at + 13] * 0x100
            &&& e.next == table[at + 14] + table[at + 15] * 0x100
            &&& e.meta.writable == (e.flags / 2 % 2 == 1)
        }),
{
    let s = table.subrange(index * 16, index * 16 + 16);
    crate::bytes::law_little_endian_values(s.subrange(0, 8));
    crate::bytes::law_little_endian_values(s.subrange(8, 12));
    crate::bytes::law_little_endian_values(s.subrange(12, 14));
    crate::bytes::law_little_endian_values(s.subrange(14, 16));
    crate::bytes::lemma_byte_ranges();
    crate::bytes::lemma_le_value_bound(s.subrange(0, 8));
    crate::bytes::lemma_le_value_bound(s.subrange(8, 12));
    crate::bytes::lemma_le_value_bound(s.subrange(12, 14));
    crate::bytes::lemma_le_value_bound(s.subrange(14, 16));
    let flags = entry_at(table, index).flags;
    assert((flags & 2u16 != 0) == (flags / 2 % 2 == 1)) by (bit_vector);
}

/// A chain of three is followed by the numbers in its own descriptors: the second is the one that the
/// first names, and the third the one that the second names. Only the first two say that another follows,
/// and none of them points to another table.
pub proof fn law_chains_are_followed(table: Seq<u8>, size: int, head: int)
    requires
        three_from(table, size, head) is Some,
    ensures
        ({
            let (first, second, third) = three_from(table, size, head)->0;
            let a = entry_at(table, head);
            let b = entry_at(table, a.next as int);
            let c = entry_at(table, b.next as int);
            &&& first == a.meta && second == b.meta && third == c.meta
            &&& head < size && a.next < size && b.next < size
            &&& a.flags % 2 == 1 && b.flags % 2 == 1 && c.flags % 2 == 0
            &&& a.flags / 4 % 2 == 0 && b.flags / 4 % 2 == 0 && c.flags / 4 % 2 == 0
            &&& first.length + second.length + third.length <= u32::MAX
        }),
{
    let f = entry_at(table, head).flags;
    let g = entry_at(table, entry_at(table, head).next as int).flags;
    let h = entry_at(table, entry_at(table, entry_at(table, head).next as int).next as int).flags;
    assert((f & 1u16 != 0) == (f % 2 == 1) && (f & 4u16 != 0) == (f / 4 % 2 == 1)) by (bit_vector);
    assert((g & 1u16 != 0) == (g % 2 == 1) && (g & 4u16 != 0) == (g / 4 % 2 == 1)) by (bit_vector);
    assert((h & 1u16 != 0) == (h % 2 == 1) && (h & 4u16 != 0) == (h / 4 % 2 == 1)) by (bit_vector);
}

/// Used entries are written one behind the other, eight bytes each behind the four bytes of the ring's
/// head, and from the first place again once the ring is full.
pub proof fn law_used_entries_go_round(
    size: u16,
    next_used: u16,
    used_ring: u64,
    head: u16,
    other: u16,
)
    requires
        head < size,
        other < size,
        used_ring % 4 == 0,
        next_used < u16::MAX,
    ensures
        ({
            let now = used_slot(size, next_used, used_ring, head);
            let u = now->Ok_0->0;
            let then = used_slot(size, u.new_used, used_ring, other);
            let v = then->Ok_0->0;
            &&& now is Ok && now->Ok_0 is Some && then is Ok && then->Ok_0 is Some
            &&& u.new_used == next_used + 1
            &&& u.span == u.element_offset + 8
            &&& 4 <= u.element_offset < 4 + size * 8
            &&& v.element_offset == if u.element_offset + 8 == 4 + size * 8 {
                4int
            } else {
                u.element_offset + 8
            }
            &&& next_used == 0 ==> u.element_offset == 4
        }),
{
    let n = size as int;
    let k = next_used as int % n;
    assert(0 <= k < n);
    assert((next_used + 1) % n == if k + 1 == n {
        0
    } else {
        k + 1
    }) by {
        vstd::arithmetic::div_mod::lemma_fundamental_div_mod(next_used as int, n);
        let q = next_used as int / n;
        if k + 1 == n {
            assert(next_used + 1 == n * (q + 1)) by (nonlinear_arith)
                requires
                    next_used as int == n * q + k,
                    k + 1 == n,
            ;
            vstd::arithmetic::div_mod::lemma_fundamental_div_mod_converse(
                next_used + 1,
                n,
                q + 1,
                0,
            );
        } else {
            vstd::arithmetic::div_mod::lemma_fundamental_div_mod_converse(
                next_used + 1,
                n,
                q,
                k + 1,
            );
        }
    }
}

} // verus!
