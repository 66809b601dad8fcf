//! Requests of the block device: headers, descriptors, and what is done about them.
use vstd::prelude::*;
use vstd::string::*;

use crate::bytes::get_le;
use crate::error::{invalid, Error, ErrorKind};
#[allow(unused_imports)]
use crate::error::Fault;

verus! {

/// The size of a sector in bytes.
pub const SECTOR_SIZE: u64 = 512;

/// The length of the serial number.
pub const SERIAL_LEN: usize = 20;

/// The largest number of descriptors in a chain.
pub const MAX_DATA_DESCRIPTORS: usize = 1024;

/// The type of a request that reads.
pub const VIRTIO_BLK_T_IN: u32 = 0;

/// The type of a request that writes.
pub const VIRTIO_BLK_T_OUT: u32 = 1;

/// The type of a request to make writes durable.
pub const VIRTIO_BLK_T_FLUSH: u32 = 4;

/// The type of a request for the serial number.
pub const VIRTIO_BLK_T_GET_ID: u32 = 8;

/// The bit of a type that old drivers set to ask for a barrier.
pub const VIRTIO_BLK_T_BARRIER: u32 = 0x8000_0000;

/// The status of a request that succeeded.
pub const VIRTIO_BLK_S_OK: u8 = 0;

/// The status of a request that failed.
pub const VIRTIO_BLK_S_IOERR: u8 = 1;

/// The status of a request of unknown type.
pub const VIRTIO_BLK_S_UNSUPP: u8 = 2;

/// What a request asks for.
#[derive(Clone, Copy, Debug, PartialEq, Eq, Structural)]
pub enum RequestKind {
    Read,
    Write,
    Flush,
    GetId,
    Unsupported,
}

/// The fields of a request's header.
#[derive(Clone, Copy, Debug, PartialEq, Eq, Structural)]
pub struct RequestHeader {
    pub kind: RequestKind,
    pub sector: u64,
}

/// A stretch of guest memory that belongs to a request.
#[derive(Clone, Copy, Debug, PartialEq, Eq, Structural)]
pub struct DescriptorMeta {
    pub address: u64,
    pub length: u32,
    pub writable: bool,
}

/// What has been done so far.
#[derive(Clone, Copy, Debug, PartialEq, Eq, Structural)]
pub struct Stats {
    pub reads: u64,
    pub writes: u64,
    pub flushes: u64,
    pub get_ids: u64,
    pub unsupported: u64,
    pub io_errors: u64,
    pub read_bytes: u64,
    pub write_bytes: u64,
}

/// The kind of request that a type stands for.
pub open spec fn kind_of(raw: nat) -> RequestKind {
    if raw == VIRTIO_BLK_T_IN {
        RequestKind::Read
    } else if raw == VIRTIO_BLK_T_OUT {
        RequestKind::Write
    } else if raw == VIRTIO_BLK_T_FLUSH {
        RequestKind::Flush
    } else if raw == VIRTIO_BLK_T_GET_ID {
        RequestKind::GetId
    } else {
        RequestKind::Unsupported
    }
}

/// The type of a request without the barrier bit.
pub open spec fn without_barrier(raw: nat) -> nat {
    raw % 0x8000_0000
}

/// The header that sixteen bytes hold.
pub open spec fn header_in(bytes: Seq<u8>) -> RequestHeader {
    RequestHeader {
        kind: kind_of(without_barrier(crate::bytes::le_value(bytes.subrange(0, 4)))),
        sector: crate::bytes::le_value(bytes.subrange(8, 16)) as u64,
    }
}

/// Reads the header of a request: the type and the sector, both with the lowest byte first. The
/// barrier bit of the type is ignored.
pub fn parse_header(bytes: &[u8; 16]) -> (header: RequestHeader)
    ensures
        header == header_in(bytes@),
{
    proof {
        crate::bytes::lemma_byte_ranges();
        crate::bytes::lemma_le_value_bound(bytes@.subrange(0, 4));
        crate::bytes::lemma_le_value_bound(bytes@.subrange(8, 16));
    }
    let raw: u32 = (get_le(bytes, 0, 4) % 0x8000_0000) as u32;
    let kind: RequestKind = if raw == VIRTIO_BLK_T_IN {
        RequestKind::Read
    } else if raw == VIRTIO_BLK_T_OUT {
        RequestKind::Write
    } else if raw == VIRTIO_BLK_T_FLUSH {
        RequestKind::Flush
    } else if raw == VIRTIO_BLK_T_GET_ID {
        RequestKind::GetId
    } else {
        RequestKind::Unsupported
    };
    RequestHeader { kind, sector: get_le(bytes, 8, 8) }
}

/// The barrier bit of a type changes nothing.
pub proof fn law_barrier_bit_is_ignored(raw: u32)
    requires
        raw < VIRTIO_BLK_T_BARRIER,
    ensures
        kind_of(without_barrier((raw + VIRTIO_BLK_T_BARRIER) as nat)) == kind_of(
            without_barrier(raw as nat),
        ),
        without_barrier(raw as nat) == raw,
{
}

/// The bits of a type without the barrier bit are its remainder.
pub proof fn law_barrier_bit_is_the_highest(raw: u32)
    ensures
        (raw & !VIRTIO_BLK_T_BARRIER) as nat == without_barrier(raw as nat),
{
    assert(raw & !0x8000_0000u32 == raw % 0x8000_0000u32) by (bit_vector);
}

/// Whether the driver is to be notified of the entries from `old` up to `new`: whether the entry
/// `event` is one of them, where numbers wrap around.
pub open spec fn in_interval(event: u16, new: u16, old: u16) -> bool {
    (event - old) % 0x1_0000 < (new - old) % 0x1_0000
}

/// Whether the driver is to be notified of the entries from `old` up to `new`.
pub fn virtio_need_event(event: u16, new: u16, old: u16) -> (yes: bool)
    ensures
        yes == in_interval(event, new, old),
{
    let behind: u16 = new.wrapping_sub(event).wrapping_sub(1);
    behind < new.wrapping_sub(old)
}

/// The driver is notified exactly when, counting from `old` up to `new` with wrap-around, the entry
/// `event` is met.
pub proof fn law_event_is_met_in_the_interval(event: u16, new: u16, old: u16)
    ensures
        in_interval(event, new, old) <==> exists|k: int|
            0 <= k < (new - old) % 0x1_0000 && #[trigger] ((old + k) % 0x1_0000) == event,
{
    let k = (event - old) % 0x1_0000;
    assert((old + k) % 0x1_0000 == event);
}

/// The descriptors between the header and the status.
pub open spec fn data_part(descriptors: Seq<DescriptorMeta>) -> Seq<DescriptorMeta> {
    descriptors.subrange(1, descriptors.len() - 1)
}

/// Whether a data descriptor may be written by the device exactly as the request needs it.
pub open spec fn direction_fits(kind: RequestKind, d: DescriptorMeta) -> bool {
    match kind {
        RequestKind::Read => d.writable,
        RequestKind::GetId => d.writable,
        RequestKind::Write => !d.writable,
        RequestKind::Flush => false,
        RequestKind::Unsupported => true,
    }
}

/// Whether all data descriptors fit the request.
pub open spec fn directions_fit(kind: RequestKind, data: Seq<DescriptorMeta>) -> bool {
    forall|i: int| 0 <= i < data.len() ==> direction_fits(kind, #[trigger] data[i])
}

/// Whether all data descriptors of a chain fit the request.
pub fn validate_data_direction(descriptors: &Vec<DescriptorMeta>, kind: RequestKind) -> (yes: bool)
    requires
        descriptors@.len() >= 2,
    ensures
        yes == directions_fit(kind, data_part(descriptors@)),
{
    let n: usize = descriptors.len();
    let mut i: usize = 1;
    while i < n - 1
        invariant
            1 <= i <= n - 1,
            n == descriptors@.len(),
            n >= 2,
            forall|k: int| 1 <= k < i ==> direction_fits(kind, #[trigger] descriptors@[k]),
        decreases n - 1 - i,
    {
        let d: DescriptorMeta = descriptors[i];
        let fits: bool = match kind {
            RequestKind::Read => d.writable,
            RequestKind::GetId => d.writable,
            RequestKind::Write => !d.writable,
            RequestKind::Flush => false,
            RequestKind::Unsupported => true,
        };
        if !fits {
            proof {
                let data = data_part(descriptors@);
                assert(data[i - 1] == d);
                assert(!direction_fits(kind, data[i - 1]));
            }
            return false;
        }
        i = i + 1;
    }
    proof {
        let data = data_part(descriptors@);
        assert forall|k: int| 0 <= k < data.len() implies direction_fits(kind, #[trigger] data[k]) by {
            assert(data[k] == descriptors@[k + 1]);
        }
    }
    true
}

/// The length of a list of descriptors in all.
pub open spec fn total_len(data: Seq<DescriptorMeta>) -> nat
    decreases data.len(),
{
    if data.len() == 0 {
        0
    } else {
        total_len(data.drop_last()) + data.last().length as nat
    }
}

/// The length of the data of a chain, where it can be told.
pub fn data_len(descriptors: &Vec<DescriptorMeta>) -> (len: Option<u64>)
    requires
        descriptors@.len() >= 2,
    ensures
        match len {
            Some(n) => n == total_len(data_part(descriptors@)),
            None => total_len(data_part(descriptors@)) > u64::MAX,
        },
{
    let n: usize = descriptors.len();
    let ghost data = data_part(descriptors@);
    let mut total: u64 = 0;
    let mut i: usize = 1;
    proof {
        assert(data.subrange(0, 0) =~= Seq::<DescriptorMeta>::empty());
    }
    while i < n - 1
        invariant
            1 <= i <= n - 1,
            n == descriptors@.len(),
            n >= 2,
            data == data_part(descriptors@),
            total == total_len(data.subrange(0, i - 1)),
        decreases n - 1 - i,
    {
        proof {
            assert(data.subrange(0, i as int).drop_last() =~= data.subrange(0, i - 1));
            assert(data.subrange(0, i as int).last() == descriptors@[i as int]);
        }
        total = match total.checked_add(descriptors[i].length as u64) {
            Some(t) => t,
            None => {
                proof {
                    lemma_total_len_grows(data, i as int);
                }
                return None;
            },
        };
        i = i + 1;
    }
    proof {
        assert(data.subrange(0, i - 1) =~= data);
    }
    Some(total)
}

proof fn lemma_total_len_grows(data: Seq<DescriptorMeta>, k: int)
    requires
        0 <= k <= data.len(),
    ensures
        total_len(data.subrange(0, k)) <= total_len(data),
    decreases data.len() - k,
{
    if k < data.len() {
        lemma_total_len_grows(data, k + 1);
        assert(data.subrange(0, k + 1).drop_last() =~= data.subrange(0, k));
    } else {
        assert(data.subrange(0, k) =~= data);
    }
}

/// Loads the descriptors of a chain, in order; whether there are at least two and no more than the
/// limit.
pub fn load_descriptors(chain: &Vec<DescriptorMeta>, descriptors: &mut Vec<DescriptorMeta>) -> (ok:
    bool)
    ensures
        ok == (2 <= chain@.len() <= MAX_DATA_DESCRIPTORS),
        final(descriptors)@ == chain@.subrange(
            0,
            if chain@.len() <= MAX_DATA_DESCRIPTORS {
                chain@.len() as int
            } else {
                MAX_DATA_DESCRIPTORS as int
            },
        ),
{
    descriptors.clear();
    let mut i: usize = 0;
    proof {
        assert(descriptors@ =~= chain@.subrange(0, 0));
    }
    while i < chain.len()
        invariant
            i <= chain@.len(),
            i <= MAX_DATA_DESCRIPTORS,
            descriptors@ == chain@.subrange(0, i as int),
        decreases chain@.len() - i,
    {
        if descriptors.len() == MAX_DATA_DESCRIPTORS {
            return false;
        }
        descriptors.push(chain[i]);
        proof {
            assert(descriptors@ =~= chain@.subrange(0, i + 1));
        }
        i = i + 1;
    }
    descriptors.len() >= 2
}

/// One stretch of guest memory and the byte of the volume that it begins at.
#[derive(Clone, Copy, Debug, PartialEq, Eq, Structural)]
pub struct Transfer {
    pub address: u64,
    pub length: u32,
    pub offset: u64,
}

/// One stretch of guest memory that takes a part of the serial number.
#[derive(Clone, Copy, Debug, PartialEq, Eq, Structural)]
pub struct IdPart {
    pub address: u64,
    pub start: usize,
    pub count: usize,
}

/// What is to be done for a request. Where the parts of the serial number are not `complete`, those
/// there are are filled before the request fails.
#[derive(Debug)]
pub enum Work {
    Read { transfers: Vec<Transfer>, len: u64 },
    Write { transfers: Vec<Transfer>, len: u64, flush: bool },
    Flush,
    GetId { parts: Vec<IdPart>, complete: bool },
}

/// The transfers of a list of data descriptors from `offset` on.
pub open spec fn transfers(data: Seq<DescriptorMeta>, offset: nat) -> Seq<Transfer> {
    Seq::new(
        data.len(),
        |i: int|
            Transfer {
                address: data[i].address,
                length: data[i].length,
                offset: (offset + total_len(data.subrange(0, i))) as u64,
            },
    )
}

/// The parts of the serial number that a list of data descriptors takes, once `copied` bytes of it
/// have been placed.
pub open spec fn id_parts(data: Seq<DescriptorMeta>, copied: nat) -> Seq<IdPart>
    decreases data.len(),
{
    if data.len() == 0 || copied >= 20 {
        Seq::empty()
    } else {
        let count = if data[0].length < 20 - copied {
            data[0].length as nat
        } else {
            (20 - copied) as nat
        };
        seq![
            IdPart { address: data[0].address, start: copied as usize, count: count as usize },
        ] + id_parts(data.drop_first(), copied + count)
    }
}

/// The fault on which a request with the given data is refused, if it is.
pub open spec fn request_fault(header: RequestHeader, data: Seq<DescriptorMeta>, capacity: u64) -> Option<
    Fault,
> {
    let len = total_len(data);
    let offset = header.sector * 512;
    let moves = header.kind == RequestKind::Read || header.kind == RequestKind::Write;
    if len > u64::MAX {
        Some(crate::error::bad_input("request length overflow"@))
    } else if offset > u64::MAX {
        Some(crate::error::bad_input("sector offset overflow"@))
    } else if moves && offset + len > u64::MAX {
        Some(crate::error::bad_input("request range overflow"@))
    } else if moves && offset + len > capacity {
        Some((ErrorKind::UnexpectedEof, "request exceeds volume capacity"@))
    } else {
        None
    }
}

/// Whether the work is what a request asks for.
pub open spec fn work_fits(
    work: Work,
    header: RequestHeader,
    data: Seq<DescriptorMeta>,
    writeback: bool,
) -> bool {
    match header.kind {
        RequestKind::Read => {
            &&& work matches Work::Read { transfers: t, len }
            &&& t@ == transfers(data, (header.sector * 512) as nat)
            &&& len == total_len(data)
        },
        RequestKind::Write => {
            &&& work matches Work::Write { transfers: t, len, flush }
            &&& t@ == transfers(data, (header.sector * 512) as nat)
            &&& len == total_len(data)
            &&& flush == !writeback
        },
        RequestKind::Flush => work == Work::Flush,
        RequestKind::GetId => {
            &&& work matches Work::GetId { parts, complete }
            &&& parts@ == id_parts(data, 0)
            &&& complete == (total_len(data) >= 20)
        },
        RequestKind::Unsupported => false,
    }
}

fn plan_transfers(descriptors: &Vec<DescriptorMeta>, offset: u64) -> (t: Vec<Transfer>)
    requires
        descriptors@.len() >= 2,
        offset + total_len(data_part(descriptors@)) <= u64::MAX,
    ensures
        t@ == transfers(data_part(descriptors@), offset as nat),
{
    let n: usize = descriptors.len();
    let ghost data = data_part(descriptors@);
    let mut t: Vec<Transfer> = Vec::new();
    let mut at: u64 = offset;
    let mut i: usize = 1;
    proof {
        assert(data.subrange(0, 0) =~= Seq::<DescriptorMeta>::empty());
    }
    while i < n - 1
        invariant
            1 <= i <= n - 1,
            n == descriptors@.len(),
            n >= 2,
            data == data_part(descriptors@),
            offset + total_len(data) <= u64::MAX,
            at == offset + total_len(data.subrange(0, i - 1)),
            t@.len() == i - 1,
            forall|k: int|
                0 <= k < t@.len() ==> #[trigger] t@[k] == transfers(data, offset as nat)[k],
        decreases n - 1 - i,
    {
        let d: DescriptorMeta = descriptors[i];
        proof {
            lemma_total_len_grows(data, i as int);
            assert(data.subrange(0, i as int).drop_last() =~= data.subrange(0, i - 1));
            assert(data.subrange(0, i as int).last() == d);
        }
        t.push(Transfer { address: d.address, length: d.length, offset: at });
        at = at + d.length as u64;
        i = i + 1;
    }
    proof {
        assert(t@ =~= transfers(data, offset as nat));
    }
    t
}

proof fn lemma_total_len_first(data: Seq<DescriptorMeta>)
    ensures
        total_len(data) == if data.len() == 0 {
            0
        } else {
            data[0].length as nat + total_len(data.drop_first())
        },
    decreases data.len(),
{
    if data.len() == 1 {
        assert(data.drop_last() =~= Seq::<DescriptorMeta>::empty());
        assert(data.drop_first() =~= Seq::<DescriptorMeta>::empty());
    } else if data.len() > 1 {
        lemma_total_len_first(data.drop_last());
        assert(data.drop_last().drop_first() =~= data.drop_first().drop_last());
    }
}

fn plan_id(descriptors: &Vec<DescriptorMeta>) -> (r: (Vec<IdPart>, bool))
    requires
        descriptors@.len() >= 2,
    ensures
        ({
            let (parts, complete) = r;
            &&& parts@ == id_parts(data_part(descriptors@), 0)
            &&& complete == (total_len(data_part(descriptors@)) >= 20)
        }),
{
    let n: usize = descriptors.len();
    let ghost data = data_part(descriptors@);
    let mut parts: Vec<IdPart> = Vec::new();
    let mut copied: usize = 0;
    let mut i: usize = 1;
    proof {
        assert(data.skip(0) =~= data);
        assert(parts@ + id_parts(data, 0) =~= id_parts(data, 0));
    }
    while i < n - 1 && copied < SERIAL_LEN
        invariant
            1 <= i <= n - 1,
            n == descriptors@.len(),
            n >= 2,
            data == data_part(descriptors@),
            copied <= 20,
            parts@ + id_parts(data.skip(i - 1), copied as nat) == id_parts(data, 0),
            copied < 20 ==> copied + total_len(data.skip(i - 1)) == total_len(data),
            copied == 20 ==> total_len(data) >= 20,
        decreases n - 1 - i,
    {
        let d: DescriptorMeta = descriptors[i];
        let left: usize = SERIAL_LEN - copied;
        let count: usize = if (d.length as u64) < left as u64 {
            d.length as usize
        } else {
            left
        };
        let ghost rest = data.skip(i - 1);
        let ghost placed = parts@;
        proof {
            assert(rest[0] == d);
            assert(rest.drop_first() =~= data.skip(i as int));
            lemma_total_len_first(rest);
        }
        parts.push(IdPart { address: d.address, start: copied, count });
        proof {
            assert(parts@ + id_parts(data.skip(i as int), (copied + count) as nat) =~= placed
                + id_parts(rest, copied as nat));
        }
        copied = copied + count;
        i = i + 1;
    }
    proof {
        if i == n - 1 {
            assert(data.skip(i - 1) =~= Seq::<DescriptorMeta>::empty());
        }
        assert(parts@ + id_parts(data.skip(i - 1), copied as nat) =~= parts@);
    }
    (parts, copied == SERIAL_LEN)
}

/// What is to be done for a request whose kind is known and whose descriptors have been loaded.
pub fn execute(
    descriptors: &Vec<DescriptorMeta>,
    header: RequestHeader,
    capacity_bytes: u64,
    writeback: bool,
) -> (r: Result<Work, Error>)
    requires
        descriptors@.len() >= 2,
        header.kind != RequestKind::Unsupported,
    ensures
        match r {
            Ok(work) => {
                &&& request_fault(header, data_part(descriptors@), capacity_bytes) is None
                &&& work_fits(work, header, data_part(descriptors@), writeback)
            },
            Err(e) => request_fault(header, data_part(descriptors@), capacity_bytes) == Some(e@),
        },
{
    let len: u64 = match data_len(descriptors) {
        Some(len) => len,
        None => {
            return Err(invalid("request length overflow"));
        },
    };
    let offset: u64 = match header.sector.checked_mul(SECTOR_SIZE) {
        Some(offset) => offset,
        None => {
            return Err(invalid("sector offset overflow"));
        },
    };
    match header.kind {
        RequestKind::Flush => Ok(Work::Flush),
        RequestKind::GetId => {
            let (parts, complete) = plan_id(descriptors);
            Ok(Work::GetId { parts, complete })
        },
        _ => {
            let end: u64 = match offset.checked_add(len) {
                Some(end) => end,
                None => {
                    return Err(invalid("request range overflow"));
                },
            };
            if end > capacity_bytes {
                return Err(
                    Error::of(ErrorKind::UnexpectedEof, "request exceeds volume capacity"),
                );
            }
            let t: Vec<Transfer> = plan_transfers(descriptors, offset);
            if header.kind == RequestKind::Read {
                Ok(Work::Read { transfers: t, len })
            } else {
                Ok(Work::Write { transfers: t, len, flush: !writeback })
            }
        },
    }
}

/// Fails a request for the serial number whose parts cannot hold all of it.
pub fn check_id(complete: bool) -> (r: Result<(), Error>)
    ensures
        match r {
            Ok(_) => complete,
            Err(e) => !complete && e@ == crate::error::bad_input(
                "GET_ID buffer is shorter than 20 bytes"@,
            ),
        },
{
    if complete {
        Ok(())
    } else {
        Err(invalid("GET_ID buffer is shorter than 20 bytes"))
    }
}

impl Stats {
    /// Nothing done yet.
    pub fn new() -> (s: Stats)
        ensures
            s == no_stats(),
    {
        Stats {
            reads: 0,
            writes: 0,
            flushes: 0,
            get_ids: 0,
            unsupported: 0,
            io_errors: 0,
            read_bytes: 0,
            write_bytes: 0,
        }
    }

    /// Whether each count of requests can grow by one, and each count of bytes by `len`.
    pub open spec fn has_room(&self, len: int) -> bool {
        &&& self.reads < u64::MAX
        &&& self.writes < u64::MAX
        &&& self.flushes < u64::MAX
        &&& self.get_ids < u64::MAX
        &&& self.unsupported < u64::MAX
        &&& self.io_errors < u64::MAX
        &&& self.read_bytes + len <= u64::MAX
        &&& self.write_bytes + len <= u64::MAX
    }
}

/// Nothing done yet.
pub open spec fn no_stats() -> Stats {
    Stats {
        reads: 0,
        writes: 0,
        flushes: 0,
        get_ids: 0,
        unsupported: 0,
        io_errors: 0,
        read_bytes: 0,
        write_bytes: 0,
    }
}

/// How a chain is treated.
#[derive(Clone, Copy, Debug, PartialEq, Eq, Structural)]
pub enum Route {
    /// The type of the request is unknown.
    Unsupported,
    /// The chain has the wrong form.
    Refuse,
    /// The request is carried out: see [`execute`].
    Execute,
}

/// Whether a chain has a header that can be read and a status that can be written.
pub open spec fn well_shaped(descriptors: Seq<DescriptorMeta>) -> bool {
    &&& !descriptors[0].writable
    &&& descriptors[0].length >= 16
    &&& descriptors.last().writable
    &&& descriptors.last().length > 0
}

/// Whether a chain has a header that can be read and a status that can be written. One that has not
/// is counted as an error and uses nothing.
pub fn process_chain(descriptors: &Vec<DescriptorMeta>, stats: &mut Stats) -> (ok: bool)
    requires
        descriptors@.len() >= 2,
        old(stats).io_errors < u64::MAX,
    ensures
        ok == well_shaped(descriptors@),
        *final(stats) == if ok {
            *old(stats)
        } else {
            Stats { io_errors: (old(stats).io_errors + 1) as u64, ..*old(stats) }
        },
{
    let first: DescriptorMeta = descriptors[0];
    let last: DescriptorMeta = descriptors[descriptors.len() - 1];
    if first.writable || first.length < 16 || !last.writable || last.length == 0 {
        stats.io_errors = stats.io_errors + 1;
        return false;
    }
    true
}

/// How a chain with the given header is treated.
pub open spec fn route_of(header: RequestHeader, descriptors: Seq<DescriptorMeta>) -> Route {
    match header.kind {
        RequestKind::Unsupported => Route::Unsupported,
        RequestKind::Flush => if descriptors.len() == 2 {
            Route::Execute
        } else {
            Route::Refuse
        },
        _ => if descriptors.len() >= 3 && directions_fit(header.kind, data_part(descriptors)) {
            Route::Execute
        } else {
            Route::Refuse
        },
    }
}

/// How a chain with the given header is treated.
pub fn route_request(header: RequestHeader, descriptors: &Vec<DescriptorMeta>) -> (r: Route)
    requires
        descriptors@.len() >= 2,
    ensures
        r == route_of(header, descriptors@),
{
    if header.kind == RequestKind::Unsupported {
        Route::Unsupported
    } else if header.kind == RequestKind::Flush {
        if descriptors.len() == 2 {
            Route::Execute
        } else {
            Route::Refuse
        }
    } else if descriptors.len() < 3 || !validate_data_direction(descriptors, header.kind) {
        Route::Refuse
    } else {
        Route::Execute
    }
}

/// What has become of a request.
#[derive(Clone, Copy, Debug, PartialEq, Eq, Structural)]
pub enum Outcome {
    Unsupported,
    Failed,
    /// It was carried out and moved that many bytes.
    Done { kind: RequestKind, len: u64 },
}

/// The status of a request, and how many bytes of data were written to the guest.
pub open spec fn status_of(outcome: Outcome) -> (u8, u32) {
    match outcome {
        Outcome::Unsupported => (VIRTIO_BLK_S_UNSUPP, 0),
        Outcome::Failed => (VIRTIO_BLK_S_IOERR, 0),
        Outcome::Done { kind, len } => (
            VIRTIO_BLK_S_OK,
            match kind {
                RequestKind::Read => if len > u32::MAX {
                    u32::MAX
                } else {
                    len as u32
                },
                RequestKind::GetId => 20,
                _ => 0,
            },
        ),
    }
}

/// `stats` after a request.
pub open spec fn counted(stats: Stats, outcome: Outcome) -> Stats {
    match outcome {
        Outcome::Unsupported => Stats { unsupported: (stats.unsupported + 1) as u64, ..stats },
        Outcome::Failed => Stats { io_errors: (stats.io_errors + 1) as u64, ..stats },
        Outcome::Done { kind, len } => match kind {
            RequestKind::Read => Stats {
                reads: (stats.reads + 1) as u64,
                read_bytes: (stats.read_bytes + len) as u64,
                ..stats
            },
            RequestKind::Write => Stats {
                writes: (stats.writes + 1) as u64,
                write_bytes: (stats.write_bytes + len) as u64,
                ..stats
            },
            RequestKind::Flush => Stats { flushes: (stats.flushes + 1) as u64, ..stats },
            RequestKind::GetId => Stats { get_ids: (stats.get_ids + 1) as u64, ..stats },
            RequestKind::Unsupported => stats,
        },
    }
}

/// Counts a request, and gives its status and how many bytes of data were written to the guest.
pub fn process_loaded_chain(outcome: Outcome, stats: &mut Stats) -> (r: (u8, u32))
    requires
        old(stats).has_room(
            match outcome {
                Outcome::Done { len, .. } => len as int,
                _ => 0,
            },
        ),
    ensures
        r == status_of(outcome),
        *final(stats) == counted(*old(stats), outcome),
{
    match outcome {
        Outcome::Unsupported => {
            stats.unsupported = stats.unsupported + 1;
            (VIRTIO_BLK_S_UNSUPP, 0)
        },
        Outcome::Failed => {
            stats.io_errors = stats.io_errors + 1;
            (VIRTIO_BLK_S_IOERR, 0)
        },
        Outcome::Done { kind, len } => match kind {
            RequestKind::Read => {
                stats.reads = stats.reads + 1;
                stats.read_bytes = stats.read_bytes + len;
                (
                    VIRTIO_BLK_S_OK,
                    if len > u32::MAX as u64 {
                        u32::MAX
                    } else {
                        len as u32
                    },
                )
            },
            RequestKind::Write => {
                stats.writes = stats.writes + 1;
                stats.write_bytes = stats.write_bytes + len;
                (VIRTIO_BLK_S_OK, 0)
            },
            RequestKind::Flush => {
                stats.flushes = stats.flushes + 1;
                (VIRTIO_BLK_S_OK, 0)
            },
            RequestKind::GetId => {
                stats.get_ids = stats.get_ids + 1;
                (VIRTIO_BLK_S_OK, SERIAL_LEN as u32)
            },
            RequestKind::Unsupported => (VIRTIO_BLK_S_OK, 0),
        },
    }
}

/// How many bytes a chain has used, the status included; none where the status could not be
/// written, which is counted as an error.
pub fn used_length(used_data: u32, status_written: bool, stats: &mut Stats) -> (used: u32)
    requires
        old(stats).io_errors < u64::MAX,
    ensures
        used == if !status_written {
            0
        } else if used_data == u32::MAX {
            u32::MAX
        } else {
            (used_data + 1) as u32
        },
        *final(stats) == if status_written {
            *old(stats)
        } else {
            Stats { io_errors: (old(stats).io_errors + 1) as u64, ..*old(stats) }
        },
{
    if !status_written {
        stats.io_errors = stats.io_errors + 1;
        return 0;
    }
    used_data.saturating_add(1)
}

/// The status of a read or a write that was completed asynchronously, and its length in the used ring: the
/// status byte, and the data of a read.
pub open spec fn retired(kind: RequestKind, length: u32, success: bool) -> (u8, u32) {
    if !success {
        (VIRTIO_BLK_S_IOERR, 0u32)
    } else if kind == RequestKind::Write {
        (VIRTIO_BLK_S_OK, 1u32)
    } else if length == u32::MAX {
        (VIRTIO_BLK_S_OK, u32::MAX)
    } else {
        (VIRTIO_BLK_S_OK, (length + 1) as u32)
    }
}

/// What a request that went through an asynchronous lane uses, and its status. A read uses its
/// data and the status, a write the status alone, a failure nothing.
pub fn retire(kind: RequestKind, length: u32, success: bool, stats: &mut Stats) -> (r: (u8, u32))
    requires
        kind == RequestKind::Read || kind == RequestKind::Write,
        old(stats).has_room(length as int),
    ensures
        *final(stats) == counted(
            *old(stats),
            if success {
                Outcome::Done { kind, len: length as u64 }
            } else {
                Outcome::Failed
            },
        ),
        r == retired(kind, length, success),
{
    if !success {
        stats.io_errors = stats.io_errors + 1;
        return (VIRTIO_BLK_S_IOERR, 0);
    }
    if kind == RequestKind::Write {
        stats.writes = stats.writes + 1;
        stats.write_bytes = stats.write_bytes + length as u64;
        return (VIRTIO_BLK_S_OK, 1);
    }
    stats.reads = stats.reads + 1;
    stats.read_bytes = stats.read_bytes + length as u64;
    (VIRTIO_BLK_S_OK, length.saturating_add(1))
}

/// The transfers of a request that is carried out lie within the volume and follow each other
/// without a gap.
pub proof fn law_transfers_stay_in_the_volume(
    header: RequestHeader,
    data: Seq<DescriptorMeta>,
    capacity: u64,
    i: int,
)
    requires
        header.kind == RequestKind::Read || header.kind == RequestKind::Write,
        request_fault(header, data, capacity) is None,
        0 <= i < data.len(),
    ensures
        ({
            let t = transfers(data, (header.sector * 512) as nat);
            &&& t[i].offset + t[i].length <= capacity
            &&& t[0].offset == header.sector * 512
            &&& i + 1 < data.len() ==> t[i + 1].offset == t[i].offset + t[i].length
        }),
{
    let t = transfers(data, (header.sector * 512) as nat);
    lemma_total_len_grows(data, i + 1);
    assert(data.subrange(0, i + 1).drop_last() =~= data.subrange(0, i));
    assert(data.subrange(0, 0) =~= Seq::<DescriptorMeta>::empty());
    if i + 1 < data.len() {
        assert(t[i + 1].offset == header.sector * 512 + total_len(data.subrange(0, i + 1)));
    }
}

/// The header of a request holds its type and its sector in little-endian order; the highest bit of the
/// type does not count.
pub proof fn law_headers_are_little_endian(bytes: Seq<u8>)
    requires
        bytes.len() == 16,
    ensures
        ({
            let h = header_in(bytes);
            let raw = bytes[0] + bytes[1] * 0x100 + bytes[2] * 0x1_0000 + (bytes[3] % 128)
                * 0x100_0000;
            &&& h.sector == bytes[8] + bytes[9] * 0x100 + bytes[10] * 0x1_0000 + bytes[11]
                * 0x100_0000 + bytes[12] * 0x1_0000_0000 + bytes[13] * 0x100_0000_0000 + bytes[14]
                * 0x1_0000_0000_0000 + bytes[15] * 0x100_0000_0000_0000
            &&& (h.kind == RequestKind::Read) == (raw == 0)
            &&& (h.kind == RequestKind::Write) == (raw == 1)
            &&& (h.kind == RequestKind::Flush) == (raw == 4)
            &&& (h.kind == RequestKind::GetId) == (raw == 8)
        }),
{
    let word = bytes.subrange(0, 4);
    let raw = bytes[0] + bytes[1] * 0x100 + bytes[2] * 0x1_0000 + (bytes[3] % 128) * 0x100_0000;
    crate::bytes::law_little_endian_values(word);
    assert(without_barrier(crate::bytes::le_value(word)) == raw) by {
        let q: int = bytes[3] as int / 128;
        let v: int = crate::bytes::le_value(word) as int;
        assert(v == q * 0x8000_0000 + raw);
        assert((q * 0x8000_0000 + raw) % 0x8000_0000 == raw) by (nonlinear_arith)
            requires
                0 <= raw < 0x8000_0000,
        ;
    }
    crate::bytes::law_little_endian_values(bytes.subrange(8, 16));
}

/// The data of a read or a write lie in the volume one descriptor behind the other, and the first byte is
/// the first of the sector that the header names: its sector times 512. The last byte is followed by
/// the byte that is as many further as the request is long.
pub proof fn law_data_lie_at_their_sector(
    header: RequestHeader,
    data: Seq<DescriptorMeta>,
    capacity: u64,
    writeback: bool,
    work: Work,
)
    requires
        request_fault(header, data, capacity) is None,
        work_fits(work, header, data, writeback),
    ensures
        match work {
            Work::Write { transfers: t, len, flush } => {
                &&& header.kind == RequestKind::Write
                &&& t@.len() == data.len()
                &&& t@.len() > 0 ==> t@[0].offset == header.sector * 512
                &&& forall|i: int|
                    0 <= i < t@.len() ==> (#[trigger] t@[i]).address == data[i].address
                        && t@[i].length == data[i].length
                &&& forall|i: int, j: int|
                    0 <= i && j == i + 1 && j < t@.len() ==> (#[trigger] t@[j]).offset == (
                    #[trigger] t@[i]).offset + t@[i].length
                &&& t@.len() > 0 ==> t@.last().offset + t@.last().length == header.sector * 512
                    + len
                &&& t@.len() == 0 ==> len == 0
                &&& header.sector * 512 + len <= capacity
                &&& flush == !writeback
            },
            Work::Read { transfers: t, len } => {
                &&& header.kind == RequestKind::Read
                &&& t@.len() == data.len()
                &&& t@.len() > 0 ==> t@[0].offset == header.sector * 512
                &&& forall|i: int|
                    0 <= i < t@.len() ==> (#[trigger] t@[i]).address == data[i].address
                        && t@[i].length == data[i].length
                &&& forall|i: int, j: int|
                    0 <= i && j == i + 1 && j < t@.len() ==> (#[trigger] t@[j]).offset == (
                    #[trigger] t@[i]).offset + t@[i].length
                &&& t@.len() > 0 ==> t@.last().offset + t@.last().length == header.sector * 512
                    + len
                &&& t@.len() == 0 ==> len == 0
                &&& header.sector * 512 + len <= capacity
            },
            Work::Flush => header.kind == RequestKind::Flush,
            Work::GetId { .. } => header.kind == RequestKind::GetId,
        },
{
    let start = (header.sector * 512) as nat;
    if header.kind == RequestKind::Read || header.kind == RequestKind::Write {
        lemma_transfers_run(data, start);
    }
}

proof fn lemma_total_prefix(data: Seq<DescriptorMeta>, i: int)
    requires
        0 <= i <= data.len(),
    ensures
        total_len(data.subrange(0, i)) <= total_len(data),
        i < data.len() ==> total_len(data.subrange(0, i + 1)) == total_len(data.subrange(0, i))
            + data[i].length,
    decreases data.len(),
{
    if i < data.len() {
        assert(data.subrange(0, i + 1).drop_last() =~= data.subrange(0, i));
        assert(data.drop_last().subrange(0, i) =~= data.subrange(0, i));
        lemma_total_prefix(data.drop_last(), i);
    } else {
        assert(data.subrange(0, i) =~= data);
    }
}

proof fn lemma_transfers_run(data: Seq<DescriptorMeta>, start: nat)
    requires
        start + total_len(data) <= u64::MAX,
    ensures
        ({
            let t = transfers(data, start);
            &&& t.len() == data.len()
            &&& t.len() > 0 ==> t[0].offset == start
            &&& forall|i: int, j: int|
                0 <= i && j == i + 1 && j < t.len() ==> (#[trigger] t[j]).offset == (
                #[trigger] t[i]).offset + t[i].length
            &&& t.len() > 0 ==> t.last().offset + t.last().length == start + total_len(data)
            &&& t.len() == 0 ==> total_len(data) == 0
        }),
{
    let t = transfers(data, start);
    assert(data.subrange(0, 0) =~= Seq::<DescriptorMeta>::empty());
    assert forall|i: int, j: int| 0 <= i && j == i + 1 && j < t.len() implies (#[trigger] t[j]).offset
        == (#[trigger] t[i]).offset + t[i].length by {
        lemma_total_prefix(data, i);
        lemma_total_prefix(data, j);
    }
    if t.len() > 0 {
        lemma_total_prefix(data, data.len() - 1);
        lemma_total_prefix(data, data.len() as int);
        assert(data.subrange(0, data.len() as int) =~= data);
    }
}

/// What is written under a sector is read back under it: a read and a write of the same sector with the
/// same lengths go to the same bytes of the volume, piece by piece.
pub proof fn law_reads_find_what_was_written(
    sector: u64,
    written: Seq<DescriptorMeta>,
    read: Seq<DescriptorMeta>,
    capacity: u64,
    writeback: bool,
    write: Work,
    back: Work,
)
    requires
        request_fault(
            RequestHeader { kind: RequestKind::Write, sector },
            written,
            capacity,
        ) is None,
        work_fits(
            write,
            RequestHeader { kind: RequestKind::Write, sector },
            written,
            writeback,
        ),
        request_fault(RequestHeader { kind: RequestKind::Read, sector }, read, capacity) is None,
        work_fits(back, RequestHeader { kind: RequestKind::Read, sector }, read, writeback),
        written.len() == read.len(),
        forall|i: int| 0 <= i < read.len() ==> (#[trigger] read[i]).length == written[i].length,
    ensures
        write is Write,
        back is Read,
        forall|i: int|
            0 <= i < read.len() ==> (#[trigger] back->Read_transfers@[i]).offset
                == write->Write_transfers@[i].offset && back->Read_transfers@[i].length
                == write->Write_transfers@[i].length,
{
    let start = (sector * 512) as nat;
    assert forall|i: int| 0 <= i < read.len() implies (#[trigger] back->Read_transfers@[i]).offset
        == write->Write_transfers@[i].offset && back->Read_transfers@[i].length
        == write->Write_transfers@[i].length by {
        lemma_same_lengths(read.subrange(0, i), written.subrange(0, i));
    }
}

proof fn lemma_same_lengths(a: Seq<DescriptorMeta>, b: Seq<DescriptorMeta>)
    requires
        a.len() == b.len(),
        forall|i: int| 0 <= i < a.len() ==> (#[trigger] a[i]).length == b[i].length,
    ensures
        total_len(a) == total_len(b),
    decreases a.len(),
{
    if a.len() > 0 {
        assert forall|i: int| 0 <= i < a.len() - 1 implies (#[trigger] a.drop_last()[i]).length
            == b.drop_last()[i].length by {
            assert(a[i].length == b[i].length);
        }
        lemma_same_lengths(a.drop_last(), b.drop_last());
    }
}

/// The serial number is handed out in order: each descriptor gets the bytes that follow those of the one
/// before it, as many as it has room for, until all twenty are out.
pub proof fn law_the_serial_is_handed_out_in_order(
    header: RequestHeader,
    data: Seq<DescriptorMeta>,
    writeback: bool,
    work: Work,
)
    requires
        header.kind == RequestKind::GetId,
        work_fits(work, header, data, writeback),
    ensures
        work is GetId,
        ({
            let parts = work->parts@;
            &&& parts.len() <= data.len()
            &&& parts.len() > 0 ==> parts[0].start == 0
            &&& data.len() > 0 ==> parts.len() > 0
            &&& forall|i: int|
                0 <= i < parts.len() ==> (#[trigger] parts[i]).address == data[i].address
                    && parts[i].start < 20 && parts[i].start + parts[i].count <= 20 && (
                parts[i].count == data[i].length || (parts[i].count < data[i].length
                    && parts[i].start + parts[i].count == 20))
            &&& forall|i: int, j: int|
                0 <= i && j == i + 1 && j < parts.len() ==> (#[trigger] parts[j]).start == (
                #[trigger] parts[i]).start + parts[i].count
            &&& parts.len() < data.len() ==> parts.last().start + parts.last().count == 20
            &&& work->complete == (parts.len() > 0 && parts.last().start + parts.last().count == 20)
        }),
{
    lemma_id_parts(data, 0);
}

proof fn lemma_id_parts(data: Seq<DescriptorMeta>, copied: nat)
    requires
        copied < 20,
    ensures
        ({
            let parts = id_parts(data, copied);
            &&& parts.len() <= data.len()
            &&& parts.len() > 0 ==> parts[0].start == copied
            &&& data.len() > 0 ==> parts.len() > 0
            &&& forall|i: int|
                0 <= i < parts.len() ==> (#[trigger] parts[i]).address == data[i].address
                    && parts[i].start < 20 && parts[i].start + parts[i].count <= 20 && (
                parts[i].count == data[i].length || (parts[i].count < data[i].length
                    && parts[i].start + parts[i].count == 20))
            &&& forall|i: int, j: int|
                0 <= i && j == i + 1 && j < parts.len() ==> (#[trigger] parts[j]).start == (
                #[trigger] parts[i]).start + parts[i].count
            &&& parts.len() < data.len() ==> parts.last().start + parts.last().count == 20
            &&& (copied + total_len(data) >= 20) == (parts.len() > 0 && parts.last().start
                + parts.last().count == 20)
        }),
    decreases data.len(),
{
    if data.len() > 0 {
        let count = if data[0].length < 20 - copied {
            data[0].length as nat
        } else {
            (20 - copied) as nat
        };
        lemma_total_first(data);
        let rest = id_parts(data.drop_first(), copied + count);
        let parts = id_parts(data, copied);
        assert(parts.len() == rest.len() + 1);
        assert forall|i: int| 0 < i < parts.len() implies #[trigger] parts[i] == rest[i - 1] by {}
        if copied + count < 20 {
            lemma_id_parts(data.drop_first(), copied + count);
            assert forall|i: int| 0 < i < data.len() implies #[trigger] data[i]
                == data.drop_first()[i - 1] by {}
        } else {
            assert(rest.len() == 0);
        }
    }
}

proof fn lemma_total_first(data: Seq<DescriptorMeta>)
    requires
        data.len() > 0,
    ensures
        total_len(data) == data[0].length + total_len(data.drop_first()),
    decreases data.len(),
{
    if data.len() > 1 {
        lemma_total_first(data.drop_last());
        assert(data.drop_last().drop_first() =~= data.drop_first().drop_last());
        assert(data.drop_first().last() == data.last());
    } else {
        assert(data.drop_last() =~= Seq::<DescriptorMeta>::empty());
        assert(data.drop_first() =~= Seq::<DescriptorMeta>::empty());
    }
}

/// A request is carried out only if the device may use its memory as the request needs it: it writes
/// into what it reads the volume to, and reads what it writes to the volume. Nothing else is asked
/// of a read or a write of at least one piece.
pub proof fn law_requests_use_memory_as_they_may(header: RequestHeader, descriptors: Seq<DescriptorMeta>)
    requires
        descriptors.len() >= 2,
    ensures
        ({
            let r = route_of(header, descriptors);
            let n = descriptors.len();
            &&& header.kind == RequestKind::Read || header.kind == RequestKind::GetId ==> ((r
                is Execute) == (n >= 3 && forall|i: int|
                0 < i < n - 1 ==> (#[trigger] descriptors[i]).writable))
            &&& header.kind == RequestKind::Write ==> ((r is Execute) == (n >= 3 && forall|i: int|
                0 < i < n - 1 ==> !(#[trigger] descriptors[i]).writable))
            &&& header.kind == RequestKind::Flush ==> ((r is Execute) == (n == 2))
            &&& (r is Unsupported) == (header.kind == RequestKind::Unsupported)
        }),
{
    let data = data_part(descriptors);
    let n = descriptors.len();
    assert forall|i: int| 0 <= i < data.len() implies #[trigger] data[i] == descriptors[i + 1] by {}
    assert forall|i: int| 0 < i < n - 1 implies #[trigger] descriptors[i] == data[i - 1] by {}
}

/// What the driver is told and what is counted of a request: success, failure or that it is not
/// supported, in this order 0, 1 and 2; a read says how many bytes it wrote into memory, and every request
/// counts once.
pub proof fn law_every_request_counts_once(stats: Stats, outcome: Outcome)
    requires
        stats.has_room(
            match outcome {
                Outcome::Done { len, .. } => len as int,
                _ => 0,
            },
        ),
    ensures
        ({
            let after = counted(stats, outcome);
            let (status, used) = status_of(outcome);
            &&& outcome is Unsupported ==> status == 2 && used == 0 && after.unsupported
                == stats.unsupported + 1
            &&& outcome is Failed ==> status == 1 && used == 0 && after.io_errors == stats.io_errors
                + 1
            &&& outcome matches Outcome::Done { kind, len } ==> {
                &&& status == 0
                &&& kind == RequestKind::Read ==> after.reads == stats.reads + 1
                    && after.read_bytes == stats.read_bytes + len && (len <= u32::MAX ==> used
                    == len)
                &&& kind == RequestKind::Write ==> after.writes == stats.writes + 1
                    && after.write_bytes == stats.write_bytes + len && used == 0
                &&& kind == RequestKind::Flush ==> after.flushes == stats.flushes + 1 && used == 0
                &&& kind == RequestKind::GetId ==> after.get_ids == stats.get_ids + 1 && used == 20
            }
            &&& !(outcome matches Outcome::Done { kind, .. } && kind == RequestKind::Unsupported)
                ==> after.reads + after.writes + after.flushes + after.get_ids + after.unsupported
                + after.io_errors == stats.reads + stats.writes + stats.flushes + stats.get_ids
                + stats.unsupported + stats.io_errors + 1
            &&& after.read_bytes + after.write_bytes <= stats.read_bytes + stats.write_bytes
                + match outcome {
                Outcome::Done { len, .. } => len as int,
                _ => 0,
            }
        }),
{
}

/// A request that leaves its lane tells the driver one byte more than it has read into memory, or one
/// where it has written the volume, and nothing where it failed.
pub proof fn law_retired_requests_tell_their_length(kind: RequestKind, length: u32, success: bool)
    requires
        kind == RequestKind::Read || kind == RequestKind::Write,
    ensures
        !success ==> retired(kind, length, success) == (1u8, 0u32),
        success ==> retired(kind, length, success).0 == 0,
        success && kind == RequestKind::Write ==> retired(kind, length, success).1 == 1,
        success && kind == RequestKind::Read && length < u32::MAX ==> retired(
            kind,
            length,
            success,
        ).1 == length + 1,
{
}

} // verus!
