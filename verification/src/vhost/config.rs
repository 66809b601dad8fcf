//! The configuration space and the features of the block device.
use vstd::prelude::*;
use vstd::string::*;

use crate::bytes::{copy_range, filled, put_le};
use crate::vhost::request::{Stats, SECTOR_SIZE};

verus! {

/// The length of the configuration space.
pub const CONFIG_LEN: usize = 60;

/// Where the configuration space says whether writes may be held back.
pub const CONFIG_WCE_OFFSET: usize = 32;

/// The size of a block.
pub const BLOCK_SIZE: u32 = 512;

/// The feature that the number of segments is limited.
pub const FEATURE_SEG_MAX: u64 = 0x4;

/// The feature that the device cannot be written.
pub const FEATURE_RO: u64 = 0x20;

/// The feature that the size of a block is known.
pub const FEATURE_BLK_SIZE: u64 = 0x40;

/// The feature that writes can be made durable on request.
pub const FEATURE_FLUSH: u64 = 0x200;

/// The feature that the driver may choose whether writes are held back.
pub const FEATURE_CONFIG_WCE: u64 = 0x800;

/// The feature that the device has several queues.
pub const FEATURE_MQ: u64 = 0x1000;

/// The feature that notifications go by entry numbers.
pub const FEATURE_EVENT_IDX: u64 = 0x2000_0000;

/// The feature that protocol features can be negotiated.
pub const FEATURE_PROTOCOL: u64 = 0x4000_0000;

/// The feature that the device follows version one of the standard.
pub const FEATURE_VERSION_1: u64 = 0x1_0000_0000;

/// What the driver sees of the device.
#[derive(Debug)]
pub struct DeviceConfig {
    pub bytes: Vec<u8>,
    pub acknowledged: u64,
    pub writeback: bool,
}

/// The configuration space of a new device.
pub open spec fn initial_config(capacity: u64, queues: nat, queue_size: nat) -> Seq<u8> {
    let s = Seq::new(60, |i: int| 0u8);
    let s = crate::bytes::splice(s, 0, crate::bytes::le_bytes(capacity as nat / 512, 8));
    let s = crate::bytes::splice(s, 12, crate::bytes::le_bytes((queue_size - 2) as nat, 4));
    let s = crate::bytes::splice(s, 20, crate::bytes::le_bytes(512, 4));
    let s = crate::bytes::splice(s, 28, crate::bytes::le_bytes(1, 4));
    let s = s.update(32, 1);
    crate::bytes::splice(s, 34, crate::bytes::le_bytes(queues, 2))
}

/// Whether writes may be held back: where the driver may choose, as it chose; else where it can ask
/// for durability.
pub open spec fn holds_back(acknowledged: u64, config: Seq<u8>) -> bool {
    if acknowledged & FEATURE_CONFIG_WCE != 0 {
        config[32] != 0
    } else {
        acknowledged & FEATURE_FLUSH != 0
    }
}

impl DeviceConfig {
    /// Whether the configuration space has its length.
    pub open spec fn wf(&self) -> bool {
        self.bytes@.len() == 60
    }

    /// The configuration of a device of `capacity` bytes.
    pub fn new(capacity: u64, queues: usize, queue_size: usize) -> (c: DeviceConfig)
        requires
            queues <= 64,
            queue_size >= 2,
        ensures
            c.wf(),
            c.bytes@ == initial_config(capacity, queues as nat, queue_size as nat),
            c.acknowledged == 0,
            c.writeback,
    {
        let mut bytes: Vec<u8> = filled(0, CONFIG_LEN);
        proof {
            crate::bytes::lemma_byte_ranges();
            assert(bytes@ =~= Seq::new(60, |i: int| 0u8));
            crate::bytes::lemma_le_bytes_len(capacity as nat / 512, 8);
            crate::bytes::lemma_le_bytes_len((queue_size - 2) as nat, 4);
            crate::bytes::lemma_le_bytes_len(512, 4);
            crate::bytes::lemma_le_bytes_len(1, 4);
            crate::bytes::lemma_le_bytes_len(queues as nat, 2);
        }
        put_le(&mut bytes, 0, 8, capacity / SECTOR_SIZE);
        put_le(&mut bytes, 12, 4, queue_size as u64 - 2);
        put_le(&mut bytes, 20, 4, BLOCK_SIZE as u64);
        put_le(&mut bytes, 28, 4, 1);
        bytes[CONFIG_WCE_OFFSET] = 1;
        put_le(&mut bytes, 34, 2, queues as u64);
        DeviceConfig { bytes, acknowledged: 0, writeback: true }
    }

    fn update_writeback(&mut self)
        requires
            old(self).wf(),
        ensures
            *final(self) == (DeviceConfig {
                writeback: holds_back(old(self).acknowledged, old(self).bytes@),
                ..*old(self)
            }),
    {
        self.writeback = if self.acknowledged & FEATURE_CONFIG_WCE != 0 {
            self.bytes[CONFIG_WCE_OFFSET] != 0
        } else {
            self.acknowledged & FEATURE_FLUSH != 0
        };
    }

    /// Takes note of the features that the driver uses.
    pub fn acked_features(&mut self, features: u64)
        requires
            old(self).wf(),
        ensures
            *final(self) == (DeviceConfig {
                acknowledged: features,
                writeback: holds_back(features, old(self).bytes@),
                ..*old(self)
            }),
    {
        self.acknowledged = features;
        self.update_writeback();
    }

    /// A part of the configuration space; nothing where it is not all there.
    pub fn get_config(&self, offset: u32, size: u32) -> (part: Vec<u8>)
        requires
            self.wf(),
        ensures
            part@ == if offset + size <= 60 {
                self.bytes@.subrange(offset as int, offset + size)
            } else {
                Seq::empty()
            },
    {
        let end: u64 = offset as u64 + size as u64;
        if end > CONFIG_LEN as u64 {
            let part: Vec<u8> = Vec::new();
            proof {
                assert(part@ =~= Seq::<u8>::empty());
            }
            return part;
        }
        copy_range(self.bytes.as_slice(), offset as usize, end as usize)
    }

    /// Writes a part of the configuration space; whether it is there.
    pub fn set_config(&mut self, offset: u32, data: &[u8]) -> (ok: bool)
        requires
            old(self).wf(),
        ensures
            final(self).wf(),
            ok == (offset + data@.len() <= 60),
            if ok {
                let bytes = crate::bytes::splice(old(self).bytes@, offset as int, data@);
                &&& final(self).bytes@ == bytes
                &&& final(self).acknowledged == old(self).acknowledged
                &&& final(self).writeback == holds_back(old(self).acknowledged, bytes)
            } else {
                *final(self) == *old(self)
            },
    {
        let len: usize = data.len();
        if offset as u64 > CONFIG_LEN as u64 || len as u64 > CONFIG_LEN as u64 - offset as u64 {
            return false;
        }
        let start: usize = offset as usize;
        let ghost before = self.bytes@;
        let mut i: usize = 0;
        while i < len
            invariant
                i <= len,
                len == data@.len(),
                start + len <= 60,
                before.len() == 60,
                self.bytes@.len() == 60,
                self.acknowledged == old(self).acknowledged,
                self.writeback == old(self).writeback,
                forall|k: int|
                    0 <= k < 60 ==> #[trigger] self.bytes@[k] == if start <= k < start + i {
                        data@[k - start]
                    } else {
                        before[k]
                    },
            decreases len - i,
        {
            let at: usize = start + i;
            self.bytes[at] = data[i];
            i = i + 1;
        }
        proof {
            assert(self.bytes@ =~= crate::bytes::splice(before, start as int, data@));
        }
        self.update_writeback();
        true
    }
}

/// The features that the device offers.
pub open spec fn offered(event_idx: bool, read_only: bool) -> int {
    FEATURE_SEG_MAX + FEATURE_BLK_SIZE + FEATURE_FLUSH + FEATURE_MQ + FEATURE_CONFIG_WCE
        + FEATURE_VERSION_1 + FEATURE_PROTOCOL + (if event_idx {
        FEATURE_EVENT_IDX as int
    } else {
        0
    }) + (if read_only {
        FEATURE_RO as int
    } else {
        0
    })
}

/// The features that the device offers.
pub fn features(event_idx: bool, read_only: bool) -> (f: u64)
    ensures
        f == offered(event_idx, read_only),
{
    let mut f: u64 = FEATURE_SEG_MAX + FEATURE_BLK_SIZE + FEATURE_FLUSH + FEATURE_MQ
        + FEATURE_CONFIG_WCE + FEATURE_VERSION_1 + FEATURE_PROTOCOL;
    if event_idx {
        f = f + FEATURE_EVENT_IDX;
    }
    if read_only {
        f = f + FEATURE_RO;
    }
    f
}

/// Which queue each thread serves: one bit for each.
pub fn queue_masks(queues: usize) -> (masks: Vec<u64>)
    requires
        queues <= 64,
    ensures
        masks@ == Seq::new(queues as nat, |i: int| 1u64 << (i as u64)),
{
    let mut masks: Vec<u64> = Vec::new();
    let mut i: usize = 0;
    while i < queues
        invariant
            i <= queues <= 64,
            masks@ == Seq::new(i as nat, |k: int| 1u64 << (k as u64)),
        decreases queues - i,
    {
        masks.push(1u64 << (i as u64));
        proof {
            assert(masks@ =~= Seq::new((i + 1) as nat, |k: int| 1u64 << (k as u64)));
        }
        i = i + 1;
    }
    masks
}

/// The counts of all queues together.
pub open spec fn sum_stats(list: Seq<Stats>) -> Stats
    decreases list.len(),
{
    if list.len() == 0 {
        crate::vhost::request::no_stats()
    } else {
        let t = sum_stats(list.drop_last());
        let s = list.last();
        Stats {
            reads: (t.reads + s.reads) as u64,
            writes: (t.writes + s.writes) as u64,
            flushes: (t.flushes + s.flushes) as u64,
            get_ids: (t.get_ids + s.get_ids) as u64,
            unsupported: (t.unsupported + s.unsupported) as u64,
            io_errors: (t.io_errors + s.io_errors) as u64,
            read_bytes: (t.read_bytes + s.read_bytes) as u64,
            write_bytes: (t.write_bytes + s.write_bytes) as u64,
        }
    }
}

/// Whether the counts of all queues can be added up.
pub open spec fn addable(list: Seq<Stats>) -> bool
    decreases list.len(),
{
    list.len() > 0 ==> {
        let t = sum_stats(list.drop_last());
        let s = list.last();
        &&& addable(list.drop_last())
        &&& t.reads + s.reads <= u64::MAX
        &&& t.writes + s.writes <= u64::MAX
        &&& t.flushes + s.flushes <= u64::MAX
        &&& t.get_ids + s.get_ids <= u64::MAX
        &&& t.unsupported + s.unsupported <= u64::MAX
        &&& t.io_errors + s.io_errors <= u64::MAX
        &&& t.read_bytes + s.read_bytes <= u64::MAX
        &&& t.write_bytes + s.write_bytes <= u64::MAX
    }
}

proof fn lemma_addable_prefix(list: Seq<Stats>, n: int)
    requires
        0 <= n <= list.len(),
        addable(list),
    ensures
        addable(list.subrange(0, n)),
    decreases list.len() - n,
{
    if n < list.len() {
        lemma_addable_prefix(list, n + 1);
        assert(list.subrange(0, n + 1).drop_last() =~= list.subrange(0, n));
    } else {
        assert(list.subrange(0, n) =~= list);
    }
}

/// The counts of all queues together.
pub fn stats(list: &Vec<Stats>) -> (total: Stats)
    requires
        addable(list@),
    ensures
        total == sum_stats(list@),
{
    let mut t: Stats = Stats::new();
    let mut i: usize = 0;
    proof {
        assert(list@.subrange(0, 0) =~= Seq::<Stats>::empty());
    }
    while i < list.len()
        invariant
            i <= list@.len(),
            addable(list@),
            t == sum_stats(list@.subrange(0, i as int)),
        decreases list@.len() - i,
    {
        proof {
            lemma_addable_prefix(list@, i + 1);
            assert(list@.subrange(0, i + 1).drop_last() =~= list@.subrange(0, i as int));
            assert(list@.subrange(0, i + 1).last() == list@[i as int]);
        }
        let s: Stats = list[i];
        t = Stats {
            reads: t.reads + s.reads,
            writes: t.writes + s.writes,
            flushes: t.flushes + s.flushes,
            get_ids: t.get_ids + s.get_ids,
            unsupported: t.unsupported + s.unsupported,
            io_errors: t.io_errors + s.io_errors,
            read_bytes: t.read_bytes + s.read_bytes,
            write_bytes: t.write_bytes + s.write_bytes,
        };
        i = i + 1;
    }
    proof {
        assert(list@.subrange(0, i as int) =~= list@);
    }
    t
}

/// What is written to the configuration space is read back, and nothing else changes.
pub proof fn law_config_reads_back(bytes: Seq<u8>, offset: int, data: Seq<u8>, other: int)
    requires
        bytes.len() == 60,
        0 <= offset,
        offset + data.len() <= 60,
        0 <= other < 60,
    ensures
        crate::bytes::splice(bytes, offset, data).subrange(offset, offset + data.len()) == data,
        !(offset <= other < offset + data.len()) ==> crate::bytes::splice(
            bytes,
            offset,
            data,
        )[other] == bytes[other],
{
    assert(crate::bytes::splice(bytes, offset, data).subrange(offset, offset + data.len())
        =~= data);
}

/// The configuration that a driver reads tells the capacity in sectors, how many segments a request may
/// have, the size of a block and the number of queues, and that the cache writes back.
pub proof fn law_the_configuration_tells_the_device(capacity: u64, queues: nat, queue_size: nat)
    requires
        queues <= 64,
        2 <= queue_size <= u32::MAX,
    ensures
        ({
            let c = initial_config(capacity, queues, queue_size);
            &&& c.len() == 60
            &&& crate::bytes::le_value(c.subrange(0, 8)) == capacity as nat / 512
            &&& crate::bytes::le_value(c.subrange(12, 16)) == queue_size - 2
            &&& crate::bytes::le_value(c.subrange(20, 24)) == 512
            &&& c[32] == 1
            &&& crate::bytes::le_value(c.subrange(34, 36)) == queues
        }),
{
    let c = initial_config(capacity, queues, queue_size);
    crate::bytes::lemma_byte_ranges();
    crate::bytes::lemma_le_bytes_len(capacity as nat / 512, 8);
    crate::bytes::lemma_le_bytes_len((queue_size - 2) as nat, 4);
    crate::bytes::lemma_le_bytes_len(512, 4);
    crate::bytes::lemma_le_bytes_len(1, 4);
    crate::bytes::lemma_le_bytes_len(queues, 2);
    crate::bytes::lemma_le_round_trip(capacity as nat / 512, 8);
    crate::bytes::lemma_le_round_trip((queue_size - 2) as nat, 4);
    crate::bytes::lemma_le_round_trip(512, 4);
    crate::bytes::lemma_le_round_trip(queues, 2);
    assert(c.subrange(0, 8) =~= crate::bytes::le_bytes(capacity as nat / 512, 8));
    assert(c.subrange(12, 16) =~= crate::bytes::le_bytes((queue_size - 2) as nat, 4));
    assert(c.subrange(20, 24) =~= crate::bytes::le_bytes(512, 4));
    assert(c.subrange(34, 36) =~= crate::bytes::le_bytes(queues, 2));
}

/// Writes may be held back where the driver took the configurable cache and left it on, or did not take it
/// and took flushes; and nowhere else.
pub proof fn law_only_a_flushing_driver_is_held_back(acknowledged: u64, config: Seq<u8>)
    requires
        config.len() == 60,
    ensures
        acknowledged / 2048 % 2 == 1 ==> holds_back(acknowledged, config) == (config[32] != 0),
        acknowledged / 2048 % 2 == 0 ==> holds_back(acknowledged, config) == (acknowledged / 512 % 2
            == 1),
        acknowledged == 0 ==> !holds_back(acknowledged, config),
{
    assert((acknowledged & 0x800u64 != 0) == (acknowledged / 2048 % 2 == 1)) by (bit_vector);
    assert((acknowledged & 0x200u64 != 0) == (acknowledged / 512 % 2 == 1)) by (bit_vector);
}

/// The device offers event indexes and a read-only disk exactly where it is asked to, and always flushes,
/// a configurable cache and several queues.
pub proof fn law_features_are_offered_as_asked(event_idx: bool, read_only: bool)
    ensures
        (offered(event_idx, read_only) / 0x2000_0000 % 2 == 1) == event_idx,
        (offered(event_idx, read_only) / 0x20 % 2 == 1) == read_only,
        offered(event_idx, read_only) / 0x200 % 2 == 1,
        offered(event_idx, read_only) / 0x800 % 2 == 1,
        offered(event_idx, read_only) / 0x1000 % 2 == 1,
        offered(event_idx, read_only) / 0x1_0000_0000 % 2 == 1,
{
}

/// Each counter of the whole device is the sum of the counters of its queues.
pub proof fn law_queue_counters_add_up(list: Seq<Stats>, one: Stats)
    requires
        addable(list.push(one)),
    ensures
        ({
            let before = sum_stats(list);
            let after = sum_stats(list.push(one));
            &&& after.reads - before.reads == one.reads
            &&& after.writes - before.writes == one.writes
            &&& after.flushes - before.flushes == one.flushes
            &&& after.get_ids - before.get_ids == one.get_ids
            &&& after.unsupported - before.unsupported == one.unsupported
            &&& after.io_errors - before.io_errors == one.io_errors
            &&& after.read_bytes - before.read_bytes == one.read_bytes
            &&& after.write_bytes - before.write_bytes == one.write_bytes
            &&& list.len() == 0 ==> after == one
        }),
{
    assert(list.push(one).drop_last() =~= list);
}

} // verus!
