//! The continuity proof of an edge: blocks that are written, read back and looked for at the end, while
//! the route underneath changes.
use vstd::prelude::*;
use vstd::string::*;

use crate::args::value_at;
use crate::bytes::put_le;
use crate::error::{invalid, invalid_data, invalid_input, Error, ErrorKind};
use crate::random::{mix64, rotate_left};
use crate::text::{decimal, join2, join4, number_reason, parse_unsigned};
#[allow(unused_imports)]
use crate::error::Fault;

verus! {

pub const MAGIC: u64 = 0x5a43_4d49_4752_4154;

/// The word at an index of the block of a slot and a sequence number.
pub open spec fn word_of(slot: u64, sequence: u64, index: int) -> u64 {
    if index == 0 {
        MAGIC
    } else if index == 1 {
        slot
    } else if index == 2 {
        sequence
    } else if index == 3 {
        !sequence
    } else {
        crate::random::mixed(sequence ^ crate::random::rotated(slot, 17) ^ (index as u64))
    }
}

/// The block of a slot and a sequence number: words with the lowest byte first. What is left behind the
/// last whole word of `old` stays.
pub open spec fn block_of(old_block: Seq<u8>, slot: u64, sequence: u64) -> Seq<u8> {
    Seq::new(
        old_block.len(),
        |i: int|
            if i / 8 < old_block.len() / 8 {
                crate::bytes::le_bytes(word_of(slot, sequence, i / 8) as nat, 8)[i % 8]
            } else {
                old_block[i]
            },
    )
}

fn block_word(slot: u64, sequence: u64, index: usize) -> (w: u64)
    ensures
        w == word_of(slot, sequence, index as int),
{
    if index == 0 {
        MAGIC
    } else if index == 1 {
        slot
    } else if index == 2 {
        sequence
    } else if index == 3 {
        !sequence
    } else {
        mix64(sequence ^ rotate_left(slot, 17) ^ (index as u64))
    }
}

/// Makes the block of a slot and a sequence number.
pub fn fill_block(block: &mut [u8], slot: u64, sequence: u64)
    requires
        old(block)@.len() >= 32,
    ensures
        final(block)@ == block_of(old(block)@, slot, sequence),
{
    let n: usize = block.len();
    let words: usize = n / 8;
    let ghost before = block@;
    let ghost due = block_of(before, slot, sequence);
    let mut k: usize = 0;
    while k < words
        invariant
            k <= words,
            words == n / 8,
            n == block@.len(),
            n == before.len(),
            due == block_of(before, slot, sequence),
            forall|i: int| 0 <= i < 8 * k ==> (#[trigger] block@[i]) == due[i],
            forall|i: int| 8 * k <= i < n ==> (#[trigger] block@[i]) == before[i],
        decreases words - k,
    {
        let ghost held = block@;
        let word: u64 = block_word(slot, sequence, k);
        proof {
            crate::bytes::lemma_le_bytes_len(word as nat, 8);
        }
        put_le(block, 8 * k, 8, word);
        proof {
            let part = crate::bytes::le_bytes(word as nat, 8);
            assert(block@ == crate::bytes::splice(held, 8 * k, part));
            assert forall|i: int| 0 <= i < 8 * (k + 1) implies (#[trigger] block@[i]) == due[i] by {
                if i >= 8 * k {
                    assert(i / 8 == k && i % 8 == i - 8 * k);
                    assert(block@[i] == part[i - 8 * k]);
                } else {
                    assert(block@[i] == held[i]);
                }
            }
            assert forall|i: int| 8 * (k + 1) <= i < n implies (#[trigger] block@[i])
                == before[i] by {
                assert(block@[i] == held[i]);
            }
        }
        k = k + 1;
    }
    proof {
        assert forall|i: int| 0 <= i < n implies block@[i] == due[i] by {
            if i >= 8 * words {
                assert(i / 8 >= words);
            }
        }
        assert(block@ =~= due);
    }
}

/// The first place at which two blocks differ, from a place on.
pub open spec fn first_difference(a: Seq<u8>, b: Seq<u8>, i: int) -> int
    decreases a.len() - i,
{
    if i >= a.len() || i >= b.len() || a[i] != b[i] {
        i
    } else {
        first_difference(a, b, i + 1)
    }
}

/// What is said of a block that is not what was written.
pub open spec fn mismatch(expected: Seq<u8>, actual: Seq<u8>, slot: u64, sequence: u64) -> Fault {
    let at = first_difference(expected, actual, 0);
    crate::error::bad_data(
        "continuity mismatch slot="@ + crate::text::decimal_text(slot as nat) + " sequence="@
            + crate::text::decimal_text(sequence as nat) + " byte="@ + crate::text::decimal_text(
            at as nat,
        ) + " expected="@ + crate::text::decimal_text(expected[at] as nat) + " actual="@
            + crate::text::decimal_text(actual[at] as nat),
    )
}

proof fn lemma_difference_at(a: Seq<u8>, b: Seq<u8>, i: int, at: int)
    requires
        a.len() == b.len(),
        0 <= i <= at < a.len(),
        a[at] != b[at],
        forall|k: int| i <= k < at ==> a[k] == b[k],
    ensures
        first_difference(a, b, i) == at,
    decreases at - i,
{
    if i < at {
        assert(a[i] == b[i]);
        lemma_difference_at(a, b, i + 1, at);
    }
}

/// Checks a block against what was written.
pub fn compare_block(expected: &[u8], actual: &[u8], slot: u64, sequence: u64) -> (r: Result<
    (),
    Error,
>)
    requires
        expected@.len() == actual@.len(),
    ensures
        match r {
            Ok(_) => expected@ == actual@,
            Err(e) => expected@ != actual@ && e@ == mismatch(expected@, actual@, slot, sequence),
        },
{
    let n: usize = expected.len();
    let mut i: usize = 0;
    while i < n
        invariant
            i <= n,
            n == expected@.len(),
            n == actual@.len(),
            forall|k: int| 0 <= k < i ==> (#[trigger] expected@[k]) == actual@[k],
        decreases n - i,
    {
        if expected[i] != actual[i] {
            proof {
                lemma_difference_at(expected@, actual@, 0, i as int);
            }
            let slot_text: String = decimal(slot);
            let sequence_text: String = decimal(sequence);
            let at: String = decimal(i as u64);
            let left: String = decimal(expected[i] as u64);
            let right: String = decimal(actual[i] as u64);
            let head: String = join4(
                "continuity mismatch slot=",
                slot_text.as_str(),
                " sequence=",
                sequence_text.as_str(),
            );
            let body: String = join4(head.as_str(), " byte=", at.as_str(), " expected=");
            return Err(
                invalid_data(join4(body.as_str(), left.as_str(), " actual=", right.as_str())),
            );
        }
        i = i + 1;
    }
    proof {
        assert(expected@ =~= actual@);
    }
    Ok(())
}

/// Where a slot lies.
pub open spec fn offset_due(base: u64, slot: u64) -> Result<u64, Fault> {
    if slot * 4096 > u64::MAX {
        Err(crate::error::bad_input("slot length overflow"@))
    } else if base + slot * 4096 > u64::MAX {
        Err(crate::error::bad_input("slot offset overflow"@))
    } else {
        Ok((base + slot * 4096) as u64)
    }
}

/// Where a slot lies.
pub fn slot_offset(base: u64, slot: u64) -> (r: Result<u64, Error>)
    ensures
        crate::error::agrees(r, offset_due(base, slot)),
{
    match slot.checked_mul(4096) {
        None => Err(invalid("slot length overflow")),
        Some(length) => match base.checked_add(length) {
            None => Err(invalid("slot offset overflow")),
            Some(offset) => Ok(offset),
        },
    }
}

/// The number that an argument gives.
pub open spec fn number_of(value: Option<Seq<char>>, label: Seq<char>) -> Result<u64, Fault> {
    match value {
        None => Err(crate::error::bad_input("missing "@ + label)),
        Some(text) => match crate::text::unsigned_value(text, u64::MAX as nat) {
            Some(n) => Ok(n as u64),
            None => Err(
                crate::error::bad_input(
                    "invalid "@ + label + ": "@ + crate::text::number_fault(text, u64::MAX as nat),
                ),
            ),
        },
    }
}

/// The number that an argument gives.
pub fn parse_u64(value: Option<String>, label: &str) -> (r: Result<u64, Error>)
    ensures
        crate::error::agrees(r, number_of(crate::args::said(value), label@)),
{
    match value {
        None => Err(invalid_input(join2("missing ", label))),
        Some(text) => match parse_unsigned(text.as_str(), u64::MAX) {
            Some(n) => Ok(n),
            None => Err(
                invalid_input(
                    join4("invalid ", label, ": ", number_reason(text.as_str(), u64::MAX)),
                ),
            ),
        },
    }
}

/// What a run works on.
#[derive(Debug)]
pub struct Config {
    pub target: String,
    pub base_offset: u64,
    pub slots: u64,
    pub interval_us: u64,
    pub sync_every: u64,
}

/// What is meant by [`Config`].
pub struct ConfigView {
    pub target: Seq<char>,
    pub base_offset: u64,
    pub slots: u64,
    pub interval_us: u64,
    pub sync_every: u64,
}

impl View for Config {
    type V = ConfigView;

    open spec fn view(&self) -> ConfigView {
        ConfigView {
            target: self.target@,
            base_offset: self.base_offset,
            slots: self.slots,
            interval_us: self.interval_us,
            sync_every: self.sync_every,
        }
    }
}

/// What is wrong with a command line whose numbers are right.
pub open spec fn usage_fault() -> Fault {
    crate::error::bad_input(
        "usage: zcnblk-edge-continuity TARGET BASE_OFFSET SLOTS INTERVAL_US SYNC_EVERY; offset must be 4096-aligned and slots non-zero"@,
    )
}

/// What a command line asks for.
pub open spec fn config_due(args: Seq<Seq<char>>) -> Result<ConfigView, Fault> {
    match number_of(crate::args::nth(args, 1), "BASE_OFFSET"@) {
        Err(e) => Err(e),
        Ok(base_offset) => match number_of(crate::args::nth(args, 2), "SLOTS"@) {
            Err(e) => Err(e),
            Ok(slots) => match number_of(crate::args::nth(args, 3), "INTERVAL_US"@) {
                Err(e) => Err(e),
                Ok(interval_us) => match number_of(crate::args::nth(args, 4), "SYNC_EVERY"@) {
                    Err(e) => Err(e),
                    Ok(sync_every) => if args.len() > 5 || base_offset % 4096 != 0 || slots == 0 {
                        Err(usage_fault())
                    } else if slots > usize::MAX {
                        Err(crate::error::bad_input("SLOTS exceeds usize"@))
                    } else {
                        Ok(
                            ConfigView {
                                target: crate::workload::cutover::item_or(
                                    args,
                                    0,
                                    "/dev/zcnblk0"@,
                                ),
                                base_offset,
                                slots,
                                interval_us,
                                sync_every,
                            },
                        )
                    },
                },
            },
        },
    }
}

/// What a command line asks for.
pub fn parse_config(args: &Vec<String>) -> (r: Result<Config, Error>)
    ensures
        match r {
            Ok(c) => config_due(crate::text::texts(args@)) == Ok::<ConfigView, Fault>(c@),
            Err(e) => config_due(crate::text::texts(args@)) == Err::<ConfigView, Fault>(e@),
        },
{
    let base_offset: u64 = match parse_u64(value_at(args.as_slice(), 1), "BASE_OFFSET") {
        Ok(n) => n,
        Err(e) => {
            return Err(e);
        },
    };
    let slots: u64 = match parse_u64(value_at(args.as_slice(), 2), "SLOTS") {
        Ok(n) => n,
        Err(e) => {
            return Err(e);
        },
    };
    let interval_us: u64 = match parse_u64(value_at(args.as_slice(), 3), "INTERVAL_US") {
        Ok(n) => n,
        Err(e) => {
            return Err(e);
        },
    };
    let sync_every: u64 = match parse_u64(value_at(args.as_slice(), 4), "SYNC_EVERY") {
        Ok(n) => n,
        Err(e) => {
            return Err(e);
        },
    };
    if args.len() > 5 || base_offset % 4096 != 0 || slots == 0 {
        return Err(
            invalid(
                "usage: zcnblk-edge-continuity TARGET BASE_OFFSET SLOTS INTERVAL_US SYNC_EVERY; offset must be 4096-aligned and slots non-zero",
            ),
        );
    }
    if slots > usize::MAX as u64 {
        return Err(invalid("SLOTS exceeds usize"));
    }
    let target: String = args[0].clone();
    Ok(Config { target, base_offset, slots, interval_us, sync_every })
}

/// Why the blocks of a run do not fit on a device. A size of zero is not known.
pub open spec fn range_fault(base: u64, slots: u64, size: u64) -> Option<Fault> {
    let end = base + slots * 4096;
    if slots * 4096 > u64::MAX {
        Some(crate::error::bad_input("continuity proof length overflow"@))
    } else if end > u64::MAX {
        Some(crate::error::bad_input("continuity proof range overflow"@))
    } else if size != 0 && end > size {
        Some(
            crate::error::bad_input(
                "continuity proof range ends at "@ + crate::text::decimal_text(end as nat)
                    + ", past device size "@ + crate::text::decimal_text(size as nat),
            ),
        )
    } else {
        None
    }
}

/// Checks that the blocks of a run fit on a device.
pub fn check_range(base: u64, slots: u64, size: u64) -> (r: Result<(), Error>)
    ensures
        match r {
            Ok(_) => range_fault(base, slots, size) is None,
            Err(e) => range_fault(base, slots, size) == Some(e@),
        },
{
    let length: u64 = match slots.checked_mul(4096) {
        Some(length) => length,
        None => {
            return Err(invalid("continuity proof length overflow"));
        },
    };
    let end: u64 = match base.checked_add(length) {
        Some(end) => end,
        None => {
            return Err(invalid("continuity proof range overflow"));
        },
    };
    if size != 0 && end > size {
        let end_text: String = decimal(end);
        let size_text: String = decimal(size);
        return Err(
            invalid_input(
                join4(
                    "continuity proof range ends at ",
                    end_text.as_str(),
                    ", past device size ",
                    size_text.as_str(),
                ),
            ),
        );
    }
    Ok(())
}

/// How far a run has come.
#[derive(Debug)]
pub struct Progress {
    pub slots: u64,
    pub sync_every: u64,
    pub last_sequences: Vec<u64>,
    pub sequence: u64,
    pub writes: u64,
    pub reads: u64,
    pub dirty_read_matches: u64,
    pub syncs: u64,
    pub identity_checks: u64,
}

/// Whether `last` is the last of the sequence numbers up to `sequence` that fall on a slot; zero where
/// none does.
pub open spec fn is_last(last: u64, slot: int, slots: u64, sequence: u64) -> bool {
    if last == 0 {
        sequence <= slot
    } else {
        &&& last <= sequence
        &&& (last - 1) % (slots as int) == slot
        &&& sequence < last + slots
    }
}

/// What is to be done once a block was written and read back.
#[derive(Clone, Copy, Debug, PartialEq, Eq, Structural)]
pub struct Followup {
    pub sync: bool,
    pub check_identity: bool,
}

impl Progress {
    /// Every write was read back and matched, and each slot remembers the last sequence number that
    /// fell on it.
    pub open spec fn wf(&self) -> bool {
        &&& self.slots > 0
        &&& self.last_sequences@.len() == self.slots
        &&& self.writes == self.sequence
        &&& self.reads == self.sequence
        &&& self.dirty_read_matches == self.sequence
        &&& forall|s: int|
            0 <= s < self.slots ==> is_last(
                #[trigger] self.last_sequences@[s],
                s,
                self.slots,
                self.sequence,
            )
    }

    /// Nothing written yet.
    pub fn new(slots: usize, sync_every: u64) -> (p: Progress)
        requires
            slots > 0,
        ensures
            p.wf(),
            p.slots == slots,
            p.sync_every == sync_every,
            p.sequence == 0,
            p.syncs == 0,
            p.identity_checks == 0,
    {
        let mut last_sequences: Vec<u64> = Vec::new();
        let mut i: usize = 0;
        while i < slots
            invariant
                i <= slots,
                last_sequences@.len() == i,
                forall|s: int| 0 <= s < i ==> (#[trigger] last_sequences@[s]) == 0,
            decreases slots - i,
        {
            last_sequences.push(0);
            i = i + 1;
        }
        Progress {
            slots: slots as u64,
            sync_every,
            last_sequences,
            sequence: 0,
            writes: 0,
            reads: 0,
            dirty_read_matches: 0,
            syncs: 0,
            identity_checks: 0,
        }
    }

    /// Whether every slot has been written once.
    pub open spec fn seeded(&self) -> bool {
        self.sequence >= self.slots
    }

    /// The slot and the sequence number that come next.
    pub fn next(&self) -> (r: (u64, u64))
        requires
            self.wf(),
            self.sequence < u64::MAX,
        ensures
            r == ((self.sequence % self.slots) as u64, (self.sequence + 1) as u64),
    {
        (self.sequence % self.slots, self.sequence + 1)
    }

    /// Counts a block that was written and read back, and says what is to be done then. Until every slot
    /// has been written once nothing is, but for a sync after the last of them.
    pub fn record(&mut self) -> (f: Followup)
        requires
            old(self).wf(),
            old(self).sequence < u64::MAX,
        ensures
            final(self).wf(),
            final(self).slots == old(self).slots,
            final(self).sync_every == old(self).sync_every,
            final(self).sequence == old(self).sequence + 1,
            final(self).last_sequences@ == old(self).last_sequences@.update(
                old(self).sequence as int % old(self).slots as int,
                (old(self).sequence + 1) as u64,
            ),
            final(self).syncs == old(self).syncs,
            final(self).identity_checks == old(self).identity_checks,
            f == followup(
                old(self).seeded(),
                old(self).slots,
                old(self).sync_every,
                (old(self).sequence + 1) as u64,
            ),
    {
        let n: u64 = self.sequence;
        let seeded: bool = n >= self.slots;
        let count: usize = self.last_sequences.len();
        let slot: usize = (n % (count as u64)) as usize;
        let ghost before = self.last_sequences@;
        self.last_sequences.set(slot, n + 1);
        self.sequence = n + 1;
        self.writes = self.writes + 1;
        self.reads = self.reads + 1;
        self.dirty_read_matches = self.dirty_read_matches + 1;
        proof {
            assert forall|s: int| 0 <= s < self.slots implies is_last(
                #[trigger] self.last_sequences@[s],
                s,
                self.slots,
                self.sequence,
            ) by {
                if s != slot {
                    let last = before[s];
                    assert(is_last(last, s, self.slots, n));
                    if last == 0 {
                        if n == s {
                            vstd::arithmetic::div_mod::lemma_small_mod(
                                n as nat,
                                self.slots as nat,
                            );
                        }
                    } else if last + self.slots == n + 1 {
                        vstd::arithmetic::div_mod::lemma_mod_sub_multiples_vanish(
                            n as int,
                            self.slots as int,
                        );
                    }
                } else {
                    assert(self.last_sequences@[s] == n + 1);
                }
            }
        }
        let writes: u64 = self.writes;
        if seeded {
            Followup {
                sync: self.sync_every != 0 && writes % self.sync_every == 0,
                check_identity: writes % 256 == 0,
            }
        } else {
            Followup { sync: writes == self.slots, check_identity: false }
        }
    }
}

impl Progress {
    /// Counts a sync.
    pub fn synced(&mut self)
        requires
            old(self).wf(),
            old(self).syncs < u64::MAX,
        ensures
            final(self).wf(),
            *final(self) == (Progress { syncs: (old(self).syncs + 1) as u64, ..*old(self) }),
    {
        self.syncs = self.syncs + 1;
    }

    /// Counts a check of the device's identity.
    pub fn checked(&mut self)
        requires
            old(self).wf(),
            old(self).identity_checks < u64::MAX,
        ensures
            final(self).wf(),
            *final(self) == (Progress {
                identity_checks: (old(self).identity_checks + 1) as u64,
                ..*old(self)
            }),
    {
        self.identity_checks = self.identity_checks + 1;
    }
}

/// What is to be done once a block was written and read back; `writes` counts it.
pub open spec fn followup(seeded: bool, slots: u64, sync_every: u64, writes: u64) -> Followup {
    if seeded {
        Followup {
            sync: sync_every != 0 && writes % sync_every == 0,
            check_identity: writes % 256 == 0,
        }
    } else {
        Followup { sync: writes == slots, check_identity: false }
    }
}

/// What a run does next.
#[derive(Clone, Copy, Debug, PartialEq, Eq, Structural)]
pub enum Work {
    /// Write the block of a slot and a sequence number, read it back and compare.
    Write { slot: u64, sequence: u64 },
    /// Wait until all that was written is durable.
    Sync,
    /// Say that every slot has been written once.
    Announce,
    /// Check that the device is still the same.
    CheckIdentity,
    /// Sleep for the interval.
    Pause,
    /// Read a slot and compare it with the block of its last sequence number.
    Verify { slot: u64, sequence: u64 },
    /// Check for the last time that the device is still the same.
    CheckLast,
    /// Nothing more.
    Finished,
}

/// How far a run is.
#[derive(Clone, Copy, Debug, PartialEq, Eq, Structural)]
pub enum Stage {
    Writing,
    /// A block was written; what of this is set is still to be done, in this order.
    Following { sync: bool, announce: bool, identity: bool, pause: bool },
    /// All slots below this one have been verified.
    Verifying { slot: u64 },
    Done,
}

/// A run: its counts, its interval, and how far it is.
#[derive(Debug)]
pub struct Run {
    pub progress: Progress,
    pub interval_us: u64,
    pub stage: Stage,
}

/// The stage with nothing left to follow a write.
pub open spec fn settled(stage: Stage) -> Stage {
    if stage == (Stage::Following { sync: false, announce: false, identity: false, pause: false }) {
        Stage::Writing
    } else {
        stage
    }
}

impl Run {
    /// Verification begins only when every slot has been written, and stays within the slots.
    pub open spec fn wf(&self) -> bool {
        &&& self.progress.wf()
        &&& match self.stage {
            Stage::Verifying { slot } => slot <= self.progress.slots && self.progress.seeded(),
            Stage::Done => self.progress.seeded(),
            _ => true,
        }
    }

    /// What the run does next, where it may have been told to stop. A stop is heeded between two
    /// blocks, and not before every slot has been written once.
    pub open spec fn due(&self, stop: bool) -> Work {
        match settled(self.stage) {
            Stage::Writing => if stop && self.progress.seeded() {
                Work::Sync
            } else {
                Work::Write {
                    slot: (self.progress.sequence % self.progress.slots) as u64,
                    sequence: (self.progress.sequence + 1) as u64,
                }
            },
            Stage::Following { sync, announce, identity, pause } => if sync {
                Work::Sync
            } else if announce {
                Work::Announce
            } else if identity {
                Work::CheckIdentity
            } else {
                Work::Pause
            },
            Stage::Verifying { slot } => if slot < self.progress.slots {
                Work::Verify { slot, sequence: self.progress.last_sequences@[slot as int] }
            } else {
                Work::CheckLast
            },
            Stage::Done => Work::Finished,
        }
    }

    /// The stage after that.
    pub open spec fn stage_after(&self, stop: bool) -> Stage {
        match settled(self.stage) {
            Stage::Writing => if stop && self.progress.seeded() {
                Stage::Verifying { slot: 0 }
            } else {
                let f = followup(
                    self.progress.seeded(),
                    self.progress.slots,
                    self.progress.sync_every,
                    (self.progress.sequence + 1) as u64,
                );
                Stage::Following {
                    sync: f.sync,
                    announce: self.progress.sequence + 1 == self.progress.slots,
                    identity: f.check_identity,
                    pause: self.progress.seeded() && self.interval_us != 0,
                }
            },
            Stage::Following { sync, announce, identity, pause } => if sync {
                Stage::Following { sync: false, announce, identity, pause }
            } else if announce {
                Stage::Following { sync, announce: false, identity, pause }
            } else if identity {
                Stage::Following { sync, announce, identity: false, pause }
            } else {
                Stage::Writing
            },
            Stage::Verifying { slot } => if slot < self.progress.slots {
                Stage::Verifying { slot: (slot + 1) as u64 }
            } else {
                Stage::Done
            },
            Stage::Done => Stage::Done,
        }
    }

    /// A run that has written nothing yet.
    pub fn new(slots: usize, sync_every: u64, interval_us: u64) -> (r: Run)
        requires
            slots > 0,
        ensures
            r.wf(),
            r.stage == Stage::Writing,
            r.interval_us == interval_us,
            r.progress.slots == slots,
            r.progress.sync_every == sync_every,
            r.progress.sequence == 0,
            r.progress.syncs == 0,
            r.progress.identity_checks == 0,
    {
        Run { progress: Progress::new(slots, sync_every), interval_us, stage: Stage::Writing }
    }

    /// Says what comes next and counts it as done: a run ends with the first thing that fails.
    pub fn run(&mut self, stop: bool) -> (w: Work)
        requires
            old(self).wf(),
            old(self).progress.sequence < u64::MAX,
            old(self).progress.syncs < u64::MAX,
            old(self).progress.identity_checks < u64::MAX,
        ensures
            final(self).wf(),
            w == old(self).due(stop),
            final(self).stage == old(self).stage_after(stop),
            final(self).interval_us == old(self).interval_us,
            final(self).progress.slots == old(self).progress.slots,
            final(self).progress.sync_every == old(self).progress.sync_every,
            final(self).progress.sequence == old(self).progress.sequence + if w is Write {
                1int
            } else {
                0
            },
            final(self).progress.syncs == old(self).progress.syncs + if w is Sync {
                1int
            } else {
                0
            },
            final(self).progress.identity_checks == old(self).progress.identity_checks
                + if w is CheckIdentity {
                1int
            } else {
                0
            },
            final(self).progress.last_sequences@ == match w {
                Work::Write { slot, sequence } => old(self).progress.last_sequences@.update(
                    slot as int,
                    sequence,
                ),
                _ => old(self).progress.last_sequences@,
            },
    {
        let mut stage: Stage = self.stage;
        if let Stage::Following { sync, announce, identity, pause } = stage {
            if !sync && !announce && !identity && !pause {
                stage = Stage::Writing;
            }
        }
        match stage {
            Stage::Writing => {
                let seeded: bool = self.progress.sequence >= self.progress.slots;
                if stop && seeded {
                    self.progress.synced();
                    self.stage = Stage::Verifying { slot: 0 };
                    Work::Sync
                } else {
                    let (slot, sequence) = self.progress.next();
                    let f: Followup = self.progress.record();
                    self.stage = Stage::Following {
                        sync: f.sync,
                        announce: sequence == self.progress.slots,
                        identity: f.check_identity,
                        pause: seeded && self.interval_us != 0,
                    };
                    Work::Write { slot, sequence }
                }
            },
            Stage::Following { sync, announce, identity, pause } => {
                if sync {
                    self.progress.synced();
                    self.stage = Stage::Following { sync: false, announce, identity, pause };
                    Work::Sync
                } else if announce {
                    self.stage = Stage::Following { sync, announce: false, identity, pause };
                    Work::Announce
                } else if identity {
                    self.progress.checked();
                    self.stage = Stage::Following { sync, announce, identity: false, pause };
                    Work::CheckIdentity
                } else {
                    self.stage = Stage::Writing;
                    Work::Pause
                }
            },
            Stage::Verifying { slot } => {
                let count: usize = self.progress.last_sequences.len();
                if slot < self.progress.slots {
                    let at: usize = slot as usize;
                    assert(at == slot);
                    let sequence: u64 = self.progress.last_sequences[at];
                    self.stage = Stage::Verifying { slot: slot + 1 };
                    Work::Verify { slot, sequence }
                } else {
                    self.stage = Stage::Done;
                    Work::CheckLast
                }
            },
            Stage::Done => Work::Finished,
        }
    }
}

/// What is looked for at the end is, slot by slot, what was written there last; and by then every slot
/// was written.
pub proof fn law_the_end_looks_for_what_was_written_last(run: Run, stop: bool)
    requires
        run.wf(),
        run.due(stop) is Verify,
    ensures
        run.stage matches Stage::Verifying { slot } && {
            let last = run.progress.last_sequences@[slot as int];
            &&& run.due(stop) == (Work::Verify { slot, sequence: last })
            &&& 0 < last <= run.progress.sequence
            &&& (last - 1) % (run.progress.slots as int) == slot
            &&& run.progress.sequence < last + run.progress.slots
        },
{
    if let Stage::Verifying { slot } = run.stage {
        assert(is_last(
            run.progress.last_sequences@[slot as int],
            slot as int,
            run.progress.slots,
            run.progress.sequence,
        ));
    }
}

/// Nothing is looked for at the end before all that was written is durable: verification is entered
/// by a sync, and nothing is written from there on.
pub proof fn law_the_end_comes_after_a_sync(run: Run, stop: bool)
    requires
        run.wf(),
        run.stage_after(stop) is Verifying,
    ensures
        run.due(stop) is Sync || run.stage is Verifying,
        !(run.due(stop) is Write),
{
}

/// What is said of a device that is no longer the same.
pub open spec fn identity_text(before: (u64, u64), now: (u64, u64)) -> Seq<char> {
    let (a, b) = before;
    let (c, d) = now;
    "block identity changed from device="@ + crate::text::decimal_text(a as nat) + " inode="@
        + crate::text::decimal_text(b as nat) + " to device="@ + crate::text::decimal_text(c as nat)
        + " inode="@ + crate::text::decimal_text(d as nat)
}

/// Checks that a device is the same as before; `last` says that this is done at the end.
pub fn check_identity(before: (u64, u64), now: (u64, u64), last: bool) -> (r: Result<(), Error>)
    ensures
        match r {
            Ok(_) => before == now,
            Err(e) => before != now && e@ == (
                ErrorKind::Other,
                if last {
                    "block identity changed at final verification"@
                } else {
                    identity_text(before, now)
                },
            ),
        },
{
    let (a, b): (u64, u64) = before;
    let (c, d): (u64, u64) = now;
    if a == c && b == d {
        return Ok(());
    }
    if last {
        return Err(
            Error::of(ErrorKind::Other, "block identity changed at final verification"),
        );
    }
    let a_text: String = decimal(a);
    let b_text: String = decimal(b);
    let c_text: String = decimal(c);
    let d_text: String = decimal(d);
    let head: String = join4(
        "block identity changed from device=",
        a_text.as_str(),
        " inode=",
        b_text.as_str(),
    );
    let body: String = join4(head.as_str(), " to device=", c_text.as_str(), " inode=");
    Err(Error::new(ErrorKind::Other, join2(body.as_str(), d_text.as_str())))
}

/// What is to be done about a read or write of a block that moved `result` bytes; a negative number is
/// a failure, which is tried again where it was an interruption.
#[derive(Clone, Copy, Debug, PartialEq, Eq, Structural)]
pub enum Transfer {
    Done,
    Again,
    SystemError,
    Short,
}

/// What is to be done about a read or write of a block.
pub fn transfer(result: i64, len: usize, interrupted: bool) -> (t: Transfer)
    ensures
        t == (if result == len {
            Transfer::Done
        } else if result < 0 {
            if interrupted {
                Transfer::Again
            } else {
                Transfer::SystemError
            }
        } else {
            Transfer::Short
        }),
{
    if result >= 0 && result as u64 == len as u64 {
        Transfer::Done
    } else if result < 0 {
        if interrupted {
            Transfer::Again
        } else {
            Transfer::SystemError
        }
    } else {
        Transfer::Short
    }
}

/// What is said of a block of which only a part was moved.
pub fn short_transfer(writing: bool, result: u64, len: usize) -> (e: Error)
    ensures
        e@ == (if writing {
            (
                ErrorKind::WriteZero,
                "short direct write: "@ + crate::text::decimal_text(result as nat) + "/"@
                    + crate::text::decimal_text(len as nat),
            )
        } else {
            (
                ErrorKind::UnexpectedEof,
                "short direct read: "@ + crate::text::decimal_text(result as nat) + "/"@
                    + crate::text::decimal_text(len as nat),
            )
        }),
{
    let moved: String = decimal(result);
    let whole: String = decimal(len as u64);
    if writing {
        Error::new(
            ErrorKind::WriteZero,
            join4("short direct write: ", moved.as_str(), "/", whole.as_str()),
        )
    } else {
        Error::new(
            ErrorKind::UnexpectedEof,
            join4("short direct read: ", moved.as_str(), "/", whole.as_str()),
        )
    }
}

/// The blocks of two slots, or of two sequence numbers, differ.
pub proof fn law_blocks_differ(old_block: Seq<u8>, slot: u64, sequence: u64, slot2: u64, sequence2: u64)
    requires
        old_block.len() >= 32,
        slot != slot2 || sequence != sequence2,
    ensures
        block_of(old_block, slot, sequence) != block_of(old_block, slot2, sequence2),
{
    let a = block_of(old_block, slot, sequence);
    let b = block_of(old_block, slot2, sequence2);
    crate::bytes::lemma_byte_ranges();
    let k: int = if slot != slot2 {
        1
    } else {
        2
    };
    let x = word_of(slot, sequence, k);
    let y = word_of(slot2, sequence2, k);
    crate::bytes::lemma_le_bytes_len(x as nat, 8);
    crate::bytes::lemma_le_bytes_len(y as nat, 8);
    crate::bytes::lemma_le_round_trip(x as nat, 8);
    crate::bytes::lemma_le_round_trip(y as nat, 8);
    assert forall|i: int| 0 <= i < 8 implies #[trigger] a.subrange(8 * k, 8 * k + 8)[i]
        == crate::bytes::le_bytes(x as nat, 8)[i] && b.subrange(8 * k, 8 * k + 8)[i]
        == crate::bytes::le_bytes(y as nat, 8)[i] by {
        assert((8 * k + i) / 8 == k && (8 * k + i) % 8 == i);
    }
    assert(a.subrange(8 * k, 8 * k + 8) =~= crate::bytes::le_bytes(x as nat, 8));
    assert(b.subrange(8 * k, 8 * k + 8) =~= crate::bytes::le_bytes(y as nat, 8));
}

/// What a slot remembers is fixed by how far the run has come: no other sequence number is the last
/// that fell on it.
pub proof fn law_the_last_sequence_is_unique(
    last: u64,
    other: u64,
    slot: int,
    slots: u64,
    sequence: u64,
)
    requires
        0 <= slot < slots,
        is_last(last, slot, slots, sequence),
        is_last(other, slot, slots, sequence),
    ensures
        last == other,
{
    let m = slots as int;
    if last != 0 && other == 0 {
        vstd::arithmetic::div_mod::lemma_small_mod((last - 1) as nat, slots as nat);
    } else if last == 0 && other != 0 {
        vstd::arithmetic::div_mod::lemma_small_mod((other - 1) as nat, slots as nat);
    } else if last != 0 && other != 0 {
        let a = last - 1;
        let b = other - 1;
        vstd::arithmetic::div_mod::lemma_fundamental_div_mod(a, m);
        vstd::arithmetic::div_mod::lemma_fundamental_div_mod(b, m);
        let p = a / m;
        let q = b / m;
        assert(a - b == m * (p - q)) by (nonlinear_arith)
            requires
                a == m * p + slot,
                b == m * q + slot,
        ;
        assert(p == q) by (nonlinear_arith)
            requires
                a - b == m * (p - q),
                -m < a - b < m,
                m > 0,
        ;
        assert(m * (p - q) == 0) by (nonlinear_arith)
            requires
                p == q,
        ;
    }
}

proof fn lemma_word_bytes(old_block: Seq<u8>, slot: u64, sequence: u64, index: int)
    requires
        0 <= index < old_block.len() / 8,
    ensures
        block_of(old_block, slot, sequence).subrange(index * 8, index * 8 + 8)
            == crate::bytes::le_bytes(word_of(slot, sequence, index) as nat, 8),
{
    let block = block_of(old_block, slot, sequence);
    let word = crate::bytes::le_bytes(word_of(slot, sequence, index) as nat, 8);
    crate::bytes::lemma_le_bytes_len(word_of(slot, sequence, index) as nat, 8);
    assert(block.len() == old_block.len());
    assert(block.subrange(index * 8, index * 8 + 8) =~= word);
}

/// A block tells what it is: a mark, its slot, its sequence number and the complement of that, the lowest
/// byte of each first. Bytes behind the last whole word stay as they were.
pub proof fn law_blocks_tell_their_slot_and_sequence(old_block: Seq<u8>, slot: u64, sequence: u64)
    requires
        old_block.len() >= 32,
    ensures
        ({
            let block = block_of(old_block, slot, sequence);
            &&& block.len() == old_block.len()
            &&& crate::bytes::le_value(block.subrange(0, 8)) == MAGIC
            &&& crate::bytes::le_value(block.subrange(8, 16)) == slot
            &&& crate::bytes::le_value(block.subrange(16, 24)) == sequence
            &&& crate::bytes::le_value(block.subrange(24, 32)) + sequence == u64::MAX
            &&& forall|i: int|
                old_block.len() / 8 * 8 <= i < old_block.len() ==> #[trigger] block[i] == old_block[i]
        }),
{
    crate::bytes::lemma_byte_ranges();
    lemma_word_bytes(old_block, slot, sequence, 0);
    lemma_word_bytes(old_block, slot, sequence, 1);
    lemma_word_bytes(old_block, slot, sequence, 2);
    lemma_word_bytes(old_block, slot, sequence, 3);
    crate::bytes::lemma_le_round_trip(MAGIC as nat, 8);
    crate::bytes::lemma_le_round_trip(slot as nat, 8);
    crate::bytes::lemma_le_round_trip(sequence as nat, 8);
    crate::bytes::lemma_le_round_trip((!sequence) as nat, 8);
    assert(!sequence == 0xffff_ffff_ffff_ffffu64 - sequence) by (bit_vector);
}

proof fn lemma_first_difference(a: Seq<u8>, b: Seq<u8>, i: int)
    requires
        a.len() == b.len(),
        0 <= i <= a.len(),
    ensures
        i <= first_difference(a, b, i) <= a.len(),
        forall|k: int| i <= k < first_difference(a, b, i) ==> #[trigger] a[k] == b[k],
        first_difference(a, b, i) < a.len() ==> a[first_difference(a, b, i)] != b[first_difference(
            a,
            b,
            i,
        )],
    decreases a.len() - i,
{
    if i < a.len() && a[i] == b[i] {
        lemma_first_difference(a, b, i + 1);
    }
}

/// What is reported of two different blocks is the first place at which they differ.
pub proof fn law_the_first_difference_is_reported(a: Seq<u8>, b: Seq<u8>)
    requires
        a.len() == b.len(),
        a != b,
    ensures
        0 <= first_difference(a, b, 0) < a.len(),
        a[first_difference(a, b, 0)] != b[first_difference(a, b, 0)],
        forall|k: int| 0 <= k < first_difference(a, b, 0) ==> #[trigger] a[k] == b[k],
{
    lemma_first_difference(a, b, 0);
    if first_difference(a, b, 0) == a.len() {
        assert(a =~= b);
    }
}

/// The blocks of different slots do not overlap, and all slots of a range that was accepted end inside the
/// device.
pub proof fn law_slots_lie_apart(base: u64, slots: u64, size: u64, a: u64, b: u64)
    requires
        range_fault(base, slots, size) is None,
        a < b < slots,
    ensures
        offset_due(base, a) is Ok && offset_due(base, b) is Ok,
        offset_due(base, a)->Ok_0 >= base,
        offset_due(base, a)->Ok_0 + 4096 <= offset_due(base, b)->Ok_0,
        size != 0 ==> offset_due(base, b)->Ok_0 + 4096 <= size,
        offset_due(base, 0) == Ok::<u64, Fault>(base),
{
}

/// Slots are written in turn, under sequence numbers that count up by one; a sync is due once every slot
/// was written and then after every so many writes, where that is asked for.
pub proof fn law_slots_are_written_in_turn(run: Run, stop: bool)
    requires
        run.wf(),
        run.progress.sequence < u64::MAX,
    ensures
        run.due(stop) matches Work::Write { slot, sequence } ==> {
            &&& sequence == run.progress.sequence + 1
            &&& slot < run.progress.slots
            &&& (sequence - 1) % (run.progress.slots as int) == slot
            &&& !(stop && run.progress.sequence >= run.progress.slots)
            &&& run.stage_after(stop) matches Stage::Following { sync, announce, identity, pause }
            &&& sequence == run.progress.slots ==> sync && announce
            &&& sequence < run.progress.slots ==> !sync && !announce && !identity && !pause
            &&& sequence > run.progress.slots ==> !announce && sync == (run.progress.sync_every != 0
                && sequence % run.progress.sync_every == 0) && identity == (sequence % 256 == 0)
        },
{
}

/// Everything that is due after a write is done, one thing at a time, before the next write; at the end
/// every slot is read, one after the other, before the run is over.
pub proof fn law_nothing_due_is_left_out(run: Run, stop: bool)
    requires
        run.wf(),
    ensures
        run.stage matches Stage::Following { sync, announce, identity, pause } ==> {
            &&& run.due(stop) is Sync && sync ==> run.stage_after(stop) == (Stage::Following {
                sync: false,
                announce,
                identity,
                pause,
            })
            &&& run.due(stop) is Write ==> !sync && !announce && !identity && !pause
            &&& run.due(stop) is Announce ==> announce && run.stage_after(stop) == (
            Stage::Following { sync, announce: false, identity, pause })
            &&& run.due(stop) is CheckIdentity ==> identity && run.stage_after(stop) == (
            Stage::Following { sync, announce, identity: false, pause })
            &&& run.due(stop) is Pause ==> pause
        },
        run.stage matches Stage::Verifying { slot } ==> {
            &&& slot < run.progress.slots ==> run.stage_after(stop) == (Stage::Verifying {
                slot: (slot + 1) as u64,
            })
            &&& run.due(stop) is CheckLast ==> slot == run.progress.slots
        },
        run.stage_after(stop) == Stage::Done ==> run.stage == Stage::Done || run.stage == (
        Stage::Verifying { slot: run.progress.slots }),
{
}

} // verus!
