//! A leaf: the blocks that it holds, and how it serves requests.
use vstd::prelude::*;
use vstd::string::*;

use crate::bytes::{get_le, put_le};
use crate::error::{Error, ErrorKind};
use crate::text::{decimal, join2, join4};

verus! {

/// The value that a block is to have as of a sequence number.
#[derive(Clone, Copy, Debug, PartialEq, Eq, Structural)]
pub struct Entry {
    pub block: u32,
    pub sequence: u64,
    pub value: u64,
}

/// The page of an entry: its sequence number and its value, each with the lowest byte first, and zeros.
pub open spec fn page_of(e: Entry) -> Seq<u8> {
    crate::bytes::le_bytes(e.sequence as nat, 8) + crate::bytes::le_bytes(e.value as nat, 8)
        + Seq::new(4080, |i: int| 0u8)
}

/// The page of an entry.
pub fn entry_page(e: Entry) -> (page: Vec<u8>)
    ensures
        page@ == page_of(e),
{
    let mut page: Vec<u8> = crate::bytes::filled(0, 4096);
    proof {
        crate::bytes::lemma_le_bytes_len(e.sequence as nat, 8);
        crate::bytes::lemma_le_bytes_len(e.value as nat, 8);
    }
    put_le(page.as_mut_slice(), 0, 8, e.sequence);
    put_le(page.as_mut_slice(), 8, 8, e.value);
    proof {
        assert(page@ =~= page_of(e));
    }
    page
}

/// Where the page of a block lies.
pub fn block_offset(block: u32) -> (offset: u64)
    ensures
        offset == block * 4096,
{
    block as u64 * 4096
}

/// The sequence number that a page holds.
pub open spec fn page_sequence(page: Seq<u8>) -> u64 {
    crate::bytes::le_value(page.subrange(0, 8)) as u64
}

/// The value that a page holds.
pub open spec fn page_value(page: Seq<u8>) -> u64 {
    crate::bytes::le_value(page.subrange(8, 16)) as u64
}

/// What is said of a page that is not that of an entry.
pub open spec fn mismatch_text(page: Seq<u8>, e: Entry) -> Seq<char> {
    "mismatch block="@ + crate::text::decimal_text(e.block as nat) + " got="@
        + crate::text::decimal_text(page_sequence(page) as nat) + ":"@ + crate::text::decimal_text(
        page_value(page) as nat,
    ) + " expected="@ + crate::text::decimal_text(e.sequence as nat) + ":"@
        + crate::text::decimal_text(e.value as nat)
}

/// Checks the page of an entry; says what is wrong with it.
pub fn verify_entry(page: &[u8], e: Entry) -> (r: Option<String>)
    requires
        page@.len() >= 16,
    ensures
        match r {
            None => page_sequence(page@) == e.sequence && page_value(page@) == e.value,
            Some(text) => !(page_sequence(page@) == e.sequence && page_value(page@) == e.value)
                && text@ == mismatch_text(page@, e),
        },
{
    proof {
        crate::bytes::lemma_byte_ranges();
        crate::bytes::lemma_le_value_bound(page@.subrange(0, 8));
        crate::bytes::lemma_le_value_bound(page@.subrange(8, 16));
    }
    let sequence: u64 = get_le(page, 0, 8);
    let value: u64 = get_le(page, 8, 8);
    if sequence == e.sequence && value == e.value {
        return None;
    }
    let block: String = decimal(e.block as u64);
    let got_sequence: String = decimal(sequence);
    let got_value: String = decimal(value);
    let due_sequence: String = decimal(e.sequence);
    let due_value: String = decimal(e.value);
    let head: String = join4("mismatch block=", block.as_str(), " got=", got_sequence.as_str());
    let middle: String = join4(head.as_str(), ":", got_value.as_str(), " expected=");
    Some(join4(middle.as_str(), due_sequence.as_str(), ":", due_value.as_str()))
}

/// The page of an entry passes its check.
pub proof fn law_a_written_entry_verifies(e: Entry)
    ensures
        page_sequence(page_of(e)) == e.sequence,
        page_value(page_of(e)) == e.value,
        page_of(e).len() == 4096,
{
    crate::bytes::lemma_byte_ranges();
    crate::bytes::lemma_le_bytes_len(e.sequence as nat, 8);
    crate::bytes::lemma_le_bytes_len(e.value as nat, 8);
    crate::bytes::lemma_le_round_trip(e.sequence as nat, 8);
    crate::bytes::lemma_le_round_trip(e.value as nat, 8);
    assert(page_of(e).subrange(0, 8) =~= crate::bytes::le_bytes(e.sequence as nat, 8));
    assert(page_of(e).subrange(8, 16) =~= crate::bytes::le_bytes(e.value as nat, 8));
}

/// What is asked of a leaf.
#[derive(Debug)]
pub enum Request {
    Write { class: IoClass, entries: Vec<Entry> },
    SetForegroundRate { iops: u64 },
    StartSnapshot { iops: u64 },
    SnapshotStatus,
    Verify { expected: Vec<Entry> },
    Shutdown,
}

/// On whose behalf a write is made.
#[derive(Clone, Copy, Debug, PartialEq, Eq, Structural)]
pub enum IoClass {
    Foreground,
    Migration,
}

/// What a leaf answers.
#[derive(Debug)]
pub struct Response {
    pub ok: bool,
    pub message: String,
    pub snapshot_ops: u64,
    pub snapshot_done: bool,
}

/// The newest sequence number of each block, and how fast the leaf works.
#[derive(Debug)]
pub struct Leaf {
    pub versions: Vec<u64>,
    pub foreground_iops: u64,
    pub snapshot_ops: u64,
    pub snapshot_done: bool,
}

/// The versions after an entry, where its block is there.
pub open spec fn version_after(versions: Seq<u64>, e: Entry) -> Seq<u64> {
    if e.block >= versions.len() {
        versions
    } else if versions[e.block as int] <= e.sequence {
        versions.update(e.block as int, e.sequence)
    } else {
        versions
    }
}

/// Whether an entry is newer than what its block holds, or as new.
pub open spec fn is_newest(versions: Seq<u64>, e: Entry) -> bool {
    e.block < versions.len() && versions[e.block as int] <= e.sequence
}

/// The versions after the first `n` entries, up to the first whose block is not there.
pub open spec fn versions_after(versions: Seq<u64>, entries: Seq<Entry>) -> Seq<u64>
    decreases entries.len(),
{
    if entries.len() == 0 {
        versions
    } else {
        version_after(versions_after(versions, entries.drop_last()), entries.last())
    }
}

/// The entries that are written, in turn.
pub open spec fn kept(versions: Seq<u64>, entries: Seq<Entry>) -> Seq<Entry>
    decreases entries.len(),
{
    if entries.len() == 0 {
        Seq::empty()
    } else {
        let before = kept(versions, entries.drop_last());
        if is_newest(versions_after(versions, entries.drop_last()), entries.last()) {
            before.push(entries.last())
        } else {
            before
        }
    }
}

/// How many of some entries come before the first whose block is not there.
pub open spec fn in_range(blocks: nat, entries: Seq<Entry>, i: int) -> int
    decreases entries.len() - i,
{
    if i < 0 || i >= entries.len() || entries[i].block >= blocks {
        i
    } else {
        in_range(blocks, entries, i + 1)
    }
}

proof fn lemma_in_range(blocks: nat, entries: Seq<Entry>, i: int, at: int)
    requires
        0 <= i <= at <= entries.len(),
        forall|k: int| i <= k < at ==> (#[trigger] entries[k]).block < blocks,
        at < entries.len() ==> entries[at].block >= blocks,
    ensures
        in_range(blocks, entries, i) == at,
    decreases at - i,
{
    if i < at {
        assert(entries[i].block < blocks);
        lemma_in_range(blocks, entries, i + 1, at);
    }
}

/// The words that a write to a block that is not there ends with.
pub open spec fn out_of_range() -> (ErrorKind, Seq<char>) {
    (ErrorKind::Other, "block out of range"@)
}

impl Leaf {
    /// A leaf of some blocks that were never written.
    pub fn new(blocks: usize, foreground_iops: u64) -> (leaf: Leaf)
        ensures
            leaf.versions@ == Seq::new(blocks as nat, |i: int| 0u64),
            leaf.foreground_iops == foreground_iops,
            leaf.snapshot_ops == 0,
            leaf.snapshot_done,
    {
        let mut versions: Vec<u64> = Vec::new();
        let mut i: usize = 0;
        while i < blocks
            invariant
                i <= blocks,
                versions@ == Seq::new(i as nat, |k: int| 0u64),
            decreases blocks - i,
        {
            versions.push(0);
            i = i + 1;
            proof {
                assert(versions@ =~= Seq::new(i as nat, |k: int| 0u64));
            }
        }
        Leaf { versions, foreground_iops, snapshot_ops: 0, snapshot_done: true }
    }

    /// Whether an entry is to be written; if so, its block is as new as that from now on.
    pub fn offer(&mut self, e: Entry) -> (r: Result<bool, Error>)
        ensures
            final(self).versions@ == version_after(old(self).versions@, e),
            final(self).foreground_iops == old(self).foreground_iops,
            final(self).snapshot_ops == old(self).snapshot_ops,
            final(self).snapshot_done == old(self).snapshot_done,
            match r {
                Ok(write) => e.block < old(self).versions@.len() && write == is_newest(
                    old(self).versions@,
                    e,
                ),
                Err(f) => e.block >= old(self).versions@.len() && f@ == out_of_range(),
            },
    {
        let count: usize = self.versions.len();
        if e.block as u64 >= count as u64 {
            return Err(Error::of(ErrorKind::Other, "block out of range"));
        }
        let i: usize = e.block as usize;
        if self.versions[i] <= e.sequence {
            self.versions.set(i, e.sequence);
            Ok(true)
        } else {
            Ok(false)
        }
    }

    /// The entries of a request that are to be written, in turn; a failure where a block is not there,
    /// and then no entry from that one on counts.
    pub fn write(&mut self, entries: &Vec<Entry>) -> (r: (Vec<Entry>, Result<(), Error>))
        ensures
            final(self).foreground_iops == old(self).foreground_iops,
            final(self).snapshot_ops == old(self).snapshot_ops,
            final(self).snapshot_done == old(self).snapshot_done,
            ({
                let n = in_range(old(self).versions@.len(), entries@, 0);
                let (writes, end) = r;
                &&& 0 <= n <= entries@.len()
                &&& final(self).versions@ == versions_after(
                    old(self).versions@,
                    entries@.subrange(0, n),
                )
                &&& writes@ == kept(old(self).versions@, entries@.subrange(0, n))
                &&& match end {
                    Ok(_) => n == entries@.len(),
                    Err(e) => n < entries@.len() && e@ == out_of_range(),
                }
            }),
    {
        let mut writes: Vec<Entry> = Vec::new();
        let ghost first = self.versions@;
        let mut i: usize = 0;
        proof {
            assert(entries@.subrange(0, 0) =~= Seq::<Entry>::empty());
        }
        while i < entries.len()
            invariant
                i <= entries@.len(),
                first == old(self).versions@,
                self.foreground_iops == old(self).foreground_iops,
                self.snapshot_ops == old(self).snapshot_ops,
                self.snapshot_done == old(self).snapshot_done,
                self.versions@ == versions_after(first, entries@.subrange(0, i as int)),
                self.versions@.len() == first.len(),
                writes@ == kept(first, entries@.subrange(0, i as int)),
                forall|k: int| 0 <= k < i ==> (#[trigger] entries@[k]).block < first.len(),
            decreases entries@.len() - i,
        {
            let e: Entry = entries[i];
            proof {
                let next = entries@.subrange(0, i + 1);
                assert(next.drop_last() =~= entries@.subrange(0, i as int));
                assert(next.last() == e);
            }
            match self.offer(e) {
                Ok(write) => {
                    if write {
                        writes.push(e);
                    }
                },
                Err(f) => {
                    proof {
                        lemma_in_range(first.len(), entries@, 0, i as int);
                    }
                    return (writes, Err(f));
                },
            }
            i = i + 1;
        }
        proof {
            lemma_in_range(first.len(), entries@, 0, i as int);
        }
        (writes, Ok(()))
    }
}

/// What a leaf does with a request.
#[derive(Debug)]
pub enum Action {
    /// Write entries, after a pause.
    Write { pace_iops: u64 },
    /// Answer as it is.
    Answer,
    /// Begin the pace of the foreground anew, and answer.
    Repace,
    /// Read every block at a rate, and answer meanwhile.
    Snapshot { iops: u64 },
    /// Look for entries and answer what is wrong.
    Verify,
    /// Answer and end the connection.
    Close,
}

/// What a leaf does with a request; a write is paced by its class.
pub open spec fn action_due(leaf: Leaf, request: Request) -> Action {
    match request {
        Request::Write { class, .. } => Action::Write {
            pace_iops: match class {
                IoClass::Foreground => leaf.foreground_iops,
                IoClass::Migration => 4_000,
            },
        },
        Request::SetForegroundRate { .. } => Action::Repace,
        Request::StartSnapshot { iops } => if leaf.snapshot_done {
            Action::Snapshot { iops }
        } else {
            Action::Answer
        },
        Request::SnapshotStatus => Action::Answer,
        Request::Verify { .. } => Action::Verify,
        Request::Shutdown => Action::Close,
    }
}

/// The words that a request is answered with, and whether it was granted, before what a check adds.
pub open spec fn words_due(leaf: Leaf, request: Request) -> (bool, Seq<char>) {
    match request {
        Request::SetForegroundRate { iops } => (
            true,
            "foreground_iops="@ + crate::text::decimal_text(iops as nat),
        ),
        Request::StartSnapshot { .. } => if leaf.snapshot_done {
            (true, "ok"@)
        } else {
            (false, "snapshot already active"@)
        },
        _ => (true, "ok"@),
    }
}

impl Leaf {
    /// Takes note of a request: gives what is to be done and what is answered. A snapshot begins anew
    /// where none is running.
    pub fn serve(&mut self, request: &Request) -> (r: (Action, Response))
        ensures
            final(self).versions@ == old(self).versions@,
            final(self).foreground_iops == match request {
                Request::SetForegroundRate { iops } => *iops,
                _ => old(self).foreground_iops,
            },
            final(self).snapshot_ops == if request is StartSnapshot && old(self).snapshot_done {
                0
            } else {
                old(self).snapshot_ops
            },
            final(self).snapshot_done == (old(self).snapshot_done && !(request is StartSnapshot)),
            ({
                let (action, response) = r;
                &&& action == action_due(*old(self), *request)
                &&& (response.ok, response.message@) == words_due(*old(self), *request)
                &&& response.snapshot_ops == final(self).snapshot_ops
                &&& response.snapshot_done == final(self).snapshot_done
            }),
    {
        let mut ok: bool = true;
        let mut message: String = String::from_str("ok");
        let action: Action = match request {
            Request::Write { class, .. } => match class {
                IoClass::Foreground => Action::Write { pace_iops: self.foreground_iops },
                IoClass::Migration => Action::Write { pace_iops: 4_000 },
            },
            Request::SetForegroundRate { iops } => {
                self.foreground_iops = *iops;
                let digits: String = decimal(*iops);
                message = join2("foreground_iops=", digits.as_str());
                Action::Repace
            },
            Request::StartSnapshot { iops } => {
                if self.snapshot_done {
                    self.snapshot_done = false;
                    self.snapshot_ops = 0;
                    Action::Snapshot { iops: *iops }
                } else {
                    ok = false;
                    message = String::from_str("snapshot already active");
                    Action::Answer
                }
            },
            Request::SnapshotStatus => Action::Answer,
            Request::Verify { .. } => Action::Verify,
            Request::Shutdown => Action::Close,
        };
        let response: Response = Response {
            ok,
            message,
            snapshot_ops: self.snapshot_ops,
            snapshot_done: self.snapshot_done,
        };
        (action, response)
    }

    /// Counts a block that a snapshot has read.
    pub fn snapshot_read(&mut self)
        requires
            old(self).snapshot_ops < u64::MAX,
        ensures
            *final(self) == (Leaf { snapshot_ops: (old(self).snapshot_ops + 1) as u64, ..*old(self) }),
    {
        self.snapshot_ops = self.snapshot_ops + 1;
    }

    /// Takes note that a snapshot has read every block.
    pub fn snapshot_finished(&mut self)
        ensures
            *final(self) == (Leaf { snapshot_done: true, ..*old(self) }),
    {
        self.snapshot_done = true;
    }
}

/// How many operations were let through so far; they are counted from a moment that the caller keeps.
#[derive(Clone, Copy, Debug, PartialEq, Eq, Structural)]
pub struct Pacer {
    pub operations: u64,
}

/// The nanoseconds after which a number of operations is due at a rate.
pub open spec fn due_nanos(operations: int, iops: int) -> int {
    let product = operations * 1_000_000_000;
    (if product > u64::MAX {
        u64::MAX as int
    } else {
        product
    }) / iops
}

impl Pacer {
    /// Nothing let through yet.
    pub fn new() -> (p: Pacer)
        ensures
            p.operations == 0,
    {
        Pacer { operations: 0 }
    }

    /// Counts operations at a rate, and gives the nanoseconds since the start after which they are due. A
    /// rate of zero does not limit, and then they do not count.
    pub fn pace(&mut self, count: u64, iops: u64) -> (due: Option<u64>)
        requires
            iops != 0 ==> old(self).operations + count <= u64::MAX,
        ensures
            match due {
                None => iops == 0 && *final(self) == *old(self),
                Some(nanos) => {
                    &&& iops != 0
                    &&& final(self).operations == old(self).operations + count
                    &&& nanos == due_nanos(final(self).operations as int, iops as int)
                },
            },
    {
        if iops == 0 {
            return None;
        }
        self.operations = self.operations + count;
        let product: u64 = match self.operations.checked_mul(1_000_000_000) {
            Some(n) => n,
            None => u64::MAX,
        };
        Some(product / iops)
    }
}

/// The entries that the blocks of a leaf hold, once some were offered to it in turn.
pub open spec fn held_after(held: Seq<Entry>, entries: Seq<Entry>) -> Seq<Entry>
    decreases entries.len(),
{
    if entries.len() == 0 {
        held
    } else {
        held_with(held_after(held, entries.drop_last()), entries.last())
    }
}

/// The entries that the blocks of a leaf hold, once one more was offered to it: an older one is not
/// written.
pub open spec fn held_with(held: Seq<Entry>, e: Entry) -> Seq<Entry> {
    if is_newest(versions_of(held), e) {
        held.update(e.block as int, e)
    } else {
        held
    }
}

/// The sequence numbers of some entries.
pub open spec fn versions_of(held: Seq<Entry>) -> Seq<u64> {
    held.map_values(|e: Entry| e.sequence)
}

/// The versions that a leaf keeps are those of the entries that its blocks hold.
pub proof fn law_versions_are_what_is_held(held: Seq<Entry>, entries: Seq<Entry>)
    ensures
        versions_of(held_after(held, entries)) == versions_after(versions_of(held), entries),
        held_after(held, entries).len() == held.len(),
    decreases entries.len(),
{
    if entries.len() > 0 {
        let before = held_after(held, entries.drop_last());
        let e = entries.last();
        law_versions_are_what_is_held(held, entries.drop_last());
        assert(versions_of(held_with(before, e)) =~= version_after(versions_of(before), e));
    }
}

/// In whatever order a copy and the live writes arrive, a block holds the newest entry that arrived for
/// it, provided that no two entries of a block share a sequence number.
pub proof fn law_the_newest_arrival_stays(held: Seq<Entry>, entries: Seq<Entry>, newest: Entry)
    requires
        newest.block < held.len(),
        held[newest.block as int].sequence < newest.sequence || held[newest.block as int] == newest,
        entries.contains(newest) || held[newest.block as int] == newest,
        forall|i: int|
            0 <= i < entries.len() && (#[trigger] entries[i]).block == newest.block
                ==> entries[i].sequence < newest.sequence || entries[i] == newest,
    ensures
        held_after(held, entries)[newest.block as int] == newest,
    decreases entries.len(),
{
    let b = newest.block as int;
    if entries.len() > 0 {
        let rest = entries.drop_last();
        let e = entries.last();
        assert(entries[entries.len() - 1] == e);
        assert forall|i: int| 0 <= i < rest.len() && (#[trigger] rest[i]).block
            == newest.block implies rest[i].sequence < newest.sequence || rest[i] == newest by {
            assert(rest[i] == entries[i]);
        }
        lemma_held_bound(held, rest, newest);
        law_versions_are_what_is_held(held, rest);
        let before = held_after(held, rest);
        assert(versions_of(before)[b] == before[b].sequence);
        if e == newest {
            assert(before[b].sequence <= newest.sequence);
        } else {
            if held[b] != newest {
                let k = choose|k: int| 0 <= k < entries.len() && entries[k] == newest;
                assert(rest[k] == newest);
                assert(rest.contains(newest));
            }
            law_the_newest_arrival_stays(held, rest, newest);
            if e.block < before.len() {
                assert(versions_of(before)[e.block as int] == before[e.block as int].sequence);
            }
        }
    }
}

proof fn lemma_held_bound(held: Seq<Entry>, entries: Seq<Entry>, newest: Entry)
    requires
        newest.block < held.len(),
        held[newest.block as int].sequence <= newest.sequence,
        forall|i: int|
            0 <= i < entries.len() && (#[trigger] entries[i]).block == newest.block
                ==> entries[i].sequence < newest.sequence || entries[i] == newest,
    ensures
        held_after(held, entries)[newest.block as int].sequence <= newest.sequence,
    decreases entries.len(),
{
    if entries.len() > 0 {
        let rest = entries.drop_last();
        assert(entries[entries.len() - 1] == entries.last());
        assert forall|i: int| 0 <= i < rest.len() && (#[trigger] rest[i]).block
            == newest.block implies rest[i].sequence < newest.sequence || rest[i] == newest by {
            assert(rest[i] == entries[i]);
        }
        lemma_held_bound(held, rest, newest);
        law_versions_are_what_is_held(held, rest);
    }
}

/// Two entries of different blocks, or of different sequence numbers, can be offered in either order.
pub proof fn law_entries_commute(held: Seq<Entry>, a: Entry, b: Entry)
    requires
        a.block != b.block || a.sequence != b.sequence,
    ensures
        held_with(held_with(held, a), b) == held_with(held_with(held, b), a),
{
    let ab = held_with(held_with(held, a), b);
    let ba = held_with(held_with(held, b), a);
    let x = held_with(held, a);
    let y = held_with(held, b);
    if a.block < held.len() && b.block < held.len() {
        assert(versions_of(held)[a.block as int] == held[a.block as int].sequence);
        assert(versions_of(held)[b.block as int] == held[b.block as int].sequence);
        assert(versions_of(x)[b.block as int] == x[b.block as int].sequence);
        assert(versions_of(y)[a.block as int] == y[a.block as int].sequence);
        assert(ab =~= ba);
    } else if a.block < held.len() {
        assert(versions_of(held)[a.block as int] == held[a.block as int].sequence);
    } else if b.block < held.len() {
        assert(versions_of(held)[b.block as int] == held[b.block as int].sequence);
    }
}

proof fn lemma_first_bad_block(blocks: nat, entries: Seq<Entry>, i: int)
    requires
        0 <= i <= entries.len(),
    ensures
        i <= in_range(blocks, entries, i) <= entries.len(),
        forall|k: int| i <= k < in_range(blocks, entries, i) ==> (#[trigger] entries[k]).block < blocks,
        in_range(blocks, entries, i) < entries.len() ==> entries[in_range(blocks, entries, i)].block
            >= blocks,
    decreases entries.len() - i,
{
    if i < entries.len() && entries[i].block < blocks {
        lemma_first_bad_block(blocks, entries, i + 1);
    }
}

/// The entries that a leaf takes are those before the first one that names a block it does not have.
pub proof fn law_entries_are_taken_up_to_a_bad_block(blocks: nat, entries: Seq<Entry>)
    ensures
        0 <= in_range(blocks, entries, 0) <= entries.len(),
        forall|k: int| 0 <= k < in_range(blocks, entries, 0) ==> (#[trigger] entries[k]).block < blocks,
        in_range(blocks, entries, 0) < entries.len() ==> entries[in_range(blocks, entries, 0)].block
            >= blocks,
{
    lemma_first_bad_block(blocks, entries, 0);
}

/// What blocks hold after entries were written to them one after the other, whatever was there before.
pub open spec fn overwritten(held: Seq<Entry>, entries: Seq<Entry>) -> Seq<Entry>
    decreases entries.len(),
{
    if entries.len() == 0 {
        held
    } else {
        overwritten(held, entries.drop_last()).update(
            entries.last().block as int,
            entries.last(),
        )
    }
}

/// Writing the entries that a leaf keeps leaves on its blocks exactly the entries that it holds.
pub proof fn law_what_is_written_is_what_is_held(held: Seq<Entry>, entries: Seq<Entry>)
    ensures
        overwritten(held, kept(versions_of(held), entries)) == held_after(held, entries),
    decreases entries.len(),
{
    if entries.len() > 0 {
        let head = entries.drop_last();
        law_what_is_written_is_what_is_held(held, head);
        law_versions_are_what_is_held(held, head);
        let before = kept(versions_of(held), head);
        assert(before.push(entries.last()).drop_last() =~= before);
    }
}

/// Operations are paced at their rate: so many operations are due after no more time than they take at
/// that rate, and less than a nanosecond early.
pub proof fn law_operations_are_due_at_their_rate(operations: int, iops: int)
    requires
        0 <= operations,
        0 < iops,
        operations * 1_000_000_000 <= u64::MAX,
    ensures
        due_nanos(operations, iops) * iops <= operations * 1_000_000_000,
        operations * 1_000_000_000 < (due_nanos(operations, iops) + 1) * iops,
{
    let product = operations * 1_000_000_000;
    vstd::arithmetic::div_mod::lemma_fundamental_div_mod(product, iops);
    assert(iops * (product / iops) == (product / iops) * iops) by (nonlinear_arith);
    assert((product / iops + 1) * iops == (product / iops) * iops + iops) by (nonlinear_arith);
}

/// A write is paced by its class, a snapshot starts only where none is active, and nothing else starts
/// one.
pub proof fn law_requests_lead_to_their_action(leaf: Leaf, request: Request)
    ensures
        match action_due(leaf, request) {
            Action::Write { pace_iops } => request matches Request::Write { class, .. } && (class
                == IoClass::Foreground ==> pace_iops == leaf.foreground_iops),
            Action::Snapshot { iops } => leaf.snapshot_done && (request matches Request::StartSnapshot {
                iops: asked,
            } && iops == asked),
            Action::Repace => request is SetForegroundRate,
            Action::Verify => request is Verify,
            Action::Close => request is Shutdown,
            Action::Answer => request is SnapshotStatus || (request is StartSnapshot
                && !leaf.snapshot_done),
        },
        !words_due(leaf, request).0 <==> request is StartSnapshot && !leaf.snapshot_done,
{
}

} // verus!
