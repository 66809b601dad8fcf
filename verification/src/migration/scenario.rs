//! The scenario that drives two leaves: batches of writes, migrations and snapshots.
use vstd::prelude::*;
use vstd::string::*;

use crate::error::{Error, ErrorKind};
use crate::migration::leaf::Entry;
use crate::random::next_shifted;
use crate::text::{join2, parse_unsigned, str_eq};
#[allow(unused_imports)]
use crate::error::Fault;

verus! {

/// How many entries a batch has.
pub const BATCH: usize = 32;

/// The number that a text gives.
pub open spec fn number_of(text: Seq<char>, max: nat) -> Result<u64, Fault> {
    match crate::text::unsigned_value(text, max) {
        Some(n) => Ok(n as u64),
        None => Err((ErrorKind::Other, "invalid number: "@ + text)),
    }
}

/// The number of at most `max` that a text gives.
pub fn parse(text: &str, max: u64) -> (r: Result<u64, Error>)
    ensures
        crate::error::agrees(r, number_of(text@, max as nat)),
{
    match parse_unsigned(text, max) {
        Some(n) => Ok(n),
        None => Err(Error::new(ErrorKind::Other, join2("invalid number: ", text))),
    }
}

/// What a command line asks for.
#[derive(Debug)]
pub enum Command {
    Leaf { listen: String, device: String, blocks: usize, foreground_iops: u64 },
    Scenario { fast: String, slow: String, log: String, blocks: usize },
}

/// What is meant by [`Command`].
pub enum CommandView {
    Leaf { listen: Seq<char>, device: Seq<char>, blocks: usize, foreground_iops: u64 },
    Scenario { fast: Seq<char>, slow: Seq<char>, log: Seq<char>, blocks: usize },
}

impl View for Command {
    type V = CommandView;

    open spec fn view(&self) -> CommandView {
        match self {
            Command::Leaf { listen, device, blocks, foreground_iops } => CommandView::Leaf {
                listen: listen@,
                device: device@,
                blocks: *blocks,
                foreground_iops: *foreground_iops,
            },
            Command::Scenario { fast, slow, log, blocks } => CommandView::Scenario {
                fast: fast@,
                slow: slow@,
                log: log@,
                blocks: *blocks,
            },
        }
    }
}

/// How the emulator is called.
pub open spec fn usage_fault() -> Fault {
    (
        ErrorKind::Other,
        "usage: zciops-migration-emu leaf LISTEN DEVICE BLOCKS FOREGROUND_IOPS | scenario FAST SLOW LOG BLOCKS"@,
    )
}

/// What a command line asks for.
pub open spec fn command_due(args: Seq<Seq<char>>) -> Result<CommandView, Fault> {
    if args.len() != 5 {
        Err(usage_fault())
    } else if args[0] == "leaf"@ {
        match number_of(args[3], usize::MAX as nat) {
            Err(e) => Err(e),
            Ok(blocks) => match number_of(args[4], u64::MAX as nat) {
                Err(e) => Err(e),
                Ok(foreground_iops) => Ok(
                    CommandView::Leaf {
                        listen: args[1],
                        device: args[2],
                        blocks: blocks as usize,
                        foreground_iops,
                    },
                ),
            },
        }
    } else if args[0] == "scenario"@ {
        match number_of(args[4], usize::MAX as nat) {
            Err(e) => Err(e),
            Ok(blocks) => Ok(
                CommandView::Scenario {
                    fast: args[1],
                    slow: args[2],
                    log: args[3],
                    blocks: blocks as usize,
                },
            ),
        }
    } else {
        Err(usage_fault())
    }
}

/// What a command line asks for.
pub fn parse_command(args: &Vec<String>) -> (r: Result<Command, Error>)
    ensures
        match r {
            Ok(c) => command_due(crate::text::texts(args@)) == Ok::<CommandView, Fault>(c@),
            Err(e) => command_due(crate::text::texts(args@)) == Err::<CommandView, Fault>(e@),
        },
{
    let usage: &str =
        "usage: zciops-migration-emu leaf LISTEN DEVICE BLOCKS FOREGROUND_IOPS | scenario FAST SLOW LOG BLOCKS";
    if args.len() != 5 {
        return Err(Error::of(ErrorKind::Other, usage));
    }
    if str_eq(args[0].as_str(), "leaf") {
        let blocks: u64 = match parse(args[3].as_str(), usize::MAX as u64) {
            Ok(n) => n,
            Err(e) => {
                return Err(e);
            },
        };
        match parse(args[4].as_str(), u64::MAX) {
            Ok(foreground_iops) => Ok(
                Command::Leaf {
                    listen: args[1].clone(),
                    device: args[2].clone(),
                    blocks: blocks as usize,
                    foreground_iops,
                },
            ),
            Err(e) => Err(e),
        }
    } else if str_eq(args[0].as_str(), "scenario") {
        match parse(args[4].as_str(), usize::MAX as u64) {
            Ok(blocks) => Ok(
                Command::Scenario {
                    fast: args[1].clone(),
                    slow: args[2].clone(),
                    log: args[3].clone(),
                    blocks: blocks as usize,
                },
            ),
            Err(e) => Err(e),
        }
    } else {
        Err(Error::of(ErrorKind::Other, usage))
    }
}

/// The entries of blocks that were never written.
pub open spec fn blank(blocks: nat) -> Seq<Entry> {
    Seq::new(blocks, |i: int| Entry { block: i as u32, sequence: 0, value: 0 })
}

/// The entries of blocks that were never written.
pub fn initial_state(blocks: usize) -> (v: Vec<Entry>)
    ensures
        v@ == blank(blocks as nat),
{
    let mut v: Vec<Entry> = Vec::new();
    let mut i: usize = 0;
    while i < blocks
        invariant
            i <= blocks,
            v@ == blank(i as nat),
        decreases blocks - i,
    {
        v.push(Entry { block: i as u32, sequence: 0, value: 0 });
        i = i + 1;
        proof {
            assert(v@ =~= blank(i as nat));
        }
    }
    v
}

/// What the writer knows: the newest entry of each block, the last sequence number, and the state of its
/// generator.
pub struct WriterView {
    pub entries: Seq<Entry>,
    pub sequence: u64,
    pub random: u64,
}

/// The entry that comes next.
pub open spec fn next_entry(w: WriterView) -> Entry {
    let random = crate::random::shifted(w.random);
    let block = (random as usize) % (w.entries.len() as usize);
    Entry {
        block: block as u32,
        sequence: (w.sequence + 1) as u64,
        value: random ^ ((w.sequence + 1) as u64),
    }
}

/// What the writer knows after one more entry.
pub open spec fn stepped(w: WriterView) -> WriterView {
    let random = crate::random::shifted(w.random);
    let block = (random as usize) % (w.entries.len() as usize);
    WriterView {
        entries: w.entries.update(block as int, next_entry(w)),
        sequence: (w.sequence + 1) as u64,
        random,
    }
}

/// What the writer knows after some more entries.
pub open spec fn after_entries(w: WriterView, n: nat) -> WriterView
    decreases n,
{
    if n == 0 {
        w
    } else {
        stepped(after_entries(w, (n - 1) as nat))
    }
}

/// The next entries of the writer.
pub open spec fn entries_from(w: WriterView, n: nat) -> Seq<Entry> {
    Seq::new(n, |i: int| next_entry(after_entries(w, i as nat)))
}

proof fn lemma_entries_len(w: WriterView, n: nat)
    ensures
        after_entries(w, n).entries.len() == w.entries.len() || w.entries.len() == 0
            || w.entries.len() > usize::MAX,
        w.sequence + n <= u64::MAX ==> after_entries(w, n).sequence == w.sequence + n,
    decreases n,
{
    if n > 0 {
        lemma_entries_len(w, (n - 1) as nat);
        let before = after_entries(w, (n - 1) as nat);
        if 0 < w.entries.len() <= usize::MAX {
            let random = crate::random::shifted(before.random);
            let len = before.entries.len() as usize;
            vstd::arithmetic::div_mod::lemma_mod_bound(random as usize as int, len as int);
        }
    }
}

/// Makes the next batch of writes, and takes note of it.
pub fn next_batch(state: &mut Vec<Entry>, sequence: &mut u64, random: &mut u64) -> (batch: Vec<Entry>)
    requires
        old(state)@.len() > 0,
        *old(sequence) + 32 <= u64::MAX,
    ensures
        ({
            let before = WriterView {
                entries: old(state)@,
                sequence: *old(sequence),
                random: *old(random),
            };
            &&& batch@ == entries_from(before, 32)
            &&& (WriterView {
                entries: final(state)@,
                sequence: *final(sequence),
                random: *final(random),
            }) == after_entries(before, 32)
        }),
        final(state)@.len() == old(state)@.len(),
        *final(sequence) == *old(sequence) + 32,
{
    let mut batch: Vec<Entry> = Vec::new();
    let count: usize = state.len();
    let ghost first = WriterView { entries: state@, sequence: *sequence, random: *random };
    let mut i: usize = 0;
    while i < 32
        invariant
            i <= 32,
            count > 0,
            count == state@.len(),
            count == old(state)@.len(),
            first == (WriterView {
                entries: old(state)@,
                sequence: *old(sequence),
                random: *old(random),
            }),
            first.sequence + 32 <= u64::MAX,
            *sequence == first.sequence + i,
            (WriterView { entries: state@, sequence: *sequence, random: *random })
                == after_entries(first, i as nat),
            batch@ == entries_from(first, i as nat),
        decreases 32 - i,
    {
        let ghost now = WriterView { entries: state@, sequence: *sequence, random: *random };
        *random = next_shifted(*random);
        let block: usize = (*random as usize) % count;
        *sequence = *sequence + 1;
        let entry: Entry = Entry {
            block: block as u32,
            sequence: *sequence,
            value: *random ^ *sequence,
        };
        proof {
            assert(entry == next_entry(now));
        }
        state.set(block, entry);
        batch.push(entry);
        i = i + 1;
        proof {
            assert(batch@ =~= entries_from(first, i as nat));
        }
    }
    batch
}

/// The sequence numbers of the writer follow one another without a gap.
pub proof fn law_sequences_have_no_gap(w: WriterView, n: nat, i: int)
    requires
        0 <= i < n,
        w.sequence + n <= u64::MAX,
    ensures
        entries_from(w, n)[i].sequence == w.sequence + i + 1,
{
    lemma_entries_len(w, i as nat);
}

/// The chunk of some entries that begins at an index.
pub open spec fn chunk_at(entries: Seq<Entry>, start: int) -> Seq<Entry> {
    entries.subrange(
        start,
        if start + 32 <= entries.len() {
            start + 32
        } else {
            entries.len() as int
        },
    )
}

/// The chunk of some entries that begins at an index.
pub fn chunk(entries: &Vec<Entry>, start: usize) -> (v: Vec<Entry>)
    requires
        start <= entries@.len(),
    ensures
        v@ == chunk_at(entries@, start as int),
{
    let count: usize = entries.len();
    let end: usize = if count - start >= 32 {
        start + 32
    } else {
        count
    };
    let mut v: Vec<Entry> = Vec::new();
    let mut i: usize = start;
    while i < end
        invariant
            start <= i <= end <= entries@.len(),
            v@ == entries@.subrange(start as int, i as int),
        decreases end - i,
    {
        v.push(entries[i]);
        i = i + 1;
        proof {
            assert(v@ =~= entries@.subrange(start as int, i as int));
        }
    }
    v
}

/// What is heard of a copy that runs beside the live writes.
#[derive(Debug)]
pub enum CopyEvent {
    Running,
    Finished,
    Failed { error: Error },
    Gone,
}

/// Whether the live writes still go to both leaves; a failure where the copy has failed.
pub fn migrate(event: CopyEvent) -> (r: Result<bool, Error>)
    ensures
        match (event, r) {
            (CopyEvent::Running, Ok(copying)) => copying,
            (CopyEvent::Finished, Ok(copying)) => !copying,
            (CopyEvent::Failed { error }, Err(e)) => e == error,
            (CopyEvent::Gone, Err(e)) => e@ == (
                ErrorKind::Other,
                "migration copier disconnected"@,
            ),
            _ => false,
        },
{
    match event {
        CopyEvent::Running => Ok(true),
        CopyEvent::Finished => Ok(false),
        CopyEvent::Failed { error } => Err(error),
        CopyEvent::Gone => Err(Error::of(ErrorKind::Other, "migration copier disconnected")),
    }
}

/// Checks an answer of a leaf.
pub fn check_response(ok: bool, message: &str) -> (r: Result<(), Error>)
    ensures
        match r {
            Ok(_) => ok,
            Err(e) => !ok && e@ == (ErrorKind::Other, message@),
        },
{
    if ok {
        Ok(())
    } else {
        Err(Error::of(ErrorKind::Other, message))
    }
}

/// Which of the two leaves.
#[derive(Clone, Copy, Debug, PartialEq, Eq, Structural)]
pub enum Side {
    Fast,
    Slow,
}

/// A step of the scenario.
#[derive(Clone, Copy, Debug, PartialEq, Eq, Structural)]
pub enum Step {
    /// Write to a leaf for some seconds.
    Phase { side: Side, seconds: u64 },
    /// Carry every block over to a leaf.
    Migrate { to: Side },
    /// Let a leaf serve live writes at a rate.
    Rate { side: Side, iops: u64 },
    /// Let a leaf read every block at a rate.
    Snapshot { side: Side, iops: u64 },
    /// Wait until a leaf has read every block.
    AwaitSnapshot { side: Side },
    /// Look for the newest entry of every block.
    Verify { side: Side },
}

/// The steps of the scenario.
pub open spec fn scenario_steps() -> Seq<Step> {
    seq![
        Step::Phase { side: Side::Fast, seconds: 3 },
        Step::Migrate { to: Side::Slow },
        Step::Phase { side: Side::Slow, seconds: 3 },
        Step::Rate { side: Side::Slow, iops: 3_000 },
        Step::Phase { side: Side::Slow, seconds: 3 },
        Step::Snapshot { side: Side::Slow, iops: 2_000 },
        Step::Phase { side: Side::Slow, seconds: 3 },
        Step::AwaitSnapshot { side: Side::Slow },
        Step::Rate { side: Side::Slow, iops: 3_000 },
        Step::Phase { side: Side::Slow, seconds: 2 },
        Step::Rate { side: Side::Fast, iops: 6_000 },
        Step::Migrate { to: Side::Fast },
        Step::Rate { side: Side::Fast, iops: 6_000 },
        Step::Phase { side: Side::Fast, seconds: 3 },
        Step::Verify { side: Side::Fast },
    ]
}

/// The steps of the scenario.
pub fn run_scenario() -> (v: Vec<Step>)
    ensures
        v@ == scenario_steps(),
{
    let v: Vec<Step> = vec![
        Step::Phase { side: Side::Fast, seconds: 3 },
        Step::Migrate { to: Side::Slow },
        Step::Phase { side: Side::Slow, seconds: 3 },
        Step::Rate { side: Side::Slow, iops: 3_000 },
        Step::Phase { side: Side::Slow, seconds: 3 },
        Step::Snapshot { side: Side::Slow, iops: 2_000 },
        Step::Phase { side: Side::Slow, seconds: 3 },
        Step::AwaitSnapshot { side: Side::Slow },
        Step::Rate { side: Side::Slow, iops: 3_000 },
        Step::Phase { side: Side::Slow, seconds: 2 },
        Step::Rate { side: Side::Fast, iops: 6_000 },
        Step::Migrate { to: Side::Fast },
        Step::Rate { side: Side::Fast, iops: 6_000 },
        Step::Phase { side: Side::Fast, seconds: 3 },
        Step::Verify { side: Side::Fast },
    ];
    proof {
        assert(v@ =~= scenario_steps());
    }
    v
}

/// Whether a step writes to a leaf or looks for its blocks while the newest entries are on the other.
pub open spec fn misplaced(step: Step, current: Side) -> bool {
    match step {
        Step::Phase { side, .. } => side != current,
        Step::Snapshot { side, .. } => side != current,
        Step::AwaitSnapshot { side } => side != current,
        Step::Verify { side } => side != current,
        _ => false,
    }
}

/// The leaf that has the newest entries after some steps; the fast one has them at first.
pub open spec fn current_after(steps: Seq<Step>) -> Side
    decreases steps.len(),
{
    if steps.len() == 0 {
        Side::Fast
    } else {
        match steps.last() {
            Step::Migrate { to } => to,
            _ => current_after(steps.drop_last()),
        }
    }
}

/// Every phase, snapshot and check of the scenario works on the leaf that has the newest entries.
pub proof fn law_no_step_works_on_a_stale_leaf(i: int)
    requires
        0 <= i < scenario_steps().len(),
    ensures
        !misplaced(scenario_steps()[i], current_after(scenario_steps().subrange(0, i))),
{
    let s = scenario_steps();
    assert forall|k: int| 0 <= k <= s.len() implies #[trigger] current_after(s.subrange(0, k))
        == lead(k) by {
        lemma_lead(k);
    }
}

spec fn lead(k: int) -> Side {
    if 2 <= k <= 11 {
        Side::Slow
    } else {
        Side::Fast
    }
}

proof fn lemma_lead(k: int)
    requires
        0 <= k <= scenario_steps().len(),
    ensures
        current_after(scenario_steps().subrange(0, k)) == lead(k),
    decreases k,
{
    let s = scenario_steps();
    let t = s.subrange(0, k);
    if k > 0 {
        lemma_lead(k - 1);
        assert(t.drop_last() =~= s.subrange(0, k - 1));
        assert(t.last() == s[k - 1]);
    }
}

/// The state that the writer keeps is what it wrote last: the last entry of a block in a batch is the one
/// that it remembers of the block, and a block without an entry keeps what it had.
pub proof fn law_the_writer_remembers_its_entries(w: WriterView, n: nat, block: int)
    requires
        0 <= block < w.entries.len(),
        w.entries.len() <= u32::MAX,
        w.sequence + n <= u64::MAX,
    ensures
        after_entries(w, n).entries.len() == w.entries.len(),
        (forall|j: int| 0 <= j < n ==> (#[trigger] entries_from(w, n)[j]).block != block)
            ==> after_entries(w, n).entries[block] == w.entries[block],
        forall|i: int|
            0 <= i < n && (#[trigger] entries_from(w, n)[i]).block == block && (forall|j: int|
                i < j < n ==> (#[trigger] entries_from(w, n)[j]).block != block) ==> after_entries(
                w,
                n,
            ).entries[block] == entries_from(w, n)[i],
        forall|i: int|
            0 <= i < n ==> (#[trigger] entries_from(w, n)[i]).block < w.entries.len(),
    decreases n,
{
    if n > 0 {
        let m = (n - 1) as nat;
        law_the_writer_remembers_its_entries(w, m, block);
        let all = entries_from(w, n);
        let head = entries_from(w, m);
        let before = after_entries(w, m);
        let last = next_entry(before);
        assert(all[n - 1] == last);
        assert(last.block < w.entries.len());
        assert(forall|j: int| 0 <= j < m ==> #[trigger] head[j] == all[j]);
        assert(after_entries(w, n).entries == before.entries.update(last.block as int, last));
        assert forall|i: int| 0 <= i < n implies (#[trigger] all[i]).block < w.entries.len() by {
            if i < m {
                assert(head[i] == all[i]);
            }
        }
        if forall|j: int| 0 <= j < n ==> (#[trigger] all[j]).block != block {
            assert forall|j: int| 0 <= j < m implies (#[trigger] head[j]).block != block by {
                assert(head[j] == all[j]);
            }
            assert(all[n - 1].block != block);
        }
        assert forall|i: int|
            0 <= i < n && (#[trigger] all[i]).block == block && (forall|j: int|
                i < j < n ==> (#[trigger] all[j]).block != block) implies after_entries(
            w,
            n,
        ).entries[block] == all[i] by {
            if i < m {
                assert(head[i] == all[i]);
                assert(all[n - 1].block != block);
                assert forall|j: int| i < j < m implies (#[trigger] head[j]).block != block by {
                    assert(head[j] == all[j]);
                }
            }
        }
    }
}

/// The entries are copied in pieces of a batch, without a gap: a piece has the entries from its start on,
/// a whole batch of them unless fewer are left.
pub proof fn law_pieces_follow_one_another(entries: Seq<Entry>, start: int, i: int)
    requires
        0 <= start < entries.len(),
        0 <= i < chunk_at(entries, start).len(),
    ensures
        chunk_at(entries, start)[i] == entries[start + i],
        0 < chunk_at(entries, start).len() <= 32,
        chunk_at(entries, start).len() < 32 ==> start + chunk_at(entries, start).len()
            == entries.len(),
{
}

/// An entry tells the draw that it was made from: with its sequence taken out again, its value is that
/// draw, which also chose its block.
pub proof fn law_entries_tell_their_draw(w: WriterView)
    requires
        0 < w.entries.len() <= u32::MAX,
        w.sequence < u64::MAX,
    ensures
        next_entry(w).value ^ next_entry(w).sequence == crate::random::shifted(w.random),
        next_entry(w).sequence == w.sequence + 1,
        next_entry(w).block == (crate::random::shifted(w.random) as usize) % (
        w.entries.len() as usize),
{
    let random = crate::random::shifted(w.random);
    let sequence = (w.sequence + 1) as u64;
    assert((random ^ sequence) ^ sequence == random) by (bit_vector);
}

} // verus!
