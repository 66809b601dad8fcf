//! The smoke test of a persistent log: what is appended, made durable and looked for around crashes.
use vstd::prelude::*;
use vstd::string::*;

use crate::error::{corrupt, invalid_data, Error};
use crate::text::{contains_part, decimal, join2, join3, join4, quoted, str_eq};
use crate::topology::dataset::hex_digit;
#[allow(unused_imports)]
use crate::error::Fault;

verus! {

/// Where the first frame of a journal begins.
pub const DATA_START: u64 = 8192;

pub const LOGICAL_BYTES: u64 = 33554432;

pub const JOURNAL_BYTES: u64 = 33554432;

/// The system's number for a device without space.
pub const ENOSPC: i32 = 28;

/// The phases.
#[derive(Clone, Copy, Debug, PartialEq, Eq, Structural)]
pub enum Phase {
    FileMatrix,
    BlockInit,
    DirectBlock,
    CrashBeforePublish,
    VerifyBeforePublish,
    CrashAfterCommit,
    VerifyAfterCommit,
    CrashUnsynced,
    VerifyUnsynced,
    CorruptBlock,
}

/// The phase that a word names.
pub open spec fn phase_named(word: Seq<char>) -> Option<Phase> {
    if word == "file-matrix"@ {
        Some(Phase::FileMatrix)
    } else if word == "block-init"@ {
        Some(Phase::BlockInit)
    } else if word == "direct-block"@ {
        Some(Phase::DirectBlock)
    } else if word == "crash-before-publish"@ {
        Some(Phase::CrashBeforePublish)
    } else if word == "verify-before-publish"@ {
        Some(Phase::VerifyBeforePublish)
    } else if word == "crash-after-commit"@ {
        Some(Phase::CrashAfterCommit)
    } else if word == "verify-after-commit"@ {
        Some(Phase::VerifyAfterCommit)
    } else if word == "crash-unsynced"@ {
        Some(Phase::CrashUnsynced)
    } else if word == "verify-unsynced"@ {
        Some(Phase::VerifyUnsynced)
    } else if word == "corrupt-block"@ {
        Some(Phase::CorruptBlock)
    } else {
        None
    }
}

fn phase_of(word: &str) -> (p: Option<Phase>)
    ensures
        p == phase_named(word@),
{
    if str_eq(word, "file-matrix") {
        Some(Phase::FileMatrix)
    } else if str_eq(word, "block-init") {
        Some(Phase::BlockInit)
    } else if str_eq(word, "direct-block") {
        Some(Phase::DirectBlock)
    } else if str_eq(word, "crash-before-publish") {
        Some(Phase::CrashBeforePublish)
    } else if str_eq(word, "verify-before-publish") {
        Some(Phase::VerifyBeforePublish)
    } else if str_eq(word, "crash-after-commit") {
        Some(Phase::CrashAfterCommit)
    } else if str_eq(word, "verify-after-commit") {
        Some(Phase::VerifyAfterCommit)
    } else if str_eq(word, "crash-unsynced") {
        Some(Phase::CrashUnsynced)
    } else if str_eq(word, "verify-unsynced") {
        Some(Phase::VerifyUnsynced)
    } else if str_eq(word, "corrupt-block") {
        Some(Phase::CorruptBlock)
    } else {
        None
    }
}

/// An argument that must be there.
pub open spec fn required_due(value: Option<Seq<char>>, name: Seq<char>) -> Result<Seq<char>, Fault> {
    match value {
        Some(text) => Ok(text),
        None => Err(crate::error::bad_data("missing "@ + name)),
    }
}

/// An argument that must be there.
pub fn required(args: &Vec<String>, index: usize, name: &str) -> (r: Result<String, Error>)
    ensures
        match r {
            Ok(s) => required_due(
                crate::args::nth(crate::text::texts(args@), index as int),
                name@,
            ) == Ok::<Seq<char>, Fault>(s@),
            Err(e) => required_due(
                crate::args::nth(crate::text::texts(args@), index as int),
                name@,
            ) == Err::<Seq<char>, Fault>(e@),
        },
{
    match crate::args::value_at(args.as_slice(), index) {
        Some(s) => Ok(s),
        None => Err(invalid_data(join2("missing ", name))),
    }
}

/// A phase and where it works: a directory, or the two devices of a log.
#[derive(Debug)]
pub struct Invocation {
    pub phase: Phase,
    pub first: String,
    pub second: Option<String>,
}

/// What is meant by [`Invocation`].
pub struct InvocationView {
    pub phase: Phase,
    pub first: Seq<char>,
    pub second: Option<Seq<char>>,
}

impl View for Invocation {
    type V = InvocationView;

    open spec fn view(&self) -> InvocationView {
        InvocationView {
            phase: self.phase,
            first: self.first@,
            second: crate::args::said(self.second),
        }
    }
}

/// What a command line asks for.
pub open spec fn invocation_due(args: Seq<Seq<char>>) -> Result<InvocationView, Fault> {
    if args.len() == 0 {
        Err(crate::error::bad_data("missing phase"@))
    } else {
        match phase_named(args[0]) {
            None => Err(
                crate::error::bad_data("unknown phase "@ + crate::text::debug_text(args[0])),
            ),
            Some(Phase::FileMatrix) => match required_due(
                crate::args::nth(args, 1),
                "directory"@,
            ) {
                Err(e) => Err(e),
                Ok(first) => Ok(InvocationView { phase: Phase::FileMatrix, first, second: None }),
            },
            Some(phase) => match required_due(crate::args::nth(args, 1), "journal block"@) {
                Err(e) => Err(e),
                Ok(first) => match required_due(crate::args::nth(args, 2), "base block"@) {
                    Err(e) => Err(e),
                    Ok(second) => Ok(InvocationView { phase, first, second: Some(second) }),
                },
            },
        }
    }
}

/// What a command line asks for.
pub fn parse_invocation(args: &Vec<String>) -> (r: Result<Invocation, Error>)
    ensures
        match r {
            Ok(i) => invocation_due(crate::text::texts(args@)) == Ok::<InvocationView, Fault>(i@),
            Err(e) => invocation_due(crate::text::texts(args@)) == Err::<InvocationView, Fault>(
                e@,
            ),
        },
{
    if args.len() == 0 {
        return Err(corrupt("missing phase"));
    }
    let word: &str = args[0].as_str();
    proof {
        assert(crate::text::texts(args@)[0] == word@);
    }
    let phase: Phase = match phase_of(word) {
        Some(phase) => phase,
        None => {
            let shown: String = quoted(word);
            return Err(invalid_data(join2("unknown phase ", shown.as_str())));
        },
    };
    match phase {
        Phase::FileMatrix => match required(args, 1, "directory") {
            Ok(first) => Ok(Invocation { phase, first, second: None }),
            Err(e) => Err(e),
        },
        _ => {
            let first: String = match required(args, 1, "journal block") {
                Ok(first) => first,
                Err(e) => {
                    return Err(e);
                },
            };
            match required(args, 2, "base block") {
                Ok(second) => Ok(Invocation { phase, first, second: Some(second) }),
                Err(e) => Err(e),
            }
        },
    }
}

/// A page of one value.
pub fn page(value: u8) -> (v: Vec<u8>)
    ensures
        v@ == Seq::new(4096, |i: int| value),
{
    let v: Vec<u8> = crate::bytes::filled(value, 4096);
    proof {
        assert(v@ =~= Seq::new(4096, |i: int| value));
    }
    v
}

/// A byte in hexadecimal, without leading zeros.
pub open spec fn hex_byte(b: u8) -> Seq<char> {
    if b < 16 {
        "0x"@ + seq![crate::topology::dataset::hex_char(b as nat)]
    } else {
        "0x"@ + seq![
            crate::topology::dataset::hex_char((b / 16) as nat),
            crate::topology::dataset::hex_char((b % 16) as nat),
        ]
    }
}

fn show_byte(b: u8) -> (s: String)
    ensures
        s@ == hex_byte(b),
{
    let mut s: String = String::from_str("0x");
    if b >= 16 {
        s.push(hex_digit(b / 16));
    }
    s.push(hex_digit(b % 16));
    proof {
        assert(s@ =~= hex_byte(b));
    }
    s
}

/// Whether a page holds one value throughout.
pub open spec fn holds_value(bytes: Seq<u8>, value: u8) -> bool {
    forall|i: int| 0 <= i < bytes.len() ==> (#[trigger] bytes[i]) == value
}

/// Checks that a page holds one value.
pub fn expect_page(out: &[u8], page_index: u64, value: u8) -> (r: Result<(), Error>)
    requires
        out@.len() == 4096,
    ensures
        match r {
            Ok(_) => holds_value(out@, value),
            Err(e) => !holds_value(out@, value) && e@ == crate::error::bad_data(
                "page "@ + crate::text::decimal_text(page_index as nat)
                    + " mismatch: got first byte "@ + hex_byte(out@[0]) + ", expected "@ + hex_byte(
                    value,
                ),
            ),
        },
{
    let mut i: usize = 0;
    while i < 4096
        invariant
            i <= 4096,
            out@.len() == 4096,
            forall|k: int| 0 <= k < i ==> (#[trigger] out@[k]) == value,
        decreases 4096 - i,
    {
        if out[i] != value {
            let at: String = decimal(page_index);
            let got: String = show_byte(out[0]);
            let due: String = show_byte(value);
            let head: String = join4(
                "page ",
                at.as_str(),
                " mismatch: got first byte ",
                got.as_str(),
            );
            return Err(invalid_data(join3(head.as_str(), ", expected ", due.as_str())));
        }
        i = i + 1;
    }
    Ok(())
}

/// What is done to a log.
#[derive(Clone, Copy, Debug, PartialEq, Eq, Structural)]
pub enum Action {
    /// Open the log anew; what was not made durable is gone.
    Open,
    /// Look at what the log is backed by.
    CheckBacking,
    /// Append a page of one value.
    Append { page: u64, value: u8 },
    /// Make everything durable.
    Sync,
    /// Make the payload durable, and stop before it is published.
    SyncUnpublished,
    /// Look for a page of one value.
    Expect { page: u64, value: u8 },
    /// Tell that this point was reached, and wait for the power to fail.
    Halt,
}

/// The first write to a log, once it is known to lie on block devices.
pub fn block_init() -> (v: Vec<Action>)
    ensures
        v@ == init_steps(),
{
    let v: Vec<Action> = vec![
        Action::Open,
        Action::CheckBacking,
        Action::Append { page: 0, value: 0x11 },
        Action::Sync,
        Action::Expect { page: 0, value: 0x11 },
    ];
    proof {
        assert(v@ =~= init_steps());
    }
    v
}

/// The first write to a log, once it is known to lie on block devices.
pub open spec fn init_steps() -> Seq<Action> {
    seq![
        Action::Open,
        Action::CheckBacking,
        Action::Append { page: 0, value: 0x11 },
        Action::Sync,
        Action::Expect { page: 0, value: 0x11 },
    ]
}

/// A write whose payload is durable when the power fails, but that is not published.
pub open spec fn before_publish_steps() -> Seq<Action> {
    seq![Action::Open, Action::Append { page: 1, value: 0x22 }, Action::SyncUnpublished, Action::Halt]
}

/// A write whose payload is durable when the power fails, but that is not published.
pub fn crash_before_publish() -> (v: Vec<Action>)
    ensures
        v@ == before_publish_steps(),
{
    let v: Vec<Action> = vec![
        Action::Open,
        Action::Append { page: 1, value: 0x22 },
        Action::SyncUnpublished,
        Action::Halt,
    ];
    proof {
        assert(v@ =~= before_publish_steps());
    }
    v
}

/// What is looked for after that.
pub open spec fn old_prefix_steps() -> Seq<Action> {
    seq![
        Action::Open,
        Action::Expect { page: 0, value: 0x11 },
        Action::Expect { page: 1, value: 0 },
    ]
}

/// What is looked for after that.
pub fn verify_before_publish() -> (v: Vec<Action>)
    ensures
        v@ == old_prefix_steps(),
{
    let v: Vec<Action> = vec![
        Action::Open,
        Action::Expect { page: 0, value: 0x11 },
        Action::Expect { page: 1, value: 0 },
    ];
    proof {
        assert(v@ =~= old_prefix_steps());
    }
    v
}

/// A write that is published when the power fails.
pub open spec fn after_commit_steps() -> Seq<Action> {
    seq![Action::Open, Action::Append { page: 2, value: 0x33 }, Action::Sync, Action::Halt]
}

/// A write that is published when the power fails.
pub fn crash_after_commit() -> (v: Vec<Action>)
    ensures
        v@ == after_commit_steps(),
{
    let v: Vec<Action> = vec![
        Action::Open,
        Action::Append { page: 2, value: 0x33 },
        Action::Sync,
        Action::Halt,
    ];
    proof {
        assert(v@ =~= after_commit_steps());
    }
    v
}

/// What is looked for after that.
pub open spec fn new_prefix_steps() -> Seq<Action> {
    seq![
        Action::Open,
        Action::Expect { page: 0, value: 0x11 },
        Action::Expect { page: 1, value: 0 },
        Action::Expect { page: 2, value: 0x33 },
    ]
}

/// What is looked for after that.
pub fn verify_after_commit() -> (v: Vec<Action>)
    ensures
        v@ == new_prefix_steps(),
{
    let v: Vec<Action> = vec![
        Action::Open,
        Action::Expect { page: 0, value: 0x11 },
        Action::Expect { page: 1, value: 0 },
        Action::Expect { page: 2, value: 0x33 },
    ];
    proof {
        assert(v@ =~= new_prefix_steps());
    }
    v
}

/// A write that was not made durable when the power fails.
pub open spec fn unsynced_steps() -> Seq<Action> {
    seq![Action::Open, Action::Append { page: 3, value: 0x44 }, Action::Halt]
}

/// A write that was not made durable when the power fails.
pub fn crash_unsynced() -> (v: Vec<Action>)
    ensures
        v@ == unsynced_steps(),
{
    let v: Vec<Action> = vec![
        Action::Open,
        Action::Append { page: 3, value: 0x44 },
        Action::Halt,
    ];
    proof {
        assert(v@ =~= unsynced_steps());
    }
    v
}

/// What is looked for after that.
pub open spec fn unsynced_ignored_steps() -> Seq<Action> {
    seq![
        Action::Open,
        Action::Expect { page: 2, value: 0x33 },
        Action::Expect { page: 3, value: 0 },
    ]
}

/// What is looked for after that.
pub fn verify_unsynced() -> (v: Vec<Action>)
    ensures
        v@ == unsynced_ignored_steps(),
{
    let v: Vec<Action> = vec![
        Action::Open,
        Action::Expect { page: 2, value: 0x33 },
        Action::Expect { page: 3, value: 0 },
    ];
    proof {
        assert(v@ =~= unsynced_ignored_steps());
    }
    v
}

/// A log: what is published, and what was appended since.
pub struct LogModel {
    pub published: Map<u64, u8>,
    pub appended: Map<u64, u8>,
}

/// A log after an action: only a sync publishes, and what was not published does not outlive the power.
pub open spec fn acted(log: LogModel, action: Action) -> LogModel {
    match action {
        Action::Open => LogModel { appended: Map::empty(), ..log },
        Action::Append { page, value } => LogModel {
            appended: log.appended.insert(page, value),
            ..log
        },
        Action::Sync => LogModel {
            published: log.published.union_prefer_right(log.appended),
            appended: Map::empty(),
        },
        Action::CheckBacking => log,
        Action::SyncUnpublished => log,
        Action::Expect { .. } => log,
        Action::Halt => LogModel { appended: Map::empty(), ..log },
    }
}

/// The value of a page of a log; one that was never written is zero.
pub open spec fn read_of(log: LogModel, page: u64) -> u8 {
    if log.appended.dom().contains(page) {
        log.appended[page]
    } else if log.published.dom().contains(page) {
        log.published[page]
    } else {
        0
    }
}

/// Whether everything that some actions look for is there.
pub open spec fn all_found(log: LogModel, actions: Seq<Action>) -> bool
    decreases actions.len(),
{
    if actions.len() == 0 {
        true
    } else {
        &&& match actions[0] {
            Action::Expect { page, value } => read_of(log, page) == value,
            _ => true,
        }
        &&& all_found(acted(log, actions[0]), actions.skip(1))
    }
}

/// A log after some actions.
pub open spec fn acted_all(log: LogModel, actions: Seq<Action>) -> LogModel
    decreases actions.len(),
{
    if actions.len() == 0 {
        log
    } else {
        acted_all(acted(log, actions[0]), actions.skip(1))
    }
}

proof fn lemma_unroll(log: LogModel, a: Action, rest: Seq<Action>)
    ensures
        acted_all(log, seq![a] + rest) == acted_all(acted(log, a), rest),
        all_found(log, seq![a] + rest) == ((match a {
            Action::Expect { page, value } => read_of(log, page) == value,
            _ => true,
        }) && all_found(acted(log, a), rest)),
{
    assert((seq![a] + rest).skip(1) =~= rest);
    assert((seq![a] + rest)[0] == a);
}

proof fn lemma_three(log: LogModel, a: Action, b: Action, c: Action)
    ensures
        acted_all(log, seq![a, b, c]) == acted(acted(acted(log, a), b), c),
        all_found(log, seq![a, b, c]) == ((match a {
            Action::Expect { page, value } => read_of(log, page) == value,
            _ => true,
        }) && (match b {
            Action::Expect { page, value } => read_of(acted(log, a), page) == value,
            _ => true,
        }) && (match c {
            Action::Expect { page, value } => read_of(acted(acted(log, a), b), page) == value,
            _ => true,
        })),
{
    let e = Seq::<Action>::empty();
    assert(seq![c] =~= seq![c] + e);
    assert(seq![b, c] =~= seq![b] + seq![c]);
    assert(seq![a, b, c] =~= seq![a] + seq![b, c]);
    lemma_unroll(log, a, seq![b, c]);
    lemma_unroll(acted(log, a), b, seq![c]);
    lemma_unroll(acted(acted(log, a), b), c, e);
}

proof fn lemma_four(log: LogModel, a: Action, b: Action, c: Action, d: Action)
    ensures
        acted_all(log, seq![a, b, c, d]) == acted(acted(acted(acted(log, a), b), c), d),
        all_found(log, seq![a, b, c, d]) == ((match a {
            Action::Expect { page, value } => read_of(log, page) == value,
            _ => true,
        }) && (match b {
            Action::Expect { page, value } => read_of(acted(log, a), page) == value,
            _ => true,
        }) && (match c {
            Action::Expect { page, value } => read_of(acted(acted(log, a), b), page) == value,
            _ => true,
        }) && (match d {
            Action::Expect { page, value } => read_of(
                acted(acted(acted(log, a), b), c),
                page,
            ) == value,
            _ => true,
        })),
{
    assert(seq![a, b, c, d] =~= seq![a] + seq![b, c, d]);
    lemma_unroll(log, a, seq![b, c, d]);
    lemma_three(acted(log, a), b, c, d);
}

/// The phases look for what was published and for nothing else: on a log that holds nothing yet, every
/// page that one of them looks for is what the phases before it have made durable.
pub proof fn law_verification_finds_what_was_published()
    ensures
        ({
            let blank = LogModel { published: Map::empty(), appended: Map::empty() };
            let initial = acted_all(blank, init_steps());
            let unpublished = acted_all(initial, before_publish_steps());
            let committed = acted_all(unpublished, after_commit_steps());
            let unsynced = acted_all(committed, unsynced_steps());
            &&& all_found(blank, init_steps())
            &&& all_found(unpublished, old_prefix_steps())
            &&& all_found(committed, new_prefix_steps())
            &&& all_found(unsynced, unsynced_ignored_steps())
        }),
{
    let blank = LogModel { published: Map::empty(), appended: Map::empty() };
    let s = init_steps();
    let opened = acted(blank, s[0]);
    lemma_unroll(blank, s[0], seq![s[1], s[2], s[3], s[4]]);
    lemma_four(opened, s[1], s[2], s[3], s[4]);
    let initial = acted_all(blank, s);
    assert(s =~= seq![s[0]] + seq![s[1], s[2], s[3], s[4]]);
    assert(initial.published =~= map![0u64 => 0x11u8]);
    let s = before_publish_steps();
    lemma_four(initial, s[0], s[1], s[2], s[3]);
    assert(s =~= seq![s[0], s[1], s[2], s[3]]);
    let unpublished = acted_all(initial, s);
    assert(unpublished.published == initial.published);
    let s = old_prefix_steps();
    lemma_three(unpublished, s[0], s[1], s[2]);
    assert(s =~= seq![s[0], s[1], s[2]]);
    let s = after_commit_steps();
    lemma_four(unpublished, s[0], s[1], s[2], s[3]);
    assert(s =~= seq![s[0], s[1], s[2], s[3]]);
    let committed = acted_all(unpublished, s);
    assert(committed.published =~= map![0u64 => 0x11u8, 2u64 => 0x33u8]);
    let s = new_prefix_steps();
    lemma_four(committed, s[0], s[1], s[2], s[3]);
    assert(s =~= seq![s[0], s[1], s[2], s[3]]);
    let s = unsynced_steps();
    lemma_three(committed, s[0], s[1], s[2]);
    assert(s =~= seq![s[0], s[1], s[2]]);
    let unsynced = acted_all(committed, s);
    assert(unsynced.published == committed.published);
    let s = unsynced_ignored_steps();
    lemma_three(unsynced, s[0], s[1], s[2]);
    assert(s =~= seq![s[0], s[1], s[2]]);
}

/// The files of a log that the file phase makes.
#[derive(Clone, Copy, Debug, PartialEq, Eq, Structural)]
pub enum Pair {
    Sparse,
    Corrupt,
    Short,
    Partial,
}

/// A log that must not be opened.
#[derive(Clone, Copy, Debug, PartialEq, Eq, Structural)]
pub enum Refusal {
    /// One whose files have no blocks, where allocated files are asked for.
    Sparse,
    /// One with a damaged frame.
    Corrupt,
    /// One with a published frame that was cut off.
    Short,
}

/// The files of a log that must not be opened, and whether allocated files are asked for.
pub fn refused_pair(refusal: Refusal) -> (r: (Pair, bool))
    ensures
        r == match refusal {
            Refusal::Sparse => (Pair::Sparse, true),
            Refusal::Corrupt => (Pair::Corrupt, false),
            Refusal::Short => (Pair::Short, false),
        },
{
    match refusal {
        Refusal::Sparse => (Pair::Sparse, true),
        Refusal::Corrupt => (Pair::Corrupt, false),
        Refusal::Short => (Pair::Short, false),
    }
}

/// What is done to the files of a log.
#[derive(Clone, Copy, Debug, PartialEq, Eq, Structural)]
pub enum FileStep {
    /// Make the files of a log, of their sizes and without blocks.
    CreateSparse { pair: Pair },
    /// Make sure that a log cannot be opened.
    Refuse { refusal: Refusal },
    /// Open a log; `strict` asks for allocated files.
    Open { pair: Pair, strict: bool },
    /// Look at what the files are backed by.
    CheckBacking,
    /// Append a page of one value.
    Append { page: u64, value: u8 },
    /// Make everything durable.
    Sync,
    /// Look for a page of one value.
    Expect { page: u64, value: u8 },
    /// Close the log.
    Close,
    /// Overwrite a byte of the journal.
    Damage { pair: Pair, offset: u64, byte: u8 },
    /// Cut the journal off.
    Truncate { pair: Pair, bytes: u64 },
    /// Make sure that a log larger than the device cannot be opened.
    RefuseOversized { bytes: u64 },
}

/// The file phase: files without blocks, a damaged frame, a frame that was cut off, a frame that was not
/// made durable, and a log that does not fit.
pub open spec fn matrix_steps() -> Seq<FileStep> {
    seq![
        FileStep::CreateSparse { pair: Pair::Sparse },
        FileStep::Refuse { refusal: Refusal::Sparse },
        FileStep::Open { pair: Pair::Sparse, strict: false },
        FileStep::CheckBacking,
        FileStep::Append { page: 0, value: 0x51 },
        FileStep::Sync,
        FileStep::Close,
        FileStep::Open { pair: Pair::Sparse, strict: true },
        FileStep::Expect { page: 0, value: 0x51 },
        FileStep::Close,
        FileStep::Open { pair: Pair::Corrupt, strict: false },
        FileStep::Append { page: 0, value: 0x62 },
        FileStep::Sync,
        FileStep::Close,
        FileStep::Damage { pair: Pair::Corrupt, offset: 12288, byte: 0x99 },
        FileStep::Refuse { refusal: Refusal::Corrupt },
        FileStep::Open { pair: Pair::Short, strict: false },
        FileStep::Append { page: 0, value: 0x68 },
        FileStep::Sync,
        FileStep::Close,
        FileStep::Truncate { pair: Pair::Short, bytes: 14336 },
        FileStep::Refuse { refusal: Refusal::Short },
        FileStep::Open { pair: Pair::Partial, strict: false },
        FileStep::Append { page: 0, value: 0x73 },
        FileStep::Close,
        FileStep::Open { pair: Pair::Partial, strict: false },
        FileStep::Expect { page: 0, value: 0 },
        FileStep::RefuseOversized { bytes: 268435456 },
    ]
}

/// The file phase.
pub fn file_matrix() -> (v: Vec<FileStep>)
    ensures
        v@ == matrix_steps(),
{
    let v: Vec<FileStep> = vec![
        FileStep::CreateSparse { pair: Pair::Sparse },
        FileStep::Refuse { refusal: Refusal::Sparse },
        FileStep::Open { pair: Pair::Sparse, strict: false },
        FileStep::CheckBacking,
        FileStep::Append { page: 0, value: 0x51 },
        FileStep::Sync,
        FileStep::Close,
        FileStep::Open { pair: Pair::Sparse, strict: true },
        FileStep::Expect { page: 0, value: 0x51 },
        FileStep::Close,
        FileStep::Open { pair: Pair::Corrupt, strict: false },
        FileStep::Append { page: 0, value: 0x62 },
        FileStep::Sync,
        FileStep::Close,
        FileStep::Damage { pair: Pair::Corrupt, offset: 12288, byte: 0x99 },
        FileStep::Refuse { refusal: Refusal::Corrupt },
        FileStep::Open { pair: Pair::Short, strict: false },
        FileStep::Append { page: 0, value: 0x68 },
        FileStep::Sync,
        FileStep::Close,
        FileStep::Truncate { pair: Pair::Short, bytes: 14336 },
        FileStep::Refuse { refusal: Refusal::Short },
        FileStep::Open { pair: Pair::Partial, strict: false },
        FileStep::Append { page: 0, value: 0x73 },
        FileStep::Close,
        FileStep::Open { pair: Pair::Partial, strict: false },
        FileStep::Expect { page: 0, value: 0 },
        FileStep::RefuseOversized { bytes: 268435456 },
    ];
    proof {
        assert(v@ =~= matrix_steps());
    }
    v
}

/// The names of the journal and of the base of a log.
pub fn pair_names(pair: Pair) -> (names: (&'static str, &'static str))
    ensures
        ({
            let (journal, base) = names;
            match pair {
                Pair::Sparse => journal@ == "sparse-journal"@ && base@ == "sparse-base"@,
                Pair::Corrupt => journal@ == "corrupt-journal"@ && base@ == "corrupt-base"@,
                Pair::Short => journal@ == "short-journal"@ && base@ == "short-base"@,
                Pair::Partial => journal@ == "partial-journal"@ && base@ == "partial-base"@,
            }
        }),
{
    match pair {
        Pair::Sparse => ("sparse-journal", "sparse-base"),
        Pair::Corrupt => ("corrupt-journal", "corrupt-base"),
        Pair::Short => ("short-journal", "short-base"),
        Pair::Partial => ("partial-journal", "partial-base"),
    }
}

/// What it means that a log could be opened that should not be.
pub open spec fn admitted_text(refusal: Refusal) -> Seq<char> {
    match refusal {
        Refusal::Sparse => "strict allocation admitted sparse files"@,
        Refusal::Corrupt => "CRC recovery admitted a corrupted file payload"@,
        Refusal::Short => "recovery admitted a shortened committed frame"@,
    }
}

/// Checks that a log could not be opened.
pub fn check_refused(refusal: Refusal, opened: bool) -> (r: Result<(), Error>)
    ensures
        match r {
            Ok(_) => !opened,
            Err(e) => opened && e@ == crate::error::bad_data(admitted_text(refusal)),
        },
{
    if !opened {
        return Ok(());
    }
    match refusal {
        Refusal::Sparse => Err(corrupt("strict allocation admitted sparse files")),
        Refusal::Corrupt => Err(corrupt("CRC recovery admitted a corrupted file payload")),
        Refusal::Short => Err(corrupt("recovery admitted a shortened committed frame")),
    }
}

/// What a file of a log is backed by.
#[derive(Clone, Copy, Debug, PartialEq, Eq, Structural)]
pub enum BackingKind {
    RegularFile,
    BlockDevice,
}

/// What is known of a file of a log; `fiemap` says that its extents were asked for.
#[derive(Clone, Copy, Debug, PartialEq, Eq, Structural)]
pub struct Backing {
    pub kind: BackingKind,
    pub fiemap: bool,
}

/// Checks that the files of a log are regular and that their extents are known; the texts describe them.
pub fn check_file_backing(
    journal: Backing,
    base: Backing,
    journal_text: &str,
    base_text: &str,
) -> (r: Result<(), Error>)
    ensures
        match r {
            Ok(_) => is_known_file(journal) && is_known_file(base),
            Err(e) => !(is_known_file(journal) && is_known_file(base)) && e@
                == crate::error::bad_data(
                "ext4 file admission did not use FIEMAP: journal="@ + journal_text@ + " base="@
                    + base_text@,
            ),
        },
{
    if journal.kind == BackingKind::RegularFile && base.kind == BackingKind::RegularFile
        && journal.fiemap && base.fiemap {
        Ok(())
    } else {
        Err(
            invalid_data(
                join4(
                    "ext4 file admission did not use FIEMAP: journal=",
                    journal_text,
                    " base=",
                    base_text,
                ),
            ),
        )
    }
}

/// Whether a file is regular and its extents are known.
pub open spec fn is_known_file(b: Backing) -> bool {
    b.kind == BackingKind::RegularFile && b.fiemap
}

/// Checks that a log lies on block devices.
pub fn check_block_backing(journal: Backing, base: Backing) -> (r: Result<(), Error>)
    ensures
        match r {
            Ok(_) => journal.kind == BackingKind::BlockDevice && base.kind
                == BackingKind::BlockDevice,
            Err(e) => !(journal.kind == BackingKind::BlockDevice && base.kind
                == BackingKind::BlockDevice) && e@ == crate::error::bad_data(
                "raw backing was not classified as block devices"@,
            ),
        },
{
    if journal.kind == BackingKind::BlockDevice && base.kind == BackingKind::BlockDevice {
        Ok(())
    } else {
        Err(corrupt("raw backing was not classified as block devices"))
    }
}

/// Checks that a log that does not fit was refused for want of space. There is no complaint where it
/// could be opened.
pub fn check_oversized(complaint: Option<&str>, os_error: Option<i32>) -> (r: Result<(), Error>)
    ensures
        match (complaint, r) {
            (None, Err(e)) => e@ == crate::error::bad_data(
                "oversized preallocation unexpectedly succeeded"@,
            ),
            (Some(text), Ok(_)) => is_no_space(text@, os_error),
            (Some(text), Err(e)) => !is_no_space(text@, os_error) && e@ == crate::error::bad_data(
                "expected ENOSPC during admission, got: "@ + text@,
            ),
            _ => false,
        },
{
    match complaint {
        None => Err(corrupt("oversized preallocation unexpectedly succeeded")),
        Some(text) => {
            let by_number: bool = match os_error {
                Some(n) => n == ENOSPC,
                None => false,
            };
            if by_number || contains_part(text, "No space left on device") {
                Ok(())
            } else {
                Err(invalid_data(join2("expected ENOSPC during admission, got: ", text)))
            }
        },
    }
}

/// Whether a failure is one for want of space.
pub open spec fn is_no_space(text: Seq<char>, os_error: Option<i32>) -> bool {
    os_error == Some(ENOSPC) || crate::text::has_part(text, "No space left on device"@)
}

/// Checks that a page came back over the direct path.
pub fn direct_block(out: &[u8], direct: bool) -> (r: Result<(), Error>)
    requires
        out@.len() == 4096,
    ensures
        match r {
            Ok(_) => holds_value(out@, 0xd1) && direct,
            Err(e) => !(holds_value(out@, 0xd1) && direct) && e@ == crate::error::bad_data(
                "direct terminal-block lifecycle mismatch"@,
            ),
        },
{
    let same: bool = match expect_page(out, 0, 0xd1) {
        Ok(_) => true,
        Err(_) => false,
    };
    if same && direct {
        Ok(())
    } else {
        Err(corrupt("direct terminal-block lifecycle mismatch"))
    }
}

/// Where the payload of the next frame of a journal begins.
pub fn corruption_offset(used: u64) -> (r: Result<u64, Error>)
    ensures
        match r {
            Ok(offset) => offset == 8192 + used + 4096,
            Err(e) => 8192 + used + 4096 > u64::MAX && e@ == crate::error::bad_data(
                "corruption offset overflow"@,
            ),
        },
{
    match DATA_START.checked_add(used) {
        None => Err(corrupt("corruption offset overflow")),
        Some(start) => match start.checked_add(4096) {
            None => Err(corrupt("corruption offset overflow")),
            Some(offset) => Ok(offset),
        },
    }
}

/// Checks that a damaged log was refused for its damage. There is no complaint where it could be opened.
pub fn corrupt_block(complaint: Option<&str>) -> (r: Result<(), Error>)
    ensures
        match (complaint, r) {
            (None, Err(e)) => e@ == crate::error::bad_data(
                "CRC recovery admitted corrupted block payload"@,
            ),
            (Some(text), Ok(_)) => crate::text::has_part(text@, "payload checksum mismatch"@),
            (Some(text), Err(e)) => !crate::text::has_part(text@, "payload checksum mismatch"@)
                && e@ == crate::error::bad_data("unexpected corruption error: "@ + text@),
            _ => false,
        },
{
    match complaint {
        None => Err(corrupt("CRC recovery admitted corrupted block payload")),
        Some(text) => if contains_part(text, "payload checksum mismatch") {
            Ok(())
        } else {
            Err(invalid_data(join2("unexpected corruption error: ", text)))
        },
    }
}

} // verus!
