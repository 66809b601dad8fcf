//! What a run over the log is asked to do.
use vstd::prelude::*;
use vstd::string::*;

use crate::args::{needed, value_at};
use crate::cpus::{cpu_ranges, PartFault};
use crate::error::{invalid, invalid_input, Error};
use crate::text::{
    decimal, drop_tail, join, join2, join3, join4, number_reason, parse_size, parse_unsigned,
    quoted, str_eq, trim,
};
#[allow(unused_imports)]
use crate::error::Fault;

verus! {

/// What a run does with its lanes.
#[derive(Clone, Copy, Debug, PartialEq, Eq, Structural)]
pub enum Mode {
    Combine,
    Reduce,
    Read,
    Mixed,
}

/// Which logical records a run touches.
#[derive(Clone, Copy, Debug, PartialEq, Eq, Structural)]
pub enum Pattern {
    Sequential,
    Random,
}

/// What a read gives.
#[derive(Clone, Copy, Debug, PartialEq, Eq, Structural)]
pub enum ReadAccess {
    Copy,
    Ref,
}

/// The mode that a text names.
pub open spec fn mode_of(text: Seq<char>) -> Result<Mode, Fault> {
    if text == "combine"@ || text == "wal"@ {
        Ok(Mode::Combine)
    } else if text == "reduce"@ || text == "sync"@ {
        Ok(Mode::Reduce)
    } else if text == "read"@ {
        Ok(Mode::Read)
    } else if text == "mixed"@ || text == "rw"@ {
        Ok(Mode::Mixed)
    } else {
        Err(
            crate::error::bad_input(
                "unknown mode "@ + crate::text::debug_text(text)
                    + "; expected combine, reduce, read, or mixed"@,
            ),
        )
    }
}

/// The pattern that a text names.
pub open spec fn pattern_of(text: Seq<char>) -> Result<Pattern, Fault> {
    if text == "seq"@ || text == "sequential"@ {
        Ok(Pattern::Sequential)
    } else if text == "rand"@ || text == "random"@ {
        Ok(Pattern::Random)
    } else {
        Err(
            crate::error::bad_input(
                "unknown pattern "@ + crate::text::debug_text(text) + "; expected seq or random"@,
            ),
        )
    }
}

/// The read access that a text names.
pub open spec fn access_of(text: Seq<char>) -> Result<ReadAccess, Fault> {
    if text == "copy"@ || text == "materialize"@ || text == "materialized"@ {
        Ok(ReadAccess::Copy)
    } else if text == "ref"@ || text == "reference"@ || text == "descriptor"@ || text == "desc"@ {
        Ok(ReadAccess::Ref)
    } else {
        Err(
            crate::error::bad_input(
                "unknown read access "@ + crate::text::debug_text(text)
                    + "; expected copy or ref"@,
            ),
        )
    }
}

impl Mode {
    /// The mode that a text names.
    pub fn parse(value: &str) -> (r: Result<Mode, Error>)
        ensures
            crate::error::agrees(r, mode_of(value@)),
    {
        if str_eq(value, "combine") || str_eq(value, "wal") {
            Ok(Mode::Combine)
        } else if str_eq(value, "reduce") || str_eq(value, "sync") {
            Ok(Mode::Reduce)
        } else if str_eq(value, "read") {
            Ok(Mode::Read)
        } else if str_eq(value, "mixed") || str_eq(value, "rw") {
            Ok(Mode::Mixed)
        } else {
            Err(
                invalid_input(
                    join3(
                        "unknown mode ",
                        quoted(value).as_str(),
                        "; expected combine, reduce, read, or mixed",
                    ),
                ),
            )
        }
    }

    /// Whether the mode writes to a log.
    pub open spec fn writes_log(self) -> bool {
        self != Mode::Read
    }

    /// Whether the mode has a store below the log.
    pub open spec fn has_store(self) -> bool {
        self != Mode::Combine
    }

    /// Whether the mode writes to a log.
    pub fn needs_wal(self) -> (yes: bool)
        ensures
            yes == self.writes_log(),
    {
        self != Mode::Read
    }

    /// Whether the mode has a store below the log.
    pub fn needs_blockstore(self) -> (yes: bool)
        ensures
            yes == self.has_store(),
    {
        self != Mode::Combine
    }

    /// What it is called.
    pub open spec fn called(self) -> Seq<char> {
        match self {
            Mode::Combine => "combine"@,
            Mode::Reduce => "reduce"@,
            Mode::Read => "read"@,
            Mode::Mixed => "mixed"@,
        }
    }

    /// What it is called.
    pub fn name(self) -> (text: &'static str)
        ensures
            text@ == self.called(),
    {
        match self {
            Mode::Combine => "combine",
            Mode::Reduce => "reduce",
            Mode::Read => "read",
            Mode::Mixed => "mixed",
        }
    }
}

/// What a mode, a pattern or a read access is called names it.
pub proof fn law_names_are_read_back(mode: Mode, pattern: Pattern, access: ReadAccess)
    ensures
        mode_of(mode.called()) == Ok::<Mode, Fault>(mode),
        pattern_of(pattern.called()) == Ok::<Pattern, Fault>(pattern),
        access_of(access.called()) == Ok::<ReadAccess, Fault>(access),
{
    reveal_strlit("combine");
    reveal_strlit("wal");
    reveal_strlit("reduce");
    reveal_strlit("sync");
    reveal_strlit("read");
    reveal_strlit("mixed");
    reveal_strlit("seq");
    reveal_strlit("sequential");
    reveal_strlit("random");
    reveal_strlit("copy");
    reveal_strlit("materialize");
    reveal_strlit("materialized");
    reveal_strlit("ref");
    assert("reduce"@[0] == 'r' && "combine"@[0] == 'c' && "wal"@[0] == 'w');
    assert("read"@.len() == 4 && "reduce"@.len() == 6 && "sync"@[0] == 's');
    assert("mixed"@[0] == 'm' && "random"@[0] == 'r' && "seq"@[0] == 's' && "sequential"@[0] == 's');
    assert("ref"@[0] == 'r' && "copy"@[0] == 'c' && "materialize"@[0] == 'm' && "materialized"@[0] == 'm');
}

impl Pattern {
    /// What it is called.
    pub open spec fn called(self) -> Seq<char> {
        match self {
            Pattern::Sequential => "seq"@,
            Pattern::Random => "random"@,
        }
    }

    /// What it is called.
    pub fn name(self) -> (text: &'static str)
        ensures
            text@ == self.called(),
    {
        match self {
            Pattern::Sequential => "seq",
            Pattern::Random => "random",
        }
    }

    /// The pattern that a text names.
    pub fn parse(value: &str) -> (r: Result<Pattern, Error>)
        ensures
            crate::error::agrees(r, pattern_of(value@)),
    {
        if str_eq(value, "seq") || str_eq(value, "sequential") {
            Ok(Pattern::Sequential)
        } else if str_eq(value, "rand") || str_eq(value, "random") {
            Ok(Pattern::Random)
        } else {
            Err(
                invalid_input(
                    join3(
                        "unknown pattern ",
                        quoted(value).as_str(),
                        "; expected seq or random",
                    ),
                ),
            )
        }
    }
}

impl ReadAccess {
    /// What it is called.
    pub open spec fn called(self) -> Seq<char> {
        match self {
            ReadAccess::Copy => "copy"@,
            ReadAccess::Ref => "ref"@,
        }
    }

    /// What it is called.
    pub fn name(self) -> (text: &'static str)
        ensures
            text@ == self.called(),
    {
        match self {
            ReadAccess::Copy => "copy",
            ReadAccess::Ref => "ref",
        }
    }

    /// The read access that a text names.
    pub fn parse(value: &str) -> (r: Result<ReadAccess, Error>)
        ensures
            crate::error::agrees(r, access_of(value@)),
    {
        if str_eq(value, "copy") || str_eq(value, "materialize") || str_eq(value, "materialized") {
            Ok(ReadAccess::Copy)
        } else if str_eq(value, "ref") || str_eq(value, "reference") || str_eq(value, "descriptor")
            || str_eq(value, "desc") {
            Ok(ReadAccess::Ref)
        } else {
            Err(
                invalid_input(
                    join3(
                        "unknown read access ",
                        quoted(value).as_str(),
                        "; expected copy or ref",
                    ),
                ),
            )
        }
    }

    /// The read access that the environment asks for: copies, unless it names another.
    pub fn from_env(value: &Option<String>) -> (r: Result<ReadAccess, Error>)
        ensures
            crate::error::agrees(
                r,
                match crate::args::said(*value) {
                    Some(text) => if crate::text::trim_text(text).len() > 0 {
                        access_of(crate::text::trim_text(text))
                    } else {
                        Ok(ReadAccess::Copy)
                    },
                    None => Ok(ReadAccess::Copy),
                },
            ),
    {
        match value {
            Some(text) => {
                let t: String = trim(text.as_str());
                if t.as_str().unicode_len() > 0 {
                    ReadAccess::parse(t.as_str())
                } else {
                    Ok(ReadAccess::Copy)
                }
            },
            None => Ok(ReadAccess::Copy),
        }
    }
}

/// Whether a text says yes.
pub open spec fn says_yes(text: Seq<char>) -> bool {
    text == "1"@ || text == "true"@ || text == "TRUE"@ || text == "yes"@ || text == "on"@
}

/// Whether a text says no.
pub open spec fn says_no(text: Seq<char>) -> bool {
    text == "0"@ || text == "false"@ || text == "FALSE"@ || text == "no"@ || text == "off"@
}

/// Whether a variable of the environment is set and says yes.
pub fn env_truthy(value: &Option<String>) -> (yes: bool)
    ensures
        yes == (crate::args::said(*value) matches Some(text) && says_yes(text)),
{
    match value {
        Some(v) => str_eq(v.as_str(), "1") || str_eq(v.as_str(), "true") || str_eq(
            v.as_str(),
            "TRUE",
        ) || str_eq(v.as_str(), "yes") || str_eq(v.as_str(), "on"),
        None => false,
    }
}

/// Whether a variable of the environment is set and says no.
pub fn env_falsey(value: &Option<String>) -> (yes: bool)
    ensures
        yes == (crate::args::said(*value) matches Some(text) && says_no(text)),
{
    match value {
        Some(v) => str_eq(v.as_str(), "0") || str_eq(v.as_str(), "false") || str_eq(
            v.as_str(),
            "FALSE",
        ) || str_eq(v.as_str(), "no") || str_eq(v.as_str(), "off"),
        None => false,
    }
}

/// The factor that a letter behind a number stands for.
pub open spec fn scale_of(c: char) -> Option<nat> {
    if c == 'k' || c == 'K' {
        Some(1024)
    } else if c == 'm' || c == 'M' {
        Some(1048576)
    } else if c == 'g' || c == 'G' {
        Some(1073741824)
    } else {
        None
    }
}

/// The number of a text, with a letter for a factor behind it where there is one.
pub open spec fn count_of(text: Seq<char>) -> Result<usize, Fault> {
    let t = crate::text::trim_text(text);
    if t.len() == 0 {
        Err(crate::error::bad_input("empty numeric value"@))
    } else {
        let (digits, scale) = match scale_of(t.last()) {
            Some(scale) => (t.drop_last(), scale),
            None => (t, 1),
        };
        match crate::text::unsigned_value(digits, usize::MAX as nat) {
            None => Err(
                crate::error::bad_input(
                    "invalid numeric value "@ + crate::text::debug_text(t) + ": "@
                        + crate::text::number_fault(digits, usize::MAX as nat),
                ),
            ),
            Some(base) => if base * scale > usize::MAX {
                Err(
                    crate::error::bad_input(
                        "numeric value "@ + crate::text::debug_text(t) + " overflows usize"@,
                    ),
                )
            } else {
                Ok((base * scale) as usize)
            },
        }
    }
}

/// The number of a text, with a letter for a factor behind it where there is one.
pub fn parse_count(value: &str) -> (r: Result<usize, Error>)
    ensures
        crate::error::agrees(r, count_of(value@)),
{
    let t: String = trim(value);
    let chars: Vec<char> = crate::text::chars_of(t.as_str());
    if chars.len() == 0 {
        return Err(invalid("empty numeric value"));
    }
    let last: char = chars[chars.len() - 1];
    let scale: usize = if last == 'k' || last == 'K' {
        1024
    } else if last == 'm' || last == 'M' {
        1048576
    } else if last == 'g' || last == 'G' {
        1073741824
    } else {
        1
    };
    let digits: String = if scale == 1 {
        t.clone()
    } else {
        drop_tail(t.as_str(), 1)
    };
    proof {
        if scale != 1 {
            assert(digits@ =~= t@.drop_last());
        }
    }
    match parse_size(digits.as_str()) {
        None => Err(
            invalid_input(
                join4(
                    "invalid numeric value ",
                    quoted(t.as_str()).as_str(),
                    ": ",
                    number_reason(digits.as_str(), usize::MAX as u64),
                ),
            ),
        ),
        Some(base) => match base.checked_mul(scale) {
            Some(n) => Ok(n),
            None => Err(
                invalid_input(
                    join3("numeric value ", quoted(t.as_str()).as_str(), " overflows usize"),
                ),
            ),
        },
    }
}

/// The percentage that a text gives.
pub open spec fn percent_of(text: Seq<char>) -> Result<u32, Fault> {
    match crate::text::unsigned_value(text, u32::MAX as nat) {
        Some(n) => Ok(n as u32),
        None => Err(
            crate::error::bad_input(
                "invalid --read-pct: "@ + crate::text::number_fault(text, u32::MAX as nat),
            ),
        ),
    }
}

fn parse_percent(value: &str) -> (r: Result<u32, Error>)
    ensures
        crate::error::agrees(r, percent_of(value@)),
{
    match parse_unsigned(value, u32::MAX as u64) {
        Some(n) => Ok(n as u32),
        None => Err(
            invalid_input(join2("invalid --read-pct: ", number_reason(value, u32::MAX as u64))),
        ),
    }
}

/// What is said of an item of a list of processors that is wrong.
pub open spec fn cpu_fault(part: Seq<char>, fault: PartFault) -> Fault {
    let (a, b) = match crate::cpus::sides(part, '-') {
        Some(p) => p,
        None => (part, part),
    };
    crate::error::bad_input(
        match fault {
            PartFault::First => "invalid CPU range "@ + crate::text::debug_text(part) + ": "@
                + crate::text::number_fault(a, usize::MAX as nat),
            PartFault::Last => "invalid CPU range "@ + crate::text::debug_text(part) + ": "@
                + crate::text::number_fault(b, usize::MAX as nat),
            PartFault::Single => "invalid CPU "@ + crate::text::debug_text(part) + ": "@
                + crate::text::number_fault(part, usize::MAX as nat),
            PartFault::Descending => "invalid descending CPU range "@ + crate::text::debug_text(
                part,
            ),
        },
    )
}

/// The processors of a list.
pub open spec fn cpus_of(text: Seq<char>) -> Result<Seq<usize>, Fault> {
    match crate::cpus::listed(crate::text::split_text(text, ','), false) {
        Ok(list) => Ok(list),
        Err((part, fault)) => Err(cpu_fault(part, fault)),
    }
}

fn cpu_error(part: &str, fault: PartFault) -> (e: Error)
    ensures
        e@ == cpu_fault(part@, fault),
{
    let max: u64 = usize::MAX as u64;
    let (a, b): (String, String) = match crate::cpus::split_once(part, '-') {
        Some(p) => p,
        None => (crate::text::join2(part, ""), crate::text::join2(part, "")),
    };
    proof {
        reveal_strlit("");
        assert(part@ + ""@ =~= part@);
    }
    let shown: String = quoted(part);
    match fault {
        PartFault::First => invalid_input(
            join4("invalid CPU range ", shown.as_str(), ": ", number_reason(a.as_str(), max)),
        ),
        PartFault::Last => invalid_input(
            join4("invalid CPU range ", shown.as_str(), ": ", number_reason(b.as_str(), max)),
        ),
        PartFault::Single => invalid_input(
            join4("invalid CPU ", shown.as_str(), ": ", number_reason(part, max)),
        ),
        PartFault::Descending => invalid_input(
            join2("invalid descending CPU range ", shown.as_str()),
        ),
    }
}

/// The processors of a list.
pub fn parse_cpu_list(value: &str) -> (r: Result<Vec<usize>, Error>)
    ensures
        match r {
            Ok(list) => cpus_of(value@) == Ok::<Seq<usize>, Fault>(list@),
            Err(e) => cpus_of(value@) == Err::<Seq<usize>, Fault>(e@),
        },
{
    match cpu_ranges(value, false) {
        Ok(list) => Ok(list),
        Err((part, fault)) => Err(cpu_error(part.as_str(), fault)),
    }
}

/// What a run is asked to do.
#[derive(Debug)]
pub struct Config {
    pub mode: Mode,
    pub pattern: Pattern,
    pub read_access: ReadAccess,
    pub lanes: usize,
    pub workers: usize,
    pub records_per_lane: usize,
    pub record_bytes: usize,
    pub extent_records: usize,
    pub block_records_per_lane: usize,
    pub read_pct: u32,
    pub reduce_every_extents: usize,
    pub pin: bool,
    pub cpu_list: Vec<usize>,
    pub thp: bool,
    pub hugetlb: bool,
    pub verify: bool,
    pub bulk_extents: bool,
}

/// What is meant by [`Config`].
pub struct ConfigView {
    pub mode: Mode,
    pub pattern: Pattern,
    pub read_access: ReadAccess,
    pub lanes: usize,
    pub workers: usize,
    pub records_per_lane: usize,
    pub record_bytes: usize,
    pub extent_records: usize,
    pub block_records_per_lane: usize,
    pub read_pct: u32,
    pub reduce_every_extents: usize,
    pub pin: bool,
    pub cpu_list: Seq<usize>,
    pub thp: bool,
    pub hugetlb: bool,
    pub verify: bool,
    pub bulk_extents: bool,
}

impl View for Config {
    type V = ConfigView;

    open spec fn view(&self) -> ConfigView {
        ConfigView {
            mode: self.mode,
            pattern: self.pattern,
            read_access: self.read_access,
            lanes: self.lanes,
            workers: self.workers,
            records_per_lane: self.records_per_lane,
            record_bytes: self.record_bytes,
            extent_records: self.extent_records,
            block_records_per_lane: self.block_records_per_lane,
            read_pct: self.read_pct,
            reduce_every_extents: self.reduce_every_extents,
            pin: self.pin,
            cpu_list: self.cpu_list@,
            thp: self.thp,
            hugetlb: self.hugetlb,
            verify: self.verify,
            bulk_extents: self.bulk_extents,
        }
    }
}

/// What the environment says.
#[derive(Debug)]
pub struct Environment {
    pub read_access: Option<String>,
    pub pin: Option<String>,
    pub cpu_list: Option<String>,
    pub thp: Option<String>,
    pub hugetlb: Option<String>,
    pub verify: Option<String>,
    pub bulk_extents: Option<String>,
}

/// What a run does before its command line is read.
pub open spec fn defaults(env: Environment, access: ReadAccess) -> ConfigView {
    ConfigView {
        mode: Mode::Mixed,
        pattern: Pattern::Sequential,
        read_access: access,
        lanes: 8,
        workers: 8,
        records_per_lane: 65536,
        record_bytes: 4096,
        extent_records: 256,
        block_records_per_lane: 65536,
        read_pct: 50,
        reduce_every_extents: 0,
        pin: (crate::args::said(env.pin) matches Some(t) && says_yes(t)),
        cpu_list: match crate::args::said(env.cpu_list) {
            Some(t) => match cpus_of(t) {
                Ok(list) => list,
                Err(_) => Seq::empty(),
            },
            None => Seq::empty(),
        },
        thp: !(crate::args::said(env.thp) matches Some(t) && says_no(t)),
        hugetlb: (crate::args::said(env.hugetlb) matches Some(t) && says_yes(t)),
        verify: (crate::args::said(env.verify) matches Some(t) && says_yes(t)),
        bulk_extents: !(crate::args::said(env.bulk_extents) matches Some(t) && says_no(t)),
    }
}

/// The read access that the environment asks for.
pub open spec fn env_access(env: Environment) -> Result<ReadAccess, Fault> {
    match crate::args::said(env.read_access) {
        Some(text) => if crate::text::trim_text(text).len() > 0 {
            access_of(crate::text::trim_text(text))
        } else {
            Ok(ReadAccess::Copy)
        },
        None => Ok(ReadAccess::Copy),
    }
}

/// `d` with one more option and its value.
pub open spec fn with_option(d: ConfigView, arg: Seq<char>, value: Option<Seq<char>>) -> Result<
    ConfigView,
    Fault,
> {
    if arg == "--mode"@ {
        match crate::args::text_due(value, "--mode requires a value"@) {
            Ok(text) => match mode_of(text) {
                Ok(x) => Ok(ConfigView { mode: x, ..d }),
                Err(e) => Err(e),
            },
            Err(e) => Err(e),
        }
    } else if arg == "--pattern"@ {
        match crate::args::text_due(value, "--pattern requires a value"@) {
            Ok(text) => match pattern_of(text) {
                Ok(x) => Ok(ConfigView { pattern: x, ..d }),
                Err(e) => Err(e),
            },
            Err(e) => Err(e),
        }
    } else if arg == "--lanes"@ {
        match crate::args::text_due(value, "--lanes requires a value"@) {
            Ok(text) => match count_of(text) {
                Ok(x) => Ok(ConfigView { lanes: x, ..d }),
                Err(e) => Err(e),
            },
            Err(e) => Err(e),
        }
    } else if arg == "--workers"@ {
        match crate::args::text_due(value, "--workers requires a value"@) {
            Ok(text) => match count_of(text) {
                Ok(x) => Ok(ConfigView { workers: x, ..d }),
                Err(e) => Err(e),
            },
            Err(e) => Err(e),
        }
    } else if arg == "--records-per-lane"@ {
        match crate::args::text_due(value, "--records-per-lane requires a value"@) {
            Ok(text) => match count_of(text) {
                Ok(x) => Ok(ConfigView { records_per_lane: x, ..d }),
                Err(e) => Err(e),
            },
            Err(e) => Err(e),
        }
    } else if arg == "--record-bytes"@ {
        match crate::args::text_due(value, "--record-bytes requires a value"@) {
            Ok(text) => match count_of(text) {
                Ok(x) => Ok(ConfigView { record_bytes: x, ..d }),
                Err(e) => Err(e),
            },
            Err(e) => Err(e),
        }
    } else if arg == "--extent-records"@ {
        match crate::args::text_due(value, "--extent-records requires a value"@) {
            Ok(text) => match count_of(text) {
                Ok(x) => Ok(ConfigView { extent_records: x, ..d }),
                Err(e) => Err(e),
            },
            Err(e) => Err(e),
        }
    } else if arg == "--block-records-per-lane"@ || arg == "--block-records"@ {
        match crate::args::text_due(value, "--block-records-per-lane requires a value"@) {
            Ok(text) => match count_of(text) {
                Ok(x) => Ok(ConfigView { block_records_per_lane: x, ..d }),
                Err(e) => Err(e),
            },
            Err(e) => Err(e),
        }
    } else if arg == "--read-pct"@ {
        match crate::args::text_due(value, "--read-pct requires a value"@) {
            Ok(text) => match percent_of(text) {
                Ok(x) => Ok(ConfigView { read_pct: x, ..d }),
                Err(e) => Err(e),
            },
            Err(e) => Err(e),
        }
    } else if arg == "--reduce-every-extents"@ {
        match crate::args::text_due(value, "--reduce-every-extents requires a value"@) {
            Ok(text) => match count_of(text) {
                Ok(x) => Ok(ConfigView { reduce_every_extents: x, ..d }),
                Err(e) => Err(e),
            },
            Err(e) => Err(e),
        }
    } else if arg == "--read-access"@ {
        match crate::args::text_due(value, "--read-access requires a value"@) {
            Ok(text) => match access_of(text) {
                Ok(x) => Ok(ConfigView { read_access: x, ..d }),
                Err(e) => Err(e),
            },
            Err(e) => Err(e),
        }
    } else if arg == "--read-copy"@ || arg == "--materialize-reads"@ {
        Ok(ConfigView { read_access: ReadAccess::Copy, ..d })
    } else if arg == "--read-ref"@ || arg == "--descriptor-reads"@ {
        Ok(ConfigView { read_access: ReadAccess::Ref, ..d })
    } else if arg == "--pin"@ {
        Ok(ConfigView { pin: true, ..d })
    } else if arg == "--no-pin"@ {
        Ok(ConfigView { pin: false, ..d })
    } else if arg == "--cpu-list"@ {
        match crate::args::text_due(value, "--cpu-list requires a value"@) {
            Ok(text) => match cpus_of(text) {
                Ok(x) => Ok(ConfigView { cpu_list: x, ..d }),
                Err(e) => Err(e),
            },
            Err(e) => Err(e),
        }
    } else if arg == "--thp"@ {
        Ok(ConfigView { thp: true, ..d })
    } else if arg == "--no-thp"@ {
        Ok(ConfigView { thp: false, ..d })
    } else if arg == "--hugetlb"@ {
        Ok(ConfigView { hugetlb: true, ..d })
    } else if arg == "--no-hugetlb"@ {
        Ok(ConfigView { hugetlb: false, ..d })
    } else if arg == "--verify"@ {
        Ok(ConfigView { verify: true, ..d })
    } else if arg == "--no-verify"@ {
        Ok(ConfigView { verify: false, ..d })
    } else if arg == "--bulk-extents"@ {
        Ok(ConfigView { bulk_extents: true, ..d })
    } else if arg == "--per-record-ingest"@ {
        Ok(ConfigView { bulk_extents: false, ..d })
    } else {
        Err(crate::error::bad_input(
            "unknown argument "@ + crate::text::debug_text(arg) + "; pass --help for usage"@,
        ))
    }
}

/// Whether an option stands alone.
pub open spec fn is_switch(arg: Seq<char>) -> bool {
    arg == "--read-copy"@ || arg == "--materialize-reads"@ || arg == "--read-ref"@ || arg == "--descriptor-reads"@ || arg == "--pin"@ || arg == "--no-pin"@ || arg == "--thp"@ || arg == "--no-thp"@ || arg == "--hugetlb"@ || arg == "--no-hugetlb"@ || arg == "--verify"@ || arg == "--no-verify"@ || arg == "--bulk-extents"@ || arg == "--per-record-ingest"@
}

/// What a command line says in all; nothing where it asks how the program is called.
pub open spec fn drafted(rest: Seq<Seq<char>>, d: ConfigView) -> Result<Option<ConfigView>, Fault>
    decreases rest.len(),
{
    if rest.len() == 0 {
        Ok(Some(d))
    } else if rest[0] == "-h"@ || rest[0] == "--help"@ {
        Ok(None)
    } else {
        match with_option(d, rest[0], crate::args::nth(rest, 1)) {
            Ok(next) => drafted(
                crate::args::after(
                    rest,
                    if is_switch(rest[0]) {
                        1
                    } else {
                        2
                    },
                ),
                next,
            ),
            Err(e) => Err(e),
        }
    }
}

impl Config {
    fn new(env: &Environment, read_access: ReadAccess) -> (c: Config)
        ensures
            c@ == defaults(*env, read_access),
    {
        let cpu_list: Vec<usize> = match &env.cpu_list {
            Some(t) => match parse_cpu_list(t.as_str()) {
                Ok(list) => list,
                Err(_) => Vec::new(),
            },
            None => Vec::new(),
        };
        let c: Config = Config {
            mode: Mode::Mixed,
            pattern: Pattern::Sequential,
            read_access,
            lanes: 8,
            workers: 8,
            records_per_lane: 65536,
            record_bytes: 4096,
            extent_records: 256,
            block_records_per_lane: 65536,
            read_pct: 50,
            reduce_every_extents: 0,
            pin: env_truthy(&env.pin),
            cpu_list,
            thp: !env_falsey(&env.thp),
            hugetlb: env_truthy(&env.hugetlb),
            verify: env_truthy(&env.verify),
            bulk_extents: !env_falsey(&env.bulk_extents),
        };
        proof {
            assert(c@.cpu_list =~= defaults(*env, read_access).cpu_list);
        }
        c
    }

    #[verifier::rlimit(60)]
    fn with(self, arg: &str, value: Option<String>) -> (r: Result<Config, Error>)
        ensures
            match r {
                Ok(d) => with_option(self@, arg@, crate::args::said(value)) == Ok::<
                    ConfigView,
                    Fault,
                >(d@),
                Err(e) => with_option(self@, arg@, crate::args::said(value)) == Err::<
                    ConfigView,
                    Fault,
                >(e@),
            },
    {
        let mut d: Config = self;
        if str_eq(arg, "--mode") {
            let text: String = match needed(value, "--mode requires a value") {
                Ok(text) => text,
                Err(e) => {
                    return Err(e);
                },
            };
            match Mode::parse(text.as_str()) {
                Ok(x) => {
                    d.mode = x;
                },
                Err(e) => {
                    return Err(e);
                },
            }
        } else if str_eq(arg, "--pattern") {
            let text: String = match needed(value, "--pattern requires a value") {
                Ok(text) => text,
                Err(e) => {
                    return Err(e);
                },
            };
            match Pattern::parse(text.as_str()) {
                Ok(x) => {
                    d.pattern = x;
                },
                Err(e) => {
                    return Err(e);
                },
            }
        } else if str_eq(arg, "--lanes") {
            let text: String = match needed(value, "--lanes requires a value") {
                Ok(text) => text,
                Err(e) => {
                    return Err(e);
                },
            };
            match parse_count(text.as_str()) {
                Ok(x) => {
                    d.lanes = x;
                },
                Err(e) => {
                    return Err(e);
                },
            }
        } else if str_eq(arg, "--workers") {
            let text: String = match needed(value, "--workers requires a value") {
                Ok(text) => text,
                Err(e) => {
                    return Err(e);
                },
            };
            match parse_count(text.as_str()) {
                Ok(x) => {
                    d.workers = x;
                },
                Err(e) => {
                    return Err(e);
                },
            }
        } else if str_eq(arg, "--records-per-lane") {
            let text: String = match needed(value, "--records-per-lane requires a value") {
                Ok(text) => text,
                Err(e) => {
                    return Err(e);
                },
            };
            match parse_count(text.as_str()) {
                Ok(x) => {
                    d.records_per_lane = x;
                },
                Err(e) => {
                    return Err(e);
                },
            }
        } else if str_eq(arg, "--record-bytes") {
            let text: String = match needed(value, "--record-bytes requires a value") {
                Ok(text) => text,
                Err(e) => {
                    return Err(e);
                },
            };
            match parse_count(text.as_str()) {
                Ok(x) => {
                    d.record_bytes = x;
                },
                Err(e) => {
                    return Err(e);
                },
            }
        } else if str_eq(arg, "--extent-records") {
            let text: String = match needed(value, "--extent-records requires a value") {
                Ok(text) => text,
                Err(e) => {
                    return Err(e);
                },
            };
            match parse_count(text.as_str()) {
                Ok(x) => {
                    d.extent_records = x;
                },
                Err(e) => {
                    return Err(e);
                },
            }
        } else if str_eq(arg, "--block-records-per-lane") || str_eq(arg, "--block-records") {
            let text: String = match needed(value, "--block-records-per-lane requires a value") {
                Ok(text) => text,
                Err(e) => {
                    return Err(e);
                },
            };
            match parse_count(text.as_str()) {
                Ok(x) => {
                    d.block_records_per_lane = x;
                },
                Err(e) => {
                    return Err(e);
                },
            }
        } else if str_eq(arg, "--read-pct") {
            let text: String = match needed(value, "--read-pct requires a value") {
                Ok(text) => text,
                Err(e) => {
                    return Err(e);
                },
            };
            match parse_percent(text.as_str()) {
                Ok(x) => {
                    d.read_pct = x;
                },
                Err(e) => {
                    return Err(e);
                },
            }
        } else if str_eq(arg, "--reduce-every-extents") {
            let text: String = match needed(value, "--reduce-every-extents requires a value") {
                Ok(text) => text,
                Err(e) => {
                    return Err(e);
                },
            };
            match parse_count(text.as_str()) {
                Ok(x) => {
                    d.reduce_every_extents = x;
                },
                Err(e) => {
                    return Err(e);
                },
            }
        } else if str_eq(arg, "--read-access") {
            let text: String = match needed(value, "--read-access requires a value") {
                Ok(text) => text,
                Err(e) => {
                    return Err(e);
                },
            };
            match ReadAccess::parse(text.as_str()) {
                Ok(x) => {
                    d.read_access = x;
                },
                Err(e) => {
                    return Err(e);
                },
            }
        } else if str_eq(arg, "--read-copy") || str_eq(arg, "--materialize-reads") {
            d.read_access = ReadAccess::Copy;
        } else if str_eq(arg, "--read-ref") || str_eq(arg, "--descriptor-reads") {
            d.read_access = ReadAccess::Ref;
        } else if str_eq(arg, "--pin") {
            d.pin = true;
        } else if str_eq(arg, "--no-pin") {
            d.pin = false;
        } else if str_eq(arg, "--cpu-list") {
            let text: String = match needed(value, "--cpu-list requires a value") {
                Ok(text) => text,
                Err(e) => {
                    return Err(e);
                },
            };
            match parse_cpu_list(text.as_str()) {
                Ok(x) => {
                    d.cpu_list = x;
                },
                Err(e) => {
                    return Err(e);
                },
            }
        } else if str_eq(arg, "--thp") {
            d.thp = true;
        } else if str_eq(arg, "--no-thp") {
            d.thp = false;
        } else if str_eq(arg, "--hugetlb") {
            d.hugetlb = true;
        } else if str_eq(arg, "--no-hugetlb") {
            d.hugetlb = false;
        } else if str_eq(arg, "--verify") {
            d.verify = true;
        } else if str_eq(arg, "--no-verify") {
            d.verify = false;
        } else if str_eq(arg, "--bulk-extents") {
            d.bulk_extents = true;
        } else if str_eq(arg, "--per-record-ingest") {
            d.bulk_extents = false;
        } else {
            return Err(
                invalid_input(
                    join3("unknown argument ", quoted(arg).as_str(), "; pass --help for usage"),
                ),
            );
        }
        Ok(d)
    }

    /// Reads the environment and a command line; nothing comes back where the latter asks how the
    /// program is called.
    pub fn parse(env: &Environment, args: &Vec<String>) -> (r: Result<Option<Config>, Error>)
        ensures
            ({
                let all = match env_access(*env) {
                    Ok(access) => drafted(crate::text::texts(args@), defaults(*env, access)),
                    Err(e) => Err(e),
                };
                match r {
                    Ok(Some(c)) => all == Ok::<Option<ConfigView>, Fault>(Some(c@)),
                    Ok(None) => all == Ok::<Option<ConfigView>, Fault>(None),
                    Err(e) => all == Err::<Option<ConfigView>, Fault>(e@),
                }
            }),
    {
        let access: ReadAccess = match ReadAccess::from_env(&env.read_access) {
            Ok(access) => access,
            Err(e) => {
                return Err(e);
            },
        };
        Config::read(Config::new(env, access), args)
    }

    fn read(base: Config, args: &Vec<String>) -> (r: Result<Option<Config>, Error>)
        ensures
            match r {
                Ok(Some(c)) => drafted(crate::text::texts(args@), base@) == Ok::<
                    Option<ConfigView>,
                    Fault,
                >(Some(c@)),
                Ok(None) => drafted(crate::text::texts(args@), base@) == Ok::<
                    Option<ConfigView>,
                    Fault,
                >(None),
                Err(e) => drafted(crate::text::texts(args@), base@) == Err::<
                    Option<ConfigView>,
                    Fault,
                >(e@),
            },
    {
        let mut draft: Config = base;
        let ghost views = crate::text::texts(args@);
        let ghost first = draft@;
        let ghost goal = drafted(views, first);
        let count: usize = args.len();
        let mut i: usize = 0;
        proof {
            assert(views.skip(0) =~= views);
        }
        while i < count
            invariant
                i <= count,
                count == args@.len(),
                views == crate::text::texts(args@),
                goal == drafted(views, first),
                first == base@,
                goal == drafted(views.skip(i as int), draft@),
            decreases count - i,
        {
            let ghost rest = views.skip(i as int);
            let arg: &str = args[i].as_str();
            proof {
                assert(rest[0] == arg@);
                assert(crate::args::nth(rest, 1) == crate::args::nth(views, i + 1));
            }
            if str_eq(arg, "-h") || str_eq(arg, "--help") {
                return Ok(None);
            }
            let switch: bool = str_eq(arg, "--read-copy") || str_eq(arg, "--materialize-reads") || str_eq(arg, "--read-ref") || str_eq(arg, "--descriptor-reads") || str_eq(arg, "--pin") || str_eq(arg, "--no-pin") || str_eq(arg, "--thp") || str_eq(arg, "--no-thp") || str_eq(arg, "--hugetlb") || str_eq(arg, "--no-hugetlb") || str_eq(arg, "--verify") || str_eq(arg, "--no-verify") || str_eq(arg, "--bulk-extents") || str_eq(arg, "--per-record-ingest");
            let next: usize = if switch {
                i + 1
            } else if count - i >= 2 {
                i + 2
            } else {
                count
            };
            proof {
                assert(crate::args::after(
                    rest,
                    if switch {
                        1
                    } else {
                        2
                    },
                ) =~= views.skip(next as int));
            }
            let value: Option<String> = value_at(args.as_slice(), i + 1);
            draft = match draft.with(arg, value) {
                Ok(d) => d,
                Err(e) => {
                    return Err(e);
                },
            };
            i = next;
        }
        proof {
            assert(views.skip(i as int).len() == 0);
        }
        Ok(Some(draft))
}
}

/// The fault on which a configuration is refused, if it is.
pub open spec fn config_fault(c: ConfigView) -> Option<Fault> {
    if c.lanes == 0 {
        Some(crate::error::bad_input("--lanes must be nonzero"@))
    } else if c.workers == 0 {
        Some(crate::error::bad_input("--workers must be nonzero"@))
    } else if c.records_per_lane == 0 {
        Some(crate::error::bad_input("--records-per-lane must be nonzero"@))
    } else if c.record_bytes < 16 {
        Some(crate::error::bad_input("--record-bytes must be at least 16"@))
    } else if c.extent_records == 0 {
        Some(crate::error::bad_input("--extent-records must be nonzero"@))
    } else if c.block_records_per_lane == 0 {
        Some(crate::error::bad_input("--block-records-per-lane must be nonzero"@))
    } else if c.read_pct > 100 {
        Some(crate::error::bad_input("--read-pct must be between 0 and 100"@))
    } else {
        None
    }
}

/// Whether a configuration can be run.
pub fn validate_config(c: &Config) -> (r: Result<(), Error>)
    ensures
        match r {
            Ok(_) => config_fault(c@) is None,
            Err(e) => config_fault(c@) == Some(e@),
        },
{
    if c.lanes == 0 {
        return Err(invalid("--lanes must be nonzero"));
    }
    if c.workers == 0 {
        return Err(invalid("--workers must be nonzero"));
    }
    if c.records_per_lane == 0 {
        return Err(invalid("--records-per-lane must be nonzero"));
    }
    if c.record_bytes < 16 {
        return Err(invalid("--record-bytes must be at least 16"));
    }
    if c.extent_records == 0 {
        return Err(invalid("--extent-records must be nonzero"));
    }
    if c.block_records_per_lane == 0 {
        return Err(invalid("--block-records-per-lane must be nonzero"));
    }
    if c.read_pct > 100 {
        return Err(invalid("--read-pct must be between 0 and 100"));
    }
    Ok(())
}

/// The processor that a worker is bound to, where it is bound.
pub fn target_cpu_for_worker(c: &Config, worker: usize) -> (cpu: Option<usize>)
    ensures
        cpu == if !c.pin {
            None
        } else if c.cpu_list@.len() == 0 {
            Some(worker)
        } else {
            Some(c.cpu_list@[worker as int % c.cpu_list@.len() as int])
        },
{
    if !c.pin {
        return None;
    }
    if c.cpu_list.len() == 0 {
        Some(worker)
    } else {
        let at: usize = worker % c.cpu_list.len();
        Some(c.cpu_list[at])
    }
}

/// The lanes up to `n` that a worker gets.
pub open spec fn lanes_of(n: int, workers: int, worker: int) -> Seq<usize>
    decreases n,
{
    if n <= 0 {
        Seq::empty()
    } else if (n - 1) % workers == worker {
        lanes_of(n - 1, workers, worker).push((n - 1) as usize)
    } else {
        lanes_of(n - 1, workers, worker)
    }
}

/// Deals the lanes out to the workers in turn.
pub fn assign_lanes(lanes: usize, workers: usize) -> (out: Vec<Vec<usize>>)
    requires
        workers > 0,
    ensures
        out@.len() == workers,
        forall|w: int|
            0 <= w < workers ==> (#[trigger] out@[w])@ == lanes_of(
                lanes as int,
                workers as int,
                w,
            ),
{
    let mut out: Vec<Vec<usize>> = Vec::new();
    let mut i: usize = 0;
    while i < workers
        invariant
            i <= workers,
            out@.len() == i,
            forall|w: int| 0 <= w < i ==> (#[trigger] out@[w])@ == Seq::<usize>::empty(),
        decreases workers - i,
    {
        out.push(Vec::new());
        i = i + 1;
    }
    let mut lane: usize = 0;
    while lane < lanes
        invariant
            lane <= lanes,
            workers > 0,
            out@.len() == workers,
            forall|w: int|
                0 <= w < workers ==> (#[trigger] out@[w])@ == lanes_of(
                    lane as int,
                    workers as int,
                    w,
                ),
        decreases lanes - lane,
    {
        let worker: usize = lane % workers;
        let ghost before = out@;
        out[worker].push(lane);
        proof {
            assert forall|w: int| 0 <= w < workers implies (#[trigger] out@[w])@ == lanes_of(
                lane + 1,
                workers as int,
                w,
            ) by {
                assert(before[w]@ == lanes_of(lane as int, workers as int, w));
            }
        }
        lane = lane + 1;
    }
    out
}

/// Every lane is dealt to exactly one worker.
pub proof fn law_every_lane_has_one_worker(n: int, workers: int, lane: int, worker: int)
    requires
        workers > 0,
        0 <= lane < n,
        n <= usize::MAX,
        0 <= worker < workers,
    ensures
        lanes_of(n, workers, worker).contains(lane as usize) <==> lane % workers == worker,
    decreases n,
{
    let head = lanes_of(n - 1, workers, worker);
    if lane < n - 1 {
        law_every_lane_has_one_worker(n - 1, workers, lane, worker);
        if (n - 1) % workers == worker {
            let all = lanes_of(n, workers, worker);
            if head.contains(lane as usize) {
                let i = choose|i: int| 0 <= i < head.len() && head[i] == lane as usize;
                assert(all[i] == lane as usize);
            }
            if all.contains(lane as usize) {
                let i = choose|i: int| 0 <= i < all.len() && all[i] == lane as usize;
                assert(i < head.len());
                assert(head[i] == lane as usize);
            }
        }
    } else {
        lemma_lanes_below(n - 1, workers, worker);
        let all = lanes_of(n, workers, worker);
        if lane % workers == worker {
            assert(all[all.len() - 1] == lane as usize);
        } else if all.contains(lane as usize) {
            let i = choose|i: int| 0 <= i < all.len() && all[i] == lane as usize;
            assert(head[i] < n - 1);
        }
    }
}

proof fn lemma_lanes_below(n: int, workers: int, worker: int)
    requires
        0 <= n <= usize::MAX,
    ensures
        forall|i: int|
            0 <= i < lanes_of(n, workers, worker).len() ==> (#[trigger] lanes_of(
                n,
                workers,
                worker,
            )[i]) < n,
    decreases n,
{
    if n > 0 {
        lemma_lanes_below(n - 1, workers, worker);
        let all = lanes_of(n, workers, worker);
        let head = lanes_of(n - 1, workers, worker);
        assert forall|i: int| 0 <= i < all.len() implies (#[trigger] all[i]) < n by {
            if i < head.len() {
                assert(head[i] < n - 1);
            }
        }
    }
}

/// The texts of numbers.
pub open spec fn numbers_text(list: Seq<usize>) -> Seq<Seq<char>> {
    Seq::new(list.len(), |i: int| crate::text::decimal_text(list[i] as nat))
}

/// The numbers of lanes with commas between them.
pub fn fmt_lanes(lanes: &Vec<usize>) -> (text: String)
    ensures
        text@ == crate::text::join_text(numbers_text(lanes@), ","@),
{
    let mut parts: Vec<String> = Vec::new();
    let mut i: usize = 0;
    while i < lanes.len()
        invariant
            i <= lanes@.len(),
            parts@.len() == i,
            forall|k: int|
                0 <= k < i ==> (#[trigger] parts@[k])@ == crate::text::decimal_text(
                    lanes@[k] as nat,
                ),
        decreases lanes@.len() - i,
    {
        parts.push(decimal(lanes[i] as u64));
        i = i + 1;
    }
    proof {
        assert(crate::text::texts(parts@) =~= numbers_text(lanes@));
    }
    join(&parts, ",")
}

/// The suffixes of a count are powers of 1024, in small or capital letters: a count with a suffix is the
/// count without it, so many times.
pub proof fn law_suffixes_scale_a_count(digits: Seq<char>, n: usize)
    requires
        digits.len() > 0,
        crate::text::all_digits(digits),
        count_of(digits) == Ok::<usize, Fault>(n),
    ensures
        n == crate::text::digits_value(digits),
        n * 1024 <= usize::MAX ==> count_of(digits.push('k')) == Ok::<usize, Fault>(
            (n * 1024) as usize,
        ) && count_of(digits.push('K')) == count_of(digits.push('k')),
        n * 1_048_576 <= usize::MAX ==> count_of(digits.push('m')) == Ok::<usize, Fault>(
            (n * 1_048_576) as usize,
        ) && count_of(digits.push('M')) == count_of(digits.push('m')),
        n * 1_073_741_824 <= usize::MAX ==> count_of(digits.push('g')) == Ok::<usize, Fault>(
            (n * 1_073_741_824) as usize,
        ) && count_of(digits.push('G')) == count_of(digits.push('g')),
        n * 1024 > usize::MAX ==> count_of(digits.push('k')) is Err,
{
    assert(crate::text::is_digit(digits[0]));
    assert(crate::text::is_digit(digits[digits.len() - 1]));
    crate::text::law_trimming_takes_white_space_at_the_ends(digits, ' ');
    crate::text::law_trimming_takes_white_space_at_the_ends(digits.push('k'), ' ');
    crate::text::law_trimming_takes_white_space_at_the_ends(digits.push('K'), ' ');
    crate::text::law_trimming_takes_white_space_at_the_ends(digits.push('m'), ' ');
    crate::text::law_trimming_takes_white_space_at_the_ends(digits.push('M'), ' ');
    crate::text::law_trimming_takes_white_space_at_the_ends(digits.push('g'), ' ');
    crate::text::law_trimming_takes_white_space_at_the_ends(digits.push('G'), ' ');
    assert(digits.push('k').drop_last() =~= digits);
    assert(digits.push('K').drop_last() =~= digits);
    assert(digits.push('m').drop_last() =~= digits);
    assert(digits.push('M').drop_last() =~= digits);
    assert(digits.push('g').drop_last() =~= digits);
    assert(digits.push('G').drop_last() =~= digits);
}

/// Each option sets the field that it is named after, to the text that follows it or to what the text
/// writes down, and leaves every other field as it was.
pub proof fn law_each_option_sets_its_own_field(d: ConfigView, text: Seq<char>, value: Option<Seq<char>>)
    ensures
        with_option(d, "--mode"@, Some(text)) matches Ok(a) ==> a == (ConfigView { mode: a.mode, ..d }) && mode_of(text) == Ok::<Mode, Fault>(a.mode),
        with_option(d, "--pattern"@, Some(text)) matches Ok(a) ==> a == (ConfigView { pattern: a.pattern, ..d }) && pattern_of(text) == Ok::<Pattern, Fault>(a.pattern),
        with_option(d, "--lanes"@, Some(text)) matches Ok(a) ==> a == (ConfigView { lanes: a.lanes, ..d }) && count_of(text) == Ok::<usize, Fault>(a.lanes),
        with_option(d, "--workers"@, Some(text)) matches Ok(a) ==> a == (ConfigView { workers: a.workers, ..d }) && count_of(text) == Ok::<usize, Fault>(a.workers),
        with_option(d, "--records-per-lane"@, Some(text)) matches Ok(a) ==> a == (ConfigView { records_per_lane: a.records_per_lane, ..d }) && count_of(text) == Ok::<usize, Fault>(a.records_per_lane),
        with_option(d, "--record-bytes"@, Some(text)) matches Ok(a) ==> a == (ConfigView { record_bytes: a.record_bytes, ..d }) && count_of(text) == Ok::<usize, Fault>(a.record_bytes),
        with_option(d, "--extent-records"@, Some(text)) matches Ok(a) ==> a == (ConfigView { extent_records: a.extent_records, ..d }) && count_of(text) == Ok::<usize, Fault>(a.extent_records),
        with_option(d, "--block-records-per-lane"@, Some(text)) matches Ok(a) ==> a == (ConfigView { block_records_per_lane: a.block_records_per_lane, ..d }) && count_of(text) == Ok::<usize, Fault>(a.block_records_per_lane),
        with_option(d, "--read-pct"@, Some(text)) matches Ok(a) ==> a == (ConfigView { read_pct: a.read_pct, ..d }) && crate::text::unsigned_value(text, u32::MAX as nat) == Some(
            a.read_pct as nat,
        ),
        with_option(d, "--reduce-every-extents"@, Some(text)) matches Ok(a) ==> a == (ConfigView { reduce_every_extents: a.reduce_every_extents, ..d }) && count_of(text) == Ok::<usize, Fault>(a.reduce_every_extents),
        with_option(d, "--read-access"@, Some(text)) matches Ok(a) ==> a == (ConfigView { read_access: a.read_access, ..d }) && access_of(text) == Ok::<ReadAccess, Fault>(a.read_access),
        with_option(d, "--read-copy"@, value) == Ok::<ConfigView, Fault>(
            (ConfigView { read_access: ReadAccess::Copy, ..d }),
        ),
        with_option(d, "--read-ref"@, value) == Ok::<ConfigView, Fault>(
            (ConfigView { read_access: ReadAccess::Ref, ..d }),
        ),
        with_option(d, "--pin"@, value) == Ok::<ConfigView, Fault>(
            (ConfigView { pin: true, ..d }),
        ),
        with_option(d, "--no-pin"@, value) == Ok::<ConfigView, Fault>(
            (ConfigView { pin: false, ..d }),
        ),
        with_option(d, "--cpu-list"@, Some(text)) matches Ok(a) ==> a == (ConfigView { cpu_list: a.cpu_list, ..d }) && cpus_of(text) == Ok::<Seq<usize>, Fault>(a.cpu_list),
        with_option(d, "--thp"@, value) == Ok::<ConfigView, Fault>(
            (ConfigView { thp: true, ..d }),
        ),
        with_option(d, "--no-thp"@, value) == Ok::<ConfigView, Fault>(
            (ConfigView { thp: false, ..d }),
        ),
        with_option(d, "--hugetlb"@, value) == Ok::<ConfigView, Fault>(
            (ConfigView { hugetlb: true, ..d }),
        ),
        with_option(d, "--no-hugetlb"@, value) == Ok::<ConfigView, Fault>(
            (ConfigView { hugetlb: false, ..d }),
        ),
        with_option(d, "--verify"@, value) == Ok::<ConfigView, Fault>(
            (ConfigView { verify: true, ..d }),
        ),
        with_option(d, "--no-verify"@, value) == Ok::<ConfigView, Fault>(
            (ConfigView { verify: false, ..d }),
        ),
        with_option(d, "--bulk-extents"@, value) == Ok::<ConfigView, Fault>(
            (ConfigView { bulk_extents: true, ..d }),
        ),
        with_option(d, "--per-record-ingest"@, value) == Ok::<ConfigView, Fault>(
            (ConfigView { bulk_extents: false, ..d }),
        ),
{
    reveal_strlit("--mode");
    assert("--mode"@.len() == 6);
    reveal_strlit("--pattern");
    assert("--pattern"@.len() == 9);
    reveal_strlit("--lanes");
    assert("--lanes"@.len() == 7);
    reveal_strlit("--workers");
    assert("--workers"@.len() == 9);
    reveal_strlit("--records-per-lane");
    assert("--records-per-lane"@.len() == 18);
    reveal_strlit("--record-bytes");
    assert("--record-bytes"@.len() == 14);
    reveal_strlit("--extent-records");
    assert("--extent-records"@.len() == 16);
    reveal_strlit("--block-records-per-lane");
    assert("--block-records-per-lane"@.len() == 24);
    reveal_strlit("--block-records");
    assert("--block-records"@.len() == 15);
    reveal_strlit("--read-pct");
    assert("--read-pct"@.len() == 10);
    reveal_strlit("--reduce-every-extents");
    assert("--reduce-every-extents"@.len() == 22);
    reveal_strlit("--read-access");
    assert("--read-access"@.len() == 13);
    reveal_strlit("--read-copy");
    assert("--read-copy"@.len() == 11);
    reveal_strlit("--materialize-reads");
    assert("--materialize-reads"@.len() == 19);
    reveal_strlit("--read-ref");
    assert("--read-ref"@.len() == 10);
    reveal_strlit("--descriptor-reads");
    assert("--descriptor-reads"@.len() == 18);
    reveal_strlit("--pin");
    assert("--pin"@.len() == 5);
    reveal_strlit("--no-pin");
    assert("--no-pin"@.len() == 8);
    reveal_strlit("--cpu-list");
    assert("--cpu-list"@.len() == 10);
    reveal_strlit("--thp");
    assert("--thp"@.len() == 5);
    reveal_strlit("--no-thp");
    assert("--no-thp"@.len() == 8);
    reveal_strlit("--hugetlb");
    assert("--hugetlb"@.len() == 9);
    reveal_strlit("--no-hugetlb");
    assert("--no-hugetlb"@.len() == 12);
    reveal_strlit("--verify");
    assert("--verify"@.len() == 8);
    reveal_strlit("--no-verify");
    assert("--no-verify"@.len() == 11);
    reveal_strlit("--bulk-extents");
    assert("--bulk-extents"@.len() == 14);
    reveal_strlit("--per-record-ingest");
    assert("--per-record-ingest"@.len() == 19);
    assert("--workers"@[2] != "--pattern"@[2]);
    assert("--read-ref"@[7] != "--read-pct"@[7]);
    assert("--descriptor-reads"@[2] != "--records-per-lane"@[2]);
    assert("--cpu-list"@[2] != "--read-pct"@[2]);
    assert("--cpu-list"@[2] != "--read-ref"@[2]);
    assert("--thp"@[2] != "--pin"@[2]);
    assert("--no-thp"@[5] != "--no-pin"@[5]);
    assert("--hugetlb"@[2] != "--pattern"@[2]);
    assert("--hugetlb"@[2] != "--workers"@[2]);
    assert("--verify"@[2] != "--no-pin"@[2]);
    assert("--verify"@[2] != "--no-thp"@[2]);
    assert("--no-verify"@[2] != "--read-copy"@[2]);
    assert("--bulk-extents"@[2] != "--record-bytes"@[2]);
    assert("--per-record-ingest"@[2] != "--materialize-reads"@[2]);
}

/// A run is accepted exactly where it has lanes, workers and records to work on, records of at least
/// sixteen bytes, and a share of reads of at most all.
pub proof fn law_only_runs_with_work_are_accepted(c: ConfigView)
    ensures
        config_fault(c) is None <==> c.lanes > 0 && c.workers > 0 && c.records_per_lane > 0
            && c.record_bytes >= 16 && c.extent_records > 0 && c.block_records_per_lane > 0
            && c.read_pct <= 100,
{
}

/// Options are taken one after the other, each with the value that follows it or alone where it is a switch; the first one that cannot
/// be taken decides.
pub proof fn law_options_are_taken_in_order(
    arg: Seq<char>,
    text: Seq<char>,
    rest: Seq<Seq<char>>,
    d: ConfigView,
)
    requires
        arg != "-h"@,
        arg != "--help"@,
    ensures
        !is_switch(arg) && with_option(d, arg, Some(text)) is Ok ==> drafted(seq![arg, text] + rest, d) == drafted(
            rest,
            with_option(d, arg, Some(text))->Ok_0,
        ),
        with_option(d, arg, Some(text)) is Err ==> drafted(seq![arg, text] + rest, d) is Err,
        is_switch(arg) && with_option(d, arg, crate::args::nth(seq![arg] + rest, 1)) is Ok ==> drafted(
            seq![arg] + rest,
            d,
        ) == drafted(rest, with_option(d, arg, crate::args::nth(seq![arg] + rest, 1))->Ok_0),
        drafted(Seq::empty(), d) == Ok::<Option<ConfigView>, Fault>(Some(d)),
{
    let two = seq![arg, text] + rest;
    assert(two[0] == arg && two[1] == text);
    assert(two.skip(2) =~= rest);
    let one = seq![arg] + rest;
    assert(one[0] == arg);
    assert(one.skip(1) =~= rest);
}

} // verus!
