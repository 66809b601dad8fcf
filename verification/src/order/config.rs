//! What a run of the ordered lanes is asked to do, and how many threads and ring entries it needs.
use vstd::prelude::*;
use vstd::string::*;

use crate::args::{needed, value_at};
use crate::cpus::{cpu_ranges, split_once, PartFault};
use crate::error::{invalid, invalid_input, Error};
use crate::order::dispatch::{next_random, touch_record, ThreadStats};
use crate::order::ring::is_power_of_two;
use crate::text::{
    join2, join3, join4, number_reason, parse_size, parse_unsigned, quoted, str_eq,
};
#[allow(unused_imports)]
use crate::error::Fault;

verus! {

/// Which ordering a run measures.
#[derive(Clone, Copy, Debug, PartialEq, Eq, Structural)]
pub enum Mode {
    Atomic,
    Local,
    Owner,
    Dispatch,
    All,
}

/// The mode that a text names.
pub open spec fn mode_of(text: Seq<char>) -> Result<Mode, Fault> {
    if text == "atomic"@ || text == "global-atomic"@ {
        Ok(Mode::Atomic)
    } else if text == "local"@ || text == "lane-local"@ {
        Ok(Mode::Local)
    } else if text == "owner"@ || text == "owner-matrix"@ || text == "spsc-owner"@ {
        Ok(Mode::Owner)
    } else if text == "dispatch"@ || text == "ordered-dispatch"@ || text == "ordered-owner"@ {
        Ok(Mode::Dispatch)
    } else if text == "all"@ {
        Ok(Mode::All)
    } else {
        Err(
            crate::error::bad_input(
                "unknown mode "@ + crate::text::debug_text(text)
                    + "; use atomic, local, owner, dispatch, or all"@,
            ),
        )
    }
}

impl Mode {
    /// The mode that a text names.
    pub fn parse(value: &str) -> (r: Result<Mode, Error>)
        ensures
            crate::error::agrees(r, mode_of(value@)),
    {
        if str_eq(value, "atomic") || str_eq(value, "global-atomic") {
            Ok(Mode::Atomic)
        } else if str_eq(value, "local") || str_eq(value, "lane-local") {
            Ok(Mode::Local)
        } else if str_eq(value, "owner") || str_eq(value, "owner-matrix") || str_eq(
            value,
            "spsc-owner",
        ) {
            Ok(Mode::Owner)
        } else if str_eq(value, "dispatch") || str_eq(value, "ordered-dispatch") || str_eq(
            value,
            "ordered-owner",
        ) {
            Ok(Mode::Dispatch)
        } else if str_eq(value, "all") {
            Ok(Mode::All)
        } else {
            Err(
                invalid_input(
                    join3(
                        "unknown mode ",
                        quoted(value).as_str(),
                        "; use atomic, local, owner, dispatch, or all",
                    ),
                ),
            )
        }
    }
}

/// What is said of a text that is no number.
pub open spec fn bad_number(text: Seq<char>, label: Seq<char>, max: nat) -> Fault {
    crate::error::bad_input(
        "invalid "@ + label + " "@ + crate::text::debug_text(text) + ": "@
            + crate::text::number_fault(text, max),
    )
}

/// The size that a text gives.
pub open spec fn size_of(text: Seq<char>, label: Seq<char>) -> Result<usize, Fault> {
    match crate::text::unsigned_value(text, usize::MAX as nat) {
        Some(n) => Ok(n as usize),
        None => Err(bad_number(text, label, usize::MAX as nat)),
    }
}

/// The number that a text gives.
pub open spec fn word_of(text: Seq<char>, label: Seq<char>) -> Result<u64, Fault> {
    match crate::text::unsigned_value(text, u64::MAX as nat) {
        Some(n) => Ok(n as u64),
        None => Err(bad_number(text, label, u64::MAX as nat)),
    }
}

fn number_error(value: &str, label: &str, max: u64) -> (e: Error)
    ensures
        e@ == bad_number(value@, label@, max as nat),
{
    let head: String = join4("invalid ", label, " ", quoted(value).as_str());
    invalid_input(join3(head.as_str(), ": ", number_reason(value, max)))
}

/// The size that a text gives.
pub fn parse_usize(value: &str, label: &str) -> (r: Result<usize, Error>)
    ensures
        crate::error::agrees(r, size_of(value@, label@)),
{
    match parse_size(value) {
        Some(n) => Ok(n),
        None => Err(number_error(value, label, usize::MAX as u64)),
    }
}

/// The number that a text gives.
pub fn parse_u64(value: &str, label: &str) -> (r: Result<u64, Error>)
    ensures
        crate::error::agrees(r, word_of(value@, label@)),
{
    match parse_unsigned(value, u64::MAX) {
        Some(n) => Ok(n),
        None => Err(number_error(value, label, u64::MAX)),
    }
}

/// The percentage that a text gives.
pub open spec fn percent_of(text: Seq<char>) -> Result<u32, Fault> {
    match crate::text::unsigned_value(text, u32::MAX as nat) {
        Some(n) => Ok(n as u32),
        None => Err(
            crate::error::bad_input(
                "invalid hot percent: "@ + crate::text::number_fault(text, u32::MAX as nat),
            ),
        ),
    }
}

fn parse_percent(value: &str) -> (r: Result<u32, Error>)
    ensures
        crate::error::agrees(r, percent_of(value@)),
{
    match parse_unsigned(value, u32::MAX as u64) {
        Some(n) => Ok(n as u32),
        None => Err(
            invalid_input(join2("invalid hot percent: ", number_reason(value, u32::MAX as u64))),
        ),
    }
}

/// What is said of an item of a list of processors that is wrong.
pub open spec fn cpu_fault(part: Seq<char>, fault: PartFault) -> Fault {
    let max = usize::MAX as nat;
    let (start, end) = crate::cpus::sides(part, '-')->0;
    match fault {
        PartFault::First => bad_number(start, "CPU range start"@, max),
        PartFault::Last => bad_number(end, "CPU range end"@, max),
        PartFault::Single => bad_number(part, "CPU"@, max),
        PartFault::Descending => crate::error::bad_input("CPU range end is below its start"@),
    }
}

/// The processors of a list, each once.
pub open spec fn cpus_of(text: Seq<char>) -> Result<Seq<usize>, Fault> {
    match crate::cpus::listed(crate::text::split_text(text, ','), true) {
        Ok(list) => Ok(list),
        Err((part, fault)) => Err(cpu_fault(part, fault)),
    }
}

fn cpu_error(part: &str, fault: PartFault) -> (e: Error)
    requires
        fault == PartFault::First || fault == PartFault::Last ==> crate::cpus::sides(
            part@,
            '-',
        ) is Some,
    ensures
        e@ == cpu_fault(part@, fault),
{
    let max: u64 = usize::MAX as u64;
    match fault {
        PartFault::First => match split_once(part, '-') {
            Some((a, _)) => number_error(a.as_str(), "CPU range start", max),
            None => number_error(part, "CPU", max),
        },
        PartFault::Last => match split_once(part, '-') {
            Some((_, b)) => number_error(b.as_str(), "CPU range end", max),
            None => number_error(part, "CPU", max),
        },
        PartFault::Single => number_error(part, "CPU", max),
        PartFault::Descending => invalid("CPU range end is below its start"),
    }
}

/// The processors of a list, each once.
pub fn parse_cpu_list(value: &str) -> (r: Result<Vec<usize>, Error>)
    ensures
        match r {
            Ok(list) => cpus_of(value@) == Ok::<Seq<usize>, Fault>(list@),
            Err(e) => cpus_of(value@) == Err::<Seq<usize>, Fault>(e@),
        },
{
    match cpu_ranges(value, true) {
        Ok(list) => Ok(list),
        Err((part, fault)) => {
            proof {
                lemma_fault_has_sides(crate::text::split_text(value@, ','));
            }
            Err(cpu_error(part.as_str(), fault))
        },
    }
}

proof fn lemma_fault_has_sides(parts: Seq<Seq<char>>)
    ensures
        match crate::cpus::listed(parts, true) {
            Err((part, fault)) => fault == PartFault::First || fault == PartFault::Last
                ==> crate::cpus::sides(part, '-') is Some,
            Ok(_) => true,
        },
    decreases parts.len(),
{
    if parts.len() > 0 {
        lemma_fault_has_sides(parts.drop_last());
    }
}

/// The processors of the ingress and of the owner of each lane where none were named: four apart.
pub fn default_cpu_maps(lanes: usize) -> (maps: (Vec<usize>, Vec<usize>))
    requires
        lanes <= 65535,
    ensures
        maps.0@ == Seq::new(lanes as nat, |i: int| (i * 4) as usize),
        maps.1@ == Seq::new(lanes as nat, |i: int| (i * 4 + 1) as usize),
{
    let mut ingress: Vec<usize> = Vec::new();
    let mut owners: Vec<usize> = Vec::new();
    let mut lane: usize = 0;
    while lane < lanes
        invariant
            lane <= lanes <= 65535,
            ingress@ == Seq::new(lane as nat, |i: int| (i * 4) as usize),
            owners@ == Seq::new(lane as nat, |i: int| (i * 4 + 1) as usize),
        decreases lanes - lane,
    {
        ingress.push(lane * 4);
        owners.push(lane * 4 + 1);
        proof {
            assert(ingress@ =~= Seq::new((lane + 1) as nat, |i: int| (i * 4) as usize));
            assert(owners@ =~= Seq::new((lane + 1) as nat, |i: int| (i * 4 + 1) as usize));
        }
        lane = lane + 1;
    }
    (ingress, owners)
}

/// What a command line has said so far.
#[derive(Debug)]
pub struct Draft {
    pub mode: Mode,
    pub lanes: usize,
    pub ops_per_lane: u64,
    pub records: usize,
    pub hot_percent: u32,
    pub window: usize,
    pub ring_entries: usize,
    pub dispatch_batch: usize,
    pub pin: bool,
    pub ingress_cpus: Option<Vec<usize>>,
    pub owner_cpus: Option<Vec<usize>>,
}

/// What is meant by [`Draft`].
pub struct DraftView {
    pub mode: Mode,
    pub lanes: usize,
    pub ops_per_lane: u64,
    pub records: usize,
    pub hot_percent: u32,
    pub window: usize,
    pub ring_entries: usize,
    pub dispatch_batch: usize,
    pub pin: bool,
    pub ingress_cpus: Option<Seq<usize>>,
    pub owner_cpus: Option<Seq<usize>>,
}

impl View for Draft {
    type V = DraftView;

    open spec fn view(&self) -> DraftView {
        DraftView {
            mode: self.mode,
            lanes: self.lanes,
            ops_per_lane: self.ops_per_lane,
            records: self.records,
            hot_percent: self.hot_percent,
            window: self.window,
            ring_entries: self.ring_entries,
            dispatch_batch: self.dispatch_batch,
            pin: self.pin,
            ingress_cpus: match self.ingress_cpus {
                Some(v) => Some(v@),
                None => None,
            },
            owner_cpus: match self.owner_cpus {
                Some(v) => Some(v@),
                None => None,
            },
        }
    }
}

/// What a run is asked to do.
#[derive(Debug)]
pub struct Config {
    pub mode: Mode,
    pub lanes: usize,
    pub ops_per_lane: u64,
    pub records: usize,
    pub hot_percent: u32,
    pub window: usize,
    pub ring_entries: usize,
    pub dispatch_batch: usize,
    pub pin: bool,
    pub ingress_cpus: Vec<usize>,
    pub owner_cpus: Vec<usize>,
}

/// How the program is called.
pub fn usage() -> (text: &'static str)
    ensures
        text@ == "usage: zcorder-bench [--mode atomic|local|owner|dispatch|all] [--lanes N] [--ops-per-lane N] [--records N] [--hot-percent 0..100] [--window N] [--ring-entries N] [--dispatch-batch N] [--ingress-cpus LIST] [--owner-cpus LIST] [--pin|--no-pin]"@,
{
    "usage: zcorder-bench [--mode atomic|local|owner|dispatch|all] [--lanes N] [--ops-per-lane N] [--records N] [--hot-percent 0..100] [--window N] [--ring-entries N] [--dispatch-batch N] [--ingress-cpus LIST] [--owner-cpus LIST] [--pin|--no-pin]"
}

/// What a command line says before its first option.
pub open spec fn blank_draft() -> DraftView {
    DraftView {
        mode: Mode::All,
        lanes: 4,
        ops_per_lane: 5000000,
        records: 262144,
        hot_percent: 0,
        window: 4096,
        ring_entries: 4096,
        dispatch_batch: 256,
        pin: true,
        ingress_cpus: None,
        owner_cpus: None,
    }
}

/// `d` with one more option and its value.
pub open spec fn with_option(d: DraftView, arg: Seq<char>, value: Option<Seq<char>>) -> Result<
    DraftView,
    Fault,
> {
    if arg == "--mode"@ {
        match crate::args::text_due(value, "--mode needs a value"@) {
            Ok(text) => match mode_of(text) {
                Ok(x) => Ok(DraftView { mode: x, ..d }),
                Err(e) => Err(e),
            },
            Err(e) => Err(e),
        }
    } else if arg == "--lanes"@ {
        match crate::args::text_due(value, "--lanes needs a value"@) {
            Ok(text) => match size_of(text, "lanes"@) {
                Ok(x) => Ok(DraftView { lanes: x, ..d }),
                Err(e) => Err(e),
            },
            Err(e) => Err(e),
        }
    } else if arg == "--ops-per-lane"@ {
        match crate::args::text_due(value, "--ops-per-lane needs a value"@) {
            Ok(text) => match word_of(text, "ops"@) {
                Ok(x) => Ok(DraftView { ops_per_lane: x, ..d }),
                Err(e) => Err(e),
            },
            Err(e) => Err(e),
        }
    } else if arg == "--records"@ {
        match crate::args::text_due(value, "--records needs a value"@) {
            Ok(text) => match size_of(text, "records"@) {
                Ok(x) => Ok(DraftView { records: x, ..d }),
                Err(e) => Err(e),
            },
            Err(e) => Err(e),
        }
    } else if arg == "--hot-percent"@ {
        match crate::args::text_due(value, "--hot-percent needs a value"@) {
            Ok(text) => match percent_of(text) {
                Ok(x) => Ok(DraftView { hot_percent: x, ..d }),
                Err(e) => Err(e),
            },
            Err(e) => Err(e),
        }
    } else if arg == "--window"@ {
        match crate::args::text_due(value, "--window needs a value"@) {
            Ok(text) => match size_of(text, "window"@) {
                Ok(x) => Ok(DraftView { window: x, ..d }),
                Err(e) => Err(e),
            },
            Err(e) => Err(e),
        }
    } else if arg == "--ring-entries"@ {
        match crate::args::text_due(value, "--ring-entries needs a value"@) {
            Ok(text) => match size_of(text, "ring entries"@) {
                Ok(x) => Ok(DraftView { ring_entries: x, ..d }),
                Err(e) => Err(e),
            },
            Err(e) => Err(e),
        }
    } else if arg == "--dispatch-batch"@ {
        match crate::args::text_due(value, "--dispatch-batch needs a value"@) {
            Ok(text) => match size_of(text, "dispatch batch"@) {
                Ok(x) => Ok(DraftView { dispatch_batch: x, ..d }),
                Err(e) => Err(e),
            },
            Err(e) => Err(e),
        }
    } else if arg == "--ingress-cpus"@ {
        match crate::args::text_due(value, "--ingress-cpus needs a value"@) {
            Ok(text) => match cpus_of(text) {
                Ok(x) => Ok(DraftView { ingress_cpus: Some(x), ..d }),
                Err(e) => Err(e),
            },
            Err(e) => Err(e),
        }
    } else if arg == "--owner-cpus"@ {
        match crate::args::text_due(value, "--owner-cpus needs a value"@) {
            Ok(text) => match cpus_of(text) {
                Ok(x) => Ok(DraftView { owner_cpus: Some(x), ..d }),
                Err(e) => Err(e),
            },
            Err(e) => Err(e),
        }
    } else if arg == "--pin"@ {
        Ok(DraftView { pin: true, ..d })
    } else if arg == "--no-pin"@ {
        Ok(DraftView { pin: false, ..d })
    } else {
        Err(crate::error::bad_input("unknown argument "@ + crate::text::debug_text(arg)))
    }
}

/// Whether an option stands alone.
pub open spec fn is_switch(arg: Seq<char>) -> bool {
    arg == "--pin"@ || arg == "--no-pin"@
}

/// What a command line says in all; nothing where it asks how the program is called.
pub open spec fn drafted(rest: Seq<Seq<char>>, d: DraftView) -> Result<Option<DraftView>, Fault>
    decreases rest.len(),
{
    if rest.len() == 0 {
        Ok(Some(d))
    } else if rest[0] == "-h"@ || rest[0] == "--help"@ {
        Ok(None)
    } else {
        match with_option(d, rest[0], crate::args::nth(rest, 1)) {
            Ok(next) => drafted(
                crate::args::after(
                    rest,
                    if is_switch(rest[0]) {
                        1
                    } else {
                        2
                    },
                ),
                next,
            ),
            Err(e) => Err(e),
        }
    }
}

/// The processors of the ingress lanes.
pub open spec fn ingress_of(d: DraftView) -> Seq<usize> {
    match d.ingress_cpus {
        Some(cpus) => cpus,
        None => Seq::new(d.lanes as nat, |i: int| (i * 4) as usize),
    }
}

/// The processors of the owners.
pub open spec fn owners_of(d: DraftView) -> Seq<usize> {
    match d.owner_cpus {
        Some(cpus) => cpus,
        None => Seq::new(d.lanes as nat, |i: int| (i * 4 + 1) as usize),
    }
}

/// The fault on which a complete command line is refused, if it is.
pub open spec fn draft_fault(d: DraftView) -> Option<Fault> {
    if d.lanes == 0 || d.lanes > 65535 {
        Some(crate::error::bad_input("lanes must be in 1..=65535"@))
    } else if d.ops_per_lane == 0 || d.records == 0 || d.window == 0 {
        Some(crate::error::bad_input("ops, records, and window must be positive"@))
    } else if d.hot_percent > 100 {
        Some(crate::error::bad_input("hot percent must be in 0..=100"@))
    } else if d.ring_entries < d.window || !crate::order::ring::power_of_two(
        d.ring_entries as nat,
    ) {
        Some(crate::error::bad_input("ring entries must be a power of two >= window"@))
    } else if d.dispatch_batch == 0 || d.dispatch_batch > d.ring_entries {
        Some(crate::error::bad_input("dispatch batch must be in 1..=ring-entries"@))
    } else if d.pin && (ingress_of(d).len() != d.lanes || owners_of(d).len() != d.lanes) {
        Some(crate::error::bad_input("pinned runs need one ingress and owner CPU per lane"@))
    } else {
        None
    }
}

/// Whether a configuration is what a complete command line asks for.
pub open spec fn configured(c: Config, d: DraftView) -> bool {
    &&& draft_fault(d) is None
    &&& c.mode == d.mode
    &&& c.lanes == d.lanes
    &&& c.ops_per_lane == d.ops_per_lane
    &&& c.records == d.records
    &&& c.hot_percent == d.hot_percent
    &&& c.window == d.window
    &&& c.ring_entries == d.ring_entries
    &&& c.dispatch_batch == d.dispatch_batch
    &&& c.pin == d.pin
    &&& c.ingress_cpus@ == ingress_of(d)
    &&& c.owner_cpus@ == owners_of(d)
}

impl Draft {
    fn new() -> (d: Draft)
        ensures
            d@ == blank_draft(),
    {
        Draft {
            mode: Mode::All,
            lanes: 4,
            ops_per_lane: 5000000,
            records: 262144,
            hot_percent: 0,
            window: 4096,
            ring_entries: 4096,
            dispatch_batch: 256,
            pin: true,
            ingress_cpus: None,
            owner_cpus: None,
        }
    }

    #[verifier::rlimit(60)]
    fn with(self, arg: &str, value: Option<String>) -> (r: Result<Draft, Error>)
        ensures
            match r {
                Ok(d) => with_option(self@, arg@, crate::args::said(value)) == Ok::<
                    DraftView,
                    Fault,
                >(d@),
                Err(e) => with_option(self@, arg@, crate::args::said(value)) == Err::<
                    DraftView,
                    Fault,
                >(e@),
            },
    {
        let mut d: Draft = self;
        if str_eq(arg, "--mode") {
            let text: String = match needed(value, "--mode needs a value") {
                Ok(text) => text,
                Err(e) => {
                    return Err(e);
                },
            };
            match Mode::parse(text.as_str()) {
                Ok(x) => {
                    d.mode = x;
                },
                Err(e) => {
                    return Err(e);
                },
            }
        } else if str_eq(arg, "--lanes") {
            let text: String = match needed(value, "--lanes needs a value") {
                Ok(text) => text,
                Err(e) => {
                    return Err(e);
                },
            };
            match parse_usize(text.as_str(), "lanes") {
                Ok(x) => {
                    d.lanes = x;
                },
                Err(e) => {
                    return Err(e);
                },
            }
        } else if str_eq(arg, "--ops-per-lane") {
            let text: String = match needed(value, "--ops-per-lane needs a value") {
                Ok(text) => text,
                Err(e) => {
                    return Err(e);
                },
            };
            match parse_u64(text.as_str(), "ops") {
                Ok(x) => {
                    d.ops_per_lane = x;
                },
                Err(e) => {
                    return Err(e);
                },
            }
        } else if str_eq(arg, "--records") {
            let text: String = match needed(value, "--records needs a value") {
                Ok(text) => text,
                Err(e) => {
                    return Err(e);
                },
            };
            match parse_usize(text.as_str(), "records") {
                Ok(x) => {
                    d.records = x;
                },
                Err(e) => {
                    return Err(e);
                },
            }
        } else if str_eq(arg, "--hot-percent") {
            let text: String = match needed(value, "--hot-percent needs a value") {
                Ok(text) => text,
                Err(e) => {
                    return Err(e);
                },
            };
            match parse_percent(text.as_str()) {
                Ok(x) => {
                    d.hot_percent = x;
                },
                Err(e) => {
                    return Err(e);
                },
            }
        } else if str_eq(arg, "--window") {
            let text: String = match needed(value, "--window needs a value") {
                Ok(text) => text,
                Err(e) => {
                    return Err(e);
                },
            };
            match parse_usize(text.as_str(), "window") {
                Ok(x) => {
                    d.window = x;
                },
                Err(e) => {
                    return Err(e);
                },
            }
        } else if str_eq(arg, "--ring-entries") {
            let text: String = match needed(value, "--ring-entries needs a value") {
                Ok(text) => text,
                Err(e) => {
                    return Err(e);
                },
            };
            match parse_usize(text.as_str(), "ring entries") {
                Ok(x) => {
                    d.ring_entries = x;
                },
                Err(e) => {
                    return Err(e);
                },
            }
        } else if str_eq(arg, "--dispatch-batch") {
            let text: String = match needed(value, "--dispatch-batch needs a value") {
                Ok(text) => text,
                Err(e) => {
                    return Err(e);
                },
            };
            match parse_usize(text.as_str(), "dispatch batch") {
                Ok(x) => {
                    d.dispatch_batch = x;
                },
                Err(e) => {
                    return Err(e);
                },
            }
        } else if str_eq(arg, "--ingress-cpus") {
            let text: String = match needed(value, "--ingress-cpus needs a value") {
                Ok(text) => text,
                Err(e) => {
                    return Err(e);
                },
            };
            match parse_cpu_list(text.as_str()) {
                Ok(x) => {
                    d.ingress_cpus = Some(x);
                },
                Err(e) => {
                    return Err(e);
                },
            }
        } else if str_eq(arg, "--owner-cpus") {
            let text: String = match needed(value, "--owner-cpus needs a value") {
                Ok(text) => text,
                Err(e) => {
                    return Err(e);
                },
            };
            match parse_cpu_list(text.as_str()) {
                Ok(x) => {
                    d.owner_cpus = Some(x);
                },
                Err(e) => {
                    return Err(e);
                },
            }
        } else if str_eq(arg, "--pin") {
            d.pin = true;
        } else if str_eq(arg, "--no-pin") {
            d.pin = false;
        } else {
            return Err(
                invalid_input(join2("unknown argument ", quoted(arg).as_str())),
            );
        }
        Ok(d)
    }

    fn finish(self) -> (r: Result<Config, Error>)
        ensures
            match r {
                Ok(c) => configured(c, self@),
                Err(e) => draft_fault(self@) == Some(e@),
            },
    {
        if self.lanes == 0 || self.lanes > 65535 {
            return Err(invalid("lanes must be in 1..=65535"));
        }
        if self.ops_per_lane == 0 || self.records == 0 || self.window == 0 {
            return Err(invalid("ops, records, and window must be positive"));
        }
        if self.hot_percent > 100 {
            return Err(invalid("hot percent must be in 0..=100"));
        }
        if self.ring_entries < self.window || !is_power_of_two(self.ring_entries as u64) {
            return Err(invalid("ring entries must be a power of two >= window"));
        }
        if self.dispatch_batch == 0 || self.dispatch_batch > self.ring_entries {
            return Err(invalid("dispatch batch must be in 1..=ring-entries"));
        }
        let (default_ingress, default_owners): (Vec<usize>, Vec<usize>) = default_cpu_maps(
            self.lanes,
        );
        let ingress_cpus: Vec<usize> = match self.ingress_cpus {
            Some(cpus) => cpus,
            None => default_ingress,
        };
        let owner_cpus: Vec<usize> = match self.owner_cpus {
            Some(cpus) => cpus,
            None => default_owners,
        };
        if self.pin && (ingress_cpus.len() != self.lanes || owner_cpus.len() != self.lanes) {
            return Err(invalid("pinned runs need one ingress and owner CPU per lane"));
        }
        Ok(
            Config {
                mode: self.mode,
                lanes: self.lanes,
                ops_per_lane: self.ops_per_lane,
                records: self.records,
                hot_percent: self.hot_percent,
                window: self.window,
                ring_entries: self.ring_entries,
                dispatch_batch: self.dispatch_batch,
                pin: self.pin,
                ingress_cpus,
                owner_cpus,
            },
        )
    }
}

/// Reads a command line; nothing comes back where it asks how the program is called.
pub fn parse_config(args: &Vec<String>) -> (r: Result<Option<Config>, Error>)
    ensures
        ({
            let all = drafted(crate::text::texts(args@), blank_draft());
            match r {
                Ok(Some(c)) => all is Ok && all->Ok_0 is Some && configured(c, all->Ok_0->0),
                Ok(None) => all == Ok::<Option<DraftView>, Fault>(None),
                Err(e) => match all {
                    Ok(Some(d)) => draft_fault(d) == Some(e@),
                    Ok(None) => false,
                    Err(f) => f == e@,
                },
            }
        }),
{
    let mut draft: Draft = Draft::new();
    let ghost views = crate::text::texts(args@);
    let ghost first = draft@;
    let ghost goal = drafted(views, first);
    let count: usize = args.len();
    let mut i: usize = 0;
    proof {
        assert(views.skip(0) =~= views);
    }
    while i < count
        invariant
            i <= count,
            count == args@.len(),
            views == crate::text::texts(args@),
            goal == drafted(views, first),
            first == blank_draft(),
            goal == drafted(views.skip(i as int), draft@),
        decreases count - i,
    {
        let ghost rest = views.skip(i as int);
        let arg: &str = args[i].as_str();
        proof {
            assert(rest[0] == arg@);
            assert(crate::args::nth(rest, 1) == crate::args::nth(views, i + 1));
        }
        if str_eq(arg, "-h") || str_eq(arg, "--help") {
            return Ok(None);
        }
        let switch: bool = str_eq(arg, "--pin") || str_eq(arg, "--no-pin");
        let next: usize = if switch {
            i + 1
        } else if count - i >= 2 {
            i + 2
        } else {
            count
        };
        proof {
            assert(crate::args::after(
                rest,
                if switch {
                    1
                } else {
                    2
                },
            ) =~= views.skip(next as int));
        }
        let value: Option<String> = value_at(args.as_slice(), i + 1);
        draft = match draft.with(arg, value) {
            Ok(d) => d,
            Err(e) => {
                return Err(e);
            },
        };
        i = next;
    }
    proof {
        assert(views.skip(i as int).len() == 0);
    }
    match draft.finish() {
        Ok(c) => Ok(Some(c)),
        Err(e) => Err(e),
    }
}

/// What a run with an ordered dispatcher needs.
#[derive(Clone, Copy, Debug, PartialEq, Eq, Structural)]
pub struct DispatchPlan {
    pub reorder_entries: usize,
    pub threads: usize,
    pub total_ops: u64,
    pub dispatcher_cpu: Option<usize>,
}

/// The least power of two that is at least `n`, from the power `p` on.
pub open spec fn power_from(n: nat, p: nat) -> nat
    decreases (if p < n {
            n - p
        } else {
            0
        }),
{
    if p == 0 || p >= n {
        p
    } else {
        power_from(n, p * 2)
    }
}

/// The least power of two that is at least `n`.
pub open spec fn next_power(n: nat) -> nat {
    power_from(n, 1)
}

fn next_power_of_two(n: usize) -> (p: Option<usize>)
    ensures
        match p {
            Some(p) => p == next_power(n as nat),
            None => next_power(n as nat) > usize::MAX,
        },
{
    let mut p: usize = 1;
    while p < n
        invariant
            p > 0,
            power_from(n as nat, p as nat) == next_power(n as nat),
        decreases (if p < n {
            n - p
        } else {
            0
        }),
    {
        if p > usize::MAX / 2 {
            proof {
                lemma_power_grows(n as nat, (p * 2) as nat);
            }
            return None;
        }
        p = p * 2;
    }
    Some(p)
}

proof fn lemma_power_grows(n: nat, p: nat)
    ensures
        power_from(n, p) >= p,
    decreases (if p < n {
            n - p
        } else {
            0
        }),
{
    if p > 0 && p < n {
        lemma_power_grows(n, p * 2);
    }
}

/// The largest number of a list.
pub open spec fn largest(list: Seq<usize>) -> Option<usize>
    decreases list.len(),
{
    if list.len() == 0 {
        None
    } else {
        match largest(list.drop_last()) {
            Some(m) => if m >= list.last() {
                Some(m)
            } else {
                Some(list.last())
            },
            None => Some(list.last()),
        }
    }
}

fn largest_of(list: &Vec<usize>, start: Option<usize>, Ghost(before): Ghost<Seq<usize>>) -> (m: Option<
    usize,
>)
    requires
        start == largest(before),
    ensures
        m == largest(before + list@),
{
    let mut m: Option<usize> = start;
    let mut i: usize = 0;
    proof {
        assert(before + list@.subrange(0, 0) =~= before);
    }
    while i < list.len()
        invariant
            i <= list@.len(),
            m == largest(before + list@.subrange(0, i as int)),
        decreases list@.len() - i,
    {
        proof {
            let grown = before + list@.subrange(0, i + 1);
            assert(grown.drop_last() =~= before + list@.subrange(0, i as int));
            assert(grown.last() == list@[i as int]);
        }
        m = match m {
            Some(v) => if v >= list[i] {
                Some(v)
            } else {
                Some(list[i])
            },
            None => Some(list[i]),
        };
        i = i + 1;
    }
    proof {
        assert(list@.subrange(0, i as int) =~= list@);
    }
    m
}

/// What a run with an ordered dispatcher needs: a reorder window for all lanes, two threads for each
/// lane and two more, and the processor behind all others.
pub open spec fn dispatch_needs(c: Config) -> Result<DispatchPlan, Fault> {
    let window = next_power((c.window * c.lanes) as nat);
    if c.window * c.lanes > usize::MAX || window > usize::MAX {
        Err(crate::error::bad_input("ordered-dispatch reorder window overflow"@))
    } else if c.lanes * 2 + 2 > usize::MAX {
        Err(crate::error::bad_input("ordered-dispatch thread count overflow"@))
    } else if c.ops_per_lane * c.lanes > u64::MAX {
        Err(crate::error::bad_input("ordered-dispatch operation count overflow"@))
    } else {
        Ok(
            DispatchPlan {
                reorder_entries: window as usize,
                threads: (c.lanes * 2 + 2) as usize,
                total_ops: (c.ops_per_lane * c.lanes) as u64,
                dispatcher_cpu: match largest(c.ingress_cpus@ + c.owner_cpus@) {
                    Some(m) => if m == usize::MAX {
                        None
                    } else {
                        Some((m + 1) as usize)
                    },
                    None => None,
                },
            },
        )
    }
}

/// What a run with an ordered dispatcher needs.
pub fn dispatch_plan(c: &Config) -> (r: Result<DispatchPlan, Error>)
    ensures
        crate::error::agrees(r, dispatch_needs(*c)),
{
    let wide: usize = match c.window.checked_mul(c.lanes) {
        Some(wide) => wide,
        None => {
            return Err(invalid("ordered-dispatch reorder window overflow"));
        },
    };
    let reorder_entries: usize = match next_power_of_two(wide) {
        Some(p) => p,
        None => {
            return Err(invalid("ordered-dispatch reorder window overflow"));
        },
    };
    let threads: usize = match c.lanes.checked_mul(2) {
        Some(twice) => match twice.checked_add(2) {
            Some(threads) => threads,
            None => {
                return Err(invalid("ordered-dispatch thread count overflow"));
            },
        },
        None => {
            return Err(invalid("ordered-dispatch thread count overflow"));
        },
    };
    let total_ops: u64 = match c.ops_per_lane.checked_mul(c.lanes as u64) {
        Some(total) => total,
        None => {
            return Err(invalid("ordered-dispatch operation count overflow"));
        },
    };
    let ingress: Option<usize> = largest_of(&c.ingress_cpus, None, Ghost(Seq::empty()));
    proof {
        assert(Seq::<usize>::empty() + c.ingress_cpus@ =~= c.ingress_cpus@);
    }
    let top: Option<usize> = largest_of(&c.owner_cpus, ingress, Ghost(c.ingress_cpus@));
    let dispatcher_cpu: Option<usize> = match top {
        Some(m) => m.checked_add(1),
        None => None,
    };
    Ok(DispatchPlan { reorder_entries, threads, total_ops, dispatcher_cpu })
}

/// How many records each lane keeps for itself.
pub open spec fn lane_records(records: int, lanes: int) -> int {
    let share = (records + lanes - 1) / lanes;
    if share < 1 {
        1
    } else {
        share
    }
}

/// What a lane that works for itself holds after some operations: the state of its random numbers,
/// the latest operation on each record, and its checksum.
pub struct LocalState {
    pub random: u64,
    pub latest: Seq<u64>,
    pub checksum: u64,
}

/// A lane that works for itself after `ops` operations on `records` records.
pub open spec fn local_after(seed: u64, records: nat, ops: nat) -> LocalState
    decreases ops,
{
    if ops == 0 {
        LocalState { random: seed, latest: Seq::new(records, |i: int| 0u64), checksum: 0 }
    } else {
        let s = local_after(seed, records, (ops - 1) as nat);
        let random = crate::random::xorshift(s.random);
        let record = random % (records as u64);
        LocalState {
            random,
            latest: s.latest.update(record as int, ops as u64),
            checksum: s.checksum ^ crate::random::word_add(s.latest[record as int], record),
        }
    }
}

/// The work of one lane that keeps to its own records.
pub fn run_local(lane: u64, ops: u64, records: usize) -> (stats: ThreadStats)
    requires
        records > 0,
    ensures
        stats == (ThreadStats {
            ops,
            spins: 0,
            checksum: local_after(0xd1b5_4a32_d192_ed03 ^ lane, records as nat, ops as nat).checksum,
            voluntary: 0,
            involuntary: 0,
        }),
{
    let ghost seed = 0xd1b5_4a32_d192_ed03 ^ lane;
    let mut random: u64 = 0xd1b5_4a32_d192_ed03 ^ lane;
    let mut latest: Vec<u64> = Vec::new();
    let mut i: usize = 0;
    while i < records
        invariant
            i <= records,
            latest@ == Seq::new(i as nat, |k: int| 0u64),
        decreases records - i,
    {
        latest.push(0);
        proof {
            assert(latest@ =~= Seq::new((i + 1) as nat, |k: int| 0u64));
        }
        i = i + 1;
    }
    let mut checksum: u64 = 0;
    let mut done: u64 = 0;
    while done < ops
        invariant
            done <= ops,
            records > 0,
            latest@.len() == records,
            ({
                let s = local_after(seed, records as nat, done as nat);
                random == s.random && latest@ == s.latest && checksum == s.checksum
            }),
        decreases ops - done,
    {
        let value: u64 = next_random(&mut random);
        let record: u64 = value % (records as u64);
        done = done + 1;
        checksum = touch_record(&mut latest, record, done, checksum);
    }
    ThreadStats { ops, spins: 0, checksum, voluntary: 0, involuntary: 0 }
}

/// How many records each lane keeps for itself.
pub fn records_per_lane(records: usize, lanes: usize) -> (n: usize)
    requires
        lanes > 0,
    ensures
        n == lane_records(records as int, lanes as int),
        n > 0,
{
    let whole: usize = records / lanes;
    let rest: usize = records % lanes;
    proof {
        let l = lanes as int;
        let r = records as int;
        vstd::arithmetic::div_mod::lemma_fundamental_div_mod(r, l);
        assert(0 <= r / l <= r) by (nonlinear_arith)
            requires
                0 <= r,
                l > 0,
        ;
        if rest == 0 {
            assert((r + l - 1) / l == r / l) by (nonlinear_arith)
                requires
                    r == l * (r / l),
                    l > 0,
            ;
        } else {
            assert((r + l - 1) / l == r / l + 1) by (nonlinear_arith)
                requires
                    r == l * (r / l) + r % l,
                    0 < r % l < l,
                    l > 0,
            ;
            let q = r / l;
            assert(q * 2 <= l * q) by (nonlinear_arith)
                requires
                    l >= 2,
                    q >= 0,
            ;
        }
    }
    let share: usize = if rest == 0 {
        whole
    } else {
        whole + 1
    };
    if share < 1 {
        1
    } else {
        share
    }
}

proof fn lemma_power_from(n: nat, p: nat)
    requires
        crate::order::ring::power_of_two(p),
        p == 1 || p < 2 * n,
    ensures
        crate::order::ring::power_of_two(power_from(n, p)),
        power_from(n, p) >= n,
        power_from(n, p) == 1 || power_from(n, p) < 2 * n,
    decreases (if p < n {
            n - p
        } else {
            0
        }),
{
    if p < n {
        assert(p > 0);
        assert(crate::order::ring::power_of_two(p * 2)) by {
            assert((p * 2) / 2 == p);
        }
        lemma_power_from(n, p * 2);
    }
}

/// The ring takes the smallest power of two that is not below what is asked for.
pub proof fn law_the_next_power_is_the_smallest(n: nat)
    ensures
        crate::order::ring::power_of_two(next_power(n)),
        next_power(n) >= n,
        next_power(n) == 1 || next_power(n) < 2 * n,
{
    assert(crate::order::ring::power_of_two(1));
    lemma_power_from(n, 1);
}

/// The largest of a list is in the list, and nothing in it is larger.
pub proof fn law_the_largest_is_in_the_list(list: Seq<usize>)
    ensures
        largest(list) is None <==> list.len() == 0,
        largest(list) matches Some(m) ==> list.contains(m) && forall|i: int|
            0 <= i < list.len() ==> #[trigger] list[i] <= m,
    decreases list.len(),
{
    if list.len() > 0 {
        let head = list.drop_last();
        law_the_largest_is_in_the_list(head);
        let m = largest(list)->0;
        assert(list[list.len() - 1] == list.last());
        if largest(head) == Some(m) {
            let i = head.index_of(m);
            assert(list[i] == m);
        }
        assert forall|i: int| 0 <= i < list.len() implies #[trigger] list[i] <= m by {
            if i < head.len() {
                assert(head[i] == list[i]);
            }
        }
    }
}

/// The dispatcher gets a processor of its own behind all others, a ring with room for every window, a
/// thread for each end of each lane and for itself and the clock, and all operations of all lanes.
pub proof fn law_a_dispatch_run_has_what_it_needs(c: Config, plan: DispatchPlan)
    requires
        dispatch_needs(c) == Ok::<DispatchPlan, Fault>(plan),
    ensures
        plan.reorder_entries >= c.window * c.lanes,
        crate::order::ring::power_of_two(plan.reorder_entries as nat),
        plan.threads == 2 * c.lanes + 2,
        plan.total_ops == c.ops_per_lane * c.lanes,
        plan.dispatcher_cpu matches Some(cpu) ==> !c.ingress_cpus@.contains(cpu)
            && !c.owner_cpus@.contains(cpu),
{
    assert(c.window * c.lanes >= 0) by (nonlinear_arith)
        requires
            c.window >= 0,
            c.lanes >= 0,
    ;
    law_the_next_power_is_the_smallest((c.window * c.lanes) as nat);
    let all = c.ingress_cpus@ + c.owner_cpus@;
    law_the_largest_is_in_the_list(all);
    if plan.dispatcher_cpu is Some {
        let cpu = plan.dispatcher_cpu->0;
        assert forall|i: int| 0 <= i < c.ingress_cpus@.len() implies c.ingress_cpus@[i] != cpu by {
            assert(all[i] == c.ingress_cpus@[i]);
        }
        assert forall|i: int| 0 <= i < c.owner_cpus@.len() implies c.owner_cpus@[i] != cpu by {
            assert(all[c.ingress_cpus@.len() + i] == c.owner_cpus@[i]);
        }
    }
}

/// The records are shared out evenly: the shares of all lanes hold every record, and no lane could do with
/// one less.
pub proof fn law_lane_shares_hold_every_record(records: int, lanes: int)
    requires
        0 <= records,
        0 < lanes,
    ensures
        lane_records(records, lanes) >= 1,
        lane_records(records, lanes) * lanes >= records,
        lane_records(records, lanes) > 1 ==> (lane_records(records, lanes) - 1) * lanes < records,
{
    let top = records + lanes - 1;
    let share = top / lanes;
    vstd::arithmetic::div_mod::lemma_fundamental_div_mod(top, lanes);
    assert(lanes * share == share * lanes) by (nonlinear_arith);
    assert((share - 1) * lanes == share * lanes - lanes) by (nonlinear_arith);
    if share < 1 {
        assert(share * lanes <= 0) by (nonlinear_arith)
            requires
                share < 1,
                lanes > 0,
        ;
    }
}

/// A local run writes one record with each operation, under the number of the operation: no record has a
/// later number than the run has reached, and exactly one has that number.
pub proof fn law_local_runs_number_their_writes(seed: u64, records: nat, ops: nat)
    requires
        0 < records <= u64::MAX,
        ops <= u64::MAX,
    ensures
        local_after(seed, records, ops).latest.len() == records,
        forall|i: int|
            0 <= i < records ==> #[trigger] local_after(seed, records, ops).latest[i] <= ops,
        ops > 0 ==> exists|i: int|
            0 <= i < records && #[trigger] local_after(seed, records, ops).latest[i] == ops,
        ops > 0 ==> exists|k: int|
            0 <= k < records && #[trigger] local_after(seed, records, ops).latest[k] == ops && forall|
                i: int,
            |
                0 <= i < records && i != k ==> #[trigger] local_after(seed, records, ops).latest[i]
                    == local_after(seed, records, (ops - 1) as nat).latest[i],
    decreases ops,
{
    if ops > 0 {
        law_local_runs_number_their_writes(seed, records, (ops - 1) as nat);
        let s = local_after(seed, records, (ops - 1) as nat);
        let record = crate::random::xorshift(s.random) % (records as u64);
        let after = local_after(seed, records, ops);
        assert(after.latest[record as int] == ops);
        assert forall|i: int| 0 <= i < records implies #[trigger] after.latest[i] <= ops by {
            if i != record {
                assert(after.latest[i] == s.latest[i]);
            }
        }
    }
}

/// Unpinned options aside, a run is accepted exactly where each lane has work and room for it.
pub proof fn law_only_sound_drafts_are_accepted(d: DraftView)
    ensures
        draft_fault(d) is None ==> {
            &&& 1 <= d.lanes <= 65535
            &&& d.ops_per_lane > 0 && d.records > 0 && d.window > 0
            &&& d.hot_percent <= 100
            &&& d.window <= d.ring_entries
            &&& crate::order::ring::power_of_two(d.ring_entries as nat)
            &&& 1 <= d.dispatch_batch <= d.ring_entries
            &&& d.pin ==> ingress_of(d).len() == d.lanes && owners_of(d).len() == d.lanes
        },
{
}

/// Each option sets the field that it is named after, to the text that follows it or to what the text
/// writes down, and leaves every other field as it was.
pub proof fn law_each_option_sets_its_own_field(d: DraftView, text: Seq<char>, value: Option<Seq<char>>)
    ensures
        with_option(d, "--mode"@, Some(text)) matches Ok(a) ==> a == (DraftView { mode: a.mode, ..d }) && mode_of(text) == Ok::<Mode, Fault>(a.mode),
        with_option(d, "--lanes"@, Some(text)) matches Ok(a) ==> a == (DraftView { lanes: a.lanes, ..d }) && crate::text::unsigned_value(text, usize::MAX as nat) == Some(
            a.lanes as nat,
        ),
        with_option(d, "--ops-per-lane"@, Some(text)) matches Ok(a) ==> a == (DraftView { ops_per_lane: a.ops_per_lane, ..d }) && crate::text::unsigned_value(text, u64::MAX as nat) == Some(
            a.ops_per_lane as nat,
        ),
        with_option(d, "--records"@, Some(text)) matches Ok(a) ==> a == (DraftView { records: a.records, ..d }) && crate::text::unsigned_value(text, usize::MAX as nat) == Some(
            a.records as nat,
        ),
        with_option(d, "--hot-percent"@, Some(text)) matches Ok(a) ==> a == (DraftView { hot_percent: a.hot_percent, ..d }) && crate::text::unsigned_value(text, u32::MAX as nat) == Some(
            a.hot_percent as nat,
        ),
        with_option(d, "--window"@, Some(text)) matches Ok(a) ==> a == (DraftView { window: a.window, ..d }) && crate::text::unsigned_value(text, usize::MAX as nat) == Some(
            a.window as nat,
        ),
        with_option(d, "--ring-entries"@, Some(text)) matches Ok(a) ==> a == (DraftView { ring_entries: a.ring_entries, ..d }) && crate::text::unsigned_value(text, usize::MAX as nat) == Some(
            a.ring_entries as nat,
        ),
        with_option(d, "--dispatch-batch"@, Some(text)) matches Ok(a) ==> a == (DraftView { dispatch_batch: a.dispatch_batch, ..d }) && crate::text::unsigned_value(text, usize::MAX as nat) == Some(
            a.dispatch_batch as nat,
        ),
        with_option(d, "--ingress-cpus"@, Some(text)) matches Ok(a) ==> a == (DraftView { ingress_cpus: a.ingress_cpus, ..d }) && a.ingress_cpus is Some && cpus_of(text) == Ok::<Seq<usize>, Fault>(
            a.ingress_cpus->0,
        ),
        with_option(d, "--owner-cpus"@, Some(text)) matches Ok(a) ==> a == (DraftView { owner_cpus: a.owner_cpus, ..d }) && a.owner_cpus is Some && cpus_of(text) == Ok::<Seq<usize>, Fault>(
            a.owner_cpus->0,
        ),
        with_option(d, "--pin"@, value) == Ok::<DraftView, Fault>(
            (DraftView { pin: true, ..d }),
        ),
        with_option(d, "--no-pin"@, value) == Ok::<DraftView, Fault>(
            (DraftView { pin: false, ..d }),
        ),
{
    reveal_strlit("--mode");
    assert("--mode"@.len() == 6);
    reveal_strlit("--lanes");
    assert("--lanes"@.len() == 7);
    reveal_strlit("--ops-per-lane");
    assert("--ops-per-lane"@.len() == 14);
    reveal_strlit("--records");
    assert("--records"@.len() == 9);
    reveal_strlit("--hot-percent");
    assert("--hot-percent"@.len() == 13);
    reveal_strlit("--window");
    assert("--window"@.len() == 8);
    reveal_strlit("--ring-entries");
    assert("--ring-entries"@.len() == 14);
    reveal_strlit("--dispatch-batch");
    assert("--dispatch-batch"@.len() == 16);
    reveal_strlit("--ingress-cpus");
    assert("--ingress-cpus"@.len() == 14);
    reveal_strlit("--owner-cpus");
    assert("--owner-cpus"@.len() == 12);
    reveal_strlit("--pin");
    assert("--pin"@.len() == 5);
    reveal_strlit("--no-pin");
    assert("--no-pin"@.len() == 8);
    assert("--ring-entries"@[2] != "--ops-per-lane"@[2]);
    assert("--ingress-cpus"@[2] != "--ops-per-lane"@[2]);
    assert("--ingress-cpus"@[2] != "--ring-entries"@[2]);
    assert("--no-pin"@[2] != "--window"@[2]);
}

/// Options are taken one after the other, each with the value that follows it or alone where it is a switch; the first one that cannot
/// be taken decides.
pub proof fn law_options_are_taken_in_order(
    arg: Seq<char>,
    text: Seq<char>,
    rest: Seq<Seq<char>>,
    d: DraftView,
)
    requires
        arg != "-h"@,
        arg != "--help"@,
    ensures
        !is_switch(arg) && with_option(d, arg, Some(text)) is Ok ==> drafted(seq![arg, text] + rest, d) == drafted(
            rest,
            with_option(d, arg, Some(text))->Ok_0,
        ),
        with_option(d, arg, Some(text)) is Err ==> drafted(seq![arg, text] + rest, d) is Err,
        is_switch(arg) && with_option(d, arg, crate::args::nth(seq![arg] + rest, 1)) is Ok ==> drafted(
            seq![arg] + rest,
            d,
        ) == drafted(rest, with_option(d, arg, crate::args::nth(seq![arg] + rest, 1))->Ok_0),
        drafted(Seq::empty(), d) == Ok::<Option<DraftView>, Fault>(Some(d)),
{
    let two = seq![arg, text] + rest;
    assert(two[0] == arg && two[1] == text);
    assert(two.skip(2) =~= rest);
    let one = seq![arg] + rest;
    assert(one[0] == arg);
    assert(one.skip(1) =~= rest);
}

} // verus!
