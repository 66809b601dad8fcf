//! The command line of the iSCSI target.
use vstd::prelude::*;
use vstd::string::*;

use crate::args::{needed, number, value_at};
use crate::error::{invalid, invalid_input, Error};
use crate::iscsi::header::LANE_PIPELINE;
use crate::text::{join3, join2, parse_size, split, str_eq};
#[allow(unused_imports)]
use crate::error::Fault;

verus! {

/// What a run of the target is asked to do.
#[derive(Debug)]
pub struct Options {
    pub listen: String,
    pub advertise: String,
    pub target: String,
    pub leaf: Option<String>,
    pub arena_socket: Option<String>,
    pub fan_addrs: Option<Vec<String>>,
    pub capacity_bytes: Option<u64>,
    pub fan_window: usize,
    pub zcnblk_device: String,
    pub lane_cpus: Vec<usize>,
    pub rx_cpus: Vec<usize>,
    pub tx_cpus: Vec<usize>,
    pub sessions_per_lane: u32,
}

/// What a command line has said so far.
#[derive(Debug)]
pub struct Draft {
    pub listen: Option<String>,
    pub advertise: Option<String>,
    pub target: Option<String>,
    pub leaf: Option<String>,
    pub arena_socket: Option<String>,
    pub fan_addrs: Option<Vec<String>>,
    pub capacity_bytes: Option<u64>,
    pub fan_window: usize,
    pub zcnblk_device: String,
    pub lane_cpus: Vec<usize>,
    pub rx_cpus: Vec<usize>,
    pub tx_cpus: Vec<usize>,
    pub sessions_per_lane: u32,
}

/// What is meant by a [`Draft`].
pub struct DraftView {
    pub listen: Option<Seq<char>>,
    pub advertise: Option<Seq<char>>,
    pub target: Option<Seq<char>>,
    pub leaf: Option<Seq<char>>,
    pub arena_socket: Option<Seq<char>>,
    pub fan_addrs: Option<Seq<Seq<char>>>,
    pub capacity_bytes: Option<u64>,
    pub fan_window: usize,
    pub zcnblk_device: Seq<char>,
    pub lane_cpus: Seq<usize>,
    pub rx_cpus: Seq<usize>,
    pub tx_cpus: Seq<usize>,
    pub sessions_per_lane: u32,
}

impl View for Draft {
    type V = DraftView;

    open spec fn view(&self) -> DraftView {
        DraftView {
            listen: crate::args::said(self.listen),
            advertise: crate::args::said(self.advertise),
            target: crate::args::said(self.target),
            leaf: crate::args::said(self.leaf),
            arena_socket: crate::args::said(self.arena_socket),
            fan_addrs: match self.fan_addrs {
                Some(v) => Some(crate::text::texts(v@)),
                None => None,
            },
            capacity_bytes: self.capacity_bytes,
            fan_window: self.fan_window,
            zcnblk_device: self.zcnblk_device@,
            lane_cpus: self.lane_cpus@,
            rx_cpus: self.rx_cpus@,
            tx_cpus: self.tx_cpus@,
            sessions_per_lane: self.sessions_per_lane,
        }
    }
}

impl View for Options {
    type V = DraftView;

    open spec fn view(&self) -> DraftView {
        DraftView {
            listen: Some(self.listen@),
            advertise: Some(self.advertise@),
            target: Some(self.target@),
            leaf: crate::args::said(self.leaf),
            arena_socket: crate::args::said(self.arena_socket),
            fan_addrs: match self.fan_addrs {
                Some(v) => Some(crate::text::texts(v@)),
                None => None,
            },
            capacity_bytes: self.capacity_bytes,
            fan_window: self.fan_window,
            zcnblk_device: self.zcnblk_device@,
            lane_cpus: self.lane_cpus@,
            rx_cpus: self.rx_cpus@,
            tx_cpus: self.tx_cpus@,
            sessions_per_lane: self.sessions_per_lane,
        }
    }
}

/// How the target is called.
pub open spec fn usage_text() -> Seq<char> {
    "usage: zciscsi-target --listen HOST:PORT [--advertise HOST:PORT] --target IQN (--leaf-file PATH | --arena-socket PATH --zcnblk-device PATH --lane-cpus CPU,... --rx-cpus CPU,... --tx-cpus CPU,... | --fan-addrs HOST:PORT,... --capacity-bytes N [--fan-window N] --lane-cpus CPU,... --rx-cpus CPU,... --tx-cpus CPU,...)"@
}

/// How the target is called.
pub fn usage() -> (text: &'static str)
    ensures
        text@ == usage_text(),
{
    "usage: zciscsi-target --listen HOST:PORT [--advertise HOST:PORT] --target IQN (--leaf-file PATH | --arena-socket PATH --zcnblk-device PATH --lane-cpus CPU,... --rx-cpus CPU,... --tx-cpus CPU,... | --fan-addrs HOST:PORT,... --capacity-bytes N [--fan-window N] --lane-cpus CPU,... --rx-cpus CPU,... --tx-cpus CPU,...)"
}

/// The numbers of a list of texts, if each is one.
pub open spec fn sizes(parts: Seq<Seq<char>>) -> Option<Seq<usize>>
    decreases parts.len(),
{
    if parts.len() == 0 {
        Some(Seq::empty())
    } else {
        match (
            sizes(parts.drop_last()),
            crate::text::unsigned_value(parts.last(), usize::MAX as nat),
        ) {
            (Some(head), Some(n)) => Some(head.push(n as usize)),
            _ => None,
        }
    }
}

/// A list of processors: numbers with commas between them.
pub open spec fn cpu_list(value: Option<Seq<char>>, option: Seq<char>) -> Result<Seq<usize>, Fault> {
    match value {
        None => Err(crate::error::bad_input("missing "@ + option)),
        Some(text) => match sizes(crate::text::split_text(text, ',')) {
            Some(cpus) => Ok(cpus),
            None => Err(crate::error::bad_input("invalid "@ + option)),
        },
    }
}

proof fn lemma_sizes_fail(parts: Seq<Seq<char>>, k: int)
    requires
        0 <= k <= parts.len(),
        sizes(parts.subrange(0, k)) is None,
    ensures
        sizes(parts) is None,
    decreases parts.len(),
{
    if k == parts.len() {
        assert(parts.subrange(0, k) =~= parts);
    } else {
        assert(parts.drop_last().subrange(0, k) =~= parts.subrange(0, k));
        lemma_sizes_fail(parts.drop_last(), k);
    }
}

/// A list of processors: numbers with commas between them.
pub fn parse_cpu_list(value: Option<String>, option: &str) -> (r: Result<Vec<usize>, Error>)
    ensures
        match r {
            Ok(cpus) => cpu_list(crate::args::said(value), option@) == Ok::<Seq<usize>, Fault>(
                cpus@,
            ),
            Err(e) => cpu_list(crate::args::said(value), option@) == Err::<Seq<usize>, Fault>(e@),
        },
{
    let text: String = match value {
        Some(text) => text,
        None => {
            return Err(invalid_input(join2("missing ", option)));
        },
    };
    let parts: Vec<String> = split(text.as_str(), ',');
    let ghost views = crate::text::texts(parts@);
    let mut cpus: Vec<usize> = Vec::new();
    let mut i: usize = 0;
    proof {
        assert(views.subrange(0, 0) =~= Seq::<Seq<char>>::empty());
        assert(cpus@ =~= Seq::<usize>::empty());
    }
    while i < parts.len()
        invariant
            i <= parts@.len(),
            views == crate::text::texts(parts@),
            views == crate::text::split_text(text@, ','),
            crate::args::said(value) == Some(text@),
            sizes(views.subrange(0, i as int)) == Some(cpus@),
        decreases parts@.len() - i,
    {
        proof {
            let grown = views.subrange(0, i + 1);
            assert(grown.drop_last() =~= views.subrange(0, i as int));
            assert(grown.last() == parts@[i as int]@);
        }
        match parse_size(parts[i].as_str()) {
            Some(n) => cpus.push(n),
            None => {
                proof {
                    lemma_sizes_fail(views, i + 1);
                }
                return Err(invalid_input(join2("invalid ", option)));
            },
        }
        i = i + 1;
    }
    proof {
        assert(views.subrange(0, i as int) =~= views);
    }
    Ok(cpus)
}

/// What a command line says before its first option.
pub open spec fn blank_draft() -> DraftView {
    DraftView {
        listen: None,
        advertise: None,
        target: None,
        leaf: None,
        arena_socket: None,
        fan_addrs: None,
        capacity_bytes: None,
        fan_window: 64,
        zcnblk_device: "/dev/zcnblk0"@,
        lane_cpus: Seq::empty(),
        rx_cpus: Seq::empty(),
        tx_cpus: Seq::empty(),
        sessions_per_lane: 1,
    }
}

/// `d` with one more option and its value.
pub open spec fn with_option(d: DraftView, arg: Seq<char>, value: Option<Seq<char>>) -> Result<
    DraftView,
    Fault,
> {
    if arg == "--listen"@ {
        Ok(DraftView { listen: value, ..d })
    } else if arg == "--advertise"@ {
        Ok(DraftView { advertise: value, ..d })
    } else if arg == "--target"@ {
        Ok(DraftView { target: value, ..d })
    } else if arg == "--leaf-file"@ {
        Ok(DraftView { leaf: value, ..d })
    } else if arg == "--arena-socket"@ {
        Ok(DraftView { arena_socket: value, ..d })
    } else if arg == "--fan-addrs"@ {
        match crate::args::text_due(value, "missing --fan-addrs"@) {
            Ok(text) => Ok(
                DraftView { fan_addrs: Some(crate::text::split_text(text, ',')), ..d },
            ),
            Err(e) => Err(e),
        }
    } else if arg == "--capacity-bytes"@ {
        match crate::args::number_due(
            value,
            u64::MAX as nat,
            "missing --capacity-bytes"@,
            "invalid --capacity-bytes"@,
        ) {
            Ok(n) => Ok(DraftView { capacity_bytes: Some(n as u64), ..d }),
            Err(e) => Err(e),
        }
    } else if arg == "--fan-window"@ {
        match crate::args::number_due(
            value,
            usize::MAX as nat,
            "missing --fan-window"@,
            "invalid --fan-window"@,
        ) {
            Ok(n) => Ok(DraftView { fan_window: n as usize, ..d }),
            Err(e) => Err(e),
        }
    } else if arg == "--zcnblk-device"@ {
        match crate::args::text_due(value, "missing --zcnblk-device"@) {
            Ok(text) => Ok(DraftView { zcnblk_device: text, ..d }),
            Err(e) => Err(e),
        }
    } else if arg == "--lane-cpus"@ {
        match cpu_list(value, "--lane-cpus"@) {
            Ok(cpus) => Ok(DraftView { lane_cpus: cpus, ..d }),
            Err(e) => Err(e),
        }
    } else if arg == "--rx-cpus"@ {
        match cpu_list(value, "--rx-cpus"@) {
            Ok(cpus) => Ok(DraftView { rx_cpus: cpus, ..d }),
            Err(e) => Err(e),
        }
    } else if arg == "--tx-cpus"@ {
        match cpu_list(value, "--tx-cpus"@) {
            Ok(cpus) => Ok(DraftView { tx_cpus: cpus, ..d }),
            Err(e) => Err(e),
        }
    } else if arg == "--sessions-per-lane"@ {
        match crate::args::number_due(
            value,
            u32::MAX as nat,
            "missing --sessions-per-lane"@,
            "invalid --sessions-per-lane"@,
        ) {
            Ok(n) => Ok(DraftView { sessions_per_lane: n as u32, ..d }),
            Err(e) => Err(e),
        }
    } else if arg == "--block-size"@ {
        match crate::args::text_due(value, "missing --block-size"@) {
            Ok(text) => if text == "4096"@ {
                Ok(d)
            } else {
                Err(
                    crate::error::bad_input("zciscsi supports only a rigid 4096-byte geometry"@),
                )
            },
            Err(e) => Err(e),
        }
    } else {
        Err(crate::error::bad_input("unknown argument "@ + arg + "\n"@ + usage_text()))
    }
}

/// What a command line says in all; nothing where it asks how the target is called.
pub open spec fn drafted(rest: Seq<Seq<char>>, d: DraftView) -> Result<Option<DraftView>, Fault>
    decreases rest.len(),
{
    if rest.len() == 0 {
        Ok(Some(d))
    } else if rest[0] == "--help"@ || rest[0] == "-h"@ {
        Ok(None)
    } else {
        match with_option(d, rest[0], crate::args::nth(rest, 1)) {
            Ok(next) => drafted(crate::args::after(rest, 2), next),
            Err(e) => Err(e),
        }
    }
}

/// Whether the lanes have their own processors, as many for each role.
pub open spec fn has_placement(d: DraftView) -> bool {
    d.arena_socket is Some || d.fan_addrs is Some
}

/// What a complete command line asks for.
pub open spec fn finished(d: DraftView) -> Result<DraftView, Fault> {
    let backends = (if d.leaf is Some {
        1int
    } else {
        0
    }) + (if d.arena_socket is Some {
        1int
    } else {
        0
    }) + (if d.fan_addrs is Some {
        1int
    } else {
        0
    });
    if d.listen is None || backends != 1 {
        Err(crate::error::bad_input(usage_text()))
    } else if has_placement(d) && (d.lane_cpus.len() == 0 || d.rx_cpus.len() != d.lane_cpus.len()
        || d.tx_cpus.len() != d.lane_cpus.len()) {
        Err(
            crate::error::bad_input(
                "userspace-stage mode requires equally sized, complete --lane-cpus, --rx-cpus, and --tx-cpus mappings"@,
            ),
        )
    } else if has_placement(d) && !(d.lane_cpus + d.rx_cpus + d.tx_cpus).no_duplicates() {
        Err(crate::error::bad_input("iSCSI lane, RX, and TX CPU roles must not overlap"@))
    } else if d.leaf is Some && (d.lane_cpus.len() > 0 || d.rx_cpus.len() > 0 || d.tx_cpus.len()
        > 0) {
        Err(crate::error::bad_input("terminal file test mode has no userspace placement lanes"@))
    } else if d.fan_addrs is Some != d.capacity_bytes is Some {
        Err(
            crate::error::bad_input("--fan-addrs and --capacity-bytes must be supplied together"@),
        )
    } else if d.target is None {
        Err(crate::error::bad_input(usage_text()))
    } else {
        Ok(
            DraftView {
                advertise: match d.advertise {
                    Some(a) => Some(a),
                    None => d.listen,
                },
                ..d
            },
        )
    }
}

impl Draft {
    fn new() -> (d: Draft)
        ensures
            d@ == blank_draft(),
    {
        let d: Draft = Draft {
            listen: None,
            advertise: None,
            target: None,
            leaf: None,
            arena_socket: None,
            fan_addrs: None,
            capacity_bytes: None,
            fan_window: LANE_PIPELINE,
            zcnblk_device: String::from_str("/dev/zcnblk0"),
            lane_cpus: Vec::new(),
            rx_cpus: Vec::new(),
            tx_cpus: Vec::new(),
            sessions_per_lane: 1,
        };
        proof {
            assert(d@.lane_cpus =~= Seq::<usize>::empty());
            assert(d@.rx_cpus =~= Seq::<usize>::empty());
            assert(d@.tx_cpus =~= Seq::<usize>::empty());
        }
        d
    }

    fn with(self, arg: &str, value: Option<String>) -> (r: Result<Draft, Error>)
        ensures
            match r {
                Ok(d) => with_option(self@, arg@, crate::args::said(value)) == Ok::<
                    DraftView,
                    Fault,
                >(d@),
                Err(e) => with_option(self@, arg@, crate::args::said(value)) == Err::<
                    DraftView,
                    Fault,
                >(e@),
            },
    {
        let mut d: Draft = self;
        if str_eq(arg, "--listen") {
            d.listen = value;
        } else if str_eq(arg, "--advertise") {
            d.advertise = value;
        } else if str_eq(arg, "--target") {
            d.target = value;
        } else if str_eq(arg, "--leaf-file") {
            d.leaf = value;
        } else if str_eq(arg, "--arena-socket") {
            d.arena_socket = value;
        } else if str_eq(arg, "--fan-addrs") {
            match needed(value, "missing --fan-addrs") {
                Ok(text) => {
                    d.fan_addrs = Some(split(text.as_str(), ','));
                },
                Err(e) => {
                    return Err(e);
                },
            }
        } else if str_eq(arg, "--capacity-bytes") {
            match number(
                &value,
                u64::MAX,
                "missing --capacity-bytes",
                "invalid --capacity-bytes",
            ) {
                Ok(n) => {
                    d.capacity_bytes = Some(n);
                },
                Err(e) => {
                    return Err(e);
                },
            }
        } else if str_eq(arg, "--fan-window") {
            match number(
                &value,
                usize::MAX as u64,
                "missing --fan-window",
                "invalid --fan-window",
            ) {
                Ok(n) => {
                    d.fan_window = n as usize;
                },
                Err(e) => {
                    return Err(e);
                },
            }
        } else if str_eq(arg, "--zcnblk-device") {
            match needed(value, "missing --zcnblk-device") {
                Ok(text) => {
                    d.zcnblk_device = text;
                },
                Err(e) => {
                    return Err(e);
                },
            }
        } else if str_eq(arg, "--lane-cpus") {
            match parse_cpu_list(value, "--lane-cpus") {
                Ok(cpus) => {
                    d.lane_cpus = cpus;
                },
                Err(e) => {
                    return Err(e);
                },
            }
        } else if str_eq(arg, "--rx-cpus") {
            match parse_cpu_list(value, "--rx-cpus") {
                Ok(cpus) => {
                    d.rx_cpus = cpus;
                },
                Err(e) => {
                    return Err(e);
                },
            }
        } else if str_eq(arg, "--tx-cpus") {
            match parse_cpu_list(value, "--tx-cpus") {
                Ok(cpus) => {
                    d.tx_cpus = cpus;
                },
                Err(e) => {
                    return Err(e);
                },
            }
        } else if str_eq(arg, "--sessions-per-lane") {
            match number(
                &value,
                u32::MAX as u64,
                "missing --sessions-per-lane",
                "invalid --sessions-per-lane",
            ) {
                Ok(n) => {
                    d.sessions_per_lane = n as u32;
                },
                Err(e) => {
                    return Err(e);
                },
            }
        } else if str_eq(arg, "--block-size") {
            match needed(value, "missing --block-size") {
                Ok(text) => {
                    if !str_eq(text.as_str(), "4096") {
                        return Err(
                            invalid("zciscsi supports only a rigid 4096-byte geometry"),
                        );
                    }
                },
                Err(e) => {
                    return Err(e);
                },
            }
        } else {
            let head: String = join3("unknown argument ", arg, "\n");
            return Err(invalid_input(join2(head.as_str(), usage())));
        }
        Ok(d)
    }

    fn finish(self) -> (r: Result<Options, Error>)
        ensures
            match r {
                Ok(o) => finished(self@) == Ok::<DraftView, Fault>(o@),
                Err(e) => finished(self@) == Err::<DraftView, Fault>(e@),
            },
    {
        let listen: String = match &self.listen {
            Some(listen) => listen.clone(),
            None => {
                return Err(invalid(usage()));
            },
        };
        let mut backends: u32 = 0;
        if self.leaf.is_some() {
            backends = backends + 1;
        }
        if self.arena_socket.is_some() {
            backends = backends + 1;
        }
        if self.fan_addrs.is_some() {
            backends = backends + 1;
        }
        if backends != 1 {
            return Err(invalid(usage()));
        }
        let placed: bool = self.arena_socket.is_some() || self.fan_addrs.is_some();
        if placed {
            if self.lane_cpus.len() == 0 || self.rx_cpus.len() != self.lane_cpus.len()
                || self.tx_cpus.len() != self.lane_cpus.len() {
                return Err(
                    invalid(
                        "userspace-stage mode requires equally sized, complete --lane-cpus, --rx-cpus, and --tx-cpus mappings",
                    ),
                );
            }
            let mut all: Vec<usize> = Vec::new();
            extend_sizes(&mut all, &self.lane_cpus);
            extend_sizes(&mut all, &self.rx_cpus);
            extend_sizes(&mut all, &self.tx_cpus);
            proof {
                assert(all@ =~= self@.lane_cpus + self@.rx_cpus + self@.tx_cpus);
            }
            if !all_distinct(&all) {
                return Err(invalid("iSCSI lane, RX, and TX CPU roles must not overlap"));
            }
        }
        if self.leaf.is_some() && (self.lane_cpus.len() > 0 || self.rx_cpus.len() > 0
            || self.tx_cpus.len() > 0) {
            return Err(invalid("terminal file test mode has no userspace placement lanes"));
        }
        if self.fan_addrs.is_some() != self.capacity_bytes.is_some() {
            return Err(invalid("--fan-addrs and --capacity-bytes must be supplied together"));
        }
        let target: String = match self.target {
            Some(target) => target,
            None => {
                return Err(invalid(usage()));
            },
        };
        let advertise: String = match self.advertise {
            Some(advertise) => advertise,
            None => listen.clone(),
        };
        Ok(
            Options {
                listen,
                advertise,
                target,
                leaf: self.leaf,
                arena_socket: self.arena_socket,
                fan_addrs: self.fan_addrs,
                capacity_bytes: self.capacity_bytes,
                fan_window: self.fan_window,
                zcnblk_device: self.zcnblk_device,
                lane_cpus: self.lane_cpus,
                rx_cpus: self.rx_cpus,
                tx_cpus: self.tx_cpus,
                sessions_per_lane: self.sessions_per_lane,
            },
        )
    }
}

fn extend_sizes(all: &mut Vec<usize>, more: &Vec<usize>)
    ensures
        final(all)@ == old(all)@ + more@,
{
    let ghost before = all@;
    let mut i: usize = 0;
    proof {
        assert(all@ =~= before + more@.subrange(0, 0));
    }
    while i < more.len()
        invariant
            i <= more@.len(),
            all@ == before + more@.subrange(0, i as int),
        decreases more@.len() - i,
    {
        all.push(more[i]);
        proof {
            assert(all@ =~= before + more@.subrange(0, i + 1));
        }
        i = i + 1;
    }
    proof {
        assert(more@.subrange(0, i as int) =~= more@);
    }
}

/// Whether no number of a list occurs twice.
pub fn all_distinct(list: &Vec<usize>) -> (yes: bool)
    ensures
        yes == list@.no_duplicates(),
{
    let mut i: usize = 0;
    while i < list.len()
        invariant
            i <= list@.len(),
            forall|a: int, b: int|
                0 <= a < i && 0 <= b < list@.len() && a != b ==> list@[a] != list@[b],
        decreases list@.len() - i,
    {
        let mut k: usize = 0;
        while k < list.len()
            invariant
                i < list@.len(),
                k <= list@.len(),
                forall|b: int| 0 <= b < k && b != i ==> list@[i as int] != list@[b],
            decreases list@.len() - k,
        {
            if k != i && list[k] == list[i] {
                return false;
            }
            k = k + 1;
        }
        i = i + 1;
    }
    true
}

/// Reads a command line; nothing comes back where it asks how the target is called.
pub fn parse_options(args: &Vec<String>) -> (r: Result<Option<Options>, Error>)
    ensures
        ({
            let all = drafted(crate::text::texts(args@), blank_draft());
            match r {
                Ok(Some(o)) => all is Ok && all->Ok_0 is Some && finished(all->Ok_0->0) == Ok::<
                    DraftView,
                    Fault,
                >(o@),
                Ok(None) => all == Ok::<Option<DraftView>, Fault>(None),
                Err(e) => match all {
                    Ok(Some(d)) => finished(d) == Err::<DraftView, Fault>(e@),
                    Ok(None) => false,
                    Err(f) => f == e@,
                },
            }
        }),
{
    let mut draft: Draft = Draft::new();
    let ghost views = crate::text::texts(args@);
    let ghost goal = drafted(views, blank_draft());
    let count: usize = args.len();
    let mut i: usize = 0;
    proof {
        assert(views.skip(0) =~= views);
    }
    while i < count
        invariant
            i <= count,
            count == args@.len(),
            views == crate::text::texts(args@),
            goal == drafted(views, blank_draft()),
            goal == drafted(views.skip(i as int), draft@),
        decreases count - i,
    {
        let ghost rest = views.skip(i as int);
        let arg: &str = args[i].as_str();
        proof {
            assert(rest[0] == arg@);
            assert(crate::args::nth(rest, 1) == crate::args::nth(views, i + 1));
        }
        if str_eq(arg, "--help") || str_eq(arg, "-h") {
            return Ok(None);
        }
        let value: Option<String> = value_at(args.as_slice(), i + 1);
        let next: usize = if count - i >= 2 {
            i + 2
        } else {
            count
        };
        proof {
            assert(crate::args::after(rest, 2) =~= views.skip(next as int));
        }
        draft = match draft.with(arg, value) {
            Ok(d) => d,
            Err(e) => {
                return Err(e);
            },
        };
        i = next;
    }
    proof {
        assert(views.skip(i as int).len() == 0);
    }
    match draft.finish() {
        Ok(o) => Ok(Some(o)),
        Err(e) => Err(e),
    }
}

/// Options come only from a command line that names exactly one backend, and every lane of a fan or
/// an arena has processors of its own for each of its roles.
pub proof fn law_roles_have_their_own_processors(d: DraftView)
    requires
        finished(d) is Ok,
        d.leaf is None,
    ensures
        d.arena_socket is Some != d.fan_addrs is Some,
        d.lane_cpus.len() > 0,
        d.rx_cpus.len() == d.lane_cpus.len(),
        d.tx_cpus.len() == d.lane_cpus.len(),
        (d.lane_cpus + d.rx_cpus + d.tx_cpus).no_duplicates(),
{
}

/// Each option sets the field that it is named after, to the text that follows it or to what the text
/// writes down, and leaves every other field as it was.
pub proof fn law_each_option_sets_its_own_field(d: DraftView, text: Seq<char>)
    ensures
        with_option(d, "--listen"@, Some(text)) == Ok::<DraftView, Fault>(
            (DraftView { listen: Some(text), ..d }),
        ),
        with_option(d, "--advertise"@, Some(text)) == Ok::<DraftView, Fault>(
            (DraftView { advertise: Some(text), ..d }),
        ),
        with_option(d, "--target"@, Some(text)) == Ok::<DraftView, Fault>(
            (DraftView { target: Some(text), ..d }),
        ),
        with_option(d, "--leaf-file"@, Some(text)) == Ok::<DraftView, Fault>(
            (DraftView { leaf: Some(text), ..d }),
        ),
        with_option(d, "--arena-socket"@, Some(text)) == Ok::<DraftView, Fault>(
            (DraftView { arena_socket: Some(text), ..d }),
        ),
        with_option(d, "--fan-addrs"@, Some(text)) matches Ok(a) ==> a == (DraftView { fan_addrs: a.fan_addrs, ..d }) && a.fan_addrs == Some(crate::text::split_text(text, ',')),
        with_option(d, "--capacity-bytes"@, Some(text)) matches Ok(a) ==> a == (DraftView { capacity_bytes: a.capacity_bytes, ..d }) && a.capacity_bytes is Some && crate::text::unsigned_value(text, u64::MAX as nat) == Some(
            a.capacity_bytes->0 as nat,
        ),
        with_option(d, "--fan-window"@, Some(text)) matches Ok(a) ==> a == (DraftView { fan_window: a.fan_window, ..d }) && crate::text::unsigned_value(text, usize::MAX as nat) == Some(
            a.fan_window as nat,
        ),
        with_option(d, "--zcnblk-device"@, Some(text)) == Ok::<DraftView, Fault>(
            (DraftView { zcnblk_device: text, ..d }),
        ),
        with_option(d, "--lane-cpus"@, Some(text)) matches Ok(a) ==> a == (DraftView { lane_cpus: a.lane_cpus, ..d }) && sizes(crate::text::split_text(text, ',')) == Some(a.lane_cpus),
        with_option(d, "--rx-cpus"@, Some(text)) matches Ok(a) ==> a == (DraftView { rx_cpus: a.rx_cpus, ..d }) && sizes(crate::text::split_text(text, ',')) == Some(a.rx_cpus),
        with_option(d, "--tx-cpus"@, Some(text)) matches Ok(a) ==> a == (DraftView { tx_cpus: a.tx_cpus, ..d }) && sizes(crate::text::split_text(text, ',')) == Some(a.tx_cpus),
        with_option(d, "--sessions-per-lane"@, Some(text)) matches Ok(a) ==> a == (DraftView { sessions_per_lane: a.sessions_per_lane, ..d }) && crate::text::unsigned_value(text, u32::MAX as nat) == Some(
            a.sessions_per_lane as nat,
        ),
{
    reveal_strlit("--listen");
    assert("--listen"@.len() == 8);
    reveal_strlit("--advertise");
    assert("--advertise"@.len() == 11);
    reveal_strlit("--target");
    assert("--target"@.len() == 8);
    reveal_strlit("--leaf-file");
    assert("--leaf-file"@.len() == 11);
    reveal_strlit("--arena-socket");
    assert("--arena-socket"@.len() == 14);
    reveal_strlit("--fan-addrs");
    assert("--fan-addrs"@.len() == 11);
    reveal_strlit("--capacity-bytes");
    assert("--capacity-bytes"@.len() == 16);
    reveal_strlit("--fan-window");
    assert("--fan-window"@.len() == 12);
    reveal_strlit("--zcnblk-device");
    assert("--zcnblk-device"@.len() == 15);
    reveal_strlit("--lane-cpus");
    assert("--lane-cpus"@.len() == 11);
    reveal_strlit("--rx-cpus");
    assert("--rx-cpus"@.len() == 9);
    reveal_strlit("--tx-cpus");
    assert("--tx-cpus"@.len() == 9);
    reveal_strlit("--sessions-per-lane");
    assert("--sessions-per-lane"@.len() == 19);
    assert("--target"@[2] != "--listen"@[2]);
    assert("--leaf-file"@[2] != "--advertise"@[2]);
    assert("--fan-addrs"@[2] != "--advertise"@[2]);
    assert("--fan-addrs"@[2] != "--leaf-file"@[2]);
    assert("--lane-cpus"@[2] != "--advertise"@[2]);
    assert("--lane-cpus"@[3] != "--leaf-file"@[3]);
    assert("--lane-cpus"@[2] != "--fan-addrs"@[2]);
    assert("--tx-cpus"@[2] != "--rx-cpus"@[2]);
}

/// A list of sizes is read part by part, in order, and only where every part is a number.
pub proof fn law_sizes_are_read_in_order(parts: Seq<Seq<char>>, i: int)
    requires
        0 <= i < parts.len(),
    ensures
        sizes(parts) matches Some(list) ==> list.len() == parts.len()
            && crate::text::unsigned_value(parts[i], usize::MAX as nat) == Some(list[i] as nat),
        crate::text::unsigned_value(parts[i], usize::MAX as nat) is None ==> sizes(parts) is None,
    decreases parts.len(),
{
    let head = parts.drop_last();
    if i < head.len() {
        law_sizes_are_read_in_order(head, i);
        assert(head[i] == parts[i]);
    } else if head.len() > 0 {
        law_sizes_are_read_in_order(head, 0);
    }
}

/// A target listens somewhere, has a name and exactly one backend, and is advertised where it listens unless
/// told otherwise; the size of a volume is given exactly with the addresses of a fan.
pub proof fn law_targets_are_complete(d: DraftView)
    requires
        finished(d) is Ok,
    ensures
        ({
            let o = finished(d)->Ok_0;
            &&& o.listen is Some && o.target is Some
            &&& o.listen == d.listen && o.target == d.target
            &&& d.advertise is Some ==> o.advertise == d.advertise
            &&& d.advertise is None ==> o.advertise == d.listen
            &&& d.leaf is Some ==> d.arena_socket is None && d.fan_addrs is None
            &&& d.arena_socket is Some ==> d.leaf is None && d.fan_addrs is None
            &&& d.leaf is Some || d.arena_socket is Some || d.fan_addrs is Some
            &&& d.fan_addrs is Some == d.capacity_bytes is Some
            &&& o == (DraftView { advertise: o.advertise, ..d })
        }),
{
}

/// Options are taken one after the other, each with the value that follows it; the first one that cannot
/// be taken decides.
pub proof fn law_options_are_taken_in_order(
    arg: Seq<char>,
    text: Seq<char>,
    rest: Seq<Seq<char>>,
    d: DraftView,
)
    requires
        arg != "-h"@,
        arg != "--help"@,
    ensures
        with_option(d, arg, Some(text)) is Ok ==> drafted(seq![arg, text] + rest, d) == drafted(
            rest,
            with_option(d, arg, Some(text))->Ok_0,
        ),
        with_option(d, arg, Some(text)) is Err ==> drafted(seq![arg, text] + rest, d) is Err,
        drafted(Seq::empty(), d) == Ok::<Option<DraftView>, Fault>(Some(d)),
{
    let two = seq![arg, text] + rest;
    assert(two[0] == arg && two[1] == text);
    assert(two.skip(2) =~= rest);
}

} // verus!
