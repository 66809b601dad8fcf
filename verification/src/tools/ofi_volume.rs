//! The options of a volume that is served over a fabric.
use vstd::prelude::*;
use vstd::string::*;

use crate::args::{needed, value_at};
use crate::error::{invalid, invalid_input, Error};
use crate::text::{join2, join4, parse_size, parse_unsigned, split, str_eq};
#[allow(unused_imports)]
use crate::error::Fault;

verus! {

/// How the program is called.
pub open spec fn usage_text() -> Seq<char> {
    "usage: zcvhost-ofi-volume --bind ADDRESS --base-service PORT --lanes N --capacity-bytes N [--provider NAME] [--endpoint rdm] [--domain NAME] [--lane-cpus CSV] [--require-hugetlb]"@
}

/// How the program is called.
pub fn usage() -> (text: &'static str)
    ensures
        text@ == usage_text(),
{
    "usage: zcvhost-ofi-volume --bind ADDRESS --base-service PORT --lanes N --capacity-bytes N [--provider NAME] [--endpoint rdm] [--domain NAME] [--lane-cpus CSV] [--require-hugetlb]"
}

/// The size that the value of an option gives.
pub open spec fn size_of(text: Seq<char>, name: Seq<char>) -> Result<usize, Fault> {
    match crate::text::unsigned_value(text, usize::MAX as nat) {
        Some(n) => Ok(n as usize),
        None => Err(crate::error::bad_input("invalid "@ + name)),
    }
}

/// The size that the value of an option gives.
pub fn parse_usize(value: &str, name: &str) -> (r: Result<usize, Error>)
    ensures
        crate::error::agrees(r, size_of(value@, name@)),
{
    match parse_size(value) {
        Some(n) => Ok(n),
        None => Err(invalid_input(join2("invalid ", name))),
    }
}

/// The capacity that a text gives.
pub open spec fn capacity_of(text: Seq<char>) -> Result<u64, Fault> {
    match crate::text::unsigned_value(text, u64::MAX as nat) {
        Some(n) => Ok(n as u64),
        None => Err(crate::error::bad_input("invalid --capacity-bytes"@)),
    }
}

fn parse_capacity(value: &str) -> (r: Result<u64, Error>)
    ensures
        crate::error::agrees(r, capacity_of(value@)),
{
    match parse_unsigned(value, u64::MAX) {
        Some(n) => Ok(n),
        None => Err(invalid("invalid --capacity-bytes")),
    }
}

/// The sizes that some texts give, in turn.
pub open spec fn sizes_of(parts: Seq<Seq<char>>) -> Option<Seq<usize>>
    decreases parts.len(),
{
    if parts.len() == 0 {
        Some(Seq::empty())
    } else {
        match sizes_of(parts.drop_last()) {
            None => None,
            Some(list) => match crate::text::unsigned_value(parts.last(), usize::MAX as nat) {
                None => None,
                Some(n) => Some(list.push(n as usize)),
            },
        }
    }
}

proof fn lemma_sizes_fail(parts: Seq<Seq<char>>, n: int)
    requires
        0 <= n <= parts.len(),
        sizes_of(parts.subrange(0, n)) is None,
    ensures
        sizes_of(parts) is None,
    decreases parts.len() - n,
{
    if n == parts.len() {
        assert(parts.subrange(0, n) =~= parts);
    } else {
        let next = parts.subrange(0, n + 1);
        assert(next.drop_last() =~= parts.subrange(0, n));
        lemma_sizes_fail(parts, n + 1);
    }
}

/// The processors that a text lists, separated by commas.
pub open spec fn lane_cpus_of(text: Seq<char>) -> Result<Seq<usize>, Fault> {
    match sizes_of(crate::text::split_text(text, ',')) {
        Some(list) => Ok(list),
        None => Err(crate::error::bad_input("invalid --lane-cpus"@)),
    }
}

fn parse_lane_cpus(value: &str) -> (r: Result<Vec<usize>, Error>)
    ensures
        match r {
            Ok(v) => lane_cpus_of(value@) == Ok::<Seq<usize>, Fault>(v@),
            Err(e) => lane_cpus_of(value@) == Err::<Seq<usize>, Fault>(e@),
        },
{
    let parts: Vec<String> = split(value, ',');
    let mut list: Vec<usize> = Vec::new();
    let count: usize = parts.len();
    let ghost views = crate::text::texts(parts@);
    let mut i: usize = 0;
    proof {
        assert(views.subrange(0, 0) =~= Seq::<Seq<char>>::empty());
        assert(list@ =~= Seq::<usize>::empty());
    }
    while i < count
        invariant
            i <= count,
            count == parts@.len(),
            views == crate::text::texts(parts@),
            views == crate::text::split_text(value@, ','),
            sizes_of(views.subrange(0, i as int)) == Some(list@),
        decreases count - i,
    {
        proof {
            let next = views.subrange(0, i + 1);
            assert(next.drop_last() =~= views.subrange(0, i as int));
            assert(next.last() == parts@[i as int]@);
        }
        match parse_size(parts[i].as_str()) {
            Some(n) => {
                list.push(n);
            },
            None => {
                proof {
                    lemma_sizes_fail(views, i + 1);
                }
                return Err(invalid("invalid --lane-cpus"));
            },
        }
        i = i + 1;
    }
    proof {
        assert(views.subrange(0, i as int) =~= views);
    }
    Ok(list)
}

/// What a command line has said so far.
#[derive(Debug)]
pub struct Draft {
    pub provider: String,
    pub endpoint: String,
    pub bind: Option<String>,
    pub domain: Option<String>,
    pub base_service: Option<usize>,
    pub lanes: Option<usize>,
    pub capacity_bytes: Option<u64>,
    pub lane_cpus: Vec<usize>,
    pub require_hugetlb: bool,
}

/// What is meant by [`Draft`].
pub struct DraftView {
    pub provider: Seq<char>,
    pub endpoint: Seq<char>,
    pub bind: Option<Seq<char>>,
    pub domain: Option<Seq<char>>,
    pub base_service: Option<usize>,
    pub lanes: Option<usize>,
    pub capacity_bytes: Option<u64>,
    pub lane_cpus: Seq<usize>,
    pub require_hugetlb: bool,
}

impl View for Draft {
    type V = DraftView;

    open spec fn view(&self) -> DraftView {
        DraftView {
            provider: self.provider@,
            endpoint: self.endpoint@,
            bind: crate::args::said(self.bind),
            domain: crate::args::said(self.domain),
            base_service: self.base_service,
            lanes: self.lanes,
            capacity_bytes: self.capacity_bytes,
            lane_cpus: self.lane_cpus@,
            require_hugetlb: self.require_hugetlb,
        }
    }
}

/// Nothing said: sockets and reliable datagrams.
pub open spec fn blank_draft() -> DraftView {
    DraftView {
        provider: "sockets"@,
        endpoint: "rdm"@,
        bind: None,
        domain: None,
        base_service: None,
        lanes: None,
        capacity_bytes: None,
        lane_cpus: Seq::empty(),
        require_hugetlb: false,
    }
}

/// `d` with one more option and its value.
pub open spec fn with_option(d: DraftView, arg: Seq<char>, value: Option<Seq<char>>) -> Result<
    DraftView,
    Fault,
> {
    if arg == "--bind"@ {
        match crate::args::text_due(value, "missing --bind"@) {
            Ok(text) => Ok(DraftView { bind: Some(text), ..d }),
            Err(e) => Err(e),
        }
    } else if arg == "--base-service"@ {
        match crate::args::text_due(value, "missing --base-service"@) {
            Ok(text) => match size_of(text, "--base-service"@) {
                Ok(x) => Ok(DraftView { base_service: Some(x), ..d }),
                Err(e) => Err(e),
            },
            Err(e) => Err(e),
        }
    } else if arg == "--lanes"@ {
        match crate::args::text_due(value, "missing --lanes"@) {
            Ok(text) => match size_of(text, "--lanes"@) {
                Ok(x) => Ok(DraftView { lanes: Some(x), ..d }),
                Err(e) => Err(e),
            },
            Err(e) => Err(e),
        }
    } else if arg == "--capacity-bytes"@ {
        match crate::args::text_due(value, "missing --capacity-bytes"@) {
            Ok(text) => match capacity_of(text) {
                Ok(x) => Ok(DraftView { capacity_bytes: Some(x), ..d }),
                Err(e) => Err(e),
            },
            Err(e) => Err(e),
        }
    } else if arg == "--provider"@ {
        match crate::args::text_due(value, "missing --provider"@) {
            Ok(text) => Ok(DraftView { provider: text, ..d }),
            Err(e) => Err(e),
        }
    } else if arg == "--endpoint"@ {
        match crate::args::text_due(value, "missing --endpoint"@) {
            Ok(text) => Ok(DraftView { endpoint: text, ..d }),
            Err(e) => Err(e),
        }
    } else if arg == "--domain"@ {
        match crate::args::text_due(value, "missing --domain"@) {
            Ok(text) => Ok(DraftView { domain: Some(text), ..d }),
            Err(e) => Err(e),
        }
    } else if arg == "--lane-cpus"@ {
        match crate::args::text_due(value, "missing --lane-cpus"@) {
            Ok(text) => match lane_cpus_of(text) {
                Ok(x) => Ok(DraftView { lane_cpus: x, ..d }),
                Err(e) => Err(e),
            },
            Err(e) => Err(e),
        }
    } else if arg == "--require-hugetlb"@ {
        Ok(DraftView { require_hugetlb: true, ..d })
    } else {
        Err(crate::error::bad_input("unknown option "@ + arg + "\n"@ + usage_text()))
    }
}

/// Whether an option stands alone.
pub open spec fn is_switch(arg: Seq<char>) -> bool {
    arg == "--require-hugetlb"@
}

/// What a command line says in all; nothing where it asks how the program is called.
pub open spec fn drafted(rest: Seq<Seq<char>>, d: DraftView) -> Result<Option<DraftView>, Fault>
    decreases rest.len(),
{
    if rest.len() == 0 {
        Ok(Some(d))
    } else if rest[0] == "--help"@ || rest[0] == "-h"@ {
        Ok(None)
    } else {
        match with_option(d, rest[0], crate::args::nth(rest, 1)) {
            Ok(next) => drafted(
                crate::args::after(
                    rest,
                    if is_switch(rest[0]) {
                        1
                    } else {
                        2
                    },
                ),
                next,
            ),
            Err(e) => Err(e),
        }
    }
}

impl Draft {
    fn new() -> (d: Draft)
        ensures
            d@ == blank_draft(),
    {
        let d: Draft = Draft {
            provider: String::from_str("sockets"),
            endpoint: String::from_str("rdm"),
            bind: None,
            domain: None,
            base_service: None,
            lanes: None,
            capacity_bytes: None,
            lane_cpus: Vec::new(),
            require_hugetlb: false,
        };
        proof {
            assert(d.lane_cpus@ =~= Seq::<usize>::empty());
        }
        d
    }

    #[verifier::rlimit(60)]
    fn with(self, arg: &str, value: Option<String>) -> (r: Result<Draft, Error>)
        ensures
            match r {
                Ok(d) => with_option(self@, arg@, crate::args::said(value)) == Ok::<
                    DraftView,
                    Fault,
                >(d@),
                Err(e) => with_option(self@, arg@, crate::args::said(value)) == Err::<
                    DraftView,
                    Fault,
                >(e@),
            },
    {
        let mut d: Draft = self;
        if str_eq(arg, "--bind") {
            let text: String = match needed(value, "missing --bind") {
                Ok(text) => text,
                Err(e) => {
                    return Err(e);
                },
            };
            d.bind = Some(text);
        } else if str_eq(arg, "--base-service") {
            let text: String = match needed(value, "missing --base-service") {
                Ok(text) => text,
                Err(e) => {
                    return Err(e);
                },
            };
            match parse_usize(text.as_str(), "--base-service") {
                Ok(x) => {
                    d.base_service = Some(x);
                },
                Err(e) => {
                    return Err(e);
                },
            }
        } else if str_eq(arg, "--lanes") {
            let text: String = match needed(value, "missing --lanes") {
                Ok(text) => text,
                Err(e) => {
                    return Err(e);
                },
            };
            match parse_usize(text.as_str(), "--lanes") {
                Ok(x) => {
                    d.lanes = Some(x);
                },
                Err(e) => {
                    return Err(e);
                },
            }
        } else if str_eq(arg, "--capacity-bytes") {
            let text: String = match needed(value, "missing --capacity-bytes") {
                Ok(text) => text,
                Err(e) => {
                    return Err(e);
                },
            };
            match parse_capacity(text.as_str()) {
                Ok(x) => {
                    d.capacity_bytes = Some(x);
                },
                Err(e) => {
                    return Err(e);
                },
            }
        } else if str_eq(arg, "--provider") {
            let text: String = match needed(value, "missing --provider") {
                Ok(text) => text,
                Err(e) => {
                    return Err(e);
                },
            };
            d.provider = text;
        } else if str_eq(arg, "--endpoint") {
            let text: String = match needed(value, "missing --endpoint") {
                Ok(text) => text,
                Err(e) => {
                    return Err(e);
                },
            };
            d.endpoint = text;
        } else if str_eq(arg, "--domain") {
            let text: String = match needed(value, "missing --domain") {
                Ok(text) => text,
                Err(e) => {
                    return Err(e);
                },
            };
            d.domain = Some(text);
        } else if str_eq(arg, "--lane-cpus") {
            let text: String = match needed(value, "missing --lane-cpus") {
                Ok(text) => text,
                Err(e) => {
                    return Err(e);
                },
            };
            match parse_lane_cpus(text.as_str()) {
                Ok(x) => {
                    d.lane_cpus = x;
                },
                Err(e) => {
                    return Err(e);
                },
            }
        } else if str_eq(arg, "--require-hugetlb") {
            d.require_hugetlb = true;
        } else {
            return Err(invalid_input(join4("unknown option ", arg, "\n", usage())));
        }
        Ok(d)
    }
}

/// A volume that is to be served.
#[derive(Debug)]
pub struct Target {
    pub provider: String,
    pub endpoint: String,
    pub bind: String,
    pub domain: Option<String>,
    pub base_service: u16,
    pub lanes: usize,
    pub capacity_bytes: u64,
    pub lane_cpus: Vec<usize>,
    pub require_hugetlb: bool,
}

/// What is meant by [`Target`].
pub struct TargetView {
    pub provider: Seq<char>,
    pub endpoint: Seq<char>,
    pub bind: Seq<char>,
    pub domain: Option<Seq<char>>,
    pub base_service: u16,
    pub lanes: usize,
    pub capacity_bytes: u64,
    pub lane_cpus: Seq<usize>,
    pub require_hugetlb: bool,
}

impl View for Target {
    type V = TargetView;

    open spec fn view(&self) -> TargetView {
        TargetView {
            provider: self.provider@,
            endpoint: self.endpoint@,
            bind: self.bind@,
            domain: crate::args::said(self.domain),
            base_service: self.base_service,
            lanes: self.lanes,
            capacity_bytes: self.capacity_bytes,
            lane_cpus: self.lane_cpus@,
            require_hugetlb: self.require_hugetlb,
        }
    }
}

/// The volume that some options describe, where they are complete.
pub open spec fn target_due(d: DraftView) -> Result<TargetView, Fault> {
    if d.bind is None || d.base_service is None {
        Err(crate::error::bad_input(usage_text()))
    } else if d.base_service->0 > u16::MAX {
        Err(crate::error::bad_input("--base-service exceeds u16"@))
    } else if d.lanes is None || d.capacity_bytes is None {
        Err(crate::error::bad_input(usage_text()))
    } else {
        Ok(
            TargetView {
                provider: d.provider,
                endpoint: d.endpoint,
                bind: d.bind->0,
                domain: d.domain,
                base_service: d.base_service->0 as u16,
                lanes: d.lanes->0,
                capacity_bytes: d.capacity_bytes->0,
                lane_cpus: d.lane_cpus,
                require_hugetlb: d.require_hugetlb,
            },
        )
    }
}

fn finish(d: Draft) -> (r: Result<Target, Error>)
    ensures
        match r {
            Ok(t) => target_due(d@) == Ok::<TargetView, Fault>(t@),
            Err(e) => target_due(d@) == Err::<TargetView, Fault>(e@),
        },
{
    let bind: String = match d.bind {
        Some(bind) => bind,
        None => {
            return Err(invalid(usage()));
        },
    };
    let service: usize = match d.base_service {
        Some(service) => service,
        None => {
            return Err(invalid(usage()));
        },
    };
    if service > u16::MAX as usize {
        return Err(invalid("--base-service exceeds u16"));
    }
    let lanes: usize = match d.lanes {
        Some(lanes) => lanes,
        None => {
            return Err(invalid(usage()));
        },
    };
    let capacity_bytes: u64 = match d.capacity_bytes {
        Some(bytes) => bytes,
        None => {
            return Err(invalid(usage()));
        },
    };
    Ok(
        Target {
            provider: d.provider,
            endpoint: d.endpoint,
            bind,
            domain: d.domain,
            base_service: service as u16,
            lanes,
            capacity_bytes,
            lane_cpus: d.lane_cpus,
            require_hugetlb: d.require_hugetlb,
        },
    )
}

/// The volume that a command line describes; nothing where it asks how the program is called.
pub fn parse_target(args: &Vec<String>) -> (r: Result<Option<Target>, Error>)
    ensures
        ({
            let all = drafted(crate::text::texts(args@), blank_draft());
            match r {
                Ok(None) => all == Ok::<Option<DraftView>, Fault>(None),
                Ok(Some(t)) => all is Ok && all->Ok_0 is Some && target_due(all->Ok_0->0) == Ok::<
                    TargetView,
                    Fault,
                >(t@),
                Err(e) => match all {
                    Ok(Some(d)) => target_due(d) == Err::<TargetView, Fault>(e@),
                    Ok(None) => false,
                    Err(f) => f == e@,
                },
            }
        }),
{
    let mut draft: Draft = Draft::new();
    let ghost views = crate::text::texts(args@);
    let ghost first = draft@;
    let ghost goal = drafted(views, first);
    let count: usize = args.len();
    let mut i: usize = 0;
    proof {
        assert(views.skip(0) =~= views);
    }
    while i < count
        invariant
            i <= count,
            count == args@.len(),
            views == crate::text::texts(args@),
            goal == drafted(views, first),
            first == blank_draft(),
            goal == drafted(views.skip(i as int), draft@),
        decreases count - i,
    {
        let ghost rest = views.skip(i as int);
        let arg: &str = args[i].as_str();
        proof {
            assert(rest[0] == arg@);
            assert(crate::args::nth(rest, 1) == crate::args::nth(views, i + 1));
        }
        if str_eq(arg, "--help") || str_eq(arg, "-h") {
            return Ok(None);
        }
        let switch: bool = str_eq(arg, "--require-hugetlb");
        let next: usize = if switch {
            i + 1
        } else if count - i >= 2 {
            i + 2
        } else {
            count
        };
        proof {
            assert(crate::args::after(
                rest,
                if switch {
                    1
                } else {
                    2
                },
            ) =~= views.skip(next as int));
        }
        let value: Option<String> = value_at(args.as_slice(), i + 1);
        draft = match draft.with(arg, value) {
            Ok(d) => d,
            Err(e) => {
                return Err(e);
            },
        };
        i = next;
    }
    proof {
        assert(views.skip(i as int).len() == 0);
    }
    match finish(draft) {
        Ok(t) => Ok(Some(t)),
        Err(e) => Err(e),
    }
}

/// Each option sets the field that it is named after, to the text that follows it or to what the text
/// writes down, and leaves every other field as it was.
pub proof fn law_each_option_sets_its_own_field(d: DraftView, text: Seq<char>, value: Option<Seq<char>>)
    ensures
        with_option(d, "--bind"@, Some(text)) == Ok::<DraftView, Fault>(
            (DraftView { bind: Some(text), ..d }),
        ),
        with_option(d, "--base-service"@, Some(text)) matches Ok(a) ==> a == (DraftView { base_service: a.base_service, ..d }) && a.base_service is Some && crate::text::unsigned_value(text, usize::MAX as nat) == Some(
            a.base_service->0 as nat,
        ),
        with_option(d, "--lanes"@, Some(text)) matches Ok(a) ==> a == (DraftView { lanes: a.lanes, ..d }) && a.lanes is Some && crate::text::unsigned_value(text, usize::MAX as nat) == Some(
            a.lanes->0 as nat,
        ),
        with_option(d, "--capacity-bytes"@, Some(text)) matches Ok(a) ==> a == (DraftView { capacity_bytes: a.capacity_bytes, ..d }) && a.capacity_bytes is Some && crate::text::unsigned_value(text, u64::MAX as nat) == Some(
            a.capacity_bytes->0 as nat,
        ),
        with_option(d, "--provider"@, Some(text)) == Ok::<DraftView, Fault>(
            (DraftView { provider: text, ..d }),
        ),
        with_option(d, "--endpoint"@, Some(text)) == Ok::<DraftView, Fault>(
            (DraftView { endpoint: text, ..d }),
        ),
        with_option(d, "--domain"@, Some(text)) == Ok::<DraftView, Fault>(
            (DraftView { domain: Some(text), ..d }),
        ),
        with_option(d, "--lane-cpus"@, Some(text)) matches Ok(a) ==> a == (DraftView { lane_cpus: a.lane_cpus, ..d }) && sizes_of(crate::text::split_text(text, ',')) == Some(a.lane_cpus),
        with_option(d, "--require-hugetlb"@, value) == Ok::<DraftView, Fault>(
            (DraftView { require_hugetlb: true, ..d }),
        ),
{
    reveal_strlit("--bind");
    assert("--bind"@.len() == 6);
    reveal_strlit("--base-service");
    assert("--base-service"@.len() == 14);
    reveal_strlit("--lanes");
    assert("--lanes"@.len() == 7);
    reveal_strlit("--capacity-bytes");
    assert("--capacity-bytes"@.len() == 16);
    reveal_strlit("--provider");
    assert("--provider"@.len() == 10);
    reveal_strlit("--endpoint");
    assert("--endpoint"@.len() == 10);
    reveal_strlit("--domain");
    assert("--domain"@.len() == 8);
    reveal_strlit("--lane-cpus");
    assert("--lane-cpus"@.len() == 11);
    reveal_strlit("--require-hugetlb");
    assert("--require-hugetlb"@.len() == 17);
    assert("--endpoint"@[2] != "--provider"@[2]);
}

/// A list of sizes is read part by part, in order, and only where every part is a number.
pub proof fn law_sizes_are_read_in_order(parts: Seq<Seq<char>>, i: int)
    requires
        0 <= i < parts.len(),
    ensures
        sizes_of(parts) matches Some(list) ==> list.len() == parts.len()
            && crate::text::unsigned_value(parts[i], usize::MAX as nat) == Some(list[i] as nat),
        crate::text::unsigned_value(parts[i], usize::MAX as nat) is None ==> sizes_of(parts) is None,
    decreases parts.len(),
{
    let head = parts.drop_last();
    if i < head.len() {
        law_sizes_are_read_in_order(head, i);
        assert(head[i] == parts[i]);
    } else if head.len() > 0 {
        law_sizes_are_read_in_order(head, 0);
    }
}

/// A target is what was asked for, and is made only where it has an address, a service, lanes and a capacity.
pub proof fn law_targets_are_what_was_asked_for(d: DraftView)
    ensures
        target_due(d) is Ok <==> d.bind is Some && d.base_service is Some && d.base_service->0 <= 65535
            && d.lanes is Some && d.capacity_bytes is Some,
        target_due(d) matches Ok(t) ==> {
            &&& Some(t.bind) == d.bind
            &&& t.base_service == d.base_service->0
            &&& Some(t.lanes) == d.lanes
            &&& Some(t.capacity_bytes) == d.capacity_bytes
            &&& t.provider == d.provider && t.endpoint == d.endpoint && t.domain == d.domain
            &&& t.lane_cpus == d.lane_cpus && t.require_hugetlb == d.require_hugetlb
        },
{
}

/// Options are taken one after the other, each with the value that follows it or alone where it is a switch; the first one that cannot
/// be taken decides.
pub proof fn law_options_are_taken_in_order(
    arg: Seq<char>,
    text: Seq<char>,
    rest: Seq<Seq<char>>,
    d: DraftView,
)
    requires
        arg != "-h"@,
        arg != "--help"@,
    ensures
        !is_switch(arg) && with_option(d, arg, Some(text)) is Ok ==> drafted(seq![arg, text] + rest, d) == drafted(
            rest,
            with_option(d, arg, Some(text))->Ok_0,
        ),
        with_option(d, arg, Some(text)) is Err ==> drafted(seq![arg, text] + rest, d) is Err,
        is_switch(arg) && with_option(d, arg, crate::args::nth(seq![arg] + rest, 1)) is Ok ==> drafted(
            seq![arg] + rest,
            d,
        ) == drafted(rest, with_option(d, arg, crate::args::nth(seq![arg] + rest, 1))->Ok_0),
        drafted(Seq::empty(), d) == Ok::<Option<DraftView>, Fault>(Some(d)),
{
    let two = seq![arg, text] + rest;
    assert(two[0] == arg && two[1] == text);
    assert(two.skip(2) =~= rest);
    let one = seq![arg] + rest;
    assert(one[0] == arg);
    assert(one.skip(1) =~= rest);
}

} // verus!
