//! The command line of the block device.
use vstd::prelude::*;
use vstd::string::*;

use crate::args::{needed, number, value_at};
use crate::bytes::filled;
use crate::error::{invalid, invalid_input, Error};
use crate::iscsi::options::parse_cpu_list;
use crate::order::ring::is_power_of_two;
use crate::text::{chars_of, join2, join3, str_eq};
#[allow(unused_imports)]
use crate::error::Fault;

verus! {

/// The largest number of queues.
pub const MAX_QUEUES: usize = 64;

/// What a run of the device is asked to do; until the command line is complete, what it has said so
/// far.
#[derive(Debug)]
pub struct Options {
    pub socket: Option<String>,
    pub leaf: Option<String>,
    pub arena_socket: Option<String>,
    pub direct_ofi_address: Option<String>,
    pub direct_ofi_provider: String,
    pub direct_ofi_endpoint: String,
    pub direct_ofi_domain: Option<String>,
    pub direct_ofi_base_service: u16,
    pub direct_capacity_bytes: Option<u64>,
    pub direct_slot_bytes: usize,
    pub direct_require_hugetlb: bool,
    pub zcnblk_device: String,
    pub queues: usize,
    pub queue_size: usize,
    pub queue_cpus: Vec<usize>,
    pub read_only: bool,
    pub poll_us: u64,
    pub offer_event_idx: bool,
    pub serial: Vec<u8>,
}

/// What is meant by [`Options`].
pub struct OptionsView {
    pub socket: Option<Seq<char>>,
    pub leaf: Option<Seq<char>>,
    pub arena_socket: Option<Seq<char>>,
    pub direct_ofi_address: Option<Seq<char>>,
    pub direct_ofi_provider: Seq<char>,
    pub direct_ofi_endpoint: Seq<char>,
    pub direct_ofi_domain: Option<Seq<char>>,
    pub direct_ofi_base_service: u16,
    pub direct_capacity_bytes: Option<u64>,
    pub direct_slot_bytes: usize,
    pub direct_require_hugetlb: bool,
    pub zcnblk_device: Seq<char>,
    pub queues: usize,
    pub queue_size: usize,
    pub queue_cpus: Seq<usize>,
    pub read_only: bool,
    pub poll_us: u64,
    pub offer_event_idx: bool,
    pub serial: Seq<u8>,
}

impl View for Options {
    type V = OptionsView;

    open spec fn view(&self) -> OptionsView {
        OptionsView {
            socket: crate::args::said(self.socket),
            leaf: crate::args::said(self.leaf),
            arena_socket: crate::args::said(self.arena_socket),
            direct_ofi_address: crate::args::said(self.direct_ofi_address),
            direct_ofi_provider: self.direct_ofi_provider@,
            direct_ofi_endpoint: self.direct_ofi_endpoint@,
            direct_ofi_domain: crate::args::said(self.direct_ofi_domain),
            direct_ofi_base_service: self.direct_ofi_base_service,
            direct_capacity_bytes: self.direct_capacity_bytes,
            direct_slot_bytes: self.direct_slot_bytes,
            direct_require_hugetlb: self.direct_require_hugetlb,
            zcnblk_device: self.zcnblk_device@,
            queues: self.queues,
            queue_size: self.queue_size,
            queue_cpus: self.queue_cpus@,
            read_only: self.read_only,
            poll_us: self.poll_us,
            offer_event_idx: self.offer_event_idx,
            serial: self.serial@,
        }
    }
}

/// How the device is called.
pub open spec fn usage_text() -> Seq<char> {
    "usage: zcvhost-user-blk --socket PATH (--leaf-file PATH | --arena-socket PATH | --direct-ofi ADDRESS) [--zcnblk-device PATH] [--direct-provider NAME] [--direct-endpoint rdm] [--direct-domain NAME] [--direct-base-service PORT] [--direct-capacity-bytes N] [--direct-slot-bytes N] [--direct-require-hugetlb] [--queues N] [--queue-size N] [--queue-cpus CSV] [--poll-us N] [--no-event-idx] [--read-only] [--serial TEXT]\nA leaf file is terminal test media. An arena socket connects to an existing\nuserspace stage through /dev/zcnblk0 without a block-edge payload copy.\nDirect OFI posts registered-memory RMA operations to a remote userspace\nvolume with no block edge and no per-I/O system calls.\nThis adapter never performs placement."@
}

/// How the device is called.
pub fn usage() -> (text: &'static str)
    ensures
        text@ == usage_text(),
{
    "usage: zcvhost-user-blk --socket PATH (--leaf-file PATH | --arena-socket PATH | --direct-ofi ADDRESS) [--zcnblk-device PATH] [--direct-provider NAME] [--direct-endpoint rdm] [--direct-domain NAME] [--direct-base-service PORT] [--direct-capacity-bytes N] [--direct-slot-bytes N] [--direct-require-hugetlb] [--queues N] [--queue-size N] [--queue-cpus CSV] [--poll-us N] [--no-event-idx] [--read-only] [--serial TEXT]\nA leaf file is terminal test media. An arena socket connects to an existing\nuserspace stage through /dev/zcnblk0 without a block-edge payload copy.\nDirect OFI posts registered-memory RMA operations to a remote userspace\nvolume with no block edge and no per-I/O system calls.\nThis adapter never performs placement."
}

/// A serial number of at most twenty ASCII characters, filled up with blanks.
pub open spec fn serial_of(text: Seq<char>) -> Option<Seq<u8>> {
    if text.len() <= 20 && forall|i: int| 0 <= i < text.len() ==> (#[trigger] text[i] as u32) < 128 {
        Some(
            Seq::new(
                20,
                |i: int|
                    if i < text.len() {
                        text[i] as u8
                    } else {
                        32
                    },
            ),
        )
    } else {
        None
    }
}

fn parse_serial(text: &str) -> (serial: Option<Vec<u8>>)
    ensures
        match serial {
            Some(v) => serial_of(text@) == Some(v@),
            None => serial_of(text@) is None,
        },
{
    let chars: Vec<char> = chars_of(text);
    if chars.len() > 20 {
        return None;
    }
    let mut serial: Vec<u8> = filled(32, 20);
    let mut i: usize = 0;
    while i < chars.len()
        invariant
            i <= chars@.len() <= 20,
            chars@ == text@,
            serial@.len() == 20,
            forall|k: int| 0 <= k < i ==> (#[trigger] text@[k] as u32) < 128,
            forall|k: int|
                0 <= k < 20 ==> #[trigger] serial@[k] == if k < i {
                    text@[k] as u8
                } else {
                    32
                },
        decreases chars@.len() - i,
    {
        let c: char = chars[i];
        if c as u32 >= 128 {
            assert(text@[i as int] as u32 >= 128);
            return None;
        }
        serial[i] = c as u8;
        i = i + 1;
    }
    proof {
        assert(serial@ =~= serial_of(text@)->0);
    }
    Some(serial)
}

/// What a command line says before its first option.
pub open spec fn blank_options() -> OptionsView {
    OptionsView {
        socket: None,
        leaf: None,
        arena_socket: None,
        direct_ofi_address: None,
        direct_ofi_provider: "sockets"@,
        direct_ofi_endpoint: "rdm"@,
        direct_ofi_domain: None,
        direct_ofi_base_service: 37000,
        direct_capacity_bytes: None,
        direct_slot_bytes: 4096,
        direct_require_hugetlb: false,
        zcnblk_device: "/dev/zcnblk0"@,
        queues: 1,
        queue_size: 256,
        queue_cpus: Seq::empty(),
        read_only: false,
        poll_us: 0,
        offer_event_idx: true,
        serial: serial_of("zcutils-vhost0"@)->0,
    }
}

/// The value of an option that needs a size.
pub open spec fn size_due(name: Seq<char>, value: Option<Seq<char>>) -> Result<nat, Fault> {
    crate::args::number_due(value, usize::MAX as nat, "missing "@ + name, "invalid "@ + name)
}

/// The value of an option that needs a size.
pub fn parse_usize(name: &str, value: &Option<String>) -> (r: Result<usize, Error>)
    ensures
        match r {
            Ok(n) => size_due(name@, crate::args::said(*value)) == Ok::<nat, Fault>(n as nat),
            Err(e) => size_due(name@, crate::args::said(*value)) == Err::<nat, Fault>(e@),
        },
{
    match number(
        value,
        usize::MAX as u64,
        join2("missing ", name).as_str(),
        join2("invalid ", name).as_str(),
    ) {
        Ok(n) => Ok(n as usize),
        Err(e) => Err(e),
    }
}

/// Whether an option stands alone.
pub open spec fn is_switch(arg: Seq<char>) -> bool {
    arg == "--direct-require-hugetlb"@ || arg == "--no-event-idx"@ || arg == "--read-only"@
}

/// `d` with one more option and its value.
pub open spec fn with_option(d: OptionsView, arg: Seq<char>, value: Option<Seq<char>>) -> Result<
    OptionsView,
    Fault,
> {
    if arg == "--socket"@ {
        Ok(OptionsView { socket: value, ..d })
    } else if arg == "--leaf-file"@ {
        Ok(OptionsView { leaf: value, ..d })
    } else if arg == "--arena-socket"@ {
        Ok(OptionsView { arena_socket: value, ..d })
    } else if arg == "--direct-ofi"@ {
        Ok(OptionsView { direct_ofi_address: value, ..d })
    } else if arg == "--direct-provider"@ {
        match crate::args::text_due(value, "missing --direct-provider"@) {
            Ok(text) => Ok(OptionsView { direct_ofi_provider: text, ..d }),
            Err(e) => Err(e),
        }
    } else if arg == "--direct-endpoint"@ {
        match crate::args::text_due(value, "missing --direct-endpoint"@) {
            Ok(text) => Ok(OptionsView { direct_ofi_endpoint: text, ..d }),
            Err(e) => Err(e),
        }
    } else if arg == "--direct-domain"@ {
        Ok(OptionsView { direct_ofi_domain: value, ..d })
    } else if arg == "--direct-base-service"@ {
        match size_due("--direct-base-service"@, value) {
            Ok(n) => if n > u16::MAX {
                Err(crate::error::bad_input("--direct-base-service exceeds u16"@))
            } else {
                Ok(OptionsView { direct_ofi_base_service: n as u16, ..d })
            },
            Err(e) => Err(e),
        }
    } else if arg == "--direct-capacity-bytes"@ {
        match crate::args::number_due(
            value,
            u64::MAX as nat,
            "missing --direct-capacity-bytes"@,
            "invalid --direct-capacity-bytes"@,
        ) {
            Ok(n) => Ok(OptionsView { direct_capacity_bytes: Some(n as u64), ..d }),
            Err(e) => Err(e),
        }
    } else if arg == "--direct-slot-bytes"@ {
        match size_due("--direct-slot-bytes"@, value) {
            Ok(n) => Ok(OptionsView { direct_slot_bytes: n as usize, ..d }),
            Err(e) => Err(e),
        }
    } else if arg == "--direct-require-hugetlb"@ {
        Ok(OptionsView { direct_require_hugetlb: true, ..d })
    } else if arg == "--zcnblk-device"@ {
        match crate::args::text_due(value, "missing --zcnblk-device"@) {
            Ok(text) => Ok(OptionsView { zcnblk_device: text, ..d }),
            Err(e) => Err(e),
        }
    } else if arg == "--queues"@ {
        match size_due("--queues"@, value) {
            Ok(n) => Ok(OptionsView { queues: n as usize, ..d }),
            Err(e) => Err(e),
        }
    } else if arg == "--queue-size"@ {
        match size_due("--queue-size"@, value) {
            Ok(n) => Ok(OptionsView { queue_size: n as usize, ..d }),
            Err(e) => Err(e),
        }
    } else if arg == "--queue-cpus"@ {
        match crate::iscsi::options::cpu_list(value, "--queue-cpus"@) {
            Ok(cpus) => Ok(OptionsView { queue_cpus: cpus, ..d }),
            Err(e) => Err(e),
        }
    } else if arg == "--poll-us"@ {
        match size_due("--poll-us"@, value) {
            Ok(n) => Ok(OptionsView { poll_us: n as u64, ..d }),
            Err(e) => Err(e),
        }
    } else if arg == "--no-event-idx"@ {
        Ok(OptionsView { offer_event_idx: false, ..d })
    } else if arg == "--read-only"@ {
        Ok(OptionsView { read_only: true, ..d })
    } else if arg == "--serial"@ {
        match crate::args::text_due(value, "missing --serial"@) {
            Ok(text) => match serial_of(text) {
                Some(serial) => Ok(OptionsView { serial, ..d }),
                None => Err(
                    crate::error::bad_input("--serial must contain at most 20 ASCII bytes"@),
                ),
            },
            Err(e) => Err(e),
        }
    } else {
        Err(crate::error::bad_input("unknown option "@ + arg + "\n"@ + usage_text()))
    }
}

/// What a command line says in all; nothing where it asks how the device is called.
pub open spec fn drafted(rest: Seq<Seq<char>>, d: OptionsView) -> Result<Option<OptionsView>, Fault>
    decreases rest.len(),
{
    if rest.len() == 0 {
        Ok(Some(d))
    } else if rest[0] == "--help"@ || rest[0] == "-h"@ {
        Ok(None)
    } else {
        match with_option(d, rest[0], crate::args::nth(rest, 1)) {
            Ok(next) => drafted(
                crate::args::after(
                    rest,
                    if is_switch(rest[0]) {
                        1
                    } else {
                        2
                    },
                ),
                next,
            ),
            Err(e) => Err(e),
        }
    }
}

/// How many stages a command line names.
pub open spec fn stages(d: OptionsView) -> int {
    (if d.leaf is Some {
        1int
    } else {
        0
    }) + (if d.arena_socket is Some {
        1int
    } else {
        0
    }) + (if d.direct_ofi_address is Some {
        1int
    } else {
        0
    })
}

/// The fault on which a complete command line is refused, if it is.
pub open spec fn options_fault(d: OptionsView) -> Option<Fault> {
    if d.queues < 1 || d.queues > 64 {
        Some(crate::error::bad_input("--queues must be in 1..=64"@))
    } else if d.queue_size < 16 || d.queue_size > 32768 || !crate::order::ring::power_of_two(
        d.queue_size as nat,
    ) {
        Some(crate::error::bad_input("--queue-size must be a power of two in 16..=32768"@))
    } else if stages(d) != 1 {
        Some(
            crate::error::bad_input(
                "choose exactly one of --leaf-file, --arena-socket, or --direct-ofi\n"@
                    + usage_text(),
            ),
        )
    } else if d.direct_ofi_address is Some && d.direct_capacity_bytes is None {
        Some(crate::error::bad_input("--direct-ofi requires --direct-capacity-bytes"@))
    } else if d.queue_cpus.len() > 0 && d.queue_cpus.len() != d.queues {
        Some(crate::error::bad_input("--queue-cpus must contain exactly one CPU per queue"@))
    } else if d.socket is None {
        Some(crate::error::bad_input("missing --socket\n"@ + usage_text()))
    } else {
        None
    }
}

impl Options {
    fn new() -> (d: Options)
        ensures
            d@ == blank_options(),
    {
        proof {
            reveal_strlit("zcutils-vhost0");
        }
        let serial: Vec<u8> = match parse_serial("zcutils-vhost0") {
            Some(serial) => serial,
            None => Vec::new(),
        };
        let d: Options = Options {
            socket: None,
            leaf: None,
            arena_socket: None,
            direct_ofi_address: None,
            direct_ofi_provider: String::from_str("sockets"),
            direct_ofi_endpoint: String::from_str("rdm"),
            direct_ofi_domain: None,
            direct_ofi_base_service: 37000,
            direct_capacity_bytes: None,
            direct_slot_bytes: 4096,
            direct_require_hugetlb: false,
            zcnblk_device: String::from_str("/dev/zcnblk0"),
            queues: 1,
            queue_size: 256,
            queue_cpus: Vec::new(),
            read_only: false,
            poll_us: 0,
            offer_event_idx: true,
            serial,
        };
        proof {
            assert(d@.queue_cpus =~= Seq::<usize>::empty());
        }
        d
    }

    fn with(self, arg: &str, value: Option<String>) -> (r: Result<Options, Error>)
        ensures
            match r {
                Ok(d) => with_option(self@, arg@, crate::args::said(value)) == Ok::<
                    OptionsView,
                    Fault,
                >(d@),
                Err(e) => with_option(self@, arg@, crate::args::said(value)) == Err::<
                    OptionsView,
                    Fault,
                >(e@),
            },
    {
        let mut d: Options = self;
        if str_eq(arg, "--socket") {
            d.socket = value;
        } else if str_eq(arg, "--leaf-file") {
            d.leaf = value;
        } else if str_eq(arg, "--arena-socket") {
            d.arena_socket = value;
        } else if str_eq(arg, "--direct-ofi") {
            d.direct_ofi_address = value;
        } else if str_eq(arg, "--direct-provider") {
            match needed(value, "missing --direct-provider") {
                Ok(text) => {
                    d.direct_ofi_provider = text;
                },
                Err(e) => {
                    return Err(e);
                },
            }
        } else if str_eq(arg, "--direct-endpoint") {
            match needed(value, "missing --direct-endpoint") {
                Ok(text) => {
                    d.direct_ofi_endpoint = text;
                },
                Err(e) => {
                    return Err(e);
                },
            }
        } else if str_eq(arg, "--direct-domain") {
            d.direct_ofi_domain = value;
        } else if str_eq(arg, "--direct-base-service") {
            match parse_usize("--direct-base-service", &value) {
                Ok(n) => {
                    if n > u16::MAX as usize {
                        return Err(invalid("--direct-base-service exceeds u16"));
                    }
                    d.direct_ofi_base_service = n as u16;
                },
                Err(e) => {
                    return Err(e);
                },
            }
        } else if str_eq(arg, "--direct-capacity-bytes") {
            match number(&value, u64::MAX, "missing --direct-capacity-bytes", "invalid --direct-capacity-bytes") {
                Ok(n) => {
                    d.direct_capacity_bytes = Some(n);
                },
                Err(e) => {
                    return Err(e);
                },
            }
        } else if str_eq(arg, "--direct-slot-bytes") {
            match parse_usize("--direct-slot-bytes", &value) {
                Ok(n) => {
                    d.direct_slot_bytes = n;
                },
                Err(e) => {
                    return Err(e);
                },
            }
        } else if str_eq(arg, "--direct-require-hugetlb") {
            d.direct_require_hugetlb = true;
        } else if str_eq(arg, "--zcnblk-device") {
            match needed(value, "missing --zcnblk-device") {
                Ok(text) => {
                    d.zcnblk_device = text;
                },
                Err(e) => {
                    return Err(e);
                },
            }
        } else if str_eq(arg, "--queues") {
            match parse_usize("--queues", &value) {
                Ok(n) => {
                    d.queues = n;
                },
                Err(e) => {
                    return Err(e);
                },
            }
        } else if str_eq(arg, "--queue-size") {
            match parse_usize("--queue-size", &value) {
                Ok(n) => {
                    d.queue_size = n;
                },
                Err(e) => {
                    return Err(e);
                },
            }
        } else if str_eq(arg, "--queue-cpus") {
            match parse_cpu_list(value, "--queue-cpus") {
                Ok(cpus) => {
                    d.queue_cpus = cpus;
                },
                Err(e) => {
                    return Err(e);
                },
            }
        } else if str_eq(arg, "--poll-us") {
            match parse_usize("--poll-us", &value) {
                Ok(n) => {
                    d.poll_us = n as u64;
                },
                Err(e) => {
                    return Err(e);
                },
            }
        } else if str_eq(arg, "--no-event-idx") {
            d.offer_event_idx = false;
        } else if str_eq(arg, "--read-only") {
            d.read_only = true;
        } else if str_eq(arg, "--serial") {
            match needed(value, "missing --serial") {
                Ok(text) => {
                    match parse_serial(text.as_str()) {
                        Some(serial) => {
                            d.serial = serial;
                        },
                        None => {
                            return Err(invalid("--serial must contain at most 20 ASCII bytes"));
                        },
                    }
                },
                Err(e) => {
                    return Err(e);
                },
            }
        } else {
            let head: String = join3("unknown option ", arg, "\n");
            return Err(invalid_input(join2(head.as_str(), usage())));
        }
        Ok(d)
    }

    fn check(&self) -> (r: Result<(), Error>)
        ensures
            match r {
                Ok(_) => options_fault(self@) is None,
                Err(e) => options_fault(self@) == Some(e@),
            },
    {
        if self.queues < 1 || self.queues > MAX_QUEUES {
            return Err(invalid("--queues must be in 1..=64"));
        }
        if self.queue_size < 16 || self.queue_size > 32768 || !is_power_of_two(
            self.queue_size as u64,
        ) {
            return Err(invalid("--queue-size must be a power of two in 16..=32768"));
        }
        let mut named: u32 = 0;
        if self.leaf.is_some() {
            named = named + 1;
        }
        if self.arena_socket.is_some() {
            named = named + 1;
        }
        if self.direct_ofi_address.is_some() {
            named = named + 1;
        }
        if named != 1 {
            return Err(
                invalid_input(
                    join2(
                        "choose exactly one of --leaf-file, --arena-socket, or --direct-ofi\n",
                        usage(),
                    ),
                ),
            );
        }
        if self.direct_ofi_address.is_some() && self.direct_capacity_bytes.is_none() {
            return Err(invalid("--direct-ofi requires --direct-capacity-bytes"));
        }
        if self.queue_cpus.len() > 0 && self.queue_cpus.len() != self.queues {
            return Err(invalid("--queue-cpus must contain exactly one CPU per queue"));
        }
        if self.socket.is_none() {
            return Err(invalid_input(join2("missing --socket\n", usage())));
        }
        Ok(())
    }
}

/// Reads a command line; nothing comes back where it asks how the device is called.
pub fn parse_options(args: &Vec<String>) -> (r: Result<Option<Options>, Error>)
    ensures
        ({
            let all = drafted(crate::text::texts(args@), blank_options());
            match r {
                Ok(Some(o)) => all == Ok::<Option<OptionsView>, Fault>(Some(o@)) && options_fault(
                    o@,
                ) is None,
                Ok(None) => all == Ok::<Option<OptionsView>, Fault>(None),
                Err(e) => match all {
                    Ok(Some(d)) => options_fault(d) == Some(e@),
                    Ok(None) => false,
                    Err(f) => f == e@,
                },
            }
        }),
{
    let mut draft: Options = Options::new();
    let ghost views = crate::text::texts(args@);
    let ghost goal = drafted(views, blank_options());
    let count: usize = args.len();
    let mut i: usize = 0;
    proof {
        assert(views.skip(0) =~= views);
    }
    while i < count
        invariant
            i <= count,
            count == args@.len(),
            views == crate::text::texts(args@),
            goal == drafted(views, blank_options()),
            goal == drafted(views.skip(i as int), draft@),
        decreases count - i,
    {
        let ghost rest = views.skip(i as int);
        let arg: &str = args[i].as_str();
        proof {
            assert(rest[0] == arg@);
            assert(crate::args::nth(rest, 1) == crate::args::nth(views, i + 1));
        }
        if str_eq(arg, "--help") || str_eq(arg, "-h") {
            return Ok(None);
        }
        let switch: bool = str_eq(arg, "--direct-require-hugetlb") || str_eq(arg, "--no-event-idx")
            || str_eq(arg, "--read-only");
        let value: Option<String> = value_at(args.as_slice(), i + 1);
        let next: usize = if switch {
            i + 1
        } else if count - i >= 2 {
            i + 2
        } else {
            count
        };
        proof {
            assert(crate::args::after(
                rest,
                if switch {
                    1
                } else {
                    2
                },
            ) =~= views.skip(next as int));
        }
        draft = match draft.with(arg, value) {
            Ok(d) => d,
            Err(e) => {
                return Err(e);
            },
        };
        i = next;
    }
    proof {
        assert(views.skip(i as int).len() == 0);
    }
    match draft.check() {
        Ok(_) => Ok(Some(draft)),
        Err(e) => Err(e),
    }
}

/// The fault of a placement that is not complete although it has to be, if there is one.
pub open spec fn strict_fault(o: OptionsView) -> Option<Fault> {
    if (o.arena_socket is Some || o.direct_ofi_address is Some) && o.queue_cpus.len() == 0 {
        Some(
            crate::error::bad_input(
                "strict topology requires --queue-cpus in userspace transport mode"@,
            ),
        )
    } else if o.direct_ofi_address is Some && !o.direct_require_hugetlb {
        Some(
            crate::error::bad_input(
                "strict direct-OFI topology requires --direct-require-hugetlb"@,
            ),
        )
    } else {
        None
    }
}

/// Whether the placement is complete where it has to be.
pub fn check_placement(options: &Options, strict: bool) -> (r: Result<(), Error>)
    ensures
        match r {
            Ok(_) => !strict || strict_fault(options@) is None,
            Err(e) => strict && strict_fault(options@) == Some(e@),
        },
{
    if !strict {
        return Ok(());
    }
    if (options.arena_socket.is_some() || options.direct_ofi_address.is_some())
        && options.queue_cpus.len() == 0 {
        return Err(invalid("strict topology requires --queue-cpus in userspace transport mode"));
    }
    if options.direct_ofi_address.is_some() && !options.direct_require_hugetlb {
        return Err(invalid("strict direct-OFI topology requires --direct-require-hugetlb"));
    }
    Ok(())
}

/// How completions wake the worker of a queue.
pub fn cq_wakeup(options: &Options) -> (label: &'static str)
    ensures
        label@ == if options.direct_ofi_address is Some {
            "libfabric-cq-poll"@
        } else if options.poll_us == 0 && options.arena_socket is Some {
            "io_uring-eventfd"@
        } else if options.arena_socket is Some {
            "bounded-poll+io_uring-eventfd-idle"@
        } else if options.poll_us == 0 {
            "virtqueue-kick"@
        } else {
            "bounded-poll"@
        },
{
    if options.direct_ofi_address.is_some() {
        "libfabric-cq-poll"
    } else if options.poll_us == 0 && options.arena_socket.is_some() {
        "io_uring-eventfd"
    } else if options.arena_socket.is_some() {
        "bounded-poll+io_uring-eventfd-idle"
    } else if options.poll_us == 0 {
        "virtqueue-kick"
    } else {
        "bounded-poll"
    }
}

/// Each option sets the field that it is named after, to the text that follows it or to what the text
/// writes down, and leaves every other field as it was.
pub proof fn law_each_option_sets_its_own_field(d: OptionsView, text: Seq<char>, value: Option<Seq<char>>)
    ensures
        with_option(d, "--socket"@, Some(text)) == Ok::<OptionsView, Fault>(
            (OptionsView { socket: Some(text), ..d }),
        ),
        with_option(d, "--leaf-file"@, Some(text)) == Ok::<OptionsView, Fault>(
            (OptionsView { leaf: Some(text), ..d }),
        ),
        with_option(d, "--arena-socket"@, Some(text)) == Ok::<OptionsView, Fault>(
            (OptionsView { arena_socket: Some(text), ..d }),
        ),
        with_option(d, "--direct-ofi"@, Some(text)) == Ok::<OptionsView, Fault>(
            (OptionsView { direct_ofi_address: Some(text), ..d }),
        ),
        with_option(d, "--direct-provider"@, Some(text)) == Ok::<OptionsView, Fault>(
            (OptionsView { direct_ofi_provider: text, ..d }),
        ),
        with_option(d, "--direct-endpoint"@, Some(text)) == Ok::<OptionsView, Fault>(
            (OptionsView { direct_ofi_endpoint: text, ..d }),
        ),
        with_option(d, "--direct-domain"@, Some(text)) == Ok::<OptionsView, Fault>(
            (OptionsView { direct_ofi_domain: Some(text), ..d }),
        ),
        with_option(d, "--direct-base-service"@, Some(text)) matches Ok(a) ==> a == (OptionsView { direct_ofi_base_service: a.direct_ofi_base_service, ..d }) && crate::text::unsigned_value(text, usize::MAX as nat) == Some(
            a.direct_ofi_base_service as nat,
        ),
        with_option(d, "--direct-capacity-bytes"@, Some(text)) matches Ok(a) ==> a == (OptionsView { direct_capacity_bytes: a.direct_capacity_bytes, ..d }) && a.direct_capacity_bytes is Some && crate::text::unsigned_value(text, u64::MAX as nat) == Some(
            a.direct_capacity_bytes->0 as nat,
        ),
        with_option(d, "--direct-slot-bytes"@, Some(text)) matches Ok(a) ==> a == (OptionsView { direct_slot_bytes: a.direct_slot_bytes, ..d }) && crate::text::unsigned_value(text, usize::MAX as nat) == Some(
            a.direct_slot_bytes as nat,
        ),
        with_option(d, "--direct-require-hugetlb"@, value) == Ok::<OptionsView, Fault>(
            (OptionsView { direct_require_hugetlb: true, ..d }),
        ),
        with_option(d, "--zcnblk-device"@, Some(text)) == Ok::<OptionsView, Fault>(
            (OptionsView { zcnblk_device: text, ..d }),
        ),
        with_option(d, "--queues"@, Some(text)) matches Ok(a) ==> a == (OptionsView { queues: a.queues, ..d }) && crate::text::unsigned_value(text, usize::MAX as nat) == Some(
            a.queues as nat,
        ),
        with_option(d, "--queue-size"@, Some(text)) matches Ok(a) ==> a == (OptionsView { queue_size: a.queue_size, ..d }) && crate::text::unsigned_value(text, usize::MAX as nat) == Some(
            a.queue_size as nat,
        ),
        with_option(d, "--queue-cpus"@, Some(text)) matches Ok(a) ==> a == (OptionsView { queue_cpus: a.queue_cpus, ..d }) && crate::iscsi::options::sizes(crate::text::split_text(text, ',')) == Some(
            a.queue_cpus,
        ),
        with_option(d, "--poll-us"@, Some(text)) matches Ok(a) ==> a == (OptionsView { poll_us: a.poll_us, ..d }) && crate::text::unsigned_value(text, usize::MAX as nat) == Some(
            a.poll_us as nat,
        ),
        with_option(d, "--no-event-idx"@, value) == Ok::<OptionsView, Fault>(
            (OptionsView { offer_event_idx: false, ..d }),
        ),
        with_option(d, "--read-only"@, value) == Ok::<OptionsView, Fault>(
            (OptionsView { read_only: true, ..d }),
        ),
        with_option(d, "--serial"@, Some(text)) matches Ok(a) ==> a == (OptionsView { serial: a.serial, ..d }) && serial_of(text) == Some(a.serial),
{
    reveal_strlit("--socket");
    assert("--socket"@.len() == 8);
    reveal_strlit("--leaf-file");
    assert("--leaf-file"@.len() == 11);
    reveal_strlit("--arena-socket");
    assert("--arena-socket"@.len() == 14);
    reveal_strlit("--direct-ofi");
    assert("--direct-ofi"@.len() == 12);
    reveal_strlit("--direct-provider");
    assert("--direct-provider"@.len() == 17);
    reveal_strlit("--direct-endpoint");
    assert("--direct-endpoint"@.len() == 17);
    reveal_strlit("--direct-domain");
    assert("--direct-domain"@.len() == 15);
    reveal_strlit("--direct-base-service");
    assert("--direct-base-service"@.len() == 21);
    reveal_strlit("--direct-capacity-bytes");
    assert("--direct-capacity-bytes"@.len() == 23);
    reveal_strlit("--direct-slot-bytes");
    assert("--direct-slot-bytes"@.len() == 19);
    reveal_strlit("--direct-require-hugetlb");
    assert("--direct-require-hugetlb"@.len() == 24);
    reveal_strlit("--zcnblk-device");
    assert("--zcnblk-device"@.len() == 15);
    reveal_strlit("--queues");
    assert("--queues"@.len() == 8);
    reveal_strlit("--queue-size");
    assert("--queue-size"@.len() == 12);
    reveal_strlit("--queue-cpus");
    assert("--queue-cpus"@.len() == 12);
    reveal_strlit("--poll-us");
    assert("--poll-us"@.len() == 9);
    reveal_strlit("--no-event-idx");
    assert("--no-event-idx"@.len() == 14);
    reveal_strlit("--read-only");
    assert("--read-only"@.len() == 11);
    reveal_strlit("--serial");
    assert("--serial"@.len() == 8);
    assert("--direct-endpoint"@[9] != "--direct-provider"@[9]);
    assert("--zcnblk-device"@[2] != "--direct-domain"@[2]);
    assert("--queues"@[2] != "--socket"@[2]);
    assert("--queue-size"@[2] != "--direct-ofi"@[2]);
    assert("--queue-cpus"@[2] != "--direct-ofi"@[2]);
    assert("--queue-cpus"@[8] != "--queue-size"@[8]);
    assert("--no-event-idx"@[2] != "--arena-socket"@[2]);
    assert("--read-only"@[2] != "--leaf-file"@[2]);
    assert("--serial"@[3] != "--socket"@[3]);
    assert("--serial"@[2] != "--queues"@[2]);
}

/// A serial number is the text that was given, filled up with spaces to twenty bytes.
pub proof fn law_serials_are_filled_with_spaces(text: Seq<char>, i: int)
    requires
        0 <= i < 20,
    ensures
        serial_of(text) matches Some(serial) ==> {
            &&& serial.len() == 20
            &&& text.len() <= 20
            &&& i < text.len() ==> serial[i] == text[i] as u8 && (text[i] as u32) < 128
            &&& i >= text.len() ==> serial[i] == 0x20
        },
        text.len() > 20 ==> serial_of(text) is None,
{
}

/// A device has a socket and exactly one stage behind it, as many queues as it can have, a queue size that
/// is a power of two, and a processor for each queue or none at all.
pub proof fn law_devices_are_complete(d: OptionsView)
    requires
        options_fault(d) is None,
    ensures
        d.socket is Some,
        1 <= d.queues <= 64,
        16 <= d.queue_size <= 32768,
        crate::order::ring::power_of_two(d.queue_size as nat),
        d.leaf is Some ==> d.arena_socket is None && d.direct_ofi_address is None,
        d.arena_socket is Some ==> d.leaf is None && d.direct_ofi_address is None,
        d.leaf is Some || d.arena_socket is Some || d.direct_ofi_address is Some,
        d.direct_ofi_address is Some ==> d.direct_capacity_bytes is Some,
        d.queue_cpus.len() == 0 || d.queue_cpus.len() == d.queues,
{
}

/// Options are taken one after the other, each with the value that follows it or alone where it is a switch; the first one that cannot
/// be taken decides.
pub proof fn law_options_are_taken_in_order(
    arg: Seq<char>,
    text: Seq<char>,
    rest: Seq<Seq<char>>,
    d: OptionsView,
)
    requires
        arg != "-h"@,
        arg != "--help"@,
    ensures
        !is_switch(arg) && with_option(d, arg, Some(text)) is Ok ==> drafted(seq![arg, text] + rest, d) == drafted(
            rest,
            with_option(d, arg, Some(text))->Ok_0,
        ),
        with_option(d, arg, Some(text)) is Err ==> drafted(seq![arg, text] + rest, d) is Err,
        is_switch(arg) && with_option(d, arg, crate::args::nth(seq![arg] + rest, 1)) is Ok ==> drafted(
            seq![arg] + rest,
            d,
        ) == drafted(rest, with_option(d, arg, crate::args::nth(seq![arg] + rest, 1))->Ok_0),
        drafted(Seq::empty(), d) == Ok::<Option<OptionsView>, Fault>(Some(d)),
{
    let two = seq![arg, text] + rest;
    assert(two[0] == arg && two[1] == text);
    assert(two.skip(2) =~= rest);
    let one = seq![arg] + rest;
    assert(one[0] == arg);
    assert(one.skip(1) =~= rest);
}

} // verus!
