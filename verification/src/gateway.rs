//! The gateway between one block client and two mirrored leaves.
use vstd::prelude::*;
use vstd::string::*;

use crate::bytes::{bytes_eq, get_le};
use crate::error::{corrupt, invalid, invalid_data, Error};
use crate::text::{decimal, join2, join4, str_eq, trim};
#[allow(unused_imports)]
use crate::error::Fault;

verus! {

pub const HEADER_LEN: usize = 128;

pub const OP_HELLO: u16 = 1;

pub const OP_WRITE_DESC: u16 = 2;

pub const OP_READ_DESC: u16 = 3;

pub const OP_RESULT: u16 = 4;

pub const OP_SYNC: u16 = 5;

pub const OP_EOF: u16 = 6;

pub const OP_WRITE_BATCH: u16 = 7;

pub const OP_RESULT_BATCH: u16 = 8;

pub const OP_RESULT_RANGE_BATCH: u16 = 9;

pub const OP_REQUEST_BATCH: u16 = 10;

pub const OP_WRITE_EXTENT_BATCH: u16 = 11;

pub const OP_HELLO_ACK: u16 = 12;

/// The bytes that every frame begins with: `ZCFANW1` and a zero.
pub open spec fn magic() -> Seq<u8> {
    seq![0x5au8, 0x43u8, 0x46u8, 0x41u8, 0x4eu8, 0x57u8, 0x31u8, 0u8]
}

/// What a frame says of itself.
#[derive(Clone, Copy, Debug, PartialEq, Eq, Structural)]
pub struct Header {
    pub op: u16,
    pub payload_len: usize,
    pub sequence: u64,
    pub request_id: u64,
}

/// The number at an offset of a header, with the lowest byte first.
pub open spec fn field(bytes: Seq<u8>, at: int, n: int) -> nat {
    crate::bytes::le_value(bytes.subrange(at, at + n))
}

/// What the bytes of a header say.
pub open spec fn header_due(bytes: Seq<u8>) -> Result<Header, Fault> {
    let op = field(bytes, 12, 2);
    if bytes.subrange(0, 8) != magic() || field(bytes, 10, 2) != 128 {
        Err(crate::error::bad_data("invalid WAL frame header"@))
    } else if !(1 <= op <= 12) {
        Err(crate::error::bad_data("unknown WAL operation "@ + crate::text::decimal_text(op)))
    } else {
        Ok(
            Header {
                op: op as u16,
                payload_len: field(bytes, 44, 4) as usize,
                sequence: field(bytes, 48, 8) as u64,
                request_id: field(bytes, 56, 8) as u64,
            },
        )
    }
}

/// How many bytes follow a header: the results of a sync and the like have none.
pub open spec fn payload_due(h: Header) -> usize {
    if h.op == OP_WRITE_DESC || h.op == OP_RESULT || h.op == OP_WRITE_BATCH || h.op
        == OP_RESULT_BATCH || h.op == OP_REQUEST_BATCH || h.op == OP_WRITE_EXTENT_BATCH {
        h.payload_len
    } else {
        0
    }
}

fn has_magic(bytes: &[u8]) -> (yes: bool)
    requires
        bytes@.len() >= 8,
    ensures
        yes == (bytes@.subrange(0, 8) == magic()),
{
    let yes: bool = bytes[0] == 0x5a && bytes[1] == 0x43 && bytes[2] == 0x46 && bytes[3] == 0x41
        && bytes[4] == 0x4e && bytes[5] == 0x57 && bytes[6] == 0x31 && bytes[7] == 0;
    proof {
        let head = bytes@.subrange(0, 8);
        let m = magic();
        if yes {
            assert(head =~= m);
        } else if head == m {
            assert(head[0] == m[0] && head[1] == m[1] && head[2] == m[2] && head[3] == m[3]
                && head[4] == m[4] && head[5] == m[5] && head[6] == m[6] && head[7] == m[7]);
        }
    }
    yes
}

impl Header {
    /// What the bytes of a header say.
    pub fn decode(bytes: &[u8]) -> (r: Result<Header, Error>)
        requires
            bytes@.len() == 128,
        ensures
            crate::error::agrees(r, header_due(bytes@)),
    {
        proof {
            crate::bytes::lemma_byte_ranges();
            crate::bytes::lemma_le_value_bound(bytes@.subrange(10, 12));
            crate::bytes::lemma_le_value_bound(bytes@.subrange(12, 14));
            crate::bytes::lemma_le_value_bound(bytes@.subrange(44, 48));
            crate::bytes::lemma_le_value_bound(bytes@.subrange(48, 56));
            crate::bytes::lemma_le_value_bound(bytes@.subrange(56, 64));
        }
        if !has_magic(bytes) || get_le(bytes, 10, 2) != 128 {
            return Err(corrupt("invalid WAL frame header"));
        }
        let op: u64 = get_le(bytes, 12, 2);
        if op < 1 || op > 12 {
            let digits: String = decimal(op);
            return Err(invalid_data(join2("unknown WAL operation ", digits.as_str())));
        }
        Ok(
            Header {
                op: op as u16,
                payload_len: get_le(bytes, 44, 4) as usize,
                sequence: get_le(bytes, 48, 8),
                request_id: get_le(bytes, 56, 8),
            },
        )
    }

    /// How many bytes follow the header.
    pub fn wire_payload_len(self) -> (n: usize)
        ensures
            n == payload_due(self),
    {
        if self.op == OP_WRITE_DESC || self.op == OP_RESULT || self.op == OP_WRITE_BATCH || self.op
            == OP_RESULT_BATCH || self.op == OP_REQUEST_BATCH || self.op == OP_WRITE_EXTENT_BATCH {
            self.payload_len
        } else {
            0
        }
    }
}

/// The fields of a header in words.
pub open spec fn header_text(h: Header) -> Seq<char> {
    "Header { op: "@ + crate::text::decimal_text(h.op as nat) + ", payload_len: "@
        + crate::text::decimal_text(h.payload_len as nat) + ", sequence: "@
        + crate::text::decimal_text(h.sequence as nat) + ", request_id: "@
        + crate::text::decimal_text(h.request_id as nat) + " }"@
}

fn describe(h: Header) -> (s: String)
    ensures
        s@ == header_text(h),
{
    let op: String = decimal(h.op as u64);
    let len: String = decimal(h.payload_len as u64);
    let sequence: String = decimal(h.sequence);
    let id: String = decimal(h.request_id);
    let head: String = join4("Header { op: ", op.as_str(), ", payload_len: ", len.as_str());
    let body: String = join4(head.as_str(), ", sequence: ", sequence.as_str(), ", request_id: ");
    crate::text::join3(body.as_str(), id.as_str(), " }")
}

/// A frame: the bytes of its header, what they say, and what follows them.
#[derive(Debug)]
pub struct Frame {
    pub header_bytes: Vec<u8>,
    pub header: Header,
    pub payload: Vec<u8>,
}

impl Frame {
    /// Whether a frame holds what its header says.
    pub open spec fn wf(&self) -> bool {
        &&& self.header_bytes@.len() == 128
        &&& header_due(self.header_bytes@) == Ok::<Header, Fault>(self.header)
        &&& self.payload@.len() == payload_due(self.header)
    }

    /// What goes over the wire.
    pub open spec fn wire(&self) -> Seq<u8> {
        self.header_bytes@ + self.payload@
    }

    /// The frame of a header that has been read and of what follows it.
    pub fn new(header_bytes: Vec<u8>, header: Header, payload: Vec<u8>) -> (f: Frame)
        requires
            header_bytes@.len() == 128,
            header_due(header_bytes@) == Ok::<Header, Fault>(header),
            payload@.len() == payload_due(header),
        ensures
            f.wf(),
            f.wire() == header_bytes@ + payload@,
            f.header_bytes == header_bytes,
            f.header == header,
            f.payload == payload,
    {
        Frame { header_bytes, header, payload }
    }

    /// Whether two frames are the same byte for byte.
    pub fn identical(&self, other: &Frame) -> (yes: bool)
        ensures
            yes == (self.header_bytes@ == other.header_bytes@ && self.payload@ == other.payload@),
    {
        bytes_eq(self.header_bytes.as_slice(), other.header_bytes.as_slice()) && bytes_eq(
            self.payload.as_slice(),
            other.payload.as_slice(),
        )
    }
}

/// Which leaf answers, how often that was decided, and how many requests were completed.
#[derive(Clone, Copy, Debug, PartialEq, Eq, Structural)]
pub struct Route {
    pub secondary: bool,
    pub generation: u64,
    pub completed_hwm: u64,
}

impl Route {
    /// The route at the start: the primary leaf answers.
    pub fn new() -> (r: Route)
        ensures
            r == (Route { secondary: false, generation: 0, completed_hwm: 0 }),
    {
        Route { secondary: false, generation: 0, completed_hwm: 0 }
    }
}

/// What a leaf is called.
pub open spec fn leaf_name(secondary: bool) -> Seq<char> {
    if secondary {
        "secondary"@
    } else {
        "primary"@
    }
}

fn name_leaf(secondary: bool) -> (name: &'static str)
    ensures
        name@ == leaf_name(secondary),
{
    if secondary {
        "secondary"
    } else {
        "primary"
    }
}

/// The leaf that a command selects, if it selects one.
pub open spec fn selects(command: Seq<char>) -> Option<bool> {
    if command == "primary"@ {
        Some(false)
    } else if command == "secondary"@ {
        Some(true)
    } else {
        None
    }
}

/// The route after a command.
pub open spec fn commanded(r: Route, command: Seq<char>) -> Route {
    match selects(command) {
        Some(secondary) => Route { secondary, generation: (r.generation + 1) as u64, ..r },
        None => r,
    }
}

/// What is answered to a command.
pub open spec fn answer(r: Route, command: Seq<char>) -> Seq<char> {
    match selects(command) {
        Some(secondary) => "OK active="@ + leaf_name(secondary) + " previous="@ + leaf_name(
            r.secondary,
        ) + " generation="@ + crate::text::decimal_text((r.generation + 1) as nat)
            + " completed_hwm="@ + crate::text::decimal_text(r.completed_hwm as nat),
        None => if command == "status"@ {
            "OK active="@ + leaf_name(r.secondary) + " generation="@ + crate::text::decimal_text(
                r.generation as nat,
            ) + " completed_hwm="@ + crate::text::decimal_text(r.completed_hwm as nat)
        } else {
            "ERR expected primary, secondary, or status"@
        },
    }
}

impl Route {
    /// Carries out a command and gives the line to answer. The last generation selects no more.
    pub fn control(&mut self, line: &str) -> (answered: String)
        requires
            selects(crate::text::trim_text(line@)) is Some ==> old(self).generation < u64::MAX,
        ensures
            *final(self) == commanded(*old(self), crate::text::trim_text(line@)),
            answered@ == answer(*old(self), crate::text::trim_text(line@)),
    {
        let command: String = trim(line);
        let hwm: String = decimal(self.completed_hwm);
        let chosen: Option<bool> = if str_eq(command.as_str(), "primary") {
            Some(false)
        } else if str_eq(command.as_str(), "secondary") {
            Some(true)
        } else {
            None
        };
        match chosen {
            Some(secondary) => {
                let previous: bool = self.secondary;
                self.secondary = secondary;
                self.generation = self.generation + 1;
                let generation: String = decimal(self.generation);
                let head: String = join4(
                    "OK active=",
                    name_leaf(secondary),
                    " previous=",
                    name_leaf(previous),
                );
                let body: String = join4(
                    head.as_str(),
                    " generation=",
                    generation.as_str(),
                    " completed_hwm=",
                );
                join2(body.as_str(), hwm.as_str())
            },
            None => if str_eq(command.as_str(), "status") {
                let generation: String = decimal(self.generation);
                let head: String = join4(
                    "OK active=",
                    name_leaf(self.secondary),
                    " generation=",
                    generation.as_str(),
                );
                crate::text::join3(head.as_str(), " completed_hwm=", hwm.as_str())
            } else {
                String::from_str("ERR expected primary, secondary, or status")
            },
        }
    }

    /// Counts a request whose result the client has.
    pub fn complete(&mut self, request: Header)
        requires
            request.op != OP_HELLO ==> old(self).completed_hwm < u64::MAX,
        ensures
            *final(self) == completed(*old(self), request),
    {
        if request.op != OP_HELLO {
            self.completed_hwm = self.completed_hwm + 1;
        }
    }
}

/// The route after the result of a request went to the client; a greeting does not count.
pub open spec fn completed(r: Route, request: Header) -> Route {
    if request.op == OP_HELLO {
        r
    } else {
        Route { completed_hwm: (r.completed_hwm + 1) as u64, ..r }
    }
}

/// Why the results of the two leaves cannot go to the client.
pub open spec fn result_fault(request: Frame, primary: Frame, secondary: Frame) -> Option<Fault> {
    if primary.header_bytes@ != secondary.header_bytes@ || primary.payload@ != secondary.payload@ {
        Some(
            crate::error::bad_data(
                "mirror results diverged primary="@ + header_text(primary.header) + " secondary="@
                    + header_text(secondary.header),
            ),
        )
    } else if primary.header.request_id != request.header.request_id && request.header.op
        != OP_HELLO {
        Some(crate::error::bad_data("leaf result request id does not match the request"@))
    } else {
        None
    }
}

/// Checks the results of the two leaves.
pub fn check_results(request: &Frame, primary: &Frame, secondary: &Frame) -> (r: Result<(), Error>)
    ensures
        match r {
            Ok(_) => result_fault(*request, *primary, *secondary) is None,
            Err(e) => result_fault(*request, *primary, *secondary) == Some(e@),
        },
{
    if !primary.identical(secondary) {
        let one: String = describe(primary.header);
        let other: String = describe(secondary.header);
        return Err(
            invalid_data(
                join4(
                    "mirror results diverged primary=",
                    one.as_str(),
                    " secondary=",
                    other.as_str(),
                ),
            ),
        );
    }
    if primary.header.request_id != request.header.request_id && request.header.op != OP_HELLO {
        return Err(corrupt("leaf result request id does not match the request"));
    }
    Ok(())
}

/// Whether a request is the last.
pub fn is_last(request: &Frame) -> (yes: bool)
    ensures
        yes == (request.header.op == OP_EOF),
{
    request.header.op == OP_EOF
}

/// One turn of the gateway, once both leaves have answered: the result of the active leaf goes to the
/// client, and the request counts.
pub fn run_data(route: &mut Route, request: &Frame, primary: &Frame, secondary: &Frame) -> (r: Result<
    Vec<u8>,
    Error,
>)
    requires
        request.header.op != OP_HELLO ==> old(route).completed_hwm < u64::MAX,
    ensures
        match r {
            Ok(reply) => {
                &&& result_fault(*request, *primary, *secondary) is None
                &&& reply@ == if old(route).secondary {
                    secondary.wire()
                } else {
                    primary.wire()
                }
                &&& *final(route) == completed(*old(route), request.header)
            },
            Err(e) => {
                &&& result_fault(*request, *primary, *secondary) == Some(e@)
                &&& *final(route) == *old(route)
            },
        },
{
    match check_results(request, primary, secondary) {
        Ok(_) => {},
        Err(e) => {
            return Err(e);
        },
    }
    let chosen: &Frame = if route.secondary {
        secondary
    } else {
        primary
    };
    let mut reply: Vec<u8> = Vec::new();
    crate::bytes::append_bytes(&mut reply, chosen.header_bytes.as_slice());
    crate::bytes::append_bytes(&mut reply, chosen.payload.as_slice());
    proof {
        assert(reply@ =~= chosen.wire());
    }
    route.complete(request.header);
    Ok(reply)
}

/// The addresses of a gateway.
#[derive(Debug)]
pub struct Addresses {
    pub listen: String,
    pub primary: String,
    pub secondary: String,
    pub control: String,
}

/// What is wrong with the command line of a gateway.
pub open spec fn address_fault(count: nat) -> Option<Fault> {
    if count == 0 {
        Some(
            crate::error::bad_input(
                "usage: zcwal-route-gateway LISTEN PRIMARY SECONDARY CONTROL_LISTEN"@,
            ),
        )
    } else if count == 1 {
        Some(crate::error::bad_input("missing primary"@))
    } else if count == 2 {
        Some(crate::error::bad_input("missing secondary"@))
    } else if count == 3 {
        Some(crate::error::bad_input("missing control listen"@))
    } else if count > 4 {
        Some(crate::error::bad_input("too many arguments"@))
    } else {
        None
    }
}

/// The addresses of a gateway.
pub fn parse_addresses(args: &Vec<String>) -> (r: Result<Addresses, Error>)
    ensures
        match r {
            Ok(a) => {
                &&& address_fault(args@.len()) is None
                &&& a.listen@ == args@[0]@
                &&& a.primary@ == args@[1]@
                &&& a.secondary@ == args@[2]@
                &&& a.control@ == args@[3]@
            },
            Err(e) => address_fault(args@.len()) == Some(e@),
        },
{
    let count: usize = args.len();
    if count == 0 {
        return Err(
            invalid("usage: zcwal-route-gateway LISTEN PRIMARY SECONDARY CONTROL_LISTEN"),
        );
    }
    if count == 1 {
        return Err(invalid("missing primary"));
    }
    if count == 2 {
        return Err(invalid("missing secondary"));
    }
    if count == 3 {
        return Err(invalid("missing control listen"));
    }
    if count > 4 {
        return Err(invalid("too many arguments"));
    }
    Ok(
        Addresses {
            listen: args[0].clone(),
            primary: args[1].clone(),
            secondary: args[2].clone(),
            control: args[3].clone(),
        },
    )
}

/// What the client is sent does not depend on the leaf that is active.
pub proof fn law_a_switch_is_not_seen_by_the_client(request: Frame, primary: Frame, secondary: Frame)
    requires
        result_fault(request, primary, secondary) is None,
    ensures
        primary.wire() == secondary.wire(),
{
}

/// A command changes no count of completed requests.
pub proof fn law_a_command_completes_nothing(r: Route, command: Seq<char>)
    ensures
        commanded(r, command).completed_hwm == r.completed_hwm,
{
}

/// The route after some requests were completed in turn.
pub open spec fn after_requests(r: Route, requests: Seq<Header>) -> Route
    decreases requests.len(),
{
    if requests.len() == 0 {
        r
    } else {
        completed(after_requests(r, requests.drop_last()), requests.last())
    }
}

/// How many of some requests are no greetings.
pub open spec fn counted(requests: Seq<Header>) -> nat
    decreases requests.len(),
{
    if requests.len() == 0 {
        0
    } else {
        counted(requests.drop_last()) + if requests.last().op == OP_HELLO {
            0nat
        } else {
            1nat
        }
    }
}

/// The number of completed requests is that of the requests that are no greetings, and completing
/// them changes nothing else.
pub proof fn law_every_request_counts_once(r: Route, requests: Seq<Header>)
    requires
        r.completed_hwm + requests.len() <= u64::MAX,
    ensures
        after_requests(r, requests).completed_hwm == r.completed_hwm + counted(requests),
        after_requests(r, requests).secondary == r.secondary,
        after_requests(r, requests).generation == r.generation,
        counted(requests) <= requests.len(),
    decreases requests.len(),
{
    if requests.len() > 0 {
        law_every_request_counts_once(r, requests.drop_last());
    }
}

/// The fields of a frame header are read from its own bytes, the lowest byte of each number first, and
/// only a header with the right mark, length and operation is accepted.
pub proof fn law_headers_are_read_from_their_bytes(bytes: Seq<u8>)
    requires
        bytes.len() == 128,
    ensures
        header_due(bytes) matches Ok(h) ==> {
            &&& bytes.subrange(0, 8) == magic()
            &&& bytes[10] + bytes[11] * 0x100 == 128
            &&& h.op == bytes[12] + bytes[13] * 0x100
            &&& 1 <= h.op <= 12
            &&& h.payload_len == bytes[44] + bytes[45] * 0x100 + bytes[46] * 0x1_0000 + bytes[47]
                * 0x100_0000
            &&& h.sequence == bytes[48] + bytes[49] * 0x100 + bytes[50] * 0x1_0000 + bytes[51]
                * 0x100_0000 + bytes[52] * 0x1_0000_0000 + bytes[53] * 0x100_0000_0000 + bytes[54]
                * 0x1_0000_0000_0000 + bytes[55] * 0x100_0000_0000_0000
            &&& h.request_id == bytes[56] + bytes[57] * 0x100 + bytes[58] * 0x1_0000 + bytes[59]
                * 0x100_0000 + bytes[60] * 0x1_0000_0000 + bytes[61] * 0x100_0000_0000 + bytes[62]
                * 0x1_0000_0000_0000 + bytes[63] * 0x100_0000_0000_0000
        },
        header_due(bytes) is Err ==> bytes.subrange(0, 8) != magic() || bytes[10] + bytes[11] * 0x100
            != 128 || bytes[12] + bytes[13] * 0x100 == 0 || bytes[12] + bytes[13] * 0x100 > 12,
{
    crate::bytes::law_little_endian_values(bytes.subrange(10, 12));
    crate::bytes::law_little_endian_values(bytes.subrange(12, 14));
    crate::bytes::law_little_endian_values(bytes.subrange(44, 48));
    crate::bytes::law_little_endian_values(bytes.subrange(48, 56));
    crate::bytes::law_little_endian_values(bytes.subrange(56, 64));
    crate::bytes::lemma_byte_ranges();
    crate::bytes::lemma_le_value_bound(bytes.subrange(44, 48));
    crate::bytes::lemma_le_value_bound(bytes.subrange(48, 56));
    crate::bytes::lemma_le_value_bound(bytes.subrange(56, 64));
}

/// A payload follows a header only where the operation carries one: a write, a request or a result, alone
/// or in a batch. Then it has the length that the header names.
pub proof fn law_payloads_have_the_named_length(h: Header)
    ensures
        payload_due(h) == h.payload_len || payload_due(h) == 0,
        h.op == OP_WRITE_DESC || h.op == OP_RESULT || h.op == OP_WRITE_BATCH || h.op
            == OP_WRITE_EXTENT_BATCH ==> payload_due(h) == h.payload_len,
        h.op == OP_HELLO || h.op == OP_READ_DESC || h.op == OP_SYNC || h.op == OP_EOF ==> payload_due(
            h,
        ) == 0,
{
}

/// A command that names a leaf makes that leaf the active one and counts as a new generation; any other
/// command leaves the route as it is.
pub proof fn law_commands_select_the_named_leaf(r: Route, command: Seq<char>)
    requires
        r.generation < u64::MAX,
    ensures
        command == "primary"@ ==> !commanded(r, command).secondary,
        command == "secondary"@ ==> commanded(r, command).secondary,
        command == "primary"@ || command == "secondary"@ ==> commanded(r, command).generation
            == r.generation + 1,
        command != "primary"@ && command != "secondary"@ ==> commanded(r, command) == r,
{
    reveal_strlit("primary");
    reveal_strlit("secondary");
    assert("primary"@.len() != "secondary"@.len());
}

/// Results are passed on exactly where both leaves answered the same, under the request's own identifier
/// unless the request opened the connection.
pub proof fn law_only_equal_results_are_passed_on(request: Frame, primary: Frame, secondary: Frame)
    ensures
        result_fault(request, primary, secondary) is None <==> primary.wire() == secondary.wire()
            && primary.header_bytes@.len() == secondary.header_bytes@.len() && (
        primary.header.request_id == request.header.request_id || request.header.op == 1),
        primary.header_bytes@ == secondary.header_bytes@ && primary.payload@ == secondary.payload@
            ==> primary.wire() == secondary.wire(),
{
    if primary.wire() == secondary.wire() && primary.header_bytes@.len()
        == secondary.header_bytes@.len() {
        let n = primary.header_bytes@.len() as int;
        assert(primary.header_bytes@ =~= primary.wire().subrange(0, n));
        assert(secondary.header_bytes@ =~= secondary.wire().subrange(0, n));
        assert(primary.payload@ =~= primary.wire().skip(n));
        assert(secondary.payload@ =~= secondary.wire().skip(n));
    }
}

} // verus!
