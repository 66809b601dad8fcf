//! The smoke test of a cutover: pages that are written while the route changes.
use vstd::prelude::*;
use vstd::string::*;

use crate::bytes::{bytes_eq, put_le};
use crate::error::{invalid, invalid_data, Error, ErrorKind};
use crate::text::{decimal, join2, number_reason, parse_unsigned, starts_with, trim};
use crate::workload::page::fill_byte;
#[allow(unused_imports)]
use crate::error::Fault;

verus! {

/// The page of a sequence number: the number with the lowest byte first, and a pattern.
pub open spec fn page_of(len: nat, sequence: u64) -> Seq<u8> {
    crate::bytes::le_bytes(sequence as nat, 8) + Seq::new(
        (len - 8) as nat,
        |i: int| crate::workload::page::filler(sequence, i),
    )
}

/// Makes the page of a sequence number.
pub fn fill(page: &mut [u8], sequence: u64)
    requires
        old(page)@.len() >= 8,
    ensures
        final(page)@ == page_of(old(page)@.len(), sequence),
{
    let n: usize = page.len();
    proof {
        crate::bytes::lemma_byte_ranges();
        crate::bytes::lemma_le_bytes_len(sequence as nat, 8);
    }
    put_le(page, 0, 8, sequence);
    let ghost due = page_of(n as nat, sequence);
    proof {
        assert forall|k: int| 0 <= k < 8 implies page@[k] == due[k] by {
            assert(page@[k] == crate::bytes::le_bytes(sequence as nat, 8)[k]);
        }
    }
    let mut i: usize = 8;
    while i < n
        invariant
            8 <= i <= n,
            n == page@.len(),
            due == page_of(n as nat, sequence),
            due.len() == n,
            crate::bytes::le_bytes(sequence as nat, 8).len() == 8,
            forall|k: int| 0 <= k < i ==> (#[trigger] page@[k]) == due[k],
        decreases n - i,
    {
        page[i] = fill_byte(sequence, i - 8);
        i = i + 1;
    }
    proof {
        assert(page@ =~= due);
    }
}

/// Where the page of a sequence number lies.
pub fn slot_offset(sequence: u64) -> (offset: u64)
    ensures
        offset == (sequence % 1024) * 4096,
{
    (sequence % 1024) * 4096
}

/// Checks the page that was read back after that of a sequence number was written.
pub fn check_read_back(actual: &[u8], written: &[u8], sequence: u64) -> (r: Result<(), Error>)
    ensures
        match r {
            Ok(_) => actual@ == written@,
            Err(e) => actual@ != written@ && e@ == crate::error::bad_data(
                "read-after-sync mismatch at acknowledged sequence "@ + crate::text::decimal_text(
                    sequence as nat,
                ),
            ),
        },
{
    if bytes_eq(actual, written) {
        Ok(())
    } else {
        let digits: String = decimal(sequence);
        Err(
            invalid_data(
                join2("read-after-sync mismatch at acknowledged sequence ", digits.as_str()),
            ),
        )
    }
}

/// Checks what was answered when the route was to change.
pub fn switch(response: &str) -> (r: Result<String, Error>)
    ensures
        match r {
            Ok(s) => crate::text::begins_with(response@, "OK active=secondary"@) && s@
                == crate::text::trim_text(response@),
            Err(e) => !crate::text::begins_with(response@, "OK active=secondary"@) && e@ == (
                ErrorKind::Other,
                "route switch failed: "@ + crate::text::trim_text(response@),
            ),
        },
{
    let answer: String = trim(response);
    if starts_with(response, "OK active=secondary") {
        Ok(answer)
    } else {
        Err(Error::new(ErrorKind::Other, join2("route switch failed: ", answer.as_str())))
    }
}

/// Whether the route changes after a sequence number.
pub fn switches_after(sequence: u64, operations: u64) -> (yes: bool)
    ensures
        yes == (sequence == operations / 2),
{
    sequence == operations / 2
}

/// What a smoke test works on.
#[derive(Debug)]
pub struct Cutover {
    pub target: String,
    pub control: String,
    pub operations: u64,
}

/// What is meant by [`Cutover`].
pub struct CutoverView {
    pub target: Seq<char>,
    pub control: Seq<char>,
    pub operations: u64,
}

impl View for Cutover {
    type V = CutoverView;

    open spec fn view(&self) -> CutoverView {
        CutoverView {
            target: self.target@,
            control: self.control@,
            operations: self.operations,
        }
    }
}

/// An item of a command line, or what is usual.
pub open spec fn item_or(args: Seq<Seq<char>>, i: int, usual: Seq<char>) -> Seq<char> {
    if i < args.len() {
        args[i]
    } else {
        usual
    }
}

/// An item of a command line, or what is usual.
pub fn item(args: &Vec<String>, i: usize, usual: &str) -> (s: String)
    ensures
        s@ == item_or(crate::text::texts(args@), i as int, usual@),
{
    if i < args.len() {
        args[i].clone()
    } else {
        String::from_str(usual)
    }
}

/// What a command line asks for.
pub open spec fn cutover_due(args: Seq<Seq<char>>) -> Result<CutoverView, Fault> {
    let text = item_or(args, 2, "4096"@);
    match crate::text::unsigned_value(text, u64::MAX as nat) {
        None => Err(crate::error::bad_input(crate::text::number_fault(text, u64::MAX as nat))),
        Some(n) => if n < 4 || args.len() > 3 {
            Err(
                crate::error::bad_input(
                    "usage: zcnblk-live-cutover-smoke [TARGET] [CONTROL_ADDR] [OPERATIONS>=4]"@,
                ),
            )
        } else {
            Ok(
                CutoverView {
                    target: item_or(args, 0, "/dev/zcnblk0"@),
                    control: item_or(args, 1, "127.0.0.1:29110"@),
                    operations: n as u64,
                },
            )
        },
    }
}

/// What a command line asks for.
pub fn parse_cutover(args: &Vec<String>) -> (r: Result<Cutover, Error>)
    ensures
        match r {
            Ok(c) => cutover_due(crate::text::texts(args@)) == Ok::<CutoverView, Fault>(c@),
            Err(e) => cutover_due(crate::text::texts(args@)) == Err::<CutoverView, Fault>(e@),
        },
{
    let text: String = item(args, 2, "4096");
    let operations: u64 = match parse_unsigned(text.as_str(), u64::MAX) {
        Some(n) => n,
        None => {
            return Err(invalid(number_reason(text.as_str(), u64::MAX)));
        },
    };
    if operations < 4 || args.len() > 3 {
        return Err(
            invalid("usage: zcnblk-live-cutover-smoke [TARGET] [CONTROL_ADDR] [OPERATIONS>=4]"),
        );
    }
    Ok(
        Cutover {
            target: item(args, 0, "/dev/zcnblk0"),
            control: item(args, 1, "127.0.0.1:29110"),
            operations,
        },
    )
}

/// The pages of two sequence numbers differ.
pub proof fn law_pages_differ(len: nat, a: u64, b: u64)
    requires
        len >= 8,
        a != b,
    ensures
        page_of(len, a) != page_of(len, b),
{
    crate::bytes::lemma_byte_ranges();
    crate::bytes::lemma_le_bytes_len(a as nat, 8);
    crate::bytes::lemma_le_bytes_len(b as nat, 8);
    crate::bytes::lemma_le_round_trip(a as nat, 8);
    crate::bytes::lemma_le_round_trip(b as nat, 8);
    assert(page_of(len, a).subrange(0, 8) =~= crate::bytes::le_bytes(a as nat, 8));
    assert(page_of(len, b).subrange(0, 8) =~= crate::bytes::le_bytes(b as nat, 8));
}

/// A page begins with its sequence number, the lowest byte first, and has the length that it was asked
/// for.
pub proof fn law_a_page_begins_with_its_sequence(len: nat, sequence: u64)
    requires
        len >= 8,
    ensures
        page_of(len, sequence).len() == len,
        crate::bytes::le_value(page_of(len, sequence).subrange(0, 8)) == sequence,
{
    crate::bytes::lemma_byte_ranges();
    crate::bytes::lemma_le_bytes_len(sequence as nat, 8);
    crate::bytes::lemma_le_round_trip(sequence as nat, 8);
    assert(page_of(len, sequence).subrange(0, 8) =~= crate::bytes::le_bytes(sequence as nat, 8));
}

/// The arguments are taken in their order, and the usual ones stand in for those that are missing; at
/// least four operations are asked for, and no more than three arguments are taken.
pub proof fn law_arguments_are_taken_in_order(args: Seq<Seq<char>>)
    ensures
        cutover_due(args) matches Ok(c) ==> {
            &&& args.len() <= 3
            &&& c.operations >= 4
            &&& args.len() > 0 ==> c.target == args[0]
            &&& args.len() > 1 ==> c.control == args[1]
            &&& args.len() > 2 ==> crate::text::unsigned_value(args[2], u64::MAX as nat) == Some(
                c.operations as nat,
            )
        },
{
}

} // verus!
