//! The page that stands for a sequence number, where it lies, and how it is checked.
use vstd::prelude::*;
use vstd::string::*;

use crate::bytes::{bytes_eq, put_le};
use crate::error::{invalid_data, Error, ErrorKind};
use crate::text::{decimal, join2};

verus! {

pub const PAGE: usize = 4096;

pub const SLOTS: u64 = 4096;

/// The tag of a page: `ZCGLOBAL`.
pub open spec fn tag() -> Seq<u8> {
    seq![0x5au8, 0x43u8, 0x47u8, 0x4cu8, 0x4fu8, 0x42u8, 0x41u8, 0x4cu8]
}

/// The byte at a place behind the head of the page of a sequence number.
pub open spec fn filler(sequence: u64, index: int) -> u8 {
    ((((sequence as u8) * 131) % 256 + (index as u64 as u8)) % 256) as u8
}

/// The page of a sequence number: the number itself with the lowest byte first, the tag, and a
/// pattern.
pub open spec fn page_of(len: nat, sequence: u64) -> Seq<u8> {
    crate::bytes::le_bytes(sequence as nat, 8) + tag() + Seq::new(
        (len - 16) as nat,
        |i: int| filler(sequence, i),
    )
}

/// The byte at a place behind the head of the page of a sequence number.
pub fn fill_byte(sequence: u64, index: usize) -> (b: u8)
    ensures
        b == filler(sequence, index as int),
{
    (sequence as u8).wrapping_mul(131).wrapping_add(index as u64 as u8)
}

/// Makes the page of a sequence number.
pub fn fill(page: &mut [u8], sequence: u64)
    requires
        old(page)@.len() >= 16,
    ensures
        final(page)@ == page_of(old(page)@.len(), sequence),
{
    let n: usize = page.len();
    let ghost before = page@;
    proof {
        crate::bytes::lemma_byte_ranges();
        crate::bytes::lemma_le_bytes_len(sequence as nat, 8);
    }
    put_le(page, 0, 8, sequence);
    let ghost head = page@;
    page[8] = 0x5a;
    page[9] = 0x43;
    page[10] = 0x47;
    page[11] = 0x4c;
    page[12] = 0x4f;
    page[13] = 0x42;
    page[14] = 0x41;
    page[15] = 0x4c;
    let ghost due = page_of(n as nat, sequence);
    proof {
        assert forall|k: int| 0 <= k < 8 implies page@[k] == due[k] by {
            assert(head[k] == crate::bytes::le_bytes(sequence as nat, 8)[k]);
        }
    }
    let mut i: usize = 16;
    while i < n
        invariant
            16 <= i <= n,
            n == page@.len(),
            due == page_of(n as nat, sequence),
            due.len() == n,
            crate::bytes::le_bytes(sequence as nat, 8).len() == 8,
            forall|k: int| 0 <= k < i ==> (#[trigger] page@[k]) == due[k],
        decreases n - i,
    {
        page[i] = fill_byte(sequence, i - 16);
        i = i + 1;
    }
    proof {
        assert(page@ =~= due);
    }
}

/// Where the page of a sequence number lies.
pub open spec fn slot_of(sequence: int) -> int {
    (sequence % 4096) * 4096
}

/// Where the page of a sequence number lies.
pub fn slot_offset(sequence: u64) -> (offset: u64)
    ensures
        offset == slot_of(sequence as int),
{
    (sequence % SLOTS) * 4096
}

/// What is said of a page that is not what it should be.
pub open spec fn page_fault(what: Seq<char>, sequence: u64) -> (ErrorKind, Seq<char>) {
    crate::error::bad_data(what + crate::text::decimal_text(sequence as nat))
}

fn mismatch(what: &str, sequence: u64) -> (e: Error)
    ensures
        e@ == page_fault(what@, sequence),
{
    let digits: String = decimal(sequence);
    invalid_data(join2(what, digits.as_str()))
}

/// Checks how much of a page was written.
pub fn wrote_page(n: usize) -> (r: Result<(), Error>)
    ensures
        match r {
            Ok(_) => n == 4096,
            Err(e) => n != 4096 && e@ == (ErrorKind::WriteZero, "short write"@),
        },
{
    if n != PAGE {
        Err(Error::of(ErrorKind::WriteZero, "short write"))
    } else {
        Ok(())
    }
}

/// Checks how much of a page was read.
pub fn read_page(n: usize) -> (r: Result<(), Error>)
    ensures
        match r {
            Ok(_) => n == 4096,
            Err(e) => n != 4096 && e@ == (ErrorKind::UnexpectedEof, "short read"@),
        },
{
    if n != PAGE {
        Err(Error::of(ErrorKind::UnexpectedEof, "short read"))
    } else {
        Ok(())
    }
}

/// Checks the page that was read back after that of a sequence number was written.
pub fn write_verify(actual: &[u8], written: &[u8], sequence: u64) -> (r: Result<(), Error>)
    ensures
        match r {
            Ok(_) => actual@ == written@,
            Err(e) => actual@ != written@ && e@ == page_fault(
                "read-after-sync mismatch at sequence "@,
                sequence,
            ),
        },
{
    if bytes_eq(actual, written) {
        Ok(())
    } else {
        Err(mismatch("read-after-sync mismatch at sequence ", sequence))
    }
}

/// Checks the page of a sequence number that another node has written.
pub fn verify_page(actual: &[u8], sequence: u64) -> (r: Result<(), Error>)
    requires
        actual@.len() == 4096,
    ensures
        match r {
            Ok(_) => actual@ == page_of(4096, sequence),
            Err(e) => actual@ != page_of(4096, sequence) && e@ == page_fault(
                "handoff verification mismatch at sequence "@,
                sequence,
            ),
        },
{
    let mut expected: Vec<u8> = crate::bytes::filled(0, 4096);
    fill(expected.as_mut_slice(), sequence);
    if bytes_eq(actual, expected.as_slice()) {
        Ok(())
    } else {
        Err(mismatch("handoff verification mismatch at sequence ", sequence))
    }
}

/// Whether every byte is zero.
pub open spec fn is_zero(bytes: Seq<u8>) -> bool {
    forall|i: int| 0 <= i < bytes.len() ==> (#[trigger] bytes[i]) == 0
}

/// Checks that a page was never written; `what` says what its presence would mean.
pub fn verify_zero_page(actual: &[u8], what: &str, sequence: u64) -> (r: Result<(), Error>)
    ensures
        match r {
            Ok(_) => is_zero(actual@),
            Err(e) => !is_zero(actual@) && e@ == page_fault(what@, sequence),
        },
{
    let mut i: usize = 0;
    while i < actual.len()
        invariant
            i <= actual@.len(),
            forall|k: int| 0 <= k < i ==> (#[trigger] actual@[k]) == 0,
        decreases actual@.len() - i,
    {
        if actual[i] != 0 {
            return Err(mismatch(what, sequence));
        }
        i = i + 1;
    }
    Ok(())
}

/// The pages of two sequence numbers differ.
pub proof fn law_pages_differ(len: nat, a: u64, b: u64)
    requires
        len >= 16,
        a != b,
    ensures
        page_of(len, a) != page_of(len, b),
{
    crate::bytes::lemma_byte_ranges();
    crate::bytes::lemma_le_bytes_len(a as nat, 8);
    crate::bytes::lemma_le_bytes_len(b as nat, 8);
    crate::bytes::lemma_le_round_trip(a as nat, 8);
    crate::bytes::lemma_le_round_trip(b as nat, 8);
    assert(page_of(len, a).subrange(0, 8) =~= crate::bytes::le_bytes(a as nat, 8));
    assert(page_of(len, b).subrange(0, 8) =~= crate::bytes::le_bytes(b as nat, 8));
}

/// No page of a sequence number is one that was never written.
pub proof fn law_a_page_is_not_zero(len: nat, sequence: u64)
    requires
        len >= 16,
    ensures
        !is_zero(page_of(len, sequence)),
{
    crate::bytes::lemma_le_bytes_len(sequence as nat, 8);
    assert(page_of(len, sequence)[8] == 0x5a);
}

/// The sequence numbers of a workload lie in places of their own.
pub proof fn law_slots_are_distinct(a: int, b: int)
    requires
        0 <= a < 4096,
        0 <= b < 4096,
        a != b,
    ensures
        slot_of(a) != slot_of(b),
        slot_of(a) + 4096 <= slot_of(b) || slot_of(b) + 4096 <= slot_of(a),
{
}

/// A page begins with its sequence number, the lowest byte first, and the mark of the workload, and has
/// the length that it was asked for.
pub proof fn law_a_page_begins_with_its_sequence(len: nat, sequence: u64)
    requires
        len >= 16,
    ensures
        page_of(len, sequence).len() == len,
        crate::bytes::le_value(page_of(len, sequence).subrange(0, 8)) == sequence,
        page_of(len, sequence).subrange(8, 16) == tag(),
        forall|i: int|
            16 <= i < len ==> #[trigger] page_of(len, sequence)[i] == filler(sequence, i - 16),
{
    crate::bytes::lemma_byte_ranges();
    crate::bytes::lemma_le_bytes_len(sequence as nat, 8);
    crate::bytes::lemma_le_round_trip(sequence as nat, 8);
    let page = page_of(len, sequence);
    assert(page.subrange(0, 8) =~= crate::bytes::le_bytes(sequence as nat, 8));
    assert(page.subrange(8, 16) =~= tag());
}

/// The slots are taken in turn: the first sequence number has the first slot, each next one the slot
/// behind it, and the slots begin again once all of them were taken.
pub proof fn law_slots_are_taken_in_turn(sequence: int)
    requires
        0 <= sequence,
    ensures
        slot_of(0) == 0,
        slot_of(sequence + 4096) == slot_of(sequence),
        slot_of(sequence + 1) == slot_of(sequence) + 4096 || slot_of(sequence + 1) == 0,
        slot_of(sequence + 1) == 0 <==> slot_of(sequence) == 4095 * 4096,
{
}

} // verus!
