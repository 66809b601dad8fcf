//! Unsigned integers as byte strings in either byte order.
use vstd::prelude::*;

verus! {

/// The number that `s` writes with its most significant byte first.
pub open spec fn be_value(s: Seq<u8>) -> nat
    decreases s.len(),
{
    if s.len() == 0 {
        0
    } else {
        be_value(s.drop_last()) * 256 + s.last() as nat
    }
}

/// The number that `s` writes with its least significant byte first.
pub open spec fn le_value(s: Seq<u8>) -> nat
    decreases s.len(),
{
    if s.len() == 0 {
        0
    } else {
        s[0] as nat + 256 * le_value(s.drop_first())
    }
}

/// The last `n` base-256 digits of `v`, most significant first.
pub open spec fn be_bytes(v: nat, n: nat) -> Seq<u8>
    decreases n,
{
    if n == 0 {
        Seq::empty()
    } else {
        be_bytes(v / 256, (n - 1) as nat).push((v % 256) as u8)
    }
}

/// The last `n` base-256 digits of `v`, least significant first.
pub open spec fn le_bytes(v: nat, n: nat) -> Seq<u8>
    decreases n,
{
    if n == 0 {
        Seq::empty()
    } else {
        seq![(v % 256) as u8] + le_bytes(v / 256, (n - 1) as nat)
    }
}

/// `s` with the bytes from `at` on replaced by `part`.
pub open spec fn splice(s: Seq<u8>, at: int, part: Seq<u8>) -> Seq<u8> {
    Seq::new(
        s.len(),
        |i: int|
            if at <= i < at + part.len() {
                part[i - at]
            } else {
                s[i]
            },
    )
}

/// One more than the largest number that `n` bytes can write.
pub open spec fn byte_range(n: nat) -> nat
    decreases n,
{
    if n == 0 {
        1
    } else {
        256 * byte_range((n - 1) as nat)
    }
}

/// `be_bytes` always yields as many bytes as asked for.
pub proof fn lemma_be_bytes_len(v: nat, n: nat)
    ensures
        be_bytes(v, n).len() == n,
    decreases n,
{
    if n > 0 {
        lemma_be_bytes_len(v / 256, (n - 1) as nat);
    }
}

/// `le_bytes` always yields as many bytes as asked for.
pub proof fn lemma_le_bytes_len(v: nat, n: nat)
    ensures
        le_bytes(v, n).len() == n,
    decreases n,
{
    if n > 0 {
        lemma_le_bytes_len(v / 256, (n - 1) as nat);
    }
}

/// Reading back a number written most significant byte first gives that number.
pub proof fn lemma_be_round_trip(v: nat, n: nat)
    requires
        v < byte_range(n),
    ensures
        be_value(be_bytes(v, n)) == v,
    decreases n,
{
    if n > 0 {
        lemma_be_round_trip(v / 256, (n - 1) as nat);
        let s = be_bytes(v, n);
        assert(s.drop_last() =~= be_bytes(v / 256, (n - 1) as nat));
        assert(s.last() == (v % 256) as u8);
    }
}

/// Reading back a number written least significant byte first gives that number.
pub proof fn lemma_le_round_trip(v: nat, n: nat)
    requires
        v < byte_range(n),
    ensures
        le_value(le_bytes(v, n)) == v,
    decreases n,
{
    if n > 0 {
        lemma_le_round_trip(v / 256, (n - 1) as nat);
        let s = le_bytes(v, n);
        assert(s.drop_first() =~= le_bytes(v / 256, (n - 1) as nat));
    }
}

/// A byte string of length `n` writes a number below `byte_range(n)`.
pub proof fn lemma_be_value_bound(s: Seq<u8>)
    ensures
        be_value(s) < byte_range(s.len()),
    decreases s.len(),
{
    if s.len() > 0 {
        lemma_be_value_bound(s.drop_last());
    }
}

/// A byte string of length `n` writes a number below `byte_range(n)`.
pub proof fn lemma_le_value_bound(s: Seq<u8>)
    ensures
        le_value(s) < byte_range(s.len()),
    decreases s.len(),
{
    if s.len() > 0 {
        lemma_le_value_bound(s.drop_first());
    }
}

/// The values of `byte_range` for the widths that this crate reads and writes.
pub proof fn lemma_byte_ranges()
    ensures
        byte_range(1) == 0x100,
        byte_range(2) == 0x1_0000,
        byte_range(3) == 0x100_0000,
        byte_range(4) == 0x1_0000_0000,
        byte_range(8) == 0x1_0000_0000_0000_0000,
{
    reveal_with_fuel(byte_range, 9);
}

proof fn lemma_byte_range_mono(a: nat, b: nat)
    requires
        a <= b,
    ensures
        1 <= byte_range(a) <= byte_range(b),
    decreases b,
{
    if a < b {
        lemma_byte_range_mono(a, (b - 1) as nat);
    } else if a > 0 {
        lemma_byte_range_mono((a - 1) as nat, (a - 1) as nat);
    }
}

/// Reads the `n` bytes at `at`, most significant first.
pub fn get_be(buf: &[u8], at: usize, n: usize) -> (v: u64)
    requires
        at + n <= buf@.len(),
        n <= 8,
    ensures
        v == be_value(buf@.subrange(at as int, at + n)),
{
    let len: usize = buf.len();
    let mut v: u64 = 0;
    let mut i: usize = 0;
    while i < n
        invariant
            at + n <= len == buf@.len(),
            i <= n <= 8,
            v == be_value(buf@.subrange(at as int, at + i)),
        decreases n - i,
    {
        proof {
            let s = buf@.subrange(at as int, at + i);
            let t = buf@.subrange(at as int, at + i + 1);
            assert(t.drop_last() =~= s);
            lemma_be_value_bound(t);
            lemma_byte_range_mono((i + 1) as nat, 8);
            lemma_byte_ranges();
        }
        v = v * 256 + buf[at + i] as u64;
        i = i + 1;
    }
    v
}

/// Reads the `n` bytes at `at`, least significant first.
pub fn get_le(buf: &[u8], at: usize, n: usize) -> (v: u64)
    requires
        at + n <= buf@.len(),
        n <= 8,
    ensures
        v == le_value(buf@.subrange(at as int, at + n)),
{
    let len: usize = buf.len();
    let mut v: u64 = 0;
    let mut i: usize = n;
    while i > 0
        invariant
            at + n <= len == buf@.len(),
            i <= n <= 8,
            v == le_value(buf@.subrange(at + i, at + n)),
        decreases i,
    {
        i = i - 1;
        proof {
            let s = buf@.subrange(at + i + 1, at + n);
            let t = buf@.subrange(at + i, at + n);
            assert(t.drop_first() =~= s);
            lemma_le_value_bound(t);
            lemma_byte_range_mono((n - i) as nat, 8);
            lemma_byte_ranges();
        }
        v = v * 256 + buf[at + i] as u64;
    }
    v
}

/// Writes the last `n` base-256 digits of `v` at `at`, most significant first.
pub fn put_be(buf: &mut [u8], at: usize, n: usize, v: u64)
    requires
        at + n <= old(buf)@.len(),
    ensures
        final(buf)@ == splice(old(buf)@, at as int, be_bytes(v as nat, n as nat)),
{
    let len: usize = buf.len();
    let ghost before = buf@;
    let mut rest: u64 = v;
    let mut i: usize = n;
    proof {
        lemma_be_bytes_len(v as nat, n as nat);
        assert(be_bytes(rest as nat, i as nat) + Seq::<u8>::empty() =~= be_bytes(
            v as nat,
            n as nat,
        ));
    }
    let ghost mut tail: Seq<u8> = Seq::empty();
    while i > 0
        invariant
            i <= n,
            at + n <= len == before.len(),
            buf@.len() == before.len(),
            tail.len() == n - i,
            be_bytes(rest as nat, i as nat) + tail == be_bytes(v as nat, n as nat),
            buf@ == splice(before, at + i, tail),
        decreases i,
    {
        i = i - 1;
        let b: u8 = (rest % 256) as u8;
        buf[at + i] = b;
        proof {
            let whole = be_bytes(rest as nat, (i + 1) as nat);
            tail = seq![b] + tail;
            lemma_be_bytes_len((rest / 256) as nat, i as nat);
            assert(be_bytes((rest / 256) as nat, i as nat) + tail =~= whole + tail.drop_first());
            assert(buf@ =~= splice(before, at + i, tail));
        }
        rest = rest / 256;
    }
    proof {
        assert(tail =~= be_bytes(v as nat, n as nat));
    }
}

/// Writes the last `n` base-256 digits of `v` at `at`, least significant first.
pub fn put_le(buf: &mut [u8], at: usize, n: usize, v: u64)
    requires
        at + n <= old(buf)@.len(),
    ensures
        final(buf)@ == splice(old(buf)@, at as int, le_bytes(v as nat, n as nat)),
{
    let len: usize = buf.len();
    let ghost before = buf@;
    let mut rest: u64 = v;
    let mut i: usize = 0;
    let ghost mut head: Seq<u8> = Seq::empty();
    proof {
        lemma_le_bytes_len(v as nat, n as nat);
        assert(head + le_bytes(rest as nat, n as nat) =~= le_bytes(v as nat, n as nat));
        assert(buf@ =~= splice(before, at as int, head));
    }
    while i < n
        invariant
            i <= n,
            at + n <= len == before.len(),
            buf@.len() == before.len(),
            head.len() == i,
            head + le_bytes(rest as nat, (n - i) as nat) == le_bytes(v as nat, n as nat),
            buf@ == splice(before, at as int, head),
        decreases n - i,
    {
        let b: u8 = (rest % 256) as u8;
        buf[at + i] = b;
        proof {
            let whole = le_bytes(rest as nat, (n - i) as nat);
            let old_head = head;
            head = head.push(b);
            assert(head + le_bytes((rest / 256) as nat, (n - i - 1) as nat) =~= old_head + whole);
            assert(buf@ =~= splice(before, at as int, head));
        }
        i = i + 1;
        rest = rest / 256;
    }
    proof {
        assert(head =~= le_bytes(v as nat, n as nat));
    }
}

/// What was written most significant byte first at a place is read back from that place,
/// and the bytes before and after it are as they were.
pub proof fn law_put_get_be(s: Seq<u8>, at: int, n: nat, v: nat)
    requires
        0 <= at,
        at + n <= s.len(),
        v < byte_range(n),
    ensures
        be_value(splice(s, at, be_bytes(v, n)).subrange(at, at + n)) == v,
        forall|i: int|
            0 <= i < s.len() && !(at <= i < at + n) ==> #[trigger] splice(
                s,
                at,
                be_bytes(v, n),
            )[i] == s[i],
{
    lemma_be_bytes_len(v, n);
    lemma_be_round_trip(v, n);
    assert(splice(s, at, be_bytes(v, n)).subrange(at, at + n) =~= be_bytes(v, n));
}

/// What was written least significant byte first at a place is read back from that place,
/// and the bytes before and after it are as they were.
pub proof fn law_put_get_le(s: Seq<u8>, at: int, n: nat, v: nat)
    requires
        0 <= at,
        at + n <= s.len(),
        v < byte_range(n),
    ensures
        le_value(splice(s, at, le_bytes(v, n)).subrange(at, at + n)) == v,
        forall|i: int|
            0 <= i < s.len() && !(at <= i < at + n) ==> #[trigger] splice(
                s,
                at,
                le_bytes(v, n),
            )[i] == s[i],
{
    lemma_le_bytes_len(v, n);
    lemma_le_round_trip(v, n);
    assert(splice(s, at, le_bytes(v, n)).subrange(at, at + n) =~= le_bytes(v, n));
}

/// Whether two byte strings are equal.
pub fn bytes_eq(a: &[u8], b: &[u8]) -> (same: bool)
    ensures
        same == (a@ == b@),
{
    if a.len() != b.len() {
        return false;
    }
    let mut i: usize = 0;
    while i < a.len()
        invariant
            a@.len() == b@.len(),
            i <= a@.len(),
            forall|k: int| 0 <= k < i ==> a@[k] == b@[k],
        decreases a@.len() - i,
    {
        if a[i] != b[i] {
            return false;
        }
        i = i + 1;
    }
    proof {
        assert(a@ =~= b@);
    }
    true
}

/// A copy of `from[start..end]`.
pub fn copy_range(from: &[u8], start: usize, end: usize) -> (v: Vec<u8>)
    requires
        start <= end <= from@.len(),
    ensures
        v@ == from@.subrange(start as int, end as int),
{
    let mut v: Vec<u8> = Vec::new();
    let mut i: usize = start;
    while i < end
        invariant
            start <= i <= end <= from@.len(),
            v@ == from@.subrange(start as int, i as int),
        decreases end - i,
    {
        v.push(from[i]);
        proof {
            assert(v@ =~= from@.subrange(start as int, i + 1));
        }
        i = i + 1;
    }
    v
}

/// `n` bytes of the same value.
pub fn filled(value: u8, n: usize) -> (v: Vec<u8>)
    ensures
        v@ == Seq::new(n as nat, |i: int| value),
{
    let mut v: Vec<u8> = Vec::new();
    let mut i: usize = 0;
    while i < n
        invariant
            i <= n,
            v@ == Seq::new(i as nat, |k: int| value),
        decreases n - i,
    {
        v.push(value);
        proof {
            assert(v@ =~= Seq::new((i + 1) as nat, |k: int| value));
        }
        i = i + 1;
    }
    v
}

/// Appends `part` to `buf`.
pub fn append_bytes(buf: &mut Vec<u8>, part: &[u8])
    ensures
        final(buf)@ == old(buf)@ + part@,
{
    let ghost before = buf@;
    let mut i: usize = 0;
    while i < part.len()
        invariant
            i <= part@.len(),
            buf@ == before + part@.subrange(0, i as int),
        decreases part@.len() - i,
    {
        buf.push(part[i]);
        proof {
            assert(buf@ =~= before + part@.subrange(0, i + 1));
        }
        i = i + 1;
    }
    proof {
        assert(part@.subrange(0, i as int) =~= part@);
    }
}

/// A number in big-endian order has its highest byte first.
pub proof fn law_big_endian_values(s: Seq<u8>)
    ensures
        s.len() == 1 ==> be_value(s) == s[0],
        s.len() == 2 ==> be_value(s) == s[0] * 0x100 + s[1],
        s.len() == 3 ==> be_value(s) == s[0] * 0x1_0000 + s[1] * 0x100 + s[2],
        s.len() == 4 ==> be_value(s) == s[0] * 0x100_0000 + s[1] * 0x1_0000 + s[2] * 0x100 + s[3],
        s.len() == 8 ==> be_value(s) == s[0] * 0x100_0000_0000_0000 + s[1] * 0x1_0000_0000_0000
            + s[2] * 0x100_0000_0000 + s[3] * 0x1_0000_0000 + s[4] * 0x100_0000 + s[5] * 0x1_0000
            + s[6] * 0x100 + s[7],
{
    reveal_with_fuel(be_value, 9);
}

/// A number in little-endian order has its lowest byte first.
pub proof fn law_little_endian_values(s: Seq<u8>)
    ensures
        s.len() == 1 ==> le_value(s) == s[0],
        s.len() == 2 ==> le_value(s) == s[0] + s[1] * 0x100,
        s.len() == 4 ==> le_value(s) == s[0] + s[1] * 0x100 + s[2] * 0x1_0000 + s[3] * 0x100_0000,
        s.len() == 8 ==> le_value(s) == s[0] + s[1] * 0x100 + s[2] * 0x1_0000 + s[3] * 0x100_0000
            + s[4] * 0x1_0000_0000 + s[5] * 0x100_0000_0000 + s[6] * 0x1_0000_0000_0000 + s[7]
            * 0x100_0000_0000_0000,
{
    reveal_with_fuel(le_value, 9);
}

} // verus!
