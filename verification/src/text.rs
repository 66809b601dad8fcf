//! Characters, decimal numbers and the string operations that argument and protocol parsing need.
use vstd::prelude::*;
use vstd::string::*;

verus! {

/// `String::push` of std: appends one character to the end of the string.
pub assume_specification[ String::push ](s: &mut String, ch: char)
    ensures
        final(s)@ == old(s)@.push(ch),
;

/// The texts that a list of strings holds.
pub open spec fn texts(v: Seq<String>) -> Seq<Seq<char>> {
    Seq::new(v.len(), |i: int| v[i]@)
}

/// Whether `c` is one of `0` to `9`.
pub open spec fn is_digit(c: char) -> bool {
    '0' <= c <= '9'
}

/// Whether every character of `s` is one of `0` to `9`.
pub open spec fn all_digits(s: Seq<char>) -> bool {
    forall|i: int| 0 <= i < s.len() ==> is_digit(#[trigger] s[i])
}

/// The number that the decimal digits `s` write.
pub open spec fn digits_value(s: Seq<char>) -> nat
    decreases s.len(),
{
    if s.len() == 0 {
        0
    } else {
        digits_value(s.drop_last()) * 10 + (s.last() as nat - '0' as nat) as nat
    }
}

/// `s` without the plus sign that may stand before the digits of a number.
pub open spec fn unsigned_part(s: Seq<char>) -> Seq<char> {
    if s.len() > 1 && s[0] == '+' {
        s.drop_first()
    } else {
        s
    }
}

/// The number that `s` writes in decimal, if it writes one that is at most `max`.
pub open spec fn unsigned_value(s: Seq<char>, max: nat) -> Option<nat> {
    let d = unsigned_part(s);
    if d.len() > 0 && all_digits(d) && digits_value(d) <= max {
        Some(digits_value(d))
    } else {
        None
    }
}

/// The character that writes the digit `d`.
pub open spec fn digit_char(d: nat) -> char {
    ('0' as nat + d) as char
}

/// `n` in decimal, without leading zeros.
pub open spec fn decimal_text(n: nat) -> Seq<char>
    decreases n,
{
    if n < 10 {
        seq![digit_char(n)]
    } else {
        decimal_text(n / 10).push(digit_char(n % 10))
    }
}

/// `n` in decimal, padded with zeros on the left to at least `width` characters.
pub open spec fn padded_text(n: nat, width: nat) -> Seq<char> {
    let t = decimal_text(n);
    if t.len() < width {
        Seq::new((width - t.len()) as nat, |i: int| '0') + t
    } else {
        t
    }
}

/// Whether `c` is white space (the Unicode property `White_Space`).
pub open spec fn is_white(c: char) -> bool {
    let u = c as u32;
    ||| 0x09 <= u <= 0x0d
    ||| u == 0x20
    ||| u == 0x85
    ||| u == 0xa0
    ||| u == 0x1680
    ||| 0x2000 <= u <= 0x200a
    ||| u == 0x2028
    ||| u == 0x2029
    ||| u == 0x202f
    ||| u == 0x205f
    ||| u == 0x3000
}

/// `s` without white space at its start.
pub open spec fn trim_start_text(s: Seq<char>) -> Seq<char>
    decreases s.len(),
{
    if s.len() > 0 && is_white(s[0]) {
        trim_start_text(s.drop_first())
    } else {
        s
    }
}

/// `s` without white space at its end.
pub open spec fn trim_end_text(s: Seq<char>) -> Seq<char>
    decreases s.len(),
{
    if s.len() > 0 && is_white(s.last()) {
        trim_end_text(s.drop_last())
    } else {
        s
    }
}

/// `s` without white space at either end.
pub open spec fn trim_text(s: Seq<char>) -> Seq<char> {
    trim_end_text(trim_start_text(s))
}

/// `c` with an ASCII capital made small.
pub open spec fn lower_char(c: char) -> char {
    if 'A' <= c <= 'Z' {
        (c as u32 + 32) as char
    } else {
        c
    }
}

/// `s` with its ASCII capitals made small.
pub open spec fn lower_text(s: Seq<char>) -> Seq<char> {
    Seq::new(s.len(), |i: int| lower_char(s[i]))
}

/// The pieces of `s` between the occurrences of `sep`; one more piece than occurrences.
pub open spec fn split_text(s: Seq<char>, sep: char) -> Seq<Seq<char>>
    decreases s.len(),
{
    if s.len() == 0 {
        seq![Seq::empty()]
    } else {
        let head = split_text(s.drop_last(), sep);
        if s.last() == sep {
            head.push(Seq::empty())
        } else {
            head.drop_last().push(head.last().push(s.last()))
        }
    }
}

/// Whether `p` stands at the start of `s`.
pub open spec fn begins_with(s: Seq<char>, p: Seq<char>) -> bool {
    p.len() <= s.len() && s.subrange(0, p.len() as int) == p
}

/// Whether `p` stands at the end of `s`.
pub open spec fn finishes_with(s: Seq<char>, p: Seq<char>) -> bool {
    p.len() <= s.len() && s.subrange(s.len() - p.len(), s.len() as int) == p
}

/// `s` with every leading copy of the non-empty text `p` taken away.
pub open spec fn without_leading(s: Seq<char>, p: Seq<char>) -> Seq<char>
    decreases s.len(),
{
    if p.len() > 0 && begins_with(s, p) {
        without_leading(s.subrange(p.len() as int, s.len() as int), p)
    } else {
        s
    }
}

/// Whether `p` stands somewhere in `s`.
pub open spec fn has_part(s: Seq<char>, p: Seq<char>) -> bool {
    exists|i: int| 0 <= i <= s.len() - p.len() && #[trigger] s.subrange(i, i + p.len()) == p
}

/// The texts of `parts` in turn, with `sep` between neighbours.
pub open spec fn join_text(parts: Seq<Seq<char>>, sep: Seq<char>) -> Seq<char>
    decreases parts.len(),
{
    if parts.len() == 0 {
        Seq::empty()
    } else if parts.len() == 1 {
        parts[0]
    } else {
        join_text(parts.drop_last(), sep) + sep + parts.last()
    }
}

/// The characters of a string.
pub fn chars_of(s: &str) -> (v: Vec<char>)
    ensures
        v@ == s@,
{
    let n: usize = s.unicode_len();
    let mut v: Vec<char> = Vec::new();
    for c in it: s.chars()
        invariant
            n == s@.len(),
            it.seq() == s@,
            v@ == s@.subrange(0, it.index() as int),
    {
        v.push(c);
        proof {
            assert(v@ =~= s@.subrange(0, it.index() + 1));
        }
    }
    proof {
        assert(v@ =~= s@);
    }
    v
}

/// The string that consists of `chars[start..end]`.
pub fn string_between(chars: &[char], start: usize, end: usize) -> (s: String)
    requires
        start <= end <= chars@.len(),
    ensures
        s@ == chars@.subrange(start as int, end as int),
{
    let mut s: String = String::new();
    let mut i: usize = start;
    while i < end
        invariant
            start <= i <= end <= chars@.len(),
            s@ == chars@.subrange(start as int, i as int),
        decreases end - i,
    {
        s.push(chars[i]);
        proof {
            assert(s@ =~= chars@.subrange(start as int, i + 1));
        }
        i = i + 1;
    }
    s
}

/// Whether two strings are equal.
pub fn str_eq(a: &str, b: &str) -> (same: bool)
    ensures
        same == (a@ == b@),
{
    let x: Vec<char> = chars_of(a);
    let y: Vec<char> = chars_of(b);
    if x.len() != y.len() {
        return false;
    }
    let mut i: usize = 0;
    while i < x.len()
        invariant
            x@ == a@,
            y@ == b@,
            x@.len() == y@.len(),
            i <= x@.len(),
            forall|k: int| 0 <= k < i ==> x@[k] == y@[k],
        decreases x@.len() - i,
    {
        if x[i] != y[i] {
            return false;
        }
        i = i + 1;
    }
    proof {
        assert(x@ =~= y@);
    }
    true
}

/// Whether `s` begins with `p`.
pub fn starts_with(s: &str, p: &str) -> (yes: bool)
    ensures
        yes == begins_with(s@, p@),
{
    let x: Vec<char> = chars_of(s);
    let y: Vec<char> = chars_of(p);
    if y.len() > x.len() {
        return false;
    }
    let mut i: usize = 0;
    while i < y.len()
        invariant
            x@ == s@,
            y@ == p@,
            y@.len() <= x@.len(),
            i <= y@.len(),
            forall|k: int| 0 <= k < i ==> x@[k] == y@[k],
        decreases y@.len() - i,
    {
        if x[i] != y[i] {
            proof {
                assert(s@.subrange(0, p@.len() as int)[i as int] != p@[i as int]);
            }
            return false;
        }
        i = i + 1;
    }
    proof {
        assert(s@.subrange(0, p@.len() as int) =~= p@);
    }
    true
}

/// Whether `s` ends with `p`.
pub fn ends_with(s: &str, p: &str) -> (yes: bool)
    ensures
        yes == finishes_with(s@, p@),
{
    let x: Vec<char> = chars_of(s);
    let y: Vec<char> = chars_of(p);
    if y.len() > x.len() {
        return false;
    }
    let len: usize = x.len();
    let skip: usize = len - y.len();
    let mut i: usize = 0;
    while i < y.len()
        invariant
            x@ == s@,
            y@ == p@,
            skip + y@.len() == x@.len() == len,
            i <= y@.len(),
            forall|k: int| 0 <= k < i ==> x@[skip + k] == y@[k],
        decreases y@.len() - i,
    {
        if x[skip + i] != y[i] {
            proof {
                assert(s@.subrange(skip as int, s@.len() as int)[i as int] != p@[i as int]);
            }
            return false;
        }
        i = i + 1;
    }
    proof {
        assert(s@.subrange(skip as int, s@.len() as int) =~= p@);
    }
    true
}

/// `s` without the last `n` characters.
pub fn drop_tail(s: &str, n: usize) -> (t: String)
    requires
        n <= s@.len(),
    ensures
        t@ == s@.subrange(0, s@.len() - n),
{
    let x: Vec<char> = chars_of(s);
    string_between(&x, 0, x.len() - n)
}

/// `s` with every leading copy of `p` taken away.
pub fn trim_leading(s: &str, p: &str) -> (t: String)
    requires
        p@.len() > 0,
    ensures
        t@ == without_leading(s@, p@),
{
    let x: Vec<char> = chars_of(s);
    let plen: usize = p.unicode_len();
    let mut rest: String = String::from_str(s);
    let mut left: usize = x.len();
    while starts_with(rest.as_str(), p)
        invariant
            plen == p@.len(),
            plen > 0,
            left == rest@.len(),
            without_leading(rest@, p@) == without_leading(s@, p@),
        ensures
            !begins_with(rest@, p@),
        decreases left,
    {
        let y: Vec<char> = chars_of(rest.as_str());
        rest = string_between(&y, plen, left);
        left = left - plen;
    }
    rest
}

/// Whether `p` occurs in `s`.
pub fn contains_part(s: &str, p: &str) -> (yes: bool)
    ensures
        yes == has_part(s@, p@),
{
    let x: Vec<char> = chars_of(s);
    let y: Vec<char> = chars_of(p);
    if y.len() > x.len() {
        return false;
    }
    let len: usize = x.len();
    let last: usize = len - y.len();
    let mut i: usize = 0;
    while i <= last
        invariant
            x@ == s@,
            y@ == p@,
            last + y@.len() == x@.len() == len,
            i <= last + 1,
            forall|k: int| 0 <= k < i ==> #[trigger] s@.subrange(k, k + p@.len()) != p@,
        decreases last + 1 - i,
    {
        let mut j: usize = 0;
        let mut differs: bool = false;
        while j < y.len() && !differs
            invariant
                x@ == s@,
                y@ == p@,
                i + y@.len() <= x@.len() == len,
                j <= y@.len(),
                !differs ==> forall|k: int| 0 <= k < j ==> x@[i + k] == y@[k],
                differs ==> s@.subrange(i as int, i + p@.len()) != p@,
            decreases y@.len() - j + if differs { 0int } else { 1 },
        {
            if x[i + j] != y[j] {
                differs = true;
                proof {
                    assert(s@.subrange(i as int, i + p@.len())[j as int] != p@[j as int]);
                }
            } else {
                j = j + 1;
            }
        }
        if !differs {
            proof {
                assert(s@.subrange(i as int, i + p@.len()) =~= p@);
            }
            return true;
        }
        if i == last {
            return false;
        }
        i = i + 1;
    }
    false
}

/// The place of the first `c` in `s`, counted in characters.
pub fn find_char(s: &[char], c: char) -> (at: Option<usize>)
    ensures
        match at {
            Some(i) => i < s@.len() && s@[i as int] == c && forall|k: int|
                0 <= k < i ==> s@[k] != c,
            None => forall|k: int| 0 <= k < s@.len() ==> s@[k] != c,
        },
{
    let mut i: usize = 0;
    while i < s.len()
        invariant
            i <= s@.len(),
            forall|k: int| 0 <= k < i ==> s@[k] != c,
        decreases s@.len() - i,
    {
        if s[i] == c {
            return Some(i);
        }
        i = i + 1;
    }
    None
}

/// Whether `c` is white space.
pub fn is_white_char(c: char) -> (yes: bool)
    ensures
        yes == is_white(c),
{
    let u: u32 = c as u32;
    (0x09 <= u && u <= 0x0d) || u == 0x20 || u == 0x85 || u == 0xa0 || u == 0x1680 || (0x2000 <= u
        && u <= 0x200a) || u == 0x2028 || u == 0x2029 || u == 0x202f || u == 0x205f || u == 0x3000
}

/// `s` without white space at either end.
pub fn trim(s: &str) -> (t: String)
    ensures
        t@ == trim_text(s@),
{
    let x: Vec<char> = chars_of(s);
    let mut start: usize = 0;
    proof {
        assert(x@.subrange(0, x@.len() as int) =~= s@);
    }
    while start < x.len() && is_white_char(x[start])
        invariant
            x@ == s@,
            start <= x@.len(),
            trim_start_text(x@.subrange(start as int, x@.len() as int)) == trim_start_text(s@),
        decreases x@.len() - start,
    {
        proof {
            let t = x@.subrange(start as int, x@.len() as int);
            assert(t.drop_first() =~= x@.subrange(start + 1, x@.len() as int));
        }
        start = start + 1;
    }
    let mut end: usize = x.len();
    let ghost mid = x@.subrange(start as int, x@.len() as int);
    proof {
        assert(trim_start_text(mid) == mid);
    }
    while end > start && is_white_char(x[end - 1])
        invariant
            x@ == s@,
            start <= end <= x@.len(),
            mid == x@.subrange(start as int, x@.len() as int),
            trim_end_text(x@.subrange(start as int, end as int)) == trim_end_text(mid),
        decreases end,
    {
        proof {
            let t = x@.subrange(start as int, end as int);
            assert(t.drop_last() =~= x@.subrange(start as int, end - 1));
        }
        end = end - 1;
    }
    string_between(&x, start, end)
}

/// `s` without white space at its end.
pub fn trim_end(s: &str) -> (t: String)
    ensures
        t@ == trim_end_text(s@),
{
    let x: Vec<char> = chars_of(s);
    let mut end: usize = x.len();
    proof {
        assert(x@.subrange(0, end as int) =~= s@);
    }
    while end > 0 && is_white_char(x[end - 1])
        invariant
            x@ == s@,
            end <= x@.len(),
            trim_end_text(x@.subrange(0, end as int)) == trim_end_text(s@),
        decreases end,
    {
        proof {
            let t = x@.subrange(0, end as int);
            assert(t.drop_last() =~= x@.subrange(0, end - 1));
        }
        end = end - 1;
    }
    string_between(&x, 0, end)
}

/// `c` with an ASCII capital made small.
pub fn lower(c: char) -> (r: char)
    ensures
        r == lower_char(c),
{
    if 'A' <= c && c <= 'Z' {
        let small: u8 = c as u8 + 32;
        small as char
    } else {
        c
    }
}

/// `s` with its ASCII capitals made small.
pub fn to_lower(s: &str) -> (t: String)
    ensures
        t@ == lower_text(s@),
{
    let x: Vec<char> = chars_of(s);
    let mut t: String = String::new();
    let mut i: usize = 0;
    while i < x.len()
        invariant
            x@ == s@,
            i <= x@.len(),
            t@ == lower_text(s@.subrange(0, i as int)),
        decreases x@.len() - i,
    {
        t.push(lower(x[i]));
        proof {
            assert(t@ =~= lower_text(s@.subrange(0, i + 1)));
        }
        i = i + 1;
    }
    proof {
        assert(s@.subrange(0, i as int) =~= s@);
    }
    t
}

/// The pieces of `s` between the occurrences of `sep`.
pub fn split(s: &str, sep: char) -> (parts: Vec<String>)
    ensures
        texts(parts@) == split_text(s@, sep),
{
    let x: Vec<char> = chars_of(s);
    let mut parts: Vec<String> = Vec::new();
    let mut current: String = String::new();
    let mut i: usize = 0;
    proof {
        assert(texts(parts@).push(current@) =~= split_text(s@.subrange(0, 0), sep));
    }
    while i < x.len()
        invariant
            x@ == s@,
            i <= x@.len(),
            texts(parts@).push(current@) == split_text(s@.subrange(0, i as int), sep),
        decreases x@.len() - i,
    {
        let ghost before = texts(parts@).push(current@);
        proof {
            assert(s@.subrange(0, i + 1).drop_last() =~= s@.subrange(0, i as int));
            assert(before.drop_last() =~= texts(parts@));
        }
        if x[i] == sep {
            let ghost held = parts@;
            parts.push(current);
            current = String::new();
            proof {
                assert(texts(parts@) =~= before);
                assert(current@ =~= Seq::<char>::empty());
            }
        } else {
            current.push(x[i]);
        }
        i = i + 1;
    }
    proof {
        assert(s@.subrange(0, i as int) =~= s@);
    }
    let ghost before = texts(parts@).push(current@);
    parts.push(current);
    proof {
        assert(texts(parts@) =~= before);
    }
    parts
}

proof fn lemma_digits_prefix(s: Seq<char>, n: int)
    requires
        all_digits(s),
        0 <= n <= s.len(),
    ensures
        digits_value(s.subrange(0, n)) <= digits_value(s),
    decreases s.len() - n,
{
    if n < s.len() {
        let t = s.subrange(0, n + 1);
        assert(t.drop_last() =~= s.subrange(0, n));
        lemma_digits_prefix(s, n + 1);
    } else {
        assert(s.subrange(0, n) =~= s);
    }
}

/// Whether every character is a decimal digit.
pub fn all_digit_chars(s: &str) -> (yes: bool)
    ensures
        yes == all_digits(s@),
{
    let x: Vec<char> = chars_of(s);
    let mut i: usize = 0;
    while i < x.len()
        invariant
            i <= x@.len(),
            x@ == s@,
            forall|k: int| 0 <= k < i ==> is_digit(#[trigger] s@[k]),
        decreases x@.len() - i,
    {
        let c: char = x[i];
        if c < '0' || c > '9' {
            proof {
                assert(!is_digit(s@[i as int]));
            }
            return false;
        }
        i = i + 1;
    }
    true
}

/// Reads a decimal number that is at most `max`.
pub fn parse_unsigned(s: &str, max: u64) -> (v: Option<u64>)
    ensures
        match v {
            Some(n) => unsigned_value(s@, max as nat) == Some(n as nat),
            None => unsigned_value(s@, max as nat) is None,
        },
{
    let x: Vec<char> = chars_of(s);
    let start: usize = if x.len() > 1 && x[0] == '+' {
        1
    } else {
        0
    };
    let ghost d = unsigned_part(s@);
    proof {
        assert(d =~= x@.subrange(start as int, x@.len() as int));
    }
    if start == x.len() {
        return None;
    }
    let mut v: u64 = 0;
    let mut i: usize = start;
    proof {
        assert(d.subrange(0, 0) =~= Seq::<char>::empty());
    }
    while i < x.len()
        invariant
            x@ == s@,
            start <= i <= x@.len(),
            d == unsigned_part(s@),
            d == x@.subrange(start as int, x@.len() as int),
            v == digits_value(d.subrange(0, i - start)),
            v <= max,
            forall|k: int| 0 <= k < i - start ==> is_digit(#[trigger] d[k]),
        decreases x@.len() - i,
    {
        let c: char = x[i];
        proof {
            assert(d[i - start] == c);
            assert(d.subrange(0, i - start + 1).drop_last() =~= d.subrange(0, i - start));
        }
        if c < '0' || c > '9' {
            return None;
        }
        let digit: u64 = (c as u32 - '0' as u32) as u64;
        proof {
            if all_digits(d) {
                lemma_digits_prefix(d, i - start + 1);
            }
        }
        if digit > max || v > max / 10 || v * 10 > max - digit {
            return None;
        }
        v = v * 10 + digit;
        i = i + 1;
    }
    proof {
        assert(d.subrange(0, d.len() as int) =~= d);
    }
    Some(v)
}

/// Reads a decimal number that fits a `usize`.
pub fn parse_size(s: &str) -> (v: Option<usize>)
    ensures
        match v {
            Some(n) => unsigned_value(s@, usize::MAX as nat) == Some(n as nat),
            None => unsigned_value(s@, usize::MAX as nat) is None,
        },
{
    match parse_unsigned(s, usize::MAX as u64) {
        Some(n) => Some(n as usize),
        None => None,
    }
}

/// What is left of the digits of a number when they are read from the left: the number, or whether
/// the first obstacle was that the number became larger than `max` (else a character that is no
/// digit).
pub open spec fn scanned(d: Seq<char>, max: nat) -> Result<nat, bool>
    decreases d.len(),
{
    if d.len() == 0 {
        Ok(0)
    } else {
        match scanned(d.drop_last(), max) {
            Err(large) => Err(large),
            Ok(v) => if !is_digit(d.last()) {
                Err(false)
            } else if v * 10 + (d.last() as nat - 48) > max {
                Err(true)
            } else {
                Ok((v * 10 + (d.last() as nat - 48)) as nat)
            },
        }
    }
}

/// Why a text is no number of at most `max`.
pub open spec fn number_fault(s: Seq<char>, max: nat) -> Seq<char> {
    if s.len() == 0 {
        "cannot parse integer from empty string"@
    } else if scanned(unsigned_part(s), max) == Err::<nat, bool>(true) {
        "number too large to fit in target type"@
    } else {
        "invalid digit found in string"@
    }
}

/// Why a text is no number of at most `max`.
pub fn number_reason(s: &str, max: u64) -> (reason: &'static str)
    ensures
        reason@ == number_fault(s@, max as nat),
{
    let x: Vec<char> = chars_of(s);
    if x.len() == 0 {
        return "cannot parse integer from empty string";
    }
    let start: usize = if x.len() > 1 && x[0] == '+' {
        1
    } else {
        0
    };
    let ghost d = unsigned_part(s@);
    proof {
        assert(d =~= x@.subrange(start as int, x@.len() as int));
        assert(d.subrange(0, 0) =~= Seq::<char>::empty());
    }
    let mut v: u64 = 0;
    let mut i: usize = start;
    while i < x.len()
        invariant
            start <= i <= x@.len(),
            x@ == s@,
            x@.len() > 0,
            d == unsigned_part(s@),
            d == x@.subrange(start as int, x@.len() as int),
            v <= max,
            scanned(d.subrange(0, i - start), max as nat) == Ok::<nat, bool>(v as nat),
        decreases x@.len() - i,
    {
        let c: char = x[i];
        let ghost grown = d.subrange(0, i - start + 1);
        proof {
            assert(grown.drop_last() =~= d.subrange(0, i - start));
            assert(grown.last() == c);
        }
        if !(c >= '0' && c <= '9') {
            proof {
                lemma_scan_stops(d, max as nat, i - start + 1);
            }
            return "invalid digit found in string";
        }
        let digit: u64 = c as u64 - 48;
        if v > max / 10 || digit > max - v * 10 {
            proof {
                lemma_scan_stops(d, max as nat, i - start + 1);
            }
            return "number too large to fit in target type";
        }
        v = v * 10 + digit;
        i = i + 1;
    }
    proof {
        assert(d.subrange(0, i - start) =~= d);
    }
    "invalid digit found in string"
}

proof fn lemma_scan_stops(d: Seq<char>, max: nat, k: int)
    requires
        0 <= k <= d.len(),
        scanned(d.subrange(0, k), max) is Err,
    ensures
        scanned(d, max) == scanned(d.subrange(0, k), max),
    decreases d.len(),
{
    if k == d.len() {
        assert(d.subrange(0, k) =~= d);
    } else {
        assert(d.drop_last().subrange(0, k) =~= d.subrange(0, k));
        lemma_scan_stops(d.drop_last(), max, k);
    }
}

/// How std's `Debug` writes a text: between quotation marks, with special characters escaped.
pub uninterp spec fn debug_text(s: Seq<char>) -> Seq<char>;

/// `alloc::fmt::format` with std's `Debug` of a `str`, as the macro `format` calls it: the text that
/// it gives depends on the argument alone.
#[verifier::external_body]
pub(crate) fn quoted(s: &str) -> (t: String)
    ensures
        t@ == debug_text(s@),
{
    format!("{s:?}")
}

/// `n` in decimal.
pub fn decimal(n: u64) -> (s: String)
    ensures
        s@ == decimal_text(n as nat),
    decreases n,
{
    let mut s: String = if n < 10 {
        String::new()
    } else {
        decimal(n / 10)
    };
    let d: u8 = (n % 10) as u8 + 48;
    s.push(d as char);
    proof {
        assert(s@ =~= decimal_text(n as nat));
    }
    s
}

/// `n` in decimal, padded with zeros on the left to at least `width` characters.
pub fn padded(n: u64, width: usize) -> (s: String)
    ensures
        s@ == padded_text(n as nat, width as nat),
{
    let t: String = decimal(n);
    let len: usize = t.as_str().unicode_len();
    let mut s: String = String::new();
    let mut i: usize = len;
    while i < width
        invariant
            len <= i,
            i <= width || i == len,
            s@ == Seq::new((i - len) as nat, |k: int| '0'),
        decreases width - i,
    {
        s.push('0');
        proof {
            assert(s@ =~= Seq::new((i + 1 - len) as nat, |k: int| '0'));
        }
        i = i + 1;
    }
    s.append(t.as_str());
    proof {
        assert(s@ =~= padded_text(n as nat, width as nat));
    }
    s
}

/// Two strings one after the other.
pub fn join2(a: &str, b: &str) -> (s: String)
    ensures
        s@ == a@ + b@,
{
    let mut s: String = String::from_str(a);
    s.append(b);
    s
}

/// Three strings one after the other.
pub fn join3(a: &str, b: &str, c: &str) -> (s: String)
    ensures
        s@ == a@ + b@ + c@,
{
    let mut s: String = join2(a, b);
    s.append(c);
    s
}

/// Four strings one after the other.
pub fn join4(a: &str, b: &str, c: &str, d: &str) -> (s: String)
    ensures
        s@ == a@ + b@ + c@ + d@,
{
    let mut s: String = join3(a, b, c);
    s.append(d);
    s
}

/// The strings of `parts` in turn, with `sep` between neighbours.
pub fn join(parts: &Vec<String>, sep: &str) -> (s: String)
    ensures
        s@ == join_text(texts(parts@), sep@),
{
    let mut s: String = String::new();
    let mut i: usize = 0;
    proof {
        assert(texts(parts@).subrange(0, 0) =~= Seq::<Seq<char>>::empty());
        assert(s@ =~= Seq::<char>::empty());
    }
    while i < parts.len()
        invariant
            i <= parts@.len(),
            s@ == join_text(texts(parts@).subrange(0, i as int), sep@),
        decreases parts@.len() - i,
    {
        proof {
            let t = texts(parts@).subrange(0, i + 1);
            assert(t.drop_last() =~= texts(parts@).subrange(0, i as int));
            assert(t.last() == parts@[i as int]@);
        }
        if i > 0 {
            s.append(sep);
        }
        s.append(parts[i].as_str());
        proof {
            assert(s@ =~= join_text(texts(parts@).subrange(0, i + 1), sep@));
        }
        i = i + 1;
    }
    proof {
        assert(texts(parts@).subrange(0, i as int) =~= texts(parts@));
    }
    s
}

/// A decimal number reads back as itself.
pub proof fn law_decimal_parses(n: nat, max: nat)
    requires
        n <= max,
    ensures
        unsigned_value(decimal_text(n), max) == Some(n),
{
    lemma_decimal_digits(n);
    let t = decimal_text(n);
    assert(is_digit(t[0]));
    assert(unsigned_part(t) == t);
}

pub(crate) proof fn lemma_decimal_digits(n: nat)
    ensures
        decimal_text(n).len() > 0,
        all_digits(decimal_text(n)),
        digits_value(decimal_text(n)) == n,
    decreases n,
{
    let t = decimal_text(n);
    if n >= 10 {
        lemma_decimal_digits(n / 10);
        assert(t.drop_last() =~= decimal_text(n / 10));
        assert forall|i: int| 0 <= i < t.len() implies is_digit(#[trigger] t[i]) by {
            if i < t.len() - 1 {
                assert(t[i] == decimal_text(n / 10)[i]);
            }
        }
    } else {
        assert(t.drop_last() =~= Seq::<char>::empty());
        assert(digits_value(t.drop_last()) == 0);
    }
}

proof fn lemma_trim_start_white(s: Seq<char>, c: char)
    requires
        is_white(c),
    ensures
        trim_start_text(s).len() == 0 ==> trim_start_text(s.push(c)).len() == 0,
        trim_start_text(s).len() > 0 ==> trim_start_text(s.push(c)) == trim_start_text(s).push(c),
    decreases s.len(),
{
    if s.len() > 0 {
        if is_white(s[0]) {
            lemma_trim_start_white(s.drop_first(), c);
            assert(s.push(c).drop_first() =~= s.drop_first().push(c));
        }
    } else {
        assert(s.push(c).drop_first() =~= s);
    }
}

proof fn lemma_trim_ends(s: Seq<char>)
    ensures
        trim_start_text(s).len() > 0 ==> !is_white(trim_start_text(s)[0]),
        trim_end_text(s).len() > 0 ==> !is_white(trim_end_text(s).last()) && trim_end_text(s)[0]
            == s[0],
        trim_end_text(s).len() <= s.len(),
    decreases s.len(),
{
    if s.len() > 0 {
        lemma_trim_ends(s.drop_first());
        lemma_trim_ends(s.drop_last());
    }
}

/// Trimming takes away white space at both ends and nothing else: what is left neither begins nor ends with
/// white space, white space in front or behind makes no difference, and a text without any at its ends
/// stays as it is.
pub proof fn law_trimming_takes_white_space_at_the_ends(s: Seq<char>, c: char)
    ensures
        trim_text(s).len() > 0 ==> !is_white(trim_text(s)[0]) && !is_white(trim_text(s).last()),
        is_white(c) ==> trim_text(seq![c] + s) == trim_text(s),
        is_white(c) ==> trim_text(s.push(c)) == trim_text(s),
        s.len() > 0 && !is_white(s[0]) && !is_white(s.last()) ==> trim_text(s) == s,
{
    lemma_trim_ends(s);
    lemma_trim_ends(trim_start_text(s));
    assert((seq![c] + s).drop_first() =~= s);
    if is_white(c) {
        lemma_trim_start_white(s, c);
        let t = trim_start_text(s);
        if t.len() > 0 {
            assert(t.push(c).drop_last() =~= t);
        } else {
            assert(trim_start_text(s.push(c)) =~= t);
        }
    }
}

proof fn lemma_split_shape(s: Seq<char>, sep: char)
    ensures
        split_text(s, sep).len() > 0,
    decreases s.len(),
{
    if s.len() > 0 {
        lemma_split_shape(s.drop_last(), sep);
    }
}

/// The parts of a text, joined again with the separator, are the text, and none of them holds the
/// separator.
pub proof fn law_splitting_is_undone_by_joining(s: Seq<char>, sep: char)
    ensures
        join_text(split_text(s, sep), seq![sep]) == s,
        forall|i: int, k: int|
            0 <= i < split_text(s, sep).len() && 0 <= k < split_text(s, sep)[i].len()
                ==> #[trigger] split_text(s, sep)[i][k] != sep,
    decreases s.len(),
{
    let parts = split_text(s, sep);
    if s.len() == 0 {
        assert(parts[0] =~= s);
    } else {
        let rest = s.drop_last();
        let head = split_text(rest, sep);
        law_splitting_is_undone_by_joining(rest, sep);
        lemma_split_shape(rest, sep);
        if s.last() == sep {
            assert(parts.drop_last() =~= head);
            assert(parts.last() =~= Seq::<char>::empty());
            assert(join_text(parts, seq![sep]) =~= rest + seq![sep] + Seq::<char>::empty());
            assert(s =~= rest.push(sep));
            assert forall|i: int, k: int|
                0 <= i < parts.len() && 0 <= k < parts[i].len() implies #[trigger] parts[i][k]
                != sep by {
                if i < head.len() {
                    assert(parts[i] == head[i]);
                    assert(head[i][k] != sep);
                }
            }
        } else {
            let last = head.last().push(s.last());
            assert(parts == head.drop_last().push(last));
            assert(parts.drop_last() =~= head.drop_last());
            assert(s =~= rest.push(s.last()));
            if head.len() == 1 {
                assert(join_text(head, seq![sep]) == head[0]);
                assert(join_text(parts, seq![sep]) == last);
            } else {
                assert(join_text(head, seq![sep]) == join_text(head.drop_last(), seq![sep]) + seq![
                    sep,
                ] + head.last());
                assert(join_text(parts, seq![sep]) =~= join_text(head, seq![sep]).push(s.last()));
            }
            assert forall|i: int, k: int|
                0 <= i < parts.len() && 0 <= k < parts[i].len() implies #[trigger] parts[i][k]
                != sep by {
                if i < head.len() - 1 {
                    assert(parts[i] == head[i]);
                    assert(head[i][k] != sep);
                } else if k < head.last().len() {
                    assert(head[head.len() - 1][k] != sep);
                }
            }
        }
    }
}

/// A padded number has at least the width that was asked for, begins with zeros where it is shorter, and is
/// read as the same number.
pub proof fn law_padding_keeps_the_number(n: nat, width: nat)
    ensures
        padded_text(n, width).len() >= width,
        decimal_text(n).len() >= width ==> padded_text(n, width) == decimal_text(n),
        finishes_with(padded_text(n, width), decimal_text(n)),
        forall|i: int|
            0 <= i < padded_text(n, width).len() - decimal_text(n).len() ==> #[trigger] padded_text(
                n,
                width,
            )[i] == '0',
{
    let t = padded_text(n, width);
    let d = decimal_text(n);
    assert(t.subrange(t.len() - d.len(), t.len() as int) =~= d);
}

/// Capital letters become small ones, every other character stays, and a text that was changed so is not
/// changed again.
pub proof fn law_lower_case_text(s: Seq<char>, i: int)
    requires
        0 <= i < s.len(),
    ensures
        lower_text(s).len() == s.len(),
        !('A' <= lower_text(s)[i] <= 'Z'),
        'A' <= s[i] <= 'Z' ==> lower_text(s)[i] as int == s[i] as int + 32,
        !('A' <= s[i] <= 'Z') ==> lower_text(s)[i] == s[i],
        lower_text(lower_text(s)) == lower_text(s),
{
    assert(lower_text(lower_text(s)) =~= lower_text(s));
}

/// A text has what stands anywhere in it, and nothing that is longer than itself.
pub proof fn law_a_text_has_its_parts(before: Seq<char>, part: Seq<char>, after: Seq<char>)
    ensures
        has_part(before + part + after, part),
        part.len() > before.len() ==> !has_part(before, part),
{
    let s = before + part + after;
    let i = before.len() as int;
    assert(s.subrange(i, i + part.len()) =~= part);
}

} // verus!
