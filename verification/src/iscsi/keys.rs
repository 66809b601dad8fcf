//! The text of login and text requests: keys and values, each pair ended by a zero byte.
use vstd::prelude::*;
use vstd::string::*;

use crate::bytes::append_bytes;
use crate::text::{chars_of, find_char, string_between};

verus! {

/// The pieces of `data` between zero bytes; one more piece than zero bytes.
pub open spec fn entries(data: Seq<u8>) -> Seq<Seq<u8>>
    decreases data.len(),
{
    if data.len() == 0 {
        seq![Seq::empty()]
    } else {
        let head = entries(data.drop_last());
        if data.last() == 0 {
            head.push(Seq::empty())
        } else {
            head.drop_last().push(head.last().push(data.last()))
        }
    }
}

/// Where the first `=` of a text stands, or the length of the text.
pub open spec fn equals_at(s: Seq<char>) -> int
    decreases s.len(),
{
    if s.len() == 0 {
        0
    } else if s[0] == '=' {
        0
    } else {
        1 + equals_at(s.drop_first())
    }
}

/// The key and value of an entry: what stands before and after its first `=`. An entry that is
/// not UTF-8, or has no `=`, is none.
pub open spec fn pair_of(entry: Seq<u8>) -> Option<(Seq<char>, Seq<char>)> {
    if vstd::utf8::valid_utf8(entry) {
        let s = vstd::utf8::decode_utf8(entry);
        let at = equals_at(s);
        if at < s.len() {
            Some((s.subrange(0, at), s.subrange(at + 1, s.len() as int)))
        } else {
            None
        }
    } else {
        None
    }
}

/// The pairs among a list of entries, in order.
pub open spec fn pairs_of(list: Seq<Seq<u8>>) -> Seq<(Seq<char>, Seq<char>)>
    decreases list.len(),
{
    if list.len() == 0 {
        Seq::empty()
    } else {
        let head = pairs_of(list.drop_last());
        match pair_of(list.last()) {
            Some(p) => head.push(p),
            None => head,
        }
    }
}

/// The pairs of key and value that `data` writes.
pub open spec fn key_values(data: Seq<u8>) -> Seq<(Seq<char>, Seq<char>)> {
    pairs_of(entries(data))
}

/// What a list of pairs of strings means.
pub open spec fn pairs_view(list: Seq<(String, String)>) -> Seq<(Seq<char>, Seq<char>)> {
    Seq::new(list.len(), |i: int| (list[i].0@, list[i].1@))
}

/// `std::str::from_utf8`: the string that the bytes encode, if they are UTF-8.
#[verifier::external_body]
fn utf8_text(bytes: &[u8]) -> (s: Option<String>)
    ensures
        match s {
            Some(t) => vstd::utf8::valid_utf8(bytes@) && t@ == vstd::utf8::decode_utf8(bytes@),
            None => !vstd::utf8::valid_utf8(bytes@),
        },
{
    std::str::from_utf8(bytes).ok().map(|text| text.to_string())
}

proof fn lemma_equals_at(s: Seq<char>, at: int)
    requires
        0 <= at <= s.len(),
        forall|i: int| 0 <= i < at ==> s[i] != '=',
        at < s.len() ==> s[at] == '=',
    ensures
        equals_at(s) == at,
    decreases s.len(),
{
    if at > 0 {
        let t = s.drop_first();
        assert forall|i: int| 0 <= i < at - 1 implies t[i] != '=' by {
            assert(t[i] == s[i + 1]);
        }
        lemma_equals_at(t, at - 1);
    }
}

/// The pair that an entry writes, if it writes one.
fn parse_entry(entry: &[u8]) -> (p: Option<(String, String)>)
    ensures
        match p {
            Some((k, v)) => pair_of(entry@) == Some((k@, v@)),
            None => pair_of(entry@) is None,
        },
{
    match utf8_text(entry) {
        Some(text) => {
            let chars: Vec<char> = chars_of(text.as_str());
            match find_char(&chars, '=') {
                Some(at) => {
                    proof {
                        lemma_equals_at(chars@, at as int);
                    }
                    let len: usize = chars.len();
                    Some((string_between(&chars, 0, at), string_between(&chars, at + 1, len)))
                },
                None => {
                    proof {
                        lemma_equals_at(chars@, chars@.len() as int);
                    }
                    None
                },
            }
        },
        None => None,
    }
}

/// The pairs of key and value in a data segment, in order.
pub fn text_pairs(data: &[u8]) -> (pairs: Vec<(String, String)>)
    ensures
        pairs_view(pairs@) == key_values(data@),
{
    let mut pairs: Vec<(String, String)> = Vec::new();
    let mut current: Vec<u8> = Vec::new();
    let ghost mut done: Seq<Seq<u8>> = Seq::empty();
    let mut i: usize = 0;
    proof {
        assert(done.push(current@) =~= entries(data@.subrange(0, 0)));
        assert(pairs_view(pairs@) =~= pairs_of(done));
    }
    while i < data.len()
        invariant
            i <= data@.len(),
            done.push(current@) == entries(data@.subrange(0, i as int)),
            pairs_view(pairs@) == pairs_of(done),
        decreases data@.len() - i,
    {
        let ghost before = done.push(current@);
        proof {
            assert(data@.subrange(0, i + 1).drop_last() =~= data@.subrange(0, i as int));
            assert(before.drop_last() =~= done);
        }
        if data[i] == 0 {
            proof {
                assert(done.push(current@).drop_last() =~= done);
            }
            match parse_entry(current.as_slice()) {
                Some(p) => {
                    let ghost held = pairs@;
                    pairs.push(p);
                    proof {
                        assert(pairs_view(pairs@) =~= pairs_view(held).push((p.0@, p.1@)));
                    }
                },
                None => {},
            }
            proof {
                done = done.push(current@);
            }
            current = Vec::new();
            proof {
                assert(current@ =~= Seq::<u8>::empty());
            }
        } else {
            current.push(data[i]);
        }
        i = i + 1;
    }
    proof {
        assert(data@.subrange(0, i as int) =~= data@);
        assert(done.push(current@).drop_last() =~= done);
    }
    match parse_entry(current.as_slice()) {
        Some(p) => {
            let ghost held = pairs@;
            pairs.push(p);
            proof {
                assert(pairs_view(pairs@) =~= pairs_view(held).push((p.0@, p.1@)));
            }
        },
        None => {},
    }
    pairs
}

/// The bytes of one pair: the key, `=`, the value and a zero byte.
pub open spec fn pair_bytes(key: Seq<char>, value: Seq<char>) -> Seq<u8> {
    vstd::utf8::encode_utf8(key) + seq![0x3du8] + vstd::utf8::encode_utf8(value) + seq![0u8]
}

/// Appends one pair to a data segment.
pub fn append_text(output: &mut Vec<u8>, key: &str, value: &str)
    ensures
        final(output)@ == old(output)@ + pair_bytes(key@, value@),
{
    let ghost before = output@;
    append_bytes(output, key.as_bytes());
    output.push(0x3d);
    append_bytes(output, value.as_bytes());
    output.push(0);
    proof {
        assert(output@ =~= before + pair_bytes(key@, value@));
    }
}

/// Whether a character occurs in a text.
pub open spec fn lacks(s: Seq<char>, c: char) -> bool {
    forall|i: int| 0 <= i < s.len() ==> s[i] != c
}

proof fn lemma_encode_concat(a: Seq<char>, b: Seq<char>)
    ensures
        vstd::utf8::encode_utf8(a + b) == vstd::utf8::encode_utf8(a) + vstd::utf8::encode_utf8(b),
    decreases a.len(),
{
    if a.len() == 0 {
        assert(a + b =~= b);
        assert(vstd::utf8::encode_utf8(a) + vstd::utf8::encode_utf8(b) =~= vstd::utf8::encode_utf8(
            b,
        ));
    } else {
        assert((a + b).drop_first() =~= a.drop_first() + b);
        lemma_encode_concat(a.drop_first(), b);
        assert(vstd::utf8::encode_utf8(a + b) =~= vstd::utf8::encode_utf8(a)
            + vstd::utf8::encode_utf8(b));
    }
}

proof fn lemma_encode_no_zero(s: Seq<char>)
    requires
        lacks(s, '\0'),
    ensures
        forall|i: int|
            0 <= i < vstd::utf8::encode_utf8(s).len() ==> #[trigger] vstd::utf8::encode_utf8(s)[i]
                != 0,
    decreases s.len(),
{
    if s.len() > 0 {
        let u = s[0] as u32;
        assert(s[0] != '\0');
        vstd::utf8::char_is_scalar(s[0]);
        vstd::utf8::char_u32_cast(s[0], u);
        assert(u != 0);
        assert forall|i: int| 0 <= i < s.drop_first().len() implies s.drop_first()[i] != '\0' by {
            assert(s.drop_first()[i] == s[i + 1]);
        }
        lemma_encode_no_zero(s.drop_first());
        assert(u != 0 && u <= 0x7f ==> (u & 0x7F) as u8 != 0) by (bit_vector);
        assert(0xC0u8 | ((u >> 6) & 0x1F) as u8 != 0) by (bit_vector);
        assert(0xE0u8 | ((u >> 12) & 0x0F) as u8 != 0) by (bit_vector);
        assert(0xF0u8 | ((u >> 18) & 0x7) as u8 != 0) by (bit_vector);
        assert(0x80u8 | (u & 0x3F) as u8 != 0) by (bit_vector);
        assert(0x80u8 | ((u >> 6) & 0x3F) as u8 != 0) by (bit_vector);
        assert(0x80u8 | ((u >> 12) & 0x3F) as u8 != 0) by (bit_vector);
        let head = vstd::utf8::encode_scalar(u);
        let tail = vstd::utf8::encode_utf8(s.drop_first());
        assert forall|i: int| 0 <= i < vstd::utf8::encode_utf8(s).len() implies
            #[trigger] vstd::utf8::encode_utf8(s)[i] != 0 by {
            if i < head.len() {
                assert(vstd::utf8::encode_utf8(s)[i] == head[i]);
                if vstd::utf8::has_width_1_encoding(u) {
                    assert(head[i] == (u & 0x7F) as u8);
                } else if i == 0 {
                    assert(head[0] != 0);
                } else {
                    assert(head[i] != 0);
                }
            } else {
                assert(vstd::utf8::encode_utf8(s)[i] == tail[i - head.len()]);
            }
        }
    }
}

proof fn lemma_entries_extend(data: Seq<u8>, more: Seq<u8>)
    requires
        forall|i: int| 0 <= i < more.len() ==> #[trigger] more[i] != 0,
    ensures
        entries(data).len() >= 1,
        entries(data + more) == entries(data).drop_last().push(entries(data).last() + more),
    decreases more.len(), data.len(),
{
    if more.len() == 0 {
        if data.len() > 0 {
            lemma_entries_extend(data.drop_last(), more);
        }
        assert(data + more =~= data);
        assert(entries(data).last() + more =~= entries(data).last());
        assert(entries(data).drop_last().push(entries(data).last() + more) =~= entries(data));
    } else {
        let less = more.drop_last();
        assert forall|i: int| 0 <= i < less.len() implies #[trigger] less[i] != 0 by {
            assert(less[i] == more[i]);
        }
        lemma_entries_extend(data, less);
        assert((data + more).drop_last() =~= data + less);
        assert((data + more).last() == more[more.len() - 1]);
        let e = entries(data + less);
        assert(e.drop_last() =~= entries(data).drop_last());
        assert(e.last() == entries(data).last() + less);
        assert(e.last().push(more.last()) =~= entries(data).last() + more);
    }
}

/// The bytes of a pair without its final zero are the encoding of key, `=` and value, hold no zero
/// byte and write that pair.
proof fn lemma_pair_entry(key: Seq<char>, value: Seq<char>) -> (e: Seq<u8>)
    requires
        lacks(key, '='),
        lacks(key, '\0'),
        lacks(value, '\0'),
    ensures
        pair_bytes(key, value) == e.push(0),
        forall|i: int| 0 <= i < e.len() ==> #[trigger] e[i] != 0,
        pair_of(e) == Some((key, value)),
{
    let sep: Seq<char> = seq!['='];
    let whole = key + sep + value;
    let e = vstd::utf8::encode_utf8(whole);
    lemma_encode_concat(key + sep, value);
    lemma_encode_concat(key, sep);
    assert(vstd::utf8::encode_utf8(sep) =~= seq![0x3du8]) by {
        assert(sep.drop_first() =~= Seq::<char>::empty());
        assert(vstd::utf8::encode_utf8(Seq::<char>::empty()) =~= Seq::<u8>::empty());
        let u = '=' as u32;
        assert(u == 0x3d);
        assert((0x3du32 & 0x7F) as u8 == 0x3du8) by (bit_vector);
    }
    assert(pair_bytes(key, value) =~= e.push(0));
    assert forall|i: int| 0 <= i < whole.len() implies whole[i] != '\0' by {
        if i < key.len() {
            assert(whole[i] == key[i]);
        } else if i > key.len() {
            assert(whole[i] == value[i - key.len() - 1]);
        }
    }
    lemma_encode_no_zero(whole);
    vstd::utf8::encode_utf8_valid_utf8(whole);
    vstd::utf8::encode_utf8_decode_utf8(whole);
    assert forall|i: int| 0 <= i < key.len() implies whole[i] != '=' by {
        assert(whole[i] == key[i]);
    }
    lemma_equals_at(whole, key.len() as int);
    assert(whole.subrange(0, key.len() as int) =~= key);
    assert(whole.subrange(key.len() as int + 1, whole.len() as int) =~= value);
    e
}

/// A pair that is appended to a data segment is read back as its last pair, and the pairs before
/// it are unchanged. The key holds no `=`, and neither key nor value a zero; the segment is empty
/// or ends with the zero of the pair before.
pub proof fn law_appended_pair_reads_back(data: Seq<u8>, key: Seq<char>, value: Seq<char>)
    requires
        data.len() == 0 || data.last() == 0,
        lacks(key, '='),
        lacks(key, '\0'),
        lacks(value, '\0'),
    ensures
        key_values(data + pair_bytes(key, value)) == key_values(data).push((key, value)),
{
    let e = lemma_pair_entry(key, value);
    lemma_entries_extend(data, e);
    let all = data + pair_bytes(key, value);
    assert(all.drop_last() =~= data + e);
    assert(all.last() == 0);
    let old_list = entries(data);
    let mid = old_list.drop_last().push(e);
    assert(old_list.last() =~= Seq::<u8>::empty());
    assert(old_list.last() + e =~= e);
    assert(entries(all) == mid.push(Seq::empty()));
    assert(pair_of(Seq::<u8>::empty()) is None) by {
        assert(vstd::utf8::decode_utf8(Seq::<u8>::empty()) =~= Seq::<char>::empty());
    }
    assert(entries(all).drop_last() =~= mid);
    assert(entries(all).last() =~= Seq::<u8>::empty());
    assert(pairs_of(entries(all)) == pairs_of(mid));
    assert(mid.drop_last() =~= old_list.drop_last());
    assert(mid.last() == e);
    assert(pairs_of(mid) == pairs_of(old_list.drop_last()).push((key, value)));
    assert(old_list.last() == Seq::<u8>::empty());
    assert(pairs_of(old_list) == pairs_of(old_list.drop_last()));
}

} // verus!
