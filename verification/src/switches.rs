//! How often a thread was switched and moved, as the kernel tells it.
use vstd::prelude::*;
use vstd::string::*;

use crate::cpus::split_once;
use crate::text::{
    chars_of, ends_with, is_white_char, parse_unsigned, split, starts_with, string_between, trim,
};
#[allow(unused_imports)]
use crate::cpus::sides;
#[allow(unused_imports)]
use crate::text::{
    begins_with, finishes_with, is_white, split_text, texts, trim_start_text, trim_text,
    unsigned_value,
};

verus! {

/// The number that a text holds, or zero.
pub open spec fn number_or_zero(text: Seq<char>) -> u64 {
    match unsigned_value(text, u64::MAX as nat) {
        Some(n) => n as u64,
        None => 0,
    }
}

/// The number on the last line that begins with a label, or zero.
pub open spec fn labelled(lines: Seq<Seq<char>>, label: Seq<char>) -> u64
    decreases lines.len(),
{
    if lines.len() == 0 {
        0
    } else if begins_with(lines.last(), label) {
        number_or_zero(
            trim_text(lines.last().subrange(label.len() as int, lines.last().len() as int)),
        )
    } else {
        labelled(lines.drop_last(), label)
    }
}

fn number(text: &str) -> (n: u64)
    ensures
        n == number_or_zero(text@),
{
    match parse_unsigned(text, u64::MAX) {
        Some(n) => n,
        None => 0,
    }
}

fn rest_of(line: &str, label: &str) -> (t: String)
    requires
        begins_with(line@, label@),
    ensures
        t@ == trim_text(line@.subrange(label@.len() as int, line@.len() as int)),
{
    let chars: Vec<char> = chars_of(line);
    let skip: Vec<char> = chars_of(label);
    let rest: String = string_between(chars.as_slice(), skip.len(), chars.len());
    trim(rest.as_str())
}

fn line_number(lines: &Vec<String>, label: &str) -> (n: u64)
    ensures
        n == labelled(texts(lines@), label@),
{
    let mut n: u64 = 0;
    let mut i: usize = 0;
    proof {
        assert(texts(lines@).subrange(0, 0) =~= Seq::<Seq<char>>::empty());
    }
    while i < lines.len()
        invariant
            i <= lines@.len(),
            n == labelled(texts(lines@).subrange(0, i as int), label@),
        decreases lines@.len() - i,
    {
        proof {
            let part = texts(lines@).subrange(0, i + 1);
            assert(part.drop_last() =~= texts(lines@).subrange(0, i as int));
            assert(part.last() == lines@[i as int]@);
        }
        if starts_with(lines[i].as_str(), label) {
            let rest: String = rest_of(lines[i].as_str(), label);
            n = number(rest.as_str());
        }
        i = i + 1;
    }
    proof {
        assert(texts(lines@).subrange(0, i as int) =~= texts(lines@));
    }
    n
}

/// How often a thread gave up its CPU, and how often it was taken from it, as its status says.
pub fn context_switches(status: &str) -> (r: (u64, u64))
    ensures
        r.0 == labelled(split_text(status@, '\n'), "voluntary_ctxt_switches:"@),
        r.1 == labelled(split_text(status@, '\n'), "nonvoluntary_ctxt_switches:"@),
{
    let lines: Vec<String> = split(status, '\n');
    (
        line_number(&lines, "voluntary_ctxt_switches:"),
        line_number(&lines, "nonvoluntary_ctxt_switches:"),
    )
}

/// The characters of a text before the first white space.
pub open spec fn before_white(s: Seq<char>) -> Seq<char>
    decreases s.len(),
{
    if s.len() == 0 || is_white(s[0]) {
        Seq::empty()
    } else {
        seq![s[0]] + before_white(s.drop_first())
    }
}

/// The first word of a text.
pub open spec fn first_word(s: Seq<char>) -> Seq<char> {
    before_white(trim_start_text(s))
}

/// Whether a line tells how often the thread was moved.
pub open spec fn tells_migrations(line: Seq<char>) -> bool {
    sides(line, ':') matches Some((name, value)) && finishes_with(
        trim_text(name),
        "nr_migrations"@,
    )
}

/// The number on the last line that tells how often the thread was moved, or zero.
pub open spec fn migrations_of(lines: Seq<Seq<char>>) -> u64
    decreases lines.len(),
{
    if lines.len() == 0 {
        0
    } else if tells_migrations(lines.last()) {
        let (name, value) = sides(lines.last(), ':')->0;
        number_or_zero(first_word(value))
    } else {
        migrations_of(lines.drop_last())
    }
}

proof fn lemma_trim_start(s: Seq<char>, i: int)
    requires
        0 <= i <= s.len(),
        forall|k: int| 0 <= k < i ==> is_white(#[trigger] s[k]),
        i < s.len() ==> !is_white(s[i]),
    ensures
        trim_start_text(s) == s.subrange(i, s.len() as int),
    decreases i,
{
    if i > 0 {
        assert(is_white(s[0]));
        let t = s.drop_first();
        assert forall|k: int| 0 <= k < i - 1 implies is_white(#[trigger] t[k]) by {
            assert(t[k] == s[k + 1]);
        }
        lemma_trim_start(t, i - 1);
        assert(t.subrange(i - 1, t.len() as int) =~= s.subrange(i, s.len() as int));
    } else {
        assert(s.subrange(0, s.len() as int) =~= s);
    }
}

proof fn lemma_before_white(s: Seq<char>, i: int)
    requires
        0 <= i <= s.len(),
        forall|k: int| 0 <= k < i ==> !is_white(#[trigger] s[k]),
        i < s.len() ==> is_white(s[i]),
    ensures
        before_white(s) == s.subrange(0, i),
    decreases i,
{
    if i > 0 {
        assert(!is_white(s[0]));
        let t = s.drop_first();
        assert forall|k: int| 0 <= k < i - 1 implies !is_white(#[trigger] t[k]) by {
            assert(t[k] == s[k + 1]);
        }
        lemma_before_white(t, i - 1);
        assert(seq![s[0]] + t.subrange(0, i - 1) =~= s.subrange(0, i));
    } else {
        assert(s.subrange(0, 0) =~= Seq::<char>::empty());
    }
}

fn word(text: &str) -> (w: String)
    ensures
        w@ == first_word(text@),
{
    let chars: Vec<char> = chars_of(text);
    let mut start: usize = 0;
    while start < chars.len() && is_white_char(chars[start])
        invariant
            start <= chars@.len(),
            forall|k: int| 0 <= k < start ==> is_white(#[trigger] chars@[k]),
        decreases chars@.len() - start,
    {
        start = start + 1;
    }
    let mut end: usize = start;
    while end < chars.len() && !is_white_char(chars[end])
        invariant
            start <= end <= chars@.len(),
            forall|k: int| start <= k < end ==> !is_white(#[trigger] chars@[k]),
        decreases chars@.len() - end,
    {
        end = end + 1;
    }
    proof {
        lemma_trim_start(chars@, start as int);
        let t = chars@.subrange(start as int, chars@.len() as int);
        assert forall|k: int| 0 <= k < end - start implies !is_white(#[trigger] t[k]) by {
            assert(t[k] == chars@[start + k]);
        }
        lemma_before_white(t, end - start);
        assert(t.subrange(0, end - start) =~= chars@.subrange(start as int, end as int));
    }
    string_between(chars.as_slice(), start, end)
}

/// How often a thread was moved to another CPU, as its scheduling statistics say.
pub fn migrations(sched: &str) -> (n: u64)
    ensures
        n == migrations_of(split_text(sched@, '\n')),
{
    let lines: Vec<String> = split(sched, '\n');
    let mut n: u64 = 0;
    let mut i: usize = 0;
    proof {
        assert(texts(lines@).subrange(0, 0) =~= Seq::<Seq<char>>::empty());
    }
    while i < lines.len()
        invariant
            i <= lines@.len(),
            n == migrations_of(texts(lines@).subrange(0, i as int)),
        decreases lines@.len() - i,
    {
        proof {
            let part = texts(lines@).subrange(0, i + 1);
            assert(part.drop_last() =~= texts(lines@).subrange(0, i as int));
            assert(part.last() == lines@[i as int]@);
        }
        if let Some((name, value)) = split_once(lines[i].as_str(), ':') {
            let label: String = trim(name.as_str());
            if ends_with(label.as_str(), "nr_migrations") {
                let first: String = word(value.as_str());
                n = number(first.as_str());
            }
        }
        i = i + 1;
    }
    proof {
        assert(texts(lines@).subrange(0, i as int) =~= texts(lines@));
    }
    n
}

/// The last line with a label tells the number; lines without the label change nothing, and without any
/// such line the number is zero.
pub proof fn law_the_last_labelled_line_counts(
    lines: Seq<Seq<char>>,
    label: Seq<char>,
    one: Seq<char>,
)
    ensures
        labelled(Seq::empty(), label) == 0,
        !begins_with(one, label) ==> labelled(lines.push(one), label) == labelled(lines, label),
        begins_with(one, label) ==> labelled(lines.push(one), label) == labelled(seq![one], label),
        !tells_migrations(one) ==> migrations_of(lines.push(one)) == migrations_of(lines),
        tells_migrations(one) ==> migrations_of(lines.push(one)) == migrations_of(seq![one]),
        migrations_of(Seq::empty()) == 0,
{
    assert(lines.push(one).drop_last() =~= lines);
    assert(seq![one].drop_last() =~= Seq::<Seq<char>>::empty());
}

proof fn lemma_word_ends(s: Seq<char>)
    ensures
        before_white(s).len() <= s.len(),
        forall|i: int|
            0 <= i < before_white(s).len() ==> #[trigger] before_white(s)[i] == s[i] && !is_white(
                s[i],
            ),
        before_white(s).len() < s.len() ==> is_white(s[before_white(s).len() as int]),
    decreases s.len(),
{
    if s.len() > 0 && !is_white(s[0]) {
        let rest = s.drop_first();
        lemma_word_ends(rest);
        assert forall|i: int| 0 <= i < before_white(s).len() implies #[trigger] before_white(s)[i]
            == s[i] && !is_white(s[i]) by {
            if i > 0 {
                assert(before_white(s)[i] == before_white(rest)[i - 1]);
                assert(rest[i - 1] == s[i]);
            }
        }
    }
}

/// The first word of a text that begins with no white space reaches to the next white space.
pub proof fn law_the_first_word_ends_at_white_space(s: Seq<char>)
    requires
        s.len() > 0,
        !is_white(s[0]),
    ensures
        0 < first_word(s).len() <= s.len(),
        forall|i: int|
            0 <= i < first_word(s).len() ==> #[trigger] first_word(s)[i] == s[i] && !is_white(s[i]),
        first_word(s).len() < s.len() ==> is_white(s[first_word(s).len() as int]),
{
    lemma_word_ends(s);
}

} // verus!
