//! Lists of processors: numbers and ranges with commas between them.
use vstd::prelude::*;
use vstd::string::*;

use crate::text::{chars_of, find_char, parse_size, split, string_between, trim};

verus! {

/// Where the first `c` of a text stands; its length where there is none.
pub open spec fn first_of(s: Seq<char>, c: char) -> int
    decreases s.len(),
{
    if s.len() == 0 {
        0
    } else if s[0] == c {
        0
    } else {
        1 + first_of(s.drop_first(), c)
    }
}

proof fn lemma_first_of(s: Seq<char>, c: char, at: int)
    requires
        0 <= at <= s.len(),
        forall|i: int| 0 <= i < at ==> #[trigger] s[i] != c,
        at < s.len() ==> s[at] == c,
    ensures
        first_of(s, c) == at,
    decreases s.len(),
{
    if at > 0 {
        assert(s[0] != c);
        let rest = s.drop_first();
        assert forall|i: int| 0 <= i < at - 1 implies #[trigger] rest[i] != c by {
            assert(rest[i] == s[i + 1]);
        }
        lemma_first_of(rest, c, at - 1);
    }
}

/// The two sides of the first `c` of a text, where there is one.
pub open spec fn sides(s: Seq<char>, c: char) -> Option<(Seq<char>, Seq<char>)> {
    let at = first_of(s, c);
    if at < s.len() {
        Some((s.subrange(0, at), s.subrange(at + 1, s.len() as int)))
    } else {
        None
    }
}

/// The two sides of the first `c` of a text, where there is one.
pub fn split_once(s: &str, c: char) -> (r: Option<(String, String)>)
    ensures
        match r {
            Some(p) => sides(s@, c) == Some((p.0@, p.1@)),
            None => sides(s@, c) is None,
        },
{
    let chars: Vec<char> = chars_of(s);
    let len: usize = chars.len();
    match find_char(chars.as_slice(), c) {
        Some(at) => {
            proof {
                lemma_first_of(s@, c, at as int);
            }
            Some(
                (
                    string_between(chars.as_slice(), 0, at),
                    string_between(chars.as_slice(), at + 1, len),
                ),
            )
        },
        None => {
            proof {
                lemma_first_of(s@, c, s@.len() as int);
            }
            None
        },
    }
}

/// What is wrong with an item of a list.
#[derive(Clone, Copy, Debug, PartialEq, Eq, Structural)]
pub enum PartFault {
    /// The start of a range is no number.
    First,
    /// The end of a range is no number.
    Last,
    /// The item is no number.
    Single,
    /// The end of a range is below its start.
    Descending,
}

/// The processors that an item stands for, from the first to the last.
pub open spec fn part_range(part: Seq<char>) -> Result<(usize, usize), PartFault> {
    match sides(part, '-') {
        Some((a, b)) => match (
            crate::text::unsigned_value(a, usize::MAX as nat),
            crate::text::unsigned_value(b, usize::MAX as nat),
        ) {
            (None, _) => Err(PartFault::First),
            (_, None) => Err(PartFault::Last),
            (Some(first), Some(last)) => if first > last {
                Err(PartFault::Descending)
            } else {
                Ok((first as usize, last as usize))
            },
        },
        None => match crate::text::unsigned_value(part, usize::MAX as nat) {
            Some(n) => Ok((n as usize, n as usize)),
            None => Err(PartFault::Single),
        },
    }
}

/// The processors that an item stands for, from the first to the last.
pub fn parse_part(part: &str) -> (r: Result<(usize, usize), PartFault>)
    ensures
        r == part_range(part@),
{
    match split_once(part, '-') {
        Some((a, b)) => {
            let first: usize = match parse_size(a.as_str()) {
                Some(n) => n,
                None => {
                    return Err(PartFault::First);
                },
            };
            let last: usize = match parse_size(b.as_str()) {
                Some(n) => n,
                None => {
                    return Err(PartFault::Last);
                },
            };
            if first > last {
                return Err(PartFault::Descending);
            }
            Ok((first, last))
        },
        None => match parse_size(part) {
            Some(n) => Ok((n, n)),
            None => Err(PartFault::Single),
        },
    }
}

/// A list with the processors from `a` to `b` behind it; `once` leaves out those that it holds.
pub open spec fn range_added(list: Seq<usize>, a: int, b: int, once: bool) -> Seq<usize>
    decreases b - a + 1,
{
    if a > b {
        list
    } else {
        range_added(
            if once && list.contains(a as usize) {
                list
            } else {
                list.push(a as usize)
            },
            a + 1,
            b,
            once,
        )
    }
}

/// The processors of a list of items; items of blanks alone stand for none. The first item that is
/// wrong is given where there is one.
pub open spec fn listed(parts: Seq<Seq<char>>, once: bool) -> Result<
    Seq<usize>,
    (Seq<char>, PartFault),
>
    decreases parts.len(),
{
    if parts.len() == 0 {
        Ok(Seq::empty())
    } else {
        match listed(parts.drop_last(), once) {
            Err(e) => Err(e),
            Ok(list) => {
                let part = crate::text::trim_text(parts.last());
                if part.len() == 0 {
                    Ok(list)
                } else {
                    match part_range(part) {
                        Ok((a, b)) => Ok(range_added(list, a as int, b as int, once)),
                        Err(f) => Err((part, f)),
                    }
                }
            },
        }
    }
}

proof fn lemma_listed_fails(parts: Seq<Seq<char>>, once: bool, k: int)
    requires
        0 <= k <= parts.len(),
        listed(parts.subrange(0, k), once) is Err,
    ensures
        listed(parts, once) == listed(parts.subrange(0, k), once),
    decreases parts.len(),
{
    if k == parts.len() {
        assert(parts.subrange(0, k) =~= parts);
    } else {
        assert(parts.drop_last().subrange(0, k) =~= parts.subrange(0, k));
        lemma_listed_fails(parts.drop_last(), once, k);
    }
}

/// Whether a list holds a number.
pub fn holds(list: &Vec<usize>, n: usize) -> (yes: bool)
    ensures
        yes == list@.contains(n),
{
    let mut i: usize = 0;
    while i < list.len()
        invariant
            i <= list@.len(),
            forall|k: int| 0 <= k < i ==> #[trigger] list@[k] != n,
        decreases list@.len() - i,
    {
        if list[i] == n {
            assert(list@[i as int] == n);
            return true;
        }
        i = i + 1;
    }
    false
}

fn add_range(list: &mut Vec<usize>, a: usize, b: usize, once: bool)
    requires
        a <= b,
    ensures
        final(list)@ == range_added(old(list)@, a as int, b as int, once),
{
    let ghost goal = range_added(list@, a as int, b as int, once);
    let mut n: usize = a;
    let mut more: bool = true;
    while more
        invariant
            more ==> n <= b && range_added(list@, n as int, b as int, once) == goal,
            !more ==> list@ == goal,
        decreases (if more {
            b - n + 1
        } else {
            0
        }),
    {
        if !once || !holds(list, n) {
            list.push(n);
        }
        if n == b {
            proof {
                reveal_with_fuel(range_added, 2);
            }
            more = false;
        } else {
            n = n + 1;
        }
    }
}

/// The processors of a list; `once` leaves out repetitions.
pub fn cpu_ranges(value: &str, once: bool) -> (r: Result<Vec<usize>, (String, PartFault)>)
    ensures
        match r {
            Ok(list) => listed(crate::text::split_text(value@, ','), once) == Ok::<
                Seq<usize>,
                (Seq<char>, PartFault),
            >(list@),
            Err((part, fault)) => listed(crate::text::split_text(value@, ','), once) == Err::<
                Seq<usize>,
                (Seq<char>, PartFault),
            >((part@, fault)),
        },
{
    let parts: Vec<String> = split(value, ',');
    let ghost views = crate::text::texts(parts@);
    let mut list: Vec<usize> = Vec::new();
    let mut i: usize = 0;
    proof {
        assert(views.subrange(0, 0) =~= Seq::<Seq<char>>::empty());
        assert(list@ =~= Seq::<usize>::empty());
    }
    while i < parts.len()
        invariant
            i <= parts@.len(),
            views == crate::text::texts(parts@),
            views == crate::text::split_text(value@, ','),
            listed(views.subrange(0, i as int), once) == Ok::<
                Seq<usize>,
                (Seq<char>, PartFault),
            >(list@),
        decreases parts@.len() - i,
    {
        proof {
            let grown = views.subrange(0, i + 1);
            assert(grown.drop_last() =~= views.subrange(0, i as int));
            assert(grown.last() == parts@[i as int]@);
        }
        let part: String = trim(parts[i].as_str());
        if part.as_str().unicode_len() > 0 {
            match parse_part(part.as_str()) {
                Ok((a, b)) => add_range(&mut list, a, b, once),
                Err(fault) => {
                    proof {
                        lemma_listed_fails(views, once, i + 1);
                    }
                    return Err((part, fault));
                },
            }
        }
        i = i + 1;
    }
    proof {
        assert(views.subrange(0, i as int) =~= views);
    }
    Ok(list)
}

proof fn lemma_range_distinct(list: Seq<usize>, a: int, b: int)
    requires
        list.no_duplicates(),
        0 <= a,
        b <= usize::MAX,
    ensures
        range_added(list, a, b, true).no_duplicates(),
    decreases b - a + 1,
{
    if a <= b {
        let next = if list.contains(a as usize) {
            list
        } else {
            list.push(a as usize)
        };
        assert(next.no_duplicates());
        lemma_range_distinct(next, a + 1, b);
    }
}

/// A list without repetitions names no processor twice.
pub proof fn law_listed_once_is_distinct(parts: Seq<Seq<char>>)
    ensures
        match listed(parts, true) {
            Ok(list) => list.no_duplicates(),
            Err(_) => true,
        },
    decreases parts.len(),
{
    if parts.len() > 0 {
        law_listed_once_is_distinct(parts.drop_last());
        match listed(parts.drop_last(), true) {
            Ok(list) => {
                let part = crate::text::trim_text(parts.last());
                match part_range(part) {
                    Ok((a, b)) => lemma_range_distinct(list, a as int, b as int),
                    Err(_) => {},
                }
            },
            Err(_) => {},
        }
    }
}

proof fn lemma_first_spot(s: Seq<char>, c: char)
    ensures
        0 <= first_of(s, c) <= s.len(),
        first_of(s, c) < s.len() ==> s[first_of(s, c)] == c,
        forall|k: int| 0 <= k < first_of(s, c) ==> #[trigger] s[k] != c,
    decreases s.len(),
{
    if s.len() > 0 && s[0] != c {
        let rest = s.drop_first();
        lemma_first_spot(rest, c);
        assert forall|k: int| 0 <= k < first_of(s, c) implies #[trigger] s[k] != c by {
            if k > 0 {
                assert(rest[k - 1] == s[k]);
            }
        }
    }
}

/// A text is split at the first place of a character, and into nothing where it does not have it: both
/// sides with the character between them are the text, and the first side does not have the character.
pub proof fn law_a_text_is_split_at_the_first_place(s: Seq<char>, c: char)
    ensures
        match sides(s, c) {
            Some((a, b)) => s == a.push(c) + b && !a.contains(c),
            None => !s.contains(c),
        },
{
    lemma_first_spot(s, c);
    match sides(s, c) {
        Some((a, b)) => {
            assert(s =~= a.push(c) + b);
            assert forall|k: int| 0 <= k < a.len() implies a[k] != c by {
                assert(a[k] == s[k]);
            }
        },
        None => {},
    }
}

/// A range names each of its numbers, in ascending order, behind what was listed before; where each number
/// is listed once, only those are added that were not there.
pub proof fn law_a_range_names_each_number(list: Seq<usize>, a: int, b: int, n: usize)
    requires
        0 <= a,
        b <= usize::MAX,
    ensures
        a <= b ==> range_added(list, a, b, false).len() == list.len() + (b - a + 1),
        a > b ==> range_added(list, a, b, false) == list,
        forall|i: int|
            0 <= i < range_added(list, a, b, false).len() ==> #[trigger] range_added(
                list,
                a,
                b,
                false,
            )[i] == if i < list.len() {
                list[i] as int
            } else {
                a + (i - list.len())
            },
        range_added(list, a, b, true).contains(n) <==> list.contains(n) || a <= n <= b,
    decreases b - a + 1,
{
    if a <= b {
        let with = list.push(a as usize);
        law_a_range_names_each_number(with, a + 1, b, n);
        let next = if list.contains(a as usize) {
            list
        } else {
            with
        };
        law_a_range_names_each_number(next, a + 1, b, n);
        assert(with.contains(n) <==> list.contains(n) || n == a) by {
            if list.contains(n) {
                let i = list.index_of(n);
                assert(with[i] == n);
            }
            assert(with[list.len() as int] == a);
        }
    }
}

} // verus!
