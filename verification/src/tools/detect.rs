//! The tool that tells what is known of the machine it runs on, with what the operator adds.
use vstd::prelude::*;
use vstd::string::*;

use crate::args::value_at;
use crate::error::{invalid, invalid_input, Error};
use crate::text::{join2, split, str_eq};
#[allow(unused_imports)]
use crate::error::Fault;

verus! {

/// What a command line adds; nothing where it asks how the tool is called.
pub open spec fn overrides_from(rest: Seq<Seq<char>>, list: Seq<Seq<char>>) -> Result<
    Option<Seq<Seq<char>>>,
    Fault,
>
    decreases rest.len(),
{
    if rest.len() == 0 {
        Ok(Some(list))
    } else if rest[0] == "--set"@ {
        if rest.len() == 1 {
            Err(crate::error::bad_input("--set requires key=value"@))
        } else {
            overrides_from(rest.skip(2), list.push(rest[1]))
        }
    } else if rest[0] == "--help"@ || rest[0] == "-h"@ {
        Ok(None)
    } else {
        Err(crate::error::bad_input("unknown argument "@ + rest[0]))
    }
}

/// What a command line adds.
pub fn parse_overrides(args: &Vec<String>) -> (r: Result<Option<Vec<String>>, Error>)
    ensures
        match r {
            Ok(None) => overrides_from(crate::text::texts(args@), Seq::empty()) == Ok::<
                Option<Seq<Seq<char>>>,
                Fault,
            >(None),
            Ok(Some(v)) => overrides_from(crate::text::texts(args@), Seq::empty()) == Ok::<
                Option<Seq<Seq<char>>>,
                Fault,
            >(Some(crate::text::texts(v@))),
            Err(e) => overrides_from(crate::text::texts(args@), Seq::empty()) == Err::<
                Option<Seq<Seq<char>>>,
                Fault,
            >(e@),
        },
{
    let ghost views = crate::text::texts(args@);
    let ghost goal = overrides_from(views, Seq::empty());
    let count: usize = args.len();
    let mut list: Vec<String> = Vec::new();
    let mut i: usize = 0;
    proof {
        assert(views.skip(0) =~= views);
        assert(crate::text::texts(list@) =~= Seq::<Seq<char>>::empty());
    }
    while i < count
        invariant
            i <= count,
            count == args@.len(),
            views == crate::text::texts(args@),
            goal == overrides_from(views, Seq::empty()),
            goal == overrides_from(views.skip(i as int), crate::text::texts(list@)),
        decreases count - i,
    {
        let ghost rest = views.skip(i as int);
        let arg: &str = args[i].as_str();
        proof {
            assert(rest[0] == arg@);
        }
        if str_eq(arg, "--set") {
            match value_at(args.as_slice(), i + 1) {
                None => {
                    return Err(invalid("--set requires key=value"));
                },
                Some(text) => {
                    let ghost before = list@;
                    list.push(text);
                    proof {
                        assert(rest[1] == views[i + 1]);
                        assert(rest.skip(2) =~= views.skip(i + 2));
                        assert(crate::text::texts(list@) =~= crate::text::texts(before).push(text@));
                    }
                    i = i + 2;
                },
            }
        } else if str_eq(arg, "--help") || str_eq(arg, "-h") {
            return Ok(None);
        } else {
            return Err(invalid_input(join2("unknown argument ", arg)));
        }
    }
    proof {
        assert(views.skip(i as int).len() == 0);
    }
    Ok(Some(list))
}

/// The parts of a list that are not empty.
pub open spec fn non_empty(parts: Seq<Seq<char>>) -> Seq<Seq<char>>
    decreases parts.len(),
{
    if parts.len() == 0 {
        Seq::empty()
    } else if parts.last().len() == 0 {
        non_empty(parts.drop_last())
    } else {
        non_empty(parts.drop_last()).push(parts.last())
    }
}

/// Adds what the environment says, parted by commas.
pub fn add_characteristics(list: &mut Vec<String>, value: &str)
    ensures
        crate::text::texts(final(list)@) == crate::text::texts(old(list)@) + non_empty(
            crate::text::split_text(value@, ','),
        ),
{
    let parts: Vec<String> = split(value, ',');
    let ghost views = crate::text::texts(parts@);
    let ghost first = crate::text::texts(list@);
    let count: usize = parts.len();
    let mut i: usize = 0;
    proof {
        assert(views.subrange(0, 0) =~= Seq::<Seq<char>>::empty());
        assert(first + non_empty(views.subrange(0, 0)) =~= first);
    }
    while i < count
        invariant
            i <= count,
            count == parts@.len(),
            views == crate::text::texts(parts@),
            first == crate::text::texts(old(list)@),
            crate::text::texts(list@) == first + non_empty(views.subrange(0, i as int)),
        decreases count - i,
    {
        let ghost next = views.subrange(0, i + 1);
        proof {
            assert(next.drop_last() =~= views.subrange(0, i as int));
            assert(next.last() == parts@[i as int]@);
        }
        if !parts[i].as_str().is_empty() {
            let ghost before = list@;
            list.push(parts[i].clone());
            proof {
                assert(crate::text::texts(list@) =~= crate::text::texts(before).push(next.last()));
                assert(crate::text::texts(list@) =~= first + non_empty(next));
            }
        }
        i = i + 1;
    }
    proof {
        assert(views.subrange(0, i as int) =~= views);
    }
}

/// The parts that are not empty are all taken, in their order, and no empty one.
pub proof fn law_only_empty_parts_are_left_out(parts: Seq<Seq<char>>, one: Seq<char>)
    ensures
        non_empty(parts.push(one)) == if one.len() == 0 {
            non_empty(parts)
        } else {
            non_empty(parts).push(one)
        },
        non_empty(Seq::empty()).len() == 0,
        forall|i: int| 0 <= i < non_empty(parts).len() ==> (#[trigger] non_empty(parts)[i]).len() > 0,
    decreases parts.len(),
{
    assert(parts.push(one).drop_last() =~= parts);
    if parts.len() > 0 {
        law_only_empty_parts_are_left_out(parts.drop_last(), one);
    }
}

/// Overrides are taken in their order, each behind its own switch.
pub proof fn law_overrides_are_taken_in_order(
    value: Seq<char>,
    rest: Seq<Seq<char>>,
    list: Seq<Seq<char>>,
)
    ensures
        overrides_from(seq!["--set"@, value] + rest, list) == overrides_from(rest, list.push(value)),
        overrides_from(Seq::empty(), list) == Ok::<Option<Seq<Seq<char>>>, Fault>(Some(list)),
        overrides_from(seq!["--set"@], list) is Err,
{
    let all = seq!["--set"@, value] + rest;
    assert(all[0] == "--set"@ && all[1] == value);
    assert(all.skip(2) =~= rest);
}

} // verus!
