//! Command lines: options followed by their values.
use vstd::prelude::*;
use vstd::string::*;

use crate::error::{invalid, Error};
use crate::text::parse_unsigned;
#[allow(unused_imports)]
use crate::error::Fault;

verus! {

/// The item at `i`, where there is one.
pub open spec fn nth(args: Seq<Seq<char>>, i: int) -> Option<Seq<char>> {
    if 0 <= i < args.len() {
        Some(args[i])
    } else {
        None
    }
}

/// What is left of a command line after its first `n` items.
pub open spec fn after(args: Seq<Seq<char>>, n: int) -> Seq<Seq<char>> {
    if n <= args.len() {
        args.skip(n)
    } else {
        Seq::empty()
    }
}

/// The text of an optional string.
pub open spec fn said(value: Option<String>) -> Option<Seq<char>> {
    match value {
        Some(s) => Some(s@),
        None => None,
    }
}

/// The value of an option that needs one.
pub open spec fn text_due(value: Option<Seq<char>>, missing: Seq<char>) -> Result<Seq<char>, Fault> {
    match value {
        Some(s) => Ok(s),
        None => Err(crate::error::bad_input(missing)),
    }
}

/// The value of an option that needs a number of at most `max`.
pub open spec fn number_due(
    value: Option<Seq<char>>,
    max: nat,
    missing: Seq<char>,
    wrong: Seq<char>,
) -> Result<nat, Fault> {
    match value {
        None => Err(crate::error::bad_input(missing)),
        Some(s) => match crate::text::unsigned_value(s, max) {
            Some(n) => Ok(n),
            None => Err(crate::error::bad_input(wrong)),
        },
    }
}

/// The item at `i`, where there is one.
pub fn value_at(args: &[String], i: usize) -> (value: Option<String>)
    ensures
        said(value) == nth(crate::text::texts(args@), i as int),
{
    if i < args.len() {
        Some(args[i].clone())
    } else {
        None
    }
}

/// The value of an option that needs one.
pub fn needed(value: Option<String>, missing: &str) -> (r: Result<String, Error>)
    ensures
        match r {
            Ok(s) => text_due(said(value), missing@) == Ok::<Seq<char>, Fault>(s@),
            Err(e) => text_due(said(value), missing@) == Err::<Seq<char>, Fault>(e@),
        },
{
    match value {
        Some(s) => Ok(s),
        None => Err(invalid(missing)),
    }
}

/// The value of an option that needs a number of at most `max`.
pub fn number(value: &Option<String>, max: u64, missing: &str, wrong: &str) -> (r: Result<
    u64,
    Error,
>)
    ensures
        match r {
            Ok(n) => number_due(said(*value), max as nat, missing@, wrong@) == Ok::<nat, Fault>(
                n as nat,
            ),
            Err(e) => number_due(said(*value), max as nat, missing@, wrong@) == Err::<nat, Fault>(
                e@,
            ),
        },
        r is Ok ==> r->Ok_0 <= max,
{
    match value {
        Some(s) => match parse_unsigned(s.as_str(), max) {
            Some(n) => Ok(n),
            None => Err(invalid(wrong)),
        },
        None => Err(invalid(missing)),
    }
}

} // verus!
