//! The tool that sends a command to a migration controller.
use vstd::prelude::*;
use vstd::string::*;

use crate::error::{invalid, Error, ErrorKind};
use crate::text::{join, join2, starts_with, trim_end};

verus! {

/// What is wrong with a command line.
pub open spec fn command_fault(count: nat) -> Option<(ErrorKind, Seq<char>)> {
    if count == 0 {
        Some(
            crate::error::bad_input("usage: zcnblk-direct-migratectl SOCKET COMMAND [ARG ...]"@),
        )
    } else if count == 1 {
        Some(crate::error::bad_input("migration control command is empty"@))
    } else {
        None
    }
}

/// The socket of a command line and the line that is sent to it: the words that follow, parted by spaces.
pub fn control_line(args: &Vec<String>) -> (r: Result<(String, String), Error>)
    ensures
        match r {
            Ok((socket, line)) => {
                &&& command_fault(args@.len()) is None
                &&& socket@ == args@[0]@
                &&& line@ == crate::text::join_text(crate::text::texts(args@).skip(1), " "@)
                    + "\n"@
            },
            Err(e) => command_fault(args@.len()) == Some(e@),
        },
{
    let count: usize = args.len();
    if count == 0 {
        return Err(invalid("usage: zcnblk-direct-migratectl SOCKET COMMAND [ARG ...]"));
    }
    if count == 1 {
        return Err(invalid("migration control command is empty"));
    }
    let mut words: Vec<String> = Vec::new();
    let mut i: usize = 1;
    while i < count
        invariant
            1 <= i <= count,
            count == args@.len(),
            words@.len() == i - 1,
            forall|k: int| 0 <= k < i - 1 ==> (#[trigger] words@[k])@ == args@[k + 1]@,
        decreases count - i,
    {
        words.push(args[i].clone());
        i = i + 1;
    }
    proof {
        assert(crate::text::texts(words@) =~= crate::text::texts(args@).skip(1));
    }
    let joined: String = join(&words, " ");
    Ok((args[0].clone(), join2(joined.as_str(), "\n")))
}

/// Checks what a controller has answered.
pub fn check_answer(response: &str) -> (r: Result<(), Error>)
    ensures
        match r {
            Ok(_) => crate::text::begins_with(response@, "OK "@),
            Err(e) => !crate::text::begins_with(response@, "OK "@) && e@ == (
                ErrorKind::Other,
                "migration controller rejected the command: "@ + crate::text::trim_end_text(
                    response@,
                ),
            ),
        },
{
    if starts_with(response, "OK ") {
        return Ok(());
    }
    let shown: String = trim_end(response);
    Err(
        Error::new(
            ErrorKind::Other,
            join2("migration controller rejected the command: ", shown.as_str()),
        ),
    )
}

} // verus!
