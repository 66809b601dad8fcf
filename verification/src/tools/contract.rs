//! The smoke tests of a block edge: one durable write that is read back, and one drain.
use vstd::prelude::*;
use vstd::string::*;

use crate::bytes::bytes_eq;
use crate::error::{corrupt, invalid, Error, ErrorKind};
use crate::text::{decimal, join2, number_reason, parse_unsigned};
use crate::workload::cutover::item;
#[allow(unused_imports)]
use crate::error::Fault;

verus! {

/// The target of a test and the block it uses.
#[derive(Debug)]
pub struct ContractTest {
    pub target: String,
    pub block: u64,
}

/// What is meant by [`ContractTest`].
pub struct ContractTestView {
    pub target: Seq<char>,
    pub block: u64,
}

impl View for ContractTest {
    type V = ContractTestView;

    open spec fn view(&self) -> ContractTestView {
        ContractTestView { target: self.target@, block: self.block }
    }
}

/// What a command line asks for.
pub open spec fn test_due(args: Seq<Seq<char>>) -> Result<ContractTestView, Fault> {
    let text = crate::workload::cutover::item_or(args, 1, "7"@);
    match crate::text::unsigned_value(text, u64::MAX as nat) {
        None => Err(crate::error::bad_input(crate::text::number_fault(text, u64::MAX as nat))),
        Some(block) => if args.len() > 2 {
            Err(crate::error::bad_input("usage: zcnblk-contract-smoke [target] [4k-block]"@))
        } else {
            Ok(
                ContractTestView {
                    target: crate::workload::cutover::item_or(args, 0, "/dev/zcnblk0"@),
                    block: block as u64,
                },
            )
        },
    }
}

/// What a command line asks for.
pub fn parse_contract(args: &Vec<String>) -> (r: Result<ContractTest, Error>)
    ensures
        match r {
            Ok(t) => test_due(crate::text::texts(args@)) == Ok::<ContractTestView, Fault>(t@),
            Err(e) => test_due(crate::text::texts(args@)) == Err::<ContractTestView, Fault>(e@),
        },
{
    let text: String = item(args, 1, "7");
    let block: u64 = match parse_unsigned(text.as_str(), u64::MAX) {
        Some(n) => n,
        None => {
            return Err(invalid(number_reason(text.as_str(), u64::MAX)));
        },
    };
    if args.len() > 2 {
        return Err(invalid("usage: zcnblk-contract-smoke [target] [4k-block]"));
    }
    Ok(ContractTest { target: item(args, 0, "/dev/zcnblk0"), block })
}

/// The priority that the test runs at: the class of best effort and the level below the highest.
pub fn io_priority() -> (p: u16)
    ensures
        p == 2 * 8192 + 1,
{
    16385
}

/// Checks how much of a durable write was done.
pub fn check_written(written: u64) -> (r: Result<(), Error>)
    ensures
        match r {
            Ok(_) => written == 4096,
            Err(e) => written != 4096 && e@ == (
                ErrorKind::WriteZero,
                "short RWF_DSYNC write: "@ + crate::text::decimal_text(written as nat),
            ),
        },
{
    if written == 4096 {
        return Ok(());
    }
    let digits: String = decimal(written);
    Err(Error::new(ErrorKind::WriteZero, join2("short RWF_DSYNC write: ", digits.as_str())))
}

/// Checks how much was read back, and what.
pub fn check_read_back(read: u64, written: &[u8], actual: &[u8]) -> (r: Result<(), Error>)
    ensures
        match r {
            Ok(_) => read == 4096 && written@ == actual@,
            Err(e) => if read != 4096 {
                e@ == (
                    ErrorKind::UnexpectedEof,
                    "short readback: "@ + crate::text::decimal_text(read as nat),
                )
            } else {
                written@ != actual@ && e@ == crate::error::bad_data("RWF_DSYNC readback mismatch"@)
            },
        },
{
    if read != 4096 {
        let digits: String = decimal(read);
        return Err(
            Error::new(ErrorKind::UnexpectedEof, join2("short readback: ", digits.as_str())),
        );
    }
    if bytes_eq(written, actual) {
        Ok(())
    } else {
        Err(corrupt("RWF_DSYNC readback mismatch"))
    }
}

/// The target of a drain.
pub fn parse_sync(args: &Vec<String>) -> (r: Result<String, Error>)
    ensures
        match r {
            Ok(target) => args@.len() <= 1 && target@ == crate::workload::cutover::item_or(
                crate::text::texts(args@),
                0,
                "/dev/zcnblk0"@,
            ),
            Err(e) => args@.len() > 1 && e@ == crate::error::bad_input(
                "usage: zcnblk-edge-sync [TARGET]"@,
            ),
        },
{
    if args.len() > 1 {
        return Err(invalid("usage: zcnblk-edge-sync [TARGET]"));
    }
    Ok(item(args, 0, "/dev/zcnblk0"))
}

/// Checks that a device is the same after a drain, a cutover or a failover; `what` says what it was.
pub fn same_device(before: (u64, u64), after: (u64, u64), what: &str) -> (r: Result<(), Error>)
    ensures
        match r {
            Ok(_) => before == after,
            Err(e) => before != after && e@ == (ErrorKind::Other, what@),
        },
{
    let (a, b): (u64, u64) = before;
    let (c, d): (u64, u64) = after;
    if a == c && b == d {
        Ok(())
    } else {
        Err(Error::of(ErrorKind::Other, what))
    }
}

/// The first argument is the device and the second the block on it.
pub proof fn law_the_test_names_its_block(target: Seq<char>, text: Seq<char>)
    ensures
        test_due(seq![target, text]) matches Ok(t) ==> t.target == target && Some(t.block as nat)
            == crate::text::unsigned_value(text, u64::MAX as nat),
        test_due(seq![target]) matches Ok(t) ==> t.target == target,
{
}

} // verus!
