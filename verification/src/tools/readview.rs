//! The benchmark of a published view: how its work is divided, and where its workers run.
use vstd::prelude::*;
use vstd::string::*;

use crate::args::value_at;
use crate::error::{invalid, invalid_input, Error};
use crate::text::{
    decimal, join, join2, join3, join4, parse_size, parse_unsigned, quoted, split, str_eq,
};
#[allow(unused_imports)]
use crate::error::Fault;

verus! {

/// The number of processors that an affinity mask holds.
pub const CPU_SETSIZE: usize = 1024;

/// What is said of a text that is no number.
pub open spec fn no_number(text: Seq<char>, label: Seq<char>) -> Fault {
    crate::error::bad_input("invalid "@ + label + " "@ + crate::text::debug_text(text))
}

/// The number that a text gives.
pub open spec fn number_of(text: Seq<char>, label: Seq<char>) -> Result<u64, Fault> {
    match crate::text::unsigned_value(text, u64::MAX as nat) {
        Some(n) => Ok(n as u64),
        None => Err(no_number(text, label)),
    }
}

/// The size that a text gives.
pub open spec fn size_of(text: Seq<char>, label: Seq<char>) -> Result<usize, Fault> {
    match crate::text::unsigned_value(text, usize::MAX as nat) {
        Some(n) => Ok(n as usize),
        None => Err(no_number(text, label)),
    }
}

fn number_error(value: &str, label: &str) -> (e: Error)
    ensures
        e@ == no_number(value@, label@),
{
    let shown: String = quoted(value);
    invalid_input(join4("invalid ", label, " ", shown.as_str()))
}

/// The number that a text gives.
pub fn parse_u64(value: &str, label: &str) -> (r: Result<u64, Error>)
    ensures
        crate::error::agrees(r, number_of(value@, label@)),
{
    match parse_unsigned(value, u64::MAX) {
        Some(n) => Ok(n),
        None => Err(number_error(value, label)),
    }
}

/// The size that a text gives.
pub fn parse_usize(value: &str, label: &str) -> (r: Result<usize, Error>)
    ensures
        crate::error::agrees(r, size_of(value@, label@)),
{
    match parse_size(value) {
        Some(n) => Ok(n),
        None => Err(number_error(value, label)),
    }
}

/// The processors that some parts give, in turn; empty parts do not count.
pub open spec fn cpus_in(parts: Seq<Seq<char>>) -> Result<Seq<usize>, Fault>
    decreases parts.len(),
{
    if parts.len() == 0 {
        Ok(Seq::empty())
    } else {
        match cpus_in(parts.drop_last()) {
            Err(e) => Err(e),
            Ok(list) => if parts.last().len() == 0 {
                Ok(list)
            } else {
                match size_of(parts.last(), "CPU"@) {
                    Err(e) => Err(e),
                    Ok(n) => Ok(list.push(n)),
                }
            },
        }
    }
}

proof fn lemma_cpus_fail(parts: Seq<Seq<char>>, n: int)
    requires
        0 <= n <= parts.len(),
        cpus_in(parts.subrange(0, n)) is Err,
    ensures
        cpus_in(parts) == cpus_in(parts.subrange(0, n)),
    decreases parts.len() - n,
{
    if n == parts.len() {
        assert(parts.subrange(0, n) =~= parts);
    } else {
        let next = parts.subrange(0, n + 1);
        assert(next.drop_last() =~= parts.subrange(0, n));
        lemma_cpus_fail(parts, n + 1);
    }
}

/// The processors that a text lists.
pub fn parse_cpu_list(value: &str) -> (r: Result<Vec<usize>, Error>)
    ensures
        match r {
            Ok(v) => cpus_in(crate::text::split_text(value@, ',')) == Ok::<Seq<usize>, Fault>(v@),
            Err(e) => cpus_in(crate::text::split_text(value@, ',')) == Err::<Seq<usize>, Fault>(e@),
        },
{
    let parts: Vec<String> = split(value, ',');
    let mut list: Vec<usize> = Vec::new();
    let count: usize = parts.len();
    let ghost views = crate::text::texts(parts@);
    let mut i: usize = 0;
    proof {
        assert(views.subrange(0, 0) =~= Seq::<Seq<char>>::empty());
        assert(list@ =~= Seq::<usize>::empty());
    }
    while i < count
        invariant
            i <= count,
            count == parts@.len(),
            views == crate::text::texts(parts@),
            views == crate::text::split_text(value@, ','),
            cpus_in(views.subrange(0, i as int)) == Ok::<Seq<usize>, Fault>(list@),
        decreases count - i,
    {
        proof {
            let next = views.subrange(0, i + 1);
            assert(next.drop_last() =~= views.subrange(0, i as int));
            assert(next.last() == parts@[i as int]@);
        }
        if !parts[i].as_str().is_empty() {
            match parse_usize(parts[i].as_str(), "CPU") {
                Ok(n) => {
                    list.push(n);
                },
                Err(e) => {
                    proof {
                        lemma_cpus_fail(views, i + 1);
                    }
                    return Err(e);
                },
            }
        }
        i = i + 1;
    }
    proof {
        assert(views.subrange(0, i as int) =~= views);
    }
    Ok(list)
}

/// Whether a setting is on.
pub fn env_flag(setting: &Option<String>) -> (on: bool)
    ensures
        on == match crate::args::said(*setting) {
            None => false,
            Some(text) => !(text == ""@ || text == "0"@ || text == "false"@ || text == "no"@),
        },
{
    match setting {
        None => false,
        Some(text) => {
            let word: &str = text.as_str();
            !(str_eq(word, "") || str_eq(word, "0") || str_eq(word, "false") || str_eq(word, "no"))
        },
    }
}

/// How much is to be done, and by how many.
#[derive(Clone, Copy, Debug, PartialEq, Eq, Structural)]
pub struct Work {
    pub operations: u64,
    pub workers: usize,
}

/// What a command line asks for.
pub open spec fn work_due(args: Seq<Seq<char>>) -> Result<Work, Fault> {
    let operations = match crate::args::nth(args, 0) {
        Some(text) => number_of(text, "operations"@),
        None => Ok(50_000_000u64),
    };
    match operations {
        Err(e) => Err(e),
        Ok(operations) => {
            let workers = match crate::args::nth(args, 1) {
                Some(text) => size_of(text, "workers"@),
                None => Ok(1usize),
            };
            match workers {
                Err(e) => Err(e),
                Ok(workers) => if operations == 0 || workers == 0 {
                    Err(crate::error::bad_input("operations and workers must be nonzero"@))
                } else {
                    Ok(Work { operations, workers })
                },
            }
        },
    }
}

/// What a command line asks for.
pub fn parse_work(args: &Vec<String>) -> (r: Result<Work, Error>)
    ensures
        crate::error::agrees(r, work_due(crate::text::texts(args@))),
{
    let operations: u64 = match value_at(args.as_slice(), 0) {
        Some(text) => match parse_u64(text.as_str(), "operations") {
            Ok(n) => n,
            Err(e) => {
                return Err(e);
            },
        },
        None => 50_000_000,
    };
    let workers: usize = match value_at(args.as_slice(), 1) {
        Some(text) => match parse_usize(text.as_str(), "workers") {
            Ok(n) => n,
            Err(e) => {
                return Err(e);
            },
        },
        None => 1,
    };
    if operations == 0 || workers == 0 {
        return Err(invalid("operations and workers must be nonzero"));
    }
    Ok(Work { operations, workers })
}

/// How many operations a worker does: an even share, and one more while some are left over.
pub open spec fn share_of(operations: int, workers: int, worker: int) -> int {
    operations / workers + if worker < operations % workers {
        1int
    } else {
        0int
    }
}

/// How many operations a worker does.
pub fn worker_operations(operations: u64, workers: usize, worker: usize) -> (n: u64)
    requires
        worker < workers,
    ensures
        n == share_of(operations as int, workers as int, worker as int),
{
    let each: u64 = operations / (workers as u64);
    let left: u64 = operations % (workers as u64);
    if (worker as u64) < left {
        proof {
            vstd::arithmetic::div_mod::lemma_fundamental_div_mod(
                operations as int,
                workers as int,
            );
            assert(each + 1 <= operations) by (nonlinear_arith)
                requires
                    operations == workers * each + left,
                    left > worker,
                    workers > worker,
                    workers >= 1,
                    each >= 0,
                    worker >= 0,
            ;
        }
        each + 1
    } else {
        each
    }
}

/// How many operations the first workers do together.
pub open spec fn shares(operations: int, workers: int, n: int) -> int
    decreases n,
{
    if n <= 0 {
        0
    } else {
        shares(operations, workers, n - 1) + share_of(operations, workers, n - 1)
    }
}

/// The workers together do every operation once.
pub proof fn law_the_shares_add_up(operations: int, workers: int)
    requires
        0 <= operations,
        0 < workers,
    ensures
        shares(operations, workers, workers) == operations,
{
    lemma_shares(operations, workers, workers);
    vstd::arithmetic::div_mod::lemma_fundamental_div_mod(operations, workers);
    vstd::arithmetic::div_mod::lemma_mod_bound(operations, workers);
}

proof fn lemma_shares(operations: int, workers: int, n: int)
    requires
        0 <= operations,
        0 < workers,
        0 <= n <= workers,
    ensures
        shares(operations, workers, n) == n * (operations / workers) + if n <= operations
            % workers {
            n
        } else {
            operations % workers
        },
    decreases n,
{
    let q = operations / workers;
    vstd::arithmetic::div_mod::lemma_mod_bound(operations, workers);
    if n == 0 {
        assert(n * q == 0) by (nonlinear_arith)
            requires
                n == 0,
        ;
    } else {
        lemma_shares(operations, workers, n - 1);
        assert(n * q == (n - 1) * q + q) by (nonlinear_arith);
    }
}

/// Which worker runs on which processor, where that is said.
pub open spec fn lane_items(workers: nat, cpus: Seq<usize>) -> Seq<Seq<char>> {
    Seq::new(
        workers,
        |i: int|
            {
                let n = crate::text::decimal_text(i as nat);
                "lane"@ + n + ":worker"@ + n + if i < cpus.len() {
                    ":cpu"@ + crate::text::decimal_text(cpus[i] as nat)
                } else {
                    ":cpu-unpinned"@
                }
            },
    )
}

/// Which worker runs on which processor.
pub fn lane_map(workers: usize, cpus: &Vec<usize>) -> (s: String)
    ensures
        s@ == crate::text::join_text(lane_items(workers as nat, cpus@), ","@),
{
    let mut items: Vec<String> = Vec::new();
    let mut i: usize = 0;
    while i < workers
        invariant
            i <= workers,
            items@.len() == i,
            forall|k: int|
                0 <= k < i ==> (#[trigger] items@[k])@ == lane_items(workers as nat, cpus@)[k],
        decreases workers - i,
    {
        let n: String = decimal(i as u64);
        let head: String = join4("lane", n.as_str(), ":worker", n.as_str());
        let tail: String = if i < cpus.len() {
            let cpu: String = decimal(cpus[i] as u64);
            join2(":cpu", cpu.as_str())
        } else {
            String::from_str(":cpu-unpinned")
        };
        items.push(join2(head.as_str(), tail.as_str()));
        i = i + 1;
    }
    proof {
        assert(crate::text::texts(items@) =~= lane_items(workers as nat, cpus@));
    }
    join(&items, ",")
}

/// What is said of workers for which no processor is given.
pub open spec fn unpinned_text(workers: usize, cpus: nat) -> Seq<char> {
    "worker CPU pinning missing: workers="@ + crate::text::decimal_text(workers as nat)
        + " supplied_cpus="@ + crate::text::decimal_text(cpus)
        + "; result is non-representative"@
}

/// Looks for workers for which no processor is given; that stops a run only where it is strict.
pub fn check_pinning(workers: usize, cpus: &Vec<usize>, strict: bool) -> (r: Result<
    Option<String>,
    Error,
>)
    ensures
        crate::live::placement::found(
            r,
            cpus@.len() < workers,
            strict,
            unpinned_text(workers, cpus@.len()),
        ),
{
    let count: usize = cpus.len();
    if count >= workers {
        return Ok(None);
    }
    let wanted: String = decimal(workers as u64);
    let given: String = decimal(count as u64);
    let head: String = join4(
        "worker CPU pinning missing: workers=",
        wanted.as_str(),
        " supplied_cpus=",
        given.as_str(),
    );
    let text: String = join2(head.as_str(), "; result is non-representative");
    if strict {
        Err(invalid_input(text))
    } else {
        Ok(Some(text))
    }
}

/// Checks that a processor fits in an affinity mask.
pub fn check_cpu(cpu: usize) -> (r: Result<(), Error>)
    ensures
        match r {
            Ok(_) => cpu < 1024,
            Err(e) => cpu >= 1024 && e@ == crate::error::bad_input(
                "CPU "@ + crate::text::decimal_text(cpu as nat) + " exceeds CPU_SETSIZE"@,
            ),
        },
{
    if cpu >= CPU_SETSIZE {
        let digits: String = decimal(cpu as u64);
        return Err(invalid_input(join3("CPU ", digits.as_str(), " exceeds CPU_SETSIZE")));
    }
    Ok(())
}

/// A list of processors has one for each part, in order, as its number says.
pub proof fn law_processors_are_named_in_order(parts: Seq<Seq<char>>, i: int)
    requires
        forall|k: int| 0 <= k < parts.len() ==> (#[trigger] parts[k]).len() > 0,
        cpus_in(parts) is Ok,
        0 <= i < parts.len(),
    ensures
        cpus_in(parts)->Ok_0.len() == parts.len(),
        Some(cpus_in(parts)->Ok_0[i] as nat) == crate::text::unsigned_value(
            parts[i],
            usize::MAX as nat,
        ),
    decreases parts.len(),
{
    let rest = parts.drop_last();
    assert(parts.last() == parts[parts.len() - 1]);
    if rest.len() == 0 {
        assert(cpus_in(rest) == Ok::<Seq<usize>, Fault>(Seq::empty()));
    } else {
        if i < rest.len() {
            law_processors_are_named_in_order(rest, i);
        } else {
            law_processors_are_named_in_order(rest, 0);
        }
    }
}

} // verus!
