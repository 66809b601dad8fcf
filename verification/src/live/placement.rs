//! Where the threads of a run are placed, and how that is told.
use vstd::prelude::*;
use vstd::string::*;

use crate::cpus::holds;
use crate::error::{invalid_input, Error};
use crate::text::{
    all_digit_chars, chars_of, decimal, join, join2, join3, join4, parse_unsigned, split,
    starts_with, str_eq, string_between,
};
#[allow(unused_imports)]
use crate::error::Fault;

verus! {

/// The words for a node that may not be known.
pub open spec fn node_text(node: Option<u32>) -> Seq<char> {
    match node {
        Some(n) => crate::text::decimal_text(n as nat),
        None => "unknown"@,
    }
}

/// The words for a node that may not be known.
pub fn option_node(node: Option<u32>) -> (s: String)
    ensures
        s@ == node_text(node),
{
    match node {
        Some(n) => decimal(n as u64),
        None => String::from_str("unknown"),
    }
}

/// Which worker runs on which processor.
pub open spec fn worker_items(cpus: Seq<usize>) -> Seq<Seq<char>> {
    Seq::new(
        cpus.len(),
        |i: int|
            crate::text::decimal_text(i as nat) + ":"@ + crate::text::decimal_text(cpus[i] as nat),
    )
}

/// Which worker runs on which processor.
pub fn cpu_label(cpus: &Vec<usize>) -> (s: String)
    ensures
        s@ == crate::text::join_text(worker_items(cpus@), ","@),
{
    let mut items: Vec<String> = Vec::new();
    let count: usize = cpus.len();
    let mut i: usize = 0;
    while i < count
        invariant
            i <= count,
            count == cpus@.len(),
            items@.len() == i,
            forall|k: int| 0 <= k < i ==> (#[trigger] items@[k])@ == worker_items(cpus@)[k],
        decreases count - i,
    {
        let worker: String = decimal(i as u64);
        let cpu: String = decimal(cpus[i] as u64);
        items.push(join3(worker.as_str(), ":", cpu.as_str()));
        i = i + 1;
    }
    proof {
        assert(crate::text::texts(items@) =~= worker_items(cpus@));
    }
    join(&items, ",")
}

/// Which processor is on which node.
pub open spec fn node_items(cpus: Seq<usize>, nodes: Seq<Option<u32>>) -> Seq<Seq<char>> {
    Seq::new(
        if cpus.len() <= nodes.len() {
            cpus.len()
        } else {
            nodes.len()
        },
        |i: int| crate::text::decimal_text(cpus[i] as nat) + ":"@ + node_text(nodes[i]),
    )
}

/// Which processor is on which node.
pub fn cpu_node_label(cpus: &Vec<usize>, nodes: &Vec<Option<u32>>) -> (s: String)
    ensures
        s@ == crate::text::join_text(node_items(cpus@, nodes@), ","@),
{
    let mut items: Vec<String> = Vec::new();
    let count: usize = if cpus.len() <= nodes.len() {
        cpus.len()
    } else {
        nodes.len()
    };
    let mut i: usize = 0;
    while i < count
        invariant
            i <= count,
            count <= cpus@.len(),
            count <= nodes@.len(),
            count == node_items(cpus@, nodes@).len(),
            items@.len() == i,
            forall|k: int| 0 <= k < i ==> (#[trigger] items@[k])@ == node_items(cpus@, nodes@)[k],
        decreases count - i,
    {
        let cpu: String = decimal(cpus[i] as u64);
        let node: String = option_node(nodes[i]);
        items.push(join3(cpu.as_str(), ":", node.as_str()));
        i = i + 1;
    }
    proof {
        assert(crate::text::texts(items@) =~= node_items(cpus@, nodes@));
    }
    join(&items, ",")
}

/// Some processors.
pub open spec fn set_items(cpus: Seq<usize>) -> Seq<Seq<char>> {
    cpus.map_values(|n: usize| crate::text::decimal_text(n as nat))
}

/// Some processors.
pub fn cpu_set_label(cpus: &Vec<usize>) -> (s: String)
    ensures
        s@ == crate::text::join_text(set_items(cpus@), ","@),
{
    let mut items: Vec<String> = Vec::new();
    let count: usize = cpus.len();
    let mut i: usize = 0;
    while i < count
        invariant
            i <= count,
            count == cpus@.len(),
            items@.len() == i,
            forall|k: int| 0 <= k < i ==> (#[trigger] items@[k])@ == set_items(cpus@)[k],
        decreases count - i,
    {
        items.push(decimal(cpus[i] as u64));
        i = i + 1;
    }
    proof {
        assert(crate::text::texts(items@) =~= set_items(cpus@));
    }
    join(&items, ",")
}

/// Which lane is served by which worker: each by its own.
pub open spec fn lane_items(workers: nat) -> Seq<Seq<char>> {
    Seq::new(
        workers,
        |i: int| crate::text::decimal_text(i as nat) + ":"@ + crate::text::decimal_text(i as nat),
    )
}

/// Which lane is served by which worker.
pub fn lane_label(workers: usize) -> (s: String)
    ensures
        s@ == crate::text::join_text(lane_items(workers as nat), ","@),
{
    let mut items: Vec<String> = Vec::new();
    let mut i: usize = 0;
    while i < workers
        invariant
            i <= workers,
            items@.len() == i,
            forall|k: int| 0 <= k < i ==> (#[trigger] items@[k])@ == lane_items(workers as nat)[k],
        decreases workers - i,
    {
        let lane: String = decimal(i as u64);
        items.push(join3(lane.as_str(), ":", lane.as_str()));
        i = i + 1;
    }
    proof {
        assert(crate::text::texts(items@) =~= lane_items(workers as nat));
    }
    join(&items, ",")
}

/// A finding that stops a run only where it is strict; else it is a warning.
pub open spec fn found(r: Result<Option<String>, Error>, bad: bool, strict: bool, text: Seq<char>) -> bool {
    match r {
        Ok(None) => !bad,
        Ok(Some(warning)) => bad && !strict && warning@ == text,
        Err(e) => bad && strict && e@ == crate::error::bad_input(text),
    }
}

fn finding(strict: bool, text: String) -> (r: Result<Option<String>, Error>)
    ensures
        found(r, true, strict, text@),
{
    if strict {
        Err(invalid_input(text))
    } else {
        Ok(Some(text))
    }
}

/// Whether a worker is to run where the process must not.
pub open spec fn outside(cpus: Seq<usize>, allowed: Seq<usize>) -> bool {
    exists|i: int| 0 <= i < cpus.len() && !allowed.contains(#[trigger] cpus[i])
}

/// Looks for workers that are to run where the process must not.
pub fn check_affinity(cpus: &Vec<usize>, allowed: &Vec<usize>, strict: bool) -> (r: Result<
    Option<String>,
    Error,
>)
    ensures
        found(
            r,
            outside(cpus@, allowed@),
            strict,
            "worker CPU mapping references CPU outside process affinity: allowed="@
                + crate::text::join_text(set_items(allowed@), ","@) + " map="@
                + crate::text::join_text(worker_items(cpus@), ","@),
        ),
{
    let count: usize = cpus.len();
    let mut i: usize = 0;
    while i < count
        invariant
            i <= count,
            count == cpus@.len(),
            forall|k: int| 0 <= k < i ==> allowed@.contains(#[trigger] cpus@[k]),
        decreases count - i,
    {
        if !holds(allowed, cpus[i]) {
            proof {
                assert(!allowed@.contains(cpus@[i as int]));
            }
            let set: String = cpu_set_label(allowed);
            let map: String = cpu_label(cpus);
            return finding(
                strict,
                join4(
                    "worker CPU mapping references CPU outside process affinity: allowed=",
                    set.as_str(),
                    " map=",
                    map.as_str(),
                ),
            );
        }
        i = i + 1;
    }
    Ok(None)
}

/// Whether a node is that of every worker.
pub open spec fn is_common(nodes: Seq<Option<u32>>, node: u32) -> bool {
    nodes.len() > 0 && forall|i: int| 0 <= i < nodes.len() ==> (#[trigger] nodes[i]) == Some(node)
}

/// The node of every worker, where they share one.
pub fn common_node(nodes: &Vec<Option<u32>>) -> (r: Option<u32>)
    ensures
        match r {
            Some(node) => is_common(nodes@, node),
            None => forall|node: u32| !is_common(nodes@, node),
        },
{
    if nodes.len() == 0 {
        return None;
    }
    match nodes[0] {
        None => {
            proof {
                assert forall|node: u32| !is_common(nodes@, node) by {
                    assert(nodes@[0] != Some(node));
                }
            }
            None
        },
        Some(first) => {
            let mut i: usize = 0;
            while i < nodes.len()
                invariant
                    i <= nodes@.len(),
                    nodes@.len() > 0,
                    nodes@[0] == Some(first),
                    forall|k: int| 0 <= k < i ==> (#[trigger] nodes@[k]) == Some(first),
                decreases nodes@.len() - i,
            {
                let same: bool = match nodes[i] {
                    Some(n) => n == first,
                    None => false,
                };
                if !same {
                    proof {
                        assert forall|node: u32| !is_common(nodes@, node) by {
                            assert(nodes@[0] != Some(node) || nodes@[i as int] != Some(node));
                        }
                    }
                    return None;
                }
                i = i + 1;
            }
            Some(first)
        },
    }
}

/// Looks for workers that are not on one node.
pub fn check_nodes(
    common: Option<u32>,
    cpus: &Vec<usize>,
    nodes: &Vec<Option<u32>>,
    strict: bool,
) -> (r: Result<Option<String>, Error>)
    ensures
        found(
            r,
            common is None,
            strict,
            "foreground workers do not resolve to one NUMA node: mapping="@
                + crate::text::join_text(node_items(cpus@, nodes@), ","@),
        ),
{
    if common.is_some() {
        return Ok(None);
    }
    let map: String = cpu_node_label(cpus, nodes);
    finding(
        strict,
        join2("foreground workers do not resolve to one NUMA node: mapping=", map.as_str()),
    )
}

/// The first processor, from an index on, that is free and on a node; `nodes` gives the node of each
/// allowed processor, where it is known.
pub open spec fn free_on_node(
    allowed: Seq<usize>,
    nodes: Seq<Option<u32>>,
    taken: Seq<usize>,
    node: u32,
    i: int,
) -> Option<usize>
    decreases allowed.len() - i,
{
    if i < 0 || i >= allowed.len() || i >= nodes.len() {
        None
    } else if !taken.contains(allowed[i]) && nodes[i] == Some(node) {
        Some(allowed[i])
    } else {
        free_on_node(allowed, nodes, taken, node, i + 1)
    }
}

/// The processor that copies: the one that was asked for, else a free one on the workers' node, else that
/// of the first worker.
pub open spec fn copier_of(
    asked: Option<usize>,
    common: Option<u32>,
    allowed: Seq<usize>,
    nodes: Seq<Option<u32>>,
    cpus: Seq<usize>,
) -> usize {
    match asked {
        Some(cpu) => cpu,
        None => match common {
            Some(node) => match free_on_node(allowed, nodes, cpus, node, 0) {
                Some(cpu) => cpu,
                None => cpus[0],
            },
            None => cpus[0],
        },
    }
}

/// The processor that copies.
pub fn copy_cpu(
    asked: Option<usize>,
    common: Option<u32>,
    allowed: &Vec<usize>,
    nodes: &Vec<Option<u32>>,
    cpus: &Vec<usize>,
) -> (cpu: usize)
    requires
        cpus@.len() > 0,
        nodes@.len() == allowed@.len(),
    ensures
        cpu == copier_of(asked, common, allowed@, nodes@, cpus@),
{
    if let Some(cpu) = asked {
        return cpu;
    }
    if let Some(node) = common {
        let count: usize = allowed.len();
        let mut i: usize = 0;
        while i < count
            invariant
                i <= count,
                count == allowed@.len(),
                count == nodes@.len(),
                asked is None,
                common == Some(node),
                cpus@.len() > 0,
                free_on_node(allowed@, nodes@, cpus@, node, 0) == free_on_node(
                    allowed@,
                    nodes@,
                    cpus@,
                    node,
                    i as int,
                ),
            decreases count - i,
        {
            let there: bool = match nodes[i] {
                Some(n) => n == node,
                None => false,
            };
            if there && !holds(cpus, allowed[i]) {
                return allowed[i];
            }
            i = i + 1;
        }
    }
    cpus[0]
}

/// Why a processor cannot copy.
pub open spec fn copier_fault(
    cpu: usize,
    allowed: Seq<usize>,
    node: Option<u32>,
    common: Option<u32>,
) -> Option<Fault> {
    if !allowed.contains(cpu) {
        Some(
            crate::error::bad_input(
                "migration copy CPU "@ + crate::text::decimal_text(cpu as nat)
                    + " is outside process affinity"@,
            ),
        )
    } else if common is Some && node != common {
        Some(
            crate::error::bad_input(
                "migration copy CPU "@ + crate::text::decimal_text(cpu as nat) + " is on node "@
                    + node_text(node) + ", foreground is on node "@ + node_text(common),
            ),
        )
    } else {
        None
    }
}

/// Checks that a processor can copy.
pub fn check_copy_cpu(
    cpu: usize,
    allowed: &Vec<usize>,
    node: Option<u32>,
    common: Option<u32>,
) -> (r: Result<(), Error>)
    ensures
        match r {
            Ok(_) => copier_fault(cpu, allowed@, node, common) is None,
            Err(e) => copier_fault(cpu, allowed@, node, common) == Some(e@),
        },
{
    let digits: String = decimal(cpu as u64);
    if !holds(allowed, cpu) {
        return Err(
            invalid_input(
                join3("migration copy CPU ", digits.as_str(), " is outside process affinity"),
            ),
        );
    }
    let astray: bool = match common {
        None => false,
        Some(wanted) => match node {
            Some(n) => n != wanted,
            None => true,
        },
    };
    if astray {
        let own: String = option_node(node);
        let theirs: String = option_node(common);
        let head: String = join4(
            "migration copy CPU ",
            digits.as_str(),
            " is on node ",
            own.as_str(),
        );
        return Err(
            invalid_input(join3(head.as_str(), ", foreground is on node ", theirs.as_str())),
        );
    }
    Ok(())
}

/// The node that the name of a directory of a processor gives: `node` and a number.
pub open spec fn node_named(name: Seq<char>) -> Result<Option<u32>, Fault> {
    let rest = name.subrange(4, name.len() as int);
    if crate::text::begins_with(name, "node"@) && rest.len() > 0 && crate::text::all_digits(rest) {
        match crate::text::unsigned_value(rest, u32::MAX as nat) {
            Some(n) => Ok(Some(n as u32)),
            None => Err(crate::error::bad_input("invalid NUMA node name "@ + name)),
        }
    } else {
        Ok(None)
    }
}

/// The node that the name of a directory of a processor gives.
pub fn cpu_numa_node(name: &str) -> (r: Result<Option<u32>, Error>)
    ensures
        crate::error::agrees(r, node_named(name@)),
{
    proof {
        reveal_strlit("node");
    }
    if !starts_with(name, "node") {
        return Ok(None);
    }
    let chars: Vec<char> = chars_of(name);
    let rest: String = string_between(chars.as_slice(), 4, chars.len());
    if rest.as_str().is_empty() || !all_digit_chars(rest.as_str()) {
        return Ok(None);
    }
    match parse_unsigned(rest.as_str(), u32::MAX as u64) {
        Some(n) => Ok(Some(n as u32)),
        None => Err(invalid_input(join2("invalid NUMA node name ", name))),
    }
}

/// Whether a setting is on: it is there, and it is not `0`.
pub fn env_flag(setting: &Option<String>) -> (on: bool)
    ensures
        on == (setting is Some && setting->0@ != "0"@),
{
    match setting {
        Some(text) => !str_eq(text.as_str(), "0"),
        None => false,
    }
}

/// Whether a line stands in a text. A line ends with a line feed, before which a carriage return does not
/// count.
pub open spec fn has_line(text: Seq<char>, line: Seq<char>) -> bool {
    let parts = crate::text::split_text(text, '\n');
    exists|i: int|
        0 <= i < parts.len() && ((#[trigger] parts[i]) == line || (i < parts.len() - 1 && parts[i]
            == line + "\r"@))
}

fn holds_line(parts: &Vec<String>, line: &str) -> (yes: bool)
    ensures
        yes == exists|i: int|
            0 <= i < parts@.len() && ((#[trigger] crate::text::texts(parts@)[i]) == line@ || (i
                < parts@.len() - 1 && crate::text::texts(parts@)[i] == line@ + "\r"@)),
{
    let count: usize = parts.len();
    let ghost views = crate::text::texts(parts@);
    let returned: String = join2(line, "\r");
    let mut i: usize = 0;
    while i < count
        invariant
            i <= count,
            count == parts@.len(),
            views == crate::text::texts(parts@),
            returned@ == line@ + "\r"@,
            forall|k: int|
                0 <= k < i ==> (#[trigger] views[k]) != line@ && !(k < count - 1 && views[k]
                    == line@ + "\r"@),
        decreases count - i,
    {
        proof {
            assert(views[i as int] == parts@[i as int]@);
        }
        if str_eq(parts[i].as_str(), line) || (i < count - 1 && str_eq(
            parts[i].as_str(),
            returned.as_str(),
        )) {
            return true;
        }
        i = i + 1;
    }
    false
}

/// Whether the system is shared with others: what a setting says, else unless the manifest of the system
/// says that it is dedicated and that this is honoured.
pub open spec fn is_shared(setting: Option<Seq<char>>, manifest: Option<Seq<char>>) -> bool {
    match setting {
        Some(text) => text != "0"@,
        None => match manifest {
            None => true,
            Some(text) => !(has_line(text, "coordination_scope=dedicated-adhoc-instance"@)
                && has_line(text, "coordination_honored=true"@)),
        },
    }
}

/// Whether the system is shared with others.
pub fn shared_system_measurement(setting: &Option<String>, manifest: &Option<String>) -> (yes: bool)
    ensures
        yes == is_shared(crate::args::said(*setting), crate::args::said(*manifest)),
{
    match setting {
        Some(text) => !str_eq(text.as_str(), "0"),
        None => match manifest {
            None => true,
            Some(text) => {
                let parts: Vec<String> = split(text.as_str(), '\n');
                !(holds_line(&parts, "coordination_scope=dedicated-adhoc-instance") && holds_line(
                    &parts,
                    "coordination_honored=true",
                ))
            },
        },
    }
}

proof fn lemma_free_on_node(
    allowed: Seq<usize>,
    nodes: Seq<Option<u32>>,
    taken: Seq<usize>,
    node: u32,
    i: int,
)
    requires
        0 <= i,
        nodes.len() == allowed.len(),
    ensures
        match free_on_node(allowed, nodes, taken, node, i) {
            Some(cpu) => exists|k: int|
                i <= k < allowed.len() && #[trigger] allowed[k] == cpu && nodes[k] == Some(node)
                    && !taken.contains(cpu),
            None => forall|k: int|
                i <= k < allowed.len() ==> taken.contains(#[trigger] allowed[k]) || nodes[k] != Some(
                    node,
                ),
        },
    decreases allowed.len() - i,
{
    if i < allowed.len() {
        if !taken.contains(allowed[i]) && nodes[i] == Some(node) {
            assert(allowed[i] == allowed[i]);
        } else {
            lemma_free_on_node(allowed, nodes, taken, node, i + 1);
            match free_on_node(allowed, nodes, taken, node, i + 1) {
                Some(cpu) => {
                    let k = choose|k: int|
                        i + 1 <= k < allowed.len() && #[trigger] allowed[k] == cpu && nodes[k] == Some(
                            node,
                        ) && !taken.contains(cpu);
                    assert(allowed[k] == cpu);
                },
                None => {},
            }
        }
    }
}

/// The copy runs on the processor that was asked for. Otherwise it runs on one of the workers' node that
/// the process may use and no worker has, if there is one, and else beside the first worker.
pub proof fn law_the_copier_is_placed_near_the_workers(
    asked: Option<usize>,
    common: Option<u32>,
    allowed: Seq<usize>,
    nodes: Seq<Option<u32>>,
    cpus: Seq<usize>,
)
    requires
        cpus.len() > 0,
        nodes.len() == allowed.len(),
    ensures
        ({
            let cpu = copier_of(asked, common, allowed, nodes, cpus);
            &&& asked is Some ==> cpu == asked->0
            &&& asked is None && common is None ==> cpu == cpus[0]
            &&& asked is None && common is Some ==> {
                ||| exists|k: int|
                    0 <= k < allowed.len() && #[trigger] allowed[k] == cpu && nodes[k] == common
                        && !cpus.contains(cpu)
                ||| cpu == cpus[0] && forall|k: int|
                    0 <= k < allowed.len() ==> cpus.contains(#[trigger] allowed[k]) || nodes[k]
                        != common
            }
        }),
{
    if common is Some {
        lemma_free_on_node(allowed, nodes, cpus, common->0, 0);
    }
}

/// A processor for the copy is accepted exactly where the process may use it and it is on the node of the
/// workers, if they have one in common.
pub proof fn law_a_copier_elsewhere_is_refused(
    cpu: usize,
    allowed: Seq<usize>,
    node: Option<u32>,
    common: Option<u32>,
)
    ensures
        copier_fault(cpu, allowed, node, common) is None <==> allowed.contains(cpu) && (common is None
            || node == common),
{
}

/// A node that is named by its number is found under it.
pub proof fn law_a_node_is_found_by_its_number(n: u32)
    ensures
        node_named("node"@ + crate::text::decimal_text(n as nat)) == Ok::<Option<u32>, Fault>(
            Some(n),
        ),
{
    reveal_strlit("node");
    let digits = crate::text::decimal_text(n as nat);
    let name = "node"@ + digits;
    assert(name.subrange(4, name.len() as int) =~= digits);
    assert(name.subrange(0, 4) =~= "node"@);
    crate::text::law_decimal_parses(n as nat, u32::MAX as nat);
    crate::text::lemma_decimal_digits(n as nat);
}

} // verus!
