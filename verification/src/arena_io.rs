//! The smoke test of a shared arena: one block that is written and read without a copy.
use vstd::prelude::*;
use vstd::string::*;

use crate::error::{invalid, invalid_data, Error, ErrorKind};
use crate::text::{
    decimal, join2, join3, join4, number_reason, parse_size, parse_unsigned, split, starts_with,
};
use crate::workload::cutover::item;
#[allow(unused_imports)]
use crate::error::Fault;

verus! {

/// Whether a character parts the fields of a state.
pub open spec fn is_gap(c: char) -> bool {
    c == ' ' || c == '\t' || c == '\n' || c == '\r' || c == '\u{c}'
}

/// A state with one space for each character that parts fields.
pub open spec fn spaced(state: Seq<char>) -> Seq<char> {
    state.map_values(
        |c: char|
            if is_gap(c) {
                ' '
            } else {
                c
            },
    )
}

fn space_out(state: &str) -> (s: String)
    ensures
        s@ == spaced(state@),
{
    let chars: Vec<char> = crate::text::chars_of(state);
    let mut s: String = String::new();
    let mut i: usize = 0;
    proof {
        assert(s@ =~= spaced(state@.subrange(0, 0)));
    }
    while i < chars.len()
        invariant
            i <= chars@.len(),
            chars@ == state@,
            s@ == spaced(state@.subrange(0, i as int)),
        decreases chars@.len() - i,
    {
        let c: char = chars[i];
        if c == ' ' || c == '\t' || c == '\n' || c == '\r' || c == '\u{c}' {
            s.push(' ');
        } else {
            s.push(c);
        }
        i = i + 1;
        proof {
            assert(s@ =~= spaced(state@.subrange(0, i as int)));
        }
    }
    proof {
        assert(state@.subrange(0, i as int) =~= state@);
    }
    s
}

/// The value of the first field, from an index on, that begins with `head` and goes on as a number.
pub open spec fn field_value(fields: Seq<Seq<char>>, head: Seq<char>, i: int) -> Option<u64>
    decreases fields.len() - i,
{
    if i < 0 || i >= fields.len() {
        None
    } else if crate::text::begins_with(fields[i], head) {
        match crate::text::unsigned_value(
            fields[i].subrange(head.len() as int, fields[i].len() as int),
            u64::MAX as nat,
        ) {
            Some(n) => Some(n as u64),
            None => field_value(fields, head, i + 1),
        }
    } else {
        field_value(fields, head, i + 1)
    }
}

/// The counter of a name in a state.
pub open spec fn counter_due(state: Seq<char>, name: Seq<char>) -> Result<u64, Fault> {
    match field_value(crate::text::split_text(spaced(state), ' '), name + "="@, 0) {
        Some(n) => Ok(n),
        None => Err(crate::error::bad_data("missing "@ + name + " counter"@)),
    }
}

/// The counter of a name in a state.
pub fn counter(state: &str, name: &str) -> (r: Result<u64, Error>)
    ensures
        crate::error::agrees(r, counter_due(state@, name@)),
{
    let spaced_out: String = space_out(state);
    let fields: Vec<String> = split(spaced_out.as_str(), ' ');
    let head: String = join2(name, "=");
    let skip: usize = crate::text::chars_of(head.as_str()).len();
    let count: usize = fields.len();
    let ghost views = crate::text::texts(fields@);
    let mut i: usize = 0;
    while i < count
        invariant
            i <= count,
            count == fields@.len(),
            views == crate::text::texts(fields@),
            views == crate::text::split_text(spaced(state@), ' '),
            head@ == name@ + "="@,
            skip == head@.len(),
            field_value(views, head@, 0) == field_value(views, head@, i as int),
        decreases count - i,
    {
        proof {
            assert(views[i as int] == fields@[i as int]@);
        }
        if starts_with(fields[i].as_str(), head.as_str()) {
            let chars: Vec<char> = crate::text::chars_of(fields[i].as_str());
            let rest: String = crate::text::string_between(chars.as_slice(), skip, chars.len());
            match parse_unsigned(rest.as_str(), u64::MAX) {
                Some(n) => {
                    return Ok(n);
                },
                None => {},
            }
        }
        i = i + 1;
    }
    Err(invalid_data(join3("missing ", name, " counter")))
}

/// What the smoke test works on.
#[derive(Debug)]
pub struct ArenaTest {
    pub socket: String,
    pub device: String,
    pub lane: u32,
    pub cpu: usize,
    pub block: u64,
}

/// What is meant by [`ArenaTest`].
pub struct ArenaTestView {
    pub socket: Seq<char>,
    pub device: Seq<char>,
    pub lane: u32,
    pub cpu: usize,
    pub block: u64,
}

impl View for ArenaTest {
    type V = ArenaTestView;

    open spec fn view(&self) -> ArenaTestView {
        ArenaTestView {
            socket: self.socket@,
            device: self.device@,
            lane: self.lane,
            cpu: self.cpu,
            block: self.block,
        }
    }
}

/// The number that a text gives; a failure in the words of std where it gives none.
pub open spec fn plain_number(text: Seq<char>, max: nat) -> Result<nat, Fault> {
    match crate::text::unsigned_value(text, max) {
        Some(n) => Ok(n),
        None => Err(crate::error::bad_input(crate::text::number_fault(text, max))),
    }
}

/// What a command line asks for.
pub open spec fn test_due(args: Seq<Seq<char>>) -> Result<ArenaTestView, Fault> {
    match plain_number(crate::workload::cutover::item_or(args, 2, "0"@), u32::MAX as nat) {
        Err(e) => Err(e),
        Ok(lane) => match plain_number(
            crate::workload::cutover::item_or(args, 3, "0"@),
            usize::MAX as nat,
        ) {
            Err(e) => Err(e),
            Ok(cpu) => match plain_number(
                crate::workload::cutover::item_or(args, 4, "61"@),
                u64::MAX as nat,
            ) {
                Err(e) => Err(e),
                Ok(block) => if args.len() > 5 {
                    Err(crate::error::bad_input("too many arguments"@))
                } else {
                    Ok(
                        ArenaTestView {
                            socket: crate::workload::cutover::item_or(
                                args,
                                0,
                                "/tmp/zcnblk-app-arena.sock"@,
                            ),
                            device: crate::workload::cutover::item_or(args, 1, "/dev/zcnblk0"@),
                            lane: lane as u32,
                            cpu: cpu as usize,
                            block: block as u64,
                        },
                    )
                },
            },
        },
    }
}

/// What a command line asks for.
pub fn parse_test(args: &Vec<String>) -> (r: Result<ArenaTest, Error>)
    ensures
        match r {
            Ok(t) => test_due(crate::text::texts(args@)) == Ok::<ArenaTestView, Fault>(t@),
            Err(e) => test_due(crate::text::texts(args@)) == Err::<ArenaTestView, Fault>(e@),
        },
{
    let lane_text: String = item(args, 2, "0");
    let lane: u64 = match parse_unsigned(lane_text.as_str(), u32::MAX as u64) {
        Some(n) => n,
        None => {
            return Err(invalid(number_reason(lane_text.as_str(), u32::MAX as u64)));
        },
    };
    let cpu_text: String = item(args, 3, "0");
    let cpu: usize = match parse_size(cpu_text.as_str()) {
        Some(n) => n,
        None => {
            return Err(invalid(number_reason(cpu_text.as_str(), usize::MAX as u64)));
        },
    };
    let block_text: String = item(args, 4, "61");
    let block: u64 = match parse_unsigned(block_text.as_str(), u64::MAX) {
        Some(n) => n,
        None => {
            return Err(invalid(number_reason(block_text.as_str(), u64::MAX)));
        },
    };
    if args.len() > 5 {
        return Err(invalid("too many arguments"));
    }
    Ok(
        ArenaTest {
            socket: item(args, 0, "/tmp/zcnblk-app-arena.sock"),
            device: item(args, 1, "/dev/zcnblk0"),
            lane: lane as u32,
            cpu,
            block,
        },
    )
}

/// The byte at a place of the block.
pub open spec fn pattern_byte(index: int) -> u8 {
    0xa7u8 ^ ((((index as u64 as u8) * 29) % 256) as u8)
}

/// Makes the block.
pub fn fill_pattern(block: &mut [u8])
    ensures
        final(block)@ == Seq::new(old(block)@.len(), |i: int| pattern_byte(i)),
{
    let n: usize = block.len();
    let mut i: usize = 0;
    while i < n
        invariant
            i <= n,
            n == block@.len(),
            forall|k: int| 0 <= k < i ==> (#[trigger] block@[k]) == pattern_byte(k),
        decreases n - i,
    {
        block[i] = 0xa7u8 ^ (i as u64 as u8).wrapping_mul(29);
        i = i + 1;
    }
    proof {
        assert(block@ =~= Seq::new(n as nat, |i: int| pattern_byte(i)));
    }
}

/// Where a block lies.
pub fn block_offset(block: u64) -> (r: Result<u64, Error>)
    ensures
        match r {
            Ok(offset) => offset == block * 4096,
            Err(e) => block * 4096 > u64::MAX && e@ == crate::error::bad_input(
                "block offset overflow"@,
            ),
        },
{
    match block.checked_mul(4096) {
        Some(offset) => Ok(offset),
        None => Err(invalid("block offset overflow")),
    }
}

/// Checks the size of the arena's slots.
pub fn check_slot_bytes(bytes: usize) -> (r: Result<(), Error>)
    ensures
        match r {
            Ok(_) => bytes == 4096,
            Err(e) => bytes != 4096 && e@ == crate::error::bad_input(
                "smoke test requires 4096-byte slots"@,
            ),
        },
{
    if bytes != 4096 {
        Err(invalid("smoke test requires 4096-byte slots"))
    } else {
        Ok(())
    }
}

/// What a state counts of the arena.
#[derive(Clone, Copy, Debug, PartialEq, Eq, Structural)]
pub struct AliasCounters {
    pub writes: u64,
    pub reads: u64,
    pub fallbacks: u64,
    pub rejects: u64,
}

/// What a state counts of the arena, or the first counter that it lacks.
pub open spec fn counters_due(state: Seq<char>) -> Result<AliasCounters, Fault> {
    match counter_due(state, "bio_alias_writes"@) {
        Err(e) => Err(e),
        Ok(writes) => match counter_due(state, "bio_alias_reads"@) {
            Err(e) => Err(e),
            Ok(reads) => match counter_due(state, "bio_alias_busy_fallbacks"@) {
                Err(e) => Err(e),
                Ok(fallbacks) => match counter_due(state, "bio_alias_required_rejects"@) {
                    Err(e) => Err(e),
                    Ok(rejects) => Ok(AliasCounters { writes, reads, fallbacks, rejects }),
                },
            },
        },
    }
}

/// What a state counts of the arena.
pub fn alias_counters(state: &str) -> (r: Result<AliasCounters, Error>)
    ensures
        crate::error::agrees(r, counters_due(state@)),
{
    let writes: u64 = match counter(state, "bio_alias_writes") {
        Ok(n) => n,
        Err(e) => {
            return Err(e);
        },
    };
    let reads: u64 = match counter(state, "bio_alias_reads") {
        Ok(n) => n,
        Err(e) => {
            return Err(e);
        },
    };
    let fallbacks: u64 = match counter(state, "bio_alias_busy_fallbacks") {
        Ok(n) => n,
        Err(e) => {
            return Err(e);
        },
    };
    match counter(state, "bio_alias_required_rejects") {
        Ok(rejects) => Ok(AliasCounters { writes, reads, fallbacks, rejects }),
        Err(e) => Err(e),
    }
}

/// Whether no counter has gone back.
pub open spec fn not_before(a: AliasCounters, b: AliasCounters) -> bool {
    a.writes <= b.writes && a.reads <= b.reads && a.fallbacks <= b.fallbacks && a.rejects
        <= b.rejects
}

/// What is said of counters that did not move as one write and one read without a copy move them.
pub open spec fn counters_text(a: AliasCounters, b: AliasCounters) -> Seq<char> {
    "unexpected alias counters writes="@ + crate::text::decimal_text((b.writes - a.writes) as nat)
        + " reads="@ + crate::text::decimal_text((b.reads - a.reads) as nat) + " fallbacks="@
        + crate::text::decimal_text((b.fallbacks - a.fallbacks) as nat) + " rejects="@
        + crate::text::decimal_text((b.rejects - a.rejects) as nat)
}

/// Checks how the counters have moved.
pub fn check_counters(before: AliasCounters, after: AliasCounters) -> (r: Result<(), Error>)
    requires
        not_before(before, after),
    ensures
        match r {
            Ok(_) => after.writes == before.writes + 1 && after.reads == before.reads + 1
                && after.fallbacks == before.fallbacks && after.rejects == before.rejects,
            Err(e) => !(after.writes == before.writes + 1 && after.reads == before.reads + 1
                && after.fallbacks == before.fallbacks && after.rejects == before.rejects) && e@
                == (ErrorKind::Other, counters_text(before, after)),
        },
{
    let writes: u64 = after.writes - before.writes;
    let reads: u64 = after.reads - before.reads;
    let fallbacks: u64 = after.fallbacks - before.fallbacks;
    let rejects: u64 = after.rejects - before.rejects;
    if writes == 1 && reads == 1 && fallbacks == 0 && rejects == 0 {
        return Ok(());
    }
    let a: String = decimal(writes);
    let b: String = decimal(reads);
    let c: String = decimal(fallbacks);
    let d: String = decimal(rejects);
    let head: String = join4("unexpected alias counters writes=", a.as_str(), " reads=", b.as_str());
    let body: String = join4(head.as_str(), " fallbacks=", c.as_str(), " rejects=");
    Err(Error::new(ErrorKind::Other, join2(body.as_str(), d.as_str())))
}

proof fn lemma_field_value(fields: Seq<Seq<char>>, head: Seq<char>, i: int, k: int)
    requires
        0 <= i <= k < fields.len(),
        crate::text::begins_with(fields[k], head),
        crate::text::unsigned_value(
            fields[k].subrange(head.len() as int, fields[k].len() as int),
            u64::MAX as nat,
        ) is Some,
        forall|j: int| i <= j < k ==> !crate::text::begins_with(#[trigger] fields[j], head),
    ensures
        field_value(fields, head, i) is Some,
        crate::text::unsigned_value(
            fields[k].subrange(head.len() as int, fields[k].len() as int),
            u64::MAX as nat,
        ) == Some(field_value(fields, head, i)->0 as nat),
    decreases k - i,
{
    if i < k {
        lemma_field_value(fields, head, i + 1, k);
    }
}

/// A counter is read from the first field that begins with its name: it is the number behind the name.
pub proof fn law_counters_are_read_by_name(fields: Seq<Seq<char>>, head: Seq<char>, k: int, n: nat)
    requires
        0 <= k < fields.len(),
        n <= u64::MAX,
        fields[k] == head + crate::text::decimal_text(n),
        forall|j: int| 0 <= j < k ==> !crate::text::begins_with(#[trigger] fields[j], head),
    ensures
        field_value(fields, head, 0) == Some(n as u64),
{
    let digits = crate::text::decimal_text(n);
    crate::text::law_decimal_parses(n, u64::MAX as nat);
    assert(fields[k].subrange(0, head.len() as int) =~= head);
    assert(fields[k].subrange(head.len() as int, fields[k].len() as int) =~= digits);
    lemma_field_value(fields, head, 0, k);
}

/// White space of any kind separates the fields: it becomes a space, and every other character stays.
pub proof fn law_gaps_become_spaces(state: Seq<char>, i: int)
    requires
        0 <= i < state.len(),
    ensures
        spaced(state).len() == state.len(),
        state[i] == ' ' || state[i] == '\t' || state[i] == '\n' || state[i] == '\r' ==> spaced(state)[i]
            == ' ',
        'a' <= state[i] <= 'z' || '0' <= state[i] <= '9' || state[i] == '=' || state[i] == '_'
            ==> spaced(state)[i] == state[i],
{
}

/// The arguments are taken in their order, and no more than five of them.
pub proof fn law_arguments_are_taken_in_order(args: Seq<Seq<char>>)
    requires
        test_due(args) is Ok,
    ensures
        ({
            let t = test_due(args)->Ok_0;
            &&& args.len() <= 5
            &&& args.len() > 0 ==> t.socket == args[0]
            &&& args.len() > 1 ==> t.device == args[1]
            &&& args.len() > 2 ==> crate::text::unsigned_value(args[2], u32::MAX as nat) == Some(
                t.lane as nat,
            )
            &&& args.len() > 3 ==> crate::text::unsigned_value(args[3], usize::MAX as nat) == Some(
                t.cpu as nat,
            )
            &&& args.len() > 4 ==> crate::text::unsigned_value(args[4], u64::MAX as nat) == Some(
                t.block as nat,
            )
        }),
{
}

/// The counters that are compared are each read under their own name.
pub proof fn law_each_counter_has_its_own_name(state: Seq<char>, c: AliasCounters)
    requires
        counters_due(state) == Ok::<AliasCounters, Fault>(c),
    ensures
        counter_due(state, "bio_alias_writes"@) == Ok::<u64, Fault>(c.writes),
        counter_due(state, "bio_alias_reads"@) == Ok::<u64, Fault>(c.reads),
        counter_due(state, "bio_alias_busy_fallbacks"@) == Ok::<u64, Fault>(c.fallbacks),
        counter_due(state, "bio_alias_required_rejects"@) == Ok::<u64, Fault>(c.rejects),
{
}

/// The pattern repeats after 256 bytes, and within them no byte occurs twice.
pub proof fn law_the_pattern_repeats_after_256_bytes(i: int, j: int)
    requires
        0 <= i <= u64::MAX,
        0 <= j <= u64::MAX,
    ensures
        pattern_byte(i) == pattern_byte(j) <==> i % 256 == j % 256,
{
    let (x, y) = (i as u64, j as u64);
    let (a, b) = (x as u8, y as u8);
    assert(x as u8 == x % 256) by (bit_vector);
    assert(y as u8 == y % 256) by (bit_vector);
    let (p, q) = (((a * 29) % 256) as u8, ((b * 29) % 256) as u8);
    assert(0xa7u8 ^ p == 0xa7u8 ^ q ==> p == q) by (bit_vector);
    assert((a * 29) % 256 == (b * 29) % 256 ==> a == b) by (bit_vector);
}

} // verus!
