//! What the threads of a run do and count, and how the rate of a copy changes.
use vstd::prelude::*;
use vstd::string::*;

use crate::random::xorshift64;
use crate::text::{join3, padded};

verus! {

pub const PHASES: usize = 3;

/// The first value of the generator of a worker.
pub fn worker_seed(worker: usize) -> (seed: u64)
    ensures
        seed == 0x9e37_79b9_7f4a_7c15u64 ^ (worker as u64),
{
    0x9e37_79b9_7f4a_7c15u64 ^ (worker as u64)
}

/// A read or a write of one page; a write stores the value of the generator in front.
#[derive(Clone, Copy, Debug, PartialEq, Eq, Structural)]
pub struct Operation {
    pub offset: u64,
    pub write: bool,
    pub random: u64,
}

/// The operation that follows a value of the generator.
pub open spec fn operation_after(random: u64, leaf_partitions: usize, partition_bytes: u64) -> Operation {
    let first = crate::random::xorshift(random);
    let second = crate::random::xorshift(first);
    let partition = (first as usize) % leaf_partitions;
    Operation {
        offset: (partition * partition_bytes + (second % ((partition_bytes / 4096) as u64)) * 4096) as u64,
        write: second & 1 != 0,
        random: second,
    }
}

proof fn lemma_operation(first: u64, second: u64, leaf_partitions: usize, partition_bytes: u64)
    requires
        leaf_partitions > 0,
        partition_bytes >= 4096,
        partition_bytes % 4096 == 0,
    ensures
        ({
            let partition = (first as usize) % leaf_partitions;
            let page = second % ((partition_bytes / 4096) as u64);
            &&& partition < leaf_partitions
            &&& page * 4096 + 4096 <= partition_bytes
            &&& partition * partition_bytes + page * 4096 + 4096 <= (partition + 1)
                * partition_bytes
            &&& (partition + 1) * partition_bytes <= leaf_partitions * partition_bytes
            &&& (partition * partition_bytes + page * 4096) % 4096 == 0
        }),
{
    let partition = (first as usize) % leaf_partitions;
    let pages = (partition_bytes / 4096) as u64;
    let page = second % pages;
    assert(page < pages);
    assert(pages * 4096 == partition_bytes);
    assert((partition + 1) * partition_bytes == partition * partition_bytes + partition_bytes)
        by (nonlinear_arith);
    assert((partition + 1) * partition_bytes <= leaf_partitions * partition_bytes)
        by (nonlinear_arith)
        requires
            partition + 1 <= leaf_partitions,
    ;
    assert(partition * partition_bytes == (partition * pages) * 4096) by (nonlinear_arith)
        requires
            pages * 4096 == partition_bytes,
    ;
}

/// The operation that follows a value of the generator.
pub fn next_operation(random: u64, leaf_partitions: usize, partition_bytes: u64) -> (o: Operation)
    requires
        leaf_partitions > 0,
        partition_bytes >= 4096,
        partition_bytes % 4096 == 0,
        leaf_partitions * partition_bytes <= u64::MAX,
    ensures
        o == operation_after(random, leaf_partitions, partition_bytes),
{
    let first: u64 = xorshift64(random);
    let second: u64 = xorshift64(first);
    proof {
        lemma_operation(first, second, leaf_partitions, partition_bytes);
        assert(0 <= ((first as usize) % leaf_partitions) * partition_bytes) by (nonlinear_arith)
            requires
                leaf_partitions > 0,
        ;
    }
    let partition: usize = (first as usize) % leaf_partitions;
    let pages: u64 = partition_bytes / 4096;
    let base: u64 = partition as u64 * partition_bytes;
    let within: u64 = (second % pages) * 4096;
    Operation { offset: base + within, write: second & 1 != 0, random: second }
}

/// Every operation touches one whole page of one partition, inside the volume.
pub proof fn law_operations_stay_in_a_partition(
    random: u64,
    leaf_partitions: usize,
    partition_bytes: u64,
)
    requires
        leaf_partitions > 0,
        partition_bytes >= 4096,
        partition_bytes % 4096 == 0,
        leaf_partitions * partition_bytes <= u64::MAX,
    ensures
        ({
            let o = operation_after(random, leaf_partitions, partition_bytes);
            let partition = (crate::random::xorshift(random) as usize) % leaf_partitions;
            &&& o.offset % 4096 == 0
            &&& partition < leaf_partitions
            &&& partition * partition_bytes <= o.offset
            &&& o.offset + 4096 <= (partition + 1) * partition_bytes
            &&& o.offset + 4096 <= leaf_partitions * partition_bytes
        }),
{
    let first = crate::random::xorshift(random);
    let second = crate::random::xorshift(first);
    lemma_operation(first, second, leaf_partitions, partition_bytes);
    let partition = (first as usize) % leaf_partitions;
    assert(0 <= partition * partition_bytes) by (nonlinear_arith);
}

/// Whether the latency of an operation is measured: one in each 1024 is.
pub fn is_sampled(local_ops: u64) -> (yes: bool)
    ensures
        yes == (local_ops % 1024 == 0),
{
    local_ops % 1024 == 0
}

/// What is counted in each phase of a run.
#[derive(Debug)]
pub struct Metrics {
    pub operations: Vec<u64>,
    pub sampled_operations: Vec<u64>,
    pub sampled_latency_ns: Vec<u64>,
    pub max_sampled_latency_ns: Vec<u64>,
}

impl Metrics {
    /// There is a count for each phase.
    pub open spec fn wf(&self) -> bool {
        &&& self.operations@.len() == 3
        &&& self.sampled_operations@.len() == 3
        &&& self.sampled_latency_ns@.len() == 3
        &&& self.max_sampled_latency_ns@.len() == 3
    }

    /// Nothing counted yet.
    pub fn new() -> (m: Metrics)
        ensures
            m.wf(),
            m.operations@ == seq![0u64, 0u64, 0u64],
            m.sampled_operations@ == seq![0u64, 0u64, 0u64],
            m.sampled_latency_ns@ == seq![0u64, 0u64, 0u64],
            m.max_sampled_latency_ns@ == seq![0u64, 0u64, 0u64],
    {
        Metrics {
            operations: none(),
            sampled_operations: none(),
            sampled_latency_ns: none(),
            max_sampled_latency_ns: none(),
        }
    }

    /// Counts an operation of a phase, and its latency where that was measured. A phase beyond the last
    /// counts as the last; a count that is full starts over.
    pub fn record(&mut self, phase: usize, latency_ns: Option<u64>)
        requires
            old(self).wf(),
        ensures
            final(self).wf(),
            final(self).operations@ == counted(old(self).operations@, phase, 1),
            match latency_ns {
                None => {
                    &&& final(self).sampled_operations@ == old(self).sampled_operations@
                    &&& final(self).sampled_latency_ns@ == old(self).sampled_latency_ns@
                    &&& final(self).max_sampled_latency_ns@ == old(self).max_sampled_latency_ns@
                },
                Some(ns) => {
                    &&& final(self).sampled_operations@ == counted(
                        old(self).sampled_operations@,
                        phase,
                        1,
                    )
                    &&& final(self).sampled_latency_ns@ == counted(
                        old(self).sampled_latency_ns@,
                        phase,
                        ns,
                    )
                    &&& final(self).max_sampled_latency_ns@ == raised(
                        old(self).max_sampled_latency_ns@,
                        phase,
                        ns,
                    )
                },
            },
    {
        let p: usize = if phase < 2 {
            phase
        } else {
            2
        };
        bump(&mut self.operations, p, 1);
        if let Some(ns) = latency_ns {
            bump(&mut self.sampled_operations, p, 1);
            bump(&mut self.sampled_latency_ns, p, ns);
            if self.max_sampled_latency_ns[p] < ns {
                self.max_sampled_latency_ns.set(p, ns);
            }
        }
    }
}

fn none() -> (v: Vec<u64>)
    ensures
        v@ == seq![0u64, 0u64, 0u64],
{
    let v: Vec<u64> = vec![0, 0, 0];
    proof {
        assert(v@ =~= seq![0u64, 0u64, 0u64]);
    }
    v
}

fn bump(v: &mut Vec<u64>, p: usize, n: u64)
    requires
        p < old(v)@.len(),
    ensures
        final(v)@ == old(v)@.update(
            p as int,
            crate::random::word_add(old(v)@[p as int], n),
        ),
{
    let sum: u64 = v[p].wrapping_add(n);
    v.set(p, sum);
}

/// The index of a phase.
pub open spec fn phase_index(phase: usize) -> int {
    if phase < 2 {
        phase as int
    } else {
        2
    }
}

/// Some counts with one of a phase higher.
pub open spec fn counted(counts: Seq<u64>, phase: usize, n: u64) -> Seq<u64> {
    let p = phase_index(phase);
    counts.update(p, crate::random::word_add(counts[p], n))
}

/// Some maxima with one of a phase at least as high as a value.
pub open spec fn raised(maxima: Seq<u64>, phase: usize, ns: u64) -> Seq<u64> {
    let p = phase_index(phase);
    if maxima[p] < ns {
        maxima.update(p, ns)
    } else {
        maxima
    }
}

/// The name of a partition, or of one of its files: a number of at least four digits.
pub fn numbered(prefix: &str, partition: usize, suffix: &str) -> (s: String)
    ensures
        s@ == prefix@ + crate::text::padded_text(partition as nat, 4) + suffix@,
{
    let digits: String = padded(partition as u64, 4);
    join3(prefix, digits.as_str(), suffix)
}

/// Where a partition begins.
pub fn partition_start(partition: usize, partition_bytes: u64) -> (start: u64)
    requires
        partition * partition_bytes <= u64::MAX,
    ensures
        start == partition * partition_bytes,
{
    partition as u64 * partition_bytes
}

/// Partitions that divide a volume evenly follow one another without a gap, and the last ends with the
/// volume.
pub proof fn law_partitions_cover_the_volume(leaf_partitions: int, partition_bytes: int, at: int)
    requires
        leaf_partitions > 0,
        partition_bytes > 0,
        0 <= at < leaf_partitions * partition_bytes,
    ensures
        0 <= at / partition_bytes < leaf_partitions,
        (at / partition_bytes) * partition_bytes <= at < (at / partition_bytes + 1)
            * partition_bytes,
{
    let p = at / partition_bytes;
    vstd::arithmetic::div_mod::lemma_fundamental_div_mod(at, partition_bytes);
    assert(0 <= p) by (nonlinear_arith)
        requires
            at == partition_bytes * p + at % partition_bytes,
            0 <= at,
            partition_bytes > 0,
            0 <= at % partition_bytes < partition_bytes,
    ;
    assert(p < leaf_partitions) by (nonlinear_arith)
        requires
            at == partition_bytes * p + at % partition_bytes,
            at < leaf_partitions * partition_bytes,
            partition_bytes > 0,
            0 <= at % partition_bytes,
    ;
    assert(p * partition_bytes == partition_bytes * p && (p + 1) * partition_bytes
        == partition_bytes * p + partition_bytes) by (nonlinear_arith);
}

/// What the latest measurement asks of a copy.
#[derive(Clone, Copy, Debug, PartialEq, Eq, Structural)]
pub enum Verdict {
    Slower,
    Faster,
    Keep,
}

/// The rate of a copy that is not to disturb the workers.
#[derive(Clone, Copy, Debug, PartialEq, Eq, Structural)]
pub struct CopyRate {
    pub current: u64,
    pub fixed: u64,
    pub minimum: u64,
    pub maximum: u64,
    pub adaptive: bool,
    pub adjustments: u64,
}

/// A part of a rate in hundredths, computed with no more than a word.
pub open spec fn percent(rate: u64, hundredths: int) -> int {
    let product = rate * hundredths;
    (if product > u64::MAX {
        u64::MAX as int
    } else {
        product
    }) / 100
}

fn percent_of(rate: u64, hundredths: u64) -> (n: u64)
    ensures
        n == percent(rate, hundredths as int),
{
    let product: u64 = match rate.checked_mul(hundredths) {
        Some(n) => n,
        None => u64::MAX,
    };
    product / 100
}

impl CopyRate {
    /// A copy that begins with a rate; zero stands for none, and then it begins with the usual one. The
    /// rate may grow to four times the first.
    pub fn new(initial: u64, minimum: u64, adaptive: bool) -> (c: CopyRate)
        ensures
            ({
                let first: u64 = if initial == 0 {
                    536870912
                } else {
                    initial
                };
                c == (CopyRate {
                    current: first,
                    fixed: initial,
                    minimum,
                    maximum: if first * 4 > u64::MAX {
                        u64::MAX
                    } else {
                        (first * 4) as u64
                    },
                    adaptive,
                    adjustments: 0,
                })
            }),
    {
        let first: u64 = if initial == 0 {
            536870912
        } else {
            initial
        };
        let maximum: u64 = match first.checked_mul(4) {
            Some(n) => n,
            None => u64::MAX,
        };
        CopyRate { current: first, fixed: initial, minimum, maximum, adaptive, adjustments: 0 }
    }

    /// The rate to go on with while no measurement is due.
    pub fn rate(&self) -> (rate: u64)
        ensures
            rate == if self.adaptive {
                self.current
            } else {
                self.fixed
            },
    {
        if self.adaptive {
            self.current
        } else {
            self.fixed
        }
    }

    /// Follows a measurement: a rate that disturbs falls by fifteen hundredths but not below the least,
    /// one that does not grows by ten but not above the most.
    pub fn next(&mut self, verdict: Verdict) -> (rate: u64)
        requires
            old(self).adaptive,
            old(self).adjustments < u64::MAX,
        ensures
            *final(self) == (CopyRate {
                current: followed(*old(self), verdict),
                adjustments: (old(self).adjustments + 1) as u64,
                ..*old(self)
            }),
            rate == final(self).current,
    {
        match verdict {
            Verdict::Slower => {
                let lower: u64 = percent_of(self.current, 85);
                self.current = if lower > self.minimum {
                    lower
                } else {
                    self.minimum
                };
            },
            Verdict::Faster => {
                let higher: u64 = percent_of(self.current, 110);
                self.current = if higher < self.maximum {
                    higher
                } else {
                    self.maximum
                };
            },
            Verdict::Keep => {},
        }
        self.adjustments = self.adjustments + 1;
        self.current
    }
}

/// The rate after a measurement.
pub open spec fn followed(c: CopyRate, verdict: Verdict) -> u64 {
    match verdict {
        Verdict::Slower => if percent(c.current, 85) > c.minimum {
            percent(c.current, 85) as u64
        } else {
            c.minimum
        },
        Verdict::Faster => if percent(c.current, 110) < c.maximum {
            percent(c.current, 110) as u64
        } else {
            c.maximum
        },
        Verdict::Keep => c.current,
    }
}

/// However the measurements come out, the rate stays between the least and the most, where it is not so
/// high that a tenth more of it exceeds a word.
pub proof fn law_the_rate_stays_in_its_bounds(c: CopyRate, verdict: Verdict)
    requires
        c.minimum <= c.current <= c.maximum,
        verdict == Verdict::Faster && c.current * 110 > u64::MAX ==> c.minimum <= u64::MAX / 100,
    ensures
        c.minimum <= followed(c, verdict) <= c.maximum,
{
}

/// What the copies of some partitions have moved.
#[derive(Clone, Copy, Debug, PartialEq, Eq, Structural)]
pub struct CopyTotals {
    pub base_bytes: u64,
    pub dirty_pages: u64,
    pub dirty_bytes: u64,
    pub generation: u64,
    pub fence_total_ns: u64,
    pub fence_max_ns: u64,
}

impl CopyTotals {
    /// Nothing moved yet.
    pub fn new() -> (t: CopyTotals)
        ensures
            t == (CopyTotals {
                base_bytes: 0,
                dirty_pages: 0,
                dirty_bytes: 0,
                generation: 0,
                fence_total_ns: 0,
                fence_max_ns: 0,
            }),
    {
        CopyTotals {
            base_bytes: 0,
            dirty_pages: 0,
            dirty_bytes: 0,
            generation: 0,
            fence_total_ns: 0,
            fence_max_ns: 0,
        }
    }

    /// Adds what the copy of one more partition has moved; in `one` the fence took its whole time at once.
    pub fn count_copy(&mut self, one: CopyTotals)
        requires
            old(self).base_bytes + one.base_bytes <= u64::MAX,
            old(self).dirty_pages + one.dirty_pages <= u64::MAX,
            old(self).dirty_bytes + one.dirty_bytes <= u64::MAX,
            old(self).fence_total_ns + one.fence_total_ns <= u64::MAX,
        ensures
            *final(self) == totals(*old(self), one),
    {
        self.base_bytes = self.base_bytes + one.base_bytes;
        self.dirty_pages = self.dirty_pages + one.dirty_pages;
        self.dirty_bytes = self.dirty_bytes + one.dirty_bytes;
        if one.generation > self.generation {
            self.generation = one.generation;
        }
        self.fence_total_ns = self.fence_total_ns + one.fence_total_ns;
        if one.fence_total_ns > self.fence_max_ns {
            self.fence_max_ns = one.fence_total_ns;
        }
    }
}

/// What was moved in all, once the copy of one more partition is added.
pub open spec fn totals(t: CopyTotals, one: CopyTotals) -> CopyTotals {
    CopyTotals {
        base_bytes: (t.base_bytes + one.base_bytes) as u64,
        dirty_pages: (t.dirty_pages + one.dirty_pages) as u64,
        dirty_bytes: (t.dirty_bytes + one.dirty_bytes) as u64,
        generation: if one.generation > t.generation {
            one.generation
        } else {
            t.generation
        },
        fence_total_ns: (t.fence_total_ns + one.fence_total_ns) as u64,
        fence_max_ns: if one.fence_total_ns > t.fence_max_ns {
            one.fence_total_ns
        } else {
            t.fence_max_ns
        },
    }
}

/// An operation counts in its own phase and in no other, and a phase behind the last counts as the last.
pub proof fn law_operations_count_in_their_phase(counts: Seq<u64>, phase: usize, n: u64, other: int)
    requires
        counts.len() == 3,
        0 <= other < 3,
        other != phase && !(other == 2 && phase > 2),
    ensures
        ({
            let p: int = if phase > 2 {
                2
            } else {
                phase as int
            };
            &&& counts[p] + n <= u64::MAX ==> counted(counts, phase, n)[p] == counts[p] + n
            &&& counted(counts, phase, n)[other] == counts[other]
            &&& raised(counts, phase, n)[p] >= counts[p]
            &&& raised(counts, phase, n)[p] >= n
            &&& raised(counts, phase, n)[p] == counts[p] || raised(counts, phase, n)[p] == n
            &&& raised(counts, phase, n)[other] == counts[other]
        }),
{
}

/// The rate falls where the copy is to be slower, to no less than the least rate, and rises where it is to
/// be faster, to no more than the greatest; otherwise it stays.
pub proof fn law_the_rate_follows_the_verdict(c: CopyRate)
    requires
        c.minimum <= c.current <= c.maximum,
        c.current * 110 <= u64::MAX,
    ensures
        followed(c, Verdict::Slower) <= c.current,
        followed(c, Verdict::Slower) == c.minimum || followed(c, Verdict::Slower) == c.current * 85
            / 100,
        c.current * 85 / 100 >= c.minimum ==> followed(c, Verdict::Slower) == c.current * 85 / 100,
        followed(c, Verdict::Faster) >= c.current,
        followed(c, Verdict::Faster) == c.maximum || followed(c, Verdict::Faster) == c.current * 110
            / 100,
        c.current * 110 / 100 <= c.maximum ==> followed(c, Verdict::Faster) == c.current * 110 / 100,
        followed(c, Verdict::Keep) == c.current,
{
}

/// The totals of several copies are sums, with the newest generation and the longest fence.
pub proof fn law_copies_add_up(t: CopyTotals, one: CopyTotals)
    requires
        t.base_bytes + one.base_bytes <= u64::MAX,
        t.dirty_pages + one.dirty_pages <= u64::MAX,
        t.dirty_bytes + one.dirty_bytes <= u64::MAX,
        t.fence_total_ns + one.fence_total_ns <= u64::MAX,
    ensures
        ({
            let sum = totals(t, one);
            &&& sum.base_bytes - t.base_bytes == one.base_bytes
            &&& sum.dirty_pages - t.dirty_pages == one.dirty_pages
            &&& sum.dirty_bytes - t.dirty_bytes == one.dirty_bytes
            &&& sum.fence_total_ns - t.fence_total_ns == one.fence_total_ns
            &&& sum.generation >= t.generation && sum.generation >= one.generation
            &&& sum.generation == t.generation || sum.generation == one.generation
            &&& sum.fence_max_ns >= t.fence_max_ns && sum.fence_max_ns >= one.fence_total_ns
            &&& sum.fence_max_ns == t.fence_max_ns || sum.fence_max_ns == one.fence_total_ns
        }),
{
}

/// Whether an operation writes is decided by the last bit of the draw that the next one goes on from.
pub proof fn law_the_draw_decides_on_writing(random: u64, leaf_partitions: usize, partition_bytes: u64)
    ensures
        ({
            let op = operation_after(random, leaf_partitions, partition_bytes);
            &&& op.write <==> op.random % 2 == 1
            &&& op.random == crate::random::xorshift(crate::random::xorshift(random))
        }),
{
    let second = crate::random::xorshift(crate::random::xorshift(random));
    assert(second & 1 == second % 2) by (bit_vector);
}

} // verus!
