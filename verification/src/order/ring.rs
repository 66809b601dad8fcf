//! Bounded rings: first in, first out, and by sequence number.
use vstd::prelude::*;
use vstd::string::*;

use crate::error::{invalid, Error, ErrorKind};

verus! {

/// Whether `n` is a power of two.
pub open spec fn power_of_two(n: nat) -> bool
    decreases n,
{
    if n == 0 {
        false
    } else if n == 1 {
        true
    } else {
        n % 2 == 0 && power_of_two(n / 2)
    }
}

/// Whether `n` is a power of two.
pub fn is_power_of_two(n: u64) -> (yes: bool)
    ensures
        yes == power_of_two(n as nat),
{
    if n == 0 {
        return false;
    }
    let mut m: u64 = n;
    while m > 1
        invariant
            m >= 1,
            power_of_two(m as nat) == power_of_two(n as nat),
        decreases m,
    {
        if m % 2 != 0 {
            return false;
        }
        m = m / 2;
    }
    true
}

/// A power of two of at most 64 bits divides the number of words.
pub proof fn lemma_divides_words(n: nat)
    requires
        power_of_two(n),
        n <= 0x1_0000_0000_0000_0000,
    ensures
        n > 0,
        0x1_0000_0000_0000_0000nat % n == 0,
{
    lemma_two_to_64();
    lemma_divides(n, 64);
}

spec fn two_to(k: nat) -> nat
    decreases k,
{
    if k == 0 {
        1
    } else {
        2 * two_to((k - 1) as nat)
    }
}

proof fn lemma_two_to_step(k: nat)
    ensures
        two_to(k + 16) == 65536 * two_to(k),
{
    reveal_with_fuel(two_to, 17);
}

proof fn lemma_two_to_64()
    ensures
        two_to(64) == 0x1_0000_0000_0000_0000,
{
    lemma_two_to_step(0);
    lemma_two_to_step(16);
    lemma_two_to_step(32);
    lemma_two_to_step(48);
}

proof fn lemma_divides(n: nat, k: nat)
    requires
        power_of_two(n),
        n <= two_to(k),
    ensures
        n > 0,
        two_to(k) % n == 0,
    decreases k,
{
    if n > 1 {
        lemma_divides(n / 2, (k - 1) as nat);
        let h = n / 2;
        let t = two_to((k - 1) as nat);
        assert(n == 2 * h);
        assert((2 * t) % (2 * h) == 0) by (nonlinear_arith)
            requires
                t % h == 0,
                h > 0,
        {
            let q = t / h;
            assert(t == q * h);
            assert(2 * t == q * (2 * h));
            vstd::arithmetic::div_mod::lemma_mod_multiples_basic(q as int, (2 * h) as int);
        }
    }
}

/// A ring with one producer and one consumer. Its counters run over the whole word and wrap.
pub struct SpscRing<T> {
    slots: Vec<T>,
    head: u64,
    tail: u64,
}

impl<T> SpscRing<T> {
    #[verifier::type_invariant]
    spec fn inv(self) -> bool {
        &&& self.slots@.len() >= 2
        &&& power_of_two(self.slots@.len())
        &&& queued(self.head, self.tail) <= self.slots@.len()
    }

    /// How many values the ring can hold.
    pub closed spec fn capacity(self) -> nat {
        self.slots@.len()
    }
}

spec fn queued(head: u64, tail: u64) -> nat {
    ((head - tail) % 0x1_0000_0000_0000_0000) as nat
}

spec fn spot(counter: int, n: nat) -> int {
    (counter % 0x1_0000_0000_0000_0000) % n as int
}

impl<T> View for SpscRing<T> {
    type V = Seq<T>;

    /// The values in the ring, the oldest first.
    closed spec fn view(&self) -> Seq<T> {
        Seq::new(
            queued(self.head, self.tail),
            |i: int| self.slots@[spot(self.tail + i, self.slots@.len())],
        )
    }
}

/// Within one turn of the ring no two counters fall on the same slot, whether or not the word
/// wraps between them.
proof fn lemma_spots_differ(a: int, b: int, n: nat)
    requires
        power_of_two(n),
        2 <= n <= 0x1_0000_0000_0000_0000,
        0 <= a < b < a + n,
    ensures
        spot(a, n) != spot(b, n),
        0 <= spot(a, n) < n,
        0 <= spot(b, n) < n,
{
    lemma_divides_words(n);
    lemma_spot_mod(a, n);
    lemma_spot_mod(b, n);
    vstd::arithmetic::div_mod::lemma_fundamental_div_mod(a, n as int);
    vstd::arithmetic::div_mod::lemma_fundamental_div_mod(b, n as int);
    if a % n as int == b % n as int {
        let qa = a / n as int;
        let qb = b / n as int;
        assert(b - a == n * (qb - qa)) by (nonlinear_arith)
            requires
                a == n * qa + a % n as int,
                b == n * qb + b % n as int,
                a % n as int == b % n as int,
        ;
        assert(n * (qb - qa) >= n || n * (qb - qa) <= 0) by (nonlinear_arith)
            requires
                n >= 2,
        ;
    }
}

proof fn lemma_spot_mod(a: int, n: nat)
    requires
        power_of_two(n),
        0 < n <= 0x1_0000_0000_0000_0000,
        0 <= a,
    ensures
        spot(a, n) == a % n as int,
{
    lemma_divides_words(n);
    let w = 0x1_0000_0000_0000_0000int;
    let q = w / n as int;
    vstd::arithmetic::div_mod::lemma_fundamental_div_mod(w, n as int);
    assert(w == n * q);
    vstd::arithmetic::div_mod::lemma_fundamental_div_mod(a, w);
    let k = a / w;
    let r = a % w;
    assert(a == (k * q) * n + r) by (nonlinear_arith)
        requires
            a == w * k + r,
            w == n * q,
    ;
    vstd::arithmetic::div_mod::lemma_mod_multiples_vanish(k * q, r, n as int);
    assert(n * (k * q) + r == (k * q) * n + r) by (nonlinear_arith);
}

impl<T: Copy> SpscRing<T> {
    /// An empty ring with room for `entries` values, a power of two.
    pub fn new(entries: usize) -> (r: Result<Self, Error>) where T: Default
        ensures
            match r {
                Ok(ring) => entries >= 2 && power_of_two(entries as nat) && ring@ == Seq::<
                    T,
                >::empty() && ring.capacity() == entries,
                Err(e) => !(entries >= 2 && power_of_two(entries as nat)) && e@ == (
                    ErrorKind::InvalidInput,
                    "ring entries must be a power of two >= 2"@,
                ),
            },
    {
        if entries < 2 || !is_power_of_two(entries as u64) {
            return Err(invalid("ring entries must be a power of two >= 2"));
        }
        let blank: T = T::default();
        let mut slots: Vec<T> = Vec::new();
        let mut i: usize = 0;
        while i < entries
            invariant
                i <= entries,
                slots@.len() == i,
            decreases entries - i,
        {
            slots.push(blank);
            i = i + 1;
        }
        let ring: SpscRing<T> = SpscRing { slots, head: 0, tail: 0 };
        proof {
            assert(ring@ =~= Seq::<T>::empty());
        }
        Ok(ring)
    }

    /// Puts a value at the end, or hands it back where the ring is full.
    pub fn try_push(&mut self, value: T) -> (r: Result<(), T>)
        ensures
            final(self).capacity() == old(self).capacity(),
            match r {
                Ok(_) => old(self)@.len() < old(self).capacity() && final(self)@ == old(self)@.push(value),
                Err(back) => old(self)@.len() == old(self).capacity() && back == value && final(self)@ == old(self)@,
            },
    {
        proof {
            use_type_invariant(&*self);
        }
        let n: usize = self.slots.len();
        let used: u64 = self.head.wrapping_sub(self.tail);
        assert(used == queued(self.head, self.tail));
        if used >= n as u64 {
            return Err(value);
        }
        let at: usize = (self.head % (n as u64)) as usize;
        let ghost before = *self;
        proof {
            let t = self.tail as int;
            lemma_spot_mod(t + used, n as nat);
            assert(spot(t + used, n as nat) == spot(self.head as int, n as nat)) by {
                assert((t + used) % 0x1_0000_0000_0000_0000 == self.head);
            }
            assert(spot(self.head as int, n as nat) == at);
        }
        self.slots[at] = value;
        let head: u64 = self.head.wrapping_add(1);
        let tail: u64 = self.tail;
        assert(queued(head, tail) == used + 1);
        self.head = head;
        proof {
            assert forall|i: int| 0 <= i < used implies #[trigger] self@[i] == before@[i] by {
                lemma_spots_differ(tail + i, tail + used, n as nat);
            }
            assert(self@ =~= before@.push(value));
        }
        Ok(())
    }

    /// Takes the oldest value.
    pub fn try_pop(&mut self) -> (r: Option<T>)
        ensures
            final(self).capacity() == old(self).capacity(),
            match r {
                Some(value) => old(self)@.len() > 0 && value == old(self)@[0] && final(self)@
                    == old(self)@.drop_first(),
                None => old(self)@.len() == 0 && final(self)@ == old(self)@,
            },
    {
        proof {
            use_type_invariant(&*self);
        }
        if self.tail == self.head {
            return None;
        }
        let n: usize = self.slots.len();
        let at: usize = (self.tail % (n as u64)) as usize;
        let value: T = self.slots[at];
        let ghost before = *self;
        let tail: u64 = self.tail.wrapping_add(1);
        let head: u64 = self.head;
        assert(queued(head, tail) + 1 == queued(before.head, before.tail));
        self.tail = tail;
        proof {
            assert forall|i: int| 0 <= i < queued(head, tail) implies #[trigger] self@[i]
                == before@[i + 1] by {
                lemma_spot_mod(before.tail + i + 1, n as nat);
                lemma_spot_mod(tail + i, n as nat);
                assert((tail + i) % 0x1_0000_0000_0000_0000 == (before.tail + i + 1)
                    % 0x1_0000_0000_0000_0000);
            }
            assert(self@ =~= before@.drop_first());
            assert(value == before@[0]);
        }
        Some(value)
    }

    /// Puts as many of `values` at the end, from the first on, as there is room for.
    pub fn try_push_slice(&mut self, values: &[T]) -> (count: usize)
        ensures
            final(self).capacity() == old(self).capacity(),
            count == if values@.len() <= old(self).capacity() - old(self)@.len() {
                values@.len() as int
            } else {
                old(self).capacity() - old(self)@.len()
            },
            final(self)@ == old(self)@ + values@.subrange(0, count as int),
    {
        let ghost before = self@;
        let mut count: usize = 0;
        proof {
            use_type_invariant(&*self);
            assert(self@ =~= before + values@.subrange(0, 0));
        }
        while count < values.len()
            invariant
                count <= values@.len(),
                self.capacity() == old(self).capacity(),
                before == old(self)@,
                self@ == before + values@.subrange(0, count as int),
                before.len() + count <= self.capacity(),
            decreases values@.len() - count,
        {
            match self.try_push(values[count]) {
                Ok(_) => {
                    proof {
                        assert(self@ =~= before + values@.subrange(0, count + 1));
                    }
                    count = count + 1;
                },
                Err(_) => {
                    return count;
                },
            }
        }
        count
    }

    /// Takes up to `max` of the oldest values and appends them to `out`.
    pub fn pop_batch(&mut self, out: &mut Vec<T>, max: usize) -> (count: usize)
        ensures
            final(self).capacity() == old(self).capacity(),
            count == if old(self)@.len() <= max {
                old(self)@.len() as int
            } else {
                max as int
            },
            final(out)@ == old(out)@ + old(self)@.subrange(0, count as int),
            final(self)@ == old(self)@.subrange(count as int, old(self)@.len() as int),
    {
        let ghost before = self@;
        let ghost held = out@;
        let mut count: usize = 0;
        proof {
            assert(self@ =~= before.subrange(0, before.len() as int));
            assert(out@ =~= held + before.subrange(0, 0));
        }
        while count < max
            invariant
                count <= max,
                count <= before.len(),
                self.capacity() == old(self).capacity(),
                before == old(self)@,
                held == old(out)@,
                self@ == before.subrange(count as int, before.len() as int),
                out@ == held + before.subrange(0, count as int),
            decreases max - count,
        {
            match self.try_pop() {
                Some(value) => {
                    out.push(value);
                    proof {
                        assert(out@ =~= held + before.subrange(0, count + 1));
                        assert(self@ =~= before.subrange(count + 1, before.len() as int));
                    }
                    count = count + 1;
                },
                None => {
                    return count;
                },
            }
        }
        count
    }
}

/// Pushing to a full turn of a ring and popping it again gives the values back in their order:
/// what a pop yields is what was pushed first of what is still there.
pub proof fn law_first_in_first_out<T>(queue: Seq<T>, values: Seq<T>)
    ensures
        (queue + values).subrange(queue.len() as int, (queue.len() + values.len()) as int)
            == values,
        (queue + values).subrange(0, queue.len() as int) == queue,
{
    assert((queue + values).subrange(queue.len() as int, (queue.len() + values.len()) as int)
        =~= values);
    assert((queue + values).subrange(0, queue.len() as int) =~= queue);
}

/// The sequence number that marks a slot which is being filled.
pub const SEQUENCE_RESERVED: u64 = u64::MAX;

/// A ring in which values are published under sequence numbers, in any order, and consumed by
/// sequence number. A slot serves the sequence numbers that are equal modulo the ring's size, one
/// at a time.
pub struct SequenceRing<T> {
    slots: Vec<T>,
    published: Vec<u64>,
}

impl<T> SequenceRing<T> {
    #[verifier::type_invariant]
    spec fn inv(self) -> bool {
        &&& self.slots@.len() >= 2
        &&& power_of_two(self.slots@.len())
        &&& self.published@.len() == self.slots@.len()
        &&& self.slots@.len() <= usize::MAX
        &&& forall|k: int|
            0 <= k < self.published@.len() ==> (#[trigger] self.published@[k] != 0 ==> (
            self.published@[k] != SEQUENCE_RESERVED && self.published@[k] as int
                % self.slots@.len() as int == k))
    }

    /// How many slots the ring has.
    pub closed spec fn capacity(self) -> nat {
        self.slots@.len()
    }

    /// What the slot at `k` was last given.
    pub closed spec fn resting(self, k: int) -> T {
        self.slots@[k]
    }
}

impl<T> View for SequenceRing<T> {
    type V = Map<u64, T>;

    /// The published values that have not been consumed, by sequence number.
    closed spec fn view(&self) -> Map<u64, T> {
        Map::new(
            |s: u64| s != 0 && self.published@[s as int % self.slots@.len() as int] == s,
            |s: u64| self.slots@[s as int % self.slots@.len() as int],
        )
    }
}

/// Whether a published sequence number of `m` occupies the slot of `sequence`.
pub open spec fn slot_taken<T>(m: Map<u64, T>, sequence: u64, capacity: nat) -> bool {
    exists|s: u64| #[trigger]
        m.dom().contains(s) && s as int % capacity as int == sequence as int % capacity as int
}

fn store(list: &mut Vec<u64>, at: usize, value: u64)
    requires
        at < old(list)@.len(),
    ensures
        final(list)@ == old(list)@.update(at as int, value),
    no_unwind
{
    list[at] = value;
}

impl<T: Copy> SequenceRing<T> {
    /// An empty ring with `entries` slots, a power of two.
    pub fn new(entries: usize) -> (r: Result<Self, Error>) where T: Default
        ensures
            match r {
                Ok(ring) => entries >= 2 && power_of_two(entries as nat) && ring@ == Map::<
                    u64,
                    T,
                >::empty() && ring.capacity() == entries,
                Err(e) => !(entries >= 2 && power_of_two(entries as nat)) && e@ == (
                    ErrorKind::InvalidInput,
                    "sequence ring entries must be a power of two >= 2"@,
                ),
            },
    {
        if entries < 2 || !is_power_of_two(entries as u64) {
            return Err(invalid("sequence ring entries must be a power of two >= 2"));
        }
        let blank: T = T::default();
        let mut slots: Vec<T> = Vec::new();
        let mut published: Vec<u64> = Vec::new();
        let mut i: usize = 0;
        while i < entries
            invariant
                i <= entries,
                slots@.len() == i,
                published@.len() == i,
                forall|k: int| 0 <= k < i ==> #[trigger] published@[k] == 0,
            decreases entries - i,
        {
            slots.push(blank);
            published.push(0);
            i = i + 1;
        }
        let ring: SequenceRing<T> = SequenceRing { slots, published };
        proof {
            assert forall|s: u64| !ring@.dom().contains(s) by {
                let k = s as int % entries as int;
                assert(ring.published@[k] == 0);
            }
            assert(ring@ =~= Map::<u64, T>::empty());
        }
        Ok(ring)
    }

    /// Publishes `value` under `sequence`, or hands it back where the number is reserved or its
    /// slot is taken.
    pub fn try_publish(&mut self, sequence: u64, value: T) -> (r: Result<(), T>)
        ensures
            final(self).capacity() == old(self).capacity(),
            match r {
                Ok(_) => {
                    &&& sequence != 0 && sequence != SEQUENCE_RESERVED
                    &&& !slot_taken(old(self)@, sequence, old(self).capacity())
                    &&& final(self)@ == old(self)@.insert(sequence, value)
                },
                Err(back) => {
                    &&& sequence == 0 || sequence == SEQUENCE_RESERVED || slot_taken(
                        old(self)@,
                        sequence,
                        old(self).capacity(),
                    )
                    &&& back == value
                    &&& *final(self) == *old(self)
                },
            },
    {
        proof {
            use_type_invariant(&*self);
        }
        if sequence == 0 || sequence == SEQUENCE_RESERVED {
            return Err(value);
        }
        let n: usize = self.slots.len();
        let at: usize = (sequence % (n as u64)) as usize;
        if self.published[at] != 0 {
            proof {
                assert(self@.dom().contains(self.published@[at as int]));
            }
            return Err(value);
        }
        let ghost before = *self;
        proof {
            assert(!slot_taken(self@, sequence, n as nat)) by {
                if slot_taken(self@, sequence, n as nat) {
                    let s = choose|s: u64| #[trigger]
                        self@.dom().contains(s) && s as int % n as int == sequence as int
                            % n as int;
                    assert(self.published@[at as int] == s);
                }
            }
        }
        self.slots[at] = value;
        store(&mut self.published, at, sequence);
        proof {
            assert forall|s: u64| #[trigger] self@.dom().contains(s) == before@.insert(
                sequence,
                value,
            ).dom().contains(s) && (self@.dom().contains(s) ==> self@[s] == before@.insert(
                sequence,
                value,
            )[s]) by {
                let k = s as int % n as int;
                if k != at {
                    assert(self.published@[k] == before.published@[k]);
                }
            }
            assert(self@ =~= before@.insert(sequence, value));
        }
        Ok(())
    }

    /// Takes what was published under `sequence`. Under zero, which is never published, the
    /// first slot answers with what it was last given as long as it is free.
    pub fn try_consume(&mut self, sequence: u64) -> (r: Option<T>)
        ensures
            final(self).capacity() == old(self).capacity(),
            sequence != 0 ==> match r {
                Some(value) => old(self)@.dom().contains(sequence) && value == old(self)@[sequence]
                    && final(self)@ == old(self)@.remove(sequence),
                None => !old(self)@.dom().contains(sequence) && *final(self) == *old(self),
            },
            sequence == 0 ==> final(self)@ == old(self)@ && r == if slot_taken(
                old(self)@,
                0,
                old(self).capacity(),
            ) {
                None
            } else {
                Some(old(self).resting(0))
            },
    {
        proof {
            use_type_invariant(&*self);
        }
        let n: usize = self.slots.len();
        let at: usize = (sequence % (n as u64)) as usize;
        proof {
            if sequence == 0 {
                vstd::arithmetic::div_mod::lemma_small_mod(0, n as nat);
                assert(at == 0);
            }
        }
        if self.published[at] != sequence {
            proof {
                if sequence == 0 {
                    assert(self@.dom().contains(self.published@[0]));
                }
            }
            return None;
        }
        let value: T = self.slots[at];
        let ghost before = *self;
        store(&mut self.published, at, 0);
        proof {
            assert forall|s: u64| s != sequence implies #[trigger] self@.dom().contains(s)
                == before@.dom().contains(s) && (self@.dom().contains(s) ==> self@[s]
                == before@[s]) by {
                let k = s as int % n as int;
                if k != at {
                    assert(self.published@[k] == before.published@[k]);
                }
            }
            if sequence == 0 {
                assert(!slot_taken(before@, 0, n as nat)) by {
                    if slot_taken(before@, 0, n as nat) {
                        let s = choose|s: u64| #[trigger]
                            before@.dom().contains(s) && s as int % n as int == 0;
                        assert(before.published@[0] == s);
                    }
                }
                assert(self@ =~= before@);
            } else {
                assert(self@ =~= before@.remove(sequence));
            }
        }
        Some(value)
    }
}

/// A value that was published is what consuming its sequence number gives, whatever was published
/// under other numbers in between, and the number is then free again.
pub proof fn law_consume_gives_what_was_published<T>(
    m: Map<u64, T>,
    sequence: u64,
    value: T,
    other: u64,
    other_value: T,
)
    requires
        sequence != other,
        !m.dom().contains(sequence),
    ensures
        m.insert(sequence, value).insert(other, other_value)[sequence] == value,
        m.insert(sequence, value).remove(sequence) == m,
{
    assert(m.insert(sequence, value).remove(sequence) =~= m);
}

} // verus!
