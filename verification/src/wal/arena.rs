//! A contiguous stretch of memory that holds records of one size.
use vstd::prelude::*;
use vstd::string::*;

use crate::bytes::filled;

verus! {

/// Records of one size, one after the other.
#[derive(Debug)]
pub struct RecordArena {
    pub bytes: Vec<u8>,
    pub record_bytes: usize,
    pub records: usize,
}

/// The record at `i` of a stretch of memory.
pub open spec fn record_at(bytes: Seq<u8>, record_bytes: nat, i: int) -> Seq<u8> {
    bytes.subrange(i * record_bytes, i * record_bytes + record_bytes)
}

/// A record of zeroes.
pub open spec fn zero_record(record_bytes: nat) -> Seq<u8> {
    Seq::new(record_bytes, |i: int| 0u8)
}

/// The first records of a stretch of memory.
pub open spec fn records_in(bytes: Seq<u8>, record_bytes: nat, n: nat) -> Seq<Seq<u8>> {
    Seq::new(n, |i: int| record_at(bytes, record_bytes, i))
}

proof fn lemma_record_within(record_bytes: int, records: int, i: int)
    by (nonlinear_arith)
    requires
        0 <= i < records,
        0 <= record_bytes,
    ensures
        0 <= i * record_bytes,
        i * record_bytes + record_bytes <= records * record_bytes,
{
}

proof fn lemma_records_apart(record_bytes: int, i: int, k: int)
    by (nonlinear_arith)
    requires
        0 <= i < k,
        0 <= record_bytes,
    ensures
        i * record_bytes + record_bytes <= k * record_bytes,
{
}

impl RecordArena {
    /// Whether the memory has room for exactly the records.
    pub open spec fn wf(&self) -> bool {
        self.bytes@.len() == self.records * self.record_bytes
    }

    /// The records.
    pub open spec fn view(&self) -> Seq<Seq<u8>> {
        records_in(self.bytes@, self.record_bytes as nat, self.records as nat)
    }

    /// Records of zeroes.
    pub fn new(records: usize, record_bytes: usize) -> (r: Option<RecordArena>)
        ensures
            match r {
                Some(a) => {
                    &&& a.wf()
                    &&& records * record_bytes <= usize::MAX
                    &&& a.records == records
                    &&& a.record_bytes == record_bytes
                    &&& a@ == Seq::new(records as nat, |i: int| zero_record(record_bytes as nat))
                },
                None => records * record_bytes > usize::MAX,
            },
    {
        let len: usize = match records.checked_mul(record_bytes) {
            Some(len) => len,
            None => {
                return None;
            },
        };
        let a: RecordArena = RecordArena { bytes: filled(0, len), record_bytes, records };
        proof {
            let rb = record_bytes as nat;
            assert forall|i: int| 0 <= i < records implies #[trigger] a@[i] == zero_record(rb) by {
                lemma_record_within(record_bytes as int, records as int, i);
                assert(record_at(a.bytes@, rb, i) =~= zero_record(rb));
            }
            assert(a@ =~= Seq::new(records as nat, |i: int| zero_record(rb)));
        }
        Some(a)
    }

    /// Copies a record out.
    pub fn read(&self, i: usize, out: &mut Vec<u8>)
        requires
            self.wf(),
            i < self.records,
            old(out)@.len() == self.record_bytes,
        ensures
            final(out)@ == self@[i as int],
    {
        proof {
            lemma_record_within(self.record_bytes as int, self.records as int, i as int);
        }
        let len: usize = self.bytes.len();
        let at: usize = i * self.record_bytes;
        let mut k: usize = 0;
        while k < self.record_bytes
            invariant
                k <= self.record_bytes,
                len == self.bytes@.len(),
                at + self.record_bytes <= len,
                at == i * self.record_bytes,
                out@.len() == self.record_bytes,
                forall|j: int| 0 <= j < k ==> #[trigger] out@[j] == self.bytes@[at + j],
            decreases self.record_bytes - k,
        {
            out[k] = self.bytes[at + k];
            k = k + 1;
        }
        proof {
            assert(out@ =~= record_at(self.bytes@, self.record_bytes as nat, i as int));
        }
    }

    /// Copies a record in, out of `source` from `from` on.
    pub fn write(&mut self, i: usize, source: &[u8], from: usize)
        requires
            old(self).wf(),
            i < old(self).records,
            from + old(self).record_bytes <= source@.len(),
        ensures
            final(self).wf(),
            final(self).records == old(self).records,
            final(self).record_bytes == old(self).record_bytes,
            final(self)@ == old(self)@.update(
                i as int,
                source@.subrange(from as int, from + old(self).record_bytes),
            ),
    {
        let ghost before = *self;
        let rb: usize = self.record_bytes;
        proof {
            lemma_record_within(rb as int, self.records as int, i as int);
        }
        let len: usize = self.bytes.len();
        let total: usize = source.len();
        let at: usize = i * rb;
        let mut k: usize = 0;
        while k < rb
            invariant
                k <= rb,
                at + rb <= len,
                from + rb <= total,
                total == source@.len(),
                self.bytes@.len() == len,
                before.bytes@.len() == len,
                self.records == before.records,
                self.record_bytes == before.record_bytes,
                forall|j: int|
                    0 <= j < len ==> #[trigger] self.bytes@[j] == if at <= j < at + k {
                        source@[from + (j - at)]
                    } else {
                        before.bytes@[j]
                    },
            decreases rb - k,
        {
            let to: usize = at + k;
            self.bytes[to] = source[from + k];
            k = k + 1;
        }
        proof {
            let part = source@.subrange(from as int, from + rb);
            assert forall|j: int| 0 <= j < self.records implies #[trigger] self@[j]
                == before@.update(i as int, part)[j] by {
                lemma_record_within(rb as int, self.records as int, j);
                if j < i {
                    lemma_records_apart(rb as int, j, i as int);
                } else if j > i {
                    lemma_records_apart(rb as int, i as int, j);
                }
                if j == i {
                    assert(record_at(self.bytes@, rb as nat, j) =~= part);
                } else {
                    assert(record_at(self.bytes@, rb as nat, j) =~= record_at(
                        before.bytes@,
                        rb as nat,
                        j,
                    ));
                }
            }
            assert(self@ =~= before@.update(i as int, part));
        }
    }

    /// Copies record `k` of another stretch of memory in.
    pub fn write_from(&mut self, i: usize, other: &RecordArena, k: usize)
        requires
            old(self).wf(),
            other.wf(),
            i < old(self).records,
            k < other.records,
            other.record_bytes == old(self).record_bytes,
        ensures
            final(self).wf(),
            final(self).records == old(self).records,
            final(self).record_bytes == old(self).record_bytes,
            final(self)@ == old(self)@.update(i as int, other@[k as int]),
    {
        proof {
            lemma_record_within(other.record_bytes as int, other.records as int, k as int);
        }
        let len: usize = other.bytes.len();
        let from: usize = k * other.record_bytes;
        self.write(i, other.bytes.as_slice(), from);
        proof {
            assert(other.bytes@.subrange(from as int, from + other.record_bytes) =~= other@[k as int]);
        }
    }
}

/// A record is read back as it was written, and no other record changes.
pub proof fn law_record_reads_back(records: Seq<Seq<u8>>, i: int, k: int, data: Seq<u8>)
    requires
        0 <= i < records.len(),
        0 <= k < records.len(),
    ensures
        records.update(i, data)[i] == data,
        k != i ==> records.update(i, data)[k] == records[k],
{
}

/// The records of a piece of memory lie in it one behind the other.
pub proof fn law_records_lie_in_a_row(bytes: Seq<u8>, record_bytes: nat, n: nat, i: int, b: int)
    requires
        n * record_bytes <= bytes.len(),
        0 <= i < n,
        0 <= b < record_bytes,
    ensures
        records_in(bytes, record_bytes, n).len() == n,
        records_in(bytes, record_bytes, n)[i].len() == record_bytes,
        records_in(bytes, record_bytes, n)[i][b] == bytes[i * record_bytes + b],
        zero_record(record_bytes).len() == record_bytes,
        zero_record(record_bytes)[b] == 0,
{
    assert(i * record_bytes + record_bytes <= n * record_bytes) by (nonlinear_arith)
        requires
            0 <= i < n,
            0 <= record_bytes,
    ;
    assert(0 <= i * record_bytes) by (nonlinear_arith)
        requires
            0 <= i,
            0 <= record_bytes,
    ;
}

} // verus!
