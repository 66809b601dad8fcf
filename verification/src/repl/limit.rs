//! A writer that takes no more than a given number of bytes.
use vstd::prelude::*;
use vstd::string::*;

use crate::error::{corrupt, Error};

verus! {

/// A writer and how many bytes it still takes.
#[derive(Debug)]
pub struct BoundedWriter<W> {
    pub inner: W,
    pub remaining: u64,
}

impl<W> BoundedWriter<W> {
    /// A writer that takes a number of bytes.
    pub fn new(inner: W, remaining: u64) -> (w: Self)
        ensures
            w.inner == inner,
            w.remaining == remaining,
    {
        BoundedWriter { inner, remaining }
    }

    /// Checks that a write of `len` bytes fits.
    pub fn allows(&self, len: usize) -> (r: Result<(), Error>)
        ensures
            match r {
                Ok(_) => len <= self.remaining,
                Err(e) => len > self.remaining && e@ == crate::error::bad_data(
                    "replication byte limit exceeded"@,
                ),
            },
    {
        if len as u64 > self.remaining {
            Err(corrupt("replication byte limit exceeded"))
        } else {
            Ok(())
        }
    }

    /// Counts the bytes that a write has taken.
    pub fn took(&mut self, written: usize)
        ensures
            final(self).inner == old(self).inner,
            final(self).remaining == left_after(old(self).remaining as int, written as int),
    {
        self.remaining = self.remaining.saturating_sub(written as u64);
    }
}

/// What is left after a write.
pub open spec fn left_after(remaining: int, written: int) -> int {
    if written < remaining {
        remaining - written
    } else {
        0
    }
}

/// What is left after some writes. Each is given by how many bytes were offered and how many of them
/// were taken; one that does not fit is refused.
pub open spec fn left_after_all(limit: int, writes: Seq<(int, int)>) -> int
    decreases writes.len(),
{
    if writes.len() == 0 {
        limit
    } else {
        let left = left_after_all(limit, writes.drop_last());
        let (offered, taken) = writes.last();
        if offered <= left {
            left_after(left, taken)
        } else {
            left
        }
    }
}

/// How many bytes some writes have taken in all.
pub open spec fn taken_by(limit: int, writes: Seq<(int, int)>) -> int
    decreases writes.len(),
{
    if writes.len() == 0 {
        0
    } else {
        let left = left_after_all(limit, writes.drop_last());
        let (offered, taken) = writes.last();
        taken_by(limit, writes.drop_last()) + if offered <= left {
            taken
        } else {
            0
        }
    }
}

/// However the writes come, what was taken and what is left make up the limit.
pub proof fn law_no_more_than_the_limit_is_taken(limit: int, writes: Seq<(int, int)>)
    requires
        0 <= limit,
        forall|i: int|
            0 <= i < writes.len() ==> {
                let (offered, taken) = #[trigger] writes[i];
                0 <= taken <= offered
            },
    ensures
        0 <= left_after_all(limit, writes) <= limit,
        taken_by(limit, writes) + left_after_all(limit, writes) == limit,
    decreases writes.len(),
{
    if writes.len() > 0 {
        law_no_more_than_the_limit_is_taken(limit, writes.drop_last());
        let (offered, taken) = writes[writes.len() - 1];
        assert(0 <= taken <= offered);
    }
}

} // verus!
