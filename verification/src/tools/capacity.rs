//! The scenario of a full estate: volumes that fill seven hosts, one too many, and an eighth host.
use vstd::prelude::*;
use vstd::string::*;

use crate::error::{invalid, Error, ErrorKind};
use crate::text::{decimal, join2, padded, str_eq};

verus! {

pub const UNITS_PER_HOST: u64 = 160;

pub const INITIAL_VOLUMES: usize = 1000;

pub const HEAVY_VOLUMES: usize = 7;

pub const FILL_VOLUMES: usize = 8;

/// A volume and the operations per second that it reserves.
#[derive(Debug)]
pub struct Volume {
    pub id: String,
    pub iops: u64,
}

/// What the volume of an ordinal reserves: the first few are heavy.
pub open spec fn iops_of(ordinal: int) -> u64 {
    if ordinal < 7 {
        17
    } else {
        1
    }
}

/// The volumes that are asked for at first.
pub fn initial_volumes() -> (v: Vec<Volume>)
    ensures
        v@.len() == 1000,
        forall|i: int|
            0 <= i < 1000 ==> (#[trigger] v@[i]).id@ == "volume-"@ + crate::text::padded_text(
                i as nat,
                4,
            ) && v@[i].iops == iops_of(i),
{
    let mut v: Vec<Volume> = Vec::new();
    let mut i: usize = 0;
    while i < INITIAL_VOLUMES
        invariant
            i <= 1000,
            v@.len() == i,
            forall|k: int|
                0 <= k < i ==> (#[trigger] v@[k]).id@ == "volume-"@ + crate::text::padded_text(
                    k as nat,
                    4,
                ) && v@[k].iops == iops_of(k),
        decreases 1000 - i,
    {
        let digits: String = padded(i as u64, 4);
        let iops: u64 = if i < HEAVY_VOLUMES {
            17
        } else {
            1
        };
        v.push(Volume { id: join2("volume-", digits.as_str()), iops });
        i = i + 1;
    }
    v
}

/// The volumes that take up what is left.
pub fn fill_volumes() -> (v: Vec<Volume>)
    ensures
        v@.len() == 8,
        forall|i: int|
            0 <= i < 8 ==> (#[trigger] v@[i]).id@ == "fill-"@ + crate::text::decimal_text(i as nat)
                && v@[i].iops == 1,
{
    let mut v: Vec<Volume> = Vec::new();
    let mut i: usize = 0;
    while i < FILL_VOLUMES
        invariant
            i <= 8,
            v@.len() == i,
            forall|k: int|
                0 <= k < i ==> (#[trigger] v@[k]).id@ == "fill-"@ + crate::text::decimal_text(
                    k as nat,
                ) && v@[k].iops == 1,
        decreases 8 - i,
    {
        let digits: String = decimal(i as u64);
        v.push(Volume { id: join2("fill-", digits.as_str()), iops: 1 });
        i = i + 1;
    }
    v
}

/// A host of the estate.
#[derive(Debug)]
pub struct Host {
    pub id: String,
    pub failure_domain: String,
    pub capacity_bytes: u64,
    pub lane_iops: u64,
    pub restore_bytes_per_second: u64,
}

/// The host of an ordinal.
pub fn host(ordinal: usize) -> (h: Host)
    ensures
        h.id@ == "storage-"@ + crate::text::decimal_text(ordinal as nat),
        h.failure_domain@ == "qemu-vm-"@ + crate::text::decimal_text(ordinal as nat),
        h.capacity_bytes == 160 * 4096,
        h.lane_iops == 160,
        h.restore_bytes_per_second == 1073741824,
{
    let digits: String = decimal(ordinal as u64);
    Host {
        id: join2("storage-", digits.as_str()),
        failure_domain: join2("qemu-vm-", digits.as_str()),
        capacity_bytes: 655360,
        lane_iops: UNITS_PER_HOST,
        restore_bytes_per_second: 1073741824,
    }
}

/// What the events of the scenario are numbered and dated by.
#[derive(Clone, Copy, Debug, PartialEq, Eq, Structural)]
pub struct Scenario {
    pub index: u64,
    pub timestamp_ns: u64,
}

/// One more, as far as a word counts.
pub open spec fn one_more(n: u64) -> u64 {
    if n == u64::MAX {
        n
    } else {
        (n + 1) as u64
    }
}

impl Scenario {
    /// No event yet.
    pub fn new() -> (s: Scenario)
        ensures
            s == (Scenario { index: 0, timestamp_ns: 0 }),
    {
        Scenario { index: 0, timestamp_ns: 0 }
    }

    /// The number and the date of the next event.
    pub fn emit(&mut self) -> (event: (u64, u64))
        ensures
            event == (one_more(old(self).index), one_more(old(self).timestamp_ns)),
            *final(self) == (Scenario {
                index: one_more(old(self).index),
                timestamp_ns: one_more(old(self).timestamp_ns),
            }),
    {
        self.index = self.index.saturating_add(1);
        self.timestamp_ns = self.timestamp_ns.saturating_add(1);
        (self.index, self.timestamp_ns)
    }

    /// The number of the event that a plan takes account of last.
    pub fn plan(&self) -> (watermark: u64)
        ensures
            watermark == self.index,
    {
        self.index
    }
}

/// What the first volumes reserve together.
pub open spec fn reserved(n: int) -> int
    decreases n,
{
    if n <= 0 {
        0
    } else {
        reserved(n - 1) + iops_of(n - 1)
    }
}

proof fn lemma_reserved(n: int)
    requires
        0 <= n,
    ensures
        reserved(n) == n + 16 * (if n < 7 {
            n
        } else {
            7
        }),
    decreases n,
{
    if n > 0 {
        lemma_reserved(n - 1);
    }
}

/// The volumes that are asked for at first fit on seven hosts, and with the others nothing is left.
pub proof fn law_the_volumes_fill_seven_hosts()
    ensures
        reserved(1000) == 1112,
        reserved(1000) <= 7 * 160,
        reserved(1000) + 8 == 7 * 160,
{
    lemma_reserved(1000);
}

/// The file that tells that the eighth host is there.
pub fn parse_marker(args: &Vec<String>) -> (r: Result<String, Error>)
    ensures
        match r {
            Ok(path) => args@.len() == 1 && path@ == args@[0]@,
            Err(e) => args@.len() != 1 && e@ == crate::error::bad_input(
                "usage: zcvolume-capacity-scenario <storage-8-online-marker>"@,
            ),
        },
{
    if args.len() != 1 {
        return Err(invalid("usage: zcvolume-capacity-scenario <storage-8-online-marker>"));
    }
    Ok(args[0].clone())
}

/// Checks that a file appeared in time.
pub fn wait_for_marker(present: bool, late: bool, path: &str) -> (r: Result<bool, Error>)
    ensures
        match r {
            Ok(there) => there == present && (present || !late),
            Err(e) => !present && late && e@ == (
                ErrorKind::TimedOut,
                "timed out waiting for online marker "@ + path@,
            ),
        },
{
    if present {
        Ok(true)
    } else if late {
        Err(
            Error::new(ErrorKind::TimedOut, join2("timed out waiting for online marker ", path)),
        )
    } else {
        Ok(false)
    }
}

/// How many of some volumes were placed.
pub open spec fn placed_count(placed: Seq<bool>) -> nat
    decreases placed.len(),
{
    if placed.len() == 0 {
        0
    } else {
        placed_count(placed.drop_last()) + if placed.last() {
            1nat
        } else {
            0nat
        }
    }
}

/// Checks that every volume that was asked for at first was placed.
pub fn check_initial(placed: &Vec<bool>) -> (r: Result<(), Error>)
    ensures
        match r {
            Ok(_) => placed_count(placed@) == 1000,
            Err(e) => placed_count(placed@) != 1000 && e@ == (
                ErrorKind::Other,
                "only "@ + crate::text::decimal_text(placed_count(placed@))
                    + "/1000 initial volumes were admitted"@,
            ),
        },
{
    let mut count: usize = 0;
    let mut i: usize = 0;
    proof {
        assert(placed@.subrange(0, 0) =~= Seq::<bool>::empty());
    }
    while i < placed.len()
        invariant
            i <= placed@.len(),
            count == placed_count(placed@.subrange(0, i as int)),
            count <= i,
        decreases placed@.len() - i,
    {
        proof {
            let next = placed@.subrange(0, i + 1);
            assert(next.drop_last() =~= placed@.subrange(0, i as int));
        }
        if placed[i] {
            count = count + 1;
        }
        i = i + 1;
    }
    proof {
        assert(placed@.subrange(0, i as int) =~= placed@);
    }
    if count == INITIAL_VOLUMES {
        return Ok(());
    }
    let digits: String = decimal(count as u64);
    let head: String = join2("only ", digits.as_str());
    Err(Error::new(ErrorKind::Other, join2(head.as_str(), "/1000 initial volumes were admitted")))
}

/// Checks that the volumes that take up what is left were placed.
pub fn check_fill(placed: &Vec<bool>) -> (r: Result<(), Error>)
    ensures
        match r {
            Ok(_) => !placed@.contains(false),
            Err(e) => placed@.contains(false) && e@ == (
                ErrorKind::Other,
                "the eight fill volumes did not consume the remaining capacity"@,
            ),
        },
{
    let mut i: usize = 0;
    while i < placed.len()
        invariant
            i <= placed@.len(),
            forall|k: int| 0 <= k < i ==> #[trigger] placed@[k],
        decreases placed@.len() - i,
    {
        if !placed[i] {
            proof {
                assert(placed@[i as int] == false);
            }
            return Err(
                Error::of(
                    ErrorKind::Other,
                    "the eight fill volumes did not consume the remaining capacity",
                ),
            );
        }
        i = i + 1;
    }
    Ok(())
}

/// Checks that the volume too many was put off, and not placed.
pub fn check_deferred(deferred: bool, placed: bool) -> (r: Result<(), Error>)
    ensures
        match r {
            Ok(_) => deferred && !placed,
            Err(e) => e@ == if !deferred {
                (ErrorKind::Other, "full estate did not defer needs-storage-8"@)
            } else {
                (ErrorKind::Other, "rejected volume unexpectedly has a placement"@)
            },
        },
        r is Ok == (deferred && !placed),
{
    if !deferred {
        return Err(Error::of(ErrorKind::Other, "full estate did not defer needs-storage-8"));
    }
    if placed {
        return Err(Error::of(ErrorKind::Other, "rejected volume unexpectedly has a placement"));
    }
    Ok(())
}

/// Checks that the volume too many was placed on the eighth host alone; `shown` describes where it is.
pub fn check_added(hosts: Option<&Vec<String>>, shown: &str) -> (r: Result<(), Error>)
    ensures
        match (hosts, r) {
            (None, Err(e)) => e@ == (
                ErrorKind::Other,
                "volume remained deferred after storage-8 joined"@,
            ),
            (Some(v), Ok(_)) => v@.len() == 1 && v@[0]@ == "storage-8"@,
            (Some(v), Err(e)) => !(v@.len() == 1 && v@[0]@ == "storage-8"@) && e@ == (
                ErrorKind::Other,
                "new volume was not placed on the newly online host: "@ + shown@,
            ),
            _ => false,
        },
{
    match hosts {
        None => Err(
            Error::of(ErrorKind::Other, "volume remained deferred after storage-8 joined"),
        ),
        Some(v) => if v.len() == 1 && str_eq(v[0].as_str(), "storage-8") {
            Ok(())
        } else {
            Err(
                Error::new(
                    ErrorKind::Other,
                    join2("new volume was not placed on the newly online host: ", shown),
                ),
            )
        },
    }
}

/// Every volume is counted as placed or not: all are placed exactly where the count is that of the volumes,
/// and the count is never more.
pub proof fn law_all_are_placed_where_none_is_missing(placed: Seq<bool>)
    ensures
        placed_count(placed) <= placed.len(),
        placed_count(placed) == placed.len() <==> !placed.contains(false),
    decreases placed.len(),
{
    if placed.len() > 0 {
        let rest = placed.drop_last();
        law_all_are_placed_where_none_is_missing(rest);
        if rest.contains(false) {
            let i = choose|i: int| 0 <= i < rest.len() && rest[i] == false;
            assert(placed[i] == false);
        } else if placed.last() {
            assert forall|i: int| 0 <= i < placed.len() implies placed[i] != false by {
                if i < rest.len() {
                    assert(rest[i] == placed[i]);
                    assert(rest.contains(rest[i]));
                }
            }
        } else {
            assert(placed[placed.len() - 1] == false);
        }
    }
}

} // verus!
