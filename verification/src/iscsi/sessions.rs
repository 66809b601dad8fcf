//! Sessions of initiators, spread over the lanes of the target.
use vstd::prelude::*;
use vstd::string::*;

use crate::error::{invalid, Error, ErrorKind};

verus! {

/// The sessions of a target: how many each lane serves, and the numbers of those that have
/// registered with it.
#[derive(Debug)]
pub struct TargetSessions {
    pub occupancy: Vec<u32>,
    pub registered: Vec<Vec<u32>>,
    pub next_id: u32,
    pub sessions_per_lane: u32,
}

/// The lane and number that a session got.
#[derive(Clone, Copy, Debug, PartialEq, Eq, Structural)]
pub struct SessionLane {
    pub lane: usize,
    pub id: u32,
}

/// The numbers registered with each lane.
pub open spec fn registry(s: Seq<Vec<u32>>) -> Seq<Seq<u32>> {
    Seq::new(s.len(), |i: int| s[i]@)
}

/// Whether `lane` is the first of the least occupied lanes, and has room.
pub open spec fn best_lane(occupancy: Seq<u32>, limit: u32, lane: int) -> bool {
    &&& 0 <= lane < occupancy.len()
    &&& occupancy[lane] < limit
    &&& forall|i: int| 0 <= i < lane ==> #[trigger] occupancy[i] > occupancy[lane]
    &&& forall|i: int| lane <= i < occupancy.len() ==> #[trigger] occupancy[i] >= occupancy[lane]
}

/// `ids` without `id`.
pub open spec fn without(ids: Seq<u32>, id: u32) -> Seq<u32>
    decreases ids.len(),
{
    if ids.len() == 0 {
        Seq::empty()
    } else {
        let head = without(ids.drop_last(), id);
        if ids.last() == id {
            head
        } else {
            head.push(ids.last())
        }
    }
}

impl TargetSessions {
    /// Whether no lane serves more sessions than it may, and every lane has a registry.
    pub open spec fn wf(&self) -> bool {
        &&& 1 <= self.occupancy@.len() <= 32
        &&& self.registered@.len() == self.occupancy@.len()
        &&& self.sessions_per_lane >= 1
        &&& forall|i: int|
            0 <= i < self.occupancy@.len() ==> #[trigger] self.occupancy@[i]
                <= self.sessions_per_lane
    }

    /// No sessions on `lanes` lanes yet.
    pub fn new(lanes: usize, sessions_per_lane: u32) -> (r: Result<TargetSessions, Error>)
        ensures
            match r {
                Ok(s) => {
                    &&& 1 <= lanes <= 32
                    &&& sessions_per_lane > 0
                    &&& s.wf()
                    &&& s.occupancy@ == Seq::new(lanes as nat, |i: int| 0u32)
                    &&& registry(s.registered@) == Seq::new(
                        lanes as nat,
                        |i: int| Seq::<u32>::empty(),
                    )
                    &&& s.next_id == 1
                    &&& s.sessions_per_lane == sessions_per_lane
                },
                Err(e) => if lanes == 0 || lanes > 32 {
                    e@ == (
                        ErrorKind::InvalidInput,
                        "iSCSI session sharding supports 1..=32 edge lanes"@,
                    )
                } else {
                    sessions_per_lane == 0 && e@ == (
                        ErrorKind::InvalidInput,
                        "--sessions-per-lane must be positive"@,
                    )
                },
            },
    {
        if lanes == 0 || lanes > 32 {
            return Err(invalid("iSCSI session sharding supports 1..=32 edge lanes"));
        }
        if sessions_per_lane == 0 {
            return Err(invalid("--sessions-per-lane must be positive"));
        }
        let mut occupancy: Vec<u32> = Vec::new();
        let mut registered: Vec<Vec<u32>> = Vec::new();
        let mut i: usize = 0;
        while i < lanes
            invariant
                i <= lanes,
                occupancy@ == Seq::new(i as nat, |k: int| 0u32),
                registry(registered@) == Seq::new(i as nat, |k: int| Seq::<u32>::empty()),
            decreases lanes - i,
        {
            let ghost held = registered@;
            occupancy.push(0);
            registered.push(Vec::new());
            proof {
                assert(occupancy@ =~= Seq::new((i + 1) as nat, |k: int| 0u32));
                assert(registry(registered@) =~= registry(held).push(Seq::<u32>::empty()));
                assert(registry(registered@) =~= Seq::new(
                    (i + 1) as nat,
                    |k: int| Seq::<u32>::empty(),
                ));
            }
            i = i + 1;
        }
        proof {
            assert(registry(registered@).len() == lanes);
        }
        Ok(TargetSessions { occupancy, registered, next_id: 1, sessions_per_lane })
    }

    /// Gives a new session the first of the least occupied lanes that have room.
    pub fn acquire(&mut self) -> (r: Result<SessionLane, Error>)
        requires
            old(self).wf(),
        ensures
            final(self).wf(),
            final(self).registered == old(self).registered,
            final(self).sessions_per_lane == old(self).sessions_per_lane,
            match r {
                Ok(lease) => {
                    &&& best_lane(old(self).occupancy@, old(self).sessions_per_lane, lease.lane as int)
                    &&& lease.id == old(self).next_id
                    &&& final(self).occupancy@ == old(self).occupancy@.update(
                        lease.lane as int,
                        (old(self).occupancy@[lease.lane as int] + 1) as u32,
                    )
                    &&& final(self).next_id == (old(self).next_id + 1) % 0x1_0000_0000
                },
                Err(e) => {
                    &&& forall|i: int|
                        0 <= i < old(self).occupancy@.len() ==> #[trigger] old(self).occupancy@[i]
                            == old(self).sessions_per_lane
                    &&& *final(self) == *old(self)
                    &&& e@ == (
                        ErrorKind::WouldBlock,
                        "all iSCSI edge-lane session shards are occupied"@,
                    )
                },
            },
    {
        let mut best: Option<usize> = None;
        let mut i: usize = 0;
        while i < self.occupancy.len()
            invariant
                i <= self.occupancy@.len(),
                *self == *old(self),
                self.wf(),
                match best {
                    Some(b) => {
                        &&& b < i
                        &&& self.occupancy@[b as int] < self.sessions_per_lane
                        &&& forall|k: int|
                            0 <= k < b ==> #[trigger] self.occupancy@[k]
                                > self.occupancy@[b as int]
                        &&& forall|k: int|
                            b <= k < i ==> #[trigger] self.occupancy@[k]
                                >= self.occupancy@[b as int]
                    },
                    None => forall|k: int|
                        0 <= k < i ==> #[trigger] self.occupancy@[k] == self.sessions_per_lane,
                },
            decreases self.occupancy@.len() - i,
        {
            assert(self.occupancy@[i as int] <= self.sessions_per_lane);
            if self.occupancy[i] < self.sessions_per_lane {
                best = match best {
                    Some(b) => if self.occupancy[i] < self.occupancy[b] {
                        Some(i)
                    } else {
                        Some(b)
                    },
                    None => Some(i),
                };
            }
            i = i + 1;
        }
        match best {
            Some(lane) => {
                let id: u32 = self.next_id;
                let count: u32 = self.occupancy[lane];
                self.occupancy[lane] = count + 1;
                self.next_id = id.wrapping_add(1);
                Ok(SessionLane { lane, id })
            },
            None => Err(
                Error::of(
                    ErrorKind::WouldBlock,
                    "all iSCSI edge-lane session shards are occupied",
                ),
            ),
        }
    }

    /// Registers a session with its lane.
    pub fn register(&mut self, lease: SessionLane)
        requires
            old(self).wf(),
            lease.lane < old(self).occupancy@.len(),
        ensures
            final(self).wf(),
            final(self).occupancy == old(self).occupancy,
            final(self).next_id == old(self).next_id,
            final(self).sessions_per_lane == old(self).sessions_per_lane,
            registry(final(self).registered@) == registry(old(self).registered@).update(
                lease.lane as int,
                old(self).registered@[lease.lane as int]@.push(lease.id),
            ),
    {
        let ghost before = registry(self.registered@);
        self.registered[lease.lane].push(lease.id);
        proof {
            assert(registry(self.registered@) =~= before.update(
                lease.lane as int,
                before[lease.lane as int].push(lease.id),
            ));
        }
    }

    /// Ends a session: its lane serves one less, and its number is no longer registered.
    pub fn release(&mut self, lease: SessionLane)
        requires
            old(self).wf(),
            lease.lane < old(self).occupancy@.len(),
        ensures
            final(self).wf(),
            final(self).next_id == old(self).next_id,
            final(self).sessions_per_lane == old(self).sessions_per_lane,
            final(self).occupancy@ == old(self).occupancy@.update(
                lease.lane as int,
                if old(self).occupancy@[lease.lane as int] == 0 {
                    0
                } else {
                    (old(self).occupancy@[lease.lane as int] - 1) as u32
                },
            ),
            registry(final(self).registered@) == registry(old(self).registered@).update(
                lease.lane as int,
                without(old(self).registered@[lease.lane as int]@, lease.id),
            ),
    {
        let ghost before = registry(self.registered@);
        let lane: usize = lease.lane;
        let mut kept: Vec<u32> = Vec::new();
        let ghost ids = self.registered@[lane as int]@;
        let mut i: usize = 0;
        proof {
            assert(ids.subrange(0, 0) =~= Seq::<u32>::empty());
            assert(kept@ =~= Seq::<u32>::empty());
        }
        while i < self.registered[lane].len()
            invariant
                *self == *old(self),
                lane < self.registered@.len(),
                ids == self.registered@[lane as int]@,
                i <= ids.len(),
                kept@ == without(ids.subrange(0, i as int), lease.id),
            decreases ids.len() - i,
        {
            proof {
                assert(ids.subrange(0, i + 1).drop_last() =~= ids.subrange(0, i as int));
            }
            let id: u32 = self.registered[lane][i];
            if id != lease.id {
                kept.push(id);
            }
            i = i + 1;
        }
        proof {
            assert(ids.subrange(0, i as int) =~= ids);
        }
        self.registered[lane] = kept;
        let count: u32 = self.occupancy[lane];
        self.occupancy[lane] = count.saturating_sub(1);
        proof {
            assert(registry(self.registered@) =~= before.update(
                lane as int,
                without(ids, lease.id),
            ));
        }
    }

    /// The sessions that a barrier has to reach: all that are registered, lane by lane.
    pub fn barrier_all(&self) -> (list: Vec<u32>)
        ensures
            list@ == registry(self.registered@).flatten(),
    {
        let mut list: Vec<u32> = Vec::new();
        let ghost all = registry(self.registered@);
        let mut lane: usize = 0;
        proof {
            assert(all.subrange(0, 0) =~= Seq::<Seq<u32>>::empty());
            assert(list@ =~= all.subrange(0, 0).flatten());
        }
        while lane < self.registered.len()
            invariant
                lane <= self.registered@.len(),
                all == registry(self.registered@),
                list@ == all.subrange(0, lane as int).flatten(),
            decreases self.registered@.len() - lane,
        {
            let ghost before = list@;
            let mut i: usize = 0;
            while i < self.registered[lane].len()
                invariant
                    lane < self.registered@.len(),
                    i <= self.registered@[lane as int]@.len(),
                    list@ == before + self.registered@[lane as int]@.subrange(0, i as int),
                decreases self.registered@[lane as int]@.len() - i,
            {
                list.push(self.registered[lane][i]);
                proof {
                    assert(list@ =~= before + self.registered@[lane as int]@.subrange(0, i + 1));
                }
                i = i + 1;
            }
            proof {
                let grown = all.subrange(0, lane + 1);
                assert(grown =~= all.subrange(0, lane as int).push(all[lane as int]));
                all.subrange(0, lane as int).lemma_flatten_push(all[lane as int]);
                assert(self.registered@[lane as int]@.subrange(0, i as int) =~= all[lane as int]);
            }
            lane = lane + 1;
        }
        proof {
            assert(all.subrange(0, lane as int) =~= all);
        }
        list
    }
}

/// Ending a session that was just given a lane leaves the occupancy as it was.
pub proof fn law_release_undoes_acquire(before: Seq<u32>, lane: int)
    requires
        0 <= lane < before.len(),
        before[lane] < u32::MAX,
    ensures
        ({
            let during = before.update(lane, (before[lane] + 1) as u32);
            during.update(lane, (during[lane] - 1) as u32) == before
        }),
{
    let during = before.update(lane, (before[lane] + 1) as u32);
    assert(during.update(lane, (during[lane] - 1) as u32) =~= before);
}

/// Sessions are spread evenly: a lane that a new session gets never serves more than one session
/// above any other lane afterwards.
pub proof fn law_lanes_stay_balanced(occupancy: Seq<u32>, limit: u32, lane: int, other: int)
    requires
        best_lane(occupancy, limit, lane),
        0 <= other < occupancy.len(),
    ensures
        occupancy[lane] + 1 <= occupancy[other] + 1,
        occupancy[lane] + 1 <= limit,
{
    if other < lane {
        assert(occupancy[other] > occupancy[lane]);
    } else {
        assert(occupancy[other] >= occupancy[lane]);
    }
}

/// The failure of a channel whose other end is gone.
pub fn channel_closed(reason: &str) -> (e: Error)
    ensures
        e@ == (ErrorKind::BrokenPipe, reason@),
{
    Error::of(ErrorKind::BrokenPipe, reason)
}

/// Taking a session out of a list leaves every other session in it, and that one not.
pub proof fn law_release_takes_out_one_session(ids: Seq<u32>, id: u32, other: u32)
    requires
        other != id,
    ensures
        !without(ids, id).contains(id),
        without(ids, id).contains(other) == ids.contains(other),
        without(ids, id).len() <= ids.len(),
        !ids.contains(id) ==> without(ids, id) == ids,
        without(ids.push(other), id) == without(ids, id).push(other),
    decreases ids.len(),
{
    assert(ids.push(other).drop_last() =~= ids);
    if ids.len() > 0 {
        let head = ids.drop_last();
        law_release_takes_out_one_session(head, id, other);
        let kept = without(ids, id);
        assert(ids =~= head.push(ids.last()));
        assert(ids[ids.len() - 1] == ids.last());
        if ids.contains(other) {
            let i = ids.index_of(other);
            if i < head.len() {
                assert(head[i] == other);
                let j = without(head, id).index_of(other);
                assert(kept[j] == other);
            } else {
                assert(kept[kept.len() - 1] == other);
            }
        }
        if kept.contains(other) {
            let j = kept.index_of(other);
            if j < without(head, id).len() {
                assert(without(head, id)[j] == other);
                let i = head.index_of(other);
                assert(ids[i] == other);
            }
        }
        if kept.contains(id) {
            let j = kept.index_of(id);
            if j < without(head, id).len() {
                assert(without(head, id)[j] == id);
            }
        }
        if !ids.contains(id) {
            assert forall|i: int| 0 <= i < head.len() implies head[i] != id by {
                assert(ids[i] == head[i]);
            }
            assert(!head.contains(id));
        }
    }
}

} // verus!
