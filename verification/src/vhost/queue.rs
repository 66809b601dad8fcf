//! Requests that are on their way through an asynchronous lane, by slot.
use vstd::prelude::*;
use vstd::string::*;

use crate::error::{corrupt, Error};
use crate::vhost::request::{DescriptorMeta, RequestKind};

verus! {

/// From how many requests on a lane waits for several completions at once.
pub const ARENA_WAIT_BATCH_MIN_OUTSTANDING: usize = 32;

/// How many completions a busy lane waits for.
pub const ARENA_WAIT_BATCH_COMPLETIONS: usize = 16;

/// A request that is on its way.
#[derive(Clone, Copy, Debug, PartialEq, Eq, Structural)]
pub struct Pending {
    pub head_index: u16,
    pub data: DescriptorMeta,
    pub data_host_address: u64,
    pub status_host_address: u64,
    pub kind: RequestKind,
}

/// What a lane has seen of its completions.
#[derive(Clone, Copy, Debug, PartialEq, Eq, Structural)]
pub struct ArenaCompletionStats {
    pub submit_calls: u64,
    pub submitted_requests: u64,
    pub submit_batch_max: u64,
    pub outstanding_max: u64,
    pub wait_calls: u64,
    pub wait_cqes: u64,
    pub wait_batch_max: u64,
    pub wait_cq_head_publications: u64,
    pub ready_batch_publications: u64,
    pub ready_batched_cqes: u64,
    pub ready_batch_max: u64,
    pub direct_used_entries: u64,
    pub direct_avail_entries: u64,
    pub completion_event_wakes: u64,
    pub completion_event_cqes: u64,
    pub completion_event_arms: u64,
    pub completion_event_disarms: u64,
    pub completion_event_task_runs: u64,
    pub forced_idle_notifications: u64,
}

impl ArenaCompletionStats {
    /// Whether every count can still grow by `n`.
    pub open spec fn has_room(&self, n: int) -> bool {
        &&& self.submit_calls + n <= u64::MAX
        &&& self.submitted_requests + n <= u64::MAX
        &&& self.wait_calls + n <= u64::MAX
        &&& self.wait_cqes + n <= u64::MAX
        &&& self.wait_cq_head_publications + n <= u64::MAX
        &&& self.ready_batch_publications + n <= u64::MAX
        &&& self.ready_batched_cqes + n <= u64::MAX
        &&& self.completion_event_wakes + n <= u64::MAX
        &&& self.completion_event_cqes + n <= u64::MAX
        &&& self.completion_event_arms + n <= u64::MAX
        &&& self.completion_event_disarms + n <= u64::MAX
    }
}

/// The larger of two numbers.
pub open spec fn larger(a: int, b: int) -> u64 {
    if a >= b {
        a as u64
    } else {
        b as u64
    }
}

/// The slots of one lane: free ones as a stack, and the requests under the others.
#[derive(Debug)]
pub struct ArenaQueue {
    pub lane: u32,
    pub slots_per_lane: u32,
    pub depth: u32,
    pub pending: Vec<Option<Pending>>,
    pub free: Vec<usize>,
    pub completions: Vec<(u64, i32)>,
    pub completion_next: usize,
    pub stats: ArenaCompletionStats,
    pub completion_event_armed: bool,
    pub queued_count: usize,
    pub next_slot: u32,
}

impl ArenaQueue {
    /// Whether every slot is either free, once, or has a request under it.
    pub open spec fn wf(&self) -> bool {
        &&& 1 <= self.depth
        &&& self.pending@.len() == self.depth
        &&& self.free@.len() <= self.depth
        &&& self.free@.no_duplicates()
        &&& forall|i: int|
            0 <= i < self.free@.len() ==> (#[trigger] self.free@[i]) < self.depth
                && self.pending@[self.free@[i] as int] is None
        &&& forall|s: usize|
            s < self.depth && (#[trigger] self.pending@[s as int]) is None ==> self.free@.contains(
                s,
            )
        &&& self.completion_next <= self.completions@.len()
    }

    /// How many requests are on their way.
    pub open spec fn out(&self) -> int {
        self.depth - self.free@.len()
    }

    /// A lane that has `requested_depth` slots, but no more than the arena gives it, and at least
    /// one.
    pub fn new(lane: u32, slots_per_lane: u32, requested_depth: u32) -> (q: ArenaQueue)
        ensures
            q.wf(),
            q.lane == lane,
            q.slots_per_lane == slots_per_lane,
            q.depth == {
                let least = if requested_depth <= slots_per_lane {
                    requested_depth
                } else {
                    slots_per_lane
                };
                if least == 0 {
                    1
                } else {
                    least
                }
            },
            q.free@ == Seq::new(q.depth as nat, |i: int| (q.depth - 1 - i) as usize),
            q.out() == 0,
            q.completions@.len() == 0,
            q.completion_next == 0,
            q.stats == crate::vhost::lane::no_arena_stats(),
            !q.completion_event_armed,
            q.queued_count == 0,
            q.next_slot == 0,
    {
        let least: u32 = if requested_depth <= slots_per_lane {
            requested_depth
        } else {
            slots_per_lane
        };
        let depth: u32 = if least == 0 {
            1
        } else {
            least
        };
        let mut pending: Vec<Option<Pending>> = Vec::new();
        let mut free: Vec<usize> = Vec::new();
        let mut i: u32 = 0;
        while i < depth
            invariant
                i <= depth,
                pending@.len() == i,
                free@ == Seq::new(i as nat, |k: int| (depth - 1 - k) as usize),
                forall|k: int| 0 <= k < i ==> (#[trigger] pending@[k]) is None,
            decreases depth - i,
        {
            pending.push(None);
            free.push((depth - 1 - i) as usize);
            proof {
                assert(free@ =~= Seq::new((i + 1) as nat, |k: int| (depth - 1 - k) as usize));
            }
            i = i + 1;
        }
        let q: ArenaQueue = ArenaQueue {
            lane,
            slots_per_lane,
            depth,
            pending,
            free,
            completions: Vec::new(),
            completion_next: 0,
            stats: ArenaCompletionStats {
                submit_calls: 0,
                submitted_requests: 0,
                submit_batch_max: 0,
                outstanding_max: 0,
                wait_calls: 0,
                wait_cqes: 0,
                wait_batch_max: 0,
                wait_cq_head_publications: 0,
                ready_batch_publications: 0,
                ready_batched_cqes: 0,
                ready_batch_max: 0,
                direct_used_entries: 0,
                direct_avail_entries: 0,
                completion_event_wakes: 0,
                completion_event_cqes: 0,
                completion_event_arms: 0,
                completion_event_disarms: 0,
                completion_event_task_runs: 0,
                forced_idle_notifications: 0,
            },
            completion_event_armed: false,
            queued_count: 0,
            next_slot: 0,
        };
        proof {
            assert forall|s: usize|
                s < q.depth && (#[trigger] q.pending@[s as int]) is None implies q.free@.contains(
                s,
            ) by {
                assert(q.free@[depth - 1 - s] == s);
            }
        }
        q
    }

    /// Whether another request can go out.
    pub fn has_capacity(&self) -> (yes: bool)
        ensures
            yes == (self.free@.len() > 0),
    {
        self.free.len() > 0
    }

    /// How many requests are on their way.
    pub fn outstanding(&self) -> (n: usize)
        requires
            self.wf(),
        ensures
            n == self.out(),
    {
        self.depth as usize - self.free.len()
    }

    /// The slot that the next request gets.
    pub fn next_free(&self) -> (slot: Option<usize>)
        ensures
            slot == if self.free@.len() > 0 {
                Some(self.free@.last())
            } else {
                None
            },
    {
        if self.free.len() > 0 {
            Some(self.free[self.free.len() - 1])
        } else {
            None
        }
    }

    /// Where the search for a buffer starts after slot `slot` of the arena was taken: it stays
    /// among the first slots as long as they suffice.
    pub fn allocate(&mut self, slot: u32)
        requires
            slot < old(self).slots_per_lane,
        ensures
            *final(self) == (ArenaQueue { next_slot: final(self).next_slot, ..*old(self) }),
            final(self).next_slot == if slot < old(self).depth {
                if slot + 1 == old(self).depth {
                    0
                } else {
                    (slot + 1) as u32
                }
            } else if slot + 1 == old(self).slots_per_lane {
                0
            } else {
                (slot + 1) as u32
            },
    {
        self.next_slot = if slot < self.depth {
            if slot + 1 == self.depth {
                0
            } else {
                slot + 1
            }
        } else if slot + 1 == self.slots_per_lane {
            0
        } else {
            slot + 1
        };
    }

    /// Puts a request under the next free slot, after it could be queued; nothing where no slot is
    /// free.
    pub fn queue(&mut self, request: Pending) -> (slot: Option<usize>)
        requires
            old(self).wf(),
            old(self).queued_count < usize::MAX,
        ensures
            final(self).wf(),
            match slot {
                None => old(self).free@.len() == 0 && *final(self) == *old(self),
                Some(slot) => {
                    &&& old(self).free@.len() > 0
                    &&& slot == old(self).free@.last()
                    &&& slot < old(self).depth
                    &&& final(self).free@ == old(self).free@.drop_last()
                    &&& final(self).pending@ == old(self).pending@.update(
                        slot as int,
                        Some(request),
                    )
                    &&& final(self).out() == old(self).out() + 1
                    &&& final(self).queued_count == old(self).queued_count + 1
                    &&& final(self).stats == (ArenaCompletionStats {
                        outstanding_max: larger(
                            old(self).stats.outstanding_max as int,
                            old(self).out() + 1,
                        ),
                        ..old(self).stats
                    })
                    &&& final(self).completions == old(self).completions
                    &&& final(self).completion_next == old(self).completion_next
                    &&& final(self).depth == old(self).depth
                    &&& final(self).lane == old(self).lane
                    &&& final(self).slots_per_lane == old(self).slots_per_lane
                    &&& final(self).next_slot == old(self).next_slot
                    &&& final(self).completion_event_armed == old(self).completion_event_armed
                },
            },
    {
        if self.free.len() == 0 {
            return None;
        }
        let ghost before = *self;
        let at: usize = self.free.len() - 1;
        let slot: usize = self.free[at];
        self.free.pop();
        assert(self.free@ =~= before.free@.drop_last());
        assert(before.free@[at as int] == slot);
        self.pending[slot] = Some(request);
        let out: u64 = self.depth as u64 - self.free.len() as u64;
        if out > self.stats.outstanding_max {
            self.stats.outstanding_max = out;
        }
        self.queued_count = self.queued_count + 1;
        proof {
            assert forall|s: usize|
                s < self.depth && (#[trigger] self.pending@[s as int]) is None implies self.free@.contains(
            s) by {
                assert(before.pending@[s as int] is None);
                let k = choose|k: int| 0 <= k < before.free@.len() && before.free@[k] == s;
                assert(self.free@[k] == s);
            }
            assert forall|i: int| 0 <= i < self.free@.len() implies (#[trigger] self.free@[i])
                < self.depth && self.pending@[self.free@[i] as int] is None by {
                assert(self.free@[i] == before.free@[i]);
                assert(before.free@[i] != before.free@[at as int]);
            }
        }
        Some(slot)
    }

    /// Counts what was queued, once it could be submitted.
    pub fn submit(&mut self)
        requires
            old(self).wf(),
            old(self).stats.has_room(1 + old(self).queued_count),
        ensures
            final(self).wf(),
            *final(self) == if old(self).queued_count == 0 {
                *old(self)
            } else {
                ArenaQueue {
                    queued_count: 0,
                    stats: ArenaCompletionStats {
                        submit_calls: (old(self).stats.submit_calls + 1) as u64,
                        submitted_requests: (old(self).stats.submitted_requests + old(self).queued_count) as u64,
                        submit_batch_max: larger(
                            old(self).stats.submit_batch_max as int,
                            old(self).queued_count as int,
                        ),
                        ..old(self).stats
                    },
                    ..*old(self)
                }
            },
    {
        if self.queued_count > 0 {
            let n: u64 = self.queued_count as u64;
            self.stats.submit_calls = self.stats.submit_calls + 1;
            self.stats.submitted_requests = self.stats.submitted_requests + n;
            if n > self.stats.submit_batch_max {
                self.stats.submit_batch_max = n;
            }
            self.queued_count = 0;
        }
    }

    /// Switches the signal for completions on or off; says whether that changes anything.
    pub fn set_completion_event_armed(&mut self, armed: bool) -> (changed: bool)
        requires
            old(self).wf(),
            old(self).stats.has_room(1),
        ensures
            final(self).wf(),
            changed == (old(self).completion_event_armed != armed),
            *final(self) == if !changed {
                *old(self)
            } else {
                ArenaQueue {
                    completion_event_armed: armed,
                    stats: if armed {
                        ArenaCompletionStats {
                            completion_event_arms: (old(self).stats.completion_event_arms + 1)
                                as u64,
                            ..old(self).stats
                        }
                    } else {
                        ArenaCompletionStats {
                            completion_event_disarms: (old(self).stats.completion_event_disarms + 1)
                                as u64,
                            ..old(self).stats
                        }
                    },
                    ..*old(self)
                }
            },
    {
        if self.completion_event_armed == armed {
            return false;
        }
        self.completion_event_armed = armed;
        if armed {
            self.stats.completion_event_arms = self.stats.completion_event_arms + 1;
        } else {
            self.stats.completion_event_disarms = self.stats.completion_event_disarms + 1;
        }
        true
    }

    /// Counts a signal and the completions that it announced; there may have been none.
    pub fn consume_completion_event(&mut self, cqes: Option<u64>)
        requires
            old(self).wf(),
            cqes matches Some(n) ==> old(self).stats.has_room(1 + n),
        ensures
            final(self).wf(),
            *final(self) == match cqes {
                None => *old(self),
                Some(n) => ArenaQueue {
                    stats: ArenaCompletionStats {
                        completion_event_wakes: (old(self).stats.completion_event_wakes + 1) as u64,
                        completion_event_cqes: (old(self).stats.completion_event_cqes + n) as u64,
                        ..old(self).stats
                    },
                    ..*old(self)
                },
            },
    {
        if let Some(n) = cqes {
            self.stats.completion_event_wakes = self.stats.completion_event_wakes + 1;
            self.stats.completion_event_cqes = self.stats.completion_event_cqes + n;
        }
    }

    /// Counts that deferred work of the kernel was run.
    pub fn run_task_work(&mut self)
        requires
            old(self).stats.completion_event_task_runs < u64::MAX,
        ensures
            *final(self) == (ArenaQueue {
                stats: ArenaCompletionStats {
                    completion_event_task_runs: (old(self).stats.completion_event_task_runs
                        + 1) as u64,
                    ..old(self).stats
                },
                ..*old(self)
            }),
    {
        self.stats.completion_event_task_runs = self.stats.completion_event_task_runs + 1;
    }

    /// Counts a notification that was sent only because the lane went idle.
    pub fn record_forced_idle_notification(&mut self)
        requires
            old(self).stats.forced_idle_notifications < u64::MAX,
        ensures
            *final(self) == (ArenaQueue {
                stats: ArenaCompletionStats {
                    forced_idle_notifications: (old(self).stats.forced_idle_notifications
                        + 1) as u64,
                    ..old(self).stats
                },
                ..*old(self)
            }),
    {
        self.stats.forced_idle_notifications = self.stats.forced_idle_notifications + 1;
    }

    /// Whether all completions that were pulled have been taken.
    pub fn needs_completions(&self) -> (yes: bool)
        ensures
            yes == (self.completion_next == self.completions@.len()),
    {
        self.completion_next == self.completions.len()
    }

    /// How many completions can be pulled at once.
    pub fn completion_room(&self) -> (n: usize)
        requires
            self.depth >= 1,
        ensures
            n == if self.depth <= 256 {
                self.depth as int
            } else {
                256
            },
    {
        if self.depth <= 256 {
            self.depth as usize
        } else {
            256
        }
    }

    /// For how many completions a lane waits.
    pub fn wait_minimum(&self) -> (n: usize)
        requires
            self.wf(),
        ensures
            n == if self.out() >= 32 {
                16int
            } else {
                1
            },
            1 <= n,
            self.out() > 0 ==> n <= self.out(),
            n <= self.depth,
    {
        if self.outstanding() >= ARENA_WAIT_BATCH_MIN_OUTSTANDING {
            ARENA_WAIT_BATCH_COMPLETIONS
        } else {
            1
        }
    }

    /// Takes completions that were pulled, after waiting for them or not, and counts them.
    pub fn note_completions(&mut self, batch: Vec<(u64, i32)>, wait: bool)
        requires
            old(self).wf(),
            old(self).stats.has_room((2 + batch@.len()) as int),
        ensures
            final(self).wf(),
            *final(self) == (ArenaQueue {
                completions: batch,
                completion_next: 0,
                stats: if wait {
                    ArenaCompletionStats {
                        wait_calls: (old(self).stats.wait_calls + 1) as u64,
                        wait_cqes: (old(self).stats.wait_cqes + batch@.len()) as u64,
                        wait_batch_max: larger(
                            old(self).stats.wait_batch_max as int,
                            batch@.len() as int,
                        ),
                        wait_cq_head_publications: (old(self).stats.wait_cq_head_publications
                            + if batch@.len() > 1 {
                            2int
                        } else {
                            1
                        }) as u64,
                        ..old(self).stats
                    }
                } else if batch@.len() > 0 {
                    ArenaCompletionStats {
                        ready_batch_publications: (old(self).stats.ready_batch_publications + 1)
                            as u64,
                        ready_batched_cqes: (old(self).stats.ready_batched_cqes + batch@.len())
                            as u64,
                        ready_batch_max: larger(
                            old(self).stats.ready_batch_max as int,
                            batch@.len() as int,
                        ),
                        ..old(self).stats
                    }
                } else {
                    old(self).stats
                },
                ..*old(self)
            }),
    {
        let added: u64 = batch.len() as u64;
        if wait {
            self.stats.wait_calls = self.stats.wait_calls + 1;
            self.stats.wait_cqes = self.stats.wait_cqes + added;
            if added > self.stats.wait_batch_max {
                self.stats.wait_batch_max = added;
            }
            self.stats.wait_cq_head_publications = self.stats.wait_cq_head_publications + if added
                > 1 {
                2
            } else {
                1
            };
        } else if added != 0 {
            self.stats.ready_batch_publications = self.stats.ready_batch_publications + 1;
            self.stats.ready_batched_cqes = self.stats.ready_batched_cqes + added;
            if added > self.stats.ready_batch_max {
                self.stats.ready_batch_max = added;
            }
        }
        self.completions = batch;
        self.completion_next = 0;
    }

    /// The next completion and the request that it completes, whose slot becomes free; nothing
    /// where all that were pulled have been taken.
    pub fn take_completion(&mut self) -> (r: Result<Option<(Pending, i32)>, Error>)
        requires
            old(self).wf(),
        ensures
            final(self).wf(),
            final(self).completions == old(self).completions,
            final(self).stats == old(self).stats,
            final(self).depth == old(self).depth,
            final(self).queued_count == old(self).queued_count,
            final(self).lane == old(self).lane,
            final(self).slots_per_lane == old(self).slots_per_lane,
            final(self).next_slot == old(self).next_slot,
            final(self).completion_event_armed == old(self).completion_event_armed,
            ({
                let at = old(self).completion_next as int;
                if at == old(self).completions@.len() {
                    r == Ok::<Option<(Pending, i32)>, Error>(None) && *final(self) == *old(self)
                } else {
                    let (id, result) = old(self).completions@[at];
                    &&& final(self).completion_next == at + 1
                    &&& if id > usize::MAX {
                        &&& r is Err
                        &&& r->Err_0@ == crate::error::bad_data(
                            "arena completion id exceeds usize"@,
                        )
                        &&& final(self).pending == old(self).pending
                        &&& final(self).free == old(self).free
                    } else if id >= old(self).depth || old(self).pending@[id as int] is None {
                        &&& r is Err
                        &&& r->Err_0@ == crate::error::bad_data("unknown arena completion id"@)
                        &&& final(self).pending == old(self).pending
                        &&& final(self).free == old(self).free
                    } else {
                        &&& r == Ok::<Option<(Pending, i32)>, Error>(
                            Some((old(self).pending@[id as int]->0, result)),
                        )
                        &&& final(self).pending@ == old(self).pending@.update(id as int, None)
                        &&& final(self).free@ == old(self).free@.push(id as usize)
                        &&& final(self).out() == old(self).out() - 1
                    }
                }
            }),
    {
        let ghost before = *self;
        if self.completion_next == self.completions.len() {
            return Ok(None);
        }
        let (id, result): (u64, i32) = self.completions[self.completion_next];
        self.completion_next = self.completion_next + 1;
        if id > usize::MAX as u64 {
            return Err(corrupt("arena completion id exceeds usize"));
        }
        let slot: usize = id as usize;
        if slot >= self.pending.len() {
            return Err(corrupt("unknown arena completion id"));
        }
        match self.pending[slot] {
            None => Err(corrupt("unknown arena completion id")),
            Some(request) => {
                proof {
                    lemma_free_below_depth(before, slot);
                    assert forall|i: int| 0 <= i < before.free@.len() implies before.free@[i]
                        != slot by {
                        assert(before.pending@[before.free@[i] as int] is None);
                    }
                }
                self.pending[slot] = None;
                self.free.push(slot);
                proof {
                    assert forall|s: usize|
                        s < self.depth && (
                        #[trigger] self.pending@[s as int]) is None implies self.free@.contains(
                        s,
                    ) by {
                        if s == slot {
                            assert(self.free@[before.free@.len() as int] == s);
                        } else {
                            assert(before.pending@[s as int] is None);
                            let k = choose|k: int|
                                0 <= k < before.free@.len() && before.free@[k] == s;
                            assert(self.free@[k] == s);
                        }
                    }
                    assert forall|i: int| 0 <= i < self.free@.len() implies (
                    #[trigger] self.free@[i]) < self.depth
                        && self.pending@[self.free@[i] as int] is None by {
                        if i < before.free@.len() {
                            assert(self.free@[i] == before.free@[i]);
                        }
                    }
                    assert(self.free@.no_duplicates());
                }
                Ok(Some((request, result)))
            },
        }
    }
}

proof fn lemma_free_below_depth(q: ArenaQueue, slot: usize)
    requires
        q.wf(),
        slot < q.depth,
        q.pending@[slot as int] is Some,
    ensures
        q.free@.len() < q.depth,
{
    let all = Set::new(|s: usize| s < q.depth);
    let free = q.free@.to_set();
    q.free@.unique_seq_to_set();
    lemma_sizes_below(q.depth as nat);
    assert forall|s: usize| free.contains(s) implies all.remove(slot).contains(s) by {
        let i = choose|i: int| 0 <= i < q.free@.len() && q.free@[i] == s;
        assert(q.free@[i] < q.depth);
        assert(q.pending@[q.free@[i] as int] is None);
    }
    vstd::set_lib::lemma_len_subset(free, all.remove(slot));
}

proof fn lemma_sizes_below(n: nat)
    requires
        n <= u32::MAX,
    ensures
        Set::new(|s: usize| s < n).finite(),
        Set::new(|s: usize| s < n).len() == n,
    decreases n,
{
    if n == 0 {
        assert(Set::new(|s: usize| s < n) =~= Set::<usize>::empty());
    } else {
        lemma_sizes_below((n - 1) as nat);
        let top = (n - 1) as usize;
        assert(Set::new(|s: usize| s < n) =~= Set::new(|s: usize| s < n - 1).insert(top));
    }
}

/// A slot is free exactly when no request is under it, and the free slots and the requests that are
/// on their way make up all slots.
pub proof fn law_slots_are_free_or_taken(q: ArenaQueue, slot: usize)
    requires
        q.wf(),
        slot < q.depth,
    ensures
        q.free@.contains(slot) <==> q.pending@[slot as int] is None,
        q.out() + q.free@.len() == q.depth,
        q.out() >= 0,
{
    if q.free@.contains(slot) {
        let i = choose|i: int| 0 <= i < q.free@.len() && q.free@[i] == slot;
        assert(q.pending@[q.free@[i] as int] is None);
    }
}

/// What a lane over registered memory has seen.
#[derive(Clone, Copy, Debug, PartialEq, Eq, Structural)]
pub struct DirectCompletionStats {
    pub posts: u64,
    pub post_eagain: u64,
    pub cq_polls: u64,
    pub cq_completions: u64,
    pub cq_batch_max: u64,
    pub outstanding_max: u64,
    pub direct_avail_entries: u64,
    pub direct_used_entries: u64,
}

impl DirectCompletionStats {
    /// Whether every count can still grow by `n`.
    pub open spec fn has_room(&self, n: int) -> bool {
        &&& self.posts + n <= u64::MAX
        &&& self.post_eagain + n <= u64::MAX
        &&& self.cq_polls + n <= u64::MAX
        &&& self.cq_completions + n <= u64::MAX
    }
}

/// What a completion of a lane over registered memory says.
#[derive(Clone, Copy, Debug, PartialEq, Eq, Structural)]
pub struct DirectCompletion {
    pub slot: usize,
    pub user_data: u64,
    pub read: bool,
}

/// The requests of a lane over registered memory, by slot.
#[derive(Debug)]
pub struct DirectDataQueue {
    pub pending: Vec<Option<Pending>>,
    pub completions: Vec<DirectCompletion>,
    pub completion_next: usize,
    pub outstanding: usize,
    pub stats: DirectCompletionStats,
}

/// How many slots have a request under them.
pub open spec fn taken(s: Seq<Option<Pending>>) -> nat
    decreases s.len(),
{
    if s.len() == 0 {
        0
    } else {
        taken(s.drop_last()) + if s.last() is Some {
            1nat
        } else {
            0
        }
    }
}

proof fn lemma_taken_update(s: Seq<Option<Pending>>, i: int, v: Option<Pending>)
    requires
        0 <= i < s.len(),
    ensures
        taken(s.update(i, v)) + (if s[i] is Some {
            1nat
        } else {
            0
        }) == taken(s) + (if v is Some {
            1nat
        } else {
            0
        }),
        taken(s) <= s.len(),
    decreases s.len(),
{
    if i < s.len() - 1 {
        lemma_taken_update(s.drop_last(), i, v);
        assert(s.update(i, v).drop_last() =~= s.drop_last().update(i, v));
    } else {
        assert(s.update(i, v).drop_last() =~= s.drop_last());
        lemma_taken_bound(s.drop_last());
    }
}

proof fn lemma_taken_bound(s: Seq<Option<Pending>>)
    ensures
        taken(s) <= s.len(),
    decreases s.len(),
{
    if s.len() > 0 {
        lemma_taken_bound(s.drop_last());
    }
}

impl DirectDataQueue {
    /// Whether the count of requests is right, and only reads and writes are on their way.
    pub open spec fn wf(&self) -> bool {
        &&& self.outstanding == taken(self.pending@)
        &&& self.completion_next <= self.completions@.len()
        &&& forall|i: int|
            0 <= i < self.pending@.len() ==> ((#[trigger] self.pending@[i]) matches Some(p)
                ==> p.kind == RequestKind::Read || p.kind == RequestKind::Write)
    }

    /// A lane with `depth` slots and nothing on its way.
    pub fn new(depth: usize) -> (q: DirectDataQueue)
        ensures
            q.wf(),
            q.pending@.len() == depth,
            q.outstanding == 0,
            forall|i: int| 0 <= i < depth ==> (#[trigger] q.pending@[i]) is None,
            q.completions@.len() == 0,
            q.completion_next == 0,
            q.stats == crate::vhost::lane::no_direct_stats(),
    {
        let mut pending: Vec<Option<Pending>> = Vec::new();
        let mut i: usize = 0;
        while i < depth
            invariant
                i <= depth,
                pending@.len() == i,
                taken(pending@) == 0,
                forall|k: int| 0 <= k < i ==> (#[trigger] pending@[k]) is None,
            decreases depth - i,
        {
            let ghost before = pending@;
            pending.push(None);
            proof {
                assert(pending@.drop_last() =~= before);
            }
            i = i + 1;
        }
        DirectDataQueue {
            pending,
            completions: Vec::new(),
            completion_next: 0,
            outstanding: 0,
            stats: DirectCompletionStats {
                posts: 0,
                post_eagain: 0,
                cq_polls: 0,
                cq_completions: 0,
                cq_batch_max: 0,
                outstanding_max: 0,
                direct_avail_entries: 0,
                direct_used_entries: 0,
            },
        }
    }

    /// Takes note of a request that was offered to the transport under a slot, and whether the
    /// transport took it. Where it did not, the request stays with the caller.
    pub fn queue(&mut self, slot: usize, request: Pending, posted: bool)
        requires
            old(self).wf(),
            old(self).stats.has_room(1),
            slot < old(self).pending@.len(),
            old(self).pending@[slot as int] is None,
            request.kind == RequestKind::Read || request.kind == RequestKind::Write,
        ensures
            final(self).wf(),
            final(self).completions == old(self).completions,
            final(self).completion_next == old(self).completion_next,
            if posted {
                &&& final(self).pending@ == old(self).pending@.update(slot as int, Some(request))
                &&& final(self).outstanding == old(self).outstanding + 1
                &&& final(self).stats == (DirectCompletionStats {
                    posts: (old(self).stats.posts + 1) as u64,
                    outstanding_max: larger(
                        old(self).stats.outstanding_max as int,
                        old(self).outstanding + 1,
                    ),
                    ..old(self).stats
                })
            } else {
                &&& final(self).pending@ == old(self).pending@
                &&& final(self).outstanding == old(self).outstanding
                &&& final(self).stats == (DirectCompletionStats {
                    post_eagain: (old(self).stats.post_eagain + 1) as u64,
                    ..old(self).stats
                })
            },
    {
        if !posted {
            self.stats.post_eagain = self.stats.post_eagain + 1;
            return;
        }
        let len: usize = self.pending.len();
        proof {
            lemma_taken_update(self.pending@, slot as int, Some(request));
            lemma_taken_bound(self.pending@.update(slot as int, Some(request)));
        }
        self.pending[slot] = Some(request);
        self.outstanding = self.outstanding + 1;
        self.stats.posts = self.stats.posts + 1;
        if self.outstanding as u64 > self.stats.outstanding_max {
            self.stats.outstanding_max = self.outstanding as u64;
        }
    }

    /// Takes completions that were polled, and counts them.
    pub fn note_completions(&mut self, batch: Vec<DirectCompletion>)
        requires
            old(self).wf(),
            old(self).stats.has_room((1 + batch@.len()) as int),
        ensures
            final(self).wf(),
            *final(self) == (DirectDataQueue {
                completions: batch,
                completion_next: 0,
                stats: DirectCompletionStats {
                    cq_polls: (old(self).stats.cq_polls + 1) as u64,
                    cq_completions: (old(self).stats.cq_completions + batch@.len()) as u64,
                    cq_batch_max: larger(
                        old(self).stats.cq_batch_max as int,
                        batch@.len() as int,
                    ),
                    ..old(self).stats
                },
                ..*old(self)
            }),
    {
        let added: u64 = batch.len() as u64;
        self.stats.cq_polls = self.stats.cq_polls + 1;
        self.stats.cq_completions = self.stats.cq_completions + added;
        if added > self.stats.cq_batch_max {
            self.stats.cq_batch_max = added;
        }
        self.completions = batch;
        self.completion_next = 0;
    }

    /// The next request that has been completed; nothing where all completions that were polled have
    /// been taken. A completion of an unknown slot, or of another operation than the request's, is
    /// an error; after the latter the lane cannot go on.
    pub fn take_completion(&mut self) -> (r: Result<Option<Pending>, Error>)
        requires
            old(self).wf(),
        ensures
            ({
                let at = old(self).completion_next as int;
                if at == old(self).completions@.len() {
                    r == Ok::<Option<Pending>, Error>(None) && *final(self) == *old(self)
                } else {
                    let c = old(self).completions@[at];
                    if c.slot >= old(self).pending@.len() || old(self).pending@[c.slot as int] is None {
                        &&& r is Err
                        &&& r->Err_0@ == crate::error::bad_data(
                            "unknown direct-OFI completion slot"@,
                        )
                        &&& final(self).wf()
                        &&& *final(self) == (DirectDataQueue {
                            completion_next: (at + 1) as usize,
                            ..*old(self)
                        })
                    } else {
                        let request = old(self).pending@[c.slot as int]->0;
                        if c.read != (request.kind == RequestKind::Read) || c.user_data != c.slot {
                            &&& r is Err
                            &&& r->Err_0@ == crate::error::bad_data(
                                "direct-OFI completion token or operation mismatch"@,
                            )
                            &&& final(self).outstanding == old(self).outstanding
                            &&& final(self).pending@ == old(self).pending@.update(
                                c.slot as int,
                                None,
                            )
                            &&& final(self).completion_next == at + 1
                            &&& final(self).completions == old(self).completions
                            &&& final(self).stats == old(self).stats
                        } else {
                            &&& r == Ok::<Option<Pending>, Error>(Some(request))
                            &&& final(self).wf()
                            &&& final(self).outstanding == old(self).outstanding - 1
                            &&& final(self).pending@ == old(self).pending@.update(
                                c.slot as int,
                                None,
                            )
                            &&& final(self).completion_next == at + 1
                            &&& final(self).completions == old(self).completions
                            &&& final(self).stats == old(self).stats
                        }
                    }
                }
            }),
    {
        if self.completion_next == self.completions.len() {
            return Ok(None);
        }
        let c: DirectCompletion = self.completions[self.completion_next];
        self.completion_next = self.completion_next + 1;
        if c.slot >= self.pending.len() {
            return Err(corrupt("unknown direct-OFI completion slot"));
        }
        match self.pending[c.slot] {
            None => Err(corrupt("unknown direct-OFI completion slot")),
            Some(request) => {
                proof {
                    lemma_taken_update(self.pending@, c.slot as int, None);
                }
                self.pending[c.slot] = None;
                if c.read != (request.kind == RequestKind::Read) || c.user_data != c.slot as u64 {
                    return Err(corrupt("direct-OFI completion token or operation mismatch"));
                }
                self.outstanding = self.outstanding - 1;
                Ok(Some(request))
            },
        }
    }
}

/// A maximum is no less than either of what it is taken of, and is one of them.
pub proof fn law_a_maximum_is_one_of_both(a: u64, b: u64)
    ensures
        larger(a as int, b as int) >= a,
        larger(a as int, b as int) >= b,
        larger(a as int, b as int) == a || larger(a as int, b as int) == b,
{
}

/// What is outstanding is counted by the slots: one that is taken counts one more, one that is freed one
/// less, and where a slot is taken something is outstanding.
pub proof fn law_outstanding_requests_are_counted_by_slot(
    s: Seq<Option<Pending>>,
    i: int,
    p: Pending,
)
    requires
        0 <= i < s.len(),
    ensures
        s[i] is None ==> taken(s.update(i, Some(p))) == taken(s) + 1,
        s[i] is Some ==> taken(s.update(i, None)) == taken(s) - 1,
        s[i] is Some ==> taken(s) > 0,
{
    lemma_taken_update(s, i, Some(p));
    lemma_taken_update(s, i, None);
}

} // verus!
