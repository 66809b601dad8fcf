//! A replica node: the state it keeps and how it serves requests.
use vstd::prelude::*;
use vstd::string::*;

use crate::error::{Error, ErrorKind};
use crate::textmap::{Duplicate, TextMap};
use crate::topology::dataset::{
    apply_mutations, dataset_digest, duplicate_mutations, invalid, DatasetMutation, DatasetView,
};
#[allow(unused_imports)]
use crate::topology::dataset::MutationView;
use crate::topology::recovery::{export_recovery, restore_recovery, DatasetSnapshot, RecoveryBundle};
#[allow(unused_imports)]
use crate::topology::recovery::{BundleView, SnapshotView};

verus! {

/// What a node keeps on stable storage.
#[derive(Debug)]
pub struct NodeState {
    pub node_id: String,
    pub region: String,
    pub az: String,
    pub tier: String,
    pub cost_class: u64,
    pub durable_hwms: TextMap<Vec<(u32, u64)>>,
    pub dataset_sequence: u64,
    pub dataset: TextMap<String>,
    pub dataset_wal: Vec<DatasetMutation>,
    pub snapshots: TextMap<DatasetSnapshot>,
}

/// What a [`NodeState`] means.
pub struct NodeView {
    pub node_id: Seq<char>,
    pub region: Seq<char>,
    pub az: Seq<char>,
    pub tier: Seq<char>,
    pub cost_class: u64,
    pub durable_hwms: Map<Seq<char>, Seq<(u32, u64)>>,
    pub dataset_sequence: u64,
    pub dataset: Map<Seq<char>, Seq<char>>,
    pub dataset_wal: Seq<MutationView>,
    pub snapshots: Map<Seq<char>, SnapshotView>,
}

impl View for NodeState {
    type V = NodeView;

    open spec fn view(&self) -> NodeView {
        NodeView {
            node_id: self.node_id@,
            region: self.region@,
            az: self.az@,
            tier: self.tier@,
            cost_class: self.cost_class,
            durable_hwms: self.durable_hwms@,
            dataset_sequence: self.dataset_sequence,
            dataset: self.dataset@,
            dataset_wal: crate::topology::dataset::mutations_view(self.dataset_wal@),
            snapshots: self.snapshots@,
        }
    }
}

impl Duplicate for NodeState {
    fn duplicate(&self) -> (copy: Self) {
        NodeState {
            node_id: self.node_id.duplicate(),
            region: self.region.duplicate(),
            az: self.az.duplicate(),
            tier: self.tier.duplicate(),
            cost_class: self.cost_class,
            durable_hwms: self.durable_hwms.duplicate(),
            dataset_sequence: self.dataset_sequence,
            dataset: self.dataset.duplicate(),
            dataset_wal: duplicate_mutations(self.dataset_wal.as_slice()),
            snapshots: self.snapshots.duplicate(),
        }
    }
}

impl NodeState {
    /// A node that has stored nothing yet.
    pub fn new(
        node_id: String,
        region: String,
        az: String,
        tier: String,
        cost_class: u64,
    ) -> (state: NodeState)
        ensures
            state@ == (NodeView {
                node_id: node_id@,
                region: region@,
                az: az@,
                tier: tier@,
                cost_class,
                durable_hwms: Map::empty(),
                dataset_sequence: 0,
                dataset: Map::empty(),
                dataset_wal: Seq::empty(),
                snapshots: Map::empty(),
            }),
    {
        let state: NodeState = NodeState {
            node_id,
            region,
            az,
            tier,
            cost_class,
            durable_hwms: TextMap::new(),
            dataset_sequence: 0,
            dataset: TextMap::new(),
            dataset_wal: Vec::new(),
            snapshots: TextMap::new(),
        };
        proof {
            assert(state@.dataset_wal =~= Seq::<MutationView>::empty());
        }
        state
    }
}

/// The high-water mark of each lane that a list of pairs names; a later pair wins.
pub open spec fn lane_map(s: Seq<(u32, u64)>) -> Map<u32, u64>
    decreases s.len(),
{
    if s.len() == 0 {
        Map::empty()
    } else {
        lane_map(s.drop_last()).insert(s.last().0, s.last().1)
    }
}

/// The high-water mark of a lane; zero for a lane without one.
pub open spec fn lane_mark(m: Map<u32, u64>, lane: u32) -> u64 {
    if m.dom().contains(lane) {
        m[lane]
    } else {
        0
    }
}

/// `m` with the marks of `updates` put in, in turn.
pub open spec fn raised(m: Map<u32, u64>, updates: Seq<(u32, u64)>) -> Map<u32, u64>
    decreases updates.len(),
{
    if updates.len() == 0 {
        m
    } else {
        raised(m, updates.drop_last()).insert(updates.last().0, updates.last().1)
    }
}

/// Whether no update of `updates`, taken in turn, lowers the mark of its lane.
pub open spec fn advances(m: Map<u32, u64>, updates: Seq<(u32, u64)>) -> bool
    decreases updates.len(),
{
    updates.len() == 0 || {
        &&& advances(m, updates.drop_last())
        &&& updates.last().1 >= lane_mark(raised(m, updates.drop_last()), updates.last().0)
    }
}

/// Whether the lanes of a list stand in ascending order, each once.
pub open spec fn lanes_ascend(s: Seq<(u32, u64)>) -> bool {
    forall|i: int, j: int| 0 <= i < j < s.len() ==> (#[trigger] s[i]).0 < (#[trigger] s[j]).0
}

proof fn lemma_lane_map_sorted(s: Seq<(u32, u64)>)
    requires
        lanes_ascend(s),
    ensures
        forall|lane: u32|
            lane_map(s).dom().contains(lane) <==> exists|i: int|
                0 <= i < s.len() && (#[trigger] s[i]).0 == lane,
        forall|i: int|
            0 <= i < s.len() ==> lane_map(s).dom().contains((#[trigger] s[i]).0) && lane_map(
                s,
            )[s[i].0] == s[i].1,
    decreases s.len(),
{
    if s.len() > 0 {
        let head = s.drop_last();
        lemma_lane_map_sorted(head);
        assert forall|lane: u32| lane_map(s).dom().contains(lane) <==> exists|i: int|
            0 <= i < s.len() && (#[trigger] s[i]).0 == lane by {
            if lane_map(head).dom().contains(lane) {
                let i = choose|i: int| 0 <= i < head.len() && (#[trigger] head[i]).0 == lane;
                assert(s[i].0 == lane);
            }
            if lane == s.last().0 {
                assert(s[s.len() - 1].0 == lane);
            }
            if exists|i: int| 0 <= i < s.len() && (#[trigger] s[i]).0 == lane {
                let i = choose|i: int| 0 <= i < s.len() && (#[trigger] s[i]).0 == lane;
                if i < head.len() {
                    assert(head[i].0 == lane);
                }
            }
        }
        assert forall|i: int| 0 <= i < s.len() implies lane_map(s).dom().contains(
            (#[trigger] s[i]).0,
        ) && lane_map(s)[s[i].0] == s[i].1 by {
            if i < head.len() {
                assert(head[i] == s[i]);
                assert(s[i].0 < s[s.len() - 1].0);
            }
        }
    }
}

/// The mark of `lane` in an ascending list.
fn find_lane(list: &Vec<(u32, u64)>, lane: u32) -> (at: usize)
    requires
        lanes_ascend(list@),
    ensures
        at <= list@.len(),
        forall|i: int| 0 <= i < at ==> (#[trigger] list@[i]).0 < lane,
        forall|i: int| at <= i < list@.len() ==> (#[trigger] list@[i]).0 >= lane,
{
    let mut i: usize = 0;
    while i < list.len()
        invariant
            i <= list@.len(),
            lanes_ascend(list@),
            forall|k: int| 0 <= k < i ==> (#[trigger] list@[k]).0 < lane,
        decreases list@.len() - i,
    {
        if list[i].0 >= lane {
            return i;
        }
        i = i + 1;
    }
    i
}

/// Puts a mark into an ascending list.
fn set_lane(list: &mut Vec<(u32, u64)>, at: usize, lane: u32, mark: u64)
    requires
        lanes_ascend(old(list)@),
        at <= old(list)@.len(),
        forall|i: int| 0 <= i < at ==> (#[trigger] old(list)@[i]).0 < lane,
        forall|i: int| at <= i < old(list)@.len() ==> (#[trigger] old(list)@[i]).0 >= lane,
    ensures
        lanes_ascend(final(list)@),
        lane_map(final(list)@) == lane_map(old(list)@).insert(lane, mark),
{
    let ghost before = list@;
    if at < list.len() && list[at].0 == lane {
        list[at] = (lane, mark);
        proof {
            let a = list@;
            lemma_lane_map_sorted(before);
            lemma_lane_map_sorted(a);
            assert forall|x: u32| #[trigger] lane_map(a).dom().contains(x) == lane_map(before).insert(
                lane,
                mark,
            ).dom().contains(x) && (lane_map(a).dom().contains(x) ==> lane_map(a)[x] == lane_map(
                before,
            ).insert(lane, mark)[x]) by {
                if lane_map(a).dom().contains(x) {
                    let i = choose|i: int| 0 <= i < a.len() && (#[trigger] a[i]).0 == x;
                    assert(before[i].0 == x);
                }
                if lane_map(before).dom().contains(x) {
                    let i = choose|i: int| 0 <= i < before.len() && (#[trigger] before[i]).0 == x;
                    assert(a[i].0 == x);
                }
                assert(a[at as int].0 == lane);
            }
            assert(lane_map(a) =~= lane_map(before).insert(lane, mark));
        }
    } else {
        list.insert(at, (lane, mark));
        proof {
            let a = list@;
            assert forall|i: int| 0 <= i < a.len() implies #[trigger] a[i] == if i < at {
                before[i]
            } else if i == at {
                (lane, mark)
            } else {
                before[i - 1]
            } by {}
            assert(at < before.len() ==> before[at as int].0 > lane);
            assert forall|i: int, j: int| 0 <= i < j < a.len() implies (#[trigger] a[i]).0 < (
            #[trigger] a[j]).0 by {
                let p = if i < at { i } else { i - 1 };
                let q = if j < at { j } else { j - 1 };
                if i != at && j != at {
                    assert(before[p].0 < before[q].0);
                } else if i == at {
                    if q == at {
                    } else {
                        assert(before[at as int].0 < before[q].0);
                    }
                }
            }
            lemma_lane_map_sorted(before);
            lemma_lane_map_sorted(a);
            assert forall|x: u32| #[trigger] lane_map(a).dom().contains(x) == lane_map(before).insert(
                lane,
                mark,
            ).dom().contains(x) && (lane_map(a).dom().contains(x) ==> lane_map(a)[x] == lane_map(
                before,
            ).insert(lane, mark)[x]) by {
                assert(a[at as int].0 == lane);
                if lane_map(a).dom().contains(x) {
                    let i = choose|i: int| 0 <= i < a.len() && (#[trigger] a[i]).0 == x;
                    if i != at {
                        let p = if i < at { i } else { i - 1 };
                        assert(before[p].0 == x);
                    }
                }
                if lane_map(before).dom().contains(x) {
                    let i = choose|i: int| 0 <= i < before.len() && (#[trigger] before[i]).0 == x;
                    let q = if i < at { i } else { i + 1 };
                    assert(a[q].0 == x);
                }
            }
            assert(lane_map(a) =~= lane_map(before).insert(lane, mark));
        }
    }
}

/// Merges high-water marks into those a node has; no mark may go down.
pub fn merge_hwms(current: &Vec<(u32, u64)>, updates: &Vec<(u32, u64)>) -> (r: Result<
    Vec<(u32, u64)>,
    Error,
>)
    ensures
        match r {
            Ok(merged) => {
                &&& advances(lane_map(current@), updates@)
                &&& lanes_ascend(merged@)
                &&& lane_map(merged@) == raised(lane_map(current@), updates@)
            },
            Err(e) => {
                &&& !advances(lane_map(current@), updates@)
                &&& e@ == (ErrorKind::InvalidData, "node HWM regression"@)
            },
        },
{
    let mut by_lane: Vec<(u32, u64)> = Vec::new();
    let mut i: usize = 0;
    proof {
        assert(current@.subrange(0, 0) =~= Seq::<(u32, u64)>::empty());
        assert(by_lane@ =~= Seq::<(u32, u64)>::empty());
    }
    while i < current.len()
        invariant
            i <= current@.len(),
            lanes_ascend(by_lane@),
            lane_map(by_lane@) == lane_map(current@.subrange(0, i as int)),
        decreases current@.len() - i,
    {
        proof {
            assert(current@.subrange(0, i + 1).drop_last() =~= current@.subrange(0, i as int));
        }
        let at: usize = find_lane(&by_lane, current[i].0);
        set_lane(&mut by_lane, at, current[i].0, current[i].1);
        i = i + 1;
    }
    proof {
        assert(current@.subrange(0, i as int) =~= current@);
    }
    let mut j: usize = 0;
    proof {
        assert(updates@.subrange(0, 0) =~= Seq::<(u32, u64)>::empty());
    }
    while j < updates.len()
        invariant
            j <= updates@.len(),
            lanes_ascend(by_lane@),
            advances(lane_map(current@), updates@.subrange(0, j as int)),
            lane_map(by_lane@) == raised(lane_map(current@), updates@.subrange(0, j as int)),
        decreases updates@.len() - j,
    {
        let lane: u32 = updates[j].0;
        let hwm: u64 = updates[j].1;
        let at: usize = find_lane(&by_lane, lane);
        let held: u64 = if at < by_lane.len() && by_lane[at].0 == lane {
            by_lane[at].1
        } else {
            0
        };
        proof {
            let grown = updates@.subrange(0, j + 1);
            assert(grown.drop_last() =~= updates@.subrange(0, j as int));
            lemma_lane_map_sorted(by_lane@);
            assert(held == lane_mark(lane_map(by_lane@), lane)) by {
                if lane_map(by_lane@).dom().contains(lane) {
                    let k = choose|k: int|
                        0 <= k < by_lane@.len() && (#[trigger] by_lane@[k]).0 == lane;
                    assert(k >= at);
                    if k > at {
                        assert(by_lane@[at as int].0 < by_lane@[k].0);
                    }
                } else if at < by_lane@.len() {
                    assert(by_lane@[at as int].0 != lane);
                }
            }
        }
        if hwm < held {
            proof {
                if advances(lane_map(current@), updates@) {
                    lemma_advances_prefix(lane_map(current@), updates@, j + 1);
                }
            }
            return Err(invalid("node HWM regression"));
        }
        set_lane(&mut by_lane, at, lane, hwm);
        j = j + 1;
    }
    proof {
        assert(updates@.subrange(0, j as int) =~= updates@);
    }
    Ok(by_lane)
}

proof fn lemma_advances_prefix(m: Map<u32, u64>, updates: Seq<(u32, u64)>, n: int)
    requires
        0 <= n <= updates.len(),
        advances(m, updates),
    ensures
        advances(m, updates.subrange(0, n)),
    decreases updates.len(),
{
    if n < updates.len() {
        lemma_advances_prefix(m, updates.drop_last(), n);
        assert(updates.drop_last().subrange(0, n) =~= updates.subrange(0, n));
    } else {
        assert(updates.subrange(0, n) =~= updates);
    }
}

/// Accepted updates never lower a lane's high-water mark, and leave the lanes that they do not
/// name as they were.
pub proof fn law_hwms_never_regress(m: Map<u32, u64>, updates: Seq<(u32, u64)>, lane: u32)
    requires
        advances(m, updates),
    ensures
        lane_mark(raised(m, updates), lane) >= lane_mark(m, lane),
        (forall|i: int| 0 <= i < updates.len() ==> (#[trigger] updates[i]).0 != lane)
            ==> lane_mark(raised(m, updates), lane) == lane_mark(m, lane),
    decreases updates.len(),
{
    if updates.len() > 0 {
        let head = updates.drop_last();
        law_hwms_never_regress(m, head, lane);
        assert(updates.last() == updates[updates.len() - 1]);
        if forall|i: int| 0 <= i < updates.len() ==> (#[trigger] updates[i]).0 != lane {
            assert forall|i: int| 0 <= i < head.len() implies (#[trigger] head[i]).0 != lane by {
                assert(head[i] == updates[i]);
            }
        }
    }
}

/// What a client asks of a node.
#[derive(Debug)]
pub enum Request {
    Probe,
    ReadHwm { group_id: String },
    Replicate { group_id: String, lane_hwms: Vec<(u32, u64)> },
    SetTier { tier: String, cost_class: u64 },
    ApplyMutations { mutations: Vec<DatasetMutation> },
    CaptureDatasetSnapshot { snapshot_id: String, through_sequence: u64 },
    ExportRecovery { snapshot_id: String, target_sequence: u64 },
    RestoreRecovery { bundle: RecoveryBundle },
    ReadDataset,
    Shutdown,
}

/// What a [`Request`] means.
pub enum RequestView {
    Probe,
    ReadHwm { group_id: Seq<char> },
    Replicate { group_id: Seq<char>, lane_hwms: Seq<(u32, u64)> },
    SetTier { tier: Seq<char>, cost_class: u64 },
    ApplyMutations { mutations: Seq<MutationView> },
    CaptureDatasetSnapshot { snapshot_id: Seq<char>, through_sequence: u64 },
    ExportRecovery { snapshot_id: Seq<char>, target_sequence: u64 },
    RestoreRecovery { bundle: BundleView },
    ReadDataset,
    Shutdown,
}

impl View for Request {
    type V = RequestView;

    open spec fn view(&self) -> RequestView {
        match self {
            Request::Probe => RequestView::Probe,
            Request::ReadHwm { group_id } => RequestView::ReadHwm { group_id: group_id@ },
            Request::Replicate { group_id, lane_hwms } => RequestView::Replicate {
                group_id: group_id@,
                lane_hwms: lane_hwms@,
            },
            Request::SetTier { tier, cost_class } => RequestView::SetTier {
                tier: tier@,
                cost_class: *cost_class,
            },
            Request::ApplyMutations { mutations } => RequestView::ApplyMutations {
                mutations: crate::topology::dataset::mutations_view(mutations@),
            },
            Request::CaptureDatasetSnapshot { snapshot_id, through_sequence } =>
                RequestView::CaptureDatasetSnapshot {
                snapshot_id: snapshot_id@,
                through_sequence: *through_sequence,
            },
            Request::ExportRecovery { snapshot_id, target_sequence } =>
                RequestView::ExportRecovery {
                snapshot_id: snapshot_id@,
                target_sequence: *target_sequence,
            },
            Request::RestoreRecovery { bundle } => RequestView::RestoreRecovery { bundle: bundle@ },
            Request::ReadDataset => RequestView::ReadDataset,
            Request::Shutdown => RequestView::Shutdown,
        }
    }
}

/// What a response carries besides its message.
#[derive(Debug)]
pub enum Payload {
    Nothing,
    State(NodeState),
    LaneHwms(Vec<(u32, u64)>),
    Dataset(DatasetView),
    Snapshot(DatasetSnapshot),
    Bundle(RecoveryBundle),
}

/// What a node answers, whether its state has to be made durable before the answer is sent, and
/// whether it stops after it.
#[derive(Debug)]
pub struct Reply {
    pub message: String,
    pub payload: Payload,
    pub persist: bool,
    pub stop: bool,
}

/// Whether `view` reports the data set of `node`.
pub open spec fn reports(view: DatasetView, node: NodeView) -> bool {
    &&& view.sequence == node.dataset_sequence
    &&& view.values@ == node.dataset
    &&& view.digest@ == crate::topology::dataset::digest_of(node.dataset)
}

/// The data set of a node with its digest.
pub fn dataset_view(state: &NodeState) -> (view: DatasetView)
    ensures
        reports(view, state@),
{
    let digest: String = match dataset_digest(&state.dataset) {
        Ok(d) => d,
        Err(_) => String::new(),
    };
    DatasetView { sequence: state.dataset_sequence, values: state.dataset.duplicate(), digest }
}

/// The marks that a node has for a group; none for a group that it does not know.
pub open spec fn group_hwms(node: NodeView, group: Seq<char>) -> Seq<(u32, u64)> {
    if node.durable_hwms.dom().contains(group) {
        node.durable_hwms[group]
    } else {
        Seq::empty()
    }
}

/// The snapshot of a node's present state under the name `id`.
pub open spec fn present_cut(node: NodeView, id: Seq<char>) -> SnapshotView {
    SnapshotView {
        snapshot_id: id,
        through_sequence: node.dataset_sequence,
        values: node.dataset,
        digest: crate::topology::dataset::digest_of(node.dataset),
    }
}

/// The error on which a node in state `node` refuses `request`, if it does.
pub open spec fn refusal(node: NodeView, request: RequestView) -> Option<(ErrorKind, Seq<char>)> {
    match request {
        RequestView::Replicate { group_id, lane_hwms } => if advances(
            lane_map(group_hwms(node, group_id)),
            lane_hwms,
        ) {
            None
        } else {
            Some((ErrorKind::InvalidData, "node HWM regression"@))
        },
        RequestView::ApplyMutations { mutations } => if mutations.len() > 0
            && crate::topology::dataset::continues(node.dataset_sequence, mutations) {
            None
        } else {
            Some(crate::topology::recovery::batch_error(mutations))
        },
        RequestView::CaptureDatasetSnapshot { snapshot_id, through_sequence } =>
            if through_sequence != node.dataset_sequence {
            Some(
                (
                    ErrorKind::InvalidData,
                    "snapshot cut does not equal the applied dataset sequence"@,
                ),
            )
        } else if node.snapshots.dom().contains(snapshot_id) {
            Some((ErrorKind::InvalidData, "duplicate dataset snapshot"@))
        } else {
            None
        },
        RequestView::ExportRecovery { snapshot_id, target_sequence } =>
            match crate::topology::recovery::exported(node, snapshot_id, target_sequence) {
            Ok(_) => None,
            Err(e) => Some(e),
        },
        RequestView::RestoreRecovery { bundle } => match crate::topology::recovery::restored(
            node,
            bundle,
        ) {
            Ok(_) => None,
            Err(e) => Some(e),
        },
        _ => None,
    }
}

/// Whether serving `request`, which is not refused, leads from `before` to `after` and is
/// answered with `reply`.
pub open spec fn served(
    before: NodeView,
    request: RequestView,
    after: NodeView,
    reply: Reply,
) -> bool {
    match request {
        RequestView::Probe => {
            &&& after == before
            &&& reply.message@ == "ready"@
            &&& reply.payload is State && reply.payload->State_0@ == before
            &&& !reply.persist && !reply.stop
        },
        RequestView::ReadHwm { group_id } => {
            &&& after == before
            &&& reply.message@ == "durable_hwm"@
            &&& reply.payload is LaneHwms && reply.payload->LaneHwms_0@ == group_hwms(
                before,
                group_id,
            )
            &&& !reply.persist && !reply.stop
        },
        RequestView::Replicate { group_id, lane_hwms } => {
            let merged = group_hwms(after, group_id);
            &&& lanes_ascend(merged)
            &&& lane_map(merged) == raised(lane_map(group_hwms(before, group_id)), lane_hwms)
            &&& after == (NodeView {
                durable_hwms: before.durable_hwms.insert(group_id, merged),
                ..before
            })
            &&& reply.message@ == "replicated_and_synced"@
            &&& reply.payload is LaneHwms && reply.payload->LaneHwms_0@ == merged
            &&& reply.persist && !reply.stop
        },
        RequestView::SetTier { tier, cost_class } => {
            &&& after == (NodeView { tier, cost_class, ..before })
            &&& reply.message@ == "tier_changed"@
            &&& reply.payload is State && reply.payload->State_0@ == after
            &&& reply.persist && !reply.stop
        },
        RequestView::ApplyMutations { mutations } => {
            &&& after == (NodeView {
                dataset_sequence: mutations.last().sequence,
                dataset: crate::topology::dataset::replay(before.dataset, mutations),
                dataset_wal: before.dataset_wal + mutations,
                ..before
            })
            &&& reply.message@ == "dataset_wal_synced"@
            &&& reply.payload is Dataset && reports(reply.payload->Dataset_0, after)
            &&& reply.persist && !reply.stop
        },
        RequestView::CaptureDatasetSnapshot { snapshot_id, through_sequence } => {
            &&& after == (NodeView {
                snapshots: before.snapshots.insert(snapshot_id, present_cut(before, snapshot_id)),
                ..before
            })
            &&& reply.message@ == "dataset_snapshot_synced"@
            &&& reply.payload is Snapshot && reply.payload->Snapshot_0@ == present_cut(
                before,
                snapshot_id,
            )
            &&& reply.persist && !reply.stop
        },
        RequestView::ExportRecovery { snapshot_id, target_sequence } => {
            &&& after == before
            &&& reply.message@ == "recovery_bundle"@
            &&& reply.payload is Bundle && crate::topology::recovery::exported(
                before,
                snapshot_id,
                target_sequence,
            ) == Ok::<BundleView, (ErrorKind, Seq<char>)>(reply.payload->Bundle_0@)
            &&& !reply.persist && !reply.stop
        },
        RequestView::RestoreRecovery { bundle } => {
            &&& crate::topology::recovery::restored(before, bundle) == Ok::<
                NodeView,
                (ErrorKind, Seq<char>),
            >(after)
            &&& reply.message@ == "recovery_restored_and_synced"@
            &&& reply.payload is Dataset && reports(reply.payload->Dataset_0, after)
            &&& reply.persist && !reply.stop
        },
        RequestView::ReadDataset => {
            &&& after == before
            &&& reply.message@ == "dataset"@
            &&& reply.payload is Dataset && reports(reply.payload->Dataset_0, before)
            &&& !reply.persist && !reply.stop
        },
        RequestView::Shutdown => {
            &&& after == before
            &&& reply.message@ == "shutdown"@
            &&& reply.payload is Nothing
            &&& !reply.persist && reply.stop
        },
    }
}

fn answer(message: &str, payload: Payload, persist: bool) -> (reply: Reply)
    ensures
        reply == (Reply { message: reply.message, payload, persist, stop: false }),
        reply.message@ == message@,
{
    Reply { message: String::from_str(message), payload, persist, stop: false }
}

/// Serves one request. A refused request leaves the node as it was.
pub fn run_node(state: &mut NodeState, request: Request) -> (r: Result<Reply, Error>)
    ensures
        match r {
            Ok(reply) => refusal(old(state)@, request@) is None && served(
                old(state)@,
                request@,
                final(state)@,
                reply,
            ),
            Err(e) => refusal(old(state)@, request@) == Some(e@) && *final(state) == *old(state),
        },
{
    match request {
        Request::Probe => Ok(answer("ready", Payload::State(state.duplicate()), false)),
        Request::ReadHwm { group_id } => {
            let marks: Vec<(u32, u64)> = match state.durable_hwms.get(group_id.as_str()) {
                Some(found) => found.duplicate(),
                None => Vec::new(),
            };
            proof {
                assert(marks@ =~= group_hwms(state@, group_id@));
            }
            Ok(answer("durable_hwm", Payload::LaneHwms(marks), false))
        },
        Request::Replicate { group_id, lane_hwms } => {
            let current: Vec<(u32, u64)> = match state.durable_hwms.get(group_id.as_str()) {
                Some(found) => found.duplicate(),
                None => Vec::new(),
            };
            proof {
                assert(current@ =~= group_hwms(state@, group_id@));
            }
            let merged: Vec<(u32, u64)> = match merge_hwms(&current, &lane_hwms) {
                Ok(list) => list,
                Err(e) => {
                    return Err(e);
                },
            };
            let stored: Vec<(u32, u64)> = merged.duplicate();
            state.durable_hwms.insert(group_id, stored);
            Ok(answer("replicated_and_synced", Payload::LaneHwms(merged), true))
        },
        Request::SetTier { tier, cost_class } => {
            state.tier = tier;
            state.cost_class = cost_class;
            Ok(answer("tier_changed", Payload::State(state.duplicate()), true))
        },
        Request::ApplyMutations { mutations } => {
            match apply_mutations(
                &mut state.dataset_sequence,
                &mut state.dataset,
                &mut state.dataset_wal,
                mutations.as_slice(),
            ) {
                Ok(_) => {},
                Err(e) => {
                    return Err(e);
                },
            }
            Ok(answer("dataset_wal_synced", Payload::Dataset(dataset_view(state)), true))
        },
        Request::CaptureDatasetSnapshot { snapshot_id, through_sequence } => {
            if through_sequence != state.dataset_sequence {
                return Err(invalid("snapshot cut does not equal the applied dataset sequence"));
            }
            if state.snapshots.contains_key(snapshot_id.as_str()) {
                return Err(invalid("duplicate dataset snapshot"));
            }
            let digest: String = match dataset_digest(&state.dataset) {
                Ok(d) => d,
                Err(e) => {
                    return Err(e);
                },
            };
            let snapshot: DatasetSnapshot = DatasetSnapshot {
                snapshot_id: snapshot_id.duplicate(),
                through_sequence,
                values: state.dataset.duplicate(),
                digest,
            };
            state.snapshots.insert(snapshot_id, snapshot.duplicate());
            Ok(answer("dataset_snapshot_synced", Payload::Snapshot(snapshot), true))
        },
        Request::ExportRecovery { snapshot_id, target_sequence } => {
            match export_recovery(state, snapshot_id.as_str(), target_sequence) {
                Ok(bundle) => Ok(answer("recovery_bundle", Payload::Bundle(bundle), false)),
                Err(e) => Err(e),
            }
        },
        Request::RestoreRecovery { bundle } => {
            match restore_recovery(state, &bundle) {
                Ok(_) => {},
                Err(e) => {
                    return Err(e);
                },
            }
            Ok(
                answer(
                    "recovery_restored_and_synced",
                    Payload::Dataset(dataset_view(state)),
                    true,
                ),
            )
        },
        Request::ReadDataset => Ok(
            answer("dataset", Payload::Dataset(dataset_view(state)), false),
        ),
        Request::Shutdown => Ok(
            Reply {
                message: String::from_str("shutdown"),
                payload: Payload::Nothing,
                persist: false,
                stop: true,
            },
        ),
    }
}

/// A snapshot that a node captures is a cut of its recorded history, with a true digest.
pub proof fn law_captured_snapshot_is_a_cut(
    node: NodeView,
    id: Seq<char>,
    start: u64,
    base: Map<Seq<char>, Seq<char>>,
)
    requires
        crate::topology::recovery::recorded(node, start, base),
    ensures
        crate::topology::recovery::cut_of(present_cut(node, id), node, start, base),
        present_cut(node, id).digest == crate::topology::dataset::digest_of(
            present_cut(node, id).values,
        ),
{
    crate::topology::recovery::lemma_log_counts_up(start, node.dataset_wal);
    assert(node.dataset_wal.subrange(0, node.dataset_sequence - start) =~= node.dataset_wal);
}

/// A request changes only what it is for: the identity of a node never changes, its tier only by a change
/// of tier, the marks of a group only by replicating to that group, its data only by mutations or a
/// recovery, and its snapshots only by a capture or a recovery. What changes the node is persisted, a
/// request that only asks is not, and only a shutdown stops the node.
pub proof fn law_requests_change_only_their_part(
    before: NodeView,
    request: RequestView,
    after: NodeView,
    reply: Reply,
    group: Seq<char>,
    id: Seq<char>,
)
    requires
        served(before, request, after, reply),
    ensures
        after.node_id == before.node_id && after.region == before.region && after.az == before.az,
        !(request is SetTier) ==> after.tier == before.tier && after.cost_class == before.cost_class,
        request matches RequestView::SetTier { tier, cost_class } ==> after.tier == tier
            && after.cost_class == cost_class,
        !(request matches RequestView::Replicate { group_id, .. } && group_id == group)
            ==> group_hwms(after, group) == group_hwms(before, group),
        !(request is ApplyMutations || request is RestoreRecovery) ==> after.dataset
            == before.dataset && after.dataset_sequence == before.dataset_sequence
            && after.dataset_wal == before.dataset_wal,
        !(request is CaptureDatasetSnapshot || request is RestoreRecovery) ==> after.snapshots
            == before.snapshots,
        request matches RequestView::CaptureDatasetSnapshot { snapshot_id, .. } ==> {
            &&& after.snapshots.contains_key(snapshot_id)
            &&& after.snapshots[snapshot_id].values == before.dataset
            &&& after.snapshots[snapshot_id].through_sequence == before.dataset_sequence
            &&& id != snapshot_id ==> after.snapshots.contains_key(id) == before.snapshots.contains_key(
                id,
            ) && (before.snapshots.contains_key(id) ==> after.snapshots[id] == before.snapshots[id])
        },
        reply.persist == (request is Replicate || request is SetTier || request is ApplyMutations
            || request is CaptureDatasetSnapshot || request is RestoreRecovery),
        !reply.persist ==> after == before,
        reply.stop == (request is Shutdown),
{
}

/// A node answers with its own state: the marks of the group that is asked for, and the data set that it
/// has reached.
pub proof fn law_answers_tell_the_state(
    before: NodeView,
    request: RequestView,
    after: NodeView,
    reply: Reply,
)
    requires
        served(before, request, after, reply),
    ensures
        reply.payload matches Payload::State(state) ==> state@ == after,
        reply.payload matches Payload::Dataset(view) ==> view.sequence == after.dataset_sequence
            && view.values@ == after.dataset,
        request matches RequestView::ReadHwm { group_id } ==> reply.payload is LaneHwms
            && reply.payload->LaneHwms_0@ == group_hwms(before, group_id),
        request matches RequestView::Replicate { group_id, .. } ==> reply.payload is LaneHwms
            && reply.payload->LaneHwms_0@ == group_hwms(after, group_id),
        request is ReadDataset ==> reply.payload is Dataset,
        request is Probe ==> reply.payload is State,
{
}

/// The last update of a lane is the mark that the lane has; a lane without an update keeps its mark.
pub proof fn law_the_last_update_of_a_lane_counts(
    m: Map<u32, u64>,
    updates: Seq<(u32, u64)>,
    lane: u32,
)
    ensures
        (forall|j: int| 0 <= j < updates.len() ==> (#[trigger] updates[j]).0 != lane) ==> lane_mark(
            raised(m, updates),
            lane,
        ) == lane_mark(m, lane),
        forall|i: int|
            0 <= i < updates.len() && (#[trigger] updates[i]).0 == lane && (forall|j: int|
                i < j < updates.len() ==> (#[trigger] updates[j]).0 != lane) ==> lane_mark(
                raised(m, updates),
                lane,
            ) == updates[i].1,
    decreases updates.len(),
{
    if updates.len() > 0 {
        let head = updates.drop_last();
        law_the_last_update_of_a_lane_counts(m, head, lane);
        assert(forall|j: int| 0 <= j < head.len() ==> #[trigger] head[j] == updates[j]);
        assert(updates[updates.len() - 1] == updates.last());
        assert forall|i: int|
            0 <= i < updates.len() && (#[trigger] updates[i]).0 == lane && (forall|j: int|
                i < j < updates.len() ==> (#[trigger] updates[j]).0 != lane) implies lane_mark(
            raised(m, updates),
            lane,
        ) == updates[i].1 by {
            if i < head.len() {
                assert(head[i] == updates[i]);
            }
        }
    }
}

/// A list of marks in the order of its lanes has each mark under its lane, and no other lane.
pub proof fn law_marks_lie_under_their_lane(s: Seq<(u32, u64)>, lane: u32)
    requires
        lanes_ascend(s),
    ensures
        lane_map(s).contains_key(lane) <==> exists|i: int|
            0 <= i < s.len() && (#[trigger] s[i]).0 == lane,
        forall|i: int| 0 <= i < s.len() && (#[trigger] s[i]).0 == lane ==> lane_map(s)[lane] == s[i].1,
    decreases s.len(),
{
    if s.len() > 0 {
        let head = s.drop_last();
        assert(forall|j: int| 0 <= j < head.len() ==> #[trigger] head[j] == s[j]);
        assert(lanes_ascend(head)) by {
            assert forall|i: int, j: int| 0 <= i < j < head.len() implies (#[trigger] head[i]).0 < (
            #[trigger] head[j]).0 by {
                assert(s[i].0 < s[j].0);
            }
        }
        law_marks_lie_under_their_lane(head, lane);
        assert(s[s.len() - 1] == s.last());
        if exists|i: int| 0 <= i < s.len() && (#[trigger] s[i]).0 == lane {
            let i = choose|i: int| 0 <= i < s.len() && (#[trigger] s[i]).0 == lane;
            if i < head.len() {
                assert(head[i].0 == lane);
            }
        }
        if exists|i: int| 0 <= i < head.len() && (#[trigger] head[i]).0 == lane {
            let i = choose|i: int| 0 <= i < head.len() && (#[trigger] head[i]).0 == lane;
            assert(s[i].0 == lane);
        }
        assert forall|i: int| 0 <= i < s.len() && (#[trigger] s[i]).0 == lane implies lane_map(s)[lane]
            == s[i].1 by {
            if i < head.len() {
                assert(head[i].0 == lane);
                assert(s[i].0 < s[s.len() - 1].0);
            }
        }
    }
}

/// Updates of different lanes are accepted exactly where none of them is below the mark of its lane.
pub proof fn law_updates_below_a_mark_are_refused(m: Map<u32, u64>, updates: Seq<(u32, u64)>)
    requires
        forall|i: int, j: int|
            0 <= i < j < updates.len() ==> (#[trigger] updates[i]).0 != (#[trigger] updates[j]).0,
    ensures
        advances(m, updates) <==> forall|i: int|
            0 <= i < updates.len() ==> (#[trigger] updates[i]).1 >= lane_mark(m, updates[i].0),
    decreases updates.len(),
{
    if updates.len() > 0 {
        let head = updates.drop_last();
        let n = updates.len() - 1;
        assert(forall|j: int| 0 <= j < head.len() ==> #[trigger] head[j] == updates[j]);
        assert(updates[n] == updates.last());
        assert forall|i: int, j: int| 0 <= i < j < head.len() implies (#[trigger] head[i]).0 != (
        #[trigger] head[j]).0 by {
            assert(updates[i].0 != updates[j].0);
        }
        law_updates_below_a_mark_are_refused(m, head);
        assert forall|j: int| 0 <= j < head.len() implies (#[trigger] head[j]).0 != updates[n].0 by {
            assert(updates[j].0 != updates[n].0);
        }
        law_the_last_update_of_a_lane_counts(m, head, updates[n].0);
        if advances(m, updates) {
            assert forall|i: int| 0 <= i < updates.len() implies (#[trigger] updates[i]).1 >= lane_mark(
                m,
                updates[i].0,
            ) by {
                if i < n {
                    assert(head[i] == updates[i]);
                }
            }
        }
        if forall|i: int|
            0 <= i < updates.len() ==> (#[trigger] updates[i]).1 >= lane_mark(m, updates[i].0) {
            assert forall|i: int| 0 <= i < head.len() implies (#[trigger] head[i]).1 >= lane_mark(
                m,
                head[i].0,
            ) by {
                assert(head[i] == updates[i]);
            }
            assert(updates[n].1 >= lane_mark(m, updates[n].0));
        }
    }
}

/// A lane without a mark is below every mark, so that its first update may have any; a lane with one has
/// the one that it was given last.
pub proof fn law_a_lane_without_a_mark_is_below_all(m: Map<u32, u64>, lane: u32, mark: u64)
    ensures
        !m.contains_key(lane) ==> lane_mark(m, lane) <= mark,
        lane_mark(m.insert(lane, mark), lane) == mark,
{
}

} // verus!
