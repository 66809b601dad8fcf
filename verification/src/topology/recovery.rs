//! Snapshots of a data set and recovery of a point in time from a snapshot and the log.
use vstd::prelude::*;
use vstd::string::*;

use crate::error::{Error, ErrorKind};
use crate::text::{join2, str_eq};
use crate::textmap::{Duplicate, TextMap};
use crate::topology::dataset::{apply_mutations, dataset_digest, invalid, DatasetMutation};
#[allow(unused_imports)]
use crate::topology::dataset::MutationView;
use crate::topology::node::NodeState;
#[allow(unused_imports)]
use crate::topology::node::NodeView;

verus! {

/// A data set as it was at one sequence number, with its digest.
#[derive(Debug)]
pub struct DatasetSnapshot {
    pub snapshot_id: String,
    pub through_sequence: u64,
    pub values: TextMap<String>,
    pub digest: String,
}

/// What a [`DatasetSnapshot`] means.
pub struct SnapshotView {
    pub snapshot_id: Seq<char>,
    pub through_sequence: u64,
    pub values: Map<Seq<char>, Seq<char>>,
    pub digest: Seq<char>,
}

impl View for DatasetSnapshot {
    type V = SnapshotView;

    open spec fn view(&self) -> SnapshotView {
        SnapshotView {
            snapshot_id: self.snapshot_id@,
            through_sequence: self.through_sequence,
            values: self.values@,
            digest: self.digest@,
        }
    }
}

impl Duplicate for DatasetSnapshot {
    fn duplicate(&self) -> (copy: Self) {
        DatasetSnapshot {
            snapshot_id: self.snapshot_id.duplicate(),
            through_sequence: self.through_sequence,
            values: self.values.duplicate(),
            digest: self.digest.duplicate(),
        }
    }
}

/// A snapshot, the mutations that lead from it to a target, and the state they must give.
#[derive(Debug)]
pub struct RecoveryBundle {
    pub snapshot: DatasetSnapshot,
    pub target_sequence: u64,
    pub mutations: Vec<DatasetMutation>,
    pub expected_values: TextMap<String>,
    pub expected_digest: String,
}

/// What a [`RecoveryBundle`] means.
pub struct BundleView {
    pub snapshot: SnapshotView,
    pub target_sequence: u64,
    pub mutations: Seq<MutationView>,
    pub expected_values: Map<Seq<char>, Seq<char>>,
    pub expected_digest: Seq<char>,
}

impl View for RecoveryBundle {
    type V = BundleView;

    open spec fn view(&self) -> BundleView {
        BundleView {
            snapshot: self.snapshot@,
            target_sequence: self.target_sequence,
            mutations: crate::topology::dataset::mutations_view(self.mutations@),
            expected_values: self.expected_values@,
            expected_digest: self.expected_digest@,
        }
    }
}

/// The mutations of a log with a sequence number above `after` and at most `through`.
pub open spec fn selected(wal: Seq<MutationView>, after: u64, through: u64) -> Seq<MutationView>
    decreases wal.len(),
{
    if wal.len() == 0 {
        Seq::empty()
    } else {
        let head = selected(wal.drop_last(), after, through);
        if after < wal.last().sequence <= through {
            head.push(wal.last())
        } else {
            head
        }
    }
}

/// An error that blames data.
pub open spec fn data_error(message: Seq<char>) -> (ErrorKind, Seq<char>) {
    (ErrorKind::InvalidData, message)
}

/// Why a batch cannot be applied from `sequence` on.
pub open spec fn batch_error(batch: Seq<MutationView>) -> (ErrorKind, Seq<char>) {
    if batch.len() == 0 {
        crate::topology::dataset::empty_error()
    } else {
        crate::topology::dataset::gap_error()
    }
}

/// What exporting the recovery of `target` from the snapshot `id` gives.
pub open spec fn exported(node: NodeView, id: Seq<char>, target: u64) -> Result<
    BundleView,
    (ErrorKind, Seq<char>),
> {
    if !node.snapshots.dom().contains(id) {
        Err(data_error("unknown dataset snapshot "@ + id))
    } else {
        let snapshot = node.snapshots[id];
        let batch = selected(node.dataset_wal, snapshot.through_sequence, target);
        if target < snapshot.through_sequence || target > node.dataset_sequence {
            Err(data_error("recovery target is outside the retained WAL range"@))
        } else if target > snapshot.through_sequence && (batch.len() == 0
            || !crate::topology::dataset::continues(snapshot.through_sequence, batch)) {
            Err(batch_error(batch))
        } else if crate::topology::dataset::end_sequence(snapshot.through_sequence, batch)
            != target {
            Err(data_error("retained WAL does not reach the recovery target"@))
        } else {
            let values = crate::topology::dataset::replay(snapshot.values, batch);
            Ok(
                BundleView {
                    snapshot,
                    target_sequence: target,
                    mutations: batch,
                    expected_values: values,
                    expected_digest: crate::topology::dataset::digest_of(values),
                },
            )
        }
    }
}

/// The mutations of a bundle that a restore replays.
pub open spec fn played(bundle: BundleView) -> Seq<MutationView> {
    if bundle.target_sequence > bundle.snapshot.through_sequence {
        bundle.mutations
    } else {
        Seq::empty()
    }
}

/// What restoring `bundle` on `node` gives.
pub open spec fn restored(node: NodeView, bundle: BundleView) -> Result<
    NodeView,
    (ErrorKind, Seq<char>),
> {
    let base = bundle.snapshot;
    let batch = played(bundle);
    let values = crate::topology::dataset::replay(base.values, batch);
    let sequence = crate::topology::dataset::end_sequence(base.through_sequence, batch);
    if crate::topology::dataset::digest_of(base.values) != base.digest {
        Err(data_error("base snapshot digest mismatch"@))
    } else if bundle.target_sequence > base.through_sequence && (batch.len() == 0
        || !crate::topology::dataset::continues(base.through_sequence, batch)) {
        Err(batch_error(batch))
    } else if sequence != bundle.target_sequence || values != bundle.expected_values
        || crate::topology::dataset::digest_of(values) != bundle.expected_digest {
        Err(data_error("replayed recovery bundle does not match its certified result"@))
    } else {
        Ok(
            NodeView {
                dataset_sequence: sequence,
                dataset: values,
                dataset_wal: batch,
                snapshots: node.snapshots.insert(base.snapshot_id, base),
                ..node
            },
        )
    }
}

/// The mutations of a log with a sequence number above `after` and at most `through`.
fn select_mutations(wal: &Vec<DatasetMutation>, after: u64, through: u64) -> (list: Vec<
    DatasetMutation,
>)
    ensures
        crate::topology::dataset::mutations_view(list@) == selected(
            crate::topology::dataset::mutations_view(wal@),
            after,
            through,
        ),
{
    let ghost all = crate::topology::dataset::mutations_view(wal@);
    let mut list: Vec<DatasetMutation> = Vec::new();
    let mut i: usize = 0;
    proof {
        assert(all.subrange(0, 0) =~= Seq::<MutationView>::empty());
        assert(crate::topology::dataset::mutations_view(list@) =~= Seq::<MutationView>::empty());
    }
    while i < wal.len()
        invariant
            i <= wal@.len(),
            all == crate::topology::dataset::mutations_view(wal@),
            crate::topology::dataset::mutations_view(list@) == selected(
                all.subrange(0, i as int),
                after,
                through,
            ),
        decreases wal@.len() - i,
    {
        proof {
            assert(all.subrange(0, i + 1).drop_last() =~= all.subrange(0, i as int));
        }
        if wal[i].sequence > after && wal[i].sequence <= through {
            let ghost before = list@;
            list.push(wal[i].duplicate());
            proof {
                assert(crate::topology::dataset::mutations_view(list@)
                    =~= crate::topology::dataset::mutations_view(before).push(wal@[i as int]@));
            }
        }
        i = i + 1;
    }
    proof {
        assert(all.subrange(0, i as int) =~= all);
    }
    list
}

/// No mutation has a sequence number above `through` and at most `through`.
proof fn lemma_selected_nothing(wal: Seq<MutationView>, through: u64)
    ensures
        selected(wal, through, through).len() == 0,
    decreases wal.len(),
{
    if wal.len() > 0 {
        lemma_selected_nothing(wal.drop_last(), through);
    }
}

/// Packs what is needed to recover the state at `target_sequence` from a snapshot.
pub fn export_recovery(state: &NodeState, snapshot_id: &str, target_sequence: u64) -> (r: Result<
    RecoveryBundle,
    Error,
>)
    ensures
        match r {
            Ok(bundle) => exported(state@, snapshot_id@, target_sequence) == Ok::<
                BundleView,
                (ErrorKind, Seq<char>),
            >(bundle@),
            Err(e) => exported(state@, snapshot_id@, target_sequence) == Err::<
                BundleView,
                (ErrorKind, Seq<char>),
            >(e@),
        },
{
    let snapshot: DatasetSnapshot = match state.snapshots.get(snapshot_id) {
        Some(found) => found.duplicate(),
        None => {
            return Err(
                Error::new(
                    ErrorKind::InvalidData,
                    join2("unknown dataset snapshot ", snapshot_id),
                ),
            );
        },
    };
    if target_sequence < snapshot.through_sequence || target_sequence > state.dataset_sequence {
        return Err(invalid("recovery target is outside the retained WAL range"));
    }
    let mutations: Vec<DatasetMutation> = select_mutations(
        &state.dataset_wal,
        snapshot.through_sequence,
        target_sequence,
    );
    let mut sequence: u64 = snapshot.through_sequence;
    let mut expected_values: TextMap<String> = snapshot.values.duplicate();
    let mut replayed: Vec<DatasetMutation> = Vec::new();
    if target_sequence > snapshot.through_sequence {
        match apply_mutations(
            &mut sequence,
            &mut expected_values,
            &mut replayed,
            mutations.as_slice(),
        ) {
            Ok(_) => {},
            Err(e) => {
                return Err(e);
            },
        }
    } else {
        proof {
            lemma_selected_nothing(state@.dataset_wal, target_sequence);
        }
    }
    if sequence != target_sequence {
        return Err(invalid("retained WAL does not reach the recovery target"));
    }
    let expected_digest: String = match dataset_digest(&expected_values) {
        Ok(d) => d,
        Err(e) => {
            return Err(e);
        },
    };
    Ok(RecoveryBundle { snapshot, target_sequence, mutations, expected_values, expected_digest })
}

/// Restores a data set from a bundle; the node is left as it was where the bundle is refused.
pub fn restore_recovery(state: &mut NodeState, bundle: &RecoveryBundle) -> (r: Result<(), Error>)
    ensures
        match r {
            Ok(_) => restored(old(state)@, bundle@) == Ok::<NodeView, (ErrorKind, Seq<char>)>(
                final(state)@,
            ),
            Err(e) => restored(old(state)@, bundle@) == Err::<NodeView, (ErrorKind, Seq<char>)>(
                e@,
            ) && *final(state) == *old(state),
        },
{
    let base_digest: String = match dataset_digest(&bundle.snapshot.values) {
        Ok(d) => d,
        Err(e) => {
            return Err(e);
        },
    };
    if !str_eq(base_digest.as_str(), bundle.snapshot.digest.as_str()) {
        return Err(invalid("base snapshot digest mismatch"));
    }
    let mut sequence: u64 = bundle.snapshot.through_sequence;
    let mut values: TextMap<String> = bundle.snapshot.values.duplicate();
    let mut wal: Vec<DatasetMutation> = Vec::new();
    proof {
        assert(crate::topology::dataset::mutations_view(wal@) =~= Seq::<MutationView>::empty());
    }
    if bundle.target_sequence > sequence {
        match apply_mutations(&mut sequence, &mut values, &mut wal, bundle.mutations.as_slice()) {
            Ok(_) => {
                proof {
                    assert(crate::topology::dataset::mutations_view(wal@)
                        =~= bundle@.mutations);
                }
            },
            Err(e) => {
                return Err(e);
            },
        }
    }
    let digest: String = match dataset_digest(&values) {
        Ok(d) => d,
        Err(e) => {
            return Err(e);
        },
    };
    if sequence != bundle.target_sequence || !values.same(&bundle.expected_values) || !str_eq(
        digest.as_str(),
        bundle.expected_digest.as_str(),
    ) {
        return Err(invalid("replayed recovery bundle does not match its certified result"));
    }
    state.dataset_sequence = sequence;
    state.dataset = values;
    state.dataset_wal = wal;
    state.snapshots.insert(bundle.snapshot.snapshot_id.duplicate(), bundle.snapshot.duplicate());
    Ok(())
}

/// A bundle exported from a snapshot with a true digest is accepted by every node, which then
/// holds the expected values at the target and, as its log, the exported mutations.
pub proof fn law_exported_bundle_restores(
    source: NodeView,
    id: Seq<char>,
    target: u64,
    destination: NodeView,
)
    requires
        exported(source, id, target) is Ok,
        source.snapshots[id].digest == crate::topology::dataset::digest_of(
            source.snapshots[id].values,
        ),
    ensures
        ({
            let bundle = exported(source, id, target)->Ok_0;
            let r = restored(destination, bundle);
            &&& r is Ok
            &&& r->Ok_0.dataset_sequence == target
            &&& r->Ok_0.dataset == bundle.expected_values
            &&& r->Ok_0.dataset_wal == bundle.mutations
        }),
{
    let snapshot = source.snapshots[id];
    if target == snapshot.through_sequence {
        lemma_selected_nothing(source.dataset_wal, target);
        assert(selected(source.dataset_wal, target, target) =~= Seq::<MutationView>::empty());
    }
}

/// Whether the log of `node` leads without a gap from `base`, the state at `start`, to the node's
/// present state.
pub open spec fn recorded(node: NodeView, start: u64, base: Map<Seq<char>, Seq<char>>) -> bool {
    &&& crate::topology::dataset::continues(start, node.dataset_wal)
    &&& node.dataset_sequence == crate::topology::dataset::end_sequence(start, node.dataset_wal)
    &&& node.dataset == crate::topology::dataset::replay(base, node.dataset_wal)
    &&& node.dataset_sequence < u64::MAX
}

/// The state that the log of `node` gives at `sequence`, from `base` at `start` on.
pub open spec fn state_at(
    node: NodeView,
    start: u64,
    base: Map<Seq<char>, Seq<char>>,
    sequence: u64,
) -> Map<Seq<char>, Seq<char>> {
    crate::topology::dataset::replay(base, node.dataset_wal.subrange(0, sequence - start))
}

/// Whether `snapshot` is the state of `node` at its sequence number.
pub open spec fn cut_of(
    snapshot: SnapshotView,
    node: NodeView,
    start: u64,
    base: Map<Seq<char>, Seq<char>>,
) -> bool {
    &&& start <= snapshot.through_sequence <= node.dataset_sequence
    &&& snapshot.values == state_at(node, start, base, snapshot.through_sequence)
}

/// Without a gap the sequence numbers of a log count up from where it started.
pub proof fn lemma_log_counts_up(start: u64, wal: Seq<MutationView>)
    requires
        crate::topology::dataset::continues(start, wal),
        crate::topology::dataset::end_sequence(start, wal) < u64::MAX,
    ensures
        crate::topology::dataset::end_sequence(start, wal) == start + wal.len(),
        forall|i: int| 0 <= i < wal.len() ==> (#[trigger] wal[i]).sequence == start + i + 1,
    decreases wal.len(),
{
    if wal.len() > 0 {
        let head = wal.drop_last();
        lemma_log_counts_up(start, head);
        assert forall|i: int| 0 <= i < wal.len() implies (#[trigger] wal[i]).sequence == start + i
            + 1 by {
            if i < head.len() {
                assert(head[i] == wal[i]);
            }
        }
    }
}

proof fn lemma_selected_is_slice(wal: Seq<MutationView>, start: u64, after: u64, through: u64)
    requires
        start <= after <= through,
        forall|i: int| 0 <= i < wal.len() ==> (#[trigger] wal[i]).sequence == start + i + 1,
    ensures
        selected(wal, after, through) == wal.subrange(
            if after - start <= wal.len() {
                after - start
            } else {
                wal.len() as int
            },
            if through - start <= wal.len() {
                through - start
            } else {
                wal.len() as int
            },
        ),
    decreases wal.len(),
{
    let lo = if after - start <= wal.len() {
        after - start
    } else {
        wal.len() as int
    };
    let hi = if through - start <= wal.len() {
        through - start
    } else {
        wal.len() as int
    };
    if wal.len() > 0 {
        let head = wal.drop_last();
        assert forall|i: int| 0 <= i < head.len() implies (#[trigger] head[i]).sequence == start + i
            + 1 by {
            assert(head[i] == wal[i]);
        }
        lemma_selected_is_slice(head, start, after, through);
        assert(wal.last() == wal[wal.len() - 1]);
        assert(selected(wal, after, through) =~= wal.subrange(lo, hi));
    } else {
        assert(selected(wal, after, through) =~= wal.subrange(lo, hi));
    }
}

/// Recovery to a point in time: from any snapshot that is a cut of the node's history, a target
/// between that snapshot and the present can be exported, and the exported state is the one that
/// the history had at the target; mutations after the target have no part in it.
pub proof fn law_export_is_point_in_time(
    node: NodeView,
    start: u64,
    base: Map<Seq<char>, Seq<char>>,
    id: Seq<char>,
    target: u64,
)
    requires
        recorded(node, start, base),
        node.snapshots.dom().contains(id),
        cut_of(node.snapshots[id], node, start, base),
        node.snapshots[id].through_sequence <= target <= node.dataset_sequence,
    ensures
        exported(node, id, target) is Ok,
        exported(node, id, target)->Ok_0.expected_values == state_at(node, start, base, target),
        forall|i: int|
            0 <= i < exported(node, id, target)->Ok_0.mutations.len() ==> (
            #[trigger] exported(node, id, target)->Ok_0.mutations[i]).sequence <= target,
{
    let wal = node.dataset_wal;
    let snapshot = node.snapshots[id];
    let lo = snapshot.through_sequence - start;
    let hi = target - start;
    lemma_log_counts_up(start, wal);
    lemma_selected_is_slice(wal, start, snapshot.through_sequence, target);
    let batch = wal.subrange(lo, hi);
    assert(selected(wal, snapshot.through_sequence, target) =~= batch);
    assert(wal.subrange(0, hi) =~= wal.subrange(0, lo) + batch);
    assert(wal =~= wal.subrange(0, hi) + wal.subrange(hi, wal.len() as int));
    crate::topology::dataset::law_continues_concat(
        start,
        wal.subrange(0, hi),
        wal.subrange(hi, wal.len() as int),
    );
    crate::topology::dataset::law_continues_concat(start, wal.subrange(0, lo), batch);
    crate::topology::dataset::law_replay_concat(base, wal.subrange(0, lo), batch);
    if lo > 0 {
        assert(wal.subrange(0, lo).last() == wal[lo - 1]);
    }
    if hi > lo {
        assert(batch.last() == wal[hi - 1]);
    }
}

/// Applying a batch that is accepted keeps a history recorded, and every cut of it a cut.
pub proof fn law_apply_keeps_history(
    node: NodeView,
    start: u64,
    base: Map<Seq<char>, Seq<char>>,
    batch: Seq<MutationView>,
    after: NodeView,
    snapshot: SnapshotView,
)
    requires
        recorded(node, start, base),
        batch.len() > 0,
        crate::topology::dataset::continues(node.dataset_sequence, batch),
        batch.last().sequence < u64::MAX,
        after.dataset_sequence == batch.last().sequence,
        after.dataset == crate::topology::dataset::replay(node.dataset, batch),
        after.dataset_wal == node.dataset_wal + batch,
    ensures
        recorded(after, start, base),
        cut_of(snapshot, node, start, base) ==> cut_of(snapshot, after, start, base),
{
    crate::topology::dataset::law_continues_concat(start, node.dataset_wal, batch);
    crate::topology::dataset::law_replay_concat(base, node.dataset_wal, batch);
    lemma_log_counts_up(start, node.dataset_wal);
    lemma_log_counts_up(start, after.dataset_wal);
    if cut_of(snapshot, node, start, base) {
        let n = snapshot.through_sequence - start;
        assert(after.dataset_wal.subrange(0, n) =~= node.dataset_wal.subrange(0, n));
    }
}

/// A restored node has a recorded history that starts at the bundle's snapshot.
pub proof fn law_restore_records_history(node: NodeView, bundle: BundleView)
    requires
        restored(node, bundle) is Ok,
        bundle.target_sequence < u64::MAX,
    ensures
        recorded(
            restored(node, bundle)->Ok_0,
            bundle.snapshot.through_sequence,
            bundle.snapshot.values,
        ),
{
}

/// A bundle is restored only where everything in it agrees: the base snapshot with its digest, and what
/// its mutations lead to with the sequence number, the values and the digest that it certifies. The node
/// then holds exactly that, keeps its other snapshots and its marks, and has the base snapshot.
pub proof fn law_restore_accepts_only_what_is_certified(
    node: NodeView,
    bundle: BundleView,
    other: Seq<char>,
)
    requires
        restored(node, bundle) is Ok,
        other != bundle.snapshot.snapshot_id,
    ensures
        ({
            let after = restored(node, bundle)->Ok_0;
            &&& crate::topology::dataset::digest_of(bundle.snapshot.values) == bundle.snapshot.digest
            &&& after.dataset == bundle.expected_values
            &&& crate::topology::dataset::digest_of(after.dataset) == bundle.expected_digest
            &&& after.dataset_sequence == bundle.target_sequence
            &&& after.snapshots.contains_key(bundle.snapshot.snapshot_id)
            &&& after.snapshots[bundle.snapshot.snapshot_id] == bundle.snapshot
            &&& after.snapshots.contains_key(other) == node.snapshots.contains_key(other)
            &&& node.snapshots.contains_key(other) ==> after.snapshots[other]
                == node.snapshots[other]
            &&& after.durable_hwms == node.durable_hwms
            &&& after.node_id == node.node_id && after.region == node.region && after.az == node.az
            &&& after.tier == node.tier && after.cost_class == node.cost_class
        }),
{
}

/// What is selected from a log is what lies behind one sequence number and up to another, in the order of
/// the log.
pub proof fn law_selection_takes_the_range(wal: Seq<MutationView>, after: u64, through: u64)
    ensures
        forall|k: int|
            0 <= k < selected(wal, after, through).len() ==> after < (#[trigger] selected(
                wal,
                after,
                through,
            )[k]).sequence <= through,
        forall|i: int|
            0 <= i < wal.len() && after < (#[trigger] wal[i]).sequence <= through ==> selected(
                wal,
                after,
                through,
            ).contains(wal[i]),
        selected(wal, after, through).len() <= wal.len(),
    decreases wal.len(),
{
    if wal.len() > 0 {
        let head = wal.drop_last();
        law_selection_takes_the_range(head, after, through);
        let all = selected(wal, after, through);
        let some = selected(head, after, through);
        assert(forall|j: int| 0 <= j < head.len() ==> #[trigger] head[j] == wal[j]);
        assert forall|k: int| 0 <= k < all.len() implies after < (#[trigger] all[k]).sequence
            <= through by {
            if k < some.len() {
                assert(all[k] == some[k]);
            }
        }
        assert forall|i: int|
            0 <= i < wal.len() && after < (#[trigger] wal[i]).sequence <= through implies all.contains(
            wal[i],
        ) by {
            if i < head.len() {
                assert(head[i] == wal[i]);
                let k = choose|k: int| 0 <= k < some.len() && some[k] == wal[i];
                assert(all[k] == wal[i]);
            } else {
                assert(all[all.len() - 1] == wal[i]);
            }
        }
    }
}

} // verus!
