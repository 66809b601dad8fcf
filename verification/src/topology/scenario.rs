//! The scenario that takes a two-region volume through quorum loss, region loss, point-in-time
//! recovery on two branches, promotion, replacement and cost reduction.
//!
//! The controllers, the metadata log and the nodes are reached by the caller. This module says
//! what is to be applied at each stage and judges what was observed.
use vstd::prelude::*;
use vstd::string::*;

use crate::error::{Error, ErrorKind};
use crate::text::{decimal, join4, str_eq};
use crate::textmap::TextMap;
use crate::topology::dataset::{invalid, DatasetMutation, DatasetView};
#[allow(unused_imports)]
use crate::topology::dataset::MutationView;
use crate::topology::node::{NodeState, Request};
#[allow(unused_imports)]
use crate::topology::node::RequestView;
use crate::topology::recovery::RecoveryBundle;

verus! {

/// How often a condition is polled before the scenario goes on without it.
pub const POLL_LIMIT: u32 = 100;

/// How many of `members` have to answer for a quorum.
pub open spec fn quorum_size(members: nat) -> nat {
    members / 2 + 1
}

fn count_of(answered: &[bool]) -> (available: usize)
    ensures
        available == count_true(answered@),
        available <= answered@.len(),
{
    let mut available: usize = 0;
    let mut i: usize = 0;
    proof {
        assert(answered@.subrange(0, 0) =~= Seq::<bool>::empty());
    }
    while i < answered.len()
        invariant
            i <= answered@.len(),
            available <= i,
            available == count_true(answered@.subrange(0, i as int)),
        decreases answered@.len() - i,
    {
        proof {
            assert(answered@.subrange(0, i + 1).drop_last() =~= answered@.subrange(0, i as int));
        }
        if answered[i] {
            available = available + 1;
        }
        i = i + 1;
    }
    proof {
        assert(answered@.subrange(0, i as int) =~= answered@);
    }
    available
}

/// Judges whether enough supervisors answered.
pub fn supervisor_quorum(answered: &[bool]) -> (r: Result<(), Error>)
    ensures
        ({
            let available = count_true(answered@);
            match r {
                Ok(_) => available >= quorum_size(answered@.len()),
                Err(e) => {
                    &&& available < quorum_size(answered@.len())
                    &&& e@ == (
                        ErrorKind::NotConnected,
                        "supervisor quorum unavailable: available="@
                            + crate::text::decimal_text(available) + " required="@
                            + crate::text::decimal_text(quorum_size(answered@.len())),
                    )
                },
            }
        }),
{
    let available: usize = count_of(answered);
    let required: usize = answered.len() / 2 + 1;
    if available < required {
        let a: String = decimal(available as u64);
        let b: String = decimal(required as u64);
        return Err(
            Error::new(
                ErrorKind::NotConnected,
                join4(
                    "supervisor quorum unavailable: available=",
                    a.as_str(),
                    " required=",
                    b.as_str(),
                ),
            ),
        );
    }
    Ok(())
}

/// How many of a list of flags are set.
pub open spec fn count_true(s: Seq<bool>) -> nat
    decreases s.len(),
{
    if s.len() == 0 {
        0
    } else {
        count_true(s.drop_last()) + if s.last() {
            1nat
        } else {
            0
        }
    }
}

/// Two quorums of the same supervisors share a member: flags that are set at different places
/// only cannot both make a quorum.
pub proof fn law_quorums_intersect(a: Seq<bool>, b: Seq<bool>)
    requires
        a.len() == b.len(),
        count_true(a) >= quorum_size(a.len()),
        count_true(b) >= quorum_size(b.len()),
    ensures
        exists|i: int| 0 <= i < a.len() && #[trigger] a[i] && b[i],
{
    if forall|i: int| 0 <= i < a.len() ==> !(#[trigger] a[i] && b[i]) {
        lemma_disjoint_counts(a, b);
        assert(false);
    }
}

proof fn lemma_disjoint_counts(a: Seq<bool>, b: Seq<bool>)
    requires
        a.len() == b.len(),
        forall|i: int| 0 <= i < a.len() ==> !(#[trigger] a[i] && b[i]),
    ensures
        count_true(a) + count_true(b) <= a.len(),
    decreases a.len(),
{
    if a.len() > 0 {
        let x = a.drop_last();
        let y = b.drop_last();
        assert forall|i: int| 0 <= i < x.len() implies !(#[trigger] x[i] && y[i]) by {
            assert(a[i] == x[i]);
        }
        lemma_disjoint_counts(x, y);
        assert(a.last() == a[a.len() - 1]);
    }
}

/// Judges the answer to a request: a refusal is passed on as it was said.
pub fn call(ok: bool, message: &str) -> (r: Result<(), Error>)
    ensures
        match r {
            Ok(_) => ok,
            Err(e) => !ok && e@ == (ErrorKind::InvalidData, message@),
        },
{
    if ok {
        Ok(())
    } else {
        Err(invalid(message))
    }
}

/// Judges what a node answered when it was probed.
pub fn probe(answered: Option<NodeState>) -> (r: Result<NodeState, Error>)
    ensures
        match r {
            Ok(state) => answered == Some(state),
            Err(e) => answered is None && e@ == (
                ErrorKind::InvalidData,
                "probe omitted node state"@,
            ),
        },
{
    match answered {
        Some(state) => Ok(state),
        None => Err(invalid("probe omitted node state")),
    }
}

/// The requests that have every one of some nodes take the same snapshot, one for each in turn.
pub fn capture_dataset_snapshot(nodes: usize, snapshot_id: &str, through_sequence: u64) -> (v: Vec<
    Request,
>)
    ensures
        v@.len() == nodes,
        forall|i: int|
            0 <= i < nodes ==> (#[trigger] v@[i])@ == (RequestView::CaptureDatasetSnapshot {
                snapshot_id: snapshot_id@,
                through_sequence,
            }),
{
    let mut v: Vec<Request> = Vec::new();
    let mut i: usize = 0;
    while i < nodes
        invariant
            i <= nodes,
            v@.len() == i,
            forall|k: int|
                0 <= k < i ==> (#[trigger] v@[k])@ == (RequestView::CaptureDatasetSnapshot {
                    snapshot_id: snapshot_id@,
                    through_sequence,
                }),
        decreases nodes - i,
    {
        v.push(
            Request::CaptureDatasetSnapshot {
                snapshot_id: String::from_str(snapshot_id),
                through_sequence,
            },
        );
        i = i + 1;
    }
    v
}

/// Judges the high-water marks that were read from a source before they are copied.
pub fn copy_hwm(read: Option<Vec<(u32, u64)>>) -> (r: Result<Vec<(u32, u64)>, Error>)
    ensures
        match r {
            Ok(marks) => read is Some && marks@.len() > 0
                && crate::topology::node::lanes_ascend(marks@)
                && crate::topology::node::lane_map(marks@) == crate::topology::node::lane_map(
                read->0@,
            ),
            Err(e) => if read is None {
                e@ == (ErrorKind::InvalidData, "source omitted HWM"@)
            } else {
                read->0@.len() == 0 && e@ == (ErrorKind::InvalidData, "source has no durable HWM"@)
            },
        },
{
    let marks: Vec<(u32, u64)> = match read {
        Some(list) => list,
        None => {
            return Err(invalid("source omitted HWM"));
        },
    };
    if marks.len() == 0 {
        return Err(invalid("source has no durable HWM"));
    }
    proof {
        let head = marks@.drop_last();
        assert(crate::topology::node::lane_map(marks@).dom().contains(marks@.last().0));
    }
    let nothing: Vec<(u32, u64)> = Vec::new();
    proof {
        assert(nothing@ =~= Seq::<(u32, u64)>::empty());
        assert(crate::topology::node::raised(
            crate::topology::node::lane_map(marks@),
            nothing@,
        ) == crate::topology::node::lane_map(marks@));
    }
    match crate::topology::node::merge_hwms(&marks, &nothing) {
        Ok(sorted) => {
            proof {
                if sorted@.len() == 0 {
                    assert(sorted@ =~= Seq::<(u32, u64)>::empty());
                    assert(crate::topology::node::lane_map(sorted@) == Map::<u32, u64>::empty());
                }
            }
            Ok(sorted)
        },
        Err(e) => Err(e),
    }
}

/// The high-water marks that both replicas start from, as pairs of lane and mark.
pub fn baseline() -> (marks: Vec<(u32, u64)>)
    ensures
        marks@ == seq![(0u32, 9000u64), (1u32, 8750u64), (2u32, 8500u64), (3u32, 8250u64)],
        crate::topology::node::lanes_ascend(marks@),
{
    let marks: Vec<(u32, u64)> = vec![(0, 9000), (1, 8750), (2, 8500), (3, 8250)];
    proof {
        assert(marks@ =~= seq![(0u32, 9000u64), (1u32, 8750u64), (2u32, 8500u64), (3u32, 8250u64)]);
    }
    marks
}

/// A mutation that gives a key a value.
pub open spec fn put(sequence: u64, key: Seq<char>, value: Seq<char>) -> MutationView {
    MutationView { sequence, key, value: Some(value) }
}

/// The mutations that the scenario applies, in order.
pub open spec fn script() -> Seq<MutationView> {
    seq![
        put(1, "account.balance"@, "100"@),
        put(2, "order.state"@, "open"@),
        put(3, "profile.tier"@, "gold"@),
        put(4, "snapshot.marker"@, "s0"@),
        put(5, "account.balance"@, "80"@),
        put(6, "order.state"@, "paid"@),
        put(7, "account.balance"@, "0"@),
        MutationView { sequence: 8, key: "order.state"@, value: None },
    ]
}

fn mutation(sequence: u64, key: &str, value: &str) -> (m: DatasetMutation)
    ensures
        m@ == put(sequence, key@, value@),
{
    DatasetMutation {
        sequence,
        key: String::from_str(key),
        value: Some(String::from_str(value)),
    }
}

/// The mutations of the script with sequence numbers `from` to `through`.
pub fn apply_dataset(from: u64, through: u64) -> (batch: Vec<DatasetMutation>)
    requires
        1 <= from <= through <= 8,
    ensures
        crate::topology::dataset::mutations_view(batch@) == script().subrange(
            from - 1,
            through as int,
        ),
{
    let mut batch: Vec<DatasetMutation> = Vec::new();
    let mut next: u64 = from;
    while next <= through
        invariant
            1 <= from <= next <= through + 1 <= 9,
            crate::topology::dataset::mutations_view(batch@) == script().subrange(
                from - 1,
                next - 1,
            ),
        decreases through + 1 - next,
    {
        let m: DatasetMutation = if next == 1 {
            mutation(1, "account.balance", "100")
        } else if next == 2 {
            mutation(2, "order.state", "open")
        } else if next == 3 {
            mutation(3, "profile.tier", "gold")
        } else if next == 4 {
            mutation(4, "snapshot.marker", "s0")
        } else if next == 5 {
            mutation(5, "account.balance", "80")
        } else if next == 6 {
            mutation(6, "order.state", "paid")
        } else if next == 7 {
            mutation(7, "account.balance", "0")
        } else {
            DatasetMutation { sequence: 8, key: String::from_str("order.state"), value: None }
        };
        let ghost before = batch@;
        batch.push(m);
        proof {
            assert(m@ == script()[next - 1]);
            assert(crate::topology::dataset::mutations_view(batch@)
                =~= crate::topology::dataset::mutations_view(before).push(m@));
            assert(script().subrange(from - 1, next as int) =~= script().subrange(
                from - 1,
                next - 1,
            ).push(m@));
        }
        next = next + 1;
    }
    batch
}

/// A replica of the data, and where it fails as one.
#[derive(Clone, Copy, Debug, PartialEq, Eq)]
pub struct Replica {
    pub replica_id: &'static str,
    pub failure_domain: &'static str,
}

/// What has to have a write before it counts as durable.
#[derive(Clone, Copy, Debug, PartialEq, Eq, Structural)]
pub struct Durability {
    pub distinct_failure_domains: u8,
    pub hop_witnesses: u8,
    pub leaf_witnesses: u8,
}

/// What the scenario demands of a write: two leaves that do not fail together.
pub fn durability() -> (d: Durability)
    ensures
        d == (Durability { distinct_failure_domains: 2, hop_witnesses: 0, leaf_witnesses: 2 }),
{
    Durability { distinct_failure_domains: 2, hop_witnesses: 0, leaf_witnesses: 2 }
}

/// The supervisors that vote on metadata.
pub open spec fn voter_names() -> Seq<&'static str> {
    seq!["supervisor-cold-c", "supervisor-repl-b", "supervisor-hot-c"]
}

/// The supervisors that vote on metadata.
pub fn voters() -> (names: Vec<&'static str>)
    ensures
        names@ == voter_names(),
{
    let mut names: Vec<&'static str> = Vec::new();
    names.push("supervisor-cold-c");
    names.push("supervisor-repl-b");
    names.push("supervisor-hot-c");
    names
}

/// The supervisors whose votes a lease is granted on: the first that make a quorum.
pub fn lease_voters() -> (names: Vec<&'static str>)
    ensures
        names@ == voter_names().subrange(0, quorum_size(voter_names().len()) as int),
{
    let mut names: Vec<&'static str> = Vec::new();
    names.push("supervisor-cold-c");
    names.push("supervisor-repl-b");
    proof {
        assert(names@ =~= voter_names().subrange(0, 2));
    }
    names
}

/// One command for the replicated metadata log.
#[derive(Clone, Copy, Debug)]
pub enum HaCommand {
    /// The group gets a new configuration with two leaf replicas, each in its own region.
    ConfigureGroup { epoch: u64, first: Replica, second: Replica },
    /// A leader gets a lease.
    GrantLease {
        leader_id: &'static str,
        term: u64,
        epoch: u64,
        issued_unix_nanos: u64,
        expires_unix_nanos: u64,
    },
    /// A leader publishes that two replicas are durable through a sequence number.
    PublishHwm {
        leader_id: &'static str,
        term: u64,
        epoch: u64,
        first: &'static str,
        second: &'static str,
        sequence: u64,
    },
    /// The published state gets a name.
    CaptureSnapshot {
        snapshot_id: &'static str,
        created_unix_nanos: u64,
        application_consistent: bool,
    },
    /// The published state becomes a recovery point above a snapshot.
    CaptureRecoveryPoint {
        recovery_point_id: &'static str,
        created_unix_nanos: u64,
        base_snapshot_id: &'static str,
        application_consistent: bool,
    },
}

/// Commands that are committed together.
#[derive(Clone, Copy, Debug)]
pub struct HaBatch {
    pub index: u64,
    pub term: u64,
    pub transaction_id: &'static str,
    pub first: HaCommand,
    pub second: Option<HaCommand>,
}

/// The batch that is committed at `index`, for an index from one to seven.
pub open spec fn planned(index: u64) -> HaBatch {
    if index == 1 {
        HaBatch {
            index: 1,
            term: 11,
            transaction_id: "configure-pitr-group",
            first: HaCommand::ConfigureGroup {
                epoch: 1,
                first: Replica { replica_id: "rep-a", failure_domain: "region-a" },
                second: Replica { replica_id: "rep-b", failure_domain: "region-b" },
            },
            second: Some(
                HaCommand::GrantLease {
                    leader_id: "node-a",
                    term: 11,
                    epoch: 1,
                    issued_unix_nanos: 1_000,
                    expires_unix_nanos: 10_000,
                },
            ),
        }
    } else if index == 2 {
        HaBatch {
            index: 2,
            term: 11,
            transaction_id: "publish-and-snapshot-s0",
            first: HaCommand::PublishHwm {
                leader_id: "node-a",
                term: 11,
                epoch: 1,
                first: "rep-a",
                second: "rep-b",
                sequence: 4,
            },
            second: Some(
                HaCommand::CaptureSnapshot {
                    snapshot_id: "snapshot-s0",
                    created_unix_nanos: 2_000,
                    application_consistent: true,
                },
            ),
        }
    } else if index == 3 {
        HaBatch {
            index: 3,
            term: 11,
            transaction_id: "publish-and-snapshot-s1",
            first: HaCommand::PublishHwm {
                leader_id: "node-a",
                term: 11,
                epoch: 1,
                first: "rep-a",
                second: "rep-b",
                sequence: 5,
            },
            second: Some(
                HaCommand::CaptureSnapshot {
                    snapshot_id: "snapshot-s1",
                    created_unix_nanos: 2_500,
                    application_consistent: true,
                },
            ),
        }
    } else if index == 4 {
        HaBatch {
            index: 4,
            term: 11,
            transaction_id: "publish-recovery-point-p0",
            first: HaCommand::PublishHwm {
                leader_id: "node-a",
                term: 11,
                epoch: 1,
                first: "rep-a",
                second: "rep-b",
                sequence: 6,
            },
            second: Some(
                HaCommand::CaptureRecoveryPoint {
                    recovery_point_id: "recovery-p0",
                    created_unix_nanos: 3_000,
                    base_snapshot_id: "snapshot-s0",
                    application_consistent: true,
                },
            ),
        }
    } else if index == 5 {
        HaBatch {
            index: 5,
            term: 11,
            transaction_id: "publish-recovery-point-p1",
            first: HaCommand::PublishHwm {
                leader_id: "node-a",
                term: 11,
                epoch: 1,
                first: "rep-a",
                second: "rep-b",
                sequence: 7,
            },
            second: Some(
                HaCommand::CaptureRecoveryPoint {
                    recovery_point_id: "recovery-p1",
                    created_unix_nanos: 3_500,
                    base_snapshot_id: "snapshot-s1",
                    application_consistent: true,
                },
            ),
        }
    } else if index == 6 {
        HaBatch {
            index: 6,
            term: 12,
            transaction_id: "reconfigure-recovered-replica",
            first: HaCommand::ConfigureGroup {
                epoch: 2,
                first: Replica { replica_id: "rep-b", failure_domain: "region-b" },
                second: Replica { replica_id: "rep-c-cold", failure_domain: "region-c" },
            },
            second: Some(
                HaCommand::GrantLease {
                    leader_id: "node-b",
                    term: 12,
                    epoch: 2,
                    issued_unix_nanos: 4_000,
                    expires_unix_nanos: 14_000,
                },
            ),
        }
    } else {
        HaBatch {
            index: 7,
            term: 12,
            transaction_id: "certify-recovered-replica",
            first: HaCommand::PublishHwm {
                leader_id: "node-b",
                term: 12,
                epoch: 2,
                first: "rep-b",
                second: "rep-c-cold",
                sequence: 6,
            },
            second: None,
        }
    }
}

/// Whether `command` is issued under the term and configuration epoch given.
pub open spec fn under(command: HaCommand, term: u64, epoch: u64) -> bool {
    match command {
        HaCommand::ConfigureGroup { epoch: e, .. } => e == epoch,
        HaCommand::GrantLease { term: t, epoch: e, .. } => t == term && e == epoch,
        HaCommand::PublishHwm { term: t, epoch: e, .. } => t == term && e == epoch,
        HaCommand::CaptureSnapshot { .. } => true,
        HaCommand::CaptureRecoveryPoint { .. } => true,
    }
}

/// The batch that the scenario commits at `index` of the metadata log.
pub fn ha_batch(index: u64) -> (batch: Option<HaBatch>)
    ensures
        batch == if 1 <= index <= 7 {
            Some(planned(index))
        } else {
            None
        },
{
    let batch: HaBatch = if index == 1 {
        HaBatch {
            index: 1,
            term: 11,
            transaction_id: "configure-pitr-group",
            first: HaCommand::ConfigureGroup {
                epoch: 1,
                first: Replica { replica_id: "rep-a", failure_domain: "region-a" },
                second: Replica { replica_id: "rep-b", failure_domain: "region-b" },
            },
            second: Some(
                HaCommand::GrantLease {
                    leader_id: "node-a",
                    term: 11,
                    epoch: 1,
                    issued_unix_nanos: 1_000,
                    expires_unix_nanos: 10_000,
                },
            ),
        }
    } else if index == 2 {
        HaBatch {
            index: 2,
            term: 11,
            transaction_id: "publish-and-snapshot-s0",
            first: HaCommand::PublishHwm {
                leader_id: "node-a",
                term: 11,
                epoch: 1,
                first: "rep-a",
                second: "rep-b",
                sequence: 4,
            },
            second: Some(
                HaCommand::CaptureSnapshot {
                    snapshot_id: "snapshot-s0",
                    created_unix_nanos: 2_000,
                    application_consistent: true,
                },
            ),
        }
    } else if index == 3 {
        HaBatch {
            index: 3,
            term: 11,
            transaction_id: "publish-and-snapshot-s1",
            first: HaCommand::PublishHwm {
                leader_id: "node-a",
                term: 11,
                epoch: 1,
                first: "rep-a",
                second: "rep-b",
                sequence: 5,
            },
            second: Some(
                HaCommand::CaptureSnapshot {
                    snapshot_id: "snapshot-s1",
                    created_unix_nanos: 2_500,
                    application_consistent: true,
                },
            ),
        }
    } else if index == 4 {
        HaBatch {
            index: 4,
            term: 11,
            transaction_id: "publish-recovery-point-p0",
            first: HaCommand::PublishHwm {
                leader_id: "node-a",
                term: 11,
                epoch: 1,
                first: "rep-a",
                second: "rep-b",
                sequence: 6,
            },
            second: Some(
                HaCommand::CaptureRecoveryPoint {
                    recovery_point_id: "recovery-p0",
                    created_unix_nanos: 3_000,
                    base_snapshot_id: "snapshot-s0",
                    application_consistent: true,
                },
            ),
        }
    } else if index == 5 {
        HaBatch {
            index: 5,
            term: 11,
            transaction_id: "publish-recovery-point-p1",
            first: HaCommand::PublishHwm {
                leader_id: "node-a",
                term: 11,
                epoch: 1,
                first: "rep-a",
                second: "rep-b",
                sequence: 7,
            },
            second: Some(
                HaCommand::CaptureRecoveryPoint {
                    recovery_point_id: "recovery-p1",
                    created_unix_nanos: 3_500,
                    base_snapshot_id: "snapshot-s1",
                    application_consistent: true,
                },
            ),
        }
    } else if index == 6 {
        HaBatch {
            index: 6,
            term: 12,
            transaction_id: "reconfigure-recovered-replica",
            first: HaCommand::ConfigureGroup {
                epoch: 2,
                first: Replica { replica_id: "rep-b", failure_domain: "region-b" },
                second: Replica { replica_id: "rep-c-cold", failure_domain: "region-c" },
            },
            second: Some(
                HaCommand::GrantLease {
                    leader_id: "node-b",
                    term: 12,
                    epoch: 2,
                    issued_unix_nanos: 4_000,
                    expires_unix_nanos: 14_000,
                },
            ),
        }
    } else if index == 7 {
        HaBatch {
            index: 7,
            term: 12,
            transaction_id: "certify-recovered-replica",
            first: HaCommand::PublishHwm {
                leader_id: "node-b",
                term: 12,
                epoch: 2,
                first: "rep-b",
                second: "rep-c-cold",
                sequence: 6,
            },
            second: None,
        }
    } else {
        return None;
    };
    Some(batch)
}

/// Batches are committed in the order of their index, under terms that never go back; every
/// command of a batch is issued under the batch's term and under the configuration that the last
/// configuring batch has set.
pub proof fn law_batches_are_ordered(a: u64, b: u64)
    requires
        1 <= a < b <= 7,
    ensures
        planned(a).index == a,
        planned(a).term <= planned(b).term,
        under(planned(b).first, planned(b).term, if b < 6 { 1 } else { 2 }),
        planned(b).second is Some ==> under(
            planned(b).second->0,
            planned(b).term,
            if b < 6 { 1 } else { 2 },
        ),
{
}

/// The nodes of the scenario.
#[derive(Clone, Copy, Debug, PartialEq, Eq, Structural)]
pub enum Node {
    /// The hot replica that the volume starts with.
    A,
    /// The cold replica that the volume starts with.
    B,
    ColdC,
    ReplacementB,
    HotC,
}

/// What is waited for.
#[derive(Clone, Copy, Debug, PartialEq, Eq, Structural)]
pub enum Condition {
    QuorumLost,
    QuorumBack,
    NodeLost { node: Node },
    NodeAndQuorumLost { node: Node },
    NodeAndQuorumBack { node: Node },
}

/// The node whose state a condition speaks of.
pub open spec fn node_in(until: Condition) -> Option<Node> {
    match until {
        Condition::QuorumLost | Condition::QuorumBack => None,
        Condition::NodeLost { node } => Some(node),
        Condition::NodeAndQuorumLost { node } => Some(node),
        Condition::NodeAndQuorumBack { node } => Some(node),
    }
}

/// The node that has to be asked for a condition, if one has to.
pub fn condition_node(until: Condition) -> (node: Option<Node>)
    ensures
        node == node_in(until),
{
    match until {
        Condition::QuorumLost => None,
        Condition::QuorumBack => None,
        Condition::NodeLost { node } => Some(node),
        Condition::NodeAndQuorumLost { node } => Some(node),
        Condition::NodeAndQuorumBack { node } => Some(node),
    }
}

/// Whether a condition holds, by what its node and the supervisors answered.
pub open spec fn met(until: Condition, node_alive: bool, quorum: bool) -> bool {
    match until {
        Condition::QuorumLost => !quorum,
        Condition::QuorumBack => quorum,
        Condition::NodeLost { .. } => !node_alive,
        Condition::NodeAndQuorumLost { .. } => !node_alive && !quorum,
        Condition::NodeAndQuorumBack { .. } => node_alive && quorum,
    }
}

/// Whether the supervisors have to be asked for a condition, once its node has answered or not.
pub fn condition_asks_quorum(until: Condition, node_alive: bool) -> (yes: bool)
    ensures
        yes == (met(until, node_alive, true) != met(until, node_alive, false)),
{
    match until {
        Condition::QuorumLost => true,
        Condition::QuorumBack => true,
        Condition::NodeLost { .. } => false,
        Condition::NodeAndQuorumLost { .. } => !node_alive,
        Condition::NodeAndQuorumBack { .. } => node_alive,
    }
}

/// Whether a condition holds.
pub fn condition_met(until: Condition, node_alive: bool, quorum: bool) -> (yes: bool)
    ensures
        yes == met(until, node_alive, quorum),
{
    match until {
        Condition::QuorumLost => !quorum,
        Condition::QuorumBack => quorum,
        Condition::NodeLost { .. } => !node_alive,
        Condition::NodeAndQuorumLost { .. } => !node_alive && !quorum,
        Condition::NodeAndQuorumBack { .. } => node_alive && quorum,
    }
}

/// What is judged on the way.
#[derive(Clone, Copy, Debug, PartialEq, Eq, Structural)]
pub enum Check {
    QuorumLoss,
    WalFloor,
    PinnedDelete,
    RegionFailure,
    CoverageLost,
    OverlapFailure,
    FirstRecovery,
    SecondRecovery,
    FinalTopology,
    ControllerReplay,
    MetadataReplay,
}

/// A step of the scenario. A step that asks for something fails with the answer's failure; one that tries
/// something hands what came of it to the next check; a poll ends when its condition holds, or after 100
/// looks that lie 50 milliseconds apart.
#[derive(Clone, Copy, Debug)]
pub enum Step {
    /// Have a node tell its state.
    Probe { node: Node },
    /// Have a node take the high-water marks that both replicas start from.
    Replicate { node: Node },
    /// Open the controller's log under a term, and the metadata log.
    Open { term: u64 },
    /// Print a line.
    Say { line: &'static str },
    Poll { until: Condition },
    /// Try to change a node's tier, if the supervisors have a quorum.
    TryTier { transaction: &'static str, node: Node, tier: &'static str, cost_class: u64 },
    /// Try to commit a batch, if the supervisors have a quorum.
    TryCommit { index: u64 },
    Judge { check: Check },
    RequireQuorum,
    RequireNode { node: Node },
    /// Commit a batch under a quorum.
    Commit { index: u64 },
    /// Place the volume on its first two replicas, which must lie in two regions.
    Bootstrap { transaction: &'static str },
    /// Verify that the durability obligation is covered.
    Cover,
    /// Apply a part of the script on both replicas.
    Apply { from: u64, through: u64 },
    /// Have both replicas take a snapshot.
    Snapshot { snapshot_id: &'static str, through: u64 },
    /// Try to delete a snapshot.
    TryDelete { index: u64, term: u64, transaction: &'static str, snapshot_id: &'static str },
    /// Ask for the loss of a node.
    AskRegionFailure { node: Node },
    MarkUnavailable { transaction: &'static str, node: Node },
    /// Ask for the loss of a node and of two supervisors.
    AskOverlapFailure { node: Node },
    /// Try to export what a recovery needs.
    TryExport { node: Node, snapshot_id: &'static str, through: u64 },
    /// Try to commit a recovery point, if the supervisors have a quorum.
    TryPoint {
        index: u64,
        term: u64,
        transaction: &'static str,
        recovery_point_id: &'static str,
        created_unix_nanos: u64,
        base_snapshot_id: &'static str,
        application_consistent: bool,
    },
    /// Export what a recovery needs from one node, restore it on another and read it there again.
    Recover { source: Node, target: Node, snapshot_id: &'static str, through: u64 },
    /// Print that the first recovery succeeded, with its digest.
    SayRecovered,
    /// Stage a replica on a node, from another replica.
    Stage { transaction: &'static str, from: &'static str, replica_id: &'static str, node: Node },
    /// Copy the high-water marks of one node to another.
    Copy { source: Node, target: Node },
    /// Activate the replica that was staged last, with the marks that were copied.
    Activate { transaction: &'static str },
    Release { transaction: &'static str, replica_id: &'static str },
    Retire { transaction: &'static str, replica_id: &'static str },
    /// Tell a node its tier.
    TellTier { node: Node, tier: &'static str, cost_class: u64 },
    /// Change a node's tier.
    Tier { transaction: &'static str, node: Node, tier: &'static str, cost_class: u64 },
    /// Close both logs and open the controller's again, under a term.
    Reopen { term: u64 },
    /// Print that the controller came back as it was, with its epoch.
    SayReplayed,
    /// Open the metadata log again.
    ReopenMetadata,
    /// Ask a node to stop; whether it answers does not matter.
    Shutdown { node: Node },
    /// Print that the scenario passed, with the controller's epoch.
    SayComplete,
}

/// What was observed for a check.
#[derive(Debug)]
pub enum Seen {
    /// Commits were tried that must be refused.
    Refusals {
        topology_committed: bool,
        metadata_committed: bool,
        recovery_exported: bool,
        topology_unchanged: bool,
        metadata_unchanged: bool,
        revision: u64,
    },
    /// A condition was polled or tested.
    Holds(bool),
    /// The retention floor of the log.
    Floor(Option<u64>),
    /// A branch was restored and read again; `other_digest` is the digest of the branch that was
    /// restored before it, empty for the first.
    Branch { bundle: RecoveryBundle, restored: DatasetView, reread: DatasetView, other_digest: String },
    /// What is known of the tier and the cost of the replacement node, what the node said its cost is,
    /// and which custody leases are active.
    Facts { tier: Option<String>, cost_class: Option<u64>, node_cost: u64, leases: Vec<bool> },
    /// The cuts of the first and second snapshot and recovery point after a replay.
    Cuts { unchanged: bool, s0: u64, p0: u64, s1: u64, p1: u64 },
}

/// Whether a commit to the metadata that was tried has been refused, and the metadata have not changed.
pub open spec fn metadata_kept(seen: Seen, revision: u64) -> bool {
    match seen {
        Seen::Refusals { metadata_committed, metadata_unchanged, revision: r, .. } =>
            !metadata_committed && metadata_unchanged && r == revision,
        _ => false,
    }
}

/// Whether a commit to the topology that was tried has been refused, and the topology has not changed.
pub open spec fn topology_kept(seen: Seen) -> bool {
    match seen {
        Seen::Refusals { topology_committed, topology_unchanged, .. } => !topology_committed
            && topology_unchanged,
        _ => false,
    }
}

/// Whether a recovery that was asked for has been refused.
pub open spec fn export_refused(seen: Seen) -> bool {
    match seen {
        Seen::Refusals { recovery_exported, .. } => !recovery_exported,
        _ => false,
    }
}

/// Whether a branch came back as `sequence` with the balance and order state given, and agrees with
/// its bundle.
pub open spec fn branch_matches(
    seen: Seen,
    sequence: u64,
    balance: Seq<char>,
    order: Seq<char>,
) -> bool {
    match seen {
        Seen::Branch { bundle, restored, reread, .. } => {
            let v = restored.values@;
            &&& restored.sequence == reread.sequence
            &&& v == reread.values@
            &&& restored.digest@ == reread.digest@
            &&& restored.sequence == sequence
            &&& restored.digest@ == bundle.expected_digest@
            &&& v == bundle.expected_values@
            &&& v.dom().contains("account.balance"@) && v["account.balance"@] == balance
            &&& v.dom().contains("order.state"@) && v["order.state"@] == order
        },
        _ => false,
    }
}

/// Whether the digest of a branch is not that of the branch that was restored before it.
pub open spec fn branch_differs(seen: Seen) -> bool {
    match seen {
        Seen::Branch { restored, other_digest, .. } => restored.digest@ != other_digest@,
        _ => false,
    }
}

/// Whether the replacement node is known to be warm at the cost that it names, and two leases are
/// active.
pub open spec fn reduced_to_warm(seen: Seen) -> bool {
    match seen {
        Seen::Facts { tier, cost_class, node_cost, leases } => {
            &&& tier is Some && tier->0@ == "warm"@
            &&& cost_class == Some(node_cost)
            &&& count_true(leases@) == 2
        },
        _ => false,
    }
}

/// Whether what was `seen` passes a check.
pub open spec fn passes(check: Check, seen: Seen) -> bool {
    match check {
        Check::QuorumLoss => topology_kept(seen) && metadata_kept(seen, 0),
        Check::WalFloor => seen matches Seen::Floor(Some(4)),
        Check::PinnedDelete => metadata_kept(seen, 5),
        Check::RegionFailure | Check::ControllerReplay => seen matches Seen::Holds(true),
        Check::CoverageLost => seen matches Seen::Holds(false),
        Check::OverlapFailure => export_refused(seen) && topology_kept(seen) && metadata_kept(
            seen,
            5,
        ),
        Check::FirstRecovery => branch_matches(seen, 6, "80"@, "paid"@),
        Check::SecondRecovery => branch_matches(seen, 7, "0"@, "paid"@) && branch_differs(seen),
        Check::FinalTopology => reduced_to_warm(seen),
        Check::MetadataReplay => seen matches Seen::Cuts {
            unchanged: true,
            s0: 4,
            p0: 6,
            s1: 5,
            p1: 7,
        },
    }
}

/// The message with which the scenario fails at a check.
pub open spec fn failure(check: Check) -> Seq<char> {
    match check {
        Check::QuorumLoss => "supervisor quorum loss did not fail atomically"@,
        Check::WalFloor => "snapshot/recovery point did not pin the WAL floor"@,
        Check::PinnedDelete => "overlapping recovery pins allowed snapshot deletion"@,
        Check::RegionFailure => "region-a failure was not injected"@,
        Check::CoverageLost => "unavailable region remained a durability witness"@,
        Check::OverlapFailure => "overlapping supervisor/data loss did not fail atomically"@,
        Check::FirstRecovery => "PITR restored data does not match recovery point p0"@,
        Check::SecondRecovery => "overlapping PITR branch did not restore independently"@,
        Check::FinalTopology => "final topology does not match cost-reduced policy"@,
        Check::ControllerReplay => "controller replay mismatch"@,
        Check::MetadataReplay => "HA PITR metadata replay mismatch"@,
    }
}

fn failure_of(check: Check) -> (e: Error)
    ensures
        e@ == (ErrorKind::InvalidData, failure(check)),
{
    match check {
        Check::QuorumLoss => invalid("supervisor quorum loss did not fail atomically"),
        Check::WalFloor => invalid("snapshot/recovery point did not pin the WAL floor"),
        Check::PinnedDelete => invalid("overlapping recovery pins allowed snapshot deletion"),
        Check::RegionFailure => invalid("region-a failure was not injected"),
        Check::CoverageLost => invalid("unavailable region remained a durability witness"),
        Check::OverlapFailure => invalid("overlapping supervisor/data loss did not fail atomically"),
        Check::FirstRecovery => invalid("PITR restored data does not match recovery point p0"),
        Check::SecondRecovery => invalid("overlapping PITR branch did not restore independently"),
        Check::FinalTopology => invalid("final topology does not match cost-reduced policy"),
        Check::ControllerReplay => invalid("controller replay mismatch"),
        Check::MetadataReplay => invalid("HA PITR metadata replay mismatch"),
    }
}

fn keeps_metadata(seen: &Seen, revision: u64) -> (yes: bool)
    ensures
        yes == metadata_kept(*seen, revision),
{
    match seen {
        Seen::Refusals { metadata_committed, metadata_unchanged, revision: r, .. } =>
            !*metadata_committed && *metadata_unchanged && *r == revision,
        _ => false,
    }
}

fn keeps_topology(seen: &Seen) -> (yes: bool)
    ensures
        yes == topology_kept(*seen),
{
    match seen {
        Seen::Refusals { topology_committed, topology_unchanged, .. } => !*topology_committed
            && *topology_unchanged,
        _ => false,
    }
}

fn refuses_export(seen: &Seen) -> (yes: bool)
    ensures
        yes == export_refused(*seen),
{
    match seen {
        Seen::Refusals { recovery_exported, .. } => !*recovery_exported,
        _ => false,
    }
}

fn value_is(values: &TextMap<String>, key: &str, expected: &str) -> (yes: bool)
    ensures
        yes == (values@.dom().contains(key@) && values@[key@] == expected@),
{
    match values.get(key) {
        Some(v) => str_eq(v.as_str(), expected),
        None => false,
    }
}

fn branch_agrees(seen: &Seen, sequence: u64, balance: &str, order: &str) -> (yes: bool)
    ensures
        yes == branch_matches(*seen, sequence, balance@, order@),
{
    match seen {
        Seen::Branch { bundle, restored, reread, .. } => restored.same(reread)
            && restored.sequence == sequence && str_eq(
            restored.digest.as_str(),
            bundle.expected_digest.as_str(),
        ) && restored.values.same(&bundle.expected_values) && value_is(
            &restored.values,
            "account.balance",
            balance,
        ) && value_is(&restored.values, "order.state", order),
        _ => false,
    }
}

fn branch_stands_apart(seen: &Seen) -> (yes: bool)
    ensures
        yes == branch_differs(*seen),
{
    match seen {
        Seen::Branch { restored, other_digest, .. } => !str_eq(
            restored.digest.as_str(),
            other_digest.as_str(),
        ),
        _ => false,
    }
}

fn is_reduced(seen: &Seen) -> (yes: bool)
    ensures
        yes == reduced_to_warm(*seen),
{
    match seen {
        Seen::Facts { tier, cost_class, node_cost, leases } => {
            let warm: bool = match tier {
                Some(tier) => str_eq(tier.as_str(), "warm"),
                None => false,
            };
            let priced: bool = match cost_class {
                Some(cost) => *cost == *node_cost,
                None => false,
            };
            warm && priced && count_of(leases.as_slice()) == 2
        },
        _ => false,
    }
}

/// Judges what was seen.
pub fn judge(check: Check, seen: &Seen) -> (r: Result<(), Error>)
    ensures
        match r {
            Ok(_) => passes(check, *seen),
            Err(e) => !passes(check, *seen) && e@ == (ErrorKind::InvalidData, failure(check)),
        },
{
    let holds: bool = matches!(seen, Seen::Holds(true));
    let good: bool = match check {
        Check::QuorumLoss => keeps_topology(seen) && keeps_metadata(seen, 0),
        Check::WalFloor => matches!(seen, Seen::Floor(Some(4))),
        Check::PinnedDelete => keeps_metadata(seen, 5),
        Check::RegionFailure => holds,
        Check::CoverageLost => matches!(seen, Seen::Holds(false)),
        Check::OverlapFailure => refuses_export(seen) && keeps_topology(seen) && keeps_metadata(
            seen,
            5,
        ),
        Check::FirstRecovery => branch_agrees(seen, 6, "80", "paid"),
        Check::SecondRecovery => branch_agrees(seen, 7, "0", "paid") && branch_stands_apart(seen),
        Check::FinalTopology => is_reduced(seen),
        Check::ControllerReplay => holds,
        Check::MetadataReplay => matches!(
            seen,
            Seen::Cuts { unchanged: true, s0: 4, p0: 6, s1: 5, p1: 7 }
        ),
    };
    if good {
        Ok(())
    } else {
        Err(failure_of(check))
    }
}

/// How many steps the scenario has.
pub const STEPS: u64 = 103;

/// The step at a place; nothing behind the last.
pub open spec fn step_at(at: u64) -> Option<Step> {
    if at < 103 {
        Some(step_within(at))
    } else {
        None
    }
}

/// The step at a place before the end.
pub open spec fn step_within(at: u64) -> Step {
    if at == 0 {
        Step::Probe { node: Node::A }
    } else if at == 1 {
        Step::Probe { node: Node::B }
    } else if at == 2 {
        Step::Probe { node: Node::ColdC }
    } else if at == 3 {
        Step::Probe { node: Node::ReplacementB }
    } else if at == 4 {
        Step::Probe { node: Node::HotC }
    } else if at == 5 {
        Step::Replicate { node: Node::A }
    } else if at == 6 {
        Step::Replicate { node: Node::B }
    } else if at == 7 {
        Step::Open { term: 11 }
    } else if at == 8 {
        Step::Say { line: "EVOLUTION_REQUEST_SUPERVISOR_QUORUM_LOSS phase=isolated" }
    } else if at == 9 {
        Step::Poll { until: Condition::QuorumLost }
    } else if at == 10 {
        Step::TryTier {
            transaction: "must-not-commit",
            node: Node::A,
            tier: "warm",
            cost_class: 4,
        }
    } else if at == 11 {
        Step::TryCommit { index: 1 }
    } else if at == 12 {
        Step::Judge { check: Check::QuorumLoss }
    } else if at == 13 {
        Step::Say {
            line: "EVOLUTION_PHASE_PASS phase=supervisor-quorum-loss committed=false topology_unchanged=true ha_unchanged=true",
        }
    } else if at == 14 {
        Step::Say { line: "EVOLUTION_REQUEST_SUPERVISOR_QUORUM_RESTORE phase=isolated" }
    } else if at == 15 {
        Step::Poll { until: Condition::QuorumBack }
    } else if at == 16 {
        Step::RequireQuorum
    } else if at == 17 {
        Step::Commit { index: 1 }
    } else if at == 18 {
        Step::Bootstrap { transaction: "bootstrap-hot-a-cold-b" }
    } else if at == 19 {
        Step::Cover
    } else if at == 20 {
        Step::Say {
            line: "EVOLUTION_PHASE_PASS phase=bootstrap policy=steady-state copies=2 regions=2",
        }
    } else if at == 21 {
        Step::Apply { from: 1, through: 4 }
    } else if at == 22 {
        Step::Snapshot { snapshot_id: "snapshot-s0", through: 4 }
    } else if at == 23 {
        Step::Commit { index: 2 }
    } else if at == 24 {
        Step::Say {
            line: "EVOLUTION_PHASE_PASS phase=pitr-snapshot cut=4 replicas=2 application_consistent=true",
        }
    } else if at == 25 {
        Step::Apply { from: 5, through: 5 }
    } else if at == 26 {
        Step::Snapshot { snapshot_id: "snapshot-s1", through: 5 }
    } else if at == 27 {
        Step::Commit { index: 3 }
    } else if at == 28 {
        Step::Apply { from: 6, through: 6 }
    } else if at == 29 {
        Step::Commit { index: 4 }
    } else if at == 30 {
        Step::Apply { from: 7, through: 7 }
    } else if at == 31 {
        Step::Commit { index: 5 }
    } else if at == 32 {
        Step::Apply { from: 8, through: 8 }
    } else if at == 33 {
        Step::Judge { check: Check::WalFloor }
    } else if at == 34 {
        Step::TryDelete {
            index: 6,
            term: 11,
            transaction: "pinned-snapshot-delete-must-fail",
            snapshot_id: "snapshot-s0",
        }
    } else if at == 35 {
        Step::Judge { check: Check::PinnedDelete }
    } else if at == 36 {
        Step::Say {
            line: "EVOLUTION_PHASE_PASS phase=pitr-overlapping-snapshots intervals=s0:4-6,s1:5-7 shared=5-6 retention_floor=4 pinned_delete_rejected=true post_point_sequence=8",
        }
    } else if at == 37 {
        Step::AskRegionFailure { node: Node::A }
    } else if at == 38 {
        Step::Poll { until: Condition::NodeLost { node: Node::A } }
    } else if at == 39 {
        Step::Judge { check: Check::RegionFailure }
    } else if at == 40 {
        Step::MarkUnavailable { transaction: "observe-region-a-failure", node: Node::A }
    } else if at == 41 {
        Step::Judge { check: Check::CoverageLost }
    } else if at == 42 {
        Step::Say {
            line: "EVOLUTION_PHASE_PASS phase=data-layer-loss policy=reactive-dr durability_quorum=false fail_closed=true",
        }
    } else if at == 43 {
        Step::AskOverlapFailure { node: Node::B }
    } else if at == 44 {
        Step::Poll { until: Condition::NodeAndQuorumLost { node: Node::B } }
    } else if at == 45 {
        Step::TryExport { node: Node::B, snapshot_id: "snapshot-s0", through: 6 }
    } else if at == 46 {
        Step::TryTier {
            transaction: "overlap-must-not-commit",
            node: Node::B,
            tier: "hot",
            cost_class: 9,
        }
    } else if at == 47 {
        Step::TryPoint {
            index: 6,
            term: 11,
            transaction: "overlap-must-not-commit",
            recovery_point_id: "must-not-exist",
            created_unix_nanos: 3_500,
            base_snapshot_id: "snapshot-s0",
            application_consistent: false,
        }
    } else if at == 48 {
        Step::Judge { check: Check::OverlapFailure }
    } else if at == 49 {
        Step::Say {
            line: "EVOLUTION_PHASE_PASS phase=overlap-failure supervisor_quorum=false data_sources=0 recovery_rejected=true commits=0",
        }
    } else if at == 50 {
        Step::Say { line: "EVOLUTION_REQUEST_OVERLAP_RESTORE" }
    } else if at == 51 {
        Step::Poll { until: Condition::NodeAndQuorumBack { node: Node::B } }
    } else if at == 52 {
        Step::RequireNode { node: Node::B }
    } else if at == 53 {
        Step::RequireQuorum
    } else if at == 54 {
        Step::Recover {
            source: Node::B,
            target: Node::ColdC,
            snapshot_id: "snapshot-s0",
            through: 6,
        }
    } else if at == 55 {
        Step::Judge { check: Check::FirstRecovery }
    } else if at == 56 {
        Step::SayRecovered
    } else if at == 57 {
        Step::Recover {
            source: Node::B,
            target: Node::HotC,
            snapshot_id: "snapshot-s1",
            through: 7,
        }
    } else if at == 58 {
        Step::Judge { check: Check::SecondRecovery }
    } else if at == 59 {
        Step::Say {
            line: "EVOLUTION_PHASE_PASS phase=pitr-overlapping-recovery branches=p0:6,p1:7 targets=node-c-cold,node-c-hot shared_wal=5-6 digests_distinct=true excluded_sequence=8",
        }
    } else if at == 60 {
        Step::Stage {
            transaction: "stage-cold-dr-c",
            from: "rep-b",
            replica_id: "rep-c-cold",
            node: Node::ColdC,
        }
    } else if at == 61 {
        Step::Copy { source: Node::B, target: Node::ColdC }
    } else if at == 62 {
        Step::Activate { transaction: "activate-cold-dr-c" }
    } else if at == 63 {
        Step::Cover
    } else if at == 64 {
        Step::Release { transaction: "release-failed-a", replica_id: "rep-a" }
    } else if at == 65 {
        Step::Retire { transaction: "retire-failed-a", replica_id: "rep-a" }
    } else if at == 66 {
        Step::Commit { index: 6 }
    } else if at == 67 {
        Step::Commit { index: 7 }
    } else if at == 68 {
        Step::Say {
            line: "EVOLUTION_PHASE_PASS phase=pitr-custody-activation sequence=6 data_domains=2 metadata_term=12 config_epoch=2",
        }
    } else if at == 69 {
        Step::Say {
            line: "EVOLUTION_PHASE_PASS phase=grow-cold-dr policy=reactive-dr regions=2",
        }
    } else if at == 70 {
        Step::TellTier { node: Node::B, tier: "hot", cost_class: 9 }
    } else if at == 71 {
        Step::Tier {
            transaction: "promote-region-b-hot",
            node: Node::B,
            tier: "hot",
            cost_class: 9,
        }
    } else if at == 72 {
        Step::Stage {
            transaction: "stage-hot-c",
            from: "rep-c-cold",
            replica_id: "rep-c-hot",
            node: Node::HotC,
        }
    } else if at == 73 {
        Step::Copy { source: Node::ColdC, target: Node::HotC }
    } else if at == 74 {
        Step::Activate { transaction: "activate-hot-c" }
    } else if at == 75 {
        Step::Release { transaction: "release-cold-c", replica_id: "rep-c-cold" }
    } else if at == 76 {
        Step::Retire { transaction: "retire-cold-c", replica_id: "rep-c-cold" }
    } else if at == 77 {
        Step::Say {
            line: "EVOLUTION_PHASE_PASS phase=promote-hot policy=latency-promoter hot_regions=2",
        }
    } else if at == 78 {
        Step::Stage {
            transaction: "stage-replacement-b",
            from: "rep-b",
            replica_id: "rep-b-warm",
            node: Node::ReplacementB,
        }
    } else if at == 79 {
        Step::Copy { source: Node::B, target: Node::ReplacementB }
    } else if at == 80 {
        Step::Activate { transaction: "activate-replacement-b" }
    } else if at == 81 {
        Step::Release { transaction: "release-expensive-b", replica_id: "rep-b" }
    } else if at == 82 {
        Step::Retire { transaction: "retire-expensive-b", replica_id: "rep-b" }
    } else if at == 83 {
        Step::Say {
            line: "EVOLUTION_PHASE_PASS phase=replace-replica policy=repair-controller old_removed=true",
        }
    } else if at == 84 {
        Step::Stage {
            transaction: "restage-cold-c",
            from: "rep-c-hot",
            replica_id: "rep-c-cold-2",
            node: Node::ColdC,
        }
    } else if at == 85 {
        Step::Copy { source: Node::HotC, target: Node::ColdC }
    } else if at == 86 {
        Step::Activate { transaction: "activate-cold-c-2" }
    } else if at == 87 {
        Step::Release { transaction: "release-expensive-c", replica_id: "rep-c-hot" }
    } else if at == 88 {
        Step::Retire { transaction: "retire-expensive-c", replica_id: "rep-c-hot" }
    } else if at == 89 {
        Step::Cover
    } else if at == 90 {
        Step::Say {
            line: "EVOLUTION_PHASE_PASS phase=collapse-expensive policy=cost-reducer copies=2 regions=2",
        }
    } else if at == 91 {
        Step::Judge { check: Check::FinalTopology }
    } else if at == 92 {
        Step::Reopen { term: 12 }
    } else if at == 93 {
        Step::Judge { check: Check::ControllerReplay }
    } else if at == 94 {
        Step::SayReplayed
    } else if at == 95 {
        Step::ReopenMetadata
    } else if at == 96 {
        Step::Judge { check: Check::MetadataReplay }
    } else if at == 97 {
        Step::Say {
            line: "EVOLUTION_PHASE_PASS phase=pitr-metadata-replay snapshot_cuts=4,5 recovery_cuts=6,7 overlap=5-6 exact=true",
        }
    } else if at == 98 {
        Step::Shutdown { node: Node::B }
    } else if at == 99 {
        Step::Shutdown { node: Node::ColdC }
    } else if at == 100 {
        Step::Shutdown { node: Node::ReplacementB }
    } else if at == 101 {
        Step::Shutdown { node: Node::HotC }
    } else {
        Step::SayComplete
    }
}

/// The step at a place; nothing behind the last.
pub fn plan(at: u64) -> (step: Option<Step>)
    ensures
        step == step_at(at),
{
    if at >= STEPS {
        return None;
    }
    let step: Step = match at {
        0 => Step::Probe { node: Node::A },
        1 => Step::Probe { node: Node::B },
        2 => Step::Probe { node: Node::ColdC },
        3 => Step::Probe { node: Node::ReplacementB },
        4 => Step::Probe { node: Node::HotC },
        5 => Step::Replicate { node: Node::A },
        6 => Step::Replicate { node: Node::B },
        7 => Step::Open { term: 11 },
        8 => Step::Say { line: "EVOLUTION_REQUEST_SUPERVISOR_QUORUM_LOSS phase=isolated" },
        9 => Step::Poll { until: Condition::QuorumLost },
        10 => Step::TryTier {
            transaction: "must-not-commit",
            node: Node::A,
            tier: "warm",
            cost_class: 4,
        },
        11 => Step::TryCommit { index: 1 },
        12 => Step::Judge { check: Check::QuorumLoss },
        13 => Step::Say {
            line: "EVOLUTION_PHASE_PASS phase=supervisor-quorum-loss committed=false topology_unchanged=true ha_unchanged=true",
        },
        14 => Step::Say { line: "EVOLUTION_REQUEST_SUPERVISOR_QUORUM_RESTORE phase=isolated" },
        15 => Step::Poll { until: Condition::QuorumBack },
        16 => Step::RequireQuorum,
        17 => Step::Commit { index: 1 },
        18 => Step::Bootstrap { transaction: "bootstrap-hot-a-cold-b" },
        19 => Step::Cover,
        20 => Step::Say {
            line: "EVOLUTION_PHASE_PASS phase=bootstrap policy=steady-state copies=2 regions=2",
        },
        21 => Step::Apply { from: 1, through: 4 },
        22 => Step::Snapshot { snapshot_id: "snapshot-s0", through: 4 },
        23 => Step::Commit { index: 2 },
        24 => Step::Say {
            line: "EVOLUTION_PHASE_PASS phase=pitr-snapshot cut=4 replicas=2 application_consistent=true",
        },
        25 => Step::Apply { from: 5, through: 5 },
        26 => Step::Snapshot { snapshot_id: "snapshot-s1", through: 5 },
        27 => Step::Commit { index: 3 },
        28 => Step::Apply { from: 6, through: 6 },
        29 => Step::Commit { index: 4 },
        30 => Step::Apply { from: 7, through: 7 },
        31 => Step::Commit { index: 5 },
        32 => Step::Apply { from: 8, through: 8 },
        33 => Step::Judge { check: Check::WalFloor },
        34 => Step::TryDelete {
            index: 6,
            term: 11,
            transaction: "pinned-snapshot-delete-must-fail",
            snapshot_id: "snapshot-s0",
        },
        35 => Step::Judge { check: Check::PinnedDelete },
        36 => Step::Say {
            line: "EVOLUTION_PHASE_PASS phase=pitr-overlapping-snapshots intervals=s0:4-6,s1:5-7 shared=5-6 retention_floor=4 pinned_delete_rejected=true post_point_sequence=8",
        },
        37 => Step::AskRegionFailure { node: Node::A },
        38 => Step::Poll { until: Condition::NodeLost { node: Node::A } },
        39 => Step::Judge { check: Check::RegionFailure },
        40 => Step::MarkUnavailable { transaction: "observe-region-a-failure", node: Node::A },
        41 => Step::Judge { check: Check::CoverageLost },
        42 => Step::Say {
            line: "EVOLUTION_PHASE_PASS phase=data-layer-loss policy=reactive-dr durability_quorum=false fail_closed=true",
        },
        43 => Step::AskOverlapFailure { node: Node::B },
        44 => Step::Poll { until: Condition::NodeAndQuorumLost { node: Node::B } },
        45 => Step::TryExport { node: Node::B, snapshot_id: "snapshot-s0", through: 6 },
        46 => Step::TryTier {
            transaction: "overlap-must-not-commit",
            node: Node::B,
            tier: "hot",
            cost_class: 9,
        },
        47 => Step::TryPoint {
            index: 6,
            term: 11,
            transaction: "overlap-must-not-commit",
            recovery_point_id: "must-not-exist",
            created_unix_nanos: 3_500,
            base_snapshot_id: "snapshot-s0",
            application_consistent: false,
        },
        48 => Step::Judge { check: Check::OverlapFailure },
        49 => Step::Say {
            line: "EVOLUTION_PHASE_PASS phase=overlap-failure supervisor_quorum=false data_sources=0 recovery_rejected=true commits=0",
        },
        50 => Step::Say { line: "EVOLUTION_REQUEST_OVERLAP_RESTORE" },
        51 => Step::Poll { until: Condition::NodeAndQuorumBack { node: Node::B } },
        52 => Step::RequireNode { node: Node::B },
        53 => Step::RequireQuorum,
        54 => Step::Recover {
            source: Node::B,
            target: Node::ColdC,
            snapshot_id: "snapshot-s0",
            through: 6,
        },
        55 => Step::Judge { check: Check::FirstRecovery },
        56 => Step::SayRecovered,
        57 => Step::Recover {
            source: Node::B,
            target: Node::HotC,
            snapshot_id: "snapshot-s1",
            through: 7,
        },
        58 => Step::Judge { check: Check::SecondRecovery },
        59 => Step::Say {
            line: "EVOLUTION_PHASE_PASS phase=pitr-overlapping-recovery branches=p0:6,p1:7 targets=node-c-cold,node-c-hot shared_wal=5-6 digests_distinct=true excluded_sequence=8",
        },
        60 => Step::Stage {
            transaction: "stage-cold-dr-c",
            from: "rep-b",
            replica_id: "rep-c-cold",
            node: Node::ColdC,
        },
        61 => Step::Copy { source: Node::B, target: Node::ColdC },
        62 => Step::Activate { transaction: "activate-cold-dr-c" },
        63 => Step::Cover,
        64 => Step::Release { transaction: "release-failed-a", replica_id: "rep-a" },
        65 => Step::Retire { transaction: "retire-failed-a", replica_id: "rep-a" },
        66 => Step::Commit { index: 6 },
        67 => Step::Commit { index: 7 },
        68 => Step::Say {
            line: "EVOLUTION_PHASE_PASS phase=pitr-custody-activation sequence=6 data_domains=2 metadata_term=12 config_epoch=2",
        },
        69 => Step::Say {
            line: "EVOLUTION_PHASE_PASS phase=grow-cold-dr policy=reactive-dr regions=2",
        },
        70 => Step::TellTier { node: Node::B, tier: "hot", cost_class: 9 },
        71 => Step::Tier {
            transaction: "promote-region-b-hot",
            node: Node::B,
            tier: "hot",
            cost_class: 9,
        },
        72 => Step::Stage {
            transaction: "stage-hot-c",
            from: "rep-c-cold",
            replica_id: "rep-c-hot",
            node: Node::HotC,
        },
        73 => Step::Copy { source: Node::ColdC, target: Node::HotC },
        74 => Step::Activate { transaction: "activate-hot-c" },
        75 => Step::Release { transaction: "release-cold-c", replica_id: "rep-c-cold" },
        76 => Step::Retire { transaction: "retire-cold-c", replica_id: "rep-c-cold" },
        77 => Step::Say {
            line: "EVOLUTION_PHASE_PASS phase=promote-hot policy=latency-promoter hot_regions=2",
        },
        78 => Step::Stage {
            transaction: "stage-replacement-b",
            from: "rep-b",
            replica_id: "rep-b-warm",
            node: Node::ReplacementB,
        },
        79 => Step::Copy { source: Node::B, target: Node::ReplacementB },
        80 => Step::Activate { transaction: "activate-replacement-b" },
        81 => Step::Release { transaction: "release-expensive-b", replica_id: "rep-b" },
        82 => Step::Retire { transaction: "retire-expensive-b", replica_id: "rep-b" },
        83 => Step::Say {
            line: "EVOLUTION_PHASE_PASS phase=replace-replica policy=repair-controller old_removed=true",
        },
        84 => Step::Stage {
            transaction: "restage-cold-c",
            from: "rep-c-hot",
            replica_id: "rep-c-cold-2",
            node: Node::ColdC,
        },
        85 => Step::Copy { source: Node::HotC, target: Node::ColdC },
        86 => Step::Activate { transaction: "activate-cold-c-2" },
        87 => Step::Release { transaction: "release-expensive-c", replica_id: "rep-c-hot" },
        88 => Step::Retire { transaction: "retire-expensive-c", replica_id: "rep-c-hot" },
        89 => Step::Cover,
        90 => Step::Say {
            line: "EVOLUTION_PHASE_PASS phase=collapse-expensive policy=cost-reducer copies=2 regions=2",
        },
        91 => Step::Judge { check: Check::FinalTopology },
        92 => Step::Reopen { term: 12 },
        93 => Step::Judge { check: Check::ControllerReplay },
        94 => Step::SayReplayed,
        95 => Step::ReopenMetadata,
        96 => Step::Judge { check: Check::MetadataReplay },
        97 => Step::Say {
            line: "EVOLUTION_PHASE_PASS phase=pitr-metadata-replay snapshot_cuts=4,5 recovery_cuts=6,7 overlap=5-6 exact=true",
        },
        98 => Step::Shutdown { node: Node::B },
        99 => Step::Shutdown { node: Node::ColdC },
        100 => Step::Shutdown { node: Node::ReplacementB },
        101 => Step::Shutdown { node: Node::HotC },
        _ => Step::SayComplete,
    };
    Some(step)
}

/// What comes at a place, once the steps before it are done; where the one before it is a check, what was
/// seen for it is judged first.
pub fn run_scenario(at: u64, seen: &Seen) -> (r: Result<Option<Step>, Error>)
    ensures
        ({
            let last = if at == 0 {
                None
            } else {
                step_at((at - 1) as u64)
            };
            match last {
                Some(Step::Judge { check }) => match r {
                    Ok(step) => passes(check, *seen) && step == step_at(at),
                    Err(e) => !passes(check, *seen) && e@ == (
                        ErrorKind::InvalidData,
                        failure(check),
                    ),
                },
                _ => r == Ok::<Option<Step>, Error>(step_at(at)),
            }
        }),
{
    if at > 0 {
        if let Some(Step::Judge { check }) = plan(at - 1) {
            match judge(check, seen) {
                Ok(_) => {},
                Err(e) => {
                    return Err(e);
                },
            }
        }
    }
    Ok(plan(at))
}

/// Where a check stands.
pub open spec fn check_place(check: Check) -> u64 {
    match check {
        Check::QuorumLoss => 12,
        Check::WalFloor => 33,
        Check::PinnedDelete => 35,
        Check::RegionFailure => 39,
        Check::CoverageLost => 41,
        Check::OverlapFailure => 48,
        Check::FirstRecovery => 55,
        Check::SecondRecovery => 58,
        Check::FinalTopology => 91,
        Check::ControllerReplay => 93,
        Check::MetadataReplay => 96,
    }
}

/// Every check is made, once; so the scenario does not end unless all have passed.
pub proof fn law_every_check_is_made(check: Check, at: u64)
    ensures
        step_at(check_place(check)) == Some(Step::Judge { check }),
        step_at(at) == Some(Step::Judge { check }) ==> at == check_place(check),
{
}

/// Where a batch is committed.
pub open spec fn commit_place(index: u64) -> u64 {
    if index == 1 {
        17
    } else if index == 2 {
        23
    } else if index == 3 {
        27
    } else if index == 4 {
        29
    } else if index == 5 {
        31
    } else if index == 6 {
        66
    } else {
        67
    }
}

/// Every batch is committed, once, and in the order of their index.
pub proof fn law_batches_are_committed_in_order(index: u64, later: u64, at: u64)
    requires
        1 <= index < later <= 7,
    ensures
        step_at(commit_place(index)) == Some(Step::Commit { index }),
        step_at(at) == Some(Step::Commit { index }) ==> at == commit_place(index),
        commit_place(index) < commit_place(later),
{
}

/// Where the mutation with a sequence number is applied.
pub open spec fn apply_place(sequence: u64) -> u64 {
    if sequence <= 4 {
        21
    } else if sequence == 5 {
        25
    } else if sequence == 6 {
        28
    } else if sequence == 7 {
        30
    } else {
        32
    }
}

/// Every mutation of the script is applied, once, and in the order of their sequence numbers.
pub proof fn law_the_script_is_applied_in_order(sequence: u64, later: u64, at: u64)
    requires
        1 <= sequence < later <= 8,
    ensures
        step_at(apply_place(sequence)) matches Some(Step::Apply { from, through }) && from <= sequence
            && sequence <= through,
        step_at(at) matches Some(Step::Apply { from, through }) ==> (from <= sequence && sequence
            <= through ==> at == apply_place(sequence)),
        apply_place(sequence) <= apply_place(later),
{
}

/// A snapshot is taken right after the last mutation that it holds.
pub proof fn law_snapshots_follow_their_data(at: u64)
    requires
        step_at(at) is Some,
    ensures
        step_at(at) matches Some(Step::Snapshot { through, .. }) ==> at > 0 && (step_at((at - 1) as u64) matches Some(Step::Apply { through: applied, .. }) && applied == through),
{
}

/// A replica becomes active only once the marks of its source were copied to the node on which it was
/// staged, and an old replica is released only once another became active.
pub proof fn law_replicas_are_copied_before_they_serve(at: u64)
    requires
        step_at(at) is Some,
    ensures
        step_at(at) is Some && step_at(at)->0 is Activate ==> at >= 2 && (step_at((at - 1) as u64) matches Some(Step::Copy { target, .. }) && (step_at((at - 2) as u64) matches Some(Step::Stage { node, .. }) && node == target)),
        step_at(at) is Some && step_at(at)->0 is Release ==> at >= 2 && ((step_at((at - 1) as u64) is Some && step_at((at - 1) as u64)->0 is Activate) || (step_at((at - 2) as u64) is Some && step_at((at - 2) as u64)->0 is Activate)),
{
}

/// A quorum is a majority, and the smallest one: twice a quorum is more than all members, and one member
/// less is no majority.
pub proof fn law_a_quorum_is_the_smallest_majority(members: nat)
    ensures
        2 * quorum_size(members) > members,
        2 * (quorum_size(members) - 1) <= members,
{
}

/// Members are counted one by one where they answered.
pub proof fn law_answers_are_counted(answered: Seq<bool>, one: bool)
    ensures
        count_true(answered.push(one)) == count_true(answered) + if one {
            1int
        } else {
            0
        },
        count_true(answered) <= answered.len(),
        (forall|i: int| 0 <= i < answered.len() ==> #[trigger] answered[i]) ==> count_true(answered)
            == answered.len(),
        (forall|i: int| 0 <= i < answered.len() ==> !#[trigger] answered[i]) ==> count_true(answered)
            == 0,
    decreases answered.len(),
{
    assert(answered.push(one).drop_last() =~= answered);
    if answered.len() > 0 {
        let head = answered.drop_last();
        law_answers_are_counted(head, one);
        assert(forall|j: int| 0 <= j < head.len() ==> #[trigger] head[j] == answered[j]);
        assert(answered[answered.len() - 1] == answered.last());
        if forall|i: int| 0 <= i < answered.len() ==> #[trigger] answered[i] {
            assert forall|i: int| 0 <= i < head.len() implies #[trigger] head[i] by {
                assert(answered[i]);
            }
        }
        if forall|i: int| 0 <= i < answered.len() ==> !#[trigger] answered[i] {
            assert forall|i: int| 0 <= i < head.len() implies !#[trigger] head[i] by {
                assert(!answered[i]);
            }
        }
    }
}

/// Polling ends exactly where what it waits for is the case: a node or the quorum is gone, or both are
/// gone, or both are back.
pub proof fn law_polling_waits_for_what_it_names(node: Node, node_alive: bool, quorum: bool)
    ensures
        met(Condition::QuorumLost, node_alive, quorum) != met(
            Condition::QuorumBack,
            node_alive,
            quorum,
        ),
        met(Condition::QuorumBack, node_alive, true),
        met(Condition::NodeLost { node }, node_alive, quorum) == !node_alive,
        met(Condition::NodeAndQuorumLost { node }, node_alive, quorum) == (met(
            Condition::NodeLost { node },
            node_alive,
            quorum,
        ) && met(Condition::QuorumLost, node_alive, quorum)),
        met(Condition::NodeAndQuorumBack { node }, node_alive, quorum) == (node_alive && met(
            Condition::QuorumBack,
            node_alive,
            quorum,
        )),
        node_in(Condition::NodeLost { node }) == Some(node),
{
}

} // verus!
