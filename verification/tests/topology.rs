use zcblock::error::ErrorKind;
use zcblock::textmap::{Duplicate, TextMap};
use zcblock::topology::dataset::{
    apply_mutations, dataset_digest, digest_text, DatasetMutation, DatasetView,
};
use zcblock::topology::node::{
    dataset_view, merge_hwms, run_node, NodeState, Payload, Reply, Request,
};
use zcblock::topology::recovery::{export_recovery, restore_recovery, DatasetSnapshot};
use zcblock::topology::scenario::{
    apply_dataset, baseline, call, capture_dataset_snapshot, condition_asks_quorum, condition_met,
    condition_node, copy_hwm, durability, ha_batch, judge, lease_voters, plan, probe, run_scenario,
    supervisor_quorum, voters, Check, Condition, Durability, HaCommand, Node, Seen, Step, STEPS,
};

fn node() -> NodeState {
    NodeState::new(
        "test".to_string(),
        "r0".to_string(),
        "a0".to_string(),
        "cold".to_string(),
        1,
    )
}

fn put(sequence: u64, key: &str, value: &str) -> DatasetMutation {
    DatasetMutation { sequence, key: key.to_string(), value: Some(value.to_string()) }
}

fn drop_key(sequence: u64, key: &str) -> DatasetMutation {
    DatasetMutation { sequence, key: key.to_string(), value: None }
}

fn apply(state: &mut NodeState, mutations: &[DatasetMutation]) {
    apply_mutations(
        &mut state.dataset_sequence,
        &mut state.dataset,
        &mut state.dataset_wal,
        mutations,
    )
    .unwrap();
}

fn keep_snapshot(state: &mut NodeState, id: &str) {
    let snapshot = DatasetSnapshot {
        snapshot_id: id.to_string(),
        through_sequence: state.dataset_sequence,
        values: state.dataset.duplicate(),
        digest: dataset_digest(&state.dataset).unwrap(),
    };
    state.snapshots.insert(id.to_string(), snapshot);
}

fn serve(state: &mut NodeState, request: Request) -> Reply {
    run_node(state, request).unwrap()
}

#[test]
fn snapshot_plus_bounded_wal_excludes_later_mutations() {
    let mut state = node();
    apply(&mut state, &[put(1, "k", "base"), put(2, "x", "keep")]);
    keep_snapshot(&mut state, "s0");
    apply(&mut state, &[put(3, "k", "target"), put(4, "k", "too-late")]);
    let bundle = export_recovery(&state, "s0", 3).unwrap();
    let mut target = node();
    restore_recovery(&mut target, &bundle).unwrap();
    assert_eq!(target.dataset_sequence, 3);
    assert_eq!(target.dataset.get("k").unwrap(), "target");
}

#[test]
fn corrupt_recovery_bundle_fails_without_changing_target() {
    let mut source = node();
    apply(&mut source, &[put(1, "k", "v")]);
    keep_snapshot(&mut source, "s0");
    let mut bundle = export_recovery(&source, "s0", 1).unwrap();
    bundle.expected_digest = "sha256:bad".to_string();
    let mut target = node();
    let before = target.duplicate();
    assert!(restore_recovery(&mut target, &bundle).is_err());
    assert_eq!(target.dataset_sequence, before.dataset_sequence);
    assert!(target.dataset.same(&before.dataset));
    assert_eq!(target.dataset_wal.len(), before.dataset_wal.len());
}

#[test]
fn digests_are_those_of_sorted_json() {
    let mut values = TextMap::new();
    assert_eq!(
        dataset_digest(&values).unwrap(),
        "sha256:44136fa355b3678a1146ad16f7e8649e94fb4fc21fe77e8310c060f61caaff8a"
    );
    values.insert("b".to_string(), "2".to_string());
    values.insert("a".to_string(), "1".to_string());
    assert_eq!(
        dataset_digest(&values).unwrap(),
        "sha256:21f76dfbfe6dfe21f762080ef484112cf2952974cef30741fd1931e1c6d92112"
    );
    let mut quoted = TextMap::new();
    quoted.insert("k\"".to_string(), "v\n".to_string());
    assert_eq!(
        dataset_digest(&quoted).unwrap(),
        "sha256:1163cc9c382c046924dfab81cfad95b8478b71383e81be0dd4f3a0c82eeaf112"
    );
    assert_eq!(digest_text(&[0x0f, 0xa0]), "sha256:0fa0");
}

#[test]
fn mutations_are_applied_whole_or_not_at_all() {
    let mut state = node();
    apply(&mut state, &[put(1, "k", "v"), drop_key(2, "k"), put(3, "j", "w")]);
    assert!(state.dataset.get("k").is_none());
    for batch in [vec![], vec![put(5, "a", "b")], vec![put(4, "a", "b"), put(5, "", "c")]] {
        let error = apply_mutations(
            &mut state.dataset_sequence,
            &mut state.dataset,
            &mut state.dataset_wal,
            &batch,
        )
        .unwrap_err();
        assert_eq!(error.kind, ErrorKind::InvalidData);
        assert_eq!(
            error.message,
            if batch.is_empty() {
                "dataset mutation batch is empty"
            } else {
                "dataset WAL sequence is non-contiguous or key is empty"
            }
        );
        assert_eq!((state.dataset_sequence, state.dataset_wal.len()), (3, 3));
        assert!(state.dataset.get("a").is_none());
    }
}

#[test]
fn recovery_needs_the_retained_log() {
    let mut state = node();
    apply(&mut state, &[put(1, "k", "a"), put(2, "k", "b")]);
    keep_snapshot(&mut state, "s");
    apply(&mut state, &[put(3, "k", "c"), put(4, "k", "d")]);
    let fault = |state: &NodeState, id: &str, target: u64| {
        export_recovery(state, id, target).unwrap_err().message
    };
    assert_eq!(fault(&state, "t", 3), "unknown dataset snapshot t");
    let outside = "recovery target is outside the retained WAL range";
    assert_eq!(fault(&state, "s", 1), outside);
    assert_eq!(fault(&state, "s", 5), outside);
    let at_snapshot = export_recovery(&state, "s", 2).unwrap();
    assert!(at_snapshot.mutations.is_empty());
    let mut cut = state.duplicate();
    cut.dataset_wal.remove(2);
    assert_eq!(
        fault(&cut, "s", 4),
        "dataset WAL sequence is non-contiguous or key is empty"
    );
    let mut bundle = export_recovery(&state, "s", 4).unwrap();
    bundle.snapshot.digest = "sha256:00".to_string();
    let mut target = node();
    assert_eq!(
        restore_recovery(&mut target, &bundle).unwrap_err().message,
        "base snapshot digest mismatch"
    );
    let mut bundle = export_recovery(&state, "s", 4).unwrap();
    bundle.target_sequence = 5;
    assert_eq!(
        restore_recovery(&mut target, &bundle).unwrap_err().message,
        "replayed recovery bundle does not match its certified result"
    );
}

#[test]
fn nodes_answer_requests() {
    let mut state = node();
    let reply = serve(&mut state, Request::ApplyMutations { mutations: vec![put(1, "k", "v")] });
    assert_eq!((reply.message.as_str(), reply.persist, reply.stop), ("dataset_wal_synced", true, false));
    match reply.payload {
        Payload::Dataset(view) => {
            assert_eq!(view.sequence, 1);
            assert!(view.same(&dataset_view(&state)));
        }
        other => panic!("{other:?}"),
    }
    let cut = |id: &str, through_sequence: u64| Request::CaptureDatasetSnapshot {
        snapshot_id: id.to_string(),
        through_sequence,
    };
    assert_eq!(
        run_node(&mut state, cut("s", 2)).unwrap_err().message,
        "snapshot cut does not equal the applied dataset sequence"
    );
    assert_eq!(serve(&mut state, cut("s", 1)).message, "dataset_snapshot_synced");
    assert_eq!(
        run_node(&mut state, cut("s", 1)).unwrap_err().message,
        "duplicate dataset snapshot"
    );
    let export = Request::ExportRecovery { snapshot_id: "s".to_string(), target_sequence: 1 };
    let reply = serve(&mut state, export);
    assert_eq!((reply.message.as_str(), reply.persist), ("recovery_bundle", false));
    let Payload::Bundle(bundle) = reply.payload else { panic!("no bundle") };
    let mut other = node();
    let reply = serve(&mut other, Request::RestoreRecovery { bundle });
    assert_eq!(reply.message, "recovery_restored_and_synced");
    assert!(dataset_view(&other).same(&dataset_view(&state)));
    let reply = serve(&mut state, Request::SetTier { tier: "hot".to_string(), cost_class: 9 });
    assert_eq!((reply.message.as_str(), reply.persist), ("tier_changed", true));
    assert_eq!((state.tier.as_str(), state.cost_class), ("hot", 9));
    assert_eq!(serve(&mut state, Request::Probe).message, "ready");
    assert_eq!(serve(&mut state, Request::ReadDataset).message, "dataset");
    assert!(serve(&mut state, Request::Shutdown).stop);
}

#[test]
fn marks_never_fall() {
    let mut state = node();
    let replicate = |list: &[(u32, u64)]| Request::Replicate {
        group_id: "g".to_string(),
        lane_hwms: list.to_vec(),
    };
    let read = || Request::ReadHwm { group_id: "g".to_string() };
    let marks = |reply: Reply| match reply.payload {
        Payload::LaneHwms(list) => list,
        other => panic!("{other:?}"),
    };
    assert!(marks(serve(&mut state, read())).is_empty());
    assert_eq!(marks(serve(&mut state, replicate(&[(2, 5), (0, 7)]))), vec![(0, 7), (2, 5)]);
    assert_eq!(marks(serve(&mut state, replicate(&[(2, 5), (1, 1)]))), vec![(0, 7), (1, 1), (2, 5)]);
    let error = run_node(&mut state, replicate(&[(1, 9), (0, 6)])).unwrap_err();
    assert_eq!(error.message, "node HWM regression");
    assert_eq!(marks(serve(&mut state, read())), vec![(0, 7), (1, 1), (2, 5)]);
    assert_eq!(
        merge_hwms(&vec![(3, 1), (3, 4)], &vec![(3, 4), (3, 5)]).unwrap(),
        vec![(3, 5)]
    );
    assert!(merge_hwms(&vec![], &vec![(3, 4), (3, 3)]).is_err());
}

#[test]
fn supervisors_need_a_majority() {
    assert!(supervisor_quorum(&[true, true, false]).is_ok());
    let error = supervisor_quorum(&[true, false, false]).unwrap_err();
    assert_eq!(error.kind, ErrorKind::NotConnected);
    assert_eq!(error.message, "supervisor quorum unavailable: available=1 required=2");
    assert!(supervisor_quorum(&[true, true, false, false]).is_err());
    assert!(call(true, "x").is_ok());
    assert_eq!(call(false, "x").unwrap_err().message, "x");
    assert_eq!(probe(None).unwrap_err().message, "probe omitted node state");
    assert_eq!(probe(Some(node())).unwrap().node_id, "test");
    assert_eq!(copy_hwm(None).unwrap_err().message, "source omitted HWM");
    assert_eq!(copy_hwm(Some(vec![])).unwrap_err().message, "source has no durable HWM");
    assert_eq!(copy_hwm(Some(vec![(1, 2), (0, 3), (1, 4)])).unwrap(), vec![(0, 3), (1, 4)]);
    assert_eq!(baseline(), vec![(0, 9000), (1, 8750), (2, 8500), (3, 8250)]);
}

#[test]
fn scenario_data_is_scripted() {
    let batch = apply_dataset(7, 8);
    assert_eq!((batch[0].key.as_str(), batch[0].value.as_deref()), ("account.balance", Some("0")));
    assert_eq!((batch[1].key.as_str(), batch[1].value.as_deref()), ("order.state", None));
    let mut state = node();
    let mut sequence = 1;
    while sequence <= 8 {
        apply(&mut state, &apply_dataset(sequence, sequence));
        sequence += 1;
    }
    assert_eq!(state.dataset_sequence, 8);
    let requests = capture_dataset_snapshot(2, "s", 4);
    assert_eq!(requests.len(), 2);
    let first = ha_batch(1).unwrap();
    assert_eq!((first.term, first.transaction_id), (11, "configure-pitr-group"));
    assert!(matches!(first.first, HaCommand::ConfigureGroup { epoch: 1, .. }));
    assert!(ha_batch(0).is_none() && ha_batch(8).is_none());
    for index in 2..=7 {
        assert_eq!(ha_batch(index).unwrap().index, index);
        assert!(ha_batch(index).unwrap().term >= ha_batch(index - 1).unwrap().term);
    }
}

#[test]
fn scenario_steps_are_judged_before_the_next() {
    assert!(matches!(plan(0), Some(Step::Probe { node: Node::A })));
    assert!(matches!(plan(STEPS - 1), Some(Step::SayComplete)));
    assert!(plan(STEPS).is_none());
    let good = Seen::Refusals {
        topology_committed: false,
        metadata_committed: false,
        recovery_exported: false,
        topology_unchanged: true,
        metadata_unchanged: true,
        revision: 0,
    };
    let refusals = |topology: bool, metadata: bool, exported: bool, revision: u64| Seen::Refusals {
        topology_committed: topology,
        metadata_committed: metadata,
        recovery_exported: exported,
        topology_unchanged: !topology,
        metadata_unchanged: !metadata,
        revision,
    };
    assert!(judge(Check::QuorumLoss, &refusals(false, false, true, 0)).is_ok());
    assert!(judge(Check::QuorumLoss, &refusals(true, false, false, 0)).is_err());
    assert!(judge(Check::PinnedDelete, &refusals(true, false, true, 5)).is_ok());
    assert!(judge(Check::PinnedDelete, &refusals(false, true, false, 5)).is_err());
    assert!(judge(Check::PinnedDelete, &refusals(false, false, false, 6)).is_err());
    assert!(judge(Check::OverlapFailure, &refusals(false, false, false, 5)).is_ok());
    assert!(judge(Check::OverlapFailure, &refusals(false, false, true, 5)).is_err());
    assert!(judge(Check::OverlapFailure, &refusals(true, false, false, 5)).is_err());
    assert!(matches!(plan(12), Some(Step::Judge { check: Check::QuorumLoss })));
    assert!(run_scenario(13, &good).is_ok());
    assert_eq!(
        run_scenario(13, &Seen::Holds(true)).unwrap_err().message,
        "supervisor quorum loss did not fail atomically"
    );
    assert!(run_scenario(12, &Seen::Holds(false)).is_ok());
    let checks = (0..STEPS).filter(|at| matches!(plan(*at), Some(Step::Judge { .. }))).count();
    assert_eq!(checks, 11);
}

#[test]
fn scenario_failures_are_named() {
    let none = Seen::Floor(None);
    let texts = [
        (Check::WalFloor, "snapshot/recovery point did not pin the WAL floor"),
        (Check::PinnedDelete, "overlapping recovery pins allowed snapshot deletion"),
        (Check::RegionFailure, "region-a failure was not injected"),
        (Check::CoverageLost, "unavailable region remained a durability witness"),
        (Check::OverlapFailure, "overlapping supervisor/data loss did not fail atomically"),
        (Check::FirstRecovery, "PITR restored data does not match recovery point p0"),
        (Check::SecondRecovery, "overlapping PITR branch did not restore independently"),
        (Check::FinalTopology, "final topology does not match cost-reduced policy"),
        (Check::ControllerReplay, "controller replay mismatch"),
        (Check::MetadataReplay, "HA PITR metadata replay mismatch"),
    ];
    for (check, text) in texts {
        assert_eq!(judge(check, &none).unwrap_err().message, text);
    }
    assert!(judge(Check::WalFloor, &Seen::Floor(Some(4))).is_ok());
    assert!(judge(Check::RegionFailure, &Seen::Holds(true)).is_ok());
    assert!(judge(Check::CoverageLost, &Seen::Holds(false)).is_ok());
    let facts = |tier: &str, cost_class: Option<u64>, leases: Vec<bool>| Seen::Facts {
        tier: Some(tier.to_string()),
        cost_class,
        node_cost: 3,
        leases,
    };
    let two = vec![true, false, true];
    assert!(judge(Check::FinalTopology, &facts("warm", Some(3), two.clone())).is_ok());
    assert!(judge(Check::FinalTopology, &facts("hot", Some(3), two.clone())).is_err());
    assert!(judge(Check::FinalTopology, &facts("warm", Some(4), two.clone())).is_err());
    assert!(judge(Check::FinalTopology, &facts("warm", None, two)).is_err());
    assert!(judge(Check::FinalTopology, &facts("warm", Some(3), vec![true; 3])).is_err());
    let cuts = Seen::Cuts { unchanged: true, s0: 4, p0: 6, s1: 5, p1: 7 };
    assert!(judge(Check::MetadataReplay, &cuts).is_ok());
}

#[test]
fn conditions_go_by_their_node_and_the_quorum() {
    let lost = Condition::NodeAndQuorumLost { node: Node::B };
    let back = Condition::NodeAndQuorumBack { node: Node::B };
    let gone = Condition::NodeLost { node: Node::A };
    assert_eq!(condition_node(lost), Some(Node::B));
    assert_eq!(condition_node(Condition::QuorumBack), None);
    for (alive, quorum) in [(false, false), (false, true), (true, false), (true, true)] {
        assert_eq!(condition_met(Condition::QuorumLost, alive, quorum), !quorum);
        assert_eq!(condition_met(Condition::QuorumBack, alive, quorum), quorum);
        assert_eq!(condition_met(gone, alive, quorum), !alive);
        assert_eq!(condition_met(lost, alive, quorum), !alive && !quorum);
        assert_eq!(condition_met(back, alive, quorum), alive && quorum);
    }
    assert!(!condition_asks_quorum(gone, false));
    assert!(condition_asks_quorum(lost, false) && !condition_asks_quorum(lost, true));
    assert!(condition_asks_quorum(back, true) && !condition_asks_quorum(back, false));
    assert!(condition_asks_quorum(Condition::QuorumLost, false));
    assert_eq!(voters(), vec!["supervisor-cold-c", "supervisor-repl-b", "supervisor-hot-c"]);
    assert_eq!(lease_voters(), vec!["supervisor-cold-c", "supervisor-repl-b"]);
    assert_eq!(
        durability(),
        Durability { distinct_failure_domains: 2, hop_witnesses: 0, leaf_witnesses: 2 }
    );
    match ha_batch(6).unwrap().first {
        HaCommand::ConfigureGroup { first, second, .. } => {
            assert_eq!((first.replica_id, first.failure_domain), ("rep-b", "region-b"));
            assert_eq!((second.replica_id, second.failure_domain), ("rep-c-cold", "region-c"));
        }
        _ => panic!("the group is not configured"),
    }
}

#[test]
fn recovered_branches_are_compared_with_their_bundle() {
    let mut state = node();
    apply(&mut state, &apply_dataset(1, 4));
    keep_snapshot(&mut state, "snapshot-s0");
    apply(&mut state, &apply_dataset(5, 5));
    keep_snapshot(&mut state, "snapshot-s1");
    apply(&mut state, &apply_dataset(6, 8));
    let branch = |id: &str, through: u64, other: &str| {
        let bundle = export_recovery(&state, id, through).unwrap();
        let mut target = node();
        restore_recovery(&mut target, &bundle).unwrap();
        let restored: DatasetView = dataset_view(&target);
        let reread = dataset_view(&target);
        Seen::Branch { bundle, restored, reread, other_digest: other.to_string() }
    };
    assert!(judge(Check::FirstRecovery, &branch("snapshot-s0", 6, "")).is_ok());
    assert!(judge(Check::SecondRecovery, &branch("snapshot-s1", 7, "")).is_ok());
    assert!(judge(Check::FirstRecovery, &branch("snapshot-s0", 7, "")).is_err());
    let first = export_recovery(&state, "snapshot-s0", 6).unwrap().expected_digest;
    assert_eq!(first.len(), 71);
    assert!(judge(Check::FirstRecovery, &branch("snapshot-s0", 6, &first)).is_ok());
    if let Seen::Branch { mut bundle, mut restored, mut reread, .. } = branch("snapshot-s0", 6, "") {
        bundle.expected_digest = String::new();
        restored.digest = String::new();
        reread.digest = String::new();
        let nameless = Seen::Branch { bundle, restored, reread, other_digest: String::new() };
        assert!(judge(Check::FirstRecovery, &nameless).is_ok());
    }
    let own = export_recovery(&state, "snapshot-s1", 7).unwrap().expected_digest;
    assert!(judge(Check::SecondRecovery, &branch("snapshot-s1", 7, &own)).is_err());
}
