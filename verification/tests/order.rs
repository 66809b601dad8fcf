use zcblock::error::ErrorKind;
use zcblock::order::config::{
    default_cpu_maps, dispatch_plan, parse_config, parse_cpu_list, parse_u64, parse_usize,
    records_per_lane, run_local, usage, Mode,
};
use zcblock::order::dispatch::{
    add_up, finish_result, matrix_index, next_random, next_record, publish_wait, push_slice_wait,
    push_wait, run_ordered_dispatch, run_owner, touch_record, Barriers, Discipline, DispatchStep,
    Dispatcher, Ingress, IngressStep, MatrixOwner, OrderDesc, Owner, ReleaseDesc, SlotPool,
    ThreadStats, DESC_F_BARRIER, DISPATCH_SEED, OWNER_SEED,
};
use zcblock::order::ring::{is_power_of_two, SequenceRing, SpscRing, SEQUENCE_RESERVED};

fn args(list: &[&str]) -> Vec<String> {
    list.iter().map(|text| text.to_string()).collect()
}

fn desc(record: u64, sequence: u64) -> OrderDesc {
    OrderDesc { record, sequence, ..OrderDesc::default() }
}

#[test]
fn spsc_ring_wraps_without_reordering() {
    let mut ring = SpscRing::<u64>::new(4).unwrap();
    for cycle in 0..32u64 {
        for offset in 0..4u64 {
            ring.try_push(cycle * 4 + offset).unwrap();
        }
        assert!(ring.try_push(u64::MAX).is_err());
        for offset in 0..4u64 {
            assert_eq!(ring.try_pop(), Some(cycle * 4 + offset));
        }
        assert_eq!(ring.try_pop(), None);
    }
}

#[test]
fn sequence_ring_reorders_publishers_and_wraps() {
    let mut ring = SequenceRing::<u64>::new(4).unwrap();
    assert!(ring.try_publish(2, 20).is_ok());
    assert_eq!(ring.try_consume(1), None);
    assert!(ring.try_publish(1, 10).is_ok());
    assert_eq!(ring.try_consume(1), Some(10));
    assert_eq!(ring.try_consume(2), Some(20));
    assert!(ring.try_publish(5, 50).is_ok());
    assert_eq!(ring.try_consume(5), Some(50));
}

#[test]
fn rings_have_powers_of_two() {
    for entries in [0usize, 1, 3, 12] {
        let error = SpscRing::<u64>::new(entries).err().unwrap();
        assert_eq!(error.kind, ErrorKind::InvalidInput);
        assert_eq!(error.message, "ring entries must be a power of two >= 2");
        assert!(SequenceRing::<u64>::new(entries).is_err());
    }
    for n in 0..2000u64 {
        assert_eq!(is_power_of_two(n), n.is_power_of_two());
    }
    assert!(is_power_of_two(1 << 63));
}

#[test]
fn slices_fill_a_ring_as_far_as_it_goes() {
    let mut ring = SpscRing::<u64>::new(4).unwrap();
    assert_eq!(ring.try_push_slice(&[1, 2, 3]), 3);
    assert_eq!(ring.try_push_slice(&[4, 5]), 1);
    let mut out = vec![0];
    assert_eq!(ring.pop_batch(&mut out, 3), 3);
    assert_eq!(out, vec![0, 1, 2, 3]);
    assert_eq!(ring.pop_batch(&mut out, 9), 1);
    assert_eq!(out.last(), Some(&4));
    let mut spins = 0;
    assert!(push_wait(&mut ring, 7, &mut spins));
    let values = [8, 9, 10, 11];
    assert_eq!(push_slice_wait(&mut ring, &values, 0, &mut spins), 3);
    assert_eq!(push_slice_wait(&mut ring, &values, 3, &mut spins), 3);
    assert!(!push_wait(&mut ring, 7, &mut spins));
    assert_eq!(spins, 2);
}

#[test]
fn a_taken_slot_is_not_published_over() {
    let mut ring = SequenceRing::<u64>::new(2).unwrap();
    let mut spins = 0;
    assert!(publish_wait(&mut ring, 1, 10, &mut spins));
    assert!(!publish_wait(&mut ring, 3, 30, &mut spins));
    assert_eq!(ring.try_publish(3, 30), Err(30));
    assert_eq!(ring.try_publish(0, 1), Err(1));
    assert_eq!(ring.try_publish(SEQUENCE_RESERVED, 1), Err(1));
    assert_eq!(spins, 1);
    assert_eq!(ring.try_consume(3), None);
    assert_eq!(ring.try_consume(1), Some(10));
    assert!(ring.try_publish(3, 30).is_ok());
}

#[test]
fn records_are_drawn() {
    let mut state = 0x123;
    assert_eq!(next_random(&mut state), 310_645_238_241);
    assert_eq!(state, 310_645_238_241);
    let mut state = 0x123;
    assert_eq!(next_record(&mut state, 7, 0), 2);
    assert_eq!(state, 310_645_238_241);
    let mut state = 0x123;
    assert_eq!(next_record(&mut state, 7, 42), 0);
    assert_eq!(state, 310_645_238_241);
    let mut state = 0x123;
    assert_eq!(next_record(&mut state, 7, 41), 6);
    assert_eq!(state, 3_479_285_590_603_841_010);
    assert_eq!(matrix_index(2, 1, 4), 9);
}

#[test]
fn payload_slots_are_handed_out_once() {
    let mut pool = SlotPool::new(2);
    assert_eq!(pool.take(), (0, 1));
    assert_eq!(pool.take(), (1, 1));
    let release = ReleaseDesc { sequence: 9, payload_slot: 1, generation: 1 };
    assert_eq!(pool.finish("leaked").unwrap_err().message, "leaked");
    pool.give_back(release, "stale").unwrap();
    let error = pool.give_back(release, "stale").unwrap_err();
    assert_eq!((error.kind, error.message.as_str()), (ErrorKind::InvalidData, "stale"));
    assert!(pool.give_back(ReleaseDesc { payload_slot: 2, ..release }, "stale").is_err());
    assert_eq!(pool.take(), (1, 2));
    let mut last = SlotPool { free: vec![], generations: vec![u32::MAX] };
    last.give_back(ReleaseDesc { sequence: 0, payload_slot: 0, generation: u32::MAX }, "s").unwrap();
    assert_eq!(last.take(), (0, 1));
}

#[test]
fn owners_refuse_what_is_not_theirs() {
    let mut owner = Owner::new(1, 4, 10);
    assert_eq!(owner.latest.len(), 3);
    let taken = owner.take_batch(&[desc(1, 5), desc(5, 6), desc(1, 7)]);
    assert_eq!(taken.releases.len(), 3);
    assert_eq!(taken.releases[2].1.sequence, 7);
    assert!(!taken.end.unwrap());
    assert_eq!((owner.ops, owner.latest.clone()), (3, vec![7, 6, 0]));
    assert_eq!(owner.checksum, 1 ^ 5 ^ (5 + 1));
    assert_eq!(
        owner.take_batch(&[desc(1, 7)]).end.unwrap_err().message,
        "ordered-dispatch regressed per-record sequence"
    );
    assert_eq!(
        owner.take_batch(&[desc(2, 9)]).end.unwrap_err().message,
        "ordered-dispatch owner batch topology mismatch"
    );
    let mut stopped = Owner::new(1, 4, 10);
    let taken = stopped.take_batch(&[desc(1, 3), desc(5, 4), desc(2, 5), desc(9, 6)]);
    assert_eq!(taken.end.unwrap_err().kind, ErrorKind::InvalidData);
    let released = taken.releases.iter().map(|one| one.1.sequence).collect::<Vec<_>>();
    assert_eq!(released, vec![3, 4]);
    assert_eq!((stopped.ops, stopped.latest), (2, vec![3, 4, 0]));
    let barrier = OrderDesc { flags: DESC_F_BARRIER, ..OrderDesc::default() };
    assert!(owner.take_batch(&[barrier]).end.unwrap());
    assert!(owner.take_batch(&[barrier, desc(1, 99)]).end.is_err());
    let mut direct = Owner::new(0, 2, 4);
    let one = OrderDesc { ingress_lane: 1, ..desc(2, 3) };
    assert_eq!(direct.take_direct(1, one).unwrap().sequence, 3);
    assert_eq!(
        direct.take_direct(0, one).unwrap_err().message,
        "owner-matrix descriptor topology mismatch"
    );
    assert!(direct.take_direct(1, desc(1, 3)).is_err());
}

#[test]
fn the_dispatcher_keeps_the_order() {
    let mut ring = SequenceRing::<OrderDesc>::new(8).unwrap();
    for sequence in [3u64, 1, 2, 5] {
        assert!(ring.try_publish(sequence, desc(sequence * 10, sequence)).is_ok());
    }
    let mut dispatcher = Dispatcher::new(4, 6, 4);
    assert_eq!(dispatcher.next_step(), DispatchStep::Gather);
    assert_eq!(dispatcher.end, 4);
    dispatcher.gather(&mut ring);
    let held = dispatcher.held.iter().map(|one| one.sequence).collect::<Vec<_>>();
    assert_eq!(held, vec![1, 2, 3]);
    assert_eq!((dispatcher.expected, dispatcher.ops, dispatcher.spins), (4, 3, 1));
    assert_eq!(dispatcher.checksum, (1 << 2) ^ 2 ^ (3 << 2));
    let routed = dispatcher.route(2);
    assert_eq!(routed.iter().map(|one| one.record).collect::<Vec<_>>(), vec![10, 30]);
    assert_eq!(dispatcher.next_step(), DispatchStep::Gather);
    assert!(ring.try_publish(4, desc(40, 4)).is_ok());
    dispatcher.gather(&mut ring);
    assert_eq!((dispatcher.expected, dispatcher.spins), (5, 1));
    assert_eq!(dispatcher.next_step(), DispatchStep::Deliver);
    let lists = dispatcher.deliver();
    assert_eq!(lists.iter().map(Vec::len).collect::<Vec<_>>(), vec![2, 0, 2, 0]);
    assert_eq!(lists[0].iter().map(|one| one.record).collect::<Vec<_>>(), vec![20, 40]);
    assert_eq!(dispatcher.next_step(), DispatchStep::Gather);
    assert_eq!(dispatcher.end, 6);
    assert!(ring.try_publish(6, desc(60, 6)).is_ok());
    dispatcher.gather(&mut ring);
    assert_eq!(dispatcher.next_step(), DispatchStep::Deliver);
    assert_eq!(dispatcher.deliver().len(), 4);
    assert_eq!(dispatcher.next_step(), DispatchStep::Close);
    assert_eq!(dispatcher.last_desc().flags, DESC_F_BARRIER);
    let stats = dispatcher.finish();
    assert_eq!((stats.ops, stats.spins, stats.voluntary), (6, 1, 0));
}

#[test]
fn an_ingress_gets_its_slots_back() {
    let mut ingress = Ingress::new(Discipline::OwnerMatrix, 3, 2, 7, 0, 1, 1);
    assert_eq!(ingress.random, OWNER_SEED ^ 3);
    ingress.random = 0x123;
    assert_eq!((ingress.sent, ingress.released, ingress.checksum), (0, 0, 0));
    assert_eq!(ingress.next_step(), IngressStep::Send);
    let (owner, one) = ingress.next_direct();
    assert_eq!((owner, one.record, one.sequence), (0, 2, 1));
    assert_eq!((one.ingress_lane, one.generation, one.flags), (3, 1, 0));
    assert_eq!(ingress.next_step(), IngressStep::Close);
    let last = ingress.last_desc();
    assert_eq!((last.ingress_lane, last.flags), (3, DESC_F_BARRIER));
    assert_eq!(ingress.next_step(), IngressStep::Poll { owner: 0 });
    ingress.accept_release(0, None).unwrap();
    assert_eq!(ingress.spins, 1);
    assert_eq!(ingress.finish().unwrap_err().message, "owner-matrix leaked payload slots");
    assert_eq!(ingress.next_step(), IngressStep::Poll { owner: 1 });
    let release = ReleaseDesc { sequence: 5, payload_slot: one.payload_slot, generation: 1 };
    ingress.accept_release(1, Some(release)).unwrap();
    assert_eq!((ingress.released, ingress.checksum), (1, 10));
    assert_eq!(
        ingress.accept_release(1, Some(release)).unwrap_err().message,
        "owner-matrix stale terminal payload release"
    );
    assert_eq!(ingress.next_step(), IngressStep::Finish);
    let stats = ingress.finish().unwrap();
    assert_eq!((stats.ops, stats.spins, stats.checksum), (1, 1, 10));
}

#[test]
fn a_dispatched_lane_polls_only_without_slots() {
    let mut ingress = Ingress::new(Discipline::OrderedDispatch, 0, 2, 7, 0, 1, 2);
    assert_eq!(ingress.random, DISPATCH_SEED);
    assert_eq!(ingress.next_step(), IngressStep::Send);
    let one = ingress.next_desc(9);
    assert_eq!((one.sequence, ingress.sent), (9, 1));
    assert_eq!(ingress.next_step(), IngressStep::Poll { owner: 0 });
    let release = ReleaseDesc { sequence: 9, payload_slot: 0, generation: 1 };
    let stale = ReleaseDesc { generation: 7, ..release };
    assert_eq!(
        ingress.accept_release(0, Some(stale)).unwrap_err().message,
        "ordered-dispatch stale payload release"
    );
    ingress.accept_release(0, Some(release)).unwrap();
    assert_eq!(ingress.checksum, 0);
    assert_eq!(ingress.next_step(), IngressStep::Send);
    ingress.next_desc(11);
    assert_eq!(ingress.next_step(), IngressStep::Poll { owner: 1 });
    assert_eq!(ingress.finish().unwrap_err().message, "ordered-dispatch leaked payload slots");
    let second = ReleaseDesc { sequence: 11, payload_slot: 0, generation: 2 };
    ingress.accept_release(1, Some(second)).unwrap();
    assert_eq!(ingress.checksum, 22);
    assert_eq!(
        ingress.accept_release(1, Some(second)).unwrap_err().message,
        "ordered-dispatch stale terminal payload release"
    );
    assert_eq!(ingress.next_step(), IngressStep::Finish);
}

#[test]
fn a_matrix_owner_looks_at_the_lanes_in_turn() {
    let mut owner = MatrixOwner::new(0, 2, 4);
    assert_eq!(owner.next_poll(), Some(0));
    assert_eq!(owner.take(0, None).unwrap(), None);
    assert_eq!(owner.spins, 1);
    assert_eq!(owner.next_poll(), Some(1));
    let one = OrderDesc { ingress_lane: 1, ..desc(2, 3) };
    assert_eq!(owner.take(1, Some(one)).unwrap().unwrap().sequence, 3);
    assert_eq!(owner.next_poll(), Some(0));
    assert_eq!(
        owner.take(0, Some(one)).unwrap_err().message,
        "owner-matrix descriptor topology mismatch"
    );
    let barrier = OrderDesc { flags: DESC_F_BARRIER, ..OrderDesc::default() };
    assert_eq!(owner.take(0, Some(barrier)).unwrap(), None);
    assert_eq!(owner.next_poll(), Some(1));
    assert_eq!(owner.take(1, Some(barrier)).unwrap(), None);
    assert_eq!(owner.next_poll(), None);
    let stats = owner.finish();
    assert_eq!((stats.ops, stats.spins, stats.checksum), (1, 1, 2));
}

#[test]
fn totals_must_agree() {
    let stats = |ops: u64, checksum: u64| ThreadStats {
        ops,
        spins: 1,
        checksum,
        voluntary: 2,
        involuntary: 3,
    };
    let all = add_up(&[stats(4, 5), stats(6, 3)]);
    assert_eq!((all.logical_ops, all.spins, all.checksum), (10, 2, 6));
    let ingress = [stats(4, 1), stats(6, 2)];
    let total = run_ordered_dispatch(&ingress, stats(10, 4), &[stats(10, 8)]).unwrap();
    assert_eq!((total.logical_ops, total.spins, total.checksum), (10, 4, 15));
    assert_eq!((total.voluntary, total.involuntary), (8, 12));
    assert_eq!(
        run_ordered_dispatch(&ingress, stats(9, 4), &[stats(10, 8)]).unwrap_err().message,
        "ordered dispatcher processed 9 operations, expected 10"
    );
    assert_eq!(
        run_ordered_dispatch(&ingress, stats(10, 4), &[stats(8, 8)]).unwrap_err().message,
        "ordered owners processed 8 operations, expected 10"
    );
    assert_eq!(run_owner(&ingress, &[stats(10, 8)]).unwrap().checksum, 11);
    assert_eq!(
        run_owner(&ingress, &[stats(1, 8)]).unwrap_err().message,
        "owner-matrix processed 1 operations, expected 10"
    );
    let many = run_owner(&ingress, &[stats(u64::MAX, 8), stats(1, 8)]).unwrap_err();
    assert_eq!((many.kind, many.message.as_str()), (ErrorKind::Other, "owner operation count overflow"));
    let half = u64::MAX / 2;
    let large = run_ordered_dispatch(&[stats(half, 1)], stats(half, 4), &[stats(half, 8)]).unwrap();
    assert_eq!((large.logical_ops, large.checksum), (half, 13));
}

#[test]
fn barriers_are_counted_once() {
    let mut barriers = Barriers::new(2);
    assert!(!barriers.note(1));
    assert!(!barriers.note(1));
    assert!(barriers.note(0));
    let mut table = vec![0, 9];
    assert_eq!(touch_record(&mut table, 1, 12, 1), 1 ^ 10);
    assert_eq!(table, vec![0, 12]);
    assert_eq!(finish_result("lane-local"), ("not-modeled", "lane-private-ceiling"));
    assert_eq!(
        finish_result("ordered-dispatch"),
        ("exact", "global-submit-dispatch+stable-owner")
    );
    assert_eq!(
        finish_result("owner-matrix"),
        ("exact", "stable-owner-arrival-unlinked-concurrent")
    );
    assert_eq!(
        finish_result("global-atomic"),
        ("not-modeled", "global-submit+per-record-atomic")
    );
    assert_eq!(finish_result("x"), ("unknown", "unknown"));
}

#[test]
fn local_lanes_are_counted() {
    let stats = run_local(1, 5, 3);
    assert_eq!((stats.ops, stats.spins, stats.checksum), (5, 0, 5));
    assert_eq!(run_local(0, 1000, 16).checksum, 659);
    assert_eq!((records_per_lane(10, 4), records_per_lane(8, 4), records_per_lane(0, 4)), (3, 2, 1));
}

#[test]
fn order_runs_are_configured() {
    let usual = parse_config(&args(&[])).unwrap().unwrap();
    assert_eq!((usual.mode, usual.lanes, usual.ops_per_lane), (Mode::All, 4, 5_000_000));
    assert_eq!(usual.ingress_cpus, vec![0, 4, 8, 12]);
    assert_eq!(usual.owner_cpus, vec![1, 5, 9, 13]);
    assert_eq!(default_cpu_maps(2), (vec![0, 4], vec![1, 5]));
    let asked = parse_config(&args(&[
        "--mode", "ordered-dispatch", "--lanes", "2", "--window", "8", "--ring-entries", "8",
        "--dispatch-batch", "4", "--ingress-cpus", "1,1-2", "--owner-cpus", "5, 7", "--hot-percent",
        "30",
    ]))
    .unwrap()
    .unwrap();
    assert_eq!((asked.mode, asked.ingress_cpus.clone()), (Mode::Dispatch, vec![1, 2]));
    let plan = dispatch_plan(&asked).unwrap();
    assert_eq!((plan.reorder_entries, plan.threads), (16, 6));
    assert_eq!((plan.total_ops, plan.dispatcher_cpu), (10_000_000, Some(8)));
    assert!(parse_config(&args(&["--lanes", "2", "--help"])).unwrap().is_none());
    assert!(usage().starts_with("usage: zcorder-bench [--mode"));
}

#[test]
fn order_options_are_checked() {
    let fault = |list: &[&str]| parse_config(&args(list)).unwrap_err().message;
    assert_eq!(fault(&["--lanes", "0"]), "lanes must be in 1..=65535");
    assert_eq!(fault(&["--window", "0"]), "ops, records, and window must be positive");
    assert_eq!(fault(&["--hot-percent", "101"]), "hot percent must be in 0..=100");
    assert_eq!(fault(&["--ring-entries", "6000"]), "ring entries must be a power of two >= window");
    assert_eq!(fault(&["--dispatch-batch", "0"]), "dispatch batch must be in 1..=ring-entries");
    assert_eq!(
        fault(&["--ingress-cpus", "1"]),
        "pinned runs need one ingress and owner CPU per lane"
    );
    assert!(parse_config(&args(&["--ingress-cpus", "1", "--no-pin"])).is_ok());
    assert_eq!(fault(&["--mode"]), "--mode needs a value");
    assert_eq!(
        fault(&["--mode", "fast"]),
        "unknown mode \"fast\"; use atomic, local, owner, dispatch, or all"
    );
    assert_eq!(fault(&["--what"]), "unknown argument \"--what\"");
    assert_eq!(
        fault(&["--hot-percent", "x"]),
        format!("invalid hot percent: {}", "x".parse::<u32>().unwrap_err())
    );
    assert_eq!(
        parse_usize("-1", "lanes").unwrap_err().message,
        format!("invalid lanes \"-1\": {}", "-1".parse::<usize>().unwrap_err())
    );
    assert_eq!(parse_u64("7", "ops").unwrap(), 7);
    let list = |text: &str| parse_cpu_list(text).unwrap_err().message;
    assert_eq!(list("3-1"), "CPU range end is below its start");
    assert!(list("x-1").starts_with("invalid CPU range start \"x\": "));
    assert!(list("1-x").starts_with("invalid CPU range end \"x\": "));
    assert!(list("y").starts_with("invalid CPU \"y\": "));
    let huge = zcblock::order::config::Config {
        window: usize::MAX,
        ..parse_config(&args(&[])).unwrap().unwrap()
    };
    assert_eq!(
        dispatch_plan(&huge).unwrap_err().message,
        "ordered-dispatch reorder window overflow"
    );
    let long = zcblock::order::config::Config {
        ops_per_lane: u64::MAX,
        ..parse_config(&args(&[])).unwrap().unwrap()
    };
    assert_eq!(
        dispatch_plan(&long).unwrap_err().message,
        "ordered-dispatch operation count overflow"
    );
}

#[test]
fn order_modes_have_other_names() {
    for (name, mode) in [
        ("atomic", Mode::Atomic),
        ("global-atomic", Mode::Atomic),
        ("lane-local", Mode::Local),
        ("spsc-owner", Mode::Owner),
        ("ordered-owner", Mode::Dispatch),
        ("all", Mode::All),
    ] {
        assert_eq!(Mode::parse(name).unwrap(), mode);
    }
}
