use zcblock::error::{Error, ErrorKind};
use zcblock::migration::leaf::{
    block_offset, entry_page, verify_entry, Action, Entry, IoClass, Leaf, Pacer, Request,
};
use zcblock::migration::scenario::{
    check_response, chunk, initial_state, migrate, next_batch, parse, parse_command, run_scenario,
    Command, CopyEvent, Side, Step, BATCH,
};

fn args(list: &[&str]) -> Vec<String> {
    list.iter().map(|text| text.to_string()).collect()
}

fn entry(block: u32, sequence: u64, value: u64) -> Entry {
    Entry { block, sequence, value }
}

#[test]
fn a_written_entry_verifies() {
    let written = entry(3, 9, 0x0102);
    let page = entry_page(written);
    assert_eq!(page.len(), 4096);
    assert_eq!(page[..8], 9u64.to_le_bytes());
    assert_eq!(page[8..16], 0x0102u64.to_le_bytes());
    assert!(page[16..].iter().all(|byte| *byte == 0));
    assert_eq!(verify_entry(&page, written), None);
    assert_eq!(
        verify_entry(&page, entry(3, 9, 5)).unwrap(),
        "mismatch block=3 got=9:258 expected=9:5"
    );
    assert_eq!(block_offset(u32::MAX), 4_294_967_295 * 4096);
}

#[test]
fn a_leaf_keeps_the_newest_version() {
    let mut leaf = Leaf::new(4, 6000);
    assert!(leaf.offer(entry(1, 5, 0)).unwrap());
    assert!(!leaf.offer(entry(1, 4, 0)).unwrap());
    assert!(leaf.offer(entry(1, 5, 0)).unwrap());
    let error = leaf.offer(entry(4, 1, 0)).unwrap_err();
    assert_eq!((error.kind, error.message.as_str()), (ErrorKind::Other, "block out of range"));
    let (writes, end) =
        leaf.write(&vec![entry(0, 1, 1), entry(1, 2, 2), entry(9, 3, 3), entry(2, 4, 4)]);
    assert_eq!(writes, vec![entry(0, 1, 1)]);
    assert_eq!(end.unwrap_err().message, "block out of range");
    assert_eq!(leaf.versions, vec![1, 5, 0, 0]);
}

#[test]
fn late_copies_do_not_undo_live_writes() {
    let live = entry(0, 20, 7);
    let copy = entry(0, 10, 3);
    for order in [[live, copy], [copy, live]] {
        let mut leaf = Leaf::new(1, 1);
        let (writes, end) = leaf.write(&order.to_vec());
        assert!(end.is_ok());
        assert_eq!(writes.last(), Some(&live));
        assert_eq!(leaf.versions, vec![20]);
    }
}

#[test]
fn a_leaf_answers_requests() {
    let mut leaf = Leaf::new(2, 6000);
    let (action, response) = leaf.serve(&Request::StartSnapshot { iops: 2000 });
    assert!(matches!(action, Action::Snapshot { iops: 2000 }));
    assert!(response.ok && !response.snapshot_done);
    let (action, response) = leaf.serve(&Request::StartSnapshot { iops: 1 });
    assert!(matches!(action, Action::Answer));
    assert!(!response.ok);
    assert_eq!(response.message, "snapshot already active");
    leaf.snapshot_read();
    leaf.snapshot_read();
    leaf.snapshot_finished();
    let (_, response) = leaf.serve(&Request::SnapshotStatus);
    assert_eq!((response.snapshot_ops, response.snapshot_done), (2, true));
    let (action, response) = leaf.serve(&Request::SetForegroundRate { iops: 3000 });
    assert!(matches!(action, Action::Repace));
    assert_eq!(response.message, "foreground_iops=3000");
    let foreground = Request::Write { class: IoClass::Foreground, entries: vec![] };
    assert!(matches!(leaf.serve(&foreground).0, Action::Write { pace_iops: 3000 }));
    let migration = Request::Write { class: IoClass::Migration, entries: vec![] };
    assert!(matches!(leaf.serve(&migration).0, Action::Write { pace_iops: 4000 }));
    assert!(matches!(leaf.serve(&Request::Verify { expected: vec![] }).0, Action::Verify));
    assert!(matches!(leaf.serve(&Request::Shutdown).0, Action::Close));
}

#[test]
fn a_pacer_spreads_operations() {
    let mut pacer = Pacer::new();
    assert_eq!(pacer.pace(32, 4000), Some(8_000_000));
    assert_eq!(pacer.pace(32, 4000), Some(16_000_000));
    assert_eq!(pacer.pace(32, 0), None);
    assert_eq!(pacer.operations, 64);
    let mut full = Pacer { operations: u64::MAX - 1 };
    assert_eq!(full.pace(1, 1000), Some(u64::MAX / 1000));
}

#[test]
fn batches_follow_the_generator() {
    let mut state = initial_state(5);
    assert_eq!(state[4], entry(4, 0, 0));
    let mut sequence = 0;
    let mut random = 0x9e37_79b9_7f4a_7c15;
    let batch = next_batch(&mut state, &mut sequence, &mut random);
    assert_eq!(batch.len(), BATCH);
    assert_eq!(batch[0], entry(0, 1, 5_524_144_936_709_382_831));
    assert_eq!(batch[1], entry(0, 2, 7_472_632_489_974_305_782));
    assert_eq!(sequence, 32);
    for (index, one) in batch.iter().enumerate() {
        assert_eq!(one.sequence, index as u64 + 1);
        assert!(state[one.block as usize].sequence >= one.sequence);
    }
    let newest: u64 = state.iter().map(|one| one.sequence).max().unwrap();
    assert_eq!(newest, 32);
    let many = initial_state(70);
    assert_eq!(chunk(&many, 32).len(), 32);
    assert_eq!(chunk(&many, 64), many[64..].to_vec());
}

#[test]
fn copying_ends_once() {
    assert!(migrate(CopyEvent::Running).unwrap());
    assert!(!migrate(CopyEvent::Finished).unwrap());
    let failed = CopyEvent::Failed {
        error: Error::new(ErrorKind::InvalidData, "full".to_string()),
    };
    let error = migrate(failed).unwrap_err();
    assert_eq!(error.kind, ErrorKind::InvalidData);
    assert_eq!(error.message, "full");
    assert_eq!(
        migrate(CopyEvent::Gone).unwrap_err().message,
        "migration copier disconnected"
    );
    assert!(check_response(true, "").is_ok());
    assert_eq!(check_response(false, "mismatch").unwrap_err().message, "mismatch");
}

#[test]
fn the_scenario_moves_there_and_back() {
    let steps = run_scenario();
    assert_eq!(steps.len(), 15);
    assert_eq!(steps[0], Step::Phase { side: Side::Fast, seconds: 3 });
    assert_eq!(steps[1], Step::Migrate { to: Side::Slow });
    assert_eq!(steps[5], Step::Snapshot { side: Side::Slow, iops: 2000 });
    assert_eq!(steps[11], Step::Migrate { to: Side::Fast });
    assert_eq!(steps[14], Step::Verify { side: Side::Fast });
}

#[test]
fn migration_commands_have_five_words() {
    match parse_command(&args(&["leaf", "l:1", "/d", "64", "6000"])).unwrap() {
        Command::Leaf { listen, device, blocks, foreground_iops } => {
            assert_eq!((listen.as_str(), device.as_str()), ("l:1", "/d"));
            assert_eq!((blocks, foreground_iops), (64, 6000));
        }
        other => panic!("{other:?}"),
    }
    assert!(matches!(
        parse_command(&args(&["scenario", "f", "s", "log", "64"])).unwrap(),
        Command::Scenario { blocks: 64, .. }
    ));
    let error = parse_command(&args(&["leaf"])).unwrap_err();
    assert_eq!(error.kind, ErrorKind::Other);
    assert!(error.message.starts_with("usage: zciops-migration-emu leaf"));
    assert_eq!(
        parse_command(&args(&["leaf", "l", "d", "x", "1"])).unwrap_err().message,
        "invalid number: x"
    );
    assert_eq!(parse("7", 7).unwrap(), 7);
    assert!(parse("8", 7).is_err());
}
