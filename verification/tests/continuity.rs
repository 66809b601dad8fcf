use zcblock::continuity::{
    check_identity, check_range, compare_block, fill_block, parse_config, parse_u64,
    short_transfer, slot_offset, transfer, Progress, Run, Transfer, Work, MAGIC,
};
use zcblock::error::ErrorKind;

fn args(list: &[&str]) -> Vec<String> {
    list.iter().map(|text| text.to_string()).collect()
}

#[test]
fn blocks_hold_their_slot_and_sequence() {
    let mut block = vec![0u8; 4096];
    fill_block(&mut block, 3, 7);
    assert_eq!(block[..8], MAGIC.to_le_bytes());
    assert_eq!(block[8..16], 3u64.to_le_bytes());
    assert_eq!(block[16..24], 7u64.to_le_bytes());
    assert_eq!(block[24..32], (!7u64).to_le_bytes());
    assert_eq!(block[32..40], [247, 181, 117, 126, 48, 165, 221, 236]);
    let mut other = block.clone();
    assert!(compare_block(&block, &other, 3, 7).is_ok());
    other[40] ^= 1;
    other[50] ^= 1;
    let error = compare_block(&block, &other, 3, 7).unwrap_err();
    assert_eq!(error.kind, ErrorKind::InvalidData);
    assert_eq!(
        error.message,
        format!(
            "continuity mismatch slot=3 sequence=7 byte=40 expected={} actual={}",
            block[40], other[40]
        )
    );
    fill_block(&mut other, 3, 8);
    assert_ne!(block, other);
}

#[test]
fn a_part_of_a_word_is_left_alone() {
    let mut block = vec![9u8; 37];
    fill_block(&mut block, 0, 1);
    assert_eq!(block[32..], [9; 5]);
}

#[test]
fn slots_lie_behind_the_base() {
    assert_eq!(slot_offset(8192, 3).unwrap(), 20480);
    assert_eq!(slot_offset(0, u64::MAX).unwrap_err().message, "slot length overflow");
    assert_eq!(
        slot_offset(u64::MAX, 1).unwrap_err().message,
        "slot offset overflow"
    );
    assert!(check_range(4096, 2, 12288).is_ok());
    assert!(check_range(4096, 2, 0).is_ok());
    assert_eq!(
        check_range(4096, 3, 12288).unwrap_err().message,
        "continuity proof range ends at 16384, past device size 12288"
    );
    assert_eq!(
        check_range(0, u64::MAX, 0).unwrap_err().message,
        "continuity proof length overflow"
    );
    assert_eq!(
        check_range(u64::MAX - 4095, 1, 0).unwrap_err().message,
        "continuity proof range overflow"
    );
}

#[test]
fn a_continuity_run_is_configured() {
    let config = parse_config(&args(&["/d", "8192", "4", "100", "16"])).unwrap();
    assert_eq!((config.target.as_str(), config.base_offset, config.slots), ("/d", 8192, 4));
    assert_eq!((config.interval_us, config.sync_every), (100, 16));
    let fault = |list: &[&str]| parse_config(&args(list)).unwrap_err().message;
    assert_eq!(fault(&[]), "missing BASE_OFFSET");
    assert_eq!(
        fault(&["/d", "x"]),
        format!("invalid BASE_OFFSET: {}", "x".parse::<u64>().unwrap_err())
    );
    let usage = fault(&["/d", "1", "4", "100", "16"]);
    assert!(usage.starts_with("usage: zcnblk-edge-continuity TARGET"));
    assert_eq!(fault(&["/d", "0", "0", "100", "16"]), usage);
    assert_eq!(fault(&["/d", "0", "1", "100", "16", "x"]), usage);
    assert_eq!(
        parse_u64(Some("18446744073709551616".to_string()), "N").unwrap_err().message,
        format!("invalid N: {}", "18446744073709551616".parse::<u64>().unwrap_err())
    );
}

#[test]
fn progress_remembers_the_last_sequence_of_each_slot() {
    let mut progress = Progress::new(3, 4);
    for expected in 1..=7u64 {
        let (slot, sequence) = progress.next();
        assert_eq!((slot, sequence), ((expected - 1) % 3, expected));
        let follow = progress.record();
        assert_eq!(follow.sync, expected == 3 || expected == 4);
        assert!(!follow.check_identity);
    }
    assert_eq!(progress.last_sequences, vec![7, 5, 6]);
    progress.synced();
    progress.checked();
    assert_eq!((progress.writes, progress.reads, progress.syncs), (7, 7, 1));
    assert_eq!((progress.dirty_read_matches, progress.identity_checks), (7, 1));
}

#[test]
fn a_run_ends_with_what_was_written_last() {
    let mut run = Run::new(2, 0, 5);
    assert_eq!(run.run(true), Work::Write { slot: 0, sequence: 1 });
    assert_eq!(run.run(true), Work::Write { slot: 1, sequence: 2 });
    assert_eq!(run.run(false), Work::Sync);
    assert_eq!(run.run(false), Work::Announce);
    assert_eq!(run.run(false), Work::Write { slot: 0, sequence: 3 });
    assert_eq!(run.run(false), Work::Pause);
    assert_eq!(run.run(true), Work::Sync);
    assert_eq!(run.run(true), Work::Verify { slot: 0, sequence: 3 });
    assert_eq!(run.run(true), Work::Verify { slot: 1, sequence: 2 });
    assert_eq!(run.run(true), Work::CheckLast);
    assert_eq!(run.run(true), Work::Finished);
    assert_eq!(run.progress.syncs, 2);
}

#[test]
fn a_long_run_checks_the_identity() {
    let mut run = Run::new(1, 0, 0);
    let mut writes = 0;
    loop {
        match run.run(false) {
            Work::Write { .. } => writes += 1,
            Work::CheckIdentity => break,
            _ => {}
        }
    }
    assert_eq!(writes, 256);
    assert!(check_identity((1, 2), (1, 2), false).is_ok());
    assert_eq!(
        check_identity((1, 2), (3, 4), false).unwrap_err().message,
        "block identity changed from device=1 inode=2 to device=3 inode=4"
    );
    assert_eq!(
        check_identity((1, 2), (3, 4), true).unwrap_err().message,
        "block identity changed at final verification"
    );
}

#[test]
fn transfers_are_whole() {
    assert_eq!(transfer(4096, 4096, false), Transfer::Done);
    assert_eq!(transfer(-1, 4096, true), Transfer::Again);
    assert_eq!(transfer(-1, 4096, false), Transfer::SystemError);
    assert_eq!(transfer(100, 4096, true), Transfer::Short);
    let write = short_transfer(true, 100, 4096);
    assert_eq!(
        (write.kind, write.message.as_str()),
        (ErrorKind::WriteZero, "short direct write: 100/4096")
    );
    let read = short_transfer(false, 0, 4096);
    assert_eq!(
        (read.kind, read.message.as_str()),
        (ErrorKind::UnexpectedEof, "short direct read: 0/4096")
    );
}
