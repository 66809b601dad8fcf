use zcblock::error::ErrorKind;
use zcblock::pwal::{
    block_init, check_block_backing, check_file_backing, check_oversized, check_refused,
    corrupt_block, corruption_offset, crash_after_commit, crash_before_publish, crash_unsynced,
    direct_block, expect_page, file_matrix, page, pair_names, parse_invocation, refused_pair,
    required, verify_after_commit, verify_before_publish, verify_unsynced, Action, Backing,
    BackingKind, FileStep, Pair, Phase, Refusal, DATA_START, ENOSPC,
};

fn args(list: &[&str]) -> Vec<String> {
    list.iter().map(|text| text.to_string()).collect()
}

#[test]
fn phases_name_what_they_need() {
    let matrix = parse_invocation(&args(&["file-matrix", "/tmp"])).unwrap();
    assert_eq!((matrix.phase, matrix.first.as_str()), (Phase::FileMatrix, "/tmp"));
    assert!(matrix.second.is_none());
    let names = [
        ("block-init", Phase::BlockInit),
        ("direct-block", Phase::DirectBlock),
        ("crash-before-publish", Phase::CrashBeforePublish),
        ("verify-before-publish", Phase::VerifyBeforePublish),
        ("crash-after-commit", Phase::CrashAfterCommit),
        ("verify-after-commit", Phase::VerifyAfterCommit),
        ("crash-unsynced", Phase::CrashUnsynced),
        ("verify-unsynced", Phase::VerifyUnsynced),
        ("corrupt-block", Phase::CorruptBlock),
    ];
    for (name, phase) in names {
        let parsed = parse_invocation(&args(&[name, "/j", "/b"])).unwrap();
        assert_eq!((parsed.phase, parsed.second.as_deref()), (phase, Some("/b")));
    }
    let error = parse_invocation(&args(&[])).unwrap_err();
    assert_eq!((error.kind, error.message.as_str()), (ErrorKind::InvalidData, "missing phase"));
    let fault = |list: &[&str]| parse_invocation(&args(list)).unwrap_err().message;
    assert_eq!(fault(&["warp\u{7f}"]), format!("unknown phase {:?}", "warp\u{7f}"));
    assert_eq!(fault(&["file-matrix"]), "missing directory");
    assert_eq!(fault(&["block-init"]), "missing journal block");
    assert_eq!(fault(&["block-init", "/j"]), "missing base block");
    assert_eq!(required(&args(&["a"]), 0, "x").unwrap(), "a");
}

#[test]
fn pages_hold_one_value() {
    assert_eq!(page(0x51), vec![0x51; 4096]);
    assert!(expect_page(&page(7), 3, 7).is_ok());
    let mut wrong = page(7);
    wrong[4095] = 8;
    assert_eq!(
        expect_page(&wrong, 3, 7).unwrap_err().message,
        "page 3 mismatch: got first byte 0x7, expected 0x7"
    );
    assert_eq!(
        expect_page(&page(0xa6), 0, 0x10).unwrap_err().message,
        "page 0 mismatch: got first byte 0xa6, expected 0x10"
    );
}

#[test]
fn nothing_is_written_before_the_backing_is_known() {
    let steps = block_init();
    assert_eq!(steps[..2], [Action::Open, Action::CheckBacking]);
    assert_eq!(steps[2], Action::Append { page: 0, value: 0x11 });
    assert_eq!(steps.len(), 5);
}

#[test]
fn only_published_pages_survive_a_crash() {
    let mut published: Vec<u8> = vec![0; 5];
    let mut appended: Vec<(usize, u8)> = Vec::new();
    let phases = [
        block_init(),
        crash_before_publish(),
        verify_before_publish(),
        crash_after_commit(),
        verify_after_commit(),
        crash_unsynced(),
        verify_unsynced(),
    ];
    let mut found = 0;
    for phase in &phases {
        for action in phase {
            match *action {
                Action::Open | Action::Halt => appended.clear(),
                Action::Append { page, value } => appended.push((page as usize, value)),
                Action::Sync => {
                    for (page, value) in appended.drain(..) {
                        published[page] = value;
                    }
                }
                Action::SyncUnpublished | Action::CheckBacking => {}
                Action::Expect { page, value } => {
                    assert_eq!(published[page as usize], value);
                    found += 1;
                }
            }
        }
    }
    assert_eq!(found, 8);
    assert_eq!(published, vec![0x11, 0, 0x33, 0, 0]);
}

#[test]
fn files_are_tried_in_turn() {
    let steps = file_matrix();
    assert_eq!(steps.len(), 28);
    assert_eq!(
        steps[14],
        FileStep::Damage { pair: Pair::Corrupt, offset: DATA_START + 4096, byte: 0x99 }
    );
    assert_eq!(
        steps[20],
        FileStep::Truncate { pair: Pair::Short, bytes: DATA_START + 4096 + 2048 }
    );
    assert_eq!(steps[27], FileStep::RefuseOversized { bytes: 256 << 20 });
    assert_eq!(pair_names(Pair::Partial), ("partial-journal", "partial-base"));
    assert_eq!(refused_pair(Refusal::Sparse), (Pair::Sparse, true));
    assert_eq!(refused_pair(Refusal::Short), (Pair::Short, false));
    assert!(check_refused(Refusal::Sparse, false).is_ok());
    let texts = [
        (Refusal::Sparse, "strict allocation admitted sparse files"),
        (Refusal::Corrupt, "CRC recovery admitted a corrupted file payload"),
        (Refusal::Short, "recovery admitted a shortened committed frame"),
    ];
    for (refusal, text) in texts {
        assert_eq!(check_refused(refusal, true).unwrap_err().message, text);
    }
}

#[test]
fn backings_are_classified() {
    let file = Backing { kind: BackingKind::RegularFile, fiemap: true };
    let block = Backing { kind: BackingKind::BlockDevice, fiemap: false };
    assert!(check_file_backing(file, file, "j", "b").is_ok());
    assert_eq!(
        check_file_backing(file, Backing { fiemap: false, ..file }, "j", "b").unwrap_err().message,
        "ext4 file admission did not use FIEMAP: journal=j base=b"
    );
    assert!(check_block_backing(block, block).is_ok());
    assert_eq!(
        check_block_backing(block, file).unwrap_err().message,
        "raw backing was not classified as block devices"
    );
}

#[test]
fn failures_must_be_the_expected_ones() {
    assert_eq!(ENOSPC, libc::ENOSPC);
    assert!(check_oversized(Some("x"), Some(libc::ENOSPC)).is_ok());
    assert!(check_oversized(Some("open: No space left on device"), None).is_ok());
    assert_eq!(
        check_oversized(Some("denied"), Some(13)).unwrap_err().message,
        "expected ENOSPC during admission, got: denied"
    );
    assert_eq!(
        check_oversized(None, None).unwrap_err().message,
        "oversized preallocation unexpectedly succeeded"
    );
    assert!(direct_block(&page(0xd1), true).is_ok());
    for (value, direct) in [(0xd1, false), (0xd2, true)] {
        assert_eq!(
            direct_block(&page(value), direct).unwrap_err().message,
            "direct terminal-block lifecycle mismatch"
        );
    }
    assert_eq!(corruption_offset(100).unwrap(), 12388);
    assert_eq!(
        corruption_offset(u64::MAX - 8192).unwrap_err().message,
        "corruption offset overflow"
    );
    assert!(corrupt_block(Some("frame 3: payload checksum mismatch")).is_ok());
    assert_eq!(
        corrupt_block(Some("short read")).unwrap_err().message,
        "unexpected corruption error: short read"
    );
    assert_eq!(
        corrupt_block(None).unwrap_err().message,
        "CRC recovery admitted corrupted block payload"
    );
}
