use zcblock::error::ErrorKind;
use zcblock::workload::command::{parse_workload, usage, Kind};
use zcblock::workload::cutover::{self, parse_cutover, switches_after};
use zcblock::workload::page::{
    fill, read_page, slot_offset, verify_page, verify_zero_page, write_verify, wrote_page,
};
use zcblock::workload::plan::{
    self, await_checkpoint, check_paused, run_disaster_source, run_disaster_source_ha,
    run_disaster_source_hold, run_disaster_source_with_failures, run_grade, run_hold, run_move,
    run_move_hold, run_move_loss, run_move_loss_hold, run_stay, run_stay_ha, verify_prefix, Step,
};

fn args(list: &[&str]) -> Vec<String> {
    list.iter().map(|text| text.to_string()).collect()
}

fn written(steps: &[Step]) -> Vec<u64> {
    steps
        .iter()
        .filter_map(|step| match step {
            Step::Write(n) => Some(*n),
            _ => None,
        })
        .collect()
}

#[test]
fn pages_carry_their_sequence() {
    let mut page = vec![0u8; 4096];
    fill(&mut page, 0x105);
    assert_eq!(page[..8], 0x105u64.to_le_bytes());
    assert_eq!(&page[8..16], b"ZCGLOBAL");
    assert_eq!((page[16], page[316]), (143, 187));
    assert!(verify_page(&page, 0x105).is_ok());
    let error = verify_page(&page, 0x106).unwrap_err();
    assert_eq!(error.kind, ErrorKind::InvalidData);
    assert_eq!(error.message, "handoff verification mismatch at sequence 262");
    let mut other = vec![0u8; 4096];
    fill(&mut other, 0x205);
    assert_ne!(page, other);
    assert!(write_verify(&page, &page, 3).is_ok());
    assert_eq!(
        write_verify(&other, &page, 3).unwrap_err().message,
        "read-after-sync mismatch at sequence 3"
    );
    assert!(verify_zero_page(&vec![0; 4096], "found ", 9).is_ok());
    assert_eq!(verify_zero_page(&page, "found ", 9).unwrap_err().message, "found 9");
}

#[test]
fn slots_repeat_after_the_last() {
    assert_eq!((slot_offset(1), slot_offset(4095), slot_offset(4097)), (4096, 16_773_120, 4096));
    assert!(wrote_page(4096).is_ok());
    let short = wrote_page(100).unwrap_err();
    assert_eq!((short.kind, short.message.as_str()), (ErrorKind::WriteZero, "short write"));
    assert!(read_page(4096).is_ok());
    let short = read_page(0).unwrap_err();
    assert_eq!((short.kind, short.message.as_str()), (ErrorKind::UnexpectedEof, "short read"));
}

#[test]
fn staying_switches_in_the_middle() {
    let steps = run_stay(5).unwrap();
    assert_eq!(
        steps,
        vec![
            Step::Write(1),
            Step::Write(2),
            Step::Switch,
            Step::Write(3),
            Step::Write(4),
            Step::Write(5),
        ]
    );
    assert_eq!(run_stay(3).unwrap_err().message, "operations must be in 4..4096");
    assert!(run_stay(4096).is_err());
    let steps = run_stay_ha(8).unwrap();
    assert_eq!(written(&steps), (1..=8).collect::<Vec<u64>>());
    assert_eq!((steps[2], steps[5], steps[8]), (Step::FailSource, Step::Switch, Step::FailTarget));
    assert_eq!(
        run_stay_ha(10).unwrap_err().message,
        "HA operations must be a multiple of four in 8..4096"
    );
}

#[test]
fn moving_verifies_before_and_after() {
    let steps = run_move(2, 3).unwrap();
    assert_eq!(
        steps,
        vec![
            Step::Verify(1),
            Step::Verify(2),
            Step::Write(3),
            Step::Verify(1),
            Step::Verify(2),
            Step::Verify(3),
        ]
    );
    let fault = "require 0 < VERIFY_THROUGH < END < 4096";
    assert_eq!(run_move(0, 3).unwrap_err().message, fault);
    assert_eq!(run_move(3, 3).unwrap_err().message, fault);
    assert_eq!(run_move(3, 4096).unwrap_err().message, fault);
    assert_eq!(run_move_hold(2, 3, 9).unwrap().last(), Some(&Step::Hold(9)));
    assert_eq!(
        run_move_hold(0, 0, 0).unwrap_err().message,
        "move-hold requires SECONDS > 0"
    );
    assert_eq!(run_hold(1, 4).unwrap(), vec![Step::Verify(1), Step::Hold(4)]);
    assert_eq!(
        run_hold(1, 0).unwrap_err().message,
        "require 0 < VERIFY_THROUGH < 4096 and SECONDS > 0"
    );
    assert_eq!(verify_prefix(2).unwrap(), vec![Step::Verify(1), Step::Verify(2)]);
    assert_eq!(
        verify_prefix(4096).unwrap_err().message,
        "verification range must be less than 4096"
    );
}

#[test]
fn declared_losses_are_rebuilt() {
    let steps = run_move_loss(1, 3, 4).unwrap();
    assert_eq!(steps[..3], [Step::Verify(1), Step::VerifyZero(2), Step::VerifyZero(3)]);
    assert_eq!(written(&steps), vec![2, 3, 4]);
    assert_eq!(
        run_move_loss(1, 1, 4).unwrap_err().message,
        "require 0 < CHECKPOINT < LOST_THROUGH < END < 4096"
    );
    assert_eq!(run_move_loss_hold(1, 3, 4, 2).unwrap().last(), Some(&Step::Hold(2)));
    assert_eq!(
        run_move_loss_hold(1, 3, 4, 0).unwrap_err().message,
        "move-loss-hold requires SECONDS > 0"
    );
    let grade = run_grade(2, Some((2, 3))).unwrap();
    assert_eq!(grade.prefix, verify_prefix(2).unwrap());
    assert_eq!(grade.absent.unwrap(), vec![Step::VerifyZero(2), Step::VerifyZero(3)]);
    assert!(run_grade(2, None).unwrap().absent.unwrap().is_empty());
    for range in [(3, 2), (0, 2), (1, 4096)] {
        let grade = run_grade(2, Some(range)).unwrap();
        assert_eq!(grade.prefix.len(), 2);
        assert_eq!(
            grade.absent.unwrap_err().message,
            "require 0 < ZERO_FROM <= ZERO_THROUGH < 4096"
        );
    }
    assert_eq!(
        run_grade(4096, Some((3, 2))).unwrap_err().message,
        "verification range must be less than 4096"
    );
}

#[test]
fn disasters_stop_replication_at_the_checkpoint() {
    assert_eq!(
        run_disaster_source(1, 2).unwrap(),
        vec![
            Step::Write(1),
            Step::AwaitCheckpoint(1),
            Step::PauseReplication,
            Step::Write(2),
        ]
    );
    let steps = run_disaster_source_ha(8, 9).unwrap();
    assert_eq!((steps[2], steps[7]), (Step::FailSource, Step::FailTarget));
    assert_eq!(written(&steps), (1..=9).collect::<Vec<u64>>());
    let small = run_disaster_source_with_failures(1, 2, true).unwrap();
    assert_eq!(small[..3], [Step::FailSource, Step::FailTarget, Step::Write(1)]);
    assert_eq!(
        run_disaster_source_ha(9, 10).unwrap_err().message,
        "disaster-source-ha checkpoint must be a multiple of four and at least eight"
    );
    assert_eq!(
        run_disaster_source(2, 2).unwrap_err().message,
        "require 0 < CHECKPOINT < ACKNOWLEDGED_THROUGH < 4096"
    );
    assert_eq!(run_disaster_source_hold(1, 2, 3).unwrap().last(), Some(&Step::Hold(3)));
    assert_eq!(
        run_disaster_source_hold(1, 2, 0).unwrap_err().message,
        "disaster-source-hold requires SECONDS > 0"
    );
}

#[test]
fn answers_of_the_controller_are_judged() {
    assert_eq!(plan::switch(" OK active=secondary x\n").unwrap(), "OK active=secondary x");
    assert_eq!(
        plan::switch("ERR no\n").unwrap_err().message,
        "custody transfer failed: ERR no"
    );
    assert!(cutover::switch(" OK active=secondary\n").is_err());
    assert_eq!(cutover::switch("OK active=secondary\n").unwrap(), "OK active=secondary");
    assert_eq!(cutover::switch("no\n").unwrap_err().message, "route switch failed: no");
    let status = "OK secondary_synced_generation=12";
    assert!(await_checkpoint(status, 12, true).unwrap());
    assert!(await_checkpoint(status, 1, true).unwrap());
    assert!(!await_checkpoint(status, 13, false).unwrap());
    let late = await_checkpoint(status, 13, true).unwrap_err();
    assert_eq!(late.kind, ErrorKind::TimedOut);
    assert_eq!(
        late.message,
        "remote replica did not reach checkpoint 13: OK secondary_synced_generation=12"
    );
    assert!(check_paused("OK replication_paused=true").is_ok());
    assert_eq!(
        check_paused("OK replication_paused=false").unwrap_err().message,
        "could not pause asynchronous replay: OK replication_paused=false"
    );
    assert!(check_paused("replication_paused=true").is_err());
}

#[test]
fn workloads_are_parsed() {
    let stay = parse_workload(&args(&["stay-ha", "/d", "c:1", "8", "s:1", "t:1"])).unwrap();
    assert_eq!(stay.kind, Kind::StayHa);
    assert_eq!(stay.texts, args(&["/d", "c:1", "s:1", "t:1"]));
    assert_eq!(stay.numbers, vec![8]);
    let grade = parse_workload(&args(&["grade", "/d", "3"])).unwrap();
    assert_eq!(grade.numbers, vec![3]);
    let grade = parse_workload(&args(&["grade", "/d", "3", "4", "5"])).unwrap();
    assert_eq!(grade.numbers, vec![3, 4, 5]);
    let text = usage().message;
    let fault = |list: &[&str]| parse_workload(&args(list)).unwrap_err().message;
    assert_eq!(fault(&[]), text);
    assert_eq!(fault(&["go"]), text);
    assert_eq!(fault(&["grade", "/d", "3", "4"]), text);
    assert_eq!(fault(&["move", "/d", "3"]), text);
    assert_eq!(fault(&["move", "/d", "3", "4", "5"]), text);
    assert_eq!(fault(&["move", "/d", "", "4"]), "".parse::<u64>().unwrap_err().to_string());
    let kinds: [(&[&str], Kind); 9] = [
        (&["stay", "d", "c", "4"], Kind::Stay),
        (&["move", "d", "1", "2"], Kind::Move),
        (&["move-hold", "d", "1", "2", "3"], Kind::MoveHold),
        (&["hold", "d", "1", "2"], Kind::Hold),
        (&["disaster-source", "d", "c", "1", "2"], Kind::DisasterSource),
        (&["disaster-source-hold", "d", "c", "1", "2", "3"], Kind::DisasterSourceHold),
        (&["disaster-source-ha", "d", "c", "8", "9", "s", "t"], Kind::DisasterSourceHa),
        (&["move-loss", "d", "1", "2", "3"], Kind::MoveLoss),
        (&["move-loss-hold", "d", "1", "2", "3", "4"], Kind::MoveLossHold),
    ];
    for (list, kind) in kinds {
        assert_eq!(parse_workload(&args(list)).unwrap().kind, kind);
    }
}

#[test]
fn a_cutover_happens_half_way() {
    let usual = parse_cutover(&args(&[])).unwrap();
    assert_eq!(
        (usual.target.as_str(), usual.control.as_str(), usual.operations),
        ("/dev/zcnblk0", "127.0.0.1:29110", 4096)
    );
    let text = "usage: zcnblk-live-cutover-smoke [TARGET] [CONTROL_ADDR] [OPERATIONS>=4]";
    assert_eq!(parse_cutover(&args(&["t", "c", "3"])).unwrap_err().message, text);
    assert_eq!(parse_cutover(&args(&["t", "c", "4", "x"])).unwrap_err().message, text);
    assert!(switches_after(5, 11) && !switches_after(6, 11));
    assert_eq!((cutover::slot_offset(1023), cutover::slot_offset(1025)), (4_190_208, 4096));
    let mut page = vec![0u8; 64];
    cutover::fill(&mut page, 2);
    assert_eq!(page[..8], 2u64.to_le_bytes());
    assert_eq!((page[8], page[9]), (6, 7));
    assert!(cutover::check_read_back(&page, &page, 2).is_ok());
    assert_eq!(
        cutover::check_read_back(&page[..8], &page, 2).unwrap_err().message,
        "read-after-sync mismatch at acknowledged sequence 2"
    );
}
