use zcblock::arena_io::{
    alias_counters, block_offset, check_counters, check_slot_bytes, counter, fill_pattern,
    parse_test, AliasCounters,
};
use zcblock::error::ErrorKind;
use zcblock::pit::{
    copies_instead, copy_snapshot, normalize_mode, parse_args, tries_reflink, Mode, Reflink,
};
use zcblock::tools::capacity::{
    check_added, check_deferred, check_fill, check_initial, fill_volumes, host, initial_volumes,
    parse_marker, wait_for_marker, Scenario,
};
use zcblock::tools::contract::{
    check_read_back, check_written, io_priority, parse_contract, parse_sync, same_device,
};
use zcblock::tools::detect::{add_characteristics, parse_overrides};
use zcblock::tools::migratectl::{check_answer, control_line};
use zcblock::tools::mirror::{check_scan, number, parse_mirror, usage, Mirror};
use zcblock::tools::ofi_volume::parse_target;
use zcblock::tools::readview::{
    check_cpu, check_pinning, env_flag, lane_map, parse_cpu_list, parse_u64, parse_usize,
    parse_work, worker_operations, CPU_SETSIZE,
};

fn args(list: &[&str]) -> Vec<String> {
    list.iter().map(|text| text.to_string()).collect()
}

fn said(text: &str) -> Option<String> {
    Some(text.to_string())
}

#[test]
fn the_initial_volumes_leave_room_for_eight() {
    let volumes = initial_volumes();
    assert_eq!(volumes.len(), 1000);
    assert_eq!((volumes[0].id.as_str(), volumes[0].iops), ("volume-0000", 17));
    assert_eq!((volumes[6].id.as_str(), volumes[6].iops), ("volume-0006", 17));
    assert_eq!((volumes[7].id.as_str(), volumes[7].iops), ("volume-0007", 1));
    assert_eq!(volumes[999].id, "volume-0999");
    let reserved: u64 = volumes.iter().map(|volume| volume.iops).sum();
    assert_eq!(reserved, 1112);
    let fill = fill_volumes();
    assert_eq!(fill[7].id, "fill-7");
    let more: u64 = fill.iter().map(|volume| volume.iops).sum();
    assert_eq!(reserved + more, 7 * host(1).lane_iops);
    let added = host(8);
    assert_eq!((added.id.as_str(), added.failure_domain.as_str()), ("storage-8", "qemu-vm-8"));
    assert_eq!(added.capacity_bytes, 655_360);
    assert_eq!(added.restore_bytes_per_second, 1 << 30);
}

#[test]
fn scenario_events_are_numbered() {
    let mut scenario = Scenario::new();
    assert_eq!(scenario.emit(), (1, 1));
    assert_eq!(scenario.emit(), (2, 2));
    assert_eq!(scenario.plan(), 2);
    let mut last = Scenario { index: u64::MAX, timestamp_ns: 4 };
    assert_eq!(last.emit(), (u64::MAX, 5));
}

#[test]
fn capacity_steps_are_checked() {
    assert_eq!(parse_marker(&args(&["/tmp/online"])).unwrap(), "/tmp/online");
    assert_eq!(
        parse_marker(&args(&[])).unwrap_err().message,
        "usage: zcvolume-capacity-scenario <storage-8-online-marker>"
    );
    assert!(parse_marker(&args(&["a", "b"])).is_err());
    assert_eq!(wait_for_marker(true, true, "m").unwrap(), true);
    assert_eq!(wait_for_marker(false, false, "m").unwrap(), false);
    let late = wait_for_marker(false, true, "/tmp/m").unwrap_err();
    assert_eq!(late.kind, ErrorKind::TimedOut);
    assert_eq!(late.message, "timed out waiting for online marker /tmp/m");
    assert!(check_initial(&vec![true; 1000]).is_ok());
    let mut placed = vec![true; 1000];
    placed[3] = false;
    assert_eq!(
        check_initial(&placed).unwrap_err().message,
        "only 999/1000 initial volumes were admitted"
    );
    assert!(check_fill(&vec![true; 8]).is_ok());
    assert_eq!(
        check_fill(&vec![true, false]).unwrap_err().message,
        "the eight fill volumes did not consume the remaining capacity"
    );
    assert!(check_deferred(true, false).is_ok());
    assert_eq!(
        check_deferred(false, true).unwrap_err().message,
        "full estate did not defer needs-storage-8"
    );
    assert_eq!(
        check_deferred(true, true).unwrap_err().message,
        "rejected volume unexpectedly has a placement"
    );
    assert!(check_added(Some(&args(&["storage-8"])), "").is_ok());
    assert_eq!(
        check_added(None, "").unwrap_err().message,
        "volume remained deferred after storage-8 joined"
    );
    assert_eq!(
        check_added(Some(&args(&["storage-7"])), "[leg]").unwrap_err().message,
        "new volume was not placed on the newly online host: [leg]"
    );
    assert!(check_added(Some(&args(&["storage-8", "storage-1"])), "").is_err());
}

#[test]
fn a_contract_test_has_a_target_and_a_block() {
    let usual = parse_contract(&args(&[])).unwrap();
    assert_eq!((usual.target.as_str(), usual.block), ("/dev/zcnblk0", 7));
    let asked = parse_contract(&args(&["/dev/x", "9"])).unwrap();
    assert_eq!((asked.target.as_str(), asked.block), ("/dev/x", 9));
    assert_eq!(
        parse_contract(&args(&["/dev/x", "9", "1"])).unwrap_err().message,
        "usage: zcnblk-contract-smoke [target] [4k-block]"
    );
    assert_eq!(
        parse_contract(&args(&["/dev/x", "nine"])).unwrap_err().message,
        "nine".parse::<u64>().unwrap_err().to_string()
    );
    assert_eq!(io_priority(), (2 << 13) | 1);
    assert!(check_written(4096).is_ok());
    let short = check_written(512).unwrap_err();
    assert_eq!(short.kind, ErrorKind::WriteZero);
    assert_eq!(short.message, "short RWF_DSYNC write: 512");
    assert!(check_read_back(4096, &[1, 2], &[1, 2]).is_ok());
    let eof = check_read_back(8, &[1], &[1]).unwrap_err();
    assert_eq!((eof.kind, eof.message.as_str()), (ErrorKind::UnexpectedEof, "short readback: 8"));
    let other = check_read_back(4096, &[1], &[2]).unwrap_err();
    assert_eq!(
        (other.kind, other.message.as_str()),
        (ErrorKind::InvalidData, "RWF_DSYNC readback mismatch")
    );
}

#[test]
fn a_device_keeps_its_identity() {
    assert_eq!(parse_sync(&args(&[])).unwrap(), "/dev/zcnblk0");
    assert_eq!(parse_sync(&args(&["/dev/y"])).unwrap(), "/dev/y");
    assert_eq!(
        parse_sync(&args(&["a", "b"])).unwrap_err().message,
        "usage: zcnblk-edge-sync [TARGET]"
    );
    assert!(same_device((1, 2), (1, 2), "changed").is_ok());
    let error = same_device((1, 2), (1, 3), "changed").unwrap_err();
    assert_eq!((error.kind, error.message.as_str()), (ErrorKind::Other, "changed"));
}

#[test]
fn topology_overrides_are_collected() {
    let mut list = parse_overrides(&args(&["--set", "a=1", "--set", "b=2"])).unwrap().unwrap();
    assert_eq!(list, args(&["a=1", "b=2"]));
    add_characteristics(&mut list, "c=3,,d=4,");
    assert_eq!(list, args(&["a=1", "b=2", "c=3", "d=4"]));
    assert!(parse_overrides(&args(&["--set", "a=1", "-h"])).unwrap().is_none());
    assert_eq!(
        parse_overrides(&args(&["--set"])).unwrap_err().message,
        "--set requires key=value"
    );
    assert_eq!(
        parse_overrides(&args(&["extra"])).unwrap_err().message,
        "unknown argument extra"
    );
}

#[test]
fn migration_commands_are_one_line() {
    let (socket, line) = control_line(&args(&["/run/m.sock", "start", "vol", "7"])).unwrap();
    assert_eq!((socket.as_str(), line.as_str()), ("/run/m.sock", "start vol 7\n"));
    assert_eq!(
        control_line(&args(&[])).unwrap_err().message,
        "usage: zcnblk-direct-migratectl SOCKET COMMAND [ARG ...]"
    );
    assert_eq!(
        control_line(&args(&["s"])).unwrap_err().message,
        "migration control command is empty"
    );
    assert!(check_answer("OK done\n").is_ok());
    let refused = check_answer("ERR busy \n\n").unwrap_err();
    assert_eq!(refused.kind, ErrorKind::Other);
    assert_eq!(refused.message, "migration controller rejected the command: ERR busy");
}

#[test]
fn mirror_roles_are_parsed() {
    match parse_mirror(&args(&["client", "host:1", "10", "4096"])).unwrap() {
        Mirror::Client { address, frames, payload, window } => {
            assert_eq!((address.as_str(), frames, payload, window), ("host:1", 10, 4096, 1));
        }
        other => panic!("{other:?}"),
    }
    match parse_mirror(&args(&["leaf", "l:1", "/log", "5"])).unwrap() {
        Mirror::Leaf { listen, log, delay_ms } => {
            assert_eq!((listen.as_str(), log.as_str(), delay_ms), ("l:1", "/log", 5));
        }
        other => panic!("{other:?}"),
    }
    assert!(matches!(
        parse_mirror(&args(&["first-hop", "a", "b", "c"])).unwrap(),
        Mirror::FirstHop { .. }
    ));
    assert!(matches!(
        parse_mirror(&args(&["verify", "/log", "3"])).unwrap(),
        Mirror::Verify { frames: 3, .. }
    ));
    assert_eq!(parse_mirror(&args(&[])).unwrap_err(), usage());
    assert_eq!(parse_mirror(&args(&["client"])).unwrap_err(), usage());
    assert_eq!(parse_mirror(&args(&["first-hop", "a", "b"])).unwrap_err(), usage());
    assert_eq!(
        parse_mirror(&args(&["client", "h", "x", "1"])).unwrap_err(),
        format!("invalid or missing frames\n{}", usage())
    );
    assert_eq!(
        parse_mirror(&args(&["client", "h", "1"])).unwrap_err(),
        format!("invalid or missing payload bytes\n{}", usage())
    );
    assert_eq!(parse_mirror(&args(&["client", "h", "1", "1", "w"])).unwrap_err(), usage());
    assert_eq!(
        number(&None, 10, "expected frames").unwrap_err(),
        format!("invalid or missing expected frames\n{}", usage())
    );
    assert_eq!(number(&said("10"), 10, "n").unwrap(), 10);
    assert!(number(&said("11"), 10, "n").is_err());
    assert!(check_scan(3, 3, 0, "").is_ok());
    assert_eq!(
        check_scan(3, 3, 1, "Scan").unwrap_err().message,
        "verify expected 3 complete frames, got Scan"
    );
    assert!(check_scan(3, 2, 0, "Scan").is_err());
}

#[test]
fn an_ofi_target_needs_an_address_a_service_lanes_and_a_capacity() {
    let all = [
        "--bind", "0.0.0.0", "--base-service", "7000", "--lanes", "2", "--capacity-bytes", "4096",
        "--lane-cpus", "1,3", "--require-hugetlb", "--domain", "d",
    ];
    let target = parse_target(&args(&all)).unwrap().unwrap();
    assert_eq!((target.bind.as_str(), target.base_service, target.lanes), ("0.0.0.0", 7000, 2));
    assert_eq!((target.provider.as_str(), target.endpoint.as_str()), ("sockets", "rdm"));
    assert_eq!((target.capacity_bytes, target.lane_cpus), (4096, vec![1, 3]));
    assert_eq!((target.require_hugetlb, target.domain), (true, said("d")));
    assert!(parse_target(&args(&["--lanes", "2", "-h"])).unwrap().is_none());
    let fault = |list: &[&str]| parse_target(&args(list)).unwrap_err().message;
    assert!(fault(&[]).starts_with("usage: zcvhost-ofi-volume --bind"));
    assert!(fault(&all[..6]).starts_with("usage: "));
    assert_eq!(
        fault(&["--bind", "a", "--base-service", "65536"]),
        "--base-service exceeds u16"
    );
    assert_eq!(fault(&["--lanes"]), "missing --lanes");
    assert_eq!(fault(&["--lanes", "x"]), "invalid --lanes");
    assert_eq!(fault(&["--capacity-bytes", "x"]), "invalid --capacity-bytes");
    assert_eq!(fault(&["--lane-cpus", "1,,2"]), "invalid --lane-cpus");
    assert!(fault(&["--what"]).starts_with("unknown option --what\nusage: "));
}

#[test]
fn readview_work_is_shared_out() {
    let work = parse_work(&args(&["10", "4"])).unwrap();
    let shares: Vec<u64> =
        (0..work.workers).map(|w| worker_operations(work.operations, work.workers, w)).collect();
    assert_eq!(shares, vec![3, 3, 2, 2]);
    let usual = parse_work(&args(&[])).unwrap();
    assert_eq!((usual.operations, usual.workers), (50_000_000, 1));
    assert_eq!(
        parse_work(&args(&["0"])).unwrap_err().message,
        "operations and workers must be nonzero"
    );
    assert_eq!(parse_work(&args(&["x"])).unwrap_err().message, "invalid operations \"x\"");
    assert_eq!(parse_work(&args(&["1", "a\tb"])).unwrap_err().message, "invalid workers \"a\\tb\"");
    assert_eq!(parse_u64("12", "n").unwrap(), 12);
    assert_eq!(parse_usize("", "n").unwrap_err().message, "invalid n \"\"");
}

#[test]
fn readview_pinning_is_reported() {
    assert_eq!(parse_cpu_list("1,,2,").unwrap(), vec![1, 2]);
    assert_eq!(parse_cpu_list("1,x").unwrap_err().message, "invalid CPU \"x\"");
    for off in ["", "0", "false", "no"] {
        assert!(!env_flag(&said(off)));
    }
    assert!(env_flag(&said("1")));
    assert!(env_flag(&said("False")));
    assert!(!env_flag(&None));
    assert_eq!(
        lane_map(2, &vec![5]),
        "lane0:worker0:cpu5,lane1:worker1:cpu-unpinned"
    );
    assert_eq!(check_pinning(1, &vec![5], true).unwrap(), None);
    let text = "worker CPU pinning missing: workers=2 supplied_cpus=1; result is non-representative";
    assert_eq!(check_pinning(2, &vec![5], false).unwrap().unwrap(), text);
    assert_eq!(check_pinning(2, &vec![5], true).unwrap_err().message, text);
    assert_eq!(CPU_SETSIZE, libc::CPU_SETSIZE as usize);
    assert!(check_cpu(1023).is_ok());
    assert_eq!(check_cpu(1024).unwrap_err().message, "CPU 1024 exceeds CPU_SETSIZE");
}

#[test]
fn snapshot_arguments_take_values_either_way() {
    let parsed = parse_args(&args(&["snapshot", "--source", "/a", "--output=/b", "--bytes=12"]));
    let parsed = parsed.unwrap();
    assert_eq!((parsed.source.as_str(), parsed.snapshot.as_str()), ("/a", "/b"));
    assert_eq!((parsed.bytes, parsed.mode), (Some(12), Mode::Reflink));
    let parsed = parse_args(&args(&["--input=--input=/a", "--snapshot", "/b", "--mode", " CoPy "]));
    let parsed = parsed.unwrap();
    assert_eq!((parsed.source.as_str(), parsed.mode), ("/a", Mode::Copy));
    let fault = |list: &[&str]| parse_args(&args(list)).unwrap_err();
    assert!(fault(&["--source", "/a"]).starts_with("--snapshot is required\nusage: zcpit"));
    assert!(fault(&["--snapshot", "/a"]).starts_with("--source is required\nusage: zcpit"));
    assert!(fault(&["--source", "/a", "snapshot"]).starts_with("unknown argument snapshot\n"));
    assert_eq!(fault(&["--input"]), "--input requires a value");
    assert_eq!(fault(&["--bytes", "x"]), "--bytes must be an integer");
    assert_eq!(fault(&["--bytes=0"]), "--bytes must be greater than zero");
    assert_eq!(
        fault(&["--mode", "Fast\""]),
        "unsupported mode \"fast\\\"\"; expected reflink, auto, or copy"
    );
}

#[test]
fn snapshot_modes_have_other_names() {
    for name in ["reflink", "COW", "zero-copy", "zerocopy\n"] {
        assert_eq!(normalize_mode(name).unwrap(), Mode::Reflink);
    }
    assert_eq!(normalize_mode("auto").unwrap(), Mode::Auto);
    assert_eq!(normalize_mode("full-copy").unwrap(), Mode::Copy);
    assert!(tries_reflink(Mode::Auto) && tries_reflink(Mode::Reflink));
    assert!(!tries_reflink(Mode::Copy));
    let unsupported = Reflink::Unsupported { complaint: "EOPNOTSUPP".to_string() };
    let failed = Reflink::Failed { complaint: "EIO".to_string() };
    assert!(!copies_instead(Mode::Auto, &Reflink::Made).unwrap());
    assert!(copies_instead(Mode::Auto, &unsupported).unwrap());
    assert_eq!(
        copies_instead(Mode::Reflink, &unsupported).unwrap_err(),
        "reflink PIT snapshot failed: EOPNOTSUPP"
    );
    assert_eq!(
        copies_instead(Mode::Auto, &failed).unwrap_err(),
        "reflink PIT snapshot failed: EIO"
    );
    assert!(copy_snapshot(7, None).is_ok());
    assert!(copy_snapshot(7, Some(7)).is_ok());
    assert_eq!(
        copy_snapshot(7, Some(8)).unwrap_err(),
        "source ended after 7 bytes before requested 8 bytes"
    );
}

#[test]
fn alias_counters_are_found_in_a_state() {
    let state = "x=1 bio_alias_writes=oops\nbio_alias_writes=4\tbio_alias_reads=5\r\n\
                 bio_alias_busy_fallbacks=0 bio_alias_required_rejects=2";
    assert_eq!(counter(state, "bio_alias_writes").unwrap(), 4);
    let error = counter(state, "alias").unwrap_err();
    assert_eq!(
        (error.kind, error.message.as_str()),
        (ErrorKind::InvalidData, "missing alias counter")
    );
    let before = alias_counters(state).unwrap();
    assert_eq!(
        before,
        AliasCounters { writes: 4, reads: 5, fallbacks: 0, rejects: 2 }
    );
    assert!(alias_counters("bio_alias_writes=4").is_err());
    let after = AliasCounters { writes: 5, reads: 6, ..before };
    assert!(check_counters(before, after).is_ok());
    assert_eq!(
        check_counters(before, AliasCounters { fallbacks: 3, ..after }).unwrap_err().message,
        "unexpected alias counters writes=1 reads=1 fallbacks=3 rejects=0"
    );
}

#[test]
fn an_arena_test_fills_one_block() {
    let usual = parse_test(&args(&[])).unwrap();
    assert_eq!(
        (usual.socket.as_str(), usual.device.as_str(), usual.lane, usual.cpu, usual.block),
        ("/tmp/zcnblk-app-arena.sock", "/dev/zcnblk0", 0, 0, 61)
    );
    assert_eq!(
        parse_test(&args(&["s", "d", "1", "2", "3", "4"])).unwrap_err().message,
        "too many arguments"
    );
    assert_eq!(
        parse_test(&args(&["s", "d", "4294967296"])).unwrap_err().message,
        "4294967296".parse::<u32>().unwrap_err().to_string()
    );
    let mut block = vec![0u8; 300];
    fill_pattern(&mut block);
    assert_eq!([block[0], block[1], block[255], block[256]], [167, 186, 68, 167]);
    for (index, byte) in block.iter().enumerate() {
        assert_eq!(*byte, 0xa7 ^ (index as u8).wrapping_mul(29));
    }
    assert_eq!(block_offset(61).unwrap(), 249_856);
    assert_eq!(block_offset(u64::MAX).unwrap_err().message, "block offset overflow");
    assert!(check_slot_bytes(4096).is_ok());
    assert_eq!(
        check_slot_bytes(512).unwrap_err().message,
        "smoke test requires 4096-byte slots"
    );
}
