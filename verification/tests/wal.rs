use zcblock::wal::arena::RecordArena;
use zcblock::wal::combiner::{ReduceBlockStore, WalCombiner};
use zcblock::wal::config::{
    assign_lanes, env_falsey, env_truthy, fmt_lanes, parse_count, parse_cpu_list,
    target_cpu_for_worker, validate_config, Config, Environment, Mode, Pattern, ReadAccess,
};
use zcblock::wal::lane::LaneState;
use zcblock::wal::run::{
    checksum_record, logical_record, make_source_extent, make_source_pattern, merge, mix64,
    mixed_is_read, record_read, run_lane_combine, run_lane_mixed, run_lane_read, run_lane_reduce,
    run_worker, Bases, WorkerStats,
};

fn args(list: &[&str]) -> Vec<String> {
    list.iter().map(|text| text.to_string()).collect()
}

fn plain() -> Environment {
    Environment {
        read_access: None,
        pin: None,
        cpu_list: None,
        thp: None,
        hugetlb: None,
        verify: None,
        bulk_extents: None,
    }
}

fn said(text: &str) -> Option<String> {
    Some(text.to_string())
}

fn config(list: &[&str]) -> Config {
    let small = [
        "--lanes", "1", "--workers", "1", "--records-per-lane", "6", "--record-bytes", "16",
        "--extent-records", "4", "--block-records", "4",
    ];
    Config::parse(&plain(), &args(&[&small[..], list].concat())).unwrap().unwrap()
}

fn lane(c: &Config) -> LaneState {
    LaneState::new(
        0,
        c.mode.needs_wal(),
        c.mode.needs_blockstore(),
        c.records_per_lane,
        c.block_records_per_lane,
        c.record_bytes,
        c.extent_records,
    )
    .unwrap()
}

#[test]
fn arenas_hold_records() {
    let mut arena = RecordArena::new(3, 4).unwrap();
    arena.write(1, &[9, 1, 2, 3, 4], 1);
    let mut out = vec![0; 4];
    arena.read(1, &mut out);
    assert_eq!(out, vec![1, 2, 3, 4]);
    let mut other = RecordArena::new(2, 4).unwrap();
    other.write_from(0, &arena, 1);
    other.read(0, &mut out);
    assert_eq!(out, vec![1, 2, 3, 4]);
    other.read(1, &mut out);
    assert_eq!(out, vec![0; 4]);
    assert!(RecordArena::new(usize::MAX, 2).is_none());
    assert_eq!(
        ReduceBlockStore::new(usize::MAX, 2).unwrap_err().message,
        "blockstore arena size overflow"
    );
}

#[test]
fn the_mixer_is_the_usual_one() {
    assert_eq!(mix64(0), 0xe220_a839_7b1d_cdaf);
    let c = config(&["--pattern", "random", "--block-records", "10"]);
    assert_eq!(logical_record(&c, 2, 5), 6);
    let c = config(&[]);
    assert_eq!(logical_record(&c, 2, 5), 1);
    let reads: Vec<bool> = (0..10).map(|op| mixed_is_read(1, op, 50)).collect();
    assert_eq!(reads, vec![true, true, true, false, true, true, false, false, false, true]);
    assert!(!mixed_is_read(1, 0, 0));
    assert!(mixed_is_read(1, 3, 100));
    assert_eq!(make_source_pattern(1, 4), vec![56, 111, 34, 155]);
    assert_eq!(make_source_extent(1, 2, 3), vec![56, 111, 56, 111, 56, 111]);
}

#[test]
fn records_have_a_check() {
    let mut record = vec![0u8; 20];
    record[0] = 5;
    record[12] = 7;
    assert_eq!(checksum_record(&record), 12);
    assert_eq!(checksum_record(&vec![9; 15]), 0);
}

#[test]
fn a_combiner_closes_extents() {
    let mut combiner = WalCombiner::new(2, 5, 4, 2, 2).unwrap();
    assert!(!combiner.append_record(3, &[1, 2]).unwrap());
    assert!(combiner.append_record(1, &[3, 4, 9]).unwrap());
    assert_eq!((combiner.wal_extents, combiner.max_extent_records), (1, 2));
    assert!(!combiner.append_record(3, &[5, 6]).unwrap());
    combiner.flush();
    combiner.flush();
    assert_eq!((combiner.wal_extents, combiner.pending_extent_records), (2, 0));
    let mut out = vec![0; 2];
    assert!(combiner.read_dirty_into(3, &mut out));
    assert_eq!(out, vec![5, 6]);
    assert!(!combiner.read_dirty_into(0, &mut out));
    assert_eq!(out, vec![5, 6]);
    combiner.clear_dirty_if_current(3, 0);
    assert_eq!(combiner.dirty[3], 2);
    combiner.clear_dirty_if_current(3, 2);
    assert_eq!(combiner.dirty[3], usize::MAX);
    combiner.append_extent(&[7, 7, 8, 8], &vec![0, 1]).unwrap();
    assert_eq!(
        combiner.append_record(0, &[1, 1]).unwrap_err().message,
        "lane 2 exhausted wal capacity 5; increase --records-per-lane or read percentage"
    );
    assert!(combiner.append_extent(&[], &vec![]).is_ok());
    let mut short = WalCombiner::new(0, 5, 4, 2, 9).unwrap();
    assert_eq!(
        short.append_extent(&[1, 2, 3], &vec![0, 1]).unwrap_err().message,
        "source extent has 3 bytes but 4 are required"
    );
    assert_eq!(
        WalCombiner::new(0, usize::MAX, 1, 2, 1).unwrap_err().message,
        "wal arena size overflow"
    );
}

#[test]
fn runs_of_records_are_recognised() {
    let mut combiner = WalCombiner::new(0, 8, 8, 1, 8).unwrap();
    combiner.append_extent(&[1, 2, 3, 4], &vec![4, 5, 6, 2]).unwrap();
    assert_eq!(combiner.extent_is_contiguous(0, 3, 8), Some(4));
    assert_eq!(combiner.extent_is_contiguous(0, 4, 8), None);
    assert_eq!(combiner.extent_is_contiguous(0, 3, 6), None);
    assert_eq!(combiner.extent_is_contiguous(0, 0, 8), None);
    assert_eq!(combiner.extent_is_contiguous(5, 1, 8), None);
}

#[test]
fn references_have_tokens() {
    let store = ReduceBlockStore::new(4, 64).unwrap();
    assert_eq!(store.record_ref_token(3, 0x1000 + 3 * 64), 12_757_667_566_931_935_299);
    let mut combiner = WalCombiner::new(2, 4, 4, 64, 4).unwrap();
    combiner.append_record(0, &[1; 64]).unwrap();
    combiner.append_record(3, &[2; 64]).unwrap();
    assert_eq!(combiner.read_dirty_ref_token(3, 0x2000), Some(562_951_035_551_809));
    assert_eq!(combiner.read_dirty_ref_token(1, 0x2000), None);
    let mut state = LaneState::new(2, true, true, 4, 4, 64, 4).unwrap();
    state.append_write(0, &[1; 64]).unwrap();
    state.append_write(3, &[2; 64]).unwrap();
    let dirty = state.read_ref(3, 0x2000, 0x1000);
    assert_eq!((dirty.dirty, dirty.token), (true, 562_951_035_551_809));
    let clean = LaneState::new(2, false, true, 4, 4, 64, 4).unwrap().read_ref(3, 0x2000, 0x1000);
    assert_eq!((clean.dirty, clean.token), (false, 12_757_667_566_931_935_299));
    assert_eq!(LaneState::new(2, false, false, 4, 4, 64, 4).unwrap().read_ref(3, 1, 1).token, 0);
}

#[test]
fn reads_see_the_latest_write_before_and_after_reduction() {
    let mut state = LaneState::new(0, true, true, 8, 4, 2, 2).unwrap();
    let mut out = vec![9; 2];
    assert!(!state.read_into(1, &mut out));
    assert_eq!(out, vec![0, 0]);
    assert!(!state.append_write(1, &[1, 1]).unwrap());
    assert!(state.append_write(1, &[2, 2]).unwrap());
    assert!(!state.append_write(3, &[3, 3]).unwrap());
    assert!(state.read_into(1, &mut out));
    assert_eq!(out, vec![2, 2]);
    assert_eq!(state.reduce_extent(0, 2).unwrap(), 4);
    assert!(!state.read_into(1, &mut out));
    assert_eq!(out, vec![2, 2]);
    assert!(state.read_into(3, &mut out));
    assert_eq!(out, vec![3, 3]);
    assert_eq!((state.reduced_extents, state.contiguous_reduce_extents), (1, 0));
    assert_eq!(state.scattered_reduce_records, 2);
    state.flush_wal();
    assert_eq!(state.reduce_latest_completed_extent(2, 1).unwrap(), 2);
    assert_eq!(state.contiguous_reduce_extents, 1);
    assert_eq!((state.wal_extents(), state.max_extent_records()), (2, 2));
    assert_eq!(state.reduce_extent(0, 0).unwrap(), 0);
}

#[test]
fn a_lane_says_what_it_lacks() {
    let mut reader = LaneState::new(0, false, true, 4, 4, 2, 2).unwrap();
    assert_eq!(
        reader.append_write(0, &[1, 1]).unwrap_err().message,
        "write attempted without a WAL combiner"
    );
    assert_eq!(
        reader.append_write_extent(&[1, 1], &vec![0]).unwrap_err().message,
        "write extent attempted without a WAL combiner"
    );
    assert_eq!(
        reader.reduce_extent(0, 1).unwrap_err().message,
        "reduce attempted without a WAL combiner"
    );
    let mut writer = LaneState::new(0, true, false, 4, 4, 2, 2).unwrap();
    writer.append_write(0, &[1, 1]).unwrap();
    assert_eq!(
        writer.reduce_extent(0, 1).unwrap_err().message,
        "reduce attempted without a blockstore"
    );
}

#[test]
fn combining_and_reducing_count_the_same_either_way() {
    for flag in ["--bulk-extents", "--per-record-ingest"] {
        let c = config(&["--mode", "combine", flag]);
        let source = make_source_pattern(0, c.record_bytes);
        let extent = make_source_extent(0, c.record_bytes, c.extent_records);
        let mut stats = WorkerStats::new();
        let mut state = lane(&c);
        run_lane_combine(0, &mut state, &source, &extent, &c, &mut stats).unwrap();
        assert_eq!((stats.ops, stats.writes, stats.wal_bytes), (6, 6, 96));
        let c = config(&["--mode", "reduce", flag]);
        let mut stats = WorkerStats::new();
        let mut state = lane(&c);
        run_lane_reduce(0, &mut state, &source, &extent, &c, &mut stats).unwrap();
        assert_eq!((stats.writes, stats.reduce_bytes), (6, 96));
        let mut out = vec![0; 16];
        for logical in 0..4 {
            assert!(!state.read_into(logical, &mut out));
            assert_eq!(out, source);
        }
    }
}

#[test]
fn a_run_on_a_used_log_reduces_from_its_start() {
    let c = config(&["--mode", "reduce", "--per-record-ingest"]);
    let source = make_source_pattern(0, c.record_bytes);
    let extent = make_source_extent(0, c.record_bytes, c.extent_records);
    let mut state = LaneState::new(0, true, true, 12, 4, 16, c.extent_records).unwrap();
    let older = vec![7; 16];
    for logical in [0, 1, 2, 3, 0, 1] {
        state.append_write(logical, &older).unwrap();
    }
    let mut stats = WorkerStats::new();
    run_lane_reduce(0, &mut state, &source, &extent, &c, &mut stats).unwrap();
    assert_eq!((stats.writes, stats.reduce_bytes), (6, 96));
    let mut out = vec![0; 16];
    for logical in 0..4 {
        assert!(state.read_into(logical, &mut out));
        assert_eq!(out, source);
    }
    let store = state.blockstore.as_ref().unwrap();
    assert_eq!((store.arena.records, store.arena.record_bytes), (4, 16));
}

#[test]
fn reading_counts_hits_and_misses() {
    let c = config(&["--mode", "read", "--read-copy"]);
    let state = lane(&c);
    let mut sink = vec![0; 16];
    let mut stats = WorkerStats::new();
    let bases = Bases { wal: 0, store: 0 };
    run_lane_read(0, &state, &c, bases, &mut sink, &mut stats);
    assert_eq!((stats.ops, stats.reads, stats.dirty_misses), (6, 6, 6));
    assert_eq!((stats.read_bytes, stats.read_ref_bytes, stats.checksum), (96, 0, 0));
    let c = config(&["--mode", "mixed", "--read-ref"]);
    let mut state = lane(&c);
    state.append_write(2, &[1; 16]).unwrap();
    let mut stats = WorkerStats::new();
    record_read(&state, 2, &c, Bases { wal: 0x40, store: 0x80 }, &mut sink, &mut stats);
    assert_eq!((stats.dirty_hits, stats.read_ref_bytes), (1, 16));
    assert_eq!(stats.checksum, (0x40u64.rotate_left(17)) ^ 16);
}

#[test]
fn a_worker_runs_its_lanes() {
    let bases = Bases { wal: 0, store: 0 };
    let mut total = WorkerStats::new();
    for (mode, writes, reads) in [("combine", 6, 0), ("reduce", 6, 0), ("read", 0, 6)] {
        let c = config(&["--mode", mode]);
        let source = make_source_pattern(0, c.record_bytes);
        let extent = make_source_extent(0, c.record_bytes, c.extent_records);
        let mut sink = vec![0; 16];
        let mut stats = WorkerStats::new();
        let mut state = lane(&c);
        run_worker(0, &mut state, &source, &extent, &c, bases, &mut sink, &mut stats).unwrap();
        assert_eq!((stats.ops, stats.writes, stats.reads), (6, writes, reads));
        total = merge(total, stats);
    }
    assert_eq!((total.ops, total.writes, total.reads), (18, 12, 6));
    assert_eq!((total.wal_extents, total.max_extent_records), (4, 4));
    let c = config(&[
        "--mode", "mixed", "--records-per-lane", "10", "--read-pct", "50",
        "--reduce-every-extents", "1", "--extent-records", "2",
    ]);
    let source = make_source_pattern(0, c.record_bytes);
    let mut sink = vec![0; 16];
    let mut stats = WorkerStats::new();
    let mut state = lane(&c);
    run_lane_mixed(1, &mut state, &source, &c, bases, &mut sink, &mut stats).unwrap();
    assert_eq!((stats.ops, stats.writes, stats.reads), (10, 4, 6));
    assert_eq!(stats.reduce_bytes, 64);
    let mut out = vec![0; 16];
    assert!((0..4).all(|logical| !state.read_into(logical, &mut out)));
}

#[test]
fn wal_runs_are_configured() {
    let usual = Config::parse(&plain(), &args(&[])).unwrap().unwrap();
    assert_eq!((usual.mode, usual.pattern), (Mode::Mixed, Pattern::Sequential));
    assert_eq!((usual.lanes, usual.records_per_lane, usual.record_bytes), (8, 65536, 4096));
    assert_eq!((usual.pin, usual.thp, usual.hugetlb, usual.bulk_extents), (false, true, false, true));
    let env = Environment {
        read_access: said(" ref "),
        pin: said("yes"),
        cpu_list: said("1-3,2"),
        thp: said("off"),
        hugetlb: said("1"),
        verify: said("on"),
        bulk_extents: said("0"),
    };
    let set = Config::parse(&env, &args(&["--no-pin", "--records-per-lane", "2K"])).unwrap().unwrap();
    assert_eq!((set.read_access, set.pin, set.cpu_list), (ReadAccess::Ref, false, vec![1, 2, 3, 2]));
    assert_eq!((set.thp, set.hugetlb, set.verify, set.bulk_extents), (false, true, true, false));
    assert_eq!(set.records_per_lane, 2048);
    let wrong = Environment { cpu_list: said("x"), ..plain() };
    assert!(Config::parse(&wrong, &args(&[])).unwrap().unwrap().cpu_list.is_empty());
    assert!(Config::parse(&plain(), &args(&["-h"])).unwrap().is_none());
    let fault = |list: &[&str]| Config::parse(&plain(), &args(list)).unwrap_err().message;
    assert_eq!(fault(&["--mode"]), "--mode requires a value");
    assert_eq!(
        fault(&["--mode", "x"]),
        "unknown mode \"x\"; expected combine, reduce, read, or mixed"
    );
    assert_eq!(fault(&["--pattern", "x"]), "unknown pattern \"x\"; expected seq or random");
    assert_eq!(fault(&["--read-access", "x"]), "unknown read access \"x\"; expected copy or ref");
    assert_eq!(fault(&["--what"]), "unknown argument \"--what\"; pass --help for usage");
    assert_eq!(
        fault(&["--read-pct", "-"]),
        format!("invalid --read-pct: {}", "-".parse::<u32>().unwrap_err())
    );
}

#[test]
fn wal_configurations_are_checked() {
    let texts: [(&[&str], &str); 7] = [
        (&["--lanes", "0"], "--lanes must be nonzero"),
        (&["--workers", "0"], "--workers must be nonzero"),
        (&["--records-per-lane", "0"], "--records-per-lane must be nonzero"),
        (&["--record-bytes", "15"], "--record-bytes must be at least 16"),
        (&["--extent-records", "0"], "--extent-records must be nonzero"),
        (&["--block-records", "0"], "--block-records-per-lane must be nonzero"),
        (&["--read-pct", "101"], "--read-pct must be between 0 and 100"),
    ];
    for (list, text) in texts {
        assert_eq!(validate_config(&config(list)).unwrap_err().message, text);
    }
    assert!(validate_config(&config(&[])).is_ok());
}

#[test]
fn counts_have_suffixes() {
    assert_eq!(parse_count(" 3k ").unwrap(), 3072);
    assert_eq!(parse_count("2M").unwrap(), 2 << 20);
    assert_eq!(parse_count("1g").unwrap(), 1 << 30);
    assert_eq!(parse_count("17").unwrap(), 17);
    assert_eq!(parse_count("  ").unwrap_err().message, "empty numeric value");
    assert_eq!(
        parse_count("1xk").unwrap_err().message,
        format!("invalid numeric value \"1xk\": {}", "1x".parse::<usize>().unwrap_err())
    );
    assert_eq!(
        parse_count("18446744073709551615k").unwrap_err().message,
        "numeric value \"18446744073709551615k\" overflows usize"
    );
    assert_eq!(parse_cpu_list(" 1 , ,3-4").unwrap(), vec![1, 3, 4]);
    assert_eq!(
        parse_cpu_list("4-3").unwrap_err().message,
        "invalid descending CPU range \"4-3\""
    );
    assert_eq!(
        parse_cpu_list("a-3").unwrap_err().message,
        format!("invalid CPU range \"a-3\": {}", "a".parse::<usize>().unwrap_err())
    );
    assert_eq!(
        parse_cpu_list("3-").unwrap_err().message,
        format!("invalid CPU range \"3-\": {}", "".parse::<usize>().unwrap_err())
    );
    assert_eq!(
        parse_cpu_list("q").unwrap_err().message,
        format!("invalid CPU \"q\": {}", "q".parse::<usize>().unwrap_err())
    );
    assert!(env_truthy(&said("TRUE")) && !env_truthy(&said("True")) && !env_truthy(&None));
    assert!(env_falsey(&said("off")) && !env_falsey(&said("")) && !env_falsey(&None));
    assert_eq!(ReadAccess::from_env(&said(" ")).unwrap(), ReadAccess::Copy);
}

#[test]
fn lanes_are_dealt_out() {
    assert_eq!(assign_lanes(5, 2), vec![vec![0, 2, 4], vec![1, 3]]);
    assert_eq!(fmt_lanes(&vec![0, 2, 4]), "0,2,4");
    let mut c = config(&["--pin"]);
    assert_eq!(target_cpu_for_worker(&c, 9), Some(9));
    c.cpu_list = vec![4, 6];
    assert_eq!(target_cpu_for_worker(&c, 3), Some(6));
    c.pin = false;
    assert_eq!(target_cpu_for_worker(&c, 3), None);
}

#[test]
fn wal_names_are_read_back() {
    for mode in [Mode::Combine, Mode::Reduce, Mode::Read, Mode::Mixed] {
        assert_eq!(Mode::parse(mode.name()).unwrap(), mode);
    }
    for pattern in [Pattern::Sequential, Pattern::Random] {
        assert_eq!(Pattern::parse(pattern.name()).unwrap(), pattern);
    }
    for access in [ReadAccess::Copy, ReadAccess::Ref] {
        assert_eq!(ReadAccess::parse(access.name()).unwrap(), access);
    }
    assert_eq!(Mode::parse("wal").unwrap(), Mode::Combine);
    assert_eq!(Mode::parse("sync").unwrap(), Mode::Reduce);
    assert_eq!(Mode::parse("rw").unwrap(), Mode::Mixed);
    assert_eq!(ReadAccess::parse("descriptor").unwrap(), ReadAccess::Ref);
}
