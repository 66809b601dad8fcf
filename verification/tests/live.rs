use zcblock::error::ErrorKind;
use zcblock::live::config::{
    parse_config, parse_cpu_list, parse_method, parse_rates, plan_layout, CopyMethod, Environment,
};
use zcblock::live::placement::{
    check_affinity, check_copy_cpu, check_nodes, common_node, copy_cpu, cpu_label, cpu_node_label,
    cpu_numa_node, cpu_set_label, env_flag, lane_label, option_node, shared_system_measurement,
};
use zcblock::live::run::{
    is_sampled, next_operation, numbered, partition_start, worker_seed, CopyRate, CopyTotals,
    Metrics, Verdict,
};

fn args(list: &[&str]) -> Vec<String> {
    list.iter().map(|text| text.to_string()).collect()
}

fn said(text: &str) -> Option<String> {
    Some(text.to_string())
}

fn plain() -> Environment {
    Environment {
        leaf_partitions: None,
        copy_rate: None,
        min_copy_rate: None,
        adaptive: None,
        copy_method: None,
    }
}

#[test]
fn a_live_run_is_configured() {
    let env = Environment { leaf_partitions: said("2"), copy_rate: said("100"), ..plain() };
    let config = parse_config(&args(&["/data", "8", "2", "0,3", "500"]), &env).unwrap();
    assert_eq!((config.root.as_str(), config.workers), ("/data", 2));
    assert_eq!((config.cpus, config.baseline_ms), (vec![0, 3], 500));
    assert_eq!((config.logical_bytes, config.partition_bytes), (8 << 20, 4 << 20));
    assert_eq!((config.rates.initial, config.rates.minimum), (100 << 20, 64 << 20));
    assert!(config.rates.adaptive);
    assert_eq!(config.copy_method, CopyMethod::CopyFileRange);
}

#[test]
fn a_live_run_refuses_what_does_not_fit() {
    let fault = |list: &[&str], env: &Environment| parse_config(&args(list), env).unwrap_err().message;
    let good = ["/data", "8", "2", "0,3", "500"];
    assert_eq!(
        fault(&good[..4], &plain()),
        "usage: zcvolume-live-bench ROOT SIZE_MIB WORKERS CPU_LIST BASELINE_MS"
    );
    assert_eq!(
        fault(&["data", "8", "2", "0,3", "500"], &plain()),
        "benchmark ROOT must be absolute"
    );
    assert_eq!(fault(&["/d", "x", "2", "0,3", "500"], &plain()), "invalid SIZE_MIB: x");
    assert_eq!(fault(&["/d", "8", "2", "", "500"], &plain()), "CPU_LIST is empty");
    assert_eq!(fault(&["/d", "8", "2", "0,", "500"], &plain()), "invalid CPU_LIST: ");
    let uneven = "size, workers, and baseline duration must be nonzero and CPU_LIST must map every worker";
    assert_eq!(fault(&["/d", "8", "3", "0,3", "500"], &plain()), uneven);
    assert_eq!(fault(&["/d", "8", "2", "0,3", "0"], &plain()), uneven);
    let thirds = Environment { leaf_partitions: said("3"), ..plain() };
    assert_eq!(
        fault(&good, &thirds),
        "volume size must divide into 4096-aligned leaf partitions"
    );
    assert_eq!(plan_layout(u64::MAX, 1).unwrap_err().message, "SIZE_MIB overflow");
    assert_eq!(plan_layout(1, 4).unwrap(), (1 << 20, 1 << 18));
    assert_eq!(parse_cpu_list("7").unwrap(), vec![7]);
}

#[test]
fn copy_rates_are_limited() {
    let fault = |env: &Environment| parse_rates(env).unwrap_err().message;
    assert_eq!(
        fault(&Environment { copy_rate: said("18446744073709551615"), ..plain() }),
        "copy rate overflow"
    );
    assert_eq!(
        fault(&Environment { min_copy_rate: said("18446744073709551615"), ..plain() }),
        "minimum copy rate overflow"
    );
    assert_eq!(
        fault(&Environment { min_copy_rate: said("0"), ..plain() }),
        "minimum copy rate must be nonzero"
    );
    assert_eq!(
        fault(&Environment { copy_rate: said("10"), ..plain() }),
        "minimum copy rate cannot exceed the initial adaptive copy rate"
    );
    let fixed = Environment { copy_rate: said("10"), adaptive: said("0"), ..plain() };
    assert!(!parse_rates(&fixed).unwrap().adaptive);
    assert!(!parse_rates(&plain()).unwrap().adaptive);
    assert!(parse_rates(&Environment { adaptive: said("1"), ..plain() }).unwrap().adaptive);
    assert_eq!(parse_method(&said("buffered")).unwrap(), CopyMethod::Buffered);
    assert_eq!(parse_method(&said("cfr")).unwrap(), CopyMethod::CopyFileRange);
    assert_eq!(
        parse_method(&said("fast")).unwrap_err().message,
        "invalid ZCVOLUME_COPY_METHOD fast"
    );
}

#[test]
fn placement_labels_name_processors() {
    assert_eq!(cpu_label(&vec![4, 6]), "0:4,1:6");
    assert_eq!(cpu_node_label(&vec![4, 6], &vec![Some(1), None]), "4:1,6:unknown");
    assert_eq!(cpu_set_label(&vec![4, 6, 9]), "4,6,9");
    assert_eq!(cpu_set_label(&vec![]), "");
    assert_eq!(lane_label(3), "0:0,1:1,2:2");
    assert_eq!(option_node(Some(7)), "7");
}

#[test]
fn processors_must_be_allowed_and_near() {
    assert_eq!(check_affinity(&vec![1], &vec![1, 2], true).unwrap(), None);
    let text = "worker CPU mapping references CPU outside process affinity: allowed=1,2 map=0:3";
    assert_eq!(check_affinity(&vec![3], &vec![1, 2], false).unwrap().unwrap(), text);
    let error = check_affinity(&vec![3], &vec![1, 2], true).unwrap_err();
    assert_eq!((error.kind, error.message.as_str()), (ErrorKind::InvalidInput, text));
    assert_eq!(common_node(&vec![Some(1), Some(1)]), Some(1));
    assert_eq!(common_node(&vec![Some(1), Some(2)]), None);
    assert_eq!(common_node(&vec![None]), None);
    assert_eq!(common_node(&vec![]), None);
    assert_eq!(
        check_nodes(None, &vec![3], &vec![None], false).unwrap().unwrap(),
        "foreground workers do not resolve to one NUMA node: mapping=3:unknown"
    );
    assert_eq!(check_nodes(Some(0), &vec![3], &vec![Some(0)], true).unwrap(), None);
}

#[test]
fn the_copier_runs_beside_the_workers() {
    let allowed = vec![0, 1, 2, 3];
    let nodes = vec![Some(0), Some(1), Some(1), Some(1)];
    assert_eq!(copy_cpu(Some(3), Some(0), &allowed, &nodes, &vec![1]), 3);
    assert_eq!(copy_cpu(None, Some(1), &allowed, &nodes, &vec![1]), 2);
    assert_eq!(copy_cpu(None, Some(0), &allowed, &nodes, &vec![0]), 0);
    assert_eq!(copy_cpu(None, None, &allowed, &nodes, &vec![1]), 1);
    assert!(check_copy_cpu(2, &allowed, Some(1), Some(1)).is_ok());
    assert!(check_copy_cpu(2, &allowed, None, None).is_ok());
    assert_eq!(
        check_copy_cpu(9, &allowed, Some(1), Some(1)).unwrap_err().message,
        "migration copy CPU 9 is outside process affinity"
    );
    assert_eq!(
        check_copy_cpu(2, &allowed, None, Some(1)).unwrap_err().message,
        "migration copy CPU 2 is on node unknown, foreground is on node 1"
    );
}

#[test]
fn node_directories_are_recognised() {
    assert_eq!(cpu_numa_node("node12").unwrap(), Some(12));
    assert_eq!(cpu_numa_node("node").unwrap(), None);
    assert_eq!(cpu_numa_node("node1x").unwrap(), None);
    assert_eq!(cpu_numa_node("cache").unwrap(), None);
    assert_eq!(
        cpu_numa_node("node4294967296").unwrap_err().message,
        "invalid NUMA node name node4294967296"
    );
    assert!(env_flag(&said("")) && env_flag(&said("no")) && !env_flag(&said("0")));
    assert!(!env_flag(&None));
}

#[test]
fn a_dedicated_system_is_not_shared() {
    let manifest = "a=1\ncoordination_scope=dedicated-adhoc-instance\r\ncoordination_honored=true";
    assert!(!shared_system_measurement(&None, &said(manifest)));
    assert!(shared_system_measurement(&said("1"), &said(manifest)));
    assert!(!shared_system_measurement(&said("0"), &None));
    assert!(shared_system_measurement(&None, &None));
    assert!(shared_system_measurement(&None, &said("coordination_honored=true")));
    let trailing = "coordination_scope=dedicated-adhoc-instance\ncoordination_honored=true\r";
    assert!(shared_system_measurement(&None, &said(trailing)));
    assert_eq!("x\r".lines().next(), Some("x\r"));
}

#[test]
fn operations_are_drawn_in_order() {
    let seed = worker_seed(3);
    assert_eq!(seed, 0x9e37_79b9_7f4a_7c16);
    let operation = next_operation(seed, 2, 1 << 20);
    assert_eq!(operation.random, 6_120_442_140_795_296_948);
    assert_eq!((operation.offset, operation.write), (737_280, false));
    let mut random = seed;
    for _ in 0..1000 {
        let operation = next_operation(random, 4, 8192);
        assert_eq!(operation.offset % 4096, 0);
        assert!(operation.offset + 4096 <= 4 * 8192);
        random = operation.random;
    }
    assert!(is_sampled(0) && is_sampled(2048) && !is_sampled(1023));
}

#[test]
fn operations_are_counted_by_phase() {
    let mut metrics = Metrics::new();
    metrics.record(0, None);
    metrics.record(1, Some(70));
    metrics.record(1, Some(30));
    metrics.record(9, Some(5));
    assert_eq!(metrics.operations, vec![1, 2, 1]);
    assert_eq!(metrics.sampled_operations, vec![0, 2, 1]);
    assert_eq!(metrics.sampled_latency_ns, vec![0, 100, 5]);
    assert_eq!(metrics.max_sampled_latency_ns, vec![0, 70, 5]);
}

#[test]
fn partitions_are_named_and_placed() {
    assert_eq!(numbered("data-", 7, ""), "data-0007");
    assert_eq!(numbered("source-", 12345, ".img"), "source-12345.img");
    assert_eq!(partition_start(3, 4096), 12288);
}

#[test]
fn the_copy_rate_follows_the_measurements() {
    let mut rate = CopyRate::new(0, 100, true);
    assert_eq!((rate.current, rate.fixed, rate.maximum), (512 << 20, 0, 2048 << 20));
    assert_eq!(rate.next(Verdict::Slower), 456_340_275);
    assert_eq!(rate.next(Verdict::Faster), 501_974_302);
    assert_eq!(rate.next(Verdict::Keep), 501_974_302);
    assert_eq!(rate.adjustments, 3);
    let mut low = CopyRate::new(100, 90, true);
    assert_eq!(low.next(Verdict::Slower), 90);
    let mut high = CopyRate { maximum: 105, ..CopyRate::new(100, 90, true) };
    assert_eq!(high.next(Verdict::Faster), 105);
    assert_eq!(CopyRate::new(70, 1, false).rate(), 70);
}

#[test]
fn copies_add_up() {
    let one = CopyTotals {
        base_bytes: 10,
        dirty_pages: 1,
        dirty_bytes: 4096,
        generation: 5,
        fence_total_ns: 30,
        fence_max_ns: 0,
    };
    let mut totals = CopyTotals::new();
    totals.count_copy(one);
    totals.count_copy(CopyTotals { generation: 3, fence_total_ns: 20, ..one });
    assert_eq!(
        totals,
        CopyTotals {
            base_bytes: 20,
            dirty_pages: 2,
            dirty_bytes: 8192,
            generation: 5,
            fence_total_ns: 50,
            fence_max_ns: 30,
        }
    );
}
