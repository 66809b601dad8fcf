use virtio_bindings::{virtio_blk, virtio_config, virtio_ring};
use zcblock::error::ErrorKind;
use zcblock::vhost::config::{
    features, queue_masks, stats, DeviceConfig, CONFIG_WCE_OFFSET, FEATURE_BLK_SIZE,
    FEATURE_CONFIG_WCE, FEATURE_EVENT_IDX, FEATURE_FLUSH, FEATURE_MQ, FEATURE_PROTOCOL, FEATURE_RO,
    FEATURE_SEG_MAX, FEATURE_VERSION_1,
};
use zcblock::vhost::lane::{
    arena_completion_stats, arena_followup, arena_needs_notification, direct_completion_stats,
    drain_arena, flushes_before_retiring, pressure_sync, queue_arena_with_pressure,
    retire_arena_one, retire_direct_one, ArenaFollowup, ArenaResult, DataQueue, Drain, Pressure,
    Probe,
};
use zcblock::vhost::options::{check_placement, cq_wakeup, parse_options, usage};
use zcblock::vhost::queue::{ArenaQueue, DirectCompletion, DirectDataQueue, Pending};
use zcblock::vhost::regions::{
    add_used_arena_fast, event_address, load_three_descriptors_fast, table_span, GuestRegions,
    VRING_DESC_F_NEXT, VRING_DESC_F_WRITE,
};
use zcblock::vhost::request::{
    check_id, data_len, execute, load_descriptors, parse_header, process_chain, process_loaded_chain, retire,
    route_request, used_length, validate_data_direction, virtio_need_event, DescriptorMeta,
    Outcome, RequestHeader, RequestKind, Route, Stats, Work, VIRTIO_BLK_S_IOERR, VIRTIO_BLK_S_OK,
    VIRTIO_BLK_S_UNSUPP, VIRTIO_BLK_T_BARRIER, VIRTIO_BLK_T_FLUSH, VIRTIO_BLK_T_GET_ID,
    VIRTIO_BLK_T_IN, VIRTIO_BLK_T_OUT,
};
use zcblock::vhost::stage::{check_direct_slot, ArenaStage, FileLeaf};
use zcblock::vhost::worker::{
    check_event, handle_event, header_and_status_fit, next_head, poll_queue, prepare_arena_fast,
    prepare_arena_data, prepare_arena_plan, process_queue, reap_arena_ready, start_round, Action, AvailCache,
    EventAction, EventPhase, EventSetup, FastNeed, LaneShape, RingState, Seen,
};

fn args(list: &[&str]) -> Vec<String> {
    list.iter().map(|text| text.to_string()).collect()
}

fn meta(address: u64, length: u32, writable: bool) -> DescriptorMeta {
    DescriptorMeta { address, length, writable }
}

fn pending(kind: RequestKind) -> Pending {
    Pending {
        head_index: 3,
        data: meta(0x1000, 4096, kind == RequestKind::Read),
        data_host_address: 0x10_0000,
        status_host_address: 0x20_0000,
        kind,
    }
}

fn header(kind: u32, sector: u64) -> [u8; 16] {
    let mut bytes = [0u8; 16];
    bytes[0..4].copy_from_slice(&kind.to_le_bytes());
    bytes[8..16].copy_from_slice(&sector.to_le_bytes());
    bytes
}

#[test]
fn event_index_interval_handles_batches_and_u16_wraparound() {
    assert!(virtio_need_event(3, 4, 3));
    assert!(!virtio_need_event(4, 4, 3));
    assert!(virtio_need_event(6, 8, 5));
    assert!(!virtio_need_event(8, 8, 5));
    assert!(virtio_need_event(0, 1, u16::MAX - 1));
    assert!(!virtio_need_event(1, 1, u16::MAX - 1));
    assert!(!virtio_need_event(8, 8, 8));
}

#[test]
fn header_parser_uses_little_endian_sector_and_ignores_legacy_barrier() {
    let mut bytes = [0u8; 16];
    bytes[0..4].copy_from_slice(&(VIRTIO_BLK_T_OUT | VIRTIO_BLK_T_BARRIER).to_le_bytes());
    bytes[8..16].copy_from_slice(&0x0102_0304_0506_0708u64.to_le_bytes());
    let header = parse_header(&bytes);
    assert_eq!(header.kind, RequestKind::Write);
    assert_eq!(header.sector, 0x0102_0304_0506_0708);
}

#[test]
fn terminal_file_leaf_is_bounded_and_persistent() {
    let leaf = FileLeaf::open(4096, false).unwrap();
    let mut media = vec![0u8; leaf.capacity as usize];
    let payload = [0xa5u8; 512];
    let end = leaf.write_end(1024, payload.len()).unwrap() as usize;
    media[end - payload.len()..end].copy_from_slice(&payload);
    let end = leaf.checked_end(1024, 512).unwrap() as usize;
    let result = &media[end - 512..end];
    assert_eq!(result, payload);
    assert!(leaf.write_end(4096, 1).is_err());

    let read_only = FileLeaf::open(4096, true).unwrap();
    assert!(read_only.write_end(0, 1).is_err());
}

#[test]
fn config_reports_sector_capacity_queue_count_and_writeback() {
    let leaf = FileLeaf::open(1024 * 1024, false).unwrap();
    let config = DeviceConfig::new(leaf.capacity, 4, 256).bytes;
    assert_eq!(u64::from_le_bytes(config[0..8].try_into().unwrap()), 2048);
    assert_eq!(u32::from_le_bytes(config[20..24].try_into().unwrap()), 512);
    assert_eq!(u16::from_le_bytes(config[34..36].try_into().unwrap()), 4);
    assert_eq!(config[CONFIG_WCE_OFFSET], 1);
}

#[test]
fn guest_region_fast_path_is_bounded_and_refreshes_with_the_memory_table() {
    let mut worker = GuestRegions::new();
    let first_base = 0x7f00_0000_0000u64;
    worker
        .refresh_guest_regions(&vec![
            (0x1000, 0x2000, first_base),
            (0x8000, 0x1000, first_base + 0x10_0000),
        ])
        .unwrap();
    let mut table = Vec::new();
    for (address, length, flags, next) in [
        (0x1800u64, 16u32, VRING_DESC_F_NEXT, 1u16),
        (0x1900, 4096, VRING_DESC_F_NEXT | VRING_DESC_F_WRITE, 2),
        (0x1a00, 1, VRING_DESC_F_WRITE, 0),
        (0, 0, 0, 0),
    ] {
        table.extend_from_slice(&address.to_le_bytes());
        table.extend_from_slice(&length.to_le_bytes());
        table.extend_from_slice(&flags.to_le_bytes());
        table.extend_from_slice(&next.to_le_bytes());
    }
    let loaded = load_three_descriptors_fast(&table, 4, 0).unwrap();
    assert_eq!(loaded.1.length, 4096);
    assert!(loaded.1.writable);
    let first_host = worker.guest_host_address(0x1800, 1).unwrap();
    assert_eq!(first_host, first_base + 0x800);
    assert!(worker.guest_host_address(0x2fff, 2).is_none());
    assert!(worker.guest_host_address(0x7000, 1).is_none());

    let second_base = 0x7e00_0000_0000u64;
    worker.refresh_guest_regions(&vec![(0x1000, 0x2000, second_base)]).unwrap();
    let second_host = worker.guest_host_address(0x1800, 1).unwrap();
    assert_ne!(first_host, second_host);
    assert_eq!(second_host, second_base + 0x800);
}

#[test]
fn constants_are_those_of_the_standard() {
    assert_eq!(VIRTIO_BLK_T_IN, virtio_blk::VIRTIO_BLK_T_IN);
    assert_eq!(VIRTIO_BLK_T_OUT, virtio_blk::VIRTIO_BLK_T_OUT);
    assert_eq!(VIRTIO_BLK_T_FLUSH, virtio_blk::VIRTIO_BLK_T_FLUSH);
    assert_eq!(VIRTIO_BLK_T_GET_ID, virtio_blk::VIRTIO_BLK_T_GET_ID);
    assert_eq!(u32::from(VIRTIO_BLK_S_OK), virtio_blk::VIRTIO_BLK_S_OK);
    assert_eq!(u32::from(VIRTIO_BLK_S_IOERR), virtio_blk::VIRTIO_BLK_S_IOERR);
    assert_eq!(u32::from(VIRTIO_BLK_S_UNSUPP), virtio_blk::VIRTIO_BLK_S_UNSUPP);
    assert_eq!(FEATURE_SEG_MAX, 1 << virtio_blk::VIRTIO_BLK_F_SEG_MAX);
    assert_eq!(FEATURE_RO, 1 << virtio_blk::VIRTIO_BLK_F_RO);
    assert_eq!(FEATURE_BLK_SIZE, 1 << virtio_blk::VIRTIO_BLK_F_BLK_SIZE);
    assert_eq!(FEATURE_FLUSH, 1 << virtio_blk::VIRTIO_BLK_F_FLUSH);
    assert_eq!(FEATURE_CONFIG_WCE, 1 << virtio_blk::VIRTIO_BLK_F_CONFIG_WCE);
    assert_eq!(FEATURE_MQ, 1 << virtio_blk::VIRTIO_BLK_F_MQ);
    assert_eq!(FEATURE_EVENT_IDX, 1 << virtio_ring::VIRTIO_RING_F_EVENT_IDX);
    assert_eq!(FEATURE_VERSION_1, 1 << virtio_config::VIRTIO_F_VERSION_1);
    assert_eq!(u32::from(VRING_DESC_F_NEXT), virtio_ring::VRING_DESC_F_NEXT);
    assert_eq!(u32::from(VRING_DESC_F_WRITE), virtio_ring::VRING_DESC_F_WRITE);
    assert_eq!(
        FEATURE_PROTOCOL,
        vhost::vhost_user::message::VhostUserVirtioFeatures::PROTOCOL_FEATURES.bits()
    );
}

#[test]
fn request_types_are_told_apart() {
    let kind = |value: u32| parse_header(&header(value, 1)).kind;
    assert_eq!(kind(VIRTIO_BLK_T_IN), RequestKind::Read);
    assert_eq!(kind(VIRTIO_BLK_T_FLUSH), RequestKind::Flush);
    assert_eq!(kind(VIRTIO_BLK_T_GET_ID), RequestKind::GetId);
    assert_eq!(kind(11), RequestKind::Unsupported);
}

#[test]
fn chains_have_a_header_and_a_status() {
    let mut kept = Vec::new();
    let chain = vec![meta(0, 16, false), meta(1, 512, true), meta(2, 1, true)];
    assert!(load_descriptors(&chain, &mut kept));
    assert_eq!(kept, chain);
    assert_eq!(data_len(&chain), Some(512));
    assert!(!load_descriptors(&vec![meta(0, 16, false)], &mut kept));
    assert!(!load_descriptors(&vec![meta(0, 1, false); 1025], &mut kept));
    assert_eq!(kept.len(), 1024);
    assert!(validate_data_direction(&chain, RequestKind::Read));
    assert!(!validate_data_direction(&chain, RequestKind::Write));
    let mut counts = Stats::new();
    assert!(process_chain(&chain, &mut counts));
    assert!(!process_chain(&vec![meta(0, 15, false), meta(2, 1, true)], &mut counts));
    assert_eq!(counts.io_errors, 1);
    let read = RequestHeader { kind: RequestKind::Read, sector: 0 };
    assert_eq!(route_request(read, &chain), Route::Execute);
    let write = RequestHeader { kind: RequestKind::Write, sector: 0 };
    assert_eq!(route_request(write, &chain), Route::Refuse);
    let other = RequestHeader { kind: RequestKind::Unsupported, sector: 0 };
    assert_eq!(route_request(other, &chain), Route::Unsupported);
}

#[test]
fn requests_become_transfers_in_order() {
    let chain = vec![
        meta(0, 16, false),
        meta(0x100, 512, true),
        meta(0x900, 1024, true),
        meta(2, 1, true),
    ];
    let read = RequestHeader { kind: RequestKind::Read, sector: 3 };
    match execute(&chain, read, 1 << 20, true).unwrap() {
        Work::Read { transfers, len } => {
            assert_eq!(len, 1536);
            assert_eq!(
                transfers.iter().map(|t| (t.address, t.length, t.offset)).collect::<Vec<_>>(),
                vec![(0x100, 512, 1536), (0x900, 1024, 2048)]
            );
        }
        _ => panic!("a read is a read"),
    }
    let write = RequestHeader { kind: RequestKind::Write, sector: 3 };
    assert!(matches!(
        execute(&chain, write, 1 << 20, false).unwrap(),
        Work::Write { flush: true, .. }
    ));
    let flush = RequestHeader { kind: RequestKind::Flush, sector: 0 };
    assert!(matches!(execute(&chain, flush, 512, true).unwrap(), Work::Flush));
    let id = RequestHeader { kind: RequestKind::GetId, sector: 0 };
    match execute(&chain, id, 512, true).unwrap() {
        Work::GetId { parts, complete } => {
            assert!(complete);
            assert!(check_id(complete).is_ok());
            let held: usize = parts.iter().map(|part| part.count).sum();
            assert_eq!((parts.len(), parts[0].start, held), (1, 0, 20));
        }
        _ => panic!("the identity is told"),
    }
}

#[test]
fn requests_outside_the_volume_fail() {
    let chain = vec![meta(0, 16, false), meta(0x100, 512, true), meta(2, 1, true)];
    let fault = |kind: RequestKind, sector: u64| {
        execute(&chain, RequestHeader { kind, sector }, 1024, true).unwrap_err()
    };
    let error = fault(RequestKind::Read, 2);
    assert_eq!(error.kind, ErrorKind::UnexpectedEof);
    assert_eq!(error.message, "request exceeds volume capacity");
    assert_eq!(fault(RequestKind::Read, u64::MAX).message, "sector offset overflow");
    assert_eq!(fault(RequestKind::Write, u64::MAX / 512).message, "request range overflow");
    let short = vec![meta(0, 16, false), meta(0x100, 19, true), meta(2, 1, true)];
    let id = RequestHeader { kind: RequestKind::GetId, sector: 0 };
    match execute(&short, id, 1024, true).unwrap() {
        Work::GetId { parts, complete } => {
            assert_eq!((parts.len(), parts[0].address, parts[0].count), (1, 0x100, 19));
            assert_eq!(
                check_id(complete).unwrap_err().message,
                "GET_ID buffer is shorter than 20 bytes"
            );
        }
        _ => panic!("the identity is told"),
    }
}

#[test]
fn outcomes_are_counted_and_told() {
    let mut counts = Stats::new();
    let read = Outcome::Done { kind: RequestKind::Read, len: 512 };
    assert_eq!(process_loaded_chain(read, &mut counts), (VIRTIO_BLK_S_OK, 512));
    let write = Outcome::Done { kind: RequestKind::Write, len: 1024 };
    assert_eq!(process_loaded_chain(write, &mut counts), (VIRTIO_BLK_S_OK, 0));
    assert_eq!(process_loaded_chain(Outcome::Failed, &mut counts), (VIRTIO_BLK_S_IOERR, 0));
    assert_eq!(
        process_loaded_chain(Outcome::Unsupported, &mut counts),
        (VIRTIO_BLK_S_UNSUPP, 0)
    );
    assert_eq!((counts.reads, counts.read_bytes, counts.writes), (1, 512, 1));
    assert_eq!((counts.write_bytes, counts.io_errors, counts.unsupported), (1024, 1, 1));
    assert_eq!(used_length(512, true, &mut counts), 513);
    assert_eq!(used_length(u32::MAX, true, &mut counts), u32::MAX);
    assert_eq!(used_length(512, false, &mut counts), 0);
    assert_eq!(counts.io_errors, 2);
    let both = vec![counts, counts];
    assert_eq!(stats(&both).read_bytes, 1024);
}

#[test]
fn retired_requests_report_data_and_status_bytes() {
    let mut counts = Stats::new();
    assert_eq!(retire(RequestKind::Read, 4096, true, &mut counts), (VIRTIO_BLK_S_OK, 4097));
    assert_eq!(retire(RequestKind::Write, 4096, true, &mut counts), (VIRTIO_BLK_S_OK, 1));
    assert_eq!(retire(RequestKind::Write, 4096, false, &mut counts), (VIRTIO_BLK_S_IOERR, 0));
    let good = ArenaResult { result: 4096, reacquired: true, copied: true, handed_back: true };
    assert_eq!(
        retire_arena_one(RequestKind::Read, 4096, good, &mut counts),
        (VIRTIO_BLK_S_OK, 4097)
    );
    let short = ArenaResult { result: 4095, ..good };
    assert_eq!(
        retire_arena_one(RequestKind::Read, 4096, short, &mut counts),
        (VIRTIO_BLK_S_IOERR, 0)
    );
    let kept = ArenaResult { handed_back: false, ..good };
    assert_eq!(
        retire_arena_one(RequestKind::Write, 4096, kept, &mut counts),
        (VIRTIO_BLK_S_IOERR, 0)
    );
    assert_eq!(arena_followup(RequestKind::Read, 4096, 4096), ArenaFollowup::Copy);
    assert_eq!(arena_followup(RequestKind::Read, 4096, -5), ArenaFollowup::Nothing);
    assert_eq!(arena_followup(RequestKind::Write, 4096, -5), ArenaFollowup::HandBack);
}

#[test]
fn write_through_waits_for_durability() {
    let mut counts = Stats::new();
    assert!(flushes_before_retiring(RequestKind::Write, false));
    assert!(!flushes_before_retiring(RequestKind::Write, true));
    assert!(!flushes_before_retiring(RequestKind::Read, false));
    assert_eq!(
        retire_direct_one(RequestKind::Write, 512, true, false, false, &mut counts),
        (VIRTIO_BLK_S_IOERR, 0)
    );
    assert_eq!(
        retire_direct_one(RequestKind::Write, 512, true, false, true, &mut counts),
        (VIRTIO_BLK_S_OK, 1)
    );
    assert_eq!(
        retire_direct_one(RequestKind::Write, 512, true, true, false, &mut counts),
        (VIRTIO_BLK_S_OK, 1)
    );
    assert_eq!(
        retire_direct_one(RequestKind::Read, 512, false, true, true, &mut counts),
        (VIRTIO_BLK_S_IOERR, 0)
    );
}

#[test]
fn notifications_follow_the_asked_entry() {
    assert!(arena_needs_notification(false, Some(9), 1, 1));
    assert!(arena_needs_notification(true, None, 1, 1));
    assert!(arena_needs_notification(true, Some(3), 4, 3));
    assert!(!arena_needs_notification(true, Some(4), 4, 3));
}

#[test]
fn a_full_lane_is_drained_once() {
    assert_eq!(queue_arena_with_pressure(true, false, true, 2).unwrap(), Pressure::Queued);
    assert_eq!(
        queue_arena_with_pressure(false, false, true, 2).unwrap(),
        Pressure::Drain { barrier: true }
    );
    assert_eq!(
        queue_arena_with_pressure(false, false, false, 2).unwrap(),
        Pressure::Drain { barrier: false }
    );
    let error = queue_arena_with_pressure(false, true, true, 2).unwrap_err();
    assert_eq!(error.kind, ErrorKind::WouldBlock);
    assert_eq!(
        error.message,
        "vhost asynchronous lane 2 remained full after draining completions"
    );
    assert_eq!(pressure_sync(Probe::Got), Ok(false));
    assert_eq!(pressure_sync(Probe::Full), Ok(true));
    assert_eq!(pressure_sync(Probe::Failed), Err(()));
    assert_eq!(drain_arena(None, 2), Drain::Wait);
    assert_eq!(drain_arena(Some((Drain::Wait, true)), 1), Drain::Poll);
    assert_eq!(drain_arena(Some((Drain::Poll, true)), 0), Drain::Poll);
    assert_eq!(drain_arena(Some((Drain::Poll, false)), 1), Drain::Wait);
    assert_eq!(drain_arena(Some((Drain::Poll, false)), 0), Drain::Done);
}

#[test]
fn an_arena_queue_gives_back_what_was_queued() {
    let mut queue = ArenaQueue::new(1, 8, 4);
    assert!(queue.has_capacity());
    assert_eq!(queue.outstanding(), 0);
    let slot = queue.queue(pending(RequestKind::Read)).unwrap();
    let mut full = ArenaQueue::new(0, 1, 1);
    assert_eq!(full.queue(pending(RequestKind::Read)), Some(0));
    assert_eq!(full.queue(pending(RequestKind::Read)), None);
    assert_eq!(full.outstanding(), 1);
    queue.submit();
    assert_eq!((queue.stats.submit_calls, queue.stats.submitted_requests), (1, 1));
    queue.submit();
    assert_eq!(queue.stats.submit_calls, 1);
    assert_eq!(queue.outstanding(), 1);
    assert_eq!(queue.wait_minimum(), 1);
    assert!(queue.needs_completions());
    queue.note_completions(vec![(slot as u64, 4096), (77, 0)], true);
    let (request, result) = queue.take_completion().unwrap().unwrap();
    assert_eq!((request.kind, result), (RequestKind::Read, 4096));
    assert_eq!(queue.outstanding(), 0);
    assert_eq!(queue.take_completion().unwrap_err().message, "unknown arena completion id");
    assert!(queue.take_completion().unwrap().is_none());
    assert_eq!((queue.stats.wait_calls, queue.stats.wait_cqes), (1, 2));
    assert!(queue.set_completion_event_armed(true));
    assert!(!queue.set_completion_event_armed(true));
    queue.consume_completion_event(Some(3));
    queue.consume_completion_event(None);
    assert_eq!(queue.stats.completion_event_arms, 1);
    assert_eq!(queue.stats.completion_event_wakes, 1);
    assert_eq!(queue.stats.completion_event_cqes, 3);
    let total = arena_completion_stats(&vec![queue.stats, queue.stats]);
    assert_eq!((total.wait_cqes, total.wait_batch_max), (4, 2));
    queue.run_task_work();
    queue.record_forced_idle_notification();
    queue.record_forced_idle_notification();
    assert_eq!(queue.stats.completion_event_task_runs, 1);
    assert_eq!(queue.stats.forced_idle_notifications, 2);
    let mut held = DataQueue::Arena(queue);
    assert!(held.async_data_has_capacity(false));
    assert_eq!(held.arena_outstanding(), 0);
    held.note_avail_entry();
    held.note_avail_entry();
    held.note_used_entry();
    match held {
        DataQueue::Arena(queue) => assert_eq!(
            (queue.stats.direct_avail_entries, queue.stats.direct_used_entries),
            (2, 1)
        ),
        _ => panic!("the lane has changed"),
    }
}

#[test]
fn a_direct_queue_checks_the_token_of_a_completion() {
    let mut queue = DirectDataQueue::new(2);
    queue.queue(0, pending(RequestKind::Read), true);
    queue.queue(1, pending(RequestKind::Write), true);
    assert_eq!((queue.outstanding, queue.stats.posts), (2, 2));
    queue.note_completions(vec![
        DirectCompletion { slot: 0, user_data: 0, read: true },
        DirectCompletion { slot: 0, user_data: 0, read: true },
        DirectCompletion { slot: 1, user_data: 9, read: false },
    ]);
    assert_eq!(queue.take_completion().unwrap().unwrap().kind, RequestKind::Read);
    assert_eq!(
        queue.take_completion().unwrap_err().message,
        "unknown direct-OFI completion slot"
    );
    assert_eq!(
        queue.take_completion().unwrap_err().message,
        "direct-OFI completion token or operation mismatch"
    );
    let total = direct_completion_stats(&vec![queue.stats, queue.stats]);
    assert_eq!((total.posts, total.cq_completions, total.cq_batch_max), (4, 6, 3));
    assert!(DataQueue::Absent.async_data_has_capacity(false));
    let (mut held, events) = DataQueue::new(None, Some(queue), true).unwrap();
    assert!(!events);
    held.note_used_entry();
    assert!(matches!(
        &held,
        DataQueue::Direct(queue)
            if queue.stats.direct_used_entries == 1 && queue.stats.direct_avail_entries == 0
    ));
    assert!(held.async_data_has_capacity(true));
    assert!(!held.async_data_has_capacity(false));
    assert_eq!(held.arena_outstanding(), 1);
    let (held, events) = DataQueue::new(Some(ArenaQueue::new(3, 8, 4)), None, true).unwrap();
    assert!(events && matches!(held, DataQueue::Arena(_)));
    let both = DataQueue::new(
        Some(ArenaQueue::new(0, 8, 4)),
        Some(DirectDataQueue::new(1)),
        false,
    );
    assert_eq!(
        both.unwrap_err().message,
        "a vhost queue cannot have both block-arena and direct-OFI transports"
    );
    let (held, events) = DataQueue::new(None, None, true).unwrap();
    assert!(!events && matches!(held, DataQueue::Absent));
}

#[test]
fn the_configuration_space_can_be_read_and_partly_written() {
    let mut config = DeviceConfig::new(4096, 1, 64);
    config.acked_features(FEATURE_CONFIG_WCE);
    assert!(config.writeback);
    assert!(config.set_config(CONFIG_WCE_OFFSET as u32, &[0]));
    assert!(!config.writeback);
    assert_eq!(config.get_config(CONFIG_WCE_OFFSET as u32, 1), vec![0]);
    assert!(!config.set_config(60, &[1]));
    assert!(!config.set_config(u32::MAX, &[]));
    assert!(config.set_config(60, &[]));
    config.acked_features(FEATURE_FLUSH);
    assert!(config.writeback);
    config.acked_features(0);
    assert!(!config.writeback);
    assert_eq!(config.get_config(0, 8), vec![8, 0, 0, 0, 0, 0, 0, 0]);
    assert!(features(true, true) & FEATURE_RO != 0);
    assert!(features(true, false) & FEATURE_RO == 0);
    assert!(features(false, false) & FEATURE_EVENT_IDX == 0);
    assert_eq!(queue_masks(3), vec![1, 2, 4]);
}

#[test]
fn memory_tables_may_not_be_empty_or_overflow() {
    let mut regions = GuestRegions::new();
    let error = regions.refresh_guest_regions(&Vec::new()).unwrap_err();
    assert_eq!(error.message, "vhost guest memory table is empty");
    let error = regions.refresh_guest_regions(&vec![(u64::MAX, 2, 0)]).unwrap_err();
    assert_eq!(error.message, "guest memory region overflows");
    assert_eq!(error.kind, ErrorKind::InvalidData);
    assert!(regions.guest_host_address(0, 1).is_none());
}

#[test]
fn ring_addresses_are_computed_within_their_tables() {
    assert_eq!(table_span(0x1000, 4, 3), Some(64));
    assert!(table_span(0x1000, 4, 4).is_none());
    assert_eq!(event_address(4, 0x2000), Some(0x2000 + 4 + 8));
    let slot = add_used_arena_fast(4, 5, 0x3000, 2).unwrap().unwrap();
    assert_eq!((slot.element_offset, slot.new_used), (4 + 8, 6));
    assert!(add_used_arena_fast(4, 5, 0x3000, 4).is_err());
    assert!(load_three_descriptors_fast(&[0; 64], 4, 0).is_none());
}

#[test]
fn stages_split_transfers_at_slots() {
    let stage = ArenaStage::open(4096, 1 << 20, 2, false).unwrap();
    assert_eq!((stage.lane(0), stage.lane(3)), (0, 1));
    let parts = stage.read_parts(4000, 4200).unwrap();
    assert_eq!(
        parts
            .iter()
            .map(|p| (p.block_offset, p.slot_offset, p.count, p.partial))
            .collect::<Vec<_>>(),
        vec![(0, 4000, 96, true), (4096, 0, 4096, false), (8192, 0, 8, true)]
    );
    assert_eq!(
        stage.read_parts(1 << 20, 1).unwrap_err().message,
        "I/O range exceeds zcnblk volume capacity"
    );
    assert_eq!(stage.open_arena_queue(1).unwrap(), 1);
    assert_eq!(
        stage.open_arena_queue(2).unwrap_err().message,
        "vhost queue count exceeds zcnblk arena lane count"
    );
    assert_eq!(stage.open_arena_queue(1 << 32).unwrap_err().message, "queue exceeds u32");
    assert!(ArenaStage::open(3000, 1 << 20, 1, false).is_err());
    let fixed = ArenaStage::open(4096, 4096, 1, true).unwrap();
    let error = fixed.write_parts(0, 1).unwrap_err();
    assert_eq!(error.kind, ErrorKind::PermissionDenied);
    assert!(check_direct_slot(4096).is_ok());
    assert!(check_direct_slot(2048).is_err());
    assert!(check_direct_slot(6000).is_err());
    assert_eq!(
        FileLeaf::open(513, false).unwrap_err().message,
        "terminal leaf size must be a non-zero multiple of 512, got 513"
    );
    assert_eq!(
        FileLeaf::open(512, false).unwrap().checked_end(500, 20).unwrap_err().message,
        "I/O range 500..520 exceeds leaf capacity 512"
    );
}

#[test]
fn plans_need_three_descriptors_and_one_slot() {
    let mut regions = GuestRegions::new();
    regions.refresh_guest_regions(&vec![(0, 0x1_0000, 0x100_0000)]).unwrap();
    let shape = LaneShape {
        slot_bytes: 4096,
        read_only: false,
        direct: false,
        writeback: true,
        capacity_bytes: 1 << 20,
    };
    let chain = [meta(0x100, 16, false), meta(0x1000, 4096, true), meta(0x200, 1, true)];
    assert!(header_and_status_fit(chain[0], chain[2]));
    let read = header(VIRTIO_BLK_T_IN, 8);
    let plan = prepare_arena_plan(&mut regions, shape, &read, &chain).unwrap().unwrap();
    assert_eq!((plan.offset, plan.kind), (4096, RequestKind::Read));
    assert_eq!(plan.data_host_address, 0x100_1000);
    assert_eq!(plan.status_host_address, 0x100_0200);
    assert_eq!(prepare_arena_data(true, true, &Some(plan)), Seen::DataPrepared);
    assert_eq!(prepare_arena_data(true, true, &None), Seen::DataLoaded);
    assert_eq!(prepare_arena_data(true, false, &None), Seen::DataInvalid);
    assert_eq!(prepare_arena_data(false, true, &None), Seen::DataLoaded);
    assert!(prepare_arena_plan(&mut regions, shape, &read, &chain[..2]).unwrap().is_none());
    let mut mute = chain;
    mute[2].writable = false;
    assert!(prepare_arena_plan(&mut regions, shape, &read, &mute).unwrap().is_none());
    let mut written = chain;
    written[0].writable = true;
    assert!(prepare_arena_plan(&mut regions, shape, &read, &written).unwrap().is_none());
    let mut short = chain;
    short[1].length = 512;
    assert!(prepare_arena_plan(&mut regions, shape, &read, &short).unwrap().is_none());
    let direct = LaneShape { direct: true, ..shape };
    assert!(prepare_arena_plan(&mut regions, direct, &read, &short).unwrap().is_some());
    let write = header(VIRTIO_BLK_T_OUT, 8);
    assert!(prepare_arena_plan(&mut regions, shape, &write, &chain).unwrap().is_none());
    let far = header(VIRTIO_BLK_T_IN, u64::MAX);
    assert_eq!(
        prepare_arena_plan(&mut regions, shape, &far, &chain).unwrap_err().message,
        "sector offset overflow"
    );
}

#[test]
fn the_available_ring_is_read_where_it_lies() {
    let mut regions = GuestRegions::new();
    regions.refresh_guest_regions(&vec![(0x1000, 0x1000, 0x9000)]).unwrap();
    let ring = RingState { ready: true, size: 4, next_avail: 5, avail_ring: 0x1100 };
    let unknown = AvailCache { ring: 0, idx: 0, valid: false };
    assert!(matches!(
        prepare_arena_fast(ring, unknown, &mut regions),
        FastNeed::Index(0x9102)
    ));
    let known = AvailCache { ring: 0x1100, idx: 6, valid: true };
    assert!(matches!(prepare_arena_fast(ring, known, &mut regions), FastNeed::Known));
    let idle = RingState { ready: false, ..ring };
    assert!(matches!(prepare_arena_fast(idle, known, &mut regions), FastNeed::Fallback));
    assert!(matches!(next_head(ring, 5, &mut regions), FastNeed::Empty));
    assert!(matches!(next_head(ring, 6, &mut regions), FastNeed::Head(0x9106)));
    assert!(matches!(next_head(ring, 20, &mut regions), FastNeed::Fallback));
}

#[test]
fn a_round_without_a_lane_pops_until_empty() {
    let round = start_round(false, false, false);
    let (round, action) =
        process_queue(round, Seen::Memory { replaced: false, outstanding: 0 });
    assert!(matches!(action, Action::Refresh));
    let (round, action) = process_queue(round, Seen::Done);
    assert!(matches!(action, Action::RetireReady));
    let (round, action) = process_queue(round, Seen::Used(false));
    assert!(matches!(action, Action::Pop));
    let (round, action) = process_queue(round, Seen::Popped(true));
    assert!(matches!(action, Action::RunChain));
    let (round, action) = process_queue(round, Seen::Done);
    assert!(matches!(action, Action::AddUsed));
    let (round, action) = process_queue(round, Seen::Added(true));
    assert!(matches!(action, Action::Pop));
    let (round, action) = process_queue(round, Seen::Popped(false));
    assert!(matches!(action, Action::Submit));
    let (round, action) = process_queue(round, Seen::Outstanding(0));
    assert!(matches!(action, Action::RetireReady));
    let (round, action) = process_queue(round, Seen::Used(false));
    assert!(matches!(action, Action::AskNotify));
    let (_, action) = process_queue(round, Seen::Notify { required: false, outstanding: 0 });
    assert!(matches!(action, Action::Finish { signal: true, forced: false }));
    assert_eq!(reap_arena_ready(true, true, 3, true), (true, false));
    assert_eq!(reap_arena_ready(true, false, 0, true), (true, true));
    assert_eq!(reap_arena_ready(false, true, 0, true), (false, false));
}

#[test]
fn polling_samples_the_clock_now_and_then() {
    assert_eq!(poll_queue(true, 100, true), (true, 0));
    assert_eq!(poll_queue(false, 3, true), (true, 4));
    assert_eq!(poll_queue(false, 255, true), (false, 256));
    assert_eq!(poll_queue(false, 255, false), (true, 256));
    assert_eq!(poll_queue(false, u32::MAX, true), (false, 0));
}

#[test]
fn events_are_checked_and_handled_in_order() {
    assert!(check_event(0, true, 1, 0, 1).is_ok());
    assert!(check_event(0, false, 1, 0, 1).is_err());
    assert!(check_event(1, true, 1, 0, 1).is_err());
    assert!(check_event(0, true, 1, 1, 1).is_err());
    let setup = EventSetup {
        pinned: false,
        has_cpu: true,
        completion_event: false,
        event_idx: false,
        poll: false,
    };
    let (phase, action) = handle_event(setup, EventPhase::Start, true);
    assert!(matches!(action, EventAction::Pin));
    assert!(matches!(phase, EventPhase::Pinned));
}

#[test]
fn device_options_name_one_stage() {
    let options = parse_options(&args(&["--socket", "/s", "--leaf-file", "/v", "--queues", "2"]))
        .unwrap()
        .unwrap();
    assert_eq!(options.queues, 2);
    assert_eq!(options.leaf.as_deref(), Some("/v"));
    assert!(check_placement(&options, false).is_ok());
    assert!(parse_options(&args(&["--help"])).unwrap().is_none());
    assert!(parse_options(&args(&["--socket", "/s"])).is_err());
    assert!(parse_options(&args(&["--queues", "0", "--socket", "/s", "--leaf-file", "/v"])).is_err());
    assert!(usage().contains("zcvhost-user-blk"));
    assert!(!cq_wakeup(&options).is_empty());
}
