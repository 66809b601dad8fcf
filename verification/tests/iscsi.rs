use std::collections::HashMap;

use zcblock::error::ErrorKind;
use zcblock::iscsi::backend::{
    allocate_arena, open_arena, write_all_vectored, Allocation, ArenaBackend, Backend, Blocks,
    NextTry, Part, Transfer,
};
use zcblock::iscsi::connection::{
    flushed, handle_connection, handle_data_out, handle_scsi_command, task_drained, task_report,
    ConnectionStep, PendingWrite, ScsiAction, TASK_RESPONSE_COMPLETE, TASK_RESPONSE_FUNCTION_UNSUPPORTED,
    TASK_RESPONSE_LUN_DOES_NOT_EXIST, TASK_RESPONSE_REJECTED,
};
use zcblock::iscsi::fan::{
    fan_complete_window, fan_read_response_headers, fan_request_id, fan_response_task_index,
    fan_send_tasks, fan_sync, fan_task_command, fan_task_geometry, fan_topology, FanBackend,
    FanFrame, FanGather, FanOp, FanWindow,
};
use zcblock::iscsi::header::{
    advance_vectored, read_header, read_padding, serial_fields, update_exp_cmd, Header, BHS_BYTES,
    BLOCK_SIZE, COMMAND_WINDOW, MAX_SEGMENT, OP_DATA_IN, OP_DATA_OUT, OP_LOGIN_REQUEST,
    OP_LOGIN_RESPONSE, OP_LOGOUT_REQUEST, OP_LOGOUT_RESPONSE, OP_NOP_IN, OP_NOP_OUT, OP_R2T,
    OP_SCSI_COMMAND, OP_SCSI_RESPONSE, OP_TASK_REQUEST, OP_TASK_RESPONSE, OP_TEXT_REQUEST,
    OP_TEXT_RESPONSE,
};
use zcblock::iscsi::keys::{append_text, text_pairs};
use zcblock::iscsi::lane::{
    arena_range, complete_sync_task, conclude, Admission, ArenaLane, ArenaStep, LaneCounts,
    LaneTask, SyncResult,
};
use zcblock::iscsi::login::{login, LoginState};
use zcblock::iscsi::options::{parse_cpu_list, parse_options, usage};
use zcblock::iscsi::scsi::{
    caching_page, check_range, fixed_sense, inquiry, mode_sense_10, mode_sense_6, parse_rw,
    read_capacity_10, read_capacity_16, report_luns, request_sense, scsi_control,
    sense_invalid_command, sense_invalid_field, sense_invalid_lun, sense_lba_out_of_range,
    sense_medium_error, validate_capacity,
};
use zcblock::iscsi::sessions::{channel_closed, TargetSessions};
use zcblock::iscsi::writer::{
    completion_pdu, write_data_batch, writer_loop, Command, Completion, WriterCounts,
};

fn command(itt: u32, expected: u32, cmd_sn: u32) -> Command {
    Command { itt, lun: 0, expected, cmd_sn }
}

fn args(list: &[&str]) -> Vec<String> {
    list.iter().map(|text| text.to_string()).collect()
}

fn fan(capacity_bytes: u64) -> FanBackend {
    FanBackend {
        addrs: vec!["127.0.0.1:1".to_string()],
        capacity_bytes,
        lane_cpus: vec![0],
        window: 1,
        batch_spin_us: 0,
    }
}

fn frame(op: FanOp, len: u32, offset: u64, request_id: u64) -> FanFrame {
    FanFrame { op, code: 9, shard: 0, len, offset, request_id }
}

fn no_counts() -> WriterCounts {
    WriterCounts { data_pdus: 0, data_batches: 0, max_data_batch: 0 }
}

#[test]
fn parses_all_supported_rw_cdb_widths_at_4k_geometry() {
    let mut ten = [0u8; 16];
    ten[0] = 0x28;
    ten[2..6].copy_from_slice(&1234u32.to_be_bytes());
    ten[7..9].copy_from_slice(&16u16.to_be_bytes());
    assert_eq!(parse_rw(&ten).unwrap(), (1234, 16));

    let mut sixteen = [0u8; 16];
    sixteen[0] = 0x8a;
    sixteen[2..10].copy_from_slice(&u64::from(u32::MAX).to_be_bytes());
    sixteen[10..14].copy_from_slice(&32u32.to_be_bytes());
    assert_eq!(parse_rw(&sixteen).unwrap(), (u64::from(u32::MAX), 32));
}

#[test]
fn reports_a_rigid_4k_capacity() {
    assert_eq!(
        read_capacity_10(1024 * 1024),
        vec![0, 0, 0, 255, 0, 0, 16, 0]
    );
    let capacity = read_capacity_16(1024 * 1024);
    assert_eq!(u64::from_be_bytes(capacity[0..8].try_into().unwrap()), 255);
    assert_eq!(
        u32::from_be_bytes(capacity[8..12].try_into().unwrap()),
        4096
    );
}

#[test]
fn fan_backend_rejects_the_first_block_past_capacity() {
    let backend = Backend::Fan(FanBackend {
        addrs: vec!["127.0.0.1:1".to_string()],
        capacity_bytes: 2 * u64::from(BLOCK_SIZE),
        lane_cpus: vec![0],
        window: 1,
        batch_spin_us: 0,
    });
    assert!(check_range(backend.capacity_bytes(), 1, 1).is_ok());
    assert!(check_range(backend.capacity_bytes(), 2, 1).is_err());
    let sense = sense_lba_out_of_range();
    assert_eq!(sense[2], 0x05);
    assert_eq!(sense[12], 0x21);
}

#[test]
fn login_text_has_nul_delimited_key_values() {
    let mut data = Vec::new();
    append_text(&mut data, "HeaderDigest", "None");
    append_text(&mut data, "DataDigest", "None");
    let pairs = text_pairs(&data);
    assert_eq!(
        pairs.iter().map(|(key, value)| (key.as_str(), value.as_str())).collect::<Vec<_>>(),
        vec![("HeaderDigest", "None"), ("DataDigest", "None")]
    );
}

#[test]
fn arena_mode_rejects_non_4k_capacity() {
    assert!(validate_capacity(4095).is_err());
    assert!(validate_capacity(4096).is_ok());
}

#[test]
fn task_management_response_preserves_itt_and_serial_window() {
    let queue = vec![Completion::Task {
        itt: 0x1234_5678,
        response: TASK_RESPONSE_FUNCTION_UNSUPPORTED,
    }];
    let round = writer_loop(&queue, 17, 23, no_counts()).unwrap();
    assert_eq!(round.pdus.len(), 1);
    let response = &round.pdus[0].header;
    assert_eq!(response.opcode(), OP_TASK_RESPONSE);
    assert_eq!(response.0[1], 0x80);
    assert_eq!(response.0[2], TASK_RESPONSE_FUNCTION_UNSUPPORTED);
    assert_eq!(response.u32(16), 0x1234_5678);
    assert_eq!(response.u32(24), 23);
    assert_eq!(response.u32(28), 17);
    assert_eq!(response.u32(32), 17 + COMMAND_WINDOW - 1);
    assert_eq!(round.taken, 1);
    assert_eq!(round.stat_sn, 24);
}

#[test]
fn data_in_batch_preserves_pdu_boundaries_and_serials() {
    let batch = vec![
        Completion::Data {
            command: command(11, BLOCK_SIZE, 7),
            payload: vec![0xa5; BLOCK_SIZE as usize],
        },
        Completion::Data {
            command: command(12, BLOCK_SIZE, 8),
            payload: vec![0x5a; BLOCK_SIZE as usize],
        },
    ];
    let pdus = write_data_batch(&batch, 9, 23).unwrap();
    let mut wire = Vec::new();
    for pdu in &pdus {
        wire.extend_from_slice(&pdu.header.0);
        wire.extend_from_slice(&pdu.data);
    }
    let pdu_bytes = BHS_BYTES + BLOCK_SIZE as usize;
    assert_eq!(wire.len(), pdu_bytes * batch.len());
    for (index, expected_byte) in [0xa5, 0x5a].into_iter().enumerate() {
        let offset = index * pdu_bytes;
        let header = Header(wire[offset..offset + BHS_BYTES].try_into().unwrap());
        assert_eq!(header.opcode(), OP_DATA_IN);
        assert_eq!(header.data_len(), BLOCK_SIZE as usize);
        assert_eq!(header.u32(16), 11 + index as u32);
        assert_eq!(header.u32(24), 23 + index as u32);
        assert_eq!(header.u32(28), 9);
        assert!(wire[offset + BHS_BYTES..offset + pdu_bytes]
            .iter()
            .all(|byte| *byte == expected_byte));
    }
}

#[test]
fn header_fields_are_big_endian_and_bounded() {
    let mut header = Header::zeroed(OP_NOP_OUT | 0x40);
    assert!(header.immediate());
    assert_eq!(header.opcode(), OP_NOP_OUT);
    header.put_u16(14, 0x0102);
    header.put_u32(16, 0x0304_0506);
    header.put_u64(32, 0x0708_090a_0b0c_0d0e);
    assert_eq!(header.u16(14), 0x0102);
    assert_eq!(header.u32(16), 0x0304_0506);
    assert_eq!(header.u64(32), 0x0708_090a_0b0c_0d0e);
    assert_eq!(&header.0[14..20], &[1, 2, 3, 4, 5, 6]);
    header.set_data_len(0x0001_0203).unwrap();
    assert_eq!(&header.0[5..8], &[1, 2, 3]);
    assert_eq!(header.data_len(), 0x0001_0203);
    let error = header.set_data_len(0x0100_0000).unwrap_err();
    assert_eq!(error.kind, ErrorKind::InvalidInput);
    assert_eq!(error.message, "iSCSI data segment exceeds 24-bit length");
    assert_eq!(header.data_len(), 0x0001_0203);
}

#[test]
fn headers_with_extra_segments_or_long_data_are_refused() {
    let mut header = Header::zeroed(OP_NOP_OUT);
    assert!(read_header(&header).is_ok());
    header.put_byte(4, 1);
    assert_eq!(
        read_header(&header).unwrap_err().message,
        "additional iSCSI header segments are not negotiated"
    );
    let mut long = Header::zeroed(OP_NOP_OUT);
    long.set_data_len(1_048_576).unwrap();
    assert!(read_header(&long).is_ok());
    long.set_data_len(1_048_577).unwrap();
    let error = read_header(&long).unwrap_err();
    assert_eq!(error.kind, ErrorKind::InvalidData);
    assert_eq!(error.message, "iSCSI data segment exceeds target safety limit");
}

#[test]
fn padding_fills_up_to_four_bytes() {
    for (len, padding) in [(0, 0), (1, 3), (2, 2), (3, 1), (4, 0), (4097, 3)] {
        assert_eq!(read_padding(len), padding);
    }
}

#[test]
fn expected_command_only_moves_forward_for_queued_commands() {
    let mut header = Header::zeroed(OP_NOP_OUT);
    header.put_u32(24, 41);
    assert_eq!(update_exp_cmd(7, &header), 42);
    assert_eq!(update_exp_cmd(50, &header), 50);
    header.put_byte(0, OP_NOP_OUT | 0x40);
    assert_eq!(update_exp_cmd(7, &header), 7);
    let mut stamped = Header::zeroed(OP_NOP_IN);
    serial_fields(&mut stamped, 1, u32::MAX);
    assert_eq!(stamped.u32(24), 1);
    assert_eq!(stamped.u32(28), u32::MAX);
    assert_eq!(stamped.u32(32), 4094);
}

#[test]
fn vectored_writes_advance_byte_by_byte() {
    let slices: [&[u8]; 3] = [&[1, 2, 3], &[], &[4, 5]];
    let (mut index, mut offset) = (0usize, 0usize);
    advance_vectored(&slices, &mut index, &mut offset, 2);
    assert_eq!((index, offset), (0, 2));
    advance_vectored(&slices, &mut index, &mut offset, 1);
    assert_eq!((index, offset), (1, 0));
    advance_vectored(&slices, &mut index, &mut offset, 1);
    assert_eq!((index, offset), (2, 1));
    assert_eq!(write_all_vectored(&slices, &mut index, &mut offset, 1).unwrap(), false);
    let (mut index, mut offset) = (0usize, 1usize);
    assert_eq!(write_all_vectored(&slices, &mut index, &mut offset, 1).unwrap(), true);
    assert_eq!((index, offset), (0, 2));
    let error = write_all_vectored(&slices, &mut index, &mut offset, 0).unwrap_err();
    assert_eq!(error.kind, ErrorKind::WriteZero);
    assert_eq!(error.message, "iSCSI socket closed");
    assert_eq!((index, offset), (0, 2));
}

#[test]
fn six_byte_commands_mean_256_blocks_by_zero() {
    let mut six = [0u8; 16];
    six[0] = 0x08;
    six[1] = 0xff;
    six[2] = 0x01;
    six[3] = 0x02;
    assert_eq!(parse_rw(&six).unwrap(), (0x1f_0102, 256));
    six[4] = 9;
    assert_eq!(parse_rw(&six).unwrap(), (0x1f_0102, 9));
    let mut none = [0u8; 16];
    none[0] = 0x2a;
    assert_eq!(parse_rw(&none).unwrap_err().message, "zero-block transfer");
    none[0] = 0x12;
    assert_eq!(parse_rw(&none).unwrap_err().message, "not a READ/WRITE CDB");
}

#[test]
fn ranges_overflow_or_lie_outside() {
    assert_eq!(check_range(8192, u64::MAX, 1).unwrap_err().message, "LBA overflow");
    assert_eq!(
        check_range(8192, 0, 3).unwrap_err().message,
        "SCSI transfer is outside the volume"
    );
    assert!(check_range(8192, 0, 0).is_err());
    assert!(check_range(8192, 0, 2).is_ok());
}

#[test]
fn sense_data_is_fixed_format() {
    let sense = fixed_sense(3, 0x11, 7);
    assert_eq!(sense.len(), 18);
    assert_eq!((sense[0], sense[2], sense[7], sense[12], sense[13]), (0x70, 3, 10, 0x11, 7));
    assert_eq!(sense_invalid_command()[12], 0x20);
    assert_eq!(sense_invalid_field()[12], 0x24);
    assert_eq!(sense_invalid_lun()[12], 0x25);
    assert_eq!(sense_medium_error()[2], 3);
    assert_eq!(request_sense(4), vec![0x70, 0, 0, 0]);
    assert_eq!(request_sense(200).len(), 18);
}

#[test]
fn inquiry_pages_are_truncated_to_the_allocation() {
    let mut cdb = [0u8; 16];
    cdb[0] = 0x12;
    cdb[4] = 255;
    let standard = inquiry(&cdb).unwrap();
    assert_eq!(standard.len(), 36);
    assert_eq!(&standard[8..16], b"ZCUTILS ");
    assert_eq!(&standard[16..32], b"userspace volume");
    cdb[4] = 5;
    assert_eq!(inquiry(&cdb).unwrap(), vec![0, 0, 6, 2, 31]);
    cdb[1] = 1;
    cdb[4] = 255;
    assert_eq!(inquiry(&cdb).unwrap(), vec![0, 0, 0, 3, 0, 0x80, 0x83]);
    cdb[2] = 0x80;
    assert_eq!(&inquiry(&cdb).unwrap()[4..], b"anonymous-zc-volume");
    cdb[2] = 0x83;
    let identifier = inquiry(&cdb).unwrap();
    assert_eq!(&identifier[0..8], &[0, 0x83, 0, 28, 2, 1, 0, 24]);
    cdb[2] = 0x84;
    assert_eq!(inquiry(&cdb).unwrap_err(), sense_invalid_field());
}

#[test]
fn mode_pages_and_luns_are_reported() {
    assert_eq!(&caching_page()[0..3], &[8, 0x12, 4]);
    let mut six = [0u8; 16];
    six[0] = 0x1a;
    six[2] = 0x3f;
    six[4] = 255;
    let data = mode_sense_6(&six);
    assert_eq!((data.len(), data[0], data[4]), (24, 23, 8));
    six[2] = 0x01;
    assert_eq!(mode_sense_6(&six), vec![3, 0, 0, 0]);
    let mut ten = [0u8; 16];
    ten[0] = 0x5a;
    ten[2] = 0x08;
    ten[8] = 9;
    assert_eq!(mode_sense_10(&ten), vec![0, 26, 0, 0, 0, 0, 0, 0, 8]);
    let mut luns = [0u8; 16];
    luns[0] = 0xa0;
    luns[9] = 6;
    assert_eq!(report_luns(&luns), vec![0, 0, 0, 8, 0, 0]);
}

#[test]
fn control_commands_are_told_apart() {
    let mut cdb = [0u8; 16];
    assert_eq!(scsi_control(&cdb, 8192), Ok(None));
    cdb[0] = 0x25;
    assert_eq!(scsi_control(&cdb, 8192), Ok(Some(vec![0, 0, 0, 1, 0, 0, 16, 0])));
    cdb[0] = 0x9e;
    assert_eq!(scsi_control(&cdb, 8192), Err(sense_invalid_command()));
    cdb[1] = 0x10;
    assert_eq!(scsi_control(&cdb, 8192).unwrap().unwrap().len(), 32);
    cdb[0] = 0xff;
    assert_eq!(scsi_control(&cdb, 8192), Err(sense_invalid_command()));
}

#[test]
fn text_without_equals_or_with_bad_encoding_is_skipped() {
    let pairs = text_pairs(b"a=b=c\0plain\0\xff=x\0=empty\0last=");
    assert_eq!(
        pairs,
        vec![
            ("a".to_string(), "b=c".to_string()),
            ("".to_string(), "empty".to_string()),
            ("last".to_string(), "".to_string()),
        ]
    );
}

#[test]
fn login_negotiates_and_ends_in_full_feature_phase() {
    let mut request = Header::zeroed(OP_LOGIN_REQUEST | 0x40);
    request.put_byte(1, 0x80 | (1 << 2) | 3);
    request.put_u32(16, 77);
    request.put_u32(24, 5);
    let mut data = Vec::new();
    append_text(&mut data, "TargetName", "iqn.a");
    append_text(&mut data, "MaxBurstLength", "512");
    append_text(&mut data, "FirstBurstLength", "16776192");
    append_text(&mut data, "X-other", "1");
    let start = LoginState { stat_sn: 0, discovery: false, target_seen: false };
    let (state, reply) = login(start, &request, &data, "iqn.a").unwrap();
    assert_eq!(state.stat_sn, 1);
    assert_eq!(reply.response.opcode(), OP_LOGIN_RESPONSE);
    assert_eq!(reply.response.0[1], 0x80 | (1 << 2) | 3);
    assert_eq!(reply.response.u16(14), 1);
    assert_eq!(reply.response.u32(16), 77);
    assert_eq!(reply.response.u32(28), 5);
    assert_eq!(reply.response.u32(32), 5 + COMMAND_WINDOW - 1);
    assert_eq!(reply.response.data_len(), reply.text.len());
    let pairs = text_pairs(&reply.text);
    let segment = MAX_SEGMENT.to_string();
    assert_eq!(
        pairs.iter().map(|(k, v)| (k.as_str(), v.as_str())).collect::<Vec<_>>(),
        vec![
            ("MaxBurstLength", "512"),
            ("FirstBurstLength", segment.as_str()),
            ("X-other", "NotUnderstood"),
            ("TargetPortalGroupTag", "1"),
        ]
    );
    let session = reply.session.unwrap();
    assert_eq!((session.discovery, session.stat_sn, session.exp_cmd_sn), (false, 1, 5));
}

#[test]
fn login_refuses_other_targets_and_other_first_requests() {
    let start = LoginState { stat_sn: 0, discovery: false, target_seen: false };
    let mut request = Header::zeroed(OP_LOGIN_REQUEST);
    request.put_byte(1, 1 << 2);
    let mut data = Vec::new();
    append_text(&mut data, "TargetName", "iqn.b");
    let error = login(start, &request, &data, "iqn.a").unwrap_err();
    assert_eq!(error.kind, ErrorKind::PermissionDenied);
    assert_eq!(error.message, "normal-session login did not name this target");
    let error = login(start, &Header::zeroed(OP_NOP_OUT), &data, "iqn.a").unwrap_err();
    assert_eq!(error.message, "first iSCSI PDU is not a Login Request");
    let mut discovery = Vec::new();
    append_text(&mut discovery, "SessionType", "Discovery");
    let (state, reply) = login(start, &request, &discovery, "iqn.a").unwrap();
    assert!(state.discovery);
    assert!(reply.session.is_none());
}

#[test]
fn reads_go_to_the_lane_of_their_command_number() {
    let mut header = Header::zeroed(OP_SCSI_COMMAND);
    header.put_u32(16, 9);
    header.put_u32(20, 8192);
    header.put_u32(24, 5);
    header.put_byte(32, 0x28);
    header.put_u32(34, 3);
    header.put_u16(39, 2);
    let mut exp = 5;
    let mut pending = HashMap::new();
    match handle_scsi_command(&header, &[], 1 << 20, 2, &mut exp, &mut pending).unwrap() {
        ScsiAction::Lane { lane, task: LaneTask::Read { command, lba, blocks } } => {
            assert_eq!((lane, command.itt, lba, blocks), (1, 9, 3, 2));
        }
        _ => panic!("a read is handed to a lane"),
    }
    assert_eq!(exp, 6);
    let small = handle_scsi_command(&header, &[], 4096 * 4, 2, &mut exp, &mut pending).unwrap();
    match small {
        ScsiAction::Reply(Completion::Check { sense, .. }) => {
            assert_eq!(sense, sense_lba_out_of_range());
        }
        _ => panic!("a read past the end is refused"),
    }
    header.put_u32(20, 4096);
    match handle_scsi_command(&header, &[], 1 << 20, 2, &mut exp, &mut pending).unwrap() {
        ScsiAction::Reply(Completion::Check { sense, .. }) => {
            assert_eq!(sense, sense_invalid_field());
        }
        _ => panic!("a length that does not fit is refused"),
    }
    header.put_u64(8, 1);
    match handle_scsi_command(&header, &[], 1 << 20, 2, &mut exp, &mut pending).unwrap() {
        ScsiAction::Reply(Completion::Check { sense, .. }) => {
            assert_eq!(sense, sense_invalid_lun());
        }
        _ => panic!("another unit is refused"),
    }
}

#[test]
fn a_write_is_collected_before_its_lane_sees_it() {
    let mut header = Header::zeroed(OP_SCSI_COMMAND);
    header.put_u32(16, 9);
    header.put_u32(20, 8192);
    header.put_u32(24, 4);
    header.put_byte(32, 0x2a);
    header.put_byte(33, 0x08);
    header.put_u32(34, 1);
    header.put_u16(39, 2);
    header.set_data_len(4096).unwrap();
    let first = vec![0x11u8; 4096];
    let mut exp = 4;
    let mut pending: HashMap<u32, PendingWrite> = HashMap::new();
    match handle_scsi_command(&header, &first, 1 << 20, 1, &mut exp, &mut pending).unwrap() {
        ScsiAction::Reply(Completion::R2t { command, offset, len }) => {
            assert_eq!((command.itt, offset, len), (9, 4096, 4096));
        }
        _ => panic!("the rest is asked for"),
    }
    assert_eq!(pending[&9].received, 4096);
    let mut out = Header::zeroed(OP_DATA_OUT);
    out.put_u32(16, 9);
    out.put_u32(40, 4096);
    out.set_data_len(4096).unwrap();
    let second = vec![0x22u8; 4096];
    match handle_data_out(&out, &second, 1, &mut pending).unwrap() {
        Some((lane, LaneTask::Write { lba, payload, fua, .. })) => {
            assert_eq!((lane, lba, fua), (0, 1, true));
            assert_eq!(&payload[..4096], &first[..]);
            assert_eq!(&payload[4096..], &second[..]);
        }
        _ => panic!("the write is complete"),
    }
    assert!(pending.is_empty());
    let error = handle_data_out(&out, &second, 1, &mut pending).unwrap_err();
    assert_eq!(error.message, "Data-Out has no pending WRITE");
}

#[test]
fn data_past_the_transfer_is_refused() {
    let mut pending: HashMap<u32, PendingWrite> = HashMap::new();
    pending.insert(
        3,
        PendingWrite {
            command: command(3, 4096, 0),
            lba: 0,
            fua: false,
            received: 0,
            data: vec![0; 4096],
        },
    );
    let mut out = Header::zeroed(OP_DATA_OUT);
    out.put_u32(16, 3);
    out.put_u32(40, 4095);
    out.set_data_len(2).unwrap();
    let error = handle_data_out(&out, &[1, 2], 1, &mut pending).unwrap_err();
    assert_eq!(error.message, "iSCSI write data exceeds expected transfer length");
}

#[test]
fn a_flush_is_answered_by_its_result() {
    assert!(matches!(flushed(command(1, 0, 0), true), Completion::Good { .. }));
    match flushed(command(1, 0, 0), false) {
        Completion::Check { sense, .. } => assert_eq!(sense, sense_medium_error()),
        _ => panic!("a failed flush is a medium error"),
    }
    let mut header = Header::zeroed(OP_SCSI_COMMAND);
    header.put_byte(32, 0x35);
    let mut exp = 0;
    let mut pending = HashMap::new();
    assert!(matches!(
        handle_scsi_command(&header, &[], 4096, 1, &mut exp, &mut pending).unwrap(),
        ScsiAction::Flush { .. }
    ));
}

#[test]
fn connections_answer_text_tasks_and_logout() {
    let mut exp = 0;
    let mut text = Header::zeroed(OP_TEXT_REQUEST);
    text.put_u32(16, 6);
    match handle_connection(true, &text, b"SendTargets=All\0".to_vec(), "iqn.a", "h:1", &mut exp)
        .unwrap()
    {
        ConnectionStep::Reply(Completion::Text { itt, data }) => {
            assert_eq!(itt, 6);
            assert_eq!(data, b"TargetName=iqn.a\0TargetAddress=h:1,1\0".to_vec());
        }
        _ => panic!("targets are told"),
    }
    let mut task = Header::zeroed(OP_TASK_REQUEST);
    task.put_byte(1, 0x80 | 1);
    match handle_connection(false, &task, Vec::new(), "iqn.a", "h:1", &mut exp).unwrap() {
        ConnectionStep::Reply(Completion::Task { response, .. }) => {
            assert_eq!(response, TASK_RESPONSE_FUNCTION_UNSUPPORTED);
        }
        _ => panic!("only a reset is supported"),
    }
    task.put_byte(1, 0x80 | 5);
    assert!(matches!(
        handle_connection(false, &task, Vec::new(), "iqn.a", "h:1", &mut exp).unwrap(),
        ConnectionStep::Drain { .. }
    ));
    task.put_u64(8, 1);
    match handle_connection(false, &task, Vec::new(), "iqn.a", "h:1", &mut exp).unwrap() {
        ConnectionStep::Reply(Completion::Task { response, .. }) => {
            assert_eq!(response, TASK_RESPONSE_LUN_DOES_NOT_EXIST);
        }
        _ => panic!("there is one unit"),
    }
    assert_eq!(
        task_report(&task, TASK_RESPONSE_LUN_DOES_NOT_EXIST),
        "zciscsi-target-task-management: function=5 lun=1 response=2 action=lun-does-not-exist placement_owner=downstream-userspace-raid"
    );
    for (response, action) in [
        (TASK_RESPONSE_COMPLETE, "all-userspace-lanes-drained"),
        (TASK_RESPONSE_FUNCTION_UNSUPPORTED, "function-unsupported"),
        (TASK_RESPONSE_REJECTED, "userspace-lane-drain-failed"),
    ] {
        let said = format!("response={response} action={action} ");
        assert!(task_report(&task, response).contains(&said));
    }
    assert!(matches!(
        handle_connection(
            false,
            &Header::zeroed(OP_LOGOUT_REQUEST),
            Vec::new(),
            "iqn.a",
            "h:1",
            &mut exp
        )
        .unwrap(),
        ConnectionStep::Logout(_)
    ));
    let error = handle_connection(
        true,
        &Header::zeroed(OP_SCSI_COMMAND),
        Vec::new(),
        "iqn.a",
        "h:1",
        &mut exp,
    )
    .unwrap_err();
    assert_eq!(error.message, "unsupported iSCSI opcode 0x01");
}

#[test]
fn a_drained_reset_forgets_pending_writes() {
    let mut pending: HashMap<u32, PendingWrite> = HashMap::new();
    let write = PendingWrite {
        command: command(3, 4096, 0),
        lba: 0,
        fua: false,
        received: 0,
        data: vec![0; 4096],
    };
    pending.insert(3, write);
    match task_drained(8, false, &mut pending) {
        Completion::Task { itt, response } => {
            assert_eq!((itt, response), (8, TASK_RESPONSE_REJECTED));
        }
        _ => panic!("a task is answered"),
    }
    assert_eq!(pending.len(), 1);
    match task_drained(8, true, &mut pending) {
        Completion::Task { response, .. } => assert_eq!(response, TASK_RESPONSE_COMPLETE),
        _ => panic!("a task is answered"),
    }
    assert!(pending.is_empty());
}

#[test]
fn completions_become_their_pdus() {
    let c = command(7, 8192, 1);
    let good = completion_pdu(&Completion::Good { command: c }, 3, 4).unwrap();
    assert_eq!((good.header.opcode(), good.header.u32(16)), (OP_SCSI_RESPONSE, 7));
    assert!(good.data.is_empty());
    let sense = sense_medium_error();
    let check =
        completion_pdu(&Completion::Check { command: c, sense: sense.clone() }, 3, 4).unwrap();
    assert_eq!(check.header.0[3], 2);
    assert_eq!(check.header.data_len(), 20);
    assert_eq!(&check.data[0..2], &[0, 18]);
    assert_eq!(&check.data[2..20], &sense[..]);
    let ask =
        completion_pdu(&Completion::R2t { command: c, offset: 16, len: 32 }, 3, 4).unwrap();
    assert_eq!(ask.header.opcode(), OP_R2T);
    assert_eq!((ask.header.u32(20), ask.header.u32(40), ask.header.u32(44)), (7, 16, 32));
    let short = Completion::Data { command: c, payload: vec![1; 100] };
    let short = completion_pdu(&short, 3, 4).unwrap();
    assert_eq!(short.header.0[1], 0x83);
    assert_eq!(short.header.u32(44), 8092);
    let text = completion_pdu(&Completion::Text { itt: 2, data: vec![1] }, 3, 4).unwrap();
    assert_eq!((text.header.opcode(), text.header.u32(20)), (OP_TEXT_RESPONSE, u32::MAX));
    let nop = completion_pdu(&Completion::Nop { itt: 2, ttt: 5, data: vec![] }, 3, 4).unwrap();
    assert_eq!((nop.header.opcode(), nop.header.u32(20)), (OP_NOP_IN, 5));
    let out = completion_pdu(&Completion::Logout { itt: 2 }, 3, 4).unwrap();
    assert_eq!(out.header.opcode(), OP_LOGOUT_RESPONSE);
}

#[test]
fn the_writer_batches_whole_blocks_and_counts_them() {
    let mut queue = Vec::new();
    for itt in 0..66 {
        queue.push(Completion::Data {
            command: command(itt, 4096, itt),
            payload: vec![itt as u8; 4096],
        });
    }
    queue.push(Completion::Good { command: command(99, 0, 0) });
    let first = writer_loop(&queue, 1, u32::MAX, no_counts()).unwrap();
    assert_eq!((first.taken, first.pdus.len(), first.stat_sn), (64, 64, 63));
    let second = writer_loop(&queue[first.taken..], 1, first.stat_sn, first.counts).unwrap();
    assert_eq!((second.taken, second.stat_sn), (2, 65));
    let last = writer_loop(&queue[66..], 1, second.stat_sn, second.counts).unwrap();
    assert_eq!((last.taken, last.stat_sn), (1, 66));
    assert_eq!(last.counts.data_pdus, 66);
    assert_eq!(last.counts.data_batches, 2);
    assert_eq!(last.counts.max_data_batch, 64);
    let long = [Completion::Text { itt: 1, data: vec![0; 0x100_0000] }];
    assert!(writer_loop(&long, 1, 0, no_counts()).is_err());
}

#[test]
fn sessions_fill_the_emptiest_lane_first() {
    let mut sessions = TargetSessions::new(2, 1).unwrap();
    let a = sessions.acquire().unwrap();
    let b = sessions.acquire().unwrap();
    assert_eq!((a.lane, b.lane), (0, 1));
    assert_ne!(a.id, b.id);
    let error = sessions.acquire().unwrap_err();
    assert_eq!(error.kind, ErrorKind::WouldBlock);
    assert_eq!(error.message, "all iSCSI edge-lane session shards are occupied");
    let (first, second) = (a.id, b.id);
    sessions.register(a);
    sessions.register(b);
    assert_eq!(sessions.barrier_all(), vec![first, second]);
    sessions.release(zcblock::iscsi::sessions::SessionLane { lane: 0, id: first });
    assert_eq!(sessions.barrier_all(), vec![second]);
    assert_eq!(sessions.acquire().unwrap().lane, 0);
    assert!(TargetSessions::new(0, 1).is_err());
    assert!(TargetSessions::new(33, 1).is_err());
    assert_eq!(
        TargetSessions::new(1, 0).unwrap_err().message,
        "--sessions-per-lane must be positive"
    );
    assert_eq!(channel_closed("gone").kind, ErrorKind::BrokenPipe);
}

#[test]
fn synchronous_tasks_count_what_they_moved() {
    let mut counts = LaneCounts::new();
    let read = LaneTask::Read { command: command(1, 8192, 0), lba: 0, blocks: 2 };
    let done = complete_sync_task(read, SyncResult::Data(vec![7; 8192]), &mut counts);
    assert!(matches!(done, Some(Completion::Data { .. })));
    let write = LaneTask::Write {
        command: command(2, 4096, 0),
        lba: 0,
        payload: vec![0; 4096],
        fua: true,
    };
    let done = complete_sync_task(write, SyncResult::Done, &mut counts);
    assert!(matches!(done, Some(Completion::Good { .. })));
    let failed = LaneTask::Read { command: command(3, 4096, 0), lba: 0, blocks: 1 };
    match complete_sync_task(failed, SyncResult::Failed, &mut counts) {
        Some(Completion::Check { sense, .. }) => assert_eq!(sense, sense_medium_error()),
        _ => panic!("a failure is a medium error"),
    }
    assert!(complete_sync_task(LaneTask::Barrier, SyncResult::Done, &mut counts).is_none());
    assert_eq!((counts.reads, counts.writes, counts.barriers), (2, 1, 1));
    assert_eq!((counts.fua_writes, counts.fua_drains), (1, 1));
}

#[test]
fn an_arena_lane_admits_64_blocks() {
    let mut lane = ArenaLane::new();
    let big = LaneTask::Read { command: command(1, 0, 0), lba: 0, blocks: 65 };
    assert!(matches!(lane.run_arena_lane(&big), Admission::Sync));
    let half = LaneTask::Read { command: command(2, 0, 0), lba: 0, blocks: 40 };
    assert!(matches!(lane.run_arena_lane(&half), Admission::Slot(0)));
    assert!(lane.queue_arena_task(0, &half, 40).is_none());
    assert_eq!(lane.outstanding, 40);
    assert!(matches!(lane.run_arena_lane(&half), Admission::Defer));
    assert!(matches!(lane.run_arena_lane(&big), Admission::Defer));
    assert!(matches!(lane.run_arena_lane(&LaneTask::Barrier), Admission::Barrier));
    assert!(matches!(lane.next_step(), ArenaStep::Complete));
    for _ in 0..39 {
        assert!(lane.finish_arena_io(0, 4096).is_none());
    }
    assert!(lane.finish_arena_io(5, 4096).is_none());
    let done = lane.finish_arena_io(0, 4095).unwrap();
    assert!(done.failed);
    assert_eq!(lane.outstanding, 0);
    let mut counts = LaneCounts::new();
    assert!(matches!(
        conclude(done, true, Vec::new(), &mut counts),
        Completion::Check { .. }
    ));
    assert_eq!(counts.reads, 0);
}

#[test]
fn a_task_that_queued_nothing_is_a_medium_error() {
    let mut lane = ArenaLane::new();
    let task = LaneTask::Read { command: command(2, 4096, 0), lba: 0, blocks: 1 };
    match lane.queue_arena_task(0, &task, 0) {
        Some(Completion::Check { sense, .. }) => assert_eq!(sense, sense_medium_error()),
        _ => panic!("nothing was queued"),
    }
    assert_eq!(lane.outstanding, 0);
    match arena_range(4096, &LaneTask::Read { command: command(1, 0, 0), lba: 1, blocks: 1 }) {
        Ok(Err(Completion::Check { sense, .. })) => assert_eq!(sense, sense_invalid_field()),
        _ => panic!("the range is checked"),
    }
    assert!(matches!(arena_range(4096, &task), Ok(Ok(1))));
}

#[test]
fn fan_identities_and_geometry() {
    let c = command(5, 0, 2);
    assert_eq!(fan_request_id(c), (2u64 << 32) | 5);
    let topology = fan_topology(3, 4, 9).unwrap();
    assert_eq!((topology.lane_id, topology.lane_count, topology.preferred_worker), (3, 4, 3));
    assert_eq!((topology.queue_id, topology.request_id, topology.tier_id), (3, 9, 0));
    assert_eq!(fan_topology(1 << 32, 1, 0).unwrap_err().message, "fan lane exceeds u32");
    assert_eq!(fan_topology(0, 1 << 32, 0).unwrap_err().message, "fan lane count exceeds u32");
    let read = LaneTask::Read { command: c, lba: 2, blocks: 3 };
    let (op, offset, len) = fan_task_geometry(&read).unwrap();
    assert!(matches!(op, FanOp::Read));
    assert_eq!((offset, len), (8192, 12288));
    assert_eq!(fan_task_command(&read).unwrap().itt, 5);
    assert!(fan_task_command(&LaneTask::Barrier).is_none());
    assert_eq!(
        fan_task_geometry(&LaneTask::Barrier).unwrap_err().message,
        "barrier cannot be encoded as fan data I/O"
    );
    let far = LaneTask::Read { command: c, lba: u64::MAX, blocks: 1 };
    assert_eq!(fan_task_geometry(&far).unwrap_err().message, "fan LBA overflow");
}

#[test]
fn fan_responses_match_their_request() {
    let tasks = vec![
        LaneTask::Read { command: command(1, 0, 0), lba: 0, blocks: 1 },
        LaneTask::Write { command: command(2, 0, 0), lba: 4, payload: vec![0; 4096], fua: false },
    ];
    let seen = [false, false];
    let read = frame(FanOp::ReadResponse, 4096, 0, 1);
    assert_eq!(fan_response_task_index(&tasks, &seen, read).unwrap(), 0);
    let ack = frame(FanOp::WriteAck, 4096, 16384, 2);
    assert_eq!(fan_response_task_index(&tasks, &seen, ack).unwrap(), 1);
    let unknown = frame(FanOp::WriteAck, 4096, 16384, 3);
    assert_eq!(
        fan_response_task_index(&tasks, &seen, unknown).unwrap_err().message,
        "direct fan response has an unknown request id"
    );
    let read = frame(FanOp::ReadResponse, 4096, 0, 1);
    assert_eq!(
        fan_response_task_index(&tasks, &[true, false], read).unwrap_err().message,
        "direct fan response repeated a request id"
    );
    let long = frame(FanOp::ReadResponse, 8192, 0, 1);
    assert!(fan_response_task_index(&tasks, &seen, long).is_err());
    let far = vec![LaneTask::Read { command: command(1, 0, 0), lba: u64::MAX, blocks: 1 }];
    let read = frame(FanOp::ReadResponse, 4096, 0, 1);
    assert_eq!(
        fan_response_task_index(&far, &[false], read).unwrap_err().message,
        "fan LBA overflow"
    );
}

#[test]
fn fan_windows_collect_single_batch_and_range_responses() {
    let tasks = vec![
        LaneTask::Read { command: command(1, 4096, 0), lba: 0, blocks: 1 },
        LaneTask::Read { command: command(2, 4096, 0), lba: 1, blocks: 1 },
        LaneTask::Write {
            command: command(3, 4096, 0),
            lba: 9,
            payload: vec![0; 4096],
            fua: true,
        },
        LaneTask::Read { command: command(4, 4096, 0), lba: 5, blocks: 1 },
    ];
    let mut window = FanWindow::new(tasks);
    assert_eq!(window.remaining(), 4);
    let range = frame(FanOp::ReadRangeResponse, 1, 8192, 0);
    let members = [frame(FanOp::ReadResponse, 8192, 0, 1)];
    let plan = window.fan_receive_task_responses(range, &members).unwrap();
    let mut bytes = vec![0xaa; 4096];
    bytes.extend_from_slice(&[0xbb; 4096]);
    window.settle(plan, &bytes);
    assert_eq!(window.remaining(), 2);
    let single = frame(FanOp::WriteAck, 4096, 9 * 4096, 3);
    let plan = window.fan_receive_task_responses(single, &[]).unwrap();
    window.settle(plan, &[]);
    let batch = frame(FanOp::BatchResponse, 1, 4096, 0);
    let members = [frame(FanOp::ReadResponse, 4096, 5 * 4096, 4)];
    let plan = window.fan_receive_task_responses(batch, &members).unwrap();
    window.settle(plan, &[0xcc; 4096]);
    assert_eq!(window.remaining(), 0);
    let mut counts = LaneCounts::new();
    let told = fan_complete_window(window, &mut counts);
    let mut bytes = Vec::new();
    for (index, completion) in told.iter().enumerate() {
        match completion {
            Completion::Data { command, payload } => {
                assert_eq!(command.itt, index as u32 + 1);
                assert!(payload.iter().all(|b| *b == payload[0]));
                bytes.push(payload[0]);
            }
            Completion::Good { command } => assert_eq!((command.itt, index), (3, 2)),
            _ => panic!("reads give data and writes are good"),
        }
    }
    assert_eq!(bytes, vec![0xaa, 0xbb, 0xcc]);
    assert_eq!((counts.reads, counts.writes), (3, 1));
    assert_eq!((counts.fua_writes, counts.fua_drains), (1, 1));
}

#[test]
fn fan_windows_refuse_what_does_not_add_up() {
    let tasks = vec![
        LaneTask::Read { command: command(1, 4096, 0), lba: 0, blocks: 1 },
        LaneTask::Read { command: command(2, 8192, 0), lba: 1, blocks: 2 },
    ];
    let window = FanWindow::new(tasks);
    let say = |outer: FanFrame, members: &[FanFrame]| -> String {
        window.fan_receive_task_responses(outer, members).unwrap_err().message
    };
    let member = || frame(FanOp::ReadResponse, 4096, 0, 1);
    assert_eq!(
        say(frame(FanOp::BatchResponse, 1, 4095, 0), &[member()]),
        "direct fan batch response misstated read payload bytes"
    );
    let mut sharded = frame(FanOp::BatchResponse, 1, 4096, 0);
    sharded.shard = 1;
    assert_eq!(
        fan_read_response_headers(sharded).unwrap_err().message,
        "direct fan batch response has a non-zero shard"
    );
    let mut sharded = frame(FanOp::ReadRangeResponse, 1, 4096, 0);
    sharded.shard = 1;
    assert_eq!(
        fan_read_response_headers(sharded).unwrap_err().message,
        "direct fan range response has a non-zero shard"
    );
    assert_eq!(
        say(
            frame(FanOp::ReadRangeResponse, 1, 8192, 0),
            &[frame(FanOp::ReadResponse, 8192, 0, 1)]
        ),
        "direct fan range response split a pending read"
    );
    assert_eq!(
        say(
            frame(FanOp::ReadRangeResponse, 1, 16384, 0),
            &[frame(FanOp::ReadResponse, 16384, 0, 1)]
        ),
        "direct fan range response omitted or added read bytes"
    );
    assert_eq!(
        say(
            frame(FanOp::ReadRangeResponse, 1, 4096, 0),
            &[frame(FanOp::ReadResponse, 4096, 0, 77)]
        ),
        "direct fan range response has an unknown first request id"
    );
    assert_eq!(
        say(
            frame(FanOp::ReadRangeResponse, 1, 100, 0),
            &[frame(FanOp::ReadResponse, 100, 0, 1)]
        ),
        "direct fan range response member is invalid"
    );
    assert_eq!(
        fan_read_response_headers(frame(FanOp::BatchResponse, 0, 0, 0)).unwrap_err().message,
        "direct fan response envelope is empty"
    );
    assert_eq!(fan_read_response_headers(frame(FanOp::BatchResponse, 7, 0, 0)).unwrap(), 7);
    assert_eq!(
        fan_read_response_headers(frame(FanOp::Unknown, 7, 0, 0)).unwrap_err().message,
        "unexpected direct fan response op=9"
    );
    assert_eq!(
        say(
            frame(FanOp::BatchResponse, 1, 4096, 0),
            &[frame(FanOp::WriteAck, 4096, 0, 1)]
        ),
        "direct fan response member mismatch op=9 shard=0 len=4096 offset=0"
    );
}

#[test]
fn fan_batches_carry_an_envelope() {
    let read = LaneTask::Read { command: command(1, 4096, 0), lba: 3, blocks: 1 };
    let wire = fan_send_tasks(&[read]).unwrap();
    assert!(wire.envelope.is_none());
    assert_eq!((wire.frames.len(), wire.frames[0].offset, wire.frames[0].len), (1, 12288, 4096));
    let tasks = vec![
        LaneTask::Read { command: command(1, 4096, 0), lba: 3, blocks: 1 },
        LaneTask::Write { command: command(2, 4096, 0), lba: 4, payload: vec![0; 4096], fua: false },
    ];
    let wire = fan_send_tasks(&tasks).unwrap();
    let envelope = wire.envelope.unwrap();
    assert!(matches!(envelope.op, FanOp::Batch));
    assert_eq!((envelope.len, envelope.offset), (2, 4096));
    assert_eq!(
        fan_send_tasks(&[]).unwrap_err().message,
        "direct fan wire batch must contain 1..=64 tasks"
    );
    assert!(fan_sync(frame(FanOp::SyncAck, 0, 0, 0)).is_ok());
    assert_eq!(
        fan_sync(frame(FanOp::SyncAck, 1, 2, 0)).unwrap_err().message,
        "direct fan SYNC response mismatch op=9 shard=0 len=1 offset=2"
    );
}

#[test]
fn fan_gathering_stops_at_the_window_a_barrier_or_a_durable_write() {
    let read = || LaneTask::Read { command: command(1, 4096, 0), lba: 0, blocks: 1 };
    let durable = || LaneTask::Write {
        command: command(2, 4096, 0),
        lba: 0,
        payload: vec![0; 4096],
        fua: true,
    };
    let mut gather = FanGather::new(3, read(), false);
    assert!(gather.open());
    assert!(!gather.looks_again(true));
    gather.run_fan_lane(read());
    assert!(gather.looks_again(true));
    assert!(!gather.looks_again(false));
    gather.run_fan_lane(durable());
    assert!(!gather.open());
    let mut counts = LaneCounts::new();
    gather.count(&mut counts);
    assert_eq!((counts.fan_batches, counts.fan_tasks, counts.max_fan_batch), (1, 3, 3));
    let mut stopped = FanGather::new(8, read(), true);
    assert!(stopped.looks_again(true));
    stopped.run_fan_lane(LaneTask::Barrier);
    assert!(!stopped.open());
    assert_eq!(stopped.tasks.len(), 1);
}

#[test]
fn fan_backends_are_checked_when_they_open() {
    let open = |addrs: &[&str], capacity: u64, cpus: usize, window: usize, spin: Option<&str>| {
        FanBackend::open_fan(
            args(addrs),
            capacity,
            (0..cpus).collect(),
            window,
            spin.map(|s| s.to_string()),
        )
    };
    assert_eq!(open(&["a:1"], 4096, 1, 1, None).unwrap().batch_spin_us, 2);
    assert_eq!(open(&["a:1"], 4096, 1, 1, Some("0")).unwrap().batch_spin_us, 0);
    for (fault, message) in [
        (open(&["a:1"], 1, 1, 1, None), "capacity must be a non-zero multiple of 4096 bytes"),
        (open(&[" "], 4096, 1, 1, None), "--fan-addrs must contain one non-empty TCP address per lane"),
        (open(&["a:1"], 4096, 2, 1, None), "direct fan topology has 1 addresses but 2 lane CPUs"),
        (open(&["a:1"], 4096, 1, 0, None), "--fan-window must be in 1..=4096"),
        (open(&["a:1"], 4096, 1, 1, Some("x")), "ZCISCSI_FAN_BATCH_SPIN_US must be an integer"),
        (open(&["a:1"], 4096, 1, 1, Some("1001")), "ZCISCSI_FAN_BATCH_SPIN_US must be in 0..=1000"),
    ] {
        let error = fault.unwrap_err();
        assert_eq!(error.kind, ErrorKind::InvalidInput);
        assert_eq!(error.message, message);
    }
}

#[test]
fn backends_place_transfers() {
    let file = Backend::File { capacity_bytes: 1 << 20 };
    let arena = Backend::Arena(ArenaBackend {
        capacity_bytes: 1 << 20,
        channels: 2,
        lane_cpus: vec![4, 5],
    });
    let remote = Backend::Fan(fan(1 << 20));
    assert_eq!((file.channels(), arena.channels(), remote.channels()), (1, 2, 1));
    assert_eq!(arena.lane_cpus(), vec![4, 5]);
    assert!(file.lane_cpus().is_empty());
    assert_eq!(file.allocate_write(8192).unwrap(), Blocks::Bytes { len: 8192 });
    assert_eq!(arena.allocate_write(8192).unwrap(), Blocks::Buffers { count: 2 });
    assert_eq!(
        file.allocate_write(100).unwrap_err().message,
        "write length is not a non-zero 4 KiB multiple"
    );
    match file.read_blocks(3, 2).unwrap() {
        Transfer::Run { offset, len } => assert_eq!((offset, len), (12288, 8192)),
        _ => panic!("a file is read in one run"),
    }
    match arena.read_blocks(3, 2).unwrap() {
        Transfer::Each { offsets } => assert_eq!(offsets, vec![12288, 16384]),
        _ => panic!("buffers are read block by block"),
    }
    assert_eq!(
        remote.read_blocks(0, 1).unwrap_err().message,
        "direct fan reads are owned by the lane-local fan transport"
    );
    assert_eq!(
        file.read_blocks(256, 1).unwrap_err().message,
        "SCSI transfer is outside the volume"
    );
    assert!(matches!(
        file.write_blocks(1, Blocks::Bytes { len: 4096 }).unwrap(),
        Transfer::Run { offset: 4096, len: 4096 }
    ));
    assert_eq!(
        file.write_blocks(1, Blocks::Buffers { count: 1 }).unwrap_err().message,
        "backend payload type mismatch"
    );
    assert_eq!(
        remote.write_blocks(1, Blocks::Bytes { len: 4096 }).unwrap_err().message,
        "direct fan writes are owned by the lane-local fan transport"
    );
}

#[test]
fn received_data_is_split_at_block_borders() {
    let blocks = Blocks::Buffers { count: 3 };
    assert_eq!(blocks.len(), 12288);
    assert_eq!(
        blocks.read_from(4000, 4200).unwrap(),
        vec![
            Part { buffer: 0, start: 4000, len: 96 },
            Part { buffer: 1, start: 0, len: 4096 },
            Part { buffer: 2, start: 0, len: 8 },
        ]
    );
    assert!(blocks.read_from(12288, 0).unwrap().is_empty());
    assert_eq!(
        blocks.read_from(12288, 1).unwrap_err().message,
        "iSCSI write data exceeds expected transfer length"
    );
    assert_eq!(blocks.read_from(usize::MAX, 1).unwrap_err().message, "write range overflow");
    assert_eq!(Blocks::Bytes { len: 9 }.bytes().unwrap(), 9);
    assert_eq!(
        blocks.bytes().unwrap_err().message,
        "direct fan transport received a non-userspace payload"
    );
}

#[test]
fn arenas_hand_out_whole_blocks_to_pinned_lanes() {
    assert!(open_arena(4096, 2, 2).is_ok());
    assert_eq!(
        open_arena(512, 2, 2).unwrap_err().message,
        "arena slot size 512 is not the required 4096 bytes"
    );
    assert_eq!(
        open_arena(4096, 2, 3).unwrap_err().message,
        "strict arena topology has 2 lanes but 3 lane CPUs"
    );
    assert_eq!(allocate_arena(true, Allocation::Full), NextTry::DrainAndTry);
    assert_eq!(allocate_arena(false, Allocation::Full), NextTry::PassOn);
    assert_eq!(allocate_arena(true, Allocation::Failed), NextTry::PassOn);
    assert_eq!(allocate_arena(false, Allocation::Got), NextTry::Use);
}

#[test]
fn target_options_name_one_backend() {
    let options = parse_options(&args(&[
        "--listen", "0.0.0.0:3260", "--target", "iqn.a", "--leaf-file", "/v",
    ]))
    .unwrap()
    .unwrap();
    assert_eq!(options.advertise, "0.0.0.0:3260");
    assert_eq!(options.leaf.as_deref(), Some("/v"));
    assert_eq!(options.sessions_per_lane, 1);
    assert!(parse_options(&args(&["--help"])).unwrap().is_none());
    assert!(usage().starts_with("usage: zciscsi-target --listen HOST:PORT"));
    assert!(parse_options(&args(&["--listen", "a", "--target", "t"])).is_err());
    let say = |list: &[&str]| parse_options(&args(list)).unwrap_err().message;
    assert_eq!(say(&["--bogus"]), format!("unknown argument --bogus\n{}", usage()));
    assert_eq!(say(&[]), usage());
    assert_eq!(say(&["--fan-addrs"]), "missing --fan-addrs");
    assert_eq!(say(&["--capacity-bytes", "x"]), "invalid --capacity-bytes");
    assert_eq!(
        say(&["--block-size", "512"]),
        "zciscsi supports only a rigid 4096-byte geometry"
    );
    let placed = ["--listen", "l", "--target", "t", "--arena-socket", "s", "--lane-cpus", "1"];
    assert_eq!(
        say(&placed),
        "userspace-stage mode requires equally sized, complete --lane-cpus, --rx-cpus, and --tx-cpus mappings"
    );
    let mut sharing = placed.to_vec();
    sharing.extend(["--rx-cpus", "1", "--tx-cpus", "2"]);
    assert_eq!(say(&sharing), "iSCSI lane, RX, and TX CPU roles must not overlap");
    let mut apart = placed.to_vec();
    apart.extend(["--rx-cpus", "3", "--tx-cpus", "2"]);
    let options = parse_options(&args(&apart)).unwrap().unwrap();
    assert_eq!((options.fan_window, options.zcnblk_device.as_str()), (64, "/dev/zcnblk0"));
    assert_eq!(
        say(&["--listen", "l", "--target", "t", "--leaf-file", "f", "--rx-cpus", "1"]),
        "terminal file test mode has no userspace placement lanes"
    );
    assert_eq!(
        say(&["--listen", "l", "--target", "t", "--leaf-file", "f", "--capacity-bytes", "1"]),
        "--fan-addrs and --capacity-bytes must be supplied together"
    );
    assert_eq!(
        parse_cpu_list(Some("1,3,5".to_string()), "--lane-cpus").unwrap(),
        vec![1, 3, 5]
    );
    assert!(parse_cpu_list(None, "--lane-cpus").is_err());
}
