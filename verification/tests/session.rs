use ksa64_host::fnv::{hash_words, rolling_hash, FNV_OFFSET};
use ksa64_host::le::{push_u16, push_u32, push_u64, read_u16, read_u32, read_u64};
use ksa64_host::pace::PaceRate;
use ksa64_host::session::{
    check_header, frame_record, kmr6_header, rate_from_u8, rate_to_u8, scan_session,
    session_complete, CellLayout, RecordedComparison, RecordedDirector, RecordedEstimate,
    RecordedFix, RecordedGuidance, RecordedUpdate, SessionError, SessionEvidence,
    RECORD_FINISH, RECORD_UPDATE,
};

fn director() -> RecordedDirector {
    RecordedDirector {
        position: [1, -2, 3],
        velocity: [4, 5, -6],
        acceleration: [7, 8, 9],
        attitude: [10, 11, 12, 13],
        angular_rate: [-14, 15, 16],
        flexible: [17, 18, 19, 20, 21, 22, 23, 24],
        total_mass: 25,
        active_propellant: 26,
        rcs_propellant: 27,
        time: 28,
        step: 29,
        active_stage: 1,
        phase: 2,
        substep: 3,
        mach: 30,
        dynamic_pressure: 31,
        angle_of_attack_sine: -32,
        gimbal_requested: [33, 34],
        gimbal_lagged: [35, 36],
        gimbal_applied: [37, 38],
        events: 0x105,
    }
}

fn layout() -> CellLayout {
    CellLayout {
        inertial: 4,
        aid: 3,
        command: 2,
        status: 5,
    }
}

fn update(aid: bool) -> RecordedUpdate {
    RecordedUpdate {
        epoch: 77,
        wall_micros: 0x0102_0304_0506_0708,
        inertial: vec![1, 2, 3, 4],
        aid: if aid { Some(vec![9, 8, 7]) } else { None },
        command: vec![5, 6],
        status: Some(vec![1, 1, 2, 3, 5]),
        ground_fix: Some(RecordedFix {
            fix_id: 3,
            measurement_epoch: 4,
            production_epoch: 5,
            position: [6, 7, 8],
            velocity: [-9, 10, 11],
            network_id: 12,
            validity: 13,
        }),
        ground_estimate: Some(RecordedEstimate {
            epoch: 14,
            position: [15, 16, 17],
            velocity: [18, 19, -20],
            fixes: 21,
            checksum: 22,
        }),
        comparison: None,
        director: director(),
        guidance: RecordedGuidance {
            start: [1, 2, 3],
            end: [-4, 5, 6],
            rate: [7, 8, -9],
        },
        world_cells: 40,
        flight_cells: 41,
        transcript_checksum: 0xdead_beef,
        mission_control_alarms: 3,
        pace_rate: 2,
        paused: true,
        cancelled: false,
    }
}

#[test]
fn little_endian_fields_round_trip() {
    let mut bytes = Vec::new();
    push_u16(&mut bytes, 0xbeef);
    push_u32(&mut bytes, 0x1234_5678);
    push_u64(&mut bytes, 0x0102_0304_0506_0708);
    assert_eq!(&bytes[..2], &[0xef, 0xbe]);
    assert_eq!(read_u16(&bytes, 0), 0xbeef);
    assert_eq!(read_u32(&bytes, 2), 0x1234_5678);
    assert_eq!(read_u64(&bytes, 6), 0x0102_0304_0506_0708);
}

#[test]
fn fnv_hashes_follow_the_reference_values() {
    assert_eq!(rolling_hash(FNV_OFFSET, b""), 0x811c_9dc5);
    assert_eq!(rolling_hash(FNV_OFFSET, b"a"), 0xe40c_292c);
    assert_eq!(rolling_hash(FNV_OFFSET, b"foobar"), 0xbf9c_f968);
    let mut expected = FNV_OFFSET;
    for b in 7u32.to_le_bytes() {
        expected = (expected ^ u32::from(b)).wrapping_mul(16_777_619);
    }
    assert_eq!(hash_words(&[7]), expected);
}

#[test]
fn an_update_record_round_trips() {
    let original = update(true);
    let bytes = original.encode_binary();
    let decoded = RecordedUpdate::decode_binary(&bytes, layout()).unwrap();
    assert_eq!(decoded.epoch, 77);
    assert_eq!(decoded.wall_micros, 0x0102_0304_0506_0708);
    assert_eq!(decoded.inertial, vec![1, 2, 3, 4]);
    assert_eq!(decoded.aid, Some(vec![9, 8, 7]));
    assert_eq!(decoded.command, vec![5, 6]);
    assert_eq!(decoded.status, Some(vec![1, 1, 2, 3, 5]));
    assert_eq!(decoded.ground_fix, original.ground_fix);
    assert_eq!(decoded.ground_estimate, original.ground_estimate);
    assert_eq!(decoded.comparison, None);
    assert_eq!(decoded.director, director());
    assert_eq!(decoded.guidance, original.guidance);
    assert_eq!(decoded.transcript_checksum, 0xdead_beef);
    assert_eq!(decoded.pace_rate, 2);
    assert!(decoded.paused);
    assert!(!decoded.cancelled);
    assert_eq!(decoded.encode_binary(), bytes);
}

#[test]
fn a_truncated_or_padded_update_is_a_codec_error() {
    let bytes = update(false).encode_binary();
    assert!(RecordedUpdate::decode_binary(&bytes, layout()).is_ok());
    assert_eq!(
        RecordedUpdate::decode_binary(&bytes[..bytes.len() - 1], layout()).err(),
        Some(SessionError::Codec)
    );
    let mut longer = bytes.clone();
    longer.push(0);
    assert_eq!(
        RecordedUpdate::decode_binary(&longer, layout()).err(),
        Some(SessionError::Codec)
    );
}

#[test]
fn a_comparison_is_carried_when_present() {
    let mut u = update(false);
    u.comparison = Some(RecordedComparison {
        position: [1, 2, 3],
        velocity: [4, 5, 6],
    });
    let bytes = u.encode_binary();
    let decoded = RecordedUpdate::decode_binary(&bytes, layout()).unwrap();
    assert_eq!(decoded.comparison, u.comparison);
    assert_eq!(decoded.aid, None);
}

#[test]
fn a_fresh_header_is_valid_and_checksummed() {
    let header = kmr6_header(1_700_000_000_123);
    assert_eq!(header.len(), 32);
    assert_eq!(&header[..4], b"KMR6");
    assert!(check_header(&header));
    let crc = crc32fast::hash(&header[..28]);
    assert_eq!(&header[28..], &crc.to_le_bytes());
    let mut damaged = header.clone();
    damaged[10] ^= 1;
    assert!(!check_header(&damaged));
}

#[test]
fn framed_records_read_back_and_a_torn_tail_is_recovered() {
    let mut file = kmr6_header(5);
    let first = update(true).encode_binary();
    file.extend_from_slice(&frame_record(RECORD_UPDATE, &first));
    file.extend_from_slice(&frame_record(RECORD_FINISH, &[1, 2, 3]));
    let scan = scan_session(&file).unwrap();
    assert_eq!(scan.records.len(), 2);
    assert_eq!(scan.records[0].kind, RECORD_UPDATE);
    assert_eq!(scan.records[0].payload, first);
    assert_eq!(scan.records[1].payload, vec![1, 2, 3]);
    assert!(!scan.recovered);
    let torn = &file[..file.len() - 2];
    let scan = scan_session(torn).unwrap();
    assert_eq!(scan.records.len(), 1);
    assert!(scan.recovered);
    assert_eq!(scan_session(&file[..20]).err(), Some(SessionError::Header));
}

#[test]
fn a_frame_ends_with_the_crc_of_its_prefix_and_payload() {
    let framed = frame_record(7, b"123456789");
    assert_eq!(&framed[..6], &[7, 0, 9, 0, 0, 0]);
    let crc = crc32fast::hash(&framed[..15]);
    assert_eq!(&framed[15..], &crc.to_le_bytes());
    assert_ne!(&framed[15..], &framed[..4]);
}

#[test]
fn pace_rates_record_as_codes() {
    for rate in [
        PaceRate::Quarter,
        PaceRate::Half,
        PaceRate::Realtime,
        PaceRate::Double,
        PaceRate::Max,
    ] {
        assert_eq!(rate_from_u8(rate_to_u8(rate)), rate);
    }
    assert_eq!(rate_to_u8(PaceRate::Double), 3);
    assert_eq!(rate_from_u8(200), PaceRate::Max);
}

#[test]
fn a_session_is_complete_only_without_recovery() {
    let evidence = SessionEvidence {
        complete: true,
        operator_stopped: false,
        fast_epochs: 1,
        mission_steps: 2,
        terminal_position_q12: [0; 3],
        terminal_velocity_q24: [0; 3],
        navigation_position_q12: [0; 3],
        navigation_velocity_q24: [0; 3],
        status_flight_checksum: 0,
        final_flight_checksum: 0,
        navigation_checksum: 0,
        deadline_misses: 0,
        alarms: 0,
    };
    assert!(session_complete(Some(evidence), false));
    assert!(!session_complete(Some(evidence), true));
    assert!(!session_complete(None, false));
}

#[test]
fn no_cut_of_an_update_decodes_and_bad_flag_bytes_are_refused() {
    let bytes = update(true).encode_binary();
    for k in 0..bytes.len() {
        assert!(RecordedUpdate::decode_binary(&bytes[..k], layout()).is_err());
    }
    let n = bytes.len();
    let mut rate = bytes.clone();
    rate[n - 3] = 5;
    assert!(RecordedUpdate::decode_binary(&rate, layout()).is_err());
    let mut paused = bytes.clone();
    paused[n - 2] = 2;
    assert!(RecordedUpdate::decode_binary(&paused, layout()).is_err());
}

#[test]
fn presence_and_flag_bytes_above_their_range_are_refused() {
    let bytes = update(true).encode_binary();
    let n = bytes.len();
    let mut cancelled = bytes.clone();
    cancelled[n - 1] = 7;
    assert_eq!(RecordedUpdate::decode_binary(&cancelled, layout()).err(), Some(SessionError::Codec));
    let aid_presence = 4 + 8 + 4;
    assert_eq!(bytes[aid_presence], 1);
    let mut aid = bytes.clone();
    aid[aid_presence] = 2;
    assert_eq!(RecordedUpdate::decode_binary(&aid, layout()).err(), Some(SessionError::Codec));
    let status_presence = aid_presence + 1 + 3 + 2;
    assert_eq!(bytes[status_presence], 1);
    let mut status = bytes.clone();
    status[status_presence] = 9;
    assert_eq!(RecordedUpdate::decode_binary(&status, layout()).err(), Some(SessionError::Codec));
}
