use ksa64_host::link::{
    capabilities_frame_ok, command_frame_ok, command_header, flight_frame_action, sensor_header,
    start_header, status_frame_ok, status_header, stop_header, FlightFrameAction,
    LinkFrameHeader, LinkRecordKind, Phase95SplitEvidence,
};

const NONE: u32 = u32::MAX;

#[test]
fn release_frames_are_numbered_from_twice_the_epoch() {
    let aid = sensor_header(7, true, NONE);
    assert_eq!((aid.sequence, aid.measurement, aid.production, aid.effective), (14, 7, 7, NONE));
    let fast = sensor_header(7, false, NONE);
    assert_eq!(fast.sequence, 15);
    assert_eq!(fast.record, LinkRecordKind::CanonicalSensor);
    let stop = stop_header(NONE);
    assert_eq!(stop.sequence, u32::MAX - 1);
    assert_eq!(start_header().record, LinkRecordKind::Start);
}

#[test]
fn host_accepts_what_the_flight_endpoint_answers() {
    let command = command_header(7, 7, 8);
    assert!(command_frame_ok(command, 7));
    assert!(!command_frame_ok(command_header(7, 7, 9), 7));
    assert!(!command_frame_ok(command_header(6, 7, 8), 7));
    let status = status_header(7, 7, 7, NONE);
    assert!(status_frame_ok(status, 7, NONE));
    assert!(!status_frame_ok(status_header(7, 7, 6, NONE), 7, NONE));
    assert!(!status_frame_ok(command, 7, NONE));
    let caps = LinkFrameHeader {
        record: LinkRecordKind::Capabilities,
        sequence: 0,
        measurement: 0,
        production: 0,
        effective: 0,
    };
    assert!(capabilities_frame_ok(caps));
    assert!(!capabilities_frame_ok(LinkFrameHeader { sequence: 1, ..caps }));
}

#[test]
fn flight_endpoint_sorts_frames_by_kind_and_length() {
    let sensor = LinkRecordKind::CanonicalSensor;
    assert_eq!(flight_frame_action(sensor, 24, 24, 40), FlightFrameAction::StoreAid);
    assert_eq!(flight_frame_action(sensor, 40, 24, 40), FlightFrameAction::Tick);
    assert_eq!(flight_frame_action(sensor, 41, 24, 40), FlightFrameAction::Refuse);
    assert_eq!(flight_frame_action(LinkRecordKind::Stop, 0, 24, 40), FlightFrameAction::Finish);
    assert_eq!(flight_frame_action(LinkRecordKind::Start, 0, 24, 40), FlightFrameAction::Refuse);
}

#[test]
fn split_evidence_hashes_each_stream() {
    let mut e = Phase95SplitEvidence::new();
    e.sensor_sent(b"s1");
    e.sensor_sent(b"s2");
    e.command_accepted(b"c");
    e.status_accepted(b"t");
    e.release_finished(1, 2, 3, 4);
    let fnv = |bytes: &[u8]| {
        bytes.iter().fold(0x811c_9dc5u32, |h, b| (h ^ *b as u32).wrapping_mul(0x0100_0193))
    };
    assert_eq!(e.sensor_checksum, fnv(b"s1s2"));
    assert_eq!(e.command_checksum, fnv(b"c"));
    assert_eq!(e.status_checksum, fnv(b"t"));
    assert_eq!((e.releases, e.truth_checksum, e.allocator_checksum), (1, 1, 4));
    let mut full = Phase95SplitEvidence { releases: u32::MAX, ..e };
    full.release_finished(0, 0, 0, 0);
    assert_eq!(full.releases, u32::MAX);
}

use ksa64_host::link::{command_epochs_ok, guidance_refresh, status_due};

#[test]
fn realtime_bridge_epoch_rules() {
    assert_eq!(guidance_refresh(2), Some(0));
    assert_eq!(guidance_refresh(34), Some(1));
    assert_eq!(guidance_refresh(33), None);
    assert!(status_due(0));
    assert!(status_due(8));
    assert!(!status_due(6));
    assert!(command_epochs_ok(5, 5, 6));
    assert!(!command_epochs_ok(5, 5, 7));
    assert!(command_epochs_ok(0x1_ffff, 0xffff, 0));
    assert!(command_epochs_ok(u32::MAX, 0xffff, 0));
}
