use ksa64_host::plot::{reference_epochs, PlannedTrajectoryError};
use ksa64_host::plot::{
    format_orbit_kind, pack_phase_events, read_kph7_point, read_kph8_point, sample_frame_index,
    write_kph7_point, write_kph8_point, Kph7Point, Kph8Point, OrbitKind,
    STOCK_KPH7_MAX_POINTS,
};

#[test]
fn sparse_plots_sample_first_and_last_frames() {
    assert_eq!(sample_frame_index(0, 1, 50), 0);
    assert_eq!(sample_frame_index(0, 124, 1000), 0);
    assert_eq!(sample_frame_index(123, 124, 1000), 999);
    assert_eq!(sample_frame_index(61, 124, 1000), 61 * 999 / 123);
    let mut previous = None;
    for point in 0..STOCK_KPH7_MAX_POINTS {
        let frame = sample_frame_index(point, STOCK_KPH7_MAX_POINTS, 500);
        assert!(frame < 500);
        if let Some(p) = previous {
            assert!(frame > p);
        }
        previous = Some(frame);
    }
}

#[test]
fn phase_and_events_share_a_word() {
    let word = pack_phase_events(0x0000_0105, 3);
    assert_eq!(word, 0x0300_0105);
    assert_eq!(word >> 24, 3);
    assert_eq!(word & 0xff_ffff, 0x105);
}

#[test]
fn plot_points_round_trip() {
    let p = Kph7Point {
        time_raw: -1,
        altitude_raw: 123_456,
        velocity_raw: -7,
        phase_and_events: 0x0200_0001,
    };
    let mut bytes = vec![0xaa];
    write_kph7_point(&mut bytes, p);
    assert_eq!(bytes.len(), 17);
    assert_eq!(&bytes[1..5], &[0xff, 0xff, 0xff, 0xff]);
    assert_eq!(read_kph7_point(&bytes, 1), p);
    let q = Kph8Point {
        time_raw: 1,
        east_raw: -2,
        north_raw: 3,
        altitude_raw: -4,
        vertical_velocity_raw: 5,
        phase_and_events: 6,
    };
    let mut bytes = Vec::new();
    write_kph8_point(&mut bytes, q);
    assert_eq!(bytes.len(), 24);
    assert_eq!(read_kph8_point(&bytes, 0), q);
}

#[test]
fn orbit_kinds_have_labels() {
    assert_eq!(format_orbit_kind(OrbitKind::Elliptic), "STABLE ELLIPSE");
    assert_eq!(format_orbit_kind(OrbitKind::Impacting), "EARTH-INTERSECTING");
    assert_eq!(format_orbit_kind(OrbitKind::Escape), "OPEN / ESCAPE");
    assert_eq!(format_orbit_kind(OrbitKind::Degenerate), "DEGENERATE");
}

use ksa64_host::plot::{
    parse_kph7, parse_kph8, build_stock_kph7, build_stock_kph8, PlotRecordError,
};

fn vertical_frame(i: i32) -> Kph7Point {
    Kph7Point {
        time_raw: i * 10,
        altitude_raw: -i,
        velocity_raw: i * i,
        phase_and_events: pack_phase_events(i as u32, 2),
    }
}

#[test]
fn stock_vertical_plot_reads_back_its_sampled_frames() {
    let frames: Vec<Kph7Point> = (0..300).map(vertical_frame).collect();
    let bytes = build_stock_kph7(&frames, 64, 11, 22, 33).unwrap();
    assert_eq!(bytes.len(), 64 + 124 * 16 + 4);
    assert_eq!(&bytes[32..36], &[124, 0, 16, 0]);
    assert_eq!(&bytes[36..40], &11u32.to_le_bytes());
    assert_eq!(&bytes[48..52], &300u32.to_le_bytes());
    let points = parse_kph7(&bytes, 64).unwrap();
    assert_eq!(points.len(), 124);
    assert_eq!(points[0], frames[0]);
    assert_eq!(points[123], frames[299]);
    assert_eq!(points[50], frames[50 * 299 / 123]);

    let few: Vec<Kph7Point> = (0..3).map(vertical_frame).collect();
    let short = build_stock_kph7(&few, 52, 1, 2, 3).unwrap();
    assert_eq!(parse_kph7(&short, 52).unwrap(), few);
}

#[test]
fn vertical_plot_records_refuse_reserved_bytes_and_bad_lengths() {
    let frames: Vec<Kph7Point> = (0..5).map(vertical_frame).collect();
    let bytes = build_stock_kph7(&frames, 64, 1, 2, 3).unwrap();
    let mut reserved = bytes.clone();
    reserved[60] = 1;
    assert_eq!(parse_kph7(&reserved, 64), Err(PlotRecordError::Reserved));
    assert_eq!(parse_kph7(&bytes[..60], 64), Err(PlotRecordError::Reserved));
    let mut stride = bytes.clone();
    stride[34] = 20;
    assert_eq!(parse_kph7(&stride, 64), Err(PlotRecordError::Length));
    assert_eq!(parse_kph7(&bytes[..bytes.len() - 1], 64), Err(PlotRecordError::Length));
}

#[test]
fn stock_spatial_plot_reads_back_its_sampled_frames() {
    let frames: Vec<Kph8Point> = (0..90)
        .map(|i| Kph8Point {
            time_raw: i,
            east_raw: 2 * i,
            north_raw: -3 * i,
            altitude_raw: 4 * i,
            vertical_velocity_raw: -i,
            phase_and_events: i as u32,
        })
        .collect();
    let bytes = build_stock_kph8(&frames, 64, 1, 2, 3, 4).unwrap();
    assert_eq!(bytes.len(), 64 + 82 * 24 + 4);
    assert_eq!(&bytes[48..52], &4u32.to_le_bytes());
    assert_eq!(&bytes[52..56], &90u32.to_le_bytes());
    let points = parse_kph8(&bytes, 64).unwrap();
    assert_eq!(points.len(), 82);
    assert_eq!(points[0], frames[0]);
    assert_eq!(points[81], frames[89]);
    let mut reserved = bytes.clone();
    reserved[56] = 9;
    assert_eq!(parse_kph8(&reserved, 64), Err(PlotRecordError::Reserved));
}

#[test]
fn stock_plots_refuse_a_stream_without_frames() {
    assert_eq!(build_stock_kph7(&[], 64, 1, 2, 3), Err(PlotRecordError::Empty));
    assert_eq!(build_stock_kph8(&[], 64, 1, 2, 3, 4), Err(PlotRecordError::Empty));
}

#[test]
fn reference_points_fall_on_increasing_releases() {
    assert_eq!(reference_epochs(&[0, 2048, 10 * 2048]), Ok(vec![0, 1, 10]));
    assert_eq!(reference_epochs(&[]), Ok(vec![]));
    assert_eq!(reference_epochs(&[0, 2049]), Err(PlannedTrajectoryError::Time));
    assert_eq!(reference_epochs(&[4096, 4096]), Err(PlannedTrajectoryError::Time));
    assert_eq!(reference_epochs(&[4096, 2048]), Err(PlannedTrajectoryError::Time));
}
