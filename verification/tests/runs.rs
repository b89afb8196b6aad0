use ksa64_host::campaign::Phase85CampaignAggregate;
use ksa64_host::runs::{
    encode_phase85_campaign, validate_phase85_campaign, read_run_archive, run_archive_layout,
    Phase85CampaignResult, PHASE85_CAMPAIGN_RUNS,
};

fn records(count: u8, length: usize) -> Vec<Vec<u8>> {
    (0..count).map(|i| vec![i.wrapping_mul(37).wrapping_add(5); length]).collect()
}

fn archive(records: &[Vec<u8>]) -> Vec<u8> {
    let joined: Vec<u8> = records.concat();
    run_archive_layout(64, 0xfeed, records.len() as u32, records, 6, crc32fast::hash(&joined))
}

#[test]
fn run_archive_reads_back_its_records() {
    let runs = records(3, 6);
    let bytes = archive(&runs);
    assert_eq!(bytes.len(), 64 + 3 * 14);
    assert_eq!(&bytes[32..36], &0xfeedu32.to_le_bytes());
    assert_eq!(&bytes[36..40], &3u32.to_le_bytes());
    assert_eq!(&bytes[40..44], &14u32.to_le_bytes());
    assert_eq!(&bytes[64 + 14..64 + 22], &[1, 0, 0, 0, 6, 0, 0, 0]);
    assert_eq!(read_run_archive(&bytes, 64, 6), Some(runs));
    let empty = archive(&[]);
    assert_eq!(read_run_archive(&empty, 64, 6), Some(Vec::new()));
}

#[test]
fn run_archive_refuses_damage() {
    let bytes = archive(&records(3, 6));
    let mut flipped = bytes.clone();
    flipped[64 + 14 + 8] ^= 0x40;
    assert_eq!(read_run_archive(&flipped, 64, 6), None);
    let mut renumbered = bytes.clone();
    renumbered[64 + 14] = 2;
    assert_eq!(read_run_archive(&renumbered, 64, 6), None);
    let mut retagged = bytes.clone();
    retagged[64 + 4] = 7;
    assert_eq!(read_run_archive(&retagged, 64, 6), None);
    let mut slot = bytes.clone();
    slot[40] = 15;
    assert_eq!(read_run_archive(&slot, 64, 6), None);
    assert_eq!(read_run_archive(&bytes[..bytes.len() - 1], 64, 6), None);
    assert_eq!(read_run_archive(&bytes[..40], 64, 6), None);
    assert_eq!(read_run_archive(&bytes, 64, 5), None);
}

fn aggregate() -> Phase85CampaignAggregate {
    Phase85CampaignAggregate {
        runs: 64,
        completed: 64,
        recovery_incomplete: 0,
        model_envelope_exceeded: 0,
        alarmed: 0,
        saturated: 0,
        maximum_navigation_error_q13: 0,
        maximum_attitude_error_turn16: 0,
        records_crc32: 0,
    }
}

#[test]
fn avionics_campaign_archive_reads_back_its_records() {
    let runs = records(PHASE85_CAMPAIGN_RUNS as u8, 4);
    let result = Phase85CampaignResult {
        records: runs.clone(),
        variation_checksums: (0..64u32).map(|i| i * 3 + 1).collect(),
        aggregate: aggregate(),
    };
    let bytes = encode_phase85_campaign(&result, 4);
    assert_eq!(bytes.len(), 64 * 12);
    assert_eq!(&bytes[12..20], &[1, 0, 0, 0, 4, 0, 0, 0]);
    assert_eq!(&bytes[20..24], &runs[1][..]);
    assert_eq!(validate_phase85_campaign(&bytes, 4), Some(runs));

    let mut renumbered = bytes.clone();
    renumbered[12 * 5] = 9;
    assert_eq!(validate_phase85_campaign(&renumbered, 4), None);
    assert_eq!(validate_phase85_campaign(&bytes[..bytes.len() - 12], 4), None);
}

#[test]
fn avionics_campaign_without_checksums_leaves_zero_slots() {
    let result = Phase85CampaignResult {
        records: records(3, 4),
        variation_checksums: vec![7],
        aggregate: aggregate(),
    };
    let bytes = encode_phase85_campaign(&result, 4);
    assert_eq!(bytes.len(), 36);
    assert_eq!(&bytes[4..8], &7u32.to_le_bytes());
    assert!(bytes[12..].iter().all(|b| *b == 0));
}

use ksa64_host::decimal::source_set_identity;
use ksa64_host::runs::{
    candidate_list_identity, encode_candidate_list, validate_candidate_list, HobbyDesignVector,
};

fn design(i: i32) -> HobbyDesignVector {
    HobbyDesignVector {
        dry_mass_scale_ppm: 1_000_000 + i,
        body_drag_scale_ppm: -i,
        main_deployment_altitude_raw: 150 * i,
        rail_length_raw: 7,
    }
}

#[test]
fn candidate_lists_lay_out_each_design_in_order() {
    let designs: Vec<HobbyDesignVector> = (0..3).map(design).collect();
    let bytes = encode_candidate_list(48, 0x1111, 0x2222, &designs);
    assert_eq!(bytes.len(), 48 + 3 * 20 + 4);
    assert_eq!(&bytes[32..36], &[3, 0, 20, 0]);
    assert_eq!(&bytes[36..40], &0x1111u32.to_le_bytes());
    assert_eq!(&bytes[40..44], &0x2222u32.to_le_bytes());
    assert_eq!(&bytes[48 + 20..48 + 24], &1u32.to_le_bytes());
    assert_eq!(&bytes[48 + 24..48 + 28], &1_000_001i32.to_le_bytes());
    assert_eq!(&bytes[48 + 28..48 + 32], &(-1i32).to_le_bytes());
    assert!(validate_candidate_list(&bytes, 48));
    let mut reserved = bytes.clone();
    reserved[45] = 1;
    assert!(!validate_candidate_list(&reserved, 48));
    let mut stride = bytes.clone();
    stride[34] = 21;
    assert!(!validate_candidate_list(&stride, 48));
    assert!(!validate_candidate_list(&bytes[..bytes.len() - 4], 48));
    assert_eq!(
        candidate_list_identity(0x1111, 0x8000_0001),
        0x1111 ^ 0x8000_0001u32.rotate_left(13)
    );
}

#[test]
fn source_set_identity_folds_each_pack_crc() {
    let (v, m, mi, w) = (&b"vehicle"[..], &b"motor"[..], &b"mission"[..], &b"wind"[..]);
    let mut expected = crc32fast::hash(v);
    expected = expected.rotate_left(7) ^ crc32fast::hash(m);
    expected = expected.rotate_left(7) ^ crc32fast::hash(mi);
    expected = expected.rotate_left(7) ^ crc32fast::hash(w);
    assert_eq!(source_set_identity(v, m, mi, w), expected);
    assert_ne!(source_set_identity(v, m, mi, w), source_set_identity(w, m, mi, v));
}
