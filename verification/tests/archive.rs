use ksa64_host::archive::{
    encode_kae9, plan_advanced_retention, subset_kfe9, validate_kae9, AdvancedArchiveError,
    AdvancedFinalistPackage, CandidateRecordFacts, Kae9Evidence, Kae9Generation, RecordLengths,
    KFE9_HEADER_LENGTH,
};

fn facts_for(manifest: u32, n: u32) -> Vec<CandidateRecordFacts> {
    (0..n)
        .map(|i| CandidateRecordFacts {
            design_parsed: true,
            design_manifest: manifest,
            design_identity: 100 + i,
            aggregate_parsed: true,
            aggregate_manifest: manifest,
            candidate_identity: 100 + i,
            feasible: true,
            summary_parsed: true,
        })
        .collect()
}

const LENGTHS: RecordLengths = RecordLengths {
    design: 24,
    aggregate: 16,
    summary: 40,
};

fn header(magic: &[u8; 4], manifest: u32, study: u32, count: u32, payload: &[u8], record: u32) -> Vec<u8> {
    let mut h = vec![0u8; 128];
    h[..4].copy_from_slice(magic);
    h[4..6].copy_from_slice(&1u16.to_le_bytes());
    h[6..8].copy_from_slice(&128u16.to_le_bytes());
    h[8..12].copy_from_slice(&manifest.to_le_bytes());
    h[12..16].copy_from_slice(&study.to_le_bytes());
    h[16..20].copy_from_slice(&count.to_le_bytes());
    h[20..24].copy_from_slice(&(payload.len() as u32).to_le_bytes());
    h[24..28].copy_from_slice(&crc32fast::hash(payload).to_le_bytes());
    h[28..32].copy_from_slice(&record.to_le_bytes());
    let id = crc32fast::hash(&h[4..32]).max(1);
    h[32..36].copy_from_slice(&id.to_le_bytes());
    let crc = crc32fast::hash(&h[..124]);
    h[124..128].copy_from_slice(&crc.to_le_bytes());
    h
}

fn record(tag: u8) -> Vec<u8> {
    (0..80u8).map(|i| i.wrapping_mul(tag).wrapping_add(tag)).collect()
}

fn package(count: u8) -> Vec<u8> {
    let mut payload = Vec::new();
    for i in 0..count {
        payload.extend_from_slice(&record(i + 1));
    }
    let mut out = header(b"KFE9", 0x0102_0304, 0x3945_0001, count as u32, &payload, 80);
    out.extend_from_slice(&payload);
    out
}

fn generations() -> Vec<Kae9Generation> {
    vec![
        Kae9Generation {
            index: 0,
            candidates: vec![vec![1; 40], vec![2; 40]],
        },
        Kae9Generation {
            index: 1,
            candidates: vec![vec![3; 40]],
        },
    ]
}

fn evidence() -> Vec<Kae9Evidence> {
    vec![Kae9Evidence {
        candidate: 7,
        tier: 8,
        cases: vec![vec![5; 40], vec![6; 40]],
    }]
}

#[test]
fn strict_archive_rejects_corruption() {
    let bytes = encode_kae9(0x0102_0304, 0x3945_0001, &generations(), &evidence()).unwrap();
    validate_kae9(&bytes, &LENGTHS, &facts_for(0x0102_0304, 5)).unwrap();
    let mut bad = bytes.clone();
    let n = bad.len();
    bad[n - 1] ^= 1;
    assert_eq!(validate_kae9(&bad, &LENGTHS, &facts_for(0x0102_0304, 5)), Err(AdvancedArchiveError::Checksum));
}

#[test]
fn an_archive_lays_out_segments_after_its_header() {
    let bytes = encode_kae9(9, 10, &generations(), &evidence()).unwrap();
    assert_eq!(&bytes[..4], b"KAE9");
    assert_eq!(u32::from_le_bytes(bytes[16..20].try_into().unwrap()), 3);
    assert_eq!(&bytes[128..132], b"SE95");
    assert_eq!(u16::from_le_bytes([bytes[134], bytes[135]]), 1);
    assert_eq!(bytes.len(), 128 + (32 + 80) + (32 + 40) + (32 + 96));
    let evidence_at = 128 + 112 + 72;
    assert_eq!(&bytes[evidence_at..evidence_at + 4], b"SE95");
    let first_record = evidence_at + 32;
    assert_eq!(&bytes[first_record..first_record + 8], &[7, 0, 0, 0, 8, 0, 0, 0]);
    assert_eq!(&bytes[first_record + 48..first_record + 56], &[7, 0, 0, 0, 8, 1, 0, 0]);
}

#[test]
fn archive_validation_reports_each_fault() {
    let bytes = encode_kae9(9, 10, &generations(), &evidence()).unwrap();
    assert_eq!(validate_kae9(&bytes[..100], &LENGTHS, &facts_for(9, 5)), Err(AdvancedArchiveError::Length));
    let mut magic = bytes.clone();
    magic[0] = b'X';
    assert_eq!(validate_kae9(&magic, &LENGTHS, &facts_for(9, 5)), Err(AdvancedArchiveError::Magic));
    let mut reserved = bytes.clone();
    reserved[40] = 1;
    assert_eq!(validate_kae9(&reserved, &LENGTHS, &facts_for(9, 5)), Err(AdvancedArchiveError::Reserved));
    let other = RecordLengths {
        design: 20,
        aggregate: 16,
        summary: 40,
    };
    assert_eq!(validate_kae9(&bytes, &other, &facts_for(9, 5)), Err(AdvancedArchiveError::Length));
    let zero_tier = vec![Kae9Evidence {
        candidate: 7,
        tier: 0,
        cases: vec![vec![5; 40]],
    }];
    let bytes = encode_kae9(9, 10, &generations(), &zero_tier).unwrap();
    assert_eq!(validate_kae9(&bytes, &LENGTHS, &facts_for(9, 5)), Err(AdvancedArchiveError::Record));
    let empty = encode_kae9(9, 10, &vec![], &vec![]).unwrap();
    assert_eq!(empty.len(), 128);
    assert_eq!(validate_kae9(&empty, &LENGTHS, &facts_for(9, 5)), Ok(()));
}

#[test]
fn finalist_reader_subset_and_retention_are_deterministic() {
    let bytes = package(8);
    let package = AdvancedFinalistPackage::parse(&bytes, &LENGTHS, &facts_for(0x0102_0304, 8)).unwrap();
    assert_eq!(package.count, 8);
    assert_eq!(package.count(), 8);
    assert_eq!(package.record_bytes(0).unwrap(), record(1));
    let subset = subset_kfe9(&bytes, &[0, 3, 7], &LENGTHS, &facts_for(0x0102_0304, 8)).unwrap();
    let selected = AdvancedFinalistPackage::parse(&subset, &LENGTHS, &facts_for(0x0102_0304, 8)).unwrap();
    assert_eq!(selected.count, 3);
    assert_eq!(
        selected.record_bytes(1).unwrap(),
        package.record_bytes(3).unwrap()
    );
    assert_eq!(selected.manifest_identity, package.manifest_identity);
    assert_eq!(
        subset_kfe9(&bytes, &[1, 1], &LENGTHS, &facts_for(0x0102_0304, 8)),
        Err(AdvancedArchiveError::Count)
    );
    let stock = plan_advanced_retention(0, 8, 640_128, 4_160, &LENGTHS);
    assert_eq!(stock.retained_summaries, 5);
    assert_eq!(stock.compact_histories, 1);
    for kib in [128, 256, 512, 1024, 16_384] {
        let plan = plan_advanced_retention(kib, 8, 640_128, 4_160, &LENGTHS);
        assert!(plan.retained_summaries <= 8);
        assert!(plan.full_histories + plan.compact_histories <= 8);
        assert!(plan.unused_bytes <= plan.capacity_bytes);
    }
}

#[test]
fn packages_refuse_bad_framing() {
    let bytes = package(3);
    assert!(AdvancedFinalistPackage::parse(&bytes, &LENGTHS, &facts_for(0x0102_0304, 8)).is_ok());
    assert_eq!(
        AdvancedFinalistPackage::parse(&bytes[..bytes.len() - 1], &LENGTHS, &facts_for(0x0102_0304, 8)).err(),
        Some(AdvancedArchiveError::Checksum)
    );
    let other = RecordLengths {
        design: 24,
        aggregate: 16,
        summary: 41,
    };
    assert_eq!(
        AdvancedFinalistPackage::parse(&bytes, &other, &facts_for(0x0102_0304, 8)).err(),
        Some(AdvancedArchiveError::Length)
    );
    let mut payload_damage = bytes.clone();
    payload_damage[KFE9_HEADER_LENGTH + 5] ^= 0x10;
    assert_eq!(
        AdvancedFinalistPackage::parse(&payload_damage, &LENGTHS, &facts_for(0x0102_0304, 8)).err(),
        Some(AdvancedArchiveError::Checksum)
    );
    let parsed = AdvancedFinalistPackage::parse(&bytes, &LENGTHS, &facts_for(0x0102_0304, 8)).unwrap();
    assert_eq!(parsed.record_bytes(3).err(), Some(AdvancedArchiveError::Count));
    assert_eq!(
        subset_kfe9(&bytes, &[3], &LENGTHS, &facts_for(0x0102_0304, 8)),
        Err(AdvancedArchiveError::Count)
    );
}

#[test]
fn retention_fills_summaries_then_histories() {
    let plan = plan_advanced_retention(128, 8, 640_128, 4_160, &LENGTHS);
    assert_eq!(plan.capacity_bytes, 131_072);
    assert_eq!(plan.retained_summaries, 8);
    assert_eq!(plan.full_histories, 0);
    assert_eq!(plan.compact_histories, 8);
    assert_eq!(plan.unused_bytes, 131_072 - 640 - 8 * 4_160);
    let big = plan_advanced_retention(16_384, 8, 640_128, 4_160, &LENGTHS);
    assert_eq!(big.full_histories, 8);
    assert_eq!(big.compact_histories, 0);
    let none = plan_advanced_retention(0, 0, 1, 1, &LENGTHS);
    assert_eq!(none.compact_histories, 0);
    assert_eq!(none.retained_summaries, 0);
}

use ksa64_host::archive::{encode_kfe9, kfe9_finalist_ids, validate_kfe9, FinalistMark};

fn mark(candidate_identity: u32, feasible: bool) -> FinalistMark {
    FinalistMark { candidate_identity, feasible }
}

#[test]
fn finalist_packages_keep_feasible_identities_in_order() {
    let finalists = [mark(9, true), mark(3, false), mark(7, true), mark(9, true), mark(1, true)];
    assert_eq!(kfe9_finalist_ids(&finalists), vec![1, 7, 9]);
    let many: Vec<FinalistMark> = (0..40u32).rev().map(|i| mark(i * 2, i % 5 != 0)).collect();
    let kept = kfe9_finalist_ids(&many);
    assert_eq!(kept.len(), 32);
    let expected: Vec<u32> = (0..40u32).filter(|i| i % 5 != 0).map(|i| i * 2).take(32).collect();
    assert_eq!(kept, expected);
    assert_eq!(kfe9_finalist_ids(&[mark(4, false)]), Vec::<u32>::new());
}

#[test]
fn written_finalist_packages_validate() {
    let records: Vec<Vec<u8>> = (0..3u8).map(|i| vec![i + 1; 80]).collect();
    let bytes = encode_kfe9(0x11, 0x22, &records, &LENGTHS, 5).unwrap();
    assert_eq!(bytes.len(), 128 + 3 * 80);
    assert_eq!(&bytes[..4], b"KFE9");
    assert_eq!(validate_kfe9(&bytes, &LENGTHS, &facts_for(0x11, 3)), Ok((0x11, 0x22, 3, 80)));
    assert_eq!(&bytes[128 + 80..128 + 160], &records[1][..]);
    let joined: Vec<u8> = records.concat();
    assert_eq!(&bytes[24..28], &crc32fast::hash(&joined).to_le_bytes());
    assert_eq!(encode_kfe9(0x11, 0x22, &records, &LENGTHS, 2), Err(AdvancedArchiveError::Count));
}

#[test]
fn record_contents_must_match_the_package() {
    let records: Vec<Vec<u8>> = (0..3u8).map(|i| vec![i + 1; 80]).collect();
    let bytes = encode_kfe9(0x11, 0x22, &records, &LENGTHS, 5).unwrap();
    let mut facts = facts_for(0x11, 3);
    facts[1].aggregate_manifest = 0x12;
    assert_eq!(validate_kfe9(&bytes, &LENGTHS, &facts), Err(AdvancedArchiveError::Identity));
    let mut facts = facts_for(0x11, 3);
    facts[2].candidate_identity = 7;
    assert_eq!(validate_kfe9(&bytes, &LENGTHS, &facts), Err(AdvancedArchiveError::Identity));
    let mut facts = facts_for(0x11, 3);
    facts[0].feasible = false;
    assert_eq!(validate_kfe9(&bytes, &LENGTHS, &facts), Err(AdvancedArchiveError::Identity));
    let mut facts = facts_for(0x11, 3);
    facts[0].summary_parsed = false;
    facts[1].design_manifest = 0;
    assert_eq!(validate_kfe9(&bytes, &LENGTHS, &facts), Err(AdvancedArchiveError::Record));
    assert_eq!(
        validate_kfe9(&bytes, &LENGTHS, &facts_for(0x11, 2)),
        Err(AdvancedArchiveError::Record)
    );
    assert_eq!(
        AdvancedFinalistPackage::parse(&bytes, &LENGTHS, &facts).err(),
        Some(AdvancedArchiveError::Record)
    );

    let archive = encode_kae9(9, 10, &generations(), &evidence()).unwrap();
    let mut facts = facts_for(9, 5);
    facts[2].design_identity = 1;
    assert_eq!(validate_kae9(&archive, &LENGTHS, &facts), Err(AdvancedArchiveError::Identity));
    let mut facts = facts_for(9, 5);
    facts[0].feasible = false;
    facts[0].summary_parsed = false;
    assert_eq!(validate_kae9(&archive, &LENGTHS, &facts), Ok(()));
    let mut unread = facts.clone();
    unread[4].summary_parsed = false;
    assert_eq!(validate_kae9(&archive, &LENGTHS, &unread), Err(AdvancedArchiveError::Record));
    assert_eq!(validate_kae9(&archive, &LENGTHS, &facts[..4]), Err(AdvancedArchiveError::Record));
    facts[1].design_parsed = false;
    assert_eq!(validate_kae9(&archive, &LENGTHS, &facts), Err(AdvancedArchiveError::Record));
}
