use ksa64_host::export::{join_volumes, split_volumes, try_join_volumes, ExportError, ExportMode};

fn archive(n: usize) -> Vec<u8> {
    (0..n).map(|i| (i * 7 + 3) as u8).collect()
}

#[test]
fn splitting_then_joining_gives_back_the_archive() {
    let data = archive(1000);
    let crc = crc32fast::hash(&data);
    let volumes = split_volumes(&data, crc, 5, ExportMode::MultiVolume, 300).unwrap();
    assert_eq!(volumes.len(), 4);
    assert_eq!(volumes[3].payload.len(), 100);
    assert_eq!(volumes[2].header.logical_offset, 600);
    assert_eq!(volumes[1].header.volume_index, 1);
    assert_eq!(volumes[0].header.volume_count, 4);
    assert_eq!(join_volumes(&volumes).unwrap(), data);
}

#[test]
fn an_empty_archive_is_one_empty_volume() {
    let crc = crc32fast::hash(&[]);
    let volumes = split_volumes(&[], crc, 0, ExportMode::OneVolume, 10).unwrap();
    assert_eq!(volumes.len(), 1);
    assert!(volumes[0].payload.is_empty());
    assert_eq!(join_volumes(&volumes).unwrap(), Vec::<u8>::new());
}

#[test]
fn splitting_refuses_impossible_limits() {
    let data = archive(20);
    assert_eq!(
        split_volumes(&data, 0, 0, ExportMode::MultiVolume, 0).err(),
        Some(ExportError::Length)
    );
    assert_eq!(
        split_volumes(&data, 0, 0, ExportMode::OneVolume, 19).err(),
        Some(ExportError::Oversized)
    );
    assert!(split_volumes(&data, 0, 0, ExportMode::OneVolume, 20).is_ok());
    let big = archive(70_000);
    assert_eq!(
        split_volumes(&big, 0, 0, ExportMode::MultiVolume, 1).err(),
        Some(ExportError::Oversized)
    );
}

#[test]
fn joining_is_strict() {
    let data = archive(50);
    let crc = crc32fast::hash(&data);
    let volumes = split_volumes(&data, crc, 1, ExportMode::MultiVolume, 20).unwrap();
    assert_eq!(join_volumes(&[]).err(), Some(ExportError::Order));
    let mut swapped = volumes.clone();
    swapped.swap(0, 1);
    assert_eq!(join_volumes(&swapped).err(), Some(ExportError::Order));
    let mut foreign = volumes.clone();
    foreign[1].header.selection_crc32 = 2;
    assert_eq!(join_volumes(&foreign).err(), Some(ExportError::Identity));
    let wrong = split_volumes(&data, crc ^ 1, 1, ExportMode::MultiVolume, 20).unwrap();
    assert_eq!(join_volumes(&wrong).err(), Some(ExportError::Checksum));
    assert_eq!(join_volumes(&volumes[..2]).err(), Some(ExportError::Order));
}

use ksa64_host::export::{find_history, stock_aggregate_payload, HistoryRecord};

#[test]
fn stock_aggregate_is_sealed_with_its_crc() {
    let p = stock_aggregate_payload();
    assert_eq!(p.len(), 128);
    assert_eq!(&p[0..4], b"KAG4");
    assert_eq!(&p[8..12], &1_024u32.to_le_bytes());
    assert_eq!(&p[12..16], &857u32.to_le_bytes());
    assert_eq!(&p[36..40], &0x813c_e420u32.to_le_bytes());
    assert_eq!(&p[60..64], &62i32.to_le_bytes());
    assert!(p[64..124].iter().all(|b| *b == 0));
    assert_eq!(&p[124..128], &crc32fast::hash(&p[..124]).to_le_bytes());
}

#[test]
fn histories_are_found_by_run_index() {
    let a = [1u8, 2];
    let b = [3u8];
    let c = [4u8, 5, 6];
    let histories = [
        HistoryRecord { run_index: 8, bytes: &a },
        HistoryRecord { run_index: 96, bytes: &b },
        HistoryRecord { run_index: 8, bytes: &c },
    ];
    assert_eq!(find_history(&histories, 8).map(|h| h.bytes), Ok(&a[..]));
    assert_eq!(find_history(&histories, 96).map(|h| h.bytes), Ok(&b[..]));
    assert_eq!(find_history(&histories, 1).map(|h| h.bytes), Err(ExportError::Manifest));
}

#[test]
fn joining_volumes_that_do_not_fit_their_archive_is_refused() {
    let data = archive(100);
    let crc = crc32fast::hash(&data);
    let volumes = split_volumes(&data, crc, 1, ExportMode::MultiVolume, 60).unwrap();
    assert_eq!(try_join_volumes(&volumes), Some(Ok(data.clone())));
    let mut long = volumes.clone();
    long[1].header.logical_length = 80;
    long[0].header.logical_length = 80;
    assert_eq!(try_join_volumes(&long), None);
    let mut short = volumes.clone();
    short[1].payload.pop();
    assert_eq!(try_join_volumes(&short), None);
    let mut order = volumes.clone();
    order[1].header.volume_index = 0;
    assert_eq!(try_join_volumes(&order), Some(Err(ExportError::Order)));
}
