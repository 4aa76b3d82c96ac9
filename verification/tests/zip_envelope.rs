//! The end records of ZIP archives.
use rusttorch::deployment::zip_envelope::validate_zip_envelope;
use rusttorch::error::RustTorchError;
use std::io::{Cursor, Write};
use zip::write::FileOptions;
use zip::{ZipArchive, ZipWriter};

fn archive() -> Vec<u8> {
    let mut writer = ZipWriter::new(Cursor::new(Vec::new()));
    writer.start_file("state", FileOptions::default()).unwrap();
    writer.write_all(b"model").unwrap();
    writer.finish().unwrap().into_inner()
}

fn zip64(bytes: &[u8], count: u64) -> Vec<u8> {
    let end = bytes.len() - 22;
    let mut result = bytes[..end].to_vec();
    let size = u32::from_le_bytes(bytes[end + 12..end + 16].try_into().unwrap());
    let offset = u32::from_le_bytes(bytes[end + 16..end + 20].try_into().unwrap());
    result.extend_from_slice(b"PK\x06\x06");
    result.extend_from_slice(&44_u64.to_le_bytes());
    result.extend_from_slice(&45_u16.to_le_bytes());
    result.extend_from_slice(&45_u16.to_le_bytes());
    result.extend_from_slice(&0_u32.to_le_bytes());
    result.extend_from_slice(&0_u32.to_le_bytes());
    result.extend_from_slice(&count.to_le_bytes());
    result.extend_from_slice(&count.to_le_bytes());
    result.extend_from_slice(&(size as u64).to_le_bytes());
    result.extend_from_slice(&(offset as u64).to_le_bytes());
    result.extend_from_slice(b"PK\x06\x07");
    result.extend_from_slice(&0_u32.to_le_bytes());
    result.extend_from_slice(&(end as u64).to_le_bytes());
    result.extend_from_slice(&1_u32.to_le_bytes());
    let mut normal = bytes[end..].to_vec();
    normal[8..12].fill(0xff);
    normal[12..20].fill(0xff);
    result.extend_from_slice(&normal);
    result
}

fn message(bytes: &[u8], entries: usize, limit: usize) -> String {
    match validate_zip_envelope(bytes, entries, limit) {
        Err(RustTorchError::GraphValidation(text)) => text,
        other => panic!("{other:?}"),
    }
}

#[test]
fn zip_envelope_bounds_counts_before_native_allocation() {
    let bytes = archive();
    validate_zip_envelope(&bytes, 1, 1024).unwrap();
    let normal_end = bytes.len() - 22;
    let mut forged = bytes.clone();
    forged[normal_end + 8..normal_end + 12].copy_from_slice(&[0xfe, 0xff, 0xfe, 0xff]);
    assert!(validate_zip_envelope(&forged, 3, 1024).is_err());
    let large = zip64(&bytes, u64::MAX);
    assert!(validate_zip_envelope(&large, 3, 1024).is_err());
    assert!(validate_zip_envelope(&zip64(&bytes, 10_001), 10_000, 1024).is_err());
    let valid = zip64(&bytes, 1);
    validate_zip_envelope(&valid, 1, 1024).unwrap();
    assert_eq!(ZipArchive::new(Cursor::new(valid)).unwrap().len(), 1);
}

#[test]
fn zip_envelope_rejects_conflicting_records_and_out_of_bounds_offsets() {
    let bytes = archive();
    let valid = zip64(&bytes, 1);
    let footer = valid.len() - 22;
    for case in 0..5 {
        let mut invalid = valid.clone();
        match case {
            0 => invalid[footer + 20..footer + 22].copy_from_slice(&1_u16.to_le_bytes()),
            1 => invalid[footer + 8..footer + 10].copy_from_slice(&2_u16.to_le_bytes()),
            2 => invalid[footer - 12..footer - 4].copy_from_slice(&u64::MAX.to_le_bytes()),
            3 => invalid[footer - 4..footer].copy_from_slice(&2_u32.to_le_bytes()),
            _ => invalid[bytes.len() - 22 + 40..bytes.len() - 22 + 48].copy_from_slice(&u64::MAX.to_le_bytes()),
        }
        assert!(validate_zip_envelope(&invalid, 3, 1024).is_err(), "case {case}");
    }
    let mut invalid = bytes.clone();
    let end = invalid.len() - 22;
    invalid[end + 20..end + 22].copy_from_slice(&22_u16.to_le_bytes());
    let mut later = bytes[end..].to_vec();
    later[20..22].copy_from_slice(&1_u16.to_le_bytes());
    invalid.extend_from_slice(&later);
    assert!(validate_zip_envelope(&invalid, 3, 1024).is_err());
    assert!(validate_zip_envelope(&bytes, 1, bytes.len() - 1).is_err());
}

#[test]
fn zip_envelope_names_what_is_wrong() {
    let bytes = archive();
    assert!(message(&bytes, 1, bytes.len() - 1).contains("ZIP envelope exceeds byte limit"));
    assert!(message(&[], 1, 1024).contains("missing bounded ZIP end record"));
    assert!(message(&bytes[..10], 1, 1024).contains("missing bounded ZIP end record"));
    validate_zip_envelope(&bytes, 1, bytes.len()).unwrap();
    assert!(validate_zip_envelope(&bytes, 0, 1024).is_err());
}
