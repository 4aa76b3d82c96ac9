//! Archives in memory.
use rusttorch::archive::{Archive, Packing};
use rusttorch::deployment::pt2::archive::read_archive;
use rusttorch::deployment::pt2::pack::pack;
use rusttorch::deployment::zip_envelope::validate_zip_envelope;
use rusttorch::error::RustTorchError;
use rusttorch::names::NameMap;
use std::io::{Cursor, Write};
use zip::write::FileOptions;
use zip::{CompressionMethod, ZipWriter};

const PASSWORD: &str = "unsupported Zip archive: Password required to decrypt file";

fn text(error: RustTorchError) -> String {
    match error {
        RustTorchError::GraphValidation(text) => text,
        other => panic!("{other:?}"),
    }
}

fn members(entries: &[(&str, &[u8])]) -> NameMap<Vec<u8>> {
    let mut map = NameMap::new();
    for (name, data) in entries {
        map.insert(name.to_string(), data.to_vec());
    }
    map
}

fn described() -> NameMap<Vec<u8>> {
    members(&[
        ("archive_format", b"pt2"),
        ("archive_version", b"0"),
        ("byteorder", b"little"),
        (".data/version", b"6\n"),
        (".data/serialization_id", b"0"),
        ("models/model.json", b"{}"),
    ])
}

/// One stored member without content, whose directory entry has the given flags and extra field.
fn single(flags: u16, extra: &[u8]) -> Vec<u8> {
    let mut bytes = b"PK\x03\x04".to_vec();
    bytes.extend_from_slice(&[0; 22]);
    bytes.extend_from_slice(&[1, 0, 0, 0, b'a']);
    let start = bytes.len();
    bytes.extend_from_slice(b"PK\x01\x02");
    bytes.extend_from_slice(&[0; 4]);
    bytes.extend_from_slice(&flags.to_le_bytes());
    bytes.extend_from_slice(&[0; 18]);
    bytes.extend_from_slice(&[1, 0, extra.len() as u8, 0]);
    bytes.extend_from_slice(&[0; 14]);
    bytes.push(b'a');
    bytes.extend_from_slice(extra);
    let end = bytes.len();
    bytes.extend_from_slice(b"PK\x05\x06");
    bytes.extend_from_slice(&[0, 0, 0, 0, 1, 0, 1, 0]);
    bytes.extend_from_slice(&((end - start) as u32).to_le_bytes());
    bytes.extend_from_slice(&(start as u32).to_le_bytes());
    bytes.extend_from_slice(&[0, 0]);
    bytes
}

#[test]
fn packed_files_are_read_back() {
    let bytes = pack(&described()).unwrap();
    let files = read_archive(bytes.clone()).unwrap();
    for (name, data) in described().into_entries() {
        assert_eq!(files.get(&name), Some(&data));
    }
    assert_eq!(files.get("other"), None);
    let length: usize = described().into_entries().iter().map(|(name, data)| 76 + 2 * (8 + name.len()) + data.len()).sum();
    assert_eq!(bytes.len(), 22 + length);
    let mut archive = Archive::open(&bytes).unwrap();
    assert_eq!(archive.count(), 6);
    let entry = archive.entry(0).unwrap();
    assert_eq!(entry.name, "package/.data/serialization_id");
    assert_eq!(entry.packing, Packing::Stored);
    assert_eq!((entry.directory, entry.mode, entry.size), (false, Some(0o100644), 1));
    assert_eq!(archive.content(0, 10).unwrap(), b"0");
    assert_eq!(archive.entry(6).unwrap_err(), "specified file not found in archive");
}

#[test]
fn names_beyond_ascii_are_read_back() {
    let bytes = pack(&members(&[("größe", b"12"), ("layer.weight.bytes", b"")])).unwrap();
    assert_eq!(bytes.len(), 22 + 76 + 2 * (8 + 7) + 2 + 76 + 2 * (8 + 18));
    let mut archive = Archive::open(&bytes).unwrap();
    assert_eq!(archive.entry(0).unwrap().name, "package/größe");
    assert_eq!(archive.content(0, 10).unwrap(), b"12");
    assert_eq!(archive.entry(1).unwrap().name, "package/layer.weight.bytes");
    assert_eq!(archive.content(1, 10).unwrap(), b"");
}

fn numbered(count: usize) -> NameMap<Vec<u8>> {
    let mut map = NameMap::new();
    for i in 0..count {
        map.insert(format!("{i:05}"), vec![i as u8]);
    }
    map
}

#[test]
fn archives_of_many_members_have_wide_records() {
    let bytes = pack(&numbered(0x1_0000)).unwrap();
    assert_eq!(bytes.len(), 0x1_0000 * (76 + 2 * 13 + 1) + 76 + 22);
    validate_zip_envelope(&bytes, 0x1_0000, bytes.len()).unwrap();
    let mut archive = Archive::open(&bytes).unwrap();
    assert_eq!(archive.count(), 0x1_0000);
    assert_eq!(archive.entry(65535).unwrap().name, "package/65535");
    assert_eq!(archive.content(65534, 10).unwrap(), vec![0xfe]);
    let bytes = pack(&numbered(0xffff)).unwrap();
    assert_eq!(bytes.len(), 0xffff * (76 + 2 * 13 + 1) + 22);
    assert_eq!(Archive::open(&bytes).unwrap().count(), 0xffff);
    let refused = validate_zip_envelope(&bytes, 0x1_0000, bytes.len());
    assert!(text(refused.unwrap_err()).contains("missing ZIP64 directory metadata"));
}

#[test]
fn undescribed_archives_are_refused() {
    let mut missing = described();
    missing.insert("byteorder".to_string(), b"big".to_vec());
    let refused = read_archive(pack(&missing).unwrap());
    assert!(text(refused.err().unwrap()).contains("unsupported or missing PT2 byteorder"));
    for wrong in [b"7".as_slice(), b"66", b"6\xff", b"", b"6 6"] {
        let mut version = described();
        version.insert(".data/version".to_string(), wrong.to_vec());
        let refused = read_archive(pack(&version).unwrap());
        assert!(text(refused.err().unwrap()).contains("unsupported PT2 serialization headers"), "{wrong:?}");
    }
    let mut spaced = described();
    spaced.insert(".data/version".to_string(), "\u{a0}6\u{3000}\n".as_bytes().to_vec());
    read_archive(pack(&spaced).unwrap()).unwrap();
    assert!(text(read_archive(vec![0; 30]).err().unwrap()).contains("missing bounded ZIP end record"));
}

#[test]
fn deflated_members_are_unpacked() {
    let mut writer = ZipWriter::new(Cursor::new(Vec::new()));
    let options = FileOptions::default().compression_method(CompressionMethod::Deflated);
    for (name, data) in described().into_entries() {
        writer.start_file(format!("root/{name}"), options).unwrap();
        writer.write_all(&data).unwrap();
    }
    let bytes = writer.finish().unwrap().into_inner();
    let files = read_archive(bytes.clone()).unwrap();
    assert_eq!(files.get("byteorder"), Some(&b"little".to_vec()));
    let mut archive = Archive::open(&bytes).unwrap();
    assert_eq!(archive.entry(0).unwrap().packing, Packing::Deflated);
    assert_eq!(archive.content(2, 1).unwrap(), b"pt", "one byte more than the limit");
}

#[test]
fn sealed_members_are_refused() {
    const SEAL: [u8; 11] = [1, 0x99, 7, 0, 2, 0, 0x41, 0x45, 3, 0, 0];
    let bytes = single(0, &[]);
    let mut plain = Archive::open(&bytes).unwrap();
    assert_eq!(plain.entry(0).unwrap().name, "a");
    assert_eq!(plain.content(0, 9).unwrap(), b"");
    for (flags, extra) in [(1, [].as_slice()), (0, &SEAL), (1, &SEAL), (3, &SEAL)] {
        let bytes = single(flags, extra);
        let mut sealed = Archive::open(&bytes).unwrap();
        assert_eq!(sealed.entry(0).unwrap_err(), PASSWORD);
        assert_eq!(sealed.content(0, 9).unwrap_err(), PASSWORD);
        assert!(sealed.entry(1).is_err());
    }
    let bytes = single(0, &[9, 0, 2, 0, 1, 0x99]);
    assert_eq!(Archive::open(&bytes).unwrap().entry(0).unwrap().name, "a", "the mark of a seal inside another field");
    assert_eq!(Archive::open(&[]).err().unwrap(), "invalid Zip archive: Invalid zip header");
}
