//! Training checkpoints: weights, archives and restoring.
use rusttorch::archive::{Entry, Packing};
use rusttorch::checkpoint::archive::{pack_members, read_members, MemberReader};
use rusttorch::checkpoint::restore::{check_pair, ensure_optimizer_store, plan_restore, Target};
use rusttorch::checkpoint::save::WeightWriter;
use rusttorch::checkpoint::weights::{accept, read_weights, validate_tensor_bytes, Stored};
use rusttorch::checkpoint::{append_bounded, check_size, check_version, CheckpointError, CheckpointLimits};
use rusttorch::kind::{Device, Kind};
use rusttorch::names::NameMap;

fn limits() -> CheckpointLimits {
    CheckpointLimits::default()
}

fn file() -> Vec<u8> {
    file_within(limits()).unwrap()
}

fn file_within(limits: CheckpointLimits) -> Result<Vec<u8>, CheckpointError> {
    let mut writer = WeightWriter::begin(2, limits).unwrap();
    assert_eq!(writer.announce("layer.weight", 2, 2, Kind::Float).unwrap(), 8);
    writer.add_tensor("layer.weight", Kind::Float, vec![1, 2], [1.5f32.to_le_bytes(), 2.5f32.to_le_bytes()].concat()).unwrap();
    assert_eq!(writer.announce("counts", 1, 1, Kind::Int64).unwrap(), 8);
    writer.add_tensor("counts", Kind::Int64, vec![1], 7i64.to_le_bytes().to_vec()).unwrap();
    writer.finish()
}

#[test]
fn weights_are_written_up_to_their_limit() {
    let whole = file();
    let exact = CheckpointLimits { weight_bytes: whole.len(), ..limits() };
    assert_eq!(file_within(exact).unwrap(), whole);
    let short = CheckpointLimits { weight_bytes: whole.len() - 1, ..limits() };
    let refused = file_within(short).unwrap_err();
    assert_eq!(refused.text(), "invalid training checkpoint: model.safetensors exceeds resource limit");
}

#[test]
fn optimizers_of_another_store_are_refused() {
    ensure_optimizer_store(true).unwrap();
    let refused = ensure_optimizer_store(false).unwrap_err();
    assert_eq!(refused.text(), "invalid training checkpoint: optimizer belongs to a different model store");
}

#[test]
fn written_weights_are_read_back() {
    let weights = read_weights(&file(), limits()).unwrap();
    assert_eq!(weights.len(), 2);
    assert_eq!(weights.name(0), "counts");
    let layer = weights.get("layer.weight").unwrap();
    assert_eq!(layer.kind, Kind::Float);
    assert_eq!(layer.shape, vec![1, 2]);
    assert_eq!(layer.bytes, [1.5f32.to_le_bytes(), 2.5f32.to_le_bytes()].concat());
    assert_eq!(weights.get("counts").unwrap().bytes, 7i64.to_le_bytes().to_vec());
    assert!(weights.get("absent").is_none());
}

fn weights_file(header: &str) -> Vec<u8> {
    let mut bytes = (header.len() as u64).to_le_bytes().to_vec();
    bytes.extend_from_slice(header.as_bytes());
    bytes
}

#[test]
fn damaged_weights_are_refused() {
    let mut bytes = file();
    bytes.truncate(bytes.len() - 1);
    assert!(read_weights(&bytes, limits()).is_err());
    assert!(read_weights(&[], limits()).is_err());
    let few = CheckpointLimits { tensors: 1, ..limits() };
    assert!(read_weights(&file(), few).is_err());
    assert!(WeightWriter::begin(2, few).is_err());
    let sized = weights_file("{\"a\":{\"dtype\":\"F32\",\"shape\":[99999999999999999999],\"data_offsets\":[0,0]}}");
    assert!(read_weights(&sized, limits()).is_err());
    let late = "{\"a\":{\"dtype\":\"U8\",\"shape\":[18446744073709551615],\"data_offsets\":[0,18446744073709551615]}}";
    assert!(matches!(read_weights(&weights_file(late), limits()), Err(CheckpointError::Weights(_))));
    let listed = "{\"a\":[\"U8\",[18446744073709551615],[0,18446744073709551615]]}";
    assert!(matches!(read_weights(&weights_file(listed), limits()), Err(CheckpointError::Weights(_))));
}

#[test]
fn fields_that_are_not_known_may_hold_any_number() {
    for extra in ["18446744073709551615", "[0, 18446744073709551615]", "99999999999999999999999"] {
        let text = format!("{{\"a\":{{\"dtype\":\"U8\",\"shape\":[0],\"data_offsets\":[0,0],\"note\":{extra}}}}}");
        let weights = read_weights(&weights_file(&text), limits()).unwrap();
        assert_eq!(weights.get("a").unwrap().shape, vec![0]);
    }
}

#[test]
fn tensor_bytes_are_checked() {
    validate_tensor_bytes(Kind::Bool, &[0, 1]).unwrap();
    assert!(validate_tensor_bytes(Kind::Bool, &[2]).is_err());
    validate_tensor_bytes(Kind::Float, &1.0f32.to_le_bytes()).unwrap();
    let stored = |dtype: &str| Stored {
        name: "a".to_string(),
        dtype: dtype.to_string(),
        shape: vec![1],
        bytes: 1.0f32.to_le_bytes().to_vec(),
    };
    assert_eq!(accept(stored("F32")).unwrap().kind, Kind::Float);
    assert!(accept(stored("F8_E5M2")).is_err());
}

fn header(name: &str, size: u64) -> Entry {
    Entry { name: name.to_string(), packing: Packing::Stored, directory: false, mode: None, size }
}

#[test]
fn archives_hold_three_members() {
    let mut reader = MemberReader::begin(3, limits()).unwrap();
    for (name, data) in [("metadata.json", 3u8), ("model.safetensors", 1), ("optimizer.json", 2)] {
        reader.member(&header(name, 1)).unwrap();
        reader.content(vec![data]).unwrap();
    }
    assert_eq!(reader.finish(), Some((vec![1], vec![2], vec![3])));
    assert!(MemberReader::begin(4, limits()).is_err());
    let mut reader = MemberReader::begin(3, limits()).unwrap();
    assert!(reader.member(&header("../model.safetensors", 1)).is_err());
    assert!(reader.member(&Entry { directory: true, ..header("model.safetensors", 1) }).is_err());
    assert!(reader.member(&Entry { mode: Some(0o120777), ..header("model.safetensors", 1) }).is_err());
    reader.member(&Entry { mode: Some(0o100600), ..header("model.safetensors", 1) }).unwrap();
    assert!(reader.member(&header("model.safetensors", u64::MAX)).is_err());
}

#[test]
fn packed_checkpoints_are_read_back() {
    let bytes = pack_members(&[1, 2], &[3], &[], limits()).unwrap();
    assert_eq!(bytes.len(), 338 + 3);
    assert_eq!(read_members(bytes.clone(), limits()).unwrap(), (vec![1, 2], vec![3], vec![]));
    let exact = CheckpointLimits { archive_bytes: bytes.len(), weight_bytes: 2, json_bytes: 1, ..limits() };
    read_members(pack_members(&[1, 2], &[3], &[], exact).unwrap(), exact).unwrap();
    let short = CheckpointLimits { archive_bytes: bytes.len() - 1, ..limits() };
    let refused = pack_members(&[1, 2], &[3], &[], short).unwrap_err();
    assert_eq!(refused.text(), "invalid training checkpoint: archive exceeds resource limit");
    assert!(matches!(read_members(bytes.clone(), short), Err(CheckpointError::Model(_))));
    let few = CheckpointLimits { weight_bytes: 1, ..limits() };
    let refused = read_members(bytes.clone(), few).unwrap_err();
    assert_eq!(refused.text(), "invalid training checkpoint: model.safetensors exceeds resource limit");
    let mut damaged = bytes.clone();
    let content = 30 + "model.safetensors".len();
    damaged[content] ^= 1;
    let refused = read_members(damaged, limits()).unwrap_err();
    assert!(matches!(&refused, CheckpointError::Io(text) if text == "Invalid checksum"), "{refused:?}");
    let mut headless = bytes;
    headless[0] = 0;
    let refused = read_members(headless, limits()).unwrap_err();
    assert!(matches!(&refused, CheckpointError::Archive(text) if text == "invalid Zip archive: Invalid local file header"));
}

#[test]
fn sizes_and_versions_are_bounded() {
    check_version(1).unwrap();
    assert!(matches!(check_version(2), Err(CheckpointError::Invalid(_))));
    check_size("a", 4, 4).unwrap();
    assert!(check_size("a", 5, 4).is_err());
    let mut bytes = vec![1];
    assert!(append_bounded(&mut bytes, &[2], 2));
    assert!(!append_bounded(&mut bytes, &[3], 2));
    assert_eq!(bytes, vec![1, 2]);
    check_pair(true).unwrap();
    assert!(check_pair(false).is_err());
}

#[test]
fn restoring_needs_every_tensor_and_no_other() {
    let weights = read_weights(&file(), limits()).unwrap();
    let none: NameMap<Target> = NameMap::new();
    assert!(plan_restore(&weights, &none, true).is_err());
    let target = |kind: Kind, shape: &[i64], start: usize| Target {
        kind,
        shape: shape.to_vec(),
        contiguous: true,
        count: shape.iter().product::<i64>() as usize,
        start,
        device: Device::Cpu,
    };
    let mut targets = NameMap::new();
    targets.insert("counts".to_string(), target(Kind::Int64, &[1], 0x1000));
    targets.insert("layer.weight".to_string(), target(Kind::Float, &[1, 2], 0x2000));
    assert_eq!(plan_restore(&weights, &targets, true).unwrap(), vec![]);
    assert!(plan_restore(&weights, &targets, false).is_err());
    targets.insert("layer.weight".to_string(), target(Kind::Float, &[2], 0x2000));
    assert!(plan_restore(&weights, &targets, true).is_err());
    targets.insert("layer.weight".to_string(), target(Kind::Float, &[1, 2], 0x1004));
    assert!(plan_restore(&weights, &targets, true).is_err());
}
