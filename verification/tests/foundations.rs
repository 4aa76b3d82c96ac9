//! Texts, numbers, names and element types.
use rusttorch::bytes::{push_number, read_number, to_signed, to_unsigned};
use rusttorch::float::Binary64;
use rusttorch::kind::{Device, DeviceSpec, Kind};
use rusttorch::names::NameMap;
use rusttorch::tensor::{element_count, ensure_device};
use rusttorch::text::{
    byte_length, ends_with, has_control, integer_text, join3, natural_text, order, shape_text, starts_with, Order,
};

fn number(value: f64) -> Binary64 {
    Binary64::from_bits(value.to_bits())
}

#[test]
fn numbers_survive_as_bytes() {
    let mut bytes = vec![9];
    push_number(&mut bytes, 0x0102_0304, 4);
    assert_eq!(bytes, vec![9, 4, 3, 2, 1]);
    assert_eq!(read_number(&bytes, 1, 4), 0x0102_0304);
    for value in [i64::MIN, -1, 0, i64::MAX] {
        assert_eq!(to_signed(to_unsigned(value)), value);
        assert_eq!(to_unsigned(value), value as u64);
    }
}

#[test]
fn texts_are_written_and_compared() {
    assert_eq!(natural_text(0), "0");
    assert_eq!(natural_text(u64::MAX), u64::MAX.to_string());
    assert_eq!(integer_text(i64::MIN), i64::MIN.to_string());
    assert_eq!(shape_text(&[2, -1]), "[2, -1]");
    assert_eq!(join3("a", "\u{e9}", "c"), "a\u{e9}c");
    assert_eq!(byte_length("\u{e9}\u{20ac}"), 5);
    assert!(has_control("a\n"));
    assert!(!has_control("a b"));
    assert!(starts_with("prefix", "pre") && !starts_with("pre", "prefix"));
    assert!(ends_with("suffix", "fix") && !ends_with("fix", "suffix"));
    for (a, b) in [("a", "b"), ("a", "ab"), ("", "a"), ("\u{e9}", "z")] {
        let expected = if a < b { Order::Before } else { Order::After };
        assert_eq!(order(a, b), expected, "{a} {b}");
    }
    assert_eq!(order("same", "same"), Order::Same);
}

#[test]
fn names_are_kept_in_order() {
    let mut map = NameMap::new();
    for (name, value) in [("b", 1), ("a", 2), ("c", 3)] {
        assert!(map.insert(name.to_string(), value).is_none());
    }
    assert_eq!(map.insert("b".to_string(), 4), Some(1));
    assert_eq!(map.len(), 3);
    assert_eq!(map.find("c"), Some(2));
    assert_eq!(map.get("b"), Some(&4));
    assert!(!map.contains("d"));
    let entries = map.into_entries();
    assert_eq!(entries, vec![("a".to_string(), 2), ("b".to_string(), 4), ("c".to_string(), 3)]);
}

#[test]
fn floating_numbers_are_compared_by_value() {
    assert!(number(-1.0).is_less(number(1.0)));
    assert!(number(-0.0).is_at_most(number(0.0)) && number(0.0).is_at_most(number(-0.0)));
    assert!(!number(f64::NAN).is_at_most(number(1.0)) && !number(1.0).is_less(number(f64::NAN)));
    assert!(number(f64::MAX).is_less(number(f64::INFINITY)));
    assert!(number(-2.0).is_less(number(-1.0)));
    assert!(number(1.0).is_finite() && !number(f64::INFINITY).is_finite() && !number(f64::NAN).is_finite());
    assert_eq!(Binary64::one(), number(1.0));
    assert_eq!(Binary64::zero(), number(0.0));
}

#[test]
fn kinds_and_devices_have_names() {
    assert_eq!(Kind::Float.text(), "Float");
    assert_eq!(Kind::Double.bytes(), 8);
    assert_eq!(DeviceSpec::Cuda(12).text(), "Cuda(12)");
    assert_eq!(element_count(&[2, 3]), Some(6));
    assert_eq!(element_count(&[-1]), None);
    ensure_device("x", Device::Cpu, Device::Cpu).unwrap();
    assert!(ensure_device("x", Device::Cpu, Device::Mps).is_err());
}
