//! Tests of the gauge capability model against real backing files.
//!
//! Each test that needs a backing file injects its own root directory under
//! `/tmp`, creates the attribute file there, reads through the library,
//! removes the fixture again, and only then asserts, so nothing is left
//! behind and concurrent tests cannot collide.

use fuel_gauge::attr::AttrError;
use fuel_gauge::gauge::{Gauge, GaugeAdv, GaugeBase, BQ27621, BQ27z561};

fn put(root: &str, dir: &str, file: &str, content: &str) {
    fs_err::create_dir_all(format!("{}/{}", root, dir)).unwrap();
    fs_err::write(format!("{}/{}/{}", root, dir, file), content).unwrap();
}

fn cleanup(root: &str) {
    let _ = fs_err::remove_dir_all(root);
}

#[test]
fn test_init() {
    let g: BQ27621 = Gauge::new();

    assert_eq!(g.path(), "bq27621");
}

#[test]
fn test_directory_names() {
    let g: BQ27621 = Gauge::new();
    let z: BQ27z561 = Gauge::new();

    assert_eq!(g.path(), "bq27621");
    assert_eq!(z.path(), "bq27z561");
    assert!(!g.path().is_empty());
    assert!(!z.path().is_empty());
    // The name is fixed: asking again changes nothing.
    assert_eq!(g.path(), g.path());
}

#[test]
fn test_capacity() {
    let root = "/tmp/fuel_gauge_capacity";
    let g: BQ27621 = Gauge::with_root(root.to_string());

    put(root, "bq27621", "capacity", "89\n");
    let r = g.get_capacity();
    cleanup(root);
    assert_eq!(r.unwrap(), 89);
}

#[test]
#[should_panic]
fn test_voltage() {
    let g: BQ27621 = Gauge::new();

    assert_eq!(g.get_voltage().unwrap(), 0);
}

#[test]
fn test_capacity_without_newline() {
    let root = "/tmp/fuel_gauge_capacity_bare";
    let z: BQ27z561 = Gauge::with_root(root.to_string());

    put(root, "bq27z561", "capacity", "89");
    let r = z.get_capacity();
    cleanup(root);
    assert_eq!(r.unwrap(), 89);
}

#[test]
fn test_non_numeric_is_parse_failure() {
    let root = "/tmp/fuel_gauge_non_numeric";
    let g: BQ27621 = Gauge::with_root(root.to_string());

    put(root, "bq27621", "charge_full", "abc");
    let r = g.get_full_charge_capacity();
    cleanup(root);
    match r {
        Err(AttrError::ParseFailure(text)) => assert_eq!(text, "abc"),
        _ => panic!("non-numeric content must be a ParseFailure, never a default"),
    }
}

#[test]
fn test_missing_file_is_read_failure() {
    let z: BQ27z561 = Gauge::new();

    match z.get_time_to_empty() {
        Err(AttrError::ReadFailure(path)) => assert_eq!(path, "bq27z561/time_to_empty_now"),
        _ => panic!("a missing backing file must be a ReadFailure naming the path"),
    }
}

#[test]
fn test_missing_file_under_root() {
    let root = "/tmp/fuel_gauge_missing";
    let g: BQ27621 = Gauge::with_root(root.to_string());

    match g.get_charge_now_capacity() {
        Err(AttrError::ReadFailure(path)) => {
            assert_eq!(path, "/tmp/fuel_gauge_missing/bq27621/charge_now")
        },
        _ => panic!("a missing backing file must be a ReadFailure naming the path"),
    }
}

#[test]
fn test_current_sign_preserved() {
    let root = "/tmp/fuel_gauge_current";
    let g: BQ27621 = Gauge::with_root(root.to_string());

    put(root, "bq27621", "current_now", "-150");
    let r = g.get_current();
    cleanup(root);
    assert_eq!(r.unwrap(), -150);
}

#[test]
fn test_charge_now_capacity() {
    let root = "/tmp/fuel_gauge_charge_now";
    let g: BQ27621 = Gauge::with_root(root.to_string());

    put(root, "bq27621", "charge_now", "1750\n");
    let r = g.get_charge_now_capacity();
    cleanup(root);
    assert_eq!(r.unwrap(), 1750);
}

#[test]
fn test_advanced_tier_reads() {
    let root = "/tmp/fuel_gauge_advanced";
    let z: BQ27z561 = Gauge::with_root(root.to_string());

    put(root, "bq27z561", "time_to_full_now", "1200\n");
    put(root, "bq27z561", "voltage", "3700\n");
    let full = z.get_time_to_full();
    let volt = z.get_voltage();
    cleanup(root);
    assert_eq!(full.unwrap(), 1200);
    assert_eq!(volt.unwrap(), 3700);
}

#[test]
fn test_read_twice_identical() {
    let root = "/tmp/fuel_gauge_roundtrip";
    let z: BQ27z561 = Gauge::with_root(root.to_string());

    put(root, "bq27z561", "cycle_count", "42\n");
    let first = z.get_cycle_count();
    let second = z.get_cycle_count();
    cleanup(root);
    assert_eq!(first.unwrap(), 42);
    assert_eq!(second.unwrap(), 42);
}
