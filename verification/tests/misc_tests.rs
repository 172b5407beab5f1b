use gmon::nv_gpu::{ValidValue, Value};
use gmon::process::{ProcEntry, ProcTable};
use gmon::vendors::types::Value as RawValue;

#[test]
fn proc_table_lookup_finds_inserted_entries() {
    let mut t = ProcTable::new();
    let e = ProcEntry { uid: 7, gid: 8, parent: Some(1) };
    t.insert(99, e);
    assert_eq!(t.lookup(99), Some(e));
    assert_eq!(t.lookup(100), None);
}

#[test]
fn value_duplicate_is_field_for_field() {
    let v = Value { val: ValidValue::Int(5), unit: Some("W".to_string()) };
    let w = v.duplicate();
    assert_eq!(v, w);
}

#[test]
fn raw_value_builder_sets_the_unit() {
    let v = RawValue::from(42u32).set_unit("mW");
    assert_eq!(v.val, 42);
    assert_eq!(v.unit.as_deref(), Some("mW"));
}

#[test]
fn config_flags_carry_through() {
    let a = gmon::args::Args { docker_support: true };
    assert!(a.docker_support);
    let c = gmon::cli::Args { container_support: false };
    assert!(!c.container_support);
}
