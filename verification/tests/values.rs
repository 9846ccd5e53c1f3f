//! Values: equality, order and rendering.

use std::cmp::Ordering;

use acetone_cypher::exec::float::FloatTable;
use acetone_cypher::exec::value::{render_stored, PropertyMap, StoredValue, Value};
use acetone_cypher::Span;

fn float(x: f64) -> Value {
    Value::Float(x.to_bits())
}

fn integer(n: i64) -> Value {
    Value::Int(n)
}

#[test]
fn render_stored_pins_the_frozen_string_for_every_deferred_type() {
    // The carrier's string rendering is the runtime string that a Bytes/temporal
    // property presents in every query semantic.
    assert_eq!(
        render_stored(&StoredValue::Bytes(vec![0xde, 0xad, 0xbe, 0xef])),
        "deadbeef"
    );
    assert_eq!(
        render_stored(&StoredValue::Date { days: 20_000 }),
        "Date(Date { days: 20000 })"
    );
    assert_eq!(
        render_stored(&StoredValue::Time { nanos: 3_600_000_000_000 }),
        "Time(Time { nanos: 3600000000000 })"
    );
    assert_eq!(
        render_stored(&StoredValue::DateTime { epoch_nanos: 1_600_000_000_000_000_000, offset_minutes: 60 }),
        "DateTime(DateTime { epoch_nanos: 1600000000000000000, offset_minutes: 60 })"
    );
    assert_eq!(
        render_stored(&StoredValue::Duration { months: 1, days: 2, nanos: 3 }),
        "Duration(Duration { months: 1, days: 2, nanos: 3 })"
    );
    // Empty Bytes renders to the empty string (no `0x` prefix, no padding).
    assert_eq!(render_stored(&StoredValue::Bytes(vec![])), "");
}

#[test]
fn a_carrier_behaves_as_its_string_rendering() {
    let carrier = Value::Stored(StoredValue::Bytes(vec![0xde, 0xad]));
    let string = Value::String("dead".into());
    // The type's name, the format and all three comparison regimes agree with the string.
    assert_eq!(carrier.type_label(), "String");
    assert_eq!(carrier.format(&FloatTable::new(), Span::new(0, 0)).unwrap(), string.format(&FloatTable::new(), Span::new(0, 0)).unwrap());
    assert_eq!(carrier.eq3(&string), Some(true));
    assert_eq!(carrier.cmp3(&string), Some(Ordering::Equal));
    assert_eq!(carrier.global_cmp(&string), Ordering::Equal);
    // A carrier nested in a list compares element-wise via the same delegation.
    let cl = Value::List(vec![Value::Stored(StoredValue::Bytes(vec![0xde, 0xad]))]);
    let sl = Value::List(vec![Value::String("dead".into())]);
    assert_eq!(cl.eq3(&sl), Some(true));
    assert!(cl.equivalent(&sl));
}

#[test]
fn equality_is_ternary() {
    assert_eq!(Value::Null.eq3(&Value::Null), None);
    assert_eq!(integer(1).eq3(&Value::Null), None);
    assert_eq!(integer(1).eq3(&integer(1)), Some(true));
    assert_eq!(integer(1).eq3(&float(1.0)), Some(true));
    // Cross-type equality is false, not null.
    assert_eq!(integer(1).eq3(&Value::String("1".into())), Some(false));
    assert_eq!(Value::Bool(true).eq3(&integer(1)), Some(false));
}

#[test]
fn list_equality_propagates_null_elementwise() {
    let a = Value::List(vec![integer(1), Value::Null]);
    let b = Value::List(vec![integer(1), Value::Null]);
    assert_eq!(a.eq3(&b), None);
    let c = Value::List(vec![integer(2), Value::Null]);
    assert_eq!(a.eq3(&c), Some(false));
    let short = Value::List(vec![integer(1)]);
    assert_eq!(a.eq3(&short), Some(false));
}

#[test]
fn nan_equality_and_comparison() {
    let nan = float(f64::NAN);
    assert_eq!(nan.eq3(&nan), Some(false));
    assert_eq!(nan.eq3(&float(1.0)), Some(false));
    assert_eq!(nan.cmp3(&float(1.0)), None);
}

#[test]
fn cross_type_comparison_is_null() {
    assert_eq!(integer(1).cmp3(&Value::String("a".into())), None);
    assert_eq!(Value::Bool(true).cmp3(&integer(1)), None);
    assert_eq!(integer(1).cmp3(&Value::Null), None);
}

#[test]
fn global_order_ranks_types_and_places_null_last() {
    let mut values = [
        Value::Null,
        integer(5),
        float(f64::NAN),
        Value::String("a".into()),
        Value::Bool(false),
        Value::List(vec![integer(1)]),
        Value::Mapping(PropertyMap::new()),
    ];
    values.sort_by(|a, b| a.global_cmp(b));
    let names: Vec<&str> = values.iter().map(|v| v.type_label()).collect();
    assert_eq!(
        names,
        vec![
            "Map", "List", "String", "Boolean", "Integer", "Float", "Null"
        ]
    );
    // NaN sorts after ordinary numbers, before null.
    assert!(matches!(values[5], Value::Float(x) if f64::from_bits(x).is_nan()));
}

#[test]
fn format_escapes_strings_and_renders_scalars() {
    assert_eq!(integer(42).format(&FloatTable::new(), Span::new(0, 0)).unwrap(), "42");
    assert_eq!(Value::Bool(true).format(&FloatTable::new(), Span::new(0, 0)).unwrap(), "true");
    assert_eq!(Value::Null.format(&FloatTable::new(), Span::new(0, 0)).unwrap(), "null");
    // A plain string is escaped (quoted), never leaking `String(…)`.
    assert_eq!(Value::String("x".into()).format(&FloatTable::new(), Span::new(0, 0)).unwrap(), "\"x\"");
    assert_eq!(
        Value::List(vec![integer(1), Value::String("a".into())]).format(&FloatTable::new(), Span::new(0, 0)).unwrap(),
        "[1, \"a\"]"
    );
}

#[test]
fn format_neutralises_control_characters() {
    // A hostile string bound (e.g. `SKIP '…'`) must never reach the
    // terminal raw.
    let rendered = Value::String("a\x1b[31mb\nc".into()).format(&FloatTable::new(), Span::new(0, 0)).unwrap();
    assert!(!rendered.contains('\x1b'));
    assert!(!rendered.contains('\n'));
    assert_eq!(rendered, "\"a\\u{1b}[31mb\\nc\"");
}

#[test]
fn equivalence_unifies_null_and_nan() {
    assert!(Value::Null.equivalent(&Value::Null));
    assert!(float(f64::NAN).equivalent(&float(f64::NAN)));
    assert!(integer(1).equivalent(&float(1.0)));
    assert!(!integer(1).equivalent(&Value::String("1".into())));
}
