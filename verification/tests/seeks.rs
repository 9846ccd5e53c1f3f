//! Planning seeks: hints from predicates, probes and budgets.

use acetone_cypher::ast::{Direction, Literal};
use acetone_cypher::bind::catalogue::{IndexDef, LabelDef, PropertyType, SchemaEntry};
use acetone_cypher::bind::hints::{where_hints, RangeBound, SeekHint};
use acetone_cypher::bind::{bind, BindMode, BoundClause, Catalogue};
use acetone_cypher::exec::adapter::{key_names_from_schema, StoredNode, StoredRel};
use acetone_cypher::exec::records::{EdgeRecord, ModelValue, NodeKey, NodeRecord};
use acetone_cypher::exec::families::{
    numeric_families, Families, FloatEnd, FloatRange, IntEnd, IntRange,
};
use acetone_cypher::exec::store_source::{
    candidate_budget, candidate_cap, edges_followed, index_info, key_seek_answer, plan_index_range,
    plan_index_seek, plan_key_seek, probe_value, Candidates, SeekPlan, CANDIDATE_FLOOR,
};
use acetone_cypher::exec::value::{EntityId, StoredValue};
use acetone_cypher::exec::Value;
use acetone_cypher::names::NameMap;
use acetone_cypher::parse;

fn strings(names: &[&str]) -> Vec<String> {
    names.iter().map(|n| n.to_string()).collect()
}

fn schema() -> Vec<SchemaEntry> {
    let mut types = NameMap::new();
    types.insert("os".to_string(), PropertyType::String);
    vec![
        SchemaEntry::Label {
            name: "Host".to_string(),
            def: LabelDef {
                key: strings(&["region", "name"]),
                types,
                required: Vec::new(),
                unique: Vec::new(),
            },
        },
        SchemaEntry::Index {
            name: "by_cores".to_string(),
            def: IndexDef { label: "Host".to_string(), properties: strings(&["cores"]) },
        },
        SchemaEntry::Index {
            name: "by_os_port".to_string(),
            def: IndexDef { label: "Host".to_string(), properties: strings(&["os", "port"]) },
        },
    ]
}

fn hints(query: &str) -> Vec<SeekHint> {
    let catalogue = Catalogue::from_entries(schema());
    let parsed = parse(query).unwrap();
    let bound = bind(query, &parsed, &catalogue, BindMode::Lenient).unwrap();
    let BoundClause::Match { patterns, where_clause, .. } = &bound.clauses[0] else {
        panic!("no MATCH");
    };
    where_hints(&patterns[0].start, where_clause.as_ref().unwrap(), &catalogue)
}

#[test]
fn an_equality_in_where_pins_an_index() {
    let found = hints("MATCH (h:Host) WHERE h.cores = 4 AND h.up RETURN h");
    assert_eq!(found.len(), 1);
    let SeekHint::IndexSeek { name, label, properties, values } = &found[0] else {
        panic!("wrong hint: {:?}", found[0]);
    };
    assert_eq!((name.as_str(), label.as_str()), ("by_cores", "Host"));
    assert_eq!(properties, &strings(&["cores"]));
    assert_eq!(values, &vec![RangeBound::Literal(Literal::Integer(4))]);
    // Either operand order; parameters too.
    assert_eq!(hints("MATCH (h:Host) WHERE $c = h.cores RETURN h").len(), 1);
    // An inline pin is not repeated.
    assert!(hints("MATCH (h:Host {cores: 4}) WHERE h.cores = 4 RETURN h").is_empty());
    // What is no conjunct pins nothing.
    assert!(hints("MATCH (h:Host) WHERE h.cores = 4 OR h.up RETURN h").is_empty());
    assert!(hints("MATCH (h) WHERE h.cores = 4 RETURN h").is_empty());
    assert!(hints("MATCH (h:Host) WHERE h.cores = h.port RETURN h").is_empty());
}

#[test]
fn a_whole_key_is_sought_before_an_index() {
    let found = hints(
        "MATCH (h:Host) WHERE h.name = 'a' AND h.region = 'eu' AND h.cores = 4 RETURN h",
    );
    assert_eq!(found.len(), 1);
    let SeekHint::KeySeek { label, key, values } = &found[0] else {
        panic!("wrong hint: {:?}", found[0]);
    };
    assert_eq!(label, "Host");
    assert_eq!(key, &strings(&["region", "name"]));
    assert_eq!(
        values,
        &vec![
            RangeBound::Literal(Literal::String("eu".into())),
            RangeBound::Literal(Literal::String("a".into())),
        ]
    );
    // A part of the key does not do.
    assert!(hints("MATCH (h:Host) WHERE h.name = 'a' RETURN h").is_empty());
    // A composite index needs every property.
    assert!(hints("MATCH (h:Host) WHERE h.os = 'x' RETURN h").is_empty());
    assert_eq!(hints("MATCH (h:Host) WHERE h.os = 'x' AND h.port = 1 RETURN h").len(), 1);
}

#[test]
fn bounds_in_where_make_a_range() {
    let found = hints("MATCH (h:Host) WHERE h.cores > 2 AND 8 >= h.cores AND h.cores < 9 RETURN h");
    assert_eq!(found.len(), 1);
    let SeekHint::IndexRange { name, property, lower, upper, .. } = &found[0] else {
        panic!("wrong hint: {:?}", found[0]);
    };
    assert_eq!((name.as_str(), property.as_str()), ("by_cores", "cores"));
    assert_eq!(lower, &Some((RangeBound::Literal(Literal::Integer(2)), false)));
    // The first bound wins.
    assert_eq!(upper, &Some((RangeBound::Literal(Literal::Integer(8)), true)));
    // An equality comes first.
    let both = hints("MATCH (h:Host) WHERE h.cores > $a AND h.cores = 3 RETURN h");
    assert!(matches!(both[0], SeekHint::IndexSeek { .. }));
    assert!(matches!(both[1], SeekHint::IndexRange { .. }));
}

#[test]
fn the_budget_is_a_share_of_the_rows() {
    assert_eq!(candidate_cap(0), CANDIDATE_FLOOR);
    assert_eq!(candidate_cap(6_400), 32);
    assert_eq!(candidate_cap(200_000), 1_000);
    assert_eq!(candidate_cap(usize::MAX), usize::MAX / 200);
    assert_eq!(candidate_budget(None), None);
    assert_eq!(candidate_budget(Some(200_000)), Some(1_000));
}

fn id(n: u8) -> EntityId {
    EntityId::from_bytes(vec![n])
}

#[test]
fn candidates_count_once_and_stay_within_the_cap() {
    let mut candidates = Candidates::new(3);
    assert!(candidates.offer(&vec![id(1), id(2)]));
    assert_eq!(candidates.remaining(), 1);
    // More than fits is refused whole.
    assert!(!candidates.offer(&vec![id(3), id(4)]));
    assert_eq!(candidates.ids, vec![id(1), id(2)]);
    // What was found already does not count again.
    assert!(candidates.offer(&vec![id(2)]));
    assert!(candidates.offer(&vec![id(3)]));
    assert_eq!(candidates.ids, vec![id(1), id(2), id(3)]);
    assert_eq!(candidates.remaining(), 0);
    assert!(candidates.offer(&Vec::new()));
}

#[test]
fn raw_probes_serve_only_what_they_cannot_miss() {
    let three = vec![ModelValue::Int(3), ModelValue::Float(3.0f64.to_bits())];
    assert_eq!(probe_value(None, &Value::Int(3)), Some(three));
    let three = vec![ModelValue::Float(3.0f64.to_bits()), ModelValue::Int(3)];
    assert_eq!(probe_value(None, &Value::Float(3.0f64.to_bits())), Some(three));
    let half = vec![ModelValue::Float(0.5f64.to_bits())];
    assert_eq!(probe_value(None, &Value::Float(0.5f64.to_bits())), Some(half));
    // Many integers equal a large one.
    assert_eq!(probe_value(None, &Value::Float(9_007_199_254_740_992.0f64.to_bits())), None);
    assert_eq!(
        probe_value(None, &Value::Float(f64::INFINITY.to_bits())),
        Some(vec![ModelValue::Float(f64::INFINITY.to_bits())])
    );
    // Indexes hold neither null nor NaN.
    assert_eq!(probe_value(None, &Value::Null), Some(Vec::new()));
    assert_eq!(probe_value(None, &Value::Float(f64::NAN.to_bits())), Some(Vec::new()));
    // A text could be the rendering of bytes, unless the type rules it out.
    let text = Value::String("ab".into());
    assert_eq!(probe_value(None, &text), None);
    assert_eq!(probe_value(Some(PropertyType::Bytes), &text), None);
    assert_eq!(
        probe_value(Some(PropertyType::String), &text),
        Some(vec![ModelValue::String("ab".into())])
    );
    assert_eq!(probe_value(None, &Value::Stored(StoredValue::Date { days: 1 })), None);
    assert_eq!(probe_value(None, &Value::Bool(true)), Some(vec![ModelValue::Bool(true)]));
    assert_eq!(probe_value(None, &Value::List(Vec::new())), None);
}

#[test]
fn index_seeks_are_planned_against_the_declaration() {
    let info = index_info(&schema(), "by_os_port").expect("declared");
    assert_eq!(info.label, "Host");
    assert_eq!(info.types, vec![Some(PropertyType::String), None]);
    assert!(index_info(&schema(), "by_nothing").is_none());

    let properties = strings(&["os", "port"]);
    let values = vec![Value::String("x".into()), Value::Int(1)];
    let SeekPlan::Probe { tuples } = plan_index_seek(&info, &properties, &values) else {
        panic!("not served");
    };
    assert_eq!(
        tuples,
        vec![
            vec![ModelValue::String("x".into()), ModelValue::Int(1)],
            vec![ModelValue::String("x".into()), ModelValue::Float(1.0f64.to_bits())],
        ]
    );
    // Another property list, another arity, a null.
    let other = plan_index_seek(&info, &strings(&["port", "os"]), &values);
    assert!(matches!(other, SeekPlan::Decline));
    let short = plan_index_seek(&info, &properties, &vec![Value::Int(1)]);
    assert!(matches!(short, SeekPlan::Decline));
    let null = plan_index_seek(&info, &properties, &vec![Value::String("x".into()), Value::Null]);
    assert!(matches!(null, SeekPlan::Nothing));
}

#[test]
fn key_seeks_list_the_keys_to_read() {
    let keys = plan_key_seek("Item", &vec![Value::Int(1)]).expect("served");
    assert_eq!(
        keys,
        vec![
            NodeKey { label: "Item".to_string(), key: vec![ModelValue::Int(1)] },
            NodeKey { label: "Item".to_string(), key: vec![ModelValue::Float(1.0f64.to_bits())] },
        ]
    );
    assert!(plan_key_seek("Item", &vec![Value::String("a".into())]).is_none());
    assert!(plan_key_seek("Item", &vec![Value::Null]).is_none());
    // A list makes no key, and a long numeric key has too many combinations.
    assert_eq!(plan_key_seek("Item", &vec![Value::List(Vec::new())]), Some(Vec::new()));
    let long = |n: usize| (0..n).map(|_| Value::Int(1)).collect::<Vec<Value>>();
    assert_eq!(plan_key_seek("Item", &long(4)).map(|keys| keys.len()), Some(16));
    assert!(plan_key_seek("Item", &long(5)).is_none());
    assert!(plan_key_seek("Item", &long(80)).is_none());
}

#[test]
fn a_key_seek_that_finds_nothing_is_no_answer() {
    let names = key_names_from_schema(&schema());
    assert!(key_seek_answer(&Vec::new(), &names).is_none());
    let key = NodeKey {
        label: "Host".to_string(),
        key: vec![ModelValue::String("eu".into()), ModelValue::String("a".into())],
    };
    let record = NodeRecord { secondary_labels: Vec::new(), properties: Vec::new() };
    let found = key_seek_answer(&vec![StoredNode { id: id(1), key, record }], &names).unwrap();
    assert!(matches!(found[0].properties.get("name"), Some(Value::String(s)) if s == "a"));
}

#[test]
fn stored_ranges_take_numeric_bounds_only() {
    let info = index_info(&schema(), "by_cores").expect("declared");
    let (one, text, null) = (Value::Int(1), Value::String("a".into()), Value::Null);
    let plan = |lower| plan_index_range(&info, "cores", lower, None);
    let found = plan(Some((&one, true))).expect("served");
    let start = IntEnd { value: 1, inclusive: true };
    assert_eq!(found.ints, Some(IntRange { lower: Some(start), upper: None }));
    assert!(plan(Some((&text, true))).is_none());
    assert!(plan(Some((&null, true))).is_none());
    assert!(plan(None).is_none());
    let nan = Value::Float(f64::NAN.to_bits());
    assert_eq!(plan(Some((&nan, true))), Some(Families { ints: None, floats: None }));
    assert!(plan_index_range(&info, "os", Some((&one, true)), None).is_none());
}

#[test]
fn a_stored_loop_is_followed_once() {
    let edge = |n: u8, start: u8, end: u8, rtype: &str| StoredRel {
        id: id(100 + n),
        start: id(start),
        end: id(end),
        rtype: rtype.to_string(),
        record: EdgeRecord { properties: Vec::new() },
    };
    let leaving = vec![edge(0, 1, 1, "LOOP"), edge(1, 1, 2, "R")];
    let entering = vec![edge(0, 1, 1, "LOOP"), edge(2, 3, 1, "R")];
    let ends = |direction, types: &[&str]| -> Vec<EntityId> {
        edges_followed(&id(1), direction, &strings(types), &leaving, &entering)
            .into_iter()
            .map(|(_, far)| far)
            .collect()
    };
    assert_eq!(ends(Direction::Out, &[]), vec![id(1), id(2)]);
    assert_eq!(ends(Direction::In, &[]), vec![id(1), id(3)]);
    assert_eq!(ends(Direction::Undirected, &[]), vec![id(1), id(2), id(3)]);
    assert_eq!(ends(Direction::Undirected, &["R"]), vec![id(2), id(3)]);
}

#[test]
fn numeric_ranges_split_into_integers_and_floats() {
    let float = |x: f64| Value::Float(x.to_bits());
    let int_end = |value, inclusive| Some(IntEnd { value, inclusive });
    let float_end = |x: f64, inclusive| Some(FloatEnd { bits: x.to_bits(), inclusive });
    let ints = |lower, upper| Some(IntRange { lower, upper });
    let floats = |lower, upper| Some(FloatRange { lower, upper });
    // A fractional bound is rounded inwards for integers.
    let (low, high) = (float(-2.5), float(2.5));
    let found = numeric_families(Some((&low, true)), Some((&high, false))).unwrap();
    assert_eq!(found.ints, ints(int_end(-2, true), int_end(2, true)));
    assert_eq!(found.floats, floats(float_end(-2.5, true), float_end(2.5, false)));
    // An integral one is moved by one where it is not included.
    let three = float(3.0);
    let found = numeric_families(Some((&three, false)), None).unwrap();
    assert_eq!(found.ints, ints(int_end(4, true), None));
    let found = numeric_families(None, Some((&three, false))).unwrap();
    assert_eq!(found.ints, ints(None, int_end(2, true)));
    // A zero bound takes in both zeros, or neither.
    let zero = Value::Int(0);
    let found = numeric_families(Some((&zero, true)), Some((&zero, true))).unwrap();
    assert_eq!(found.floats, floats(float_end(-0.0, true), float_end(0.0, true)));
    let found = numeric_families(Some((&zero, false)), None).unwrap();
    assert_eq!(found.floats, floats(float_end(0.0, false), None));
    let found = numeric_families(None, Some((&zero, false))).unwrap();
    assert_eq!(found.floats, floats(None, float_end(-0.0, false)));
    // Where conversions are not exact the range is not served.
    let large = Value::Int(1 << 53);
    assert!(numeric_families(Some((&large, true)), None).is_none());
    let large = float(9007199254740992.0);
    assert!(numeric_families(None, Some((&large, true))).is_none());
    let near = Value::Int((1 << 53) - 1);
    assert!(numeric_families(Some((&near, true)), None).is_some());
}
