//! Turning changes into writes on the store.

use acetone_cypher::bind::catalogue::{LabelDef, SchemaEntry};
use acetone_cypher::bind::{bind, BindMode, Catalogue};
use acetone_cypher::exec::adapter::{catalogue_from_schema, GraphSnapshot, StoredNode, StoredRel};
use acetone_cypher::exec::float::FloatTable;
use acetone_cypher::exec::records::{
    convert_value, storable, EdgeKey, EdgeRecord, ModelValue, NodeKey, NodeRecord,
};
use acetone_cypher::exec::value::{EntityId, NodeValue, PropertyMap, RelValue, StoredValue};
use acetone_cypher::exec::{execute_write, SingleVersion, Value, WriteChanges};
use acetone_cypher::names::NameMap;
use acetone_cypher::parse;
use acetone_cypher::persist::identity::node_key_and_record;
use acetone_cypher::persist::{persist_changes, KeyError, PersistError, StagedWrite, StoredState};

fn strings(names: &[&str]) -> Vec<String> {
    names.iter().map(|n| n.to_string()).collect()
}

fn label(name: &str, key: &[&str], required: &[&str], unique: &[&str]) -> SchemaEntry {
    SchemaEntry::Label {
        name: name.to_string(),
        def: LabelDef {
            key: strings(key),
            types: NameMap::new(),
            required: strings(required),
            unique: strings(unique),
        },
    }
}

/// A catalogue with a single label `L` keyed on `id`.
fn catalogue() -> Catalogue {
    catalogue_from_schema(vec![label("L", &["id"], &[], &[])])
}

fn map(props: Vec<(&str, Value)>) -> PropertyMap {
    let mut properties = PropertyMap::new();
    for (name, value) in props {
        properties.insert(name.to_string(), value);
    }
    properties
}

fn node(id: &str, labels: &[&str], props: Vec<(&str, Value)>) -> NodeValue {
    NodeValue {
        id: EntityId::from_bytes(id.as_bytes().to_vec()),
        labels: strings(labels),
        properties: map(props),
    }
}

fn runtime(props: Vec<(&str, Value)>) -> NodeValue {
    node("storage-id", &["L"], props)
}

fn stored_property<'a>(record: &'a NodeRecord, name: &str) -> Option<&'a ModelValue> {
    record.properties.iter().find(|(n, _)| n == name).map(|(_, v)| v)
}

fn key(n: i64) -> NodeKey {
    NodeKey { label: "L".to_string(), key: vec![ModelValue::Int(n)] }
}

fn message(e: &PersistError) -> String {
    let shown = e.keys().iter().map(|k| format!("{:?}", k.key)).collect();
    e.display(&shown)
}

#[test]
fn write_back_preserves_unchanged_deferred_properties() {
    let data = ModelValue::Deferred(StoredValue::Bytes(vec![0xAB, 0xCD, 0xEF]));
    let when = ModelValue::Deferred(StoredValue::DateTime {
        epoch_nanos: 1_600_000_000_000_000_000,
        offset_minutes: 60,
    });
    // Deferred types are carried, not turned into strings.
    assert!(matches!(convert_value(&data), Value::Stored(_)));
    let node = runtime(vec![
        ("id", Value::Int(1)),
        ("name", Value::String("new".into())), // changed
        ("data", convert_value(&data)),        // read back unchanged
        ("when", convert_value(&when)),        // read back unchanged
    ]);

    let (found, record) = node_key_and_record(&node, &catalogue()).expect("persist");
    assert_eq!(found, key(1));
    assert_eq!(
        stored_property(&record, "data"),
        Some(&data),
        "unchanged Bytes must keep its stored type, not become a hex string"
    );
    assert_eq!(
        stored_property(&record, "when"),
        Some(&when),
        "unchanged DateTime must keep its stored type, not become a debug string"
    );
    assert_eq!(
        stored_property(&record, "name"),
        Some(&ModelValue::String("new".into())),
        "a genuinely changed property is stored as written"
    );
}

#[test]
fn write_back_of_a_changed_deferred_property_stores_the_new_value() {
    let node = runtime(vec![("id", Value::Int(1)), ("data", Value::String("changed".into()))]);
    let (_key, record) = node_key_and_record(&node, &catalogue()).expect("persist");
    assert_eq!(stored_property(&record, "data"), Some(&ModelValue::String("changed".into())));
}

#[test]
fn a_node_with_no_labels_gets_the_missing_colon_hint() {
    let node = node("overlay", &[], vec![("id", Value::Int(1))]);
    let err = node_key_and_record(&node, &catalogue()).expect_err("no identity");
    let msg = message(&err);
    assert!(msg.contains("this node has no labels"), "{msg}");
    assert!(msg.contains("`(:Topic {…})`"), "{msg}");
    assert!(!msg.contains("[]"), "must not leak an empty label list: {msg}");
}

#[test]
fn a_labelled_node_with_no_keyed_label_names_the_labels_and_the_fix() {
    let node = node("overlay", &["Ghost"], vec![("id", Value::Int(1))]);
    let err = node_key_and_record(&node, &catalogue()).expect_err("no identity");
    let msg = message(&err);
    assert!(msg.contains("none of the labels [\"Ghost\"] declares a key"), "{msg}");
    assert!(msg.contains("acetone declare-label \"Ghost\" --key <property>"), "{msg}");
    assert!(msg.contains("has no identity (Invariant #3) — declare one first"), "{msg}");
}

#[test]
fn a_created_node_has_no_base_and_converts_directly() {
    let node = runtime(vec![("id", Value::Int(1)), ("name", Value::String("x".into()))]);
    let (_key, record) = node_key_and_record(&node, &catalogue()).expect("persist");
    assert_eq!(stored_property(&record, "name"), Some(&ModelValue::String("x".into())));
}

#[test]
fn deferred_typed_key_values_are_rejected_with_a_typed_error() {
    let cases = vec![
        (StoredValue::Bytes(vec![0xAB, 0xCD]), "bytes"),
        (StoredValue::Date { days: 20_000 }, "date"),
        (StoredValue::Time { nanos: 1 }, "time"),
        (
            StoredValue::DateTime {
                epoch_nanos: 1_600_000_000_000_000_000,
                offset_minutes: 60,
            },
            "datetime",
        ),
        (StoredValue::Duration { months: 1, days: 2, nanos: 3 }, "duration"),
    ];
    for (value, expected_type) in cases {
        let node = runtime(vec![("id", convert_value(&ModelValue::Deferred(value)))]);
        let err = node_key_and_record(&node, &catalogue())
            .expect_err("a deferred-typed key value must be rejected");
        match &err {
            PersistError::KeyValueType { label, property, type_text } => {
                assert_eq!(label, "L");
                assert_eq!(property, "id");
                assert_eq!(*type_text, expected_type);
            }
            other => panic!("expected KeyValueType for {expected_type}, got {other:?}"),
        }
        assert!(
            message(&err).contains(expected_type),
            "message must name the type: {err:?}"
        );
    }
}

#[test]
fn deferred_types_stay_storable_as_non_key_properties() {
    let when = ModelValue::Deferred(StoredValue::DateTime { epoch_nanos: 1, offset_minutes: 0 });
    let node = runtime(vec![("id", Value::Int(1)), ("when", convert_value(&when))]);
    let (_key, record) = node_key_and_record(&node, &catalogue()).expect("persist");
    assert_eq!(stored_property(&record, "when"), Some(&when));
}

#[test]
fn round_trippable_key_values_persist_with_identity_intact() {
    for value in [
        ModelValue::Bool(true),
        ModelValue::Int(i64::MIN),
        ModelValue::Float((-1.5f64).to_bits()),
        ModelValue::String("é".into()),
    ] {
        let node = runtime(vec![("id", convert_value(&value))]);
        let (found, _record) = node_key_and_record(&node, &catalogue()).expect("persist");
        assert_eq!(found, NodeKey { label: "L".to_string(), key: vec![value] });
    }
}

#[test]
fn an_over_deep_runtime_list_fails_persist_with_a_clean_error() {
    let shallow = Value::List(vec![Value::List(vec![Value::Int(1)])]);
    assert!(storable(&shallow).is_ok());

    let mut deep = Value::Int(1);
    for _ in 0..50_000 {
        deep = Value::List(vec![deep]);
    }
    let kind = storable(&deep).expect_err("an over-deep value must not persist");
    let err = PersistError::Value { kind };
    assert!(message(&err).contains("depth limit"), "unexpected error: {err:?}");
    let mut stack = vec![deep];
    while let Some(value) = stack.pop() {
        if let Value::List(items) = value {
            stack.extend(items);
        }
    }
}

#[test]
fn values_without_a_stored_form_are_named() {
    let stored = node("n", &[], Vec::new());
    assert_eq!(storable(&Value::Mapping(PropertyMap::new())), Err("map"));
    assert_eq!(storable(&Value::Node(stored)), Err("node"));
    assert_eq!(
        message(&PersistError::Value { kind: "map" }),
        "cannot persist a map as a stored property value"
    );
}

// --- Keys -------------------------------------------------------------------------------------------

#[test]
fn two_keyed_labels_are_ambiguous() {
    let both = catalogue_from_schema(vec![
        label("A", &["a"], &[], &[]),
        label("B", &["b"], &[], &[]),
    ]);
    let err = node_key_and_record(&node("n", &["X", "A", "B"], Vec::new()), &both).unwrap_err();
    let PersistError::AmbiguousIdentity { labels, first, second } = &err else {
        panic!("wrong error: {err:?}");
    };
    assert_eq!(labels, &strings(&["X", "A", "B"]));
    assert_eq!((first.as_str(), second.as_str()), ("A", "B"));
    assert_eq!(
        message(&err),
        "a node with labels [\"X\", \"A\", \"B\"] bears more than one label declaring a key \
         (\"A\", \"B\"); node identity is ambiguous"
    );
}

#[test]
fn keys_hold_no_null_list_or_nan() {
    for (value, error, text) in [
        (Value::Null, KeyError::Null, "a node key cannot hold null"),
        (Value::List(Vec::new()), KeyError::List, "a node key cannot hold a list"),
        (Value::Float(f64::NAN.to_bits()), KeyError::NotANumber, "a node key cannot hold NaN"),
    ] {
        let err = node_key_and_record(&runtime(vec![("id", value)]), &catalogue()).unwrap_err();
        assert!(matches!(&err, PersistError::Key { error: e } if *e == error), "{err:?}");
        assert_eq!(message(&err), text);
    }
}

#[test]
fn a_missing_key_property_is_named() {
    let err = node_key_and_record(&runtime(Vec::new()), &catalogue()).unwrap_err();
    assert_eq!(
        message(&err),
        "cannot persist node: node \"L\" is missing key property \"id\""
    );
}

// --- Changes ----------------------------------------------------------------------------------------

fn nothing() -> WriteChanges {
    WriteChanges {
        upserted_nodes: Vec::new(),
        upserted_rels: Vec::new(),
        deleted_nodes: Vec::new(),
        deleted_rels: Vec::new(),
    }
}

/// A store that holds the nodes `L {id: n}` with a property, under the
/// identities `n`.
fn store(nodes: Vec<(i64, &str)>, edges: Vec<EdgeKey>) -> StoredState {
    StoredState {
        identities: nodes
            .iter()
            .map(|(n, _)| (EntityId::from_bytes(n.to_string().into_bytes()), key(*n)))
            .collect(),
        nodes: nodes
            .into_iter()
            .map(|(n, tag)| {
                let record = NodeRecord {
                    secondary_labels: Vec::new(),
                    properties: vec![("tag".to_string(), ModelValue::String(tag.into()))],
                };
                (key(n), record)
            })
            .collect(),
        edges,
    }
}

/// The identity of an element that a query creates.
fn fresh(n: u8) -> EntityId {
    EntityId::from_bytes(vec![0xFF, b'w', n])
}

fn created(n: u8, id: i64) -> NodeValue {
    NodeValue { id: fresh(n), labels: strings(&["L"]), properties: map(vec![("id", Value::Int(id))]) }
}

fn rel(id: EntityId, start: &str, end: &str) -> RelValue {
    RelValue {
        id,
        rel_type: "R".to_string(),
        start: EntityId::from_bytes(start.as_bytes().to_vec()),
        end: EntityId::from_bytes(end.as_bytes().to_vec()),
        properties: PropertyMap::new(),
    }
}

fn edge(a: i64, b: i64) -> EdgeKey {
    EdgeKey { src: key(a), rtype: "R".to_string(), dst: key(b) }
}

#[test]
fn creating_under_a_taken_key_is_refused() {
    let changes = WriteChanges { upserted_nodes: vec![created(b'0', 1)], ..nothing() };
    let err = persist_changes(&changes, &catalogue(), &store(vec![(1, "x")], Vec::new()))
        .unwrap_err();
    assert!(matches!(&err, PersistError::DuplicateKey { key: k } if *k == key(1)), "{err:?}");
    let msg = message(&err);
    assert!(
        msg.starts_with("CREATE of \"L\" [Int(1)] conflicts with an existing node; CREATE always"),
        "{msg}"
    );
    assert!(msg.ends_with("`MERGE (a:Label {…}) MERGE (b:…) MERGE (a)-[:…]->(b)`"), "{msg}");
}

#[test]
fn deleting_frees_a_key_and_comes_first() {
    let changes = WriteChanges {
        upserted_nodes: vec![created(b'0', 1)],
        deleted_nodes: vec![EntityId::from_bytes(b"1".to_vec())],
        ..nothing()
    };
    let writes = persist_changes(&changes, &catalogue(), &store(vec![(1, "x")], Vec::new()))
        .expect("persist");
    assert_eq!(writes.len(), 2);
    assert!(matches!(&writes[0], StagedWrite::DeleteNode { key: k } if *k == key(1)));
    assert!(matches!(&writes[1], StagedWrite::PutNode { key: k, .. } if *k == key(1)));
}

#[test]
fn one_statement_creates_a_key_once() {
    let changes =
        WriteChanges { upserted_nodes: vec![created(b'0', 1), created(b'1', 1)], ..nothing() };
    let err = persist_changes(&changes, &catalogue(), &store(Vec::new(), Vec::new())).unwrap_err();
    assert!(matches!(err, PersistError::DuplicateKeyInStatement { .. }), "{err:?}");
    assert_eq!(
        message(&err),
        "CREATE creates the node \"L\" [Int(1)] twice in the same statement; each CREATE makes a \
         new node and identity must be unique"
    );
}

#[test]
fn a_stored_key_is_immutable() {
    let moved = node("1", &["L"], vec![("id", Value::Int(2))]);
    let changes = WriteChanges { upserted_nodes: vec![moved], ..nothing() };
    let err = persist_changes(&changes, &catalogue(), &store(vec![(1, "x")], Vec::new()))
        .unwrap_err();
    assert!(matches!(&err, PersistError::KeyImmutable { label } if label == "L"), "{err:?}");
    assert!(message(&err).starts_with("SET must not change the key property of \"L\""));
}

#[test]
fn required_properties_must_be_there() {
    let strict = catalogue_from_schema(vec![label("L", &["id"], &["tag"], &[])]);
    let changes = WriteChanges { upserted_nodes: vec![created(b'0', 1)], ..nothing() };
    let err = persist_changes(&changes, &strict, &store(Vec::new(), Vec::new())).unwrap_err();
    assert!(matches!(&err, PersistError::MissingRequired { property, .. } if property == "tag"));
    assert_eq!(message(&err), "node \"L\" [Int(1)] is missing required property \"tag\"");
}

#[test]
fn unique_values_are_taken_by_other_nodes_only() {
    let strict = catalogue_from_schema(vec![label("L", &["id"], &[], &["tag"])]);
    let tagged = |id: &str, n: i64| {
        node(id, &["L"], vec![("id", Value::Int(n)), ("tag", Value::String("x".into()))])
    };
    // Another node has the value.
    let state = store(vec![(1, "x")], Vec::new());
    let changes = WriteChanges { upserted_nodes: vec![tagged("new", 2)], ..nothing() };
    let err = persist_changes(&changes, &strict, &state).unwrap_err();
    assert!(matches!(err, PersistError::UniqueViolation { .. }), "{err:?}");
    assert_eq!(
        message(&err),
        "UNIQUE constraint on \"L\".\"tag\" violated: value already used by another node"
    );
    // The node itself has it.
    let changes = WriteChanges { upserted_nodes: vec![tagged("1", 1)], ..nothing() };
    assert!(persist_changes(&changes, &strict, &state).is_ok());
    // The node that has it is deleted.
    let changes = WriteChanges {
        upserted_nodes: vec![tagged("new", 2)],
        deleted_nodes: vec![EntityId::from_bytes(b"1".to_vec())],
        ..nothing()
    };
    assert!(persist_changes(&changes, &strict, &state).is_ok());
}

#[test]
fn parallel_relationships_are_refused() {
    let nodes = vec![(1, "x"), (2, "y")];
    let one = WriteChanges { upserted_rels: vec![rel(fresh(b'0'), "1", "2")], ..nothing() };
    let err = persist_changes(&one, &catalogue(), &store(nodes.clone(), vec![edge(1, 2)]))
        .unwrap_err();
    assert!(matches!(&err, PersistError::DuplicateEdge { key } if *key == edge(1, 2)));
    assert!(message(&err).starts_with(
        "cannot add the R relationship [Int(1)] -> [Int(2)]: it conflicts with an existing"
    ));
    // Two of one statement.
    let two = WriteChanges {
        upserted_rels: vec![rel(fresh(b'0'), "1", "2"), rel(fresh(b'1'), "1", "2")],
        ..nothing()
    };
    assert!(persist_changes(&two, &catalogue(), &store(nodes.clone(), Vec::new())).is_err());
    // The other way round is another relationship, and so is a changed one.
    assert!(persist_changes(&one, &catalogue(), &store(nodes.clone(), vec![edge(2, 1)])).is_ok());
    let changed = WriteChanges {
        upserted_rels: vec![rel(EntityId::from_bytes(b"r".to_vec()), "1", "2")],
        ..nothing()
    };
    assert!(persist_changes(&changed, &catalogue(), &store(nodes.clone(), vec![edge(1, 2)])).is_ok());
    // Deleted first.
    let replaced = WriteChanges {
        upserted_rels: vec![rel(fresh(b'0'), "1", "2")],
        deleted_rels: vec![rel(EntityId::from_bytes(b"r".to_vec()), "1", "2")],
        ..nothing()
    };
    let writes = persist_changes(&replaced, &catalogue(), &store(nodes, vec![edge(1, 2)]))
        .expect("persist");
    assert!(matches!(&writes[0], StagedWrite::DeleteEdge { key } if *key == edge(1, 2)));
    assert!(matches!(&writes[1], StagedWrite::PutEdge { key, .. } if *key == edge(1, 2)));
}

#[test]
fn an_unknown_end_is_no_key() {
    let changes = WriteChanges { upserted_rels: vec![rel(fresh(b'0'), "7", "8")], ..nothing() };
    let err = persist_changes(&changes, &catalogue(), &store(Vec::new(), Vec::new())).unwrap_err();
    assert!(matches!(err, PersistError::Key { error: KeyError::NotAKey }), "{err:?}");
    assert_eq!(message(&err), "the identity is not the key of a stored node");
}

/// Runs a query on stored nodes and persists what it changes.
fn run_and_persist(query: &str) -> Vec<StagedWrite> {
    let schema = || vec![label("L", &["id"], &[], &[])];
    let state = store(vec![(1, "x"), (2, "y")], vec![edge(1, 2)]);
    let nodes: Vec<StoredNode> = state
        .nodes
        .iter()
        .zip(state.identities.iter())
        .map(|((key, record), (id, _))| StoredNode {
            id: id.clone(),
            key: key.dup(),
            record: record.dup(),
        })
        .collect();
    let rels = vec![StoredRel {
        id: EntityId::from_bytes(b"1-2".to_vec()),
        start: EntityId::from_bytes(b"1".to_vec()),
        end: EntityId::from_bytes(b"2".to_vec()),
        rtype: "R".to_string(),
        record: EdgeRecord { properties: Vec::new() },
    }];
    let graph = GraphSnapshot::from_records_with_schema(&nodes, &rels, &schema());
    let parsed = parse(query).unwrap();
    let bound = bind(query, &parsed, &Catalogue::empty(), BindMode::Lenient).unwrap();
    let resolver = SingleVersion::new(&graph);
    let (_, changes) =
        execute_write(&bound, &resolver, &PropertyMap::new(), &FloatTable::new()).unwrap();
    persist_changes(&changes, &catalogue_from_schema(schema()), &state).expect("persist")
}

#[test]
fn a_query_is_persisted_end_to_end() {
    // A changed node keeps its key and its other properties.
    let writes = run_and_persist("MATCH (n:L {id: 1}) SET n.more = 3");
    assert_eq!(writes.len(), 1);
    let StagedWrite::PutNode { key: k, record } = &writes[0] else {
        panic!("wrong write: {:?}", writes[0]);
    };
    assert_eq!(*k, key(1));
    assert_eq!(stored_property(record, "tag"), Some(&ModelValue::String("x".into())));
    assert_eq!(stored_property(record, "more"), Some(&ModelValue::Int(3)));
    assert_eq!(stored_property(record, "id"), None);

    // A created relationship reaches a created node and a stored one.
    let writes = run_and_persist("MATCH (n:L {id: 2}) CREATE (n)-[:R {w: 1}]->(:L {id: 3})");
    assert_eq!(writes.len(), 2);
    assert!(matches!(&writes[0], StagedWrite::PutNode { key: k, .. } if *k == key(3)));
    assert!(matches!(&writes[1], StagedWrite::PutEdge { key: k, .. } if *k == edge(2, 3)));

    // Deleting takes the relationships along.
    let writes = run_and_persist("MATCH (n:L {id: 1}) DETACH DELETE n");
    assert_eq!(writes.len(), 2);
    assert!(matches!(&writes[0], StagedWrite::DeleteEdge { key: k } if *k == edge(1, 2)));
    assert!(matches!(&writes[1], StagedWrite::DeleteNode { key: k } if *k == key(1)));
}
