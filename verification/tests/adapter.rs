//! Stored records as a graph that queries read.

use acetone_cypher::ast::Direction;
use acetone_cypher::bind::catalogue::{IndexDef, LabelDef, SchemaEntry};
use acetone_cypher::bind::{bind, BindMode, Catalogue};
use acetone_cypher::exec::adapter::{
    key_names_from_schema, virtual_diff_node, GraphSnapshot, StoredNode, StoredRel,
};
use acetone_cypher::exec::float::FloatTable;
use acetone_cypher::exec::inspect::MAX_VALUE_DEPTH;
use acetone_cypher::exec::records::{
    convert_value, model_value_of, EdgeRecord, ModelValue, NodeKey, NodeRecord,
};
use acetone_cypher::exec::value::{EntityId, PropertyMap};
use acetone_cypher::exec::{execute, GraphSource, QueryResult, Value};
use acetone_cypher::names::NameMap;
use acetone_cypher::parse;

fn strings(names: &[&str]) -> Vec<String> {
    names.iter().map(|n| n.to_string()).collect()
}

fn float(x: f64) -> ModelValue {
    ModelValue::Float(x.to_bits())
}

fn float_value(x: f64) -> Value {
    Value::Float(x.to_bits())
}

fn key_of(label: &str, value: ModelValue) -> NodeKey {
    NodeKey { label: label.to_string(), key: vec![value] }
}

fn node_key(label: &str, key: &str) -> NodeKey {
    key_of(label, ModelValue::String(key.into()))
}

/// An injective encoding of a key.
fn node_entity_id(key: &NodeKey) -> EntityId {
    EntityId::from_bytes(format!("{key:?}").into_bytes())
}

fn record(labels: &[&str], properties: Vec<(&str, ModelValue)>) -> NodeRecord {
    NodeRecord {
        secondary_labels: strings(labels),
        properties: properties.into_iter().map(|(n, v)| (n.to_string(), v)).collect(),
    }
}

fn stored(key: NodeKey, record: NodeRecord) -> StoredNode {
    StoredNode { id: node_entity_id(&key), key, record }
}

fn edge(src: &NodeKey, rtype: &str, dst: &NodeKey) -> StoredRel {
    StoredRel {
        id: EntityId::from_bytes(format!("{src:?} {rtype} {dst:?}").into_bytes()),
        start: node_entity_id(src),
        end: node_entity_id(dst),
        rtype: rtype.to_string(),
        record: EdgeRecord { properties: Vec::new() },
    }
}

fn keyed_label(name: &str, key: &str) -> SchemaEntry {
    SchemaEntry::Label {
        name: name.to_string(),
        def: LabelDef {
            key: strings(&[key]),
            types: NameMap::new(),
            required: Vec::new(),
            unique: Vec::new(),
        },
    }
}

fn index(name: &str, label: &str, properties: &[&str]) -> SchemaEntry {
    SchemaEntry::Index {
        name: name.to_string(),
        def: IndexDef { label: label.to_string(), properties: strings(properties) },
    }
}

fn snapshot() -> GraphSnapshot {
    let host = node_key("Host", "web-01");
    let software = node_key("Software", "nginx");
    let edges = vec![edge(&host, "RUNS", &software)];
    let nodes = vec![
        stored(host, record(&["Critical"], vec![("os", ModelValue::String("debian".into()))])),
        stored(software, record(&[], Vec::new())),
    ];
    GraphSnapshot::from_records(&nodes, &edges)
}

/// Runs a query.
fn run(query: &str, graph: &GraphSnapshot, catalogue: &Catalogue, mode: BindMode) -> QueryResult {
    let parsed = parse(query).unwrap();
    let bound = bind(query, &parsed, catalogue, mode).unwrap();
    execute(&bound, graph, &PropertyMap::new(), &FloatTable::new()).unwrap()
}

fn run_lenient(query: &str, graph: &GraphSnapshot) -> QueryResult {
    run(query, graph, &Catalogue::empty(), BindMode::Lenient)
}

/// Checks that binding against a schema changes no result.
fn assert_schema_changes_nothing(query: &str, graph: &GraphSnapshot, schema: Vec<SchemaEntry>) {
    let hinted = run(query, graph, &Catalogue::from_entries(schema), BindMode::Strict);
    let scanned = run_lenient(query, graph);
    assert_eq!(format!("{:?}", hinted.rows), format!("{:?}", scanned.rows), "{query}");
}

/// The id of the `from -R-> to` edge in a snapshot, via `expand`.
fn rel_id_of(snapshot: &GraphSnapshot, from: &NodeKey, to: &NodeKey) -> EntityId {
    let to_id = node_entity_id(to);
    snapshot
        .expand(&node_entity_id(from), Direction::Out, &strings(&["R"]))
        .into_iter()
        .find(|(_, neighbour)| neighbour.id == to_id)
        .expect("the edge must be reachable")
        .0
        .id
}

#[test]
fn relationship_identity_is_stable_across_snapshots() {
    let (a, b, c) = (node_key("Host", "a"), node_key("Host", "b"), node_key("Host", "c"));
    let nodes = vec![
        stored(a.dup(), record(&[], Vec::new())),
        stored(b.dup(), record(&[], Vec::new())),
        stored(c.dup(), record(&[], Vec::new())),
    ];
    // Just the target edge, and an unrelated edge before it.
    let s1 = GraphSnapshot::from_records(&nodes, &vec![edge(&b, "R", &c)]);
    let s2 = GraphSnapshot::from_records(&nodes, &vec![edge(&a, "R", &b), edge(&b, "R", &c)]);
    assert_eq!(
        rel_id_of(&s1, &b, &c),
        rel_id_of(&s2, &b, &c),
        "relationship identity must not depend on unrelated earlier edges"
    );
}

#[test]
fn a_relationship_id_never_equals_a_node_id() {
    let (a, b) = (node_key("Host", "a"), node_key("Host", "b"));
    let nodes =
        vec![stored(a.dup(), record(&[], Vec::new())), stored(b.dup(), record(&[], Vec::new()))];
    let s = GraphSnapshot::from_records(&nodes, &vec![edge(&a, "R", &b)]);
    let rel_id = rel_id_of(&s, &a, &b);
    let node_ids: Vec<EntityId> = s.all_nodes().into_iter().map(|n| n.id).collect();
    assert!(
        !node_ids.contains(&rel_id),
        "a relationship id must not collide with any node id"
    );
}

#[test]
fn distinct_relationships_have_distinct_identities() {
    let (a, b, c) = (node_key("Host", "a"), node_key("Host", "b"), node_key("Host", "c"));
    let nodes = vec![
        stored(a.dup(), record(&[], Vec::new())),
        stored(b.dup(), record(&[], Vec::new())),
        stored(c.dup(), record(&[], Vec::new())),
    ];
    let s = GraphSnapshot::from_records(&nodes, &vec![edge(&a, "R", &b), edge(&b, "R", &c)]);
    assert_ne!(
        rel_id_of(&s, &a, &b),
        rel_id_of(&s, &b, &c),
        "distinct relationships must have distinct identities"
    );
}

#[test]
fn key_properties_are_re_exposed_with_schema() {
    let nodes = vec![stored(node_key("Host", "web-01"), record(&[], Vec::new()))];
    let schema = vec![keyed_label("Host", "hostname")];

    // Without schema: the key value is not a queryable property.
    let plain = GraphSnapshot::from_records(&nodes, &Vec::new());
    assert!(plain.all_nodes()[0].properties.get("hostname").is_none());

    // With schema: the key value is re-exposed under its declared property
    // name, so `{hostname: 'web-01'}` and `RETURN h.hostname` work.
    let with_schema = GraphSnapshot::from_records_with_schema(&nodes, &Vec::new(), &schema);
    assert!(matches!(with_schema.all_nodes()[0].properties.get("hostname"),
            Some(Value::String(s)) if s == "web-01"));
}

#[test]
fn virtual_diff_node_renders_a_removed_node_from_the_from_schema() {
    let key = node_key("Host", "web-01");
    let record = record(&["Critical"], vec![("os", ModelValue::String("debian".into()))]);
    let key_names = key_names_from_schema(&vec![keyed_label("Host", "hostname")]);

    let node = virtual_diff_node(&node_entity_id(&key), &key, &record, &key_names, "_Removed");
    assert_eq!(
        node.labels,
        strings(&["_Removed", "Host", "Critical"]),
        "change label first, then primary and secondary labels"
    );
    assert!(
        matches!(node.properties.get("hostname"), Some(Value::String(s)) if s == "web-01"),
        "the key value is re-exposed from the from-side schema"
    );
    assert!(
        matches!(node.properties.get("os"), Some(Value::String(s)) if s == "debian"),
        "record properties are preserved"
    );
}

#[test]
fn virtual_diff_node_without_schema_keeps_the_node_but_not_key_properties() {
    let key = node_key("Thing", "seven");
    let record = record(&[], vec![("v", ModelValue::Int(42))]);
    let empty = key_names_from_schema(&Vec::new());

    let node = virtual_diff_node(&node_entity_id(&key), &key, &record, &empty, "_Added");
    assert_eq!(node.labels, strings(&["_Added", "Thing"]));
    assert!(
        matches!(node.properties.get("v"), Some(Value::Int(42))),
        "record properties survive without a schema"
    );
    // No schema names the key property, so nothing is re-exposed: the only
    // property is the record's.
    assert_eq!(
        node.properties.len(),
        1,
        "no key property can be re-exposed without a schema: {:?}",
        node.properties
    );
}

#[test]
fn key_names_from_schema_collects_only_label_entries() {
    let schema = vec![keyed_label("Host", "hostname"), index("by_os", "Host", &["os"])];
    let key_names = key_names_from_schema(&schema);
    assert_eq!(key_names.len(), 1);
    assert_eq!(
        key_names.get("Host"),
        Some(&vec!["hostname".to_string()]),
        "the label's declared key tuple is mapped by label name"
    );
}

#[test]
fn converts_records_to_queryable_nodes() {
    let snapshot = snapshot();
    assert_eq!(snapshot.node_count(), 2);
    assert_eq!(snapshot.rel_count(), 1);
    let host = snapshot
        .all_nodes()
        .into_iter()
        .find(|n| n.labels.contains(&"Host".to_string()))
        .unwrap();
    assert!(host.labels.contains(&"Critical".to_string()));
    assert!(matches!(host.properties.get("os"), Some(Value::String(s)) if s == "debian"));
}

#[test]
fn executes_a_query_over_stored_records() {
    let result = run_lenient("MATCH (h:Host)-[:RUNS]->(s:Software) RETURN h.os, s", &snapshot());
    assert_eq!(result.rows.len(), 1);
    assert!(matches!(&result.rows[0][0], Value::String(s) if s == "debian"));
    assert!(matches!(&result.rows[0][1], Value::Node(_)));
}

#[test]
fn direction_and_labels_filter_expansion() {
    // No incoming RUNS to a Host.
    let result = run_lenient("MATCH (h:Host)<-[:RUNS]-(x) RETURN count(*) AS n", &snapshot());
    assert!(matches!(result.rows[0][0], Value::Int(0)));
}

#[test]
fn indexed_expand_handles_self_loops_and_parallel_edges() {
    let (a_key, b_key) = (node_key("N", "a"), node_key("N", "b"));
    // A self-loop on a, and two parallel a->b edges of different types.
    let edges = vec![
        edge(&a_key, "LOOP", &a_key),
        edge(&a_key, "R", &b_key),
        edge(&a_key, "S", &b_key),
    ];
    let a = node_entity_id(&a_key);
    let nodes =
        vec![stored(a_key, record(&[], Vec::new())), stored(b_key, record(&[], Vec::new()))];
    let snapshot = GraphSnapshot::from_records(&nodes, &edges);

    // Outgoing from a: the loop + both parallel edges = 3.
    assert_eq!(snapshot.expand(&a, Direction::Out, &Vec::new()).len(), 3);
    // Undirected from a: the self-loop counts once (not twice), plus the two
    // parallel edges = 3.
    assert_eq!(snapshot.expand(&a, Direction::Undirected, &Vec::new()).len(), 3);
    // Incoming to a: only the self-loop.
    assert_eq!(snapshot.expand(&a, Direction::In, &Vec::new()).len(), 1);
    // Type filter selects one parallel edge.
    assert_eq!(snapshot.expand(&a, Direction::Out, &strings(&["R"])).len(), 1);

    // The label index resolves the same nodes as a full scan.
    assert_eq!(snapshot.nodes_by_labels(&strings(&["N"])).len(), 2);
    assert_eq!(snapshot.nodes_by_labels(&strings(&["Missing"])).len(), 0);
    assert!(snapshot.node(&a).is_some());
}

/// Tears a nested list down iteratively, so dropping a deliberately over-deep
/// fixture cannot recurse off the stack.
fn dismantle_model_value(value: ModelValue) {
    let mut stack = vec![value];
    while let Some(value) = stack.pop() {
        if let ModelValue::List(items) = value {
            stack.extend(items);
        }
    }
}

/// How many lists of one element nest in a value, and what they hold.
fn unwrapped(value: &Value) -> (usize, &Value) {
    let mut levels = 0usize;
    let mut at = value;
    while let Value::List(items) = at {
        assert_eq!(items.len(), 1);
        at = &items[0];
        levels += 1;
    }
    (levels, at)
}

#[test]
fn a_hostile_over_deep_stored_list_converts_bounded_not_overflowing() {
    let mut value = ModelValue::Int(7);
    for _ in 0..50_000 {
        value = ModelValue::List(vec![value]);
    }
    let converted = convert_value(&value);
    dismantle_model_value(value);

    // Exactly MAX_VALUE_DEPTH list levels, then null.
    let (levels, leaf) = unwrapped(&converted);
    assert!(matches!(leaf, Value::Null));
    assert_eq!(levels, MAX_VALUE_DEPTH);
}

#[test]
fn a_model_cap_deep_stored_list_converts_losslessly() {
    // The deepest list that storage itself encodes.
    const DEEPEST: usize = 128;
    let mut value = ModelValue::Int(7);
    for _ in 0..DEEPEST {
        value = ModelValue::List(vec![value]);
    }
    let converted = convert_value(&value);
    let (levels, leaf) = unwrapped(&converted);
    assert!(matches!(leaf, Value::Int(7)));
    assert_eq!(levels, DEEPEST);
}

#[test]
fn an_over_deep_runtime_value_is_not_index_eligible() {
    let mut value = Value::Int(1);
    for _ in 0..50_000 {
        value = Value::List(vec![value]);
    }
    assert!(model_value_of(&value).is_none());
    let mut stack = vec![value];
    while let Some(value) = stack.pop() {
        if let Value::List(items) = value {
            stack.extend(items);
        }
    }
}

fn indexed_schema() -> Vec<SchemaEntry> {
    vec![keyed_label("Host", "hostname"), index("by_cores", "Host", &["cores"])]
}

/// Keyed Host nodes carrying an indexed numeric `cores` (mixed Int/Float) and
/// string `os`.
fn indexed_snapshot() -> GraphSnapshot {
    let values = vec![
        ("h1", ModelValue::Int(2)),
        ("h2", ModelValue::Int(4)),
        ("h3", float(4.5)),
        ("h4", ModelValue::Int(8)),
        ("h5", float(-0.0)),
        ("h6", ModelValue::Int(0)),
    ];
    let mut nodes = Vec::new();
    for (name, cores) in values {
        let os = ModelValue::String(format!("os-{name}"));
        nodes.push(stored(
            node_key("Host", name),
            record(&[], vec![("cores", cores), ("os", os)]),
        ));
    }
    GraphSnapshot::from_records_with_schema(&nodes, &Vec::new(), &indexed_schema())
}

fn range_names(
    snapshot: &GraphSnapshot,
    lower: Option<(&Value, bool)>,
    upper: Option<(&Value, bool)>,
) -> Vec<String> {
    let mut names: Vec<String> = snapshot
        .nodes_by_index_range("by_cores", "cores", lower, upper)
        .expect("index exists")
        .into_iter()
        .filter_map(|n| match n.properties.get("hostname") {
            Some(Value::String(s)) => Some(s.clone()),
            _ => None,
        })
        .collect();
    names.sort();
    names
}

#[test]
fn index_range_spans_both_numeric_families() {
    let snapshot = indexed_snapshot();
    // (2, 8): excludes both endpoints, spans Int 4 and Float 4.5.
    let lower = Value::Int(2);
    let upper = Value::Int(8);
    assert_eq!(
        range_names(&snapshot, Some((&lower, false)), Some((&upper, false))),
        vec!["h2", "h3"]
    );
    // >= 4.5 with a float bound: Int 8 must appear (cross-family).
    let lower = float_value(4.5);
    assert_eq!(range_names(&snapshot, Some((&lower, true)), None), vec!["h3", "h4"]);
    // <= 4 inclusive: h1, h2, h5(-0.0), h6(0).
    let upper = Value::Int(4);
    assert_eq!(
        range_names(&snapshot, None, Some((&upper, true))),
        vec!["h1", "h2", "h5", "h6"]
    );
}

#[test]
fn index_range_handles_zero_and_degenerates() {
    let snapshot = indexed_snapshot();
    // >= 0 must select the stored -0.0 (numerically equal) and 0.
    let zero = Value::Int(0);
    assert_eq!(
        range_names(&snapshot, Some((&zero, true)), None),
        vec!["h1", "h2", "h3", "h4", "h5", "h6"]
    );
    // > 0 must exclude BOTH zeros.
    assert_eq!(
        range_names(&snapshot, Some((&zero, false)), None),
        vec!["h1", "h2", "h3", "h4"]
    );
    let zero_f = float_value(0.0);
    // < 0.0 excludes both zeros (nothing negative stored).
    assert!(range_names(&snapshot, None, Some((&zero_f, false))).is_empty());
    // Inverted range selects nothing (and must not panic).
    let five = Value::Int(5);
    let three = Value::Int(3);
    assert!(range_names(&snapshot, Some((&five, false)), Some((&three, false))).is_empty());
    // Null/NaN endpoints select nothing.
    let null = Value::Null;
    assert!(range_names(&snapshot, Some((&null, true)), None).is_empty());
    let nan = float_value(f64::NAN);
    assert!(range_names(&snapshot, None, Some((&nan, true))).is_empty());
    // Mixed-family bounds (number vs string) select nothing.
    let s = Value::String("a".into());
    let one = Value::Int(1);
    assert!(range_names(&snapshot, Some((&one, true)), Some((&s, true))).is_empty());
}

#[test]
fn key_seek_candidates_and_fallbacks() {
    let snapshot = indexed_snapshot();
    // Present key: exactly the node.
    let found = snapshot
        .nodes_by_key("Host", &vec![Value::String("h3".into())])
        .expect("seekable");
    assert_eq!(found.len(), 1);
    assert!(matches!(
        found[0].properties.get("cores"),
        Some(Value::Float(f)) if f64::from_bits(*f) == 4.5
    ));
    // A miss is NEVER a definitive absence: the caller scans.
    assert!(snapshot.nodes_by_key("Host", &vec![Value::String("nope".into())]).is_none());
    // A label the schema gave no key: cannot seek, fall back.
    assert!(snapshot.nodes_by_key("Software", &vec![Value::Int(1)]).is_none());
    // A null key value has no encoding: scan decides.
    assert!(snapshot.nodes_by_key("Host", &vec![Value::Null]).is_none());
}

#[test]
fn cross_type_key_pins_match_scan_end_to_end() {
    let nodes = vec![
        stored(key_of("Item", ModelValue::Int(1)), record(&[], Vec::new())),
        stored(key_of("Item", float(2.0)), record(&[], Vec::new())),
        stored(key_of("Item", float(-0.0)), record(&[], Vec::new())),
    ];
    let schema = vec![keyed_label("Item", "id")];
    let snapshot = GraphSnapshot::from_records_with_schema(&nodes, &Vec::new(), &schema);
    for query in [
        "MATCH (i:Item {id: 1.0}) RETURN i.id",
        "MATCH (i:Item {id: 1}) RETURN i.id",
        "MATCH (i:Item {id: 2}) RETURN i.id",
        "MATCH (i:Item {id: 0}) RETURN i.id",
        "MATCH (i:Item {id: 'absent'}) RETURN i.id",
    ] {
        assert_schema_changes_nothing(query, &snapshot, vec![keyed_label("Item", "id")]);
    }
}

#[test]
fn key_seek_bails_at_the_float_precision_edge() {
    const EDGE: i64 = 9_007_199_254_740_992; // 2^53
    let nodes = vec![
        stored(key_of("Item", ModelValue::Int(EDGE)), record(&[], Vec::new())),
        stored(key_of("Item", ModelValue::Int(EDGE + 1)), record(&[], Vec::new())),
    ];
    let schema = vec![keyed_label("Item", "id")];
    let snapshot = GraphSnapshot::from_records_with_schema(&nodes, &Vec::new(), &schema);
    // The float pin cannot be served: both stored Int keys are lossy-equal to
    // it. Bail (scan), never a partial candidate set.
    assert!(snapshot.nodes_by_key("Item", &vec![float_value(EDGE as f64)]).is_none());
    // End to end, hinted equals scanned.
    let query = "MATCH (i:Item {id: 9007199254740992.0}) RETURN i.id ORDER BY i.id";
    let hinted = run(query, &snapshot, &Catalogue::from_entries(schema), BindMode::Strict);
    let scanned = run_lenient(query, &snapshot);
    assert_eq!(hinted.rows.len(), 2, "both lossy-equal keys match");
    assert_eq!(format!("{:?}", hinted.rows), format!("{:?}", scanned.rows));
}

#[test]
fn key_seek_probes_numeric_cross_types() {
    let nodes = vec![
        stored(key_of("Item", ModelValue::Int(1)), record(&[], Vec::new())),
        stored(key_of("Item", float(1.0)), record(&[], Vec::new())),
        stored(key_of("Item", float(-0.0)), record(&[], Vec::new())),
    ];
    let schema = vec![keyed_label("Item", "id")];
    let snapshot = GraphSnapshot::from_records_with_schema(&nodes, &Vec::new(), &schema);
    // Either numeric pin reaches both same-value keys.
    let candidates = snapshot.nodes_by_key("Item", &vec![float_value(1.0)]).expect("hit");
    assert_eq!(candidates.len(), 2);
    let candidates = snapshot.nodes_by_key("Item", &vec![Value::Int(1)]).expect("hit");
    assert_eq!(candidates.len(), 2);
    // A zero pin reaches the -0.0 key (numerically equal).
    let candidates = snapshot.nodes_by_key("Item", &vec![Value::Int(0)]).expect("hit");
    assert_eq!(candidates.len(), 1);
}

#[test]
fn hinted_execution_matches_scan_results() {
    let snapshot = indexed_snapshot();
    for query in [
        "MATCH (h:Host) WHERE h.cores > 2 AND h.cores <= 4.5 RETURN h.hostname ORDER BY h.hostname",
        "MATCH (h:Host) WHERE h.cores >= 0 RETURN h.hostname ORDER BY h.hostname",
        "MATCH (h:Host {hostname: 'h4'}) RETURN h.cores",
        "MATCH (h:Host {hostname: 'absent'}) RETURN h.cores",
    ] {
        assert_schema_changes_nothing(query, &snapshot, indexed_schema());
    }
}

fn composite_schema() -> Vec<SchemaEntry> {
    vec![
        keyed_label("Host", "hostname"),
        index("by_region_port", "Host", &["region", "port"]),
    ]
}

#[test]
fn index_range_refuses_composite_indexes() {
    let properties =
        vec![("port", ModelValue::Int(80)), ("region", ModelValue::String("eu".into()))];
    let nodes = vec![stored(node_key("Host", "a"), record(&[], properties))];
    let snapshot =
        GraphSnapshot::from_records_with_schema(&nodes, &Vec::new(), &composite_schema());
    let lower = Value::Int(1);
    assert!(snapshot
        .nodes_by_index_range("by_region_port", "port", Some((&lower, true)), None)
        .is_none());
    assert!(snapshot
        .nodes_by_index_range("by_region_port", "region", Some((&lower, true)), None)
        .is_none());
}

#[test]
fn composite_index_seek_matches_scan() {
    let mut nodes = Vec::new();
    for (name, region, port) in [
        ("a", "eu", ModelValue::Int(80)),
        ("b", "eu", ModelValue::Int(443)),
        ("c", "us", ModelValue::Int(80)),
        ("d", "eu", float(80.0)),
    ] {
        let properties = vec![("port", port), ("region", ModelValue::String(region.into()))];
        nodes.push(stored(node_key("Host", name), record(&[], properties)));
    }
    let snapshot =
        GraphSnapshot::from_records_with_schema(&nodes, &Vec::new(), &composite_schema());
    // An Int pin reaches BOTH the Int(80) and Float(80.0) entries under
    // ("eu", 80): per-component cross-typing.
    let got = snapshot
        .nodes_by_index(
            "by_region_port",
            &strings(&["region", "port"]),
            &vec![Value::String("eu".into()), Value::Int(80)],
        )
        .expect("served");
    assert_eq!(got.len(), 2);
    // Arity/property-list mismatches refuse (scan fallback).
    assert!(snapshot
        .nodes_by_index(
            "by_region_port",
            &strings(&["region"]),
            &vec![Value::String("eu".into())]
        )
        .is_none());
    // End to end: hinted equals scanned, including the cross-typed row.
    for query in [
        "MATCH (h:Host {region: 'eu', port: 80}) RETURN h.hostname ORDER BY h.hostname",
        "MATCH (h:Host {region: 'eu', port: 443}) RETURN h.hostname",
        "MATCH (h:Host {region: 'nowhere', port: 80}) RETURN h.hostname",
    ] {
        assert_schema_changes_nothing(query, &snapshot, composite_schema());
    }
}

#[test]
fn range_candidates_come_family_by_family_in_ascending_order() {
    let float = |x: f64| ModelValue::Float(x.to_bits());
    let values = [
        ("a", float(2.5)),
        ("b", ModelValue::Int(7)),
        ("c", float(0.0)),
        ("d", ModelValue::Int(1)),
        ("e", float(-0.0)),
        ("f", ModelValue::Int(7)),
        ("g", float(-1.5)),
        ("h", ModelValue::Int(-3)),
    ];
    let mut nodes = Vec::new();
    for (name, cores) in values {
        nodes.push(stored(node_key("Host", name), record(&[], vec![("cores", cores)])));
    }
    let snapshot =
        GraphSnapshot::from_records_with_schema(&nodes, &Vec::new(), &indexed_schema());
    let listed = |lower: Option<(&Value, bool)>, upper: Option<(&Value, bool)>| {
        let found = snapshot.nodes_by_index_range("by_cores", "cores", lower, upper).unwrap();
        let mut names = String::new();
        for node in found {
            match node.properties.get("hostname") {
                Some(Value::String(s)) => names.push_str(s),
                other => panic!("no name: {other:?}"),
            }
        }
        names
    };
    let (low, high, zero) = (Value::Int(-100), Value::Int(100), Value::Int(0));
    assert_eq!(listed(Some((&low, true)), Some((&high, true))), "hdbfgeca");
    assert_eq!(listed(Some((&zero, true)), None), "dbfeca");
    assert_eq!(listed(Some((&zero, false)), None), "dbfa");
    assert_eq!(listed(None, Some((&zero, false))), "hg");
}
