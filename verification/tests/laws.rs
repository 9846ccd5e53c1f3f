//! What holds across functions, on concrete values.

use acetone_cypher::bind::{bind, BindError, BindMode, BoundQuery, Catalogue};
use acetone_cypher::exec::float::FloatTable;
use acetone_cypher::exec::sound::is_sound;
use acetone_cypher::exec::value::PropertyMap;
use acetone_cypher::exec::{
    execute_write, run_query, EmptyGraph, ExecError, GraphSource, MemoryGraph, MutableGraph,
    QueryError, QueryResult, SingleVersion, Value, WriteChanges,
};
use acetone_cypher::names::NameMap;
use acetone_cypher::parse;

fn rows_over<G: GraphSource>(query: &str, graph: &G) -> QueryResult {
    run_query(query, graph, &PropertyMap::new(), &FloatTable::new()).expect(query)
}

fn rows(query: &str) -> QueryResult {
    rows_over(query, &EmptyGraph)
}

/// The integers of the first column.
fn column(result: &QueryResult) -> Vec<i64> {
    result
        .rows
        .iter()
        .map(|row| match &row[0] {
            Value::Int(n) => *n,
            other => panic!("not an integer: {other:?}"),
        })
        .collect()
}

fn bound(query: &str) -> Result<BoundQuery, BindError> {
    let parsed = parse(query).expect(query);
    bind(query, &parsed, &Catalogue::empty(), BindMode::Lenient)
}

fn write<G: GraphSource>(query: &str, graph: &G) -> Result<(QueryResult, WriteChanges), ExecError> {
    let resolver = SingleVersion::new(graph);
    execute_write(&bound(query).expect(query), &resolver, &PropertyMap::new(), &FloatTable::new())
}

/// A triangle of nodes `N {i: 0..3}` with relationships of type `R`.
fn triangle() -> MemoryGraph {
    let mut graph = MemoryGraph::new();
    let mut ids = Vec::new();
    for i in 0..3 {
        let mut properties = PropertyMap::new();
        properties.insert("i".to_string(), Value::Int(i));
        ids.push(graph.add_node(vec!["N".to_string()], properties));
    }
    for i in 0..3 {
        graph.add_rel(&ids[i], "R".to_string(), &ids[(i + 1) % 3], PropertyMap::new());
    }
    graph
}

#[test]
fn sorting_orders_and_loses_nothing() {
    let sorted = rows("UNWIND [3, 1, 2, 1] AS x RETURN x ORDER BY x");
    assert_eq!(column(&sorted), vec![1, 1, 2, 3]);
    let sorted = rows("UNWIND [3, 1, 2, 1] AS x RETURN x ORDER BY x DESC");
    assert_eq!(column(&sorted), vec![3, 2, 1, 1]);
    // Rows of equal keys stay in order.
    let stable = rows("UNWIND [12, 21, 11, 22] AS x RETURN x ORDER BY x / 10");
    assert_eq!(column(&stable), vec![12, 11, 21, 22]);
}

#[test]
fn distinct_keeps_one_of_each() {
    assert_eq!(column(&rows("UNWIND [2, 1, 2, 1] AS x RETURN DISTINCT x")), vec![2, 1]);
    assert_eq!(rows("UNWIND [null, null, 1] AS x RETURN DISTINCT x").rows.len(), 2);
}

#[test]
fn pages_are_stretches_of_the_rows() {
    assert_eq!(column(&rows("UNWIND range(1, 9) AS x RETURN x SKIP 2 LIMIT 3")), vec![3, 4, 5]);
    assert_eq!(column(&rows("UNWIND range(1, 3) AS x RETURN x SKIP 2 LIMIT 9")), vec![3]);
    assert!(rows("UNWIND range(1, 3) AS x RETURN x SKIP 9").rows.is_empty());
    assert!(rows("UNWIND range(1, 3) AS x RETURN x LIMIT 0").rows.is_empty());
}

#[test]
fn groups_cover_every_row() {
    let result = rows("UNWIND [1, 2, 1, 3, 1] AS x RETURN count(*) AS n, x ORDER BY x");
    assert_eq!(column(&result), vec![3, 1, 1]);
    // No rows and no keys make one group, no rows with keys make none.
    assert_eq!(column(&rows("UNWIND [] AS x RETURN count(*) AS n")), vec![0]);
    assert!(rows("UNWIND [] AS x RETURN count(*) AS n, x").rows.is_empty());
}

#[test]
fn relationships_are_walked_once() {
    let graph = triangle();
    // Three relationships: no path of four.
    let longest = rows_over("MATCH p = (:N {i: 0})-[*]->(:N) RETURN length(p) AS n", &graph);
    assert_eq!(column(&longest), vec![1, 2, 3]);
    // Across the patterns of one MATCH too.
    let pairs = rows_over("MATCH (a)-[r]->(b), (c)-[s]->(d) RETURN count(*) AS n", &graph);
    assert_eq!(column(&pairs), vec![6]);
    // But not across clauses.
    let pairs = rows_over("MATCH (a)-[r]->(b) MATCH (c)-[s]->(d) RETURN count(*) AS n", &graph);
    assert_eq!(column(&pairs), vec![9]);
}

#[test]
fn an_optional_match_keeps_rows() {
    let graph = triangle();
    let query = "MATCH (a:N) OPTIONAL MATCH (a)-[:S]->(b) RETURN a.i AS i, b ORDER BY i";
    let result = rows_over(query, &graph);
    assert_eq!(column(&result), vec![0, 1, 2]);
    assert!(result.rows.iter().all(|row| row[1].is_null()));
}

#[test]
fn deleting_leaves_nothing_behind() {
    let graph = triangle();
    let (result, changes) =
        write("MATCH (n:N {i: 0}) DETACH DELETE n WITH 1 AS x MATCH (m)-[r]-() RETURN count(r) AS c",
            &graph).expect("deleted");
    assert_eq!(column(&result), vec![2]);
    assert_eq!(changes.deleted_nodes.len(), 1);
    assert_eq!(changes.deleted_rels.len(), 2);
    // Without DETACH a connected node stays.
    assert!(write("MATCH (n:N {i: 0}) DELETE n", &graph).is_err());
}

#[test]
fn what_is_created_and_deleted_leaves_no_trace() {
    let (_, changes) = write("CREATE (n:N) DELETE n", &EmptyGraph).expect("run");
    assert!(changes.upserted_nodes.is_empty());
    assert!(changes.upserted_rels.is_empty());
    assert!(changes.deleted_nodes.is_empty());
    assert!(changes.deleted_rels.is_empty());
}

#[test]
fn merge_matches_or_creates() {
    let graph = triangle();
    let (result, changes) =
        write("MERGE (n:N {i: 1}) ON MATCH SET n.seen = true RETURN n.i", &graph).expect("run");
    assert_eq!(column(&result), vec![1]);
    assert_eq!(changes.upserted_nodes.len(), 1);
    assert_eq!(result.stats.nodes_created, 0);
    // Merged twice, created once.
    let query = "MERGE (n:N {i: 7}) MERGE (m:N {i: 7}) RETURN count(*) AS c";
    let (result, changes) = write(query, &graph).expect("run");
    assert_eq!(column(&result), vec![1]);
    assert_eq!(changes.upserted_nodes.len(), 1);
}

#[test]
fn applied_changes_are_seen_by_the_next_query() {
    let mut graph = triangle();
    let (_, changes) =
        write("MATCH (n:N {i: 2}) SET n.i = 5 CREATE (n)-[:S]->(:N {i: 9})", &graph).expect("run");
    graph.apply(&changes);
    let result = rows_over("MATCH (n:N) RETURN n.i AS i ORDER BY i", &graph);
    assert_eq!(column(&result), vec![0, 1, 5, 9]);
    let result = rows_over("MATCH (:N {i: 5})-[:S]->(m) RETURN m.i", &graph);
    assert_eq!(column(&result), vec![9]);
}

#[test]
fn an_overlay_leaves_the_base_alone() {
    let base = triangle();
    let mut graph = MutableGraph::new(&base);
    let first = graph.all_nodes().remove(0);
    graph.delete_node(&first.id);
    assert!(graph.node(&first.id).is_none());
    assert_eq!(graph.all_nodes().len(), 2);
    assert_eq!(base.all_nodes().len(), 3);
    assert_eq!(base.all_rels().len(), 3);
    assert!(base.node(&first.id).is_some());
}

#[test]
fn variables_are_numbered_densely() {
    let query = "MATCH (a)-[r]->(b) WITH a, [x IN [1] | x] AS l UNWIND l AS y RETURN a, y";
    let bound = bound(query).expect(query);
    for (i, variable) in bound.variables.iter().enumerate() {
        assert_eq!(variable.id.0 as usize, i);
    }
    assert_eq!(bound.clauses.len(), 4);
}

#[test]
fn expressions_declare_nothing_behind_them() {
    assert!(bound("RETURN [x IN [1] | x] AS l, x").is_err());
    assert!(bound("RETURN any(x IN [1] WHERE x = 1) AS l, x").is_err());
    assert!(bound("RETURN reduce(a = 0, x IN [1] | a + x) AS l, a").is_err());
    // A shadowed name is there again.
    let result = rows("WITH 7 AS x RETURN x + size([x IN [1, 2] | x]) + x AS s");
    assert_eq!(column(&result), vec![16]);
    // Behind a projection only its names.
    assert!(bound("WITH 1 AS a, 2 AS b WITH a RETURN b").is_err());
}

#[test]
fn queries_end_as_they_may() {
    for query in ["RETURN 1", "CREATE (n)", "CALL acetone.log()", "MATCH (n) DELETE n"] {
        assert!(parse(query).is_ok(), "{query}");
    }
    for query in ["", "MATCH (n)", "WITH 1 AS x", "RETURN 1 RETURN 2", "UNWIND [1] AS x"] {
        assert!(parse(query).is_err(), "{query}");
    }
}

#[test]
fn names_are_found_in_order() {
    let mut names: NameMap<u8> = NameMap::new();
    for (name, x) in [("b", 1u8), ("a", 2), ("c", 3), ("a", 4)] {
        names.insert(name.to_string(), x);
    }
    assert_eq!(names.names(), vec!["a", "b", "c"]);
    assert_eq!(names.get("a"), Some(&4));
    assert_eq!(names.get("d"), None);
    names.remove("b");
    assert_eq!(names.names(), vec!["a", "c"]);
}

#[test]
fn floats_are_asked_for() {
    // Without the answer a query stops and says what it needs.
    let pending = run_query("RETURN 1.5 * 2", &EmptyGraph, &PropertyMap::new(), &FloatTable::new());
    assert!(matches!(pending, Err(QueryError::Exec(ExecError::FloatPending { .. }))));
    // A literal needs none.
    let result = rows("RETURN 1.5 AS x");
    assert!(matches!(result.rows[0][0], Value::Float(bits) if bits == 1.5f64.to_bits()));
}

#[test]
fn reading_writes_nothing_and_results_are_rectangular() {
    let graph = triangle();
    let query = "MATCH (n:N) WITH n ORDER BY n.i RETURN n.i AS i, n, 1 AS one";
    let (result, changes) = write(query, &graph).expect("run");
    assert!(result.stats.is_empty());
    assert!(changes.upserted_nodes.is_empty() && changes.deleted_nodes.is_empty());
    assert_eq!(result.columns, vec!["i", "n", "one"]);
    assert!(result.rows.iter().all(|row| row.len() == 3));
    assert_eq!(column(&result), vec![0, 1, 2]);
}

#[test]
fn folding_changes_in_renames_replaces_and_removes() {
    let mut graph = triangle();
    let (_, changes) = write(
        "MATCH (a:N {i: 0})-[r:R]->(b:N {i: 1}) SET b.i = 10 DELETE r \
         CREATE (a)-[:S]->(:New {i: 20})",
        &graph,
    )
    .expect("write");
    graph.apply(&changes);
    // The others stand where they stood, the new node behind them.
    assert_eq!(column(&rows_over("MATCH (n) RETURN n.i AS i", &graph)), vec![0, 10, 2, 20]);
    assert_eq!(rows_over("MATCH (:N {i: 0})-[:R]->(:N {i: 10}) RETURN 1 AS x", &graph).rows.len(), 0);
    // The created relationship's end is the created node under its new identity.
    assert_eq!(
        column(&rows_over("MATCH (:N {i: 0})-[:S]->(m) RETURN m.i AS i", &graph)),
        vec![20]
    );
    // A second round of changes gives out other identities.
    let (_, more) = write("CREATE (:New {i: 30})", &graph).expect("write");
    graph.apply(&more);
    assert_eq!(column(&rows_over("MATCH (n:New) RETURN n.i AS i", &graph)), vec![20, 30]);
    let nodes = graph.all_nodes();
    assert!(nodes[3].id != nodes[4].id);
}

#[test]
fn an_overlay_numbers_what_it_creates() {
    let graph = triangle();
    let mut overlay = MutableGraph::new(&graph);
    let a = overlay.create_node(vec!["A".to_string()], PropertyMap::new());
    overlay.delete_node(&a.id);
    let b = overlay.create_node(vec!["B".to_string()], PropertyMap::new());
    let r = overlay.create_rel(b.id.clone(), "R".to_string(), b.id.clone(), PropertyMap::new());
    assert!(a.id != b.id && b.id != r.id && a.id != r.id);
    assert!(overlay.node(&a.id).is_none());
    assert!(overlay.node(&b.id).is_some());
}

#[test]
fn bound_queries_are_sound() {
    assert!(is_sound(&bound("MATCH (n) RETURN n.i AS i, count(*) AS c").expect("bound")));
    assert!(is_sound(&bound("CREATE (a)-[:R]->(b)").expect("bound")));
}
