//! Pending writes over a base graph.

use acetone_cypher::ast::Direction;
use acetone_cypher::exec::value::PropertyMap;
use acetone_cypher::exec::{EmptyGraph, GraphSource, MemoryGraph, MutableGraph};

#[test]
fn overlay_merges_reads_over_the_base() {
    let mut base = MemoryGraph::new();
    base.add_node(vec!["Host".to_string()], PropertyMap::new());

    let mut graph = MutableGraph::new(&base);
    assert_eq!(graph.all_nodes().len(), 1);

    let created = graph.create_node(vec!["Host".into()], PropertyMap::new());
    // Both base and overlay nodes are visible; the new one resolves.
    assert_eq!(graph.all_nodes().len(), 2);
    assert!(graph.node(&created.id).is_some());
    assert_eq!(graph.summary().nodes_created, 1);
}

#[test]
fn created_relationships_expand_from_created_nodes() {
    let empty = EmptyGraph;
    let mut graph = MutableGraph::new(&empty);
    let a = graph.create_node(vec!["A".into()], PropertyMap::new());
    let b = graph.create_node(vec!["B".into()], PropertyMap::new());
    graph.create_rel(a.id.clone(), "R".into(), b.id.clone(), PropertyMap::new());

    let out = graph.expand(&a.id, Direction::Out, &vec!["R".to_string()]);
    assert_eq!(out.len(), 1);
    assert_eq!(out[0].1.id, b.id);
    // No incoming R from a's perspective.
    assert!(graph.expand(&a.id, Direction::In, &Vec::new()).is_empty());

    let (log, summary) = graph.into_log();
    assert_eq!(log.len(), 3); // two nodes, one rel
    assert_eq!(summary.nodes_created, 2);
    assert_eq!(summary.relationships_created, 1);
}
