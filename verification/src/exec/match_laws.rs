//! What pattern matching keeps.

use vstd::prelude::*;

use crate::bind::bound::{BoundExprView, BoundPathPatternView};
use crate::exec::semantics::{self, Env, Spent};
use crate::exec::value::{NodeValueView, PathValueView, RelValueView, ValueView};
use crate::exec::walk::{self, Matched, Tested, Walked};

verus! {

/// Whether no match uses a relationship twice.
pub open spec fn used_once(states: Seq<Matched>) -> bool {
    forall|i: int| 0 <= i < states.len() ==> (#[trigger] states[i]).used.no_duplicates()
}

/// Whether a path alternates: one node more than relationships.
pub open spec fn alternates(path: PathValueView) -> bool {
    path.nodes.len() == path.rels.len() + 1
}

/// Whether the path variable of a pattern, where it has one, holds a path that
/// alternates.
pub open spec fn holds_path(m: Matched, pattern: BoundPathPatternView) -> bool {
    match pattern.path_var {
        None => true,
        Some(v) => m.row.dom().contains(v.0) && m.row[v.0] is Path && alternates(
            m.row[v.0]->Path_0,
        ),
    }
}

/// Whether every match of a pattern uses relationships once and holds its path.
pub open spec fn match_well(states: Seq<Matched>, pattern: BoundPathPatternView) -> bool {
    forall|i: int|
        0 <= i < states.len() ==> (#[trigger] states[i]).used.no_duplicates() && holds_path(
            states[i],
            pattern,
        )
}

proof fn lemma_used(m: Matched, way: (RelValueView, NodeValueView))
    requires
        m.used.no_duplicates(),
        !m.used.contains(way.0.id),
    ensures
        m.used.push(way.0.id).no_duplicates(),
{
}

proof fn lemma_walked(
    pattern: BoundPathPatternView,
    at: int,
    from: NodeValueView,
    m: Matched,
    path: PathValueView,
    env: Env,
    spent: Spent,
    found: Seq<Matched>,
)
    requires
        m.used.no_duplicates(),
        alternates(path),
        match_well(found, pattern),
    ensures
        walk::walked(pattern, at, from, m, path, env, spent, found).result matches Ok(all)
            ==> match_well(all, pattern),
    decreases pattern.steps.len() - at, 2int, 0int, 0int, 0int,
{
    reveal(walk::walked);
    reveal(walk::walked_over);
    reveal(walk::hopped);
    reveal(walk::hopped_over);
    if at < 0 || at >= pattern.steps.len() {
        let last = Matched {
            row: walk::bound_to(m.row, pattern.path_var, ValueView::Path(path)),
            used: m.used,
        };
        assert(holds_path(last, pattern));
        assert forall|i: int| 0 <= i < found.push(last).len() implies (
        #[trigger] found.push(last)[i]).used.no_duplicates() && holds_path(
            found.push(last)[i],
            pattern,
        ) by {
            if i < found.len() {
                assert(found.push(last)[i] == found[i]);
            }
        }
    } else {
        let rel = pattern.steps[at].0;
        match rel.var_length {
            None => {
                let ways = (env.graph.expand)(from.id, rel.direction, rel.types);
                lemma_walked_over(pattern, at, ways, 0, m, path, env, spent, found);
            },
            Some(bounds) => {
                lemma_hopped(
                    pattern,
                    at,
                    from,
                    m,
                    path,
                    seq![],
                    walk::least_hops(bounds),
                    walk::most_hops(bounds),
                    env,
                    spent,
                    found,
                );
            },
        }
    }
}

proof fn lemma_walked_over(
    pattern: BoundPathPatternView,
    at: int,
    ways: Seq<(RelValueView, NodeValueView)>,
    i: int,
    m: Matched,
    path: PathValueView,
    env: Env,
    spent: Spent,
    found: Seq<Matched>,
)
    requires
        m.used.no_duplicates(),
        alternates(path),
        match_well(found, pattern),
    ensures
        walk::walked_over(pattern, at, ways, i, m, path, env, spent, found).result matches Ok(all)
            ==> match_well(all, pattern),
    decreases pattern.steps.len() - at, 1int, 0int, 0int, ways.len() - i,
{
    reveal(walk::walked);
    reveal(walk::walked_over);
    reveal(walk::hopped);
    reveal(walk::hopped_over);
    if !(at < 0 || at >= pattern.steps.len() || i < 0 || i >= ways.len()) {
        let (rel_pattern, node_pattern) = pattern.steps[at];
        let (rel, node) = ways[i];
        let t = walk::way_fits(rel_pattern, Some(node_pattern), ways[i], m, env, spent);
        match t.result {
            Err(e) => {},
            Ok(false) => {
                lemma_walked_over(pattern, at, ways, i + 1, m, path, env, t.spent, found);
            },
            Ok(true) => {
                let with_rel = walk::bound_fresh(
                    m.row,
                    rel_pattern.var,
                    ValueView::Relationship(rel),
                );
                if walk::admits_rel(m.row, rel_pattern.var, rel) && walk::admits_node(
                    with_rel,
                    node_pattern.var,
                    node,
                ) {
                    assert(!m.used.contains(rel.id)) by {
                        reveal(walk::way_fits);
                    }
                    lemma_used(m, ways[i]);
                    let next = Matched {
                        row: walk::bound_fresh(with_rel, node_pattern.var, ValueView::Node(node)),
                        used: m.used.push(rel.id),
                    };
                    let w = walk::walked(
                        pattern,
                        at + 1,
                        node,
                        next,
                        walk::longer(path, ways[i]),
                        env,
                        t.spent,
                        found,
                    );
                    lemma_walked(
                        pattern,
                        at + 1,
                        node,
                        next,
                        walk::longer(path, ways[i]),
                        env,
                        t.spent,
                        found,
                    );
                    match w.result {
                        Err(e) => {},
                        Ok(all) => {
                            lemma_walked_over(
                                pattern,
                                at,
                                ways,
                                i + 1,
                                m,
                                path,
                                env,
                                w.spent,
                                all,
                            );
                        },
                    }
                } else {
                    lemma_walked_over(pattern, at, ways, i + 1, m, path, env, t.spent, found);
                }
            },
        }
    }
}

proof fn lemma_hopped(
    pattern: BoundPathPatternView,
    at: int,
    from: NodeValueView,
    m: Matched,
    path: PathValueView,
    hops: Seq<RelValueView>,
    min: u64,
    max: u64,
    env: Env,
    spent: Spent,
    found: Seq<Matched>,
)
    requires
        m.used.no_duplicates(),
        alternates(path),
        match_well(found, pattern),
    ensures
        walk::hopped(
            pattern,
            at,
            from,
            m,
            path,
            hops,
            min,
            max,
            env,
            spent,
            found,
        ).result matches Ok(all)
            ==> match_well(all, pattern),
    decreases pattern.steps.len() - at, 1int, max - hops.len(), 1int, 0int,
{
    reveal(walk::walked);
    reveal(walk::walked_over);
    reveal(walk::hopped);
    reveal(walk::hopped_over);
    if !(at < 0 || at >= pattern.steps.len()) {
        let (rel_pattern, node_pattern) = pattern.steps[at];
        let t = if hops.len() >= min {
            walk::node_fits(from, node_pattern, m.row, env, spent)
        } else {
            Tested { result: Ok(false), spent }
        };
        match t.result {
            Err(e) => {},
            Ok(close) => {
                let with_rel = walk::bound_to(m.row, rel_pattern.var, walk::rel_list(hops));
                let next = Matched {
                    row: walk::bound_fresh(with_rel, node_pattern.var, ValueView::Node(from)),
                    used: m.used,
                };
                let w = if close && walk::admits_node(with_rel, node_pattern.var, from) {
                    walk::walked(pattern, at + 1, from, next, path, env, t.spent, found)
                } else {
                    Walked { result: Ok(found), spent: t.spent }
                };
                if close && walk::admits_node(with_rel, node_pattern.var, from) {
                    lemma_walked(pattern, at + 1, from, next, path, env, t.spent, found);
                }
                match w.result {
                    Err(e) => {},
                    Ok(all) => {
                        if hops.len() < max {
                            lemma_hopped_over(
                                pattern,
                                at,
                                (env.graph.expand)(
                                    from.id,
                                    rel_pattern.direction,
                                    rel_pattern.types,
                                ),
                                0,
                                m,
                                path,
                                hops,
                                min,
                                max,
                                env,
                                w.spent,
                                all,
                            );
                        }
                    },
                }
            },
        }
    }
}

proof fn lemma_hopped_over(
    pattern: BoundPathPatternView,
    at: int,
    ways: Seq<(RelValueView, NodeValueView)>,
    i: int,
    m: Matched,
    path: PathValueView,
    hops: Seq<RelValueView>,
    min: u64,
    max: u64,
    env: Env,
    spent: Spent,
    found: Seq<Matched>,
)
    requires
        m.used.no_duplicates(),
        alternates(path),
        match_well(found, pattern),
    ensures
        walk::hopped_over(
            pattern,
            at,
            ways,
            i,
            m,
            path,
            hops,
            min,
            max,
            env,
            spent,
            found,
        ).result matches Ok(all) ==> match_well(all, pattern),
    decreases pattern.steps.len() - at, 1int, max - hops.len(), 0int, ways.len() - i,
{
    reveal(walk::walked);
    reveal(walk::walked_over);
    reveal(walk::hopped);
    reveal(walk::hopped_over);
    if !(at < 0 || at >= pattern.steps.len() || i < 0 || i >= ways.len() || hops.len() >= max) {
        let t = walk::way_fits(pattern.steps[at].0, None, ways[i], m, env, spent);
        match t.result {
            Err(e) => {},
            Ok(false) => {
                lemma_hopped_over(
                    pattern,
                    at,
                    ways,
                    i + 1,
                    m,
                    path,
                    hops,
                    min,
                    max,
                    env,
                    t.spent,
                    found,
                );
            },
            Ok(true) => {
                assert(!m.used.contains(ways[i].0.id)) by {
                    reveal(walk::way_fits);
                }
                lemma_used(m, ways[i]);
                let next = Matched { row: m.row, used: m.used.push(ways[i].0.id) };
                let w = walk::hopped(
                    pattern,
                    at,
                    ways[i].1,
                    next,
                    walk::longer(path, ways[i]),
                    hops.push(ways[i].0),
                    min,
                    max,
                    env,
                    t.spent,
                    found,
                );
                lemma_hopped(
                    pattern,
                    at,
                    ways[i].1,
                    next,
                    walk::longer(path, ways[i]),
                    hops.push(ways[i].0),
                    min,
                    max,
                    env,
                    t.spent,
                    found,
                );
                match w.result {
                    Err(e) => {},
                    Ok(all) => {
                        lemma_hopped_over(
                            pattern,
                            at,
                            ways,
                            i + 1,
                            m,
                            path,
                            hops,
                            min,
                            max,
                            env,
                            w.spent,
                            all,
                        );
                    },
                }
            },
        }
    }
}

proof fn lemma_anchored(
    pattern: BoundPathPatternView,
    anchors: Seq<NodeValueView>,
    i: int,
    m: Matched,
    env: Env,
    spent: Spent,
    found: Seq<Matched>,
)
    requires
        m.used.no_duplicates(),
        match_well(found, pattern),
    ensures
        walk::anchored_from(pattern, anchors, i, m, env, spent, found).result matches Ok(all)
            ==> match_well(all, pattern),
    decreases anchors.len() - i,
{
    reveal(walk::anchored_from);
    if !(i < 0 || i >= anchors.len()) {
        let t = walk::node_fits(anchors[i], pattern.start, m.row, env, spent);
        match t.result {
            Err(e) => {},
            Ok(false) => {
                lemma_anchored(pattern, anchors, i + 1, m, env, t.spent, found);
            },
            Ok(true) => {
                let next = Matched {
                    row: walk::bound_to(m.row, pattern.start.var, ValueView::Node(anchors[i])),
                    used: m.used,
                };
                let path = PathValueView { nodes: seq![anchors[i]], rels: seq![] };
                let w = walk::walked(pattern, 0, anchors[i], next, path, env, t.spent, found);
                lemma_walked(pattern, 0, anchors[i], next, path, env, t.spent, found);
                match w.result {
                    Err(e) => {},
                    Ok(all) => {
                        lemma_anchored(pattern, anchors, i + 1, m, env, w.spent, all);
                    },
                }
            },
        }
    }
}

/// The matches of a pattern hold its path, whose nodes and relationships
/// alternate, and use no relationship twice.
pub proof fn matches_hold_alternating_paths(
    pattern: BoundPathPatternView,
    states: Seq<Matched>,
    i: int,
    env: Env,
    spent: Spent,
    found: Seq<Matched>,
)
    requires
        used_once(states),
        match_well(found, pattern),
    ensures
        walk::continued_from(pattern, states, i, env, spent, found).result matches Ok(all) ==> match_well(
            all,
            pattern,
        ),
    decreases states.len() - i,
{
    reveal(walk::continued_from);
    if !(i < 0 || i >= states.len()) {
        let anchors = walk::anchors_of(pattern.start, states[i].row, env.graph);
        let w = walk::anchored_from(pattern, anchors, 0, states[i], env, spent, found);
        lemma_anchored(pattern, anchors, 0, states[i], env, spent, found);
        match w.result {
            Err(e) => {},
            Ok(all) => {
                matches_hold_alternating_paths(pattern, states, i + 1, env, w.spent, all);
            },
        }
    }
}

/// Within one `MATCH` no relationship is traversed twice, across all of its
/// patterns.
pub proof fn relationships_are_used_once(
    patterns: Seq<BoundPathPatternView>,
    k: int,
    states: Seq<Matched>,
    env: Env,
    spent: Spent,
)
    requires
        used_once(states),
    ensures
        walk::patterns_from(
            patterns,
            k,
            states,
            env,
            spent,
        ).result matches Ok(all) ==> used_once(all),
    decreases patterns.len() - k,
{
    reveal(walk::patterns_from);
    if !(k < 0 || k >= patterns.len()) {
        let w = walk::continued_from(patterns[k], states, 0, env, spent, seq![]);
        matches_hold_alternating_paths(patterns[k], states, 0, env, spent, seq![]);
        match w.result {
            Err(e) => {},
            Ok(next) => {
                assert(used_once(next));
                relationships_are_used_once(patterns, k + 1, next, env, w.spent);
            },
        }
    }
}

// --- Rows -------------------------------------------------------------------------------------------

proof fn lemma_appended_all(
    rows: Seq<Map<u32, ValueView>>,
    j: int,
    out: Seq<Map<u32, ValueView>>,
    spent: Spent,
)
    requires
        0 <= j <= rows.len(),
    ensures
        walk::appended_from(rows, j, out, spent).result matches Ok(all) ==> all == out + rows.skip(j),
    decreases rows.len() - j,
{
    reveal(walk::appended_from);
    if j < rows.len() {
        let c = spent.budget.row(out.len());
        let after = semantics::with_budget(spent, c.budget);
        lemma_appended_all(rows, j + 1, out.push(rows[j]), after);
        assert(out.push(rows[j]) + rows.skip(j + 1) =~= out + rows.skip(j));
    } else {
        assert(out + rows.skip(j) =~= out);
    }
}

/// An optional match keeps every row: where the pattern has no match, the row
/// stays, with nulls for what the pattern would have bound.
pub proof fn an_optional_match_keeps_every_row(
    rows: Seq<Map<u32, ValueView>>,
    i: int,
    patterns: Seq<BoundPathPatternView>,
    predicate: Option<BoundExprView>,
    env: Env,
    spent: Spent,
    out: Seq<Map<u32, ValueView>>,
)
    requires
        0 <= i <= rows.len(),
    ensures
        walk::matched_from(
            rows,
            i,
            true,
            patterns,
            predicate,
            env,
            spent,
            out,
        ).result matches Ok(all)
            ==> all.len() >= out.len() + rows.len() - i,
    decreases rows.len() - i,
{
    reveal(walk::matched_from);
    if i < rows.len() {
        let r = walk::row_matches(rows[i], true, patterns, predicate, env, spent);
        match r.result {
            Err(e) => {},
            Ok(found) => {
                assert(found.len() > 0) by {
                    reveal(walk::row_matches);
                }
                let a = walk::appended_from(found, 0, out, r.spent);
                lemma_appended_all(found, 0, out, r.spent);
                match a.result {
                    Err(e) => {},
                    Ok(all) => {
                        an_optional_match_keeps_every_row(
                            rows,
                            i + 1,
                            patterns,
                            predicate,
                            env,
                            a.spent,
                            all,
                        );
                    },
                }
            },
        }
    }
}

proof fn lemma_kept(
    states: Seq<Matched>,
    i: int,
    predicate: Option<BoundExprView>,
    env: Env,
    spent: Spent,
    kept: Seq<Map<u32, ValueView>>,
)
    requires
        0 <= i <= states.len(),
    ensures
        walk::kept_from(
            states,
            i,
            predicate,
            env,
            spent,
            kept,
        ).result matches Ok(all) ==> kept.len()
            <= all.len() <= kept.len() + states.len() - i,
    decreases states.len() - i,
{
    reveal(walk::kept_from);
    if i < states.len() {
        let t = walk::passes(predicate, states[i].row, env, spent);
        match t.result {
            Err(e) => {},
            Ok(b) => {
                let next = if b {
                    kept.push(states[i].row)
                } else {
                    kept
                };
                lemma_kept(states, i + 1, predicate, env, t.spent, next);
            },
        }
    }
}

/// A predicate never adds matches.
pub proof fn a_predicate_only_drops_matches(
    row: Map<u32, ValueView>,
    patterns: Seq<BoundPathPatternView>,
    predicate: Option<BoundExprView>,
    env: Env,
    spent: Spent,
)
    ensures
        ({
            let all = walk::patterns_from(
                patterns,
                0,
                seq![Matched { row, used: seq![] }],
                env,
                spent,
            );
            let kept = walk::row_matches(row, false, patterns, predicate, env, spent);
            kept.result is Ok ==> all.result is Ok && kept.result->Ok_0.len()
                <= all.result->Ok_0.len()
        }),
{
    reveal(walk::row_matches);
    let w = walk::patterns_from(patterns, 0, seq![Matched { row, used: seq![] }], env, spent);
    match w.result {
        Err(e) => {},
        Ok(states) => {
            lemma_kept(states, 0, predicate, env, w.spent, seq![]);
        },
    }
}

} // verus!
