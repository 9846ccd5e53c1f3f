//! What running a query does to its budget: a query that succeeds has stayed
//! within its limits.

use vstd::prelude::*;

use crate::bind::bound::{
    BoundClauseView, BoundExprView, BoundNodePatternView, BoundPathPatternView, BoundQueryView,
    BoundRelPatternView, BoundSetItemView, ProcedureDefView, VarId,
};
use crate::exec::budget_laws;
use crate::exec::change;
use crate::exec::create::{self, Given};
use crate::exec::delete::{self, Doomed};
use crate::exec::fault::ExecErrorView;
use crate::exec::feed::{self, Outcome};
use crate::exec::governor::QueryLimits;
use crate::exec::merge;
use crate::exec::overlay::{self, OverlayView};
use crate::exec::refresh;
use crate::exec::row_laws;
use crate::exec::run::{self, Progress, World};
use crate::exec::semantics::{self, Env, Spent};
use crate::exec::source::GraphView;
use crate::exec::value::{NodeValueView, PathValueView, PropertyMapView, RelValueView, ValueView};
use crate::exec::walk::{self, Matched, Tested, Walked};
use crate::span::Span;

verus! {

// --- Matching ---------------------------------------------------------------------------------------

pub(crate) proof fn lemma_properties_fit(
    wanted: Option<BoundExprView>,
    actual: PropertyMapView,
    row: Map<u32, ValueView>,
    env: Env,
    spent: Spent,
)
    ensures
        ({
            let x = walk::properties_fit(wanted, actual, row, env, spent);
            budget_laws::follows(spent.budget, x.spent.budget, x.result is Ok)
        }),
{
    reveal(walk::properties_fit);
    if let Some(e) = wanted {
        budget_laws::evaluation_only_charges(e, row, env, spent);
    }
}

pub(crate) proof fn lemma_node_fits(
    node: NodeValueView,
    pattern: BoundNodePatternView,
    row: Map<u32, ValueView>,
    env: Env,
    spent: Spent,
)
    ensures
        ({
            let x = walk::node_fits(node, pattern, row, env, spent);
            budget_laws::follows(spent.budget, x.spent.budget, x.result is Ok)
        }),
{
    reveal(walk::node_fits);
    lemma_properties_fit(pattern.properties, node.properties, row, env, spent);
}

pub(crate) proof fn lemma_way_fits(
    rel_pattern: BoundRelPatternView,
    node_pattern: Option<BoundNodePatternView>,
    way: (RelValueView, NodeValueView),
    m: Matched,
    env: Env,
    spent: Spent,
)
    ensures
        ({
            let x = walk::way_fits(rel_pattern, node_pattern, way, m, env, spent);
            budget_laws::follows(spent.budget, x.spent.budget, x.result is Ok)
        }),
{
    reveal(walk::way_fits);
    let c = spent.budget.hop();
    let after = semantics::with_budget(spent, c.budget);
    budget_laws::charges_follow(spent.budget, 0, 0);
    let t = walk::properties_fit(rel_pattern.properties, way.0.properties, m.row, env, after);
    lemma_properties_fit(rel_pattern.properties, way.0.properties, m.row, env, after);
    if let Some(n) = node_pattern {
        lemma_node_fits(way.1, n, m.row, env, t.spent);
    }
}

pub(crate) proof fn lemma_walked(
    pattern: BoundPathPatternView,
    at: int,
    from: NodeValueView,
    m: Matched,
    path: PathValueView,
    env: Env,
    spent: Spent,
    found: Seq<Matched>,
)
    ensures
        ({
            let x = walk::walked(pattern, at, from, m, path, env, spent, found);
            budget_laws::follows(spent.budget, x.spent.budget, x.result is Ok)
        }),
    decreases pattern.steps.len() - at, 2int, 0int, 0int, 0int,
{
    reveal(walk::walked);
    reveal(walk::walked_over);
    reveal(walk::hopped);
    reveal(walk::hopped_over);
    if at < 0 || at >= pattern.steps.len() {
        budget_laws::charges_follow(spent.budget, 0, found.len());
    } else {
        let rel = pattern.steps[at].0;
        match rel.var_length {
            None => {
                let ways = (env.graph.expand)(from.id, rel.direction, rel.types);
                lemma_walked_over(pattern, at, ways, 0, m, path, env, spent, found);
            },
            Some(bounds) => {
                lemma_hopped(
                    pattern,
                    at,
                    from,
                    m,
                    path,
                    seq![],
                    walk::least_hops(bounds),
                    walk::most_hops(bounds),
                    env,
                    spent,
                    found,
                );
            },
        }
    }
}

pub(crate) proof fn lemma_walked_over(
    pattern: BoundPathPatternView,
    at: int,
    ways: Seq<(RelValueView, NodeValueView)>,
    i: int,
    m: Matched,
    path: PathValueView,
    env: Env,
    spent: Spent,
    found: Seq<Matched>,
)
    ensures
        ({
            let x = walk::walked_over(pattern, at, ways, i, m, path, env, spent, found);
            &&& budget_laws::follows(spent.budget, x.spent.budget, x.result is Ok)
            &&& !(at < 0 || at >= pattern.steps.len() || i < 0 || i >= ways.len())
                ==> x.spent.budget.polled
                    >= walk::way_fits(
                        pattern.steps[at].0,
                        Some(pattern.steps[at].1),
                        ways[i],
                        m,
                        env,
                        spent,
                    ).spent.budget.polled
            &&& !(at < 0 || at >= pattern.steps.len() || i < 0 || i >= ways.len()) ==> ({
                let (rel_pattern, node_pattern) = pattern.steps[at];
                let (rel, node) = ways[i];
                let t = walk::way_fits(rel_pattern, Some(node_pattern), ways[i], m, env, spent);
                let with_rel = walk::bound_fresh(
                    m.row,
                    rel_pattern.var,
                    ValueView::Relationship(rel),
                );
                let next = Matched {
                    row: walk::bound_fresh(with_rel, node_pattern.var, ValueView::Node(node)),
                    used: m.used.push(rel.id),
                };
                t.result == Ok::<bool, ExecErrorView>(true)
                    && walk::admits_rel(m.row, rel_pattern.var, rel)
                    && walk::admits_node(with_rel, node_pattern.var, node)
                    ==> x.spent.budget.polled
                        >= walk::walked(
                            pattern,
                            at + 1,
                            node,
                            next,
                            walk::longer(path, ways[i]),
                            env,
                            t.spent,
                            found,
                        ).spent.budget.polled
            })
        }),
    decreases pattern.steps.len() - at, 1int, 0int, 0int, ways.len() - i,
{
    reveal(walk::walked);
    reveal(walk::walked_over);
    reveal(walk::hopped);
    reveal(walk::hopped_over);
    if !(at < 0 || at >= pattern.steps.len() || i < 0 || i >= ways.len()) {
        let (rel_pattern, node_pattern) = pattern.steps[at];
        let (rel, node) = ways[i];
        let t = walk::way_fits(rel_pattern, Some(node_pattern), ways[i], m, env, spent);
        lemma_way_fits(rel_pattern, Some(node_pattern), ways[i], m, env, spent);
        if t.result is Ok {
            lemma_walked_over(pattern, at, ways, i + 1, m, path, env, t.spent, found);
            let with_rel = walk::bound_fresh(m.row, rel_pattern.var, ValueView::Relationship(rel));
            let next = Matched {
                row: walk::bound_fresh(with_rel, node_pattern.var, ValueView::Node(node)),
                used: m.used.push(rel.id),
            };
            let path_on = walk::longer(path, ways[i]);
            let on = walk::walked(pattern, at + 1, node, next, path_on, env, t.spent, found);
            lemma_walked(pattern, at + 1, node, next, path_on, env, t.spent, found);
            if let Ok(all) = on.result {
                lemma_walked_over(pattern, at, ways, i + 1, m, path, env, on.spent, all);
            }
        }
    }
}

pub(crate) proof fn lemma_hopped(
    pattern: BoundPathPatternView,
    at: int,
    from: NodeValueView,
    m: Matched,
    path: PathValueView,
    hops: Seq<RelValueView>,
    min: u64,
    max: u64,
    env: Env,
    spent: Spent,
    found: Seq<Matched>,
)
    ensures
        ({
            let x = walk::hopped(pattern, at, from, m, path, hops, min, max, env, spent, found);
            &&& budget_laws::follows(spent.budget, x.spent.budget, x.result is Ok)
            &&& !(at < 0 || at >= pattern.steps.len()) && hops.len() >= min
                ==> x.spent.budget.polled
                    >= walk::node_fits(
                        from,
                        pattern.steps[at].1,
                        m.row,
                        env,
                        spent,
                    ).spent.budget.polled
            &&& !(at < 0 || at >= pattern.steps.len()) && hops.len() >= min ==> ({
                let (rel_pattern, node_pattern) = pattern.steps[at];
                let t = walk::node_fits(from, node_pattern, m.row, env, spent);
                let with_rel = walk::bound_to(m.row, rel_pattern.var, walk::rel_list(hops));
                let next = Matched {
                    row: walk::bound_fresh(with_rel, node_pattern.var, ValueView::Node(from)),
                    used: m.used,
                };
                t.result == Ok::<bool, ExecErrorView>(true)
                    && walk::admits_node(with_rel, node_pattern.var, from)
                    ==> x.spent.budget.polled
                        >= walk::walked(
                            pattern,
                            at + 1,
                            from,
                            next,
                            path,
                            env,
                            t.spent,
                            found,
                        ).spent.budget.polled
            })
        }),
    decreases pattern.steps.len() - at, 1int, max - hops.len(), 1int, 0int,
{
    reveal(walk::walked);
    reveal(walk::walked_over);
    reveal(walk::hopped);
    reveal(walk::hopped_over);
    if !(at < 0 || at >= pattern.steps.len()) {
        let (rel_pattern, node_pattern) = pattern.steps[at];
        let t = if hops.len() >= min {
            walk::node_fits(from, node_pattern, m.row, env, spent)
        } else {
            Tested { result: Ok(false), spent }
        };
        lemma_node_fits(from, node_pattern, m.row, env, spent);
        if let Ok(close) = t.result {
            let with_rel = walk::bound_to(m.row, rel_pattern.var, walk::rel_list(hops));
            let next = Matched {
                row: walk::bound_fresh(with_rel, node_pattern.var, ValueView::Node(from)),
                used: m.used,
            };
            let on = if close && walk::admits_node(with_rel, node_pattern.var, from) {
                walk::walked(pattern, at + 1, from, next, path, env, t.spent, found)
            } else {
                Walked { result: Ok(found), spent: t.spent }
            };
            lemma_walked(pattern, at + 1, from, next, path, env, t.spent, found);
            if let Ok(all) = on.result {
                if hops.len() < max {
                    let ways = (env.graph.expand)(
                        from.id,
                        rel_pattern.direction,
                        rel_pattern.types,
                    );
                    lemma_hopped_over(
                        pattern,
                        at,
                        ways,
                        0,
                        m,
                        path,
                        hops,
                        min,
                        max,
                        env,
                        on.spent,
                        all,
                    );
                }
            }
        }
    }
}

pub(crate) proof fn lemma_hopped_over(
    pattern: BoundPathPatternView,
    at: int,
    ways: Seq<(RelValueView, NodeValueView)>,
    i: int,
    m: Matched,
    path: PathValueView,
    hops: Seq<RelValueView>,
    min: u64,
    max: u64,
    env: Env,
    spent: Spent,
    found: Seq<Matched>,
)
    ensures
        ({
            let x = walk::hopped_over(
                pattern,
                at,
                ways,
                i,
                m,
                path,
                hops,
                min,
                max,
                env,
                spent,
                found,
            );
            &&& budget_laws::follows(spent.budget, x.spent.budget, x.result is Ok)
            &&& !(
                at < 0 || at >= pattern.steps.len() || i < 0 || i >= ways.len() || hops.len() >= max
            )
                ==> x.spent.budget.polled
                    >= walk::way_fits(
                        pattern.steps[at].0,
                        None,
                        ways[i],
                        m,
                        env,
                        spent,
                    ).spent.budget.polled
            &&& !(at < 0 || at >= pattern.steps.len() || i < 0 || i >= ways.len() || hops.len() >= max) ==> ({
                let t = walk::way_fits(pattern.steps[at].0, None, ways[i], m, env, spent);
                let next = Matched { row: m.row, used: m.used.push(ways[i].0.id) };
                t.result == Ok::<bool, ExecErrorView>(true)
                    ==> x.spent.budget.polled
                        >= walk::hopped(
                            pattern,
                            at,
                            ways[i].1,
                            next,
                            walk::longer(path, ways[i]),
                            hops.push(ways[i].0),
                            min,
                            max,
                            env,
                            t.spent,
                            found,
                        ).spent.budget.polled
            })
        }),
    decreases pattern.steps.len() - at, 1int, max - hops.len(), 0int, ways.len() - i,
{
    reveal(walk::walked);
    reveal(walk::walked_over);
    reveal(walk::hopped);
    reveal(walk::hopped_over);
    if !(at < 0 || at >= pattern.steps.len() || i < 0 || i >= ways.len() || hops.len() >= max) {
        let t = walk::way_fits(pattern.steps[at].0, None, ways[i], m, env, spent);
        lemma_way_fits(pattern.steps[at].0, None, ways[i], m, env, spent);
        if t.result is Ok {
            lemma_hopped_over(
                pattern,
                at,
                ways,
                i + 1,
                m,
                path,
                hops,
                min,
                max,
                env,
                t.spent,
                found,
            );
            let next = Matched { row: m.row, used: m.used.push(ways[i].0.id) };
            let path_on = walk::longer(path, ways[i]);
            let hops_on = hops.push(ways[i].0);
            let on = walk::hopped(
                pattern,
                at,
                ways[i].1,
                next,
                path_on,
                hops_on,
                min,
                max,
                env,
                t.spent,
                found,
            );
            lemma_hopped(
                pattern,
                at,
                ways[i].1,
                next,
                path_on,
                hops_on,
                min,
                max,
                env,
                t.spent,
                found,
            );
            if let Ok(all) = on.result {
                lemma_hopped_over(
                    pattern,
                    at,
                    ways,
                    i + 1,
                    m,
                    path,
                    hops,
                    min,
                    max,
                    env,
                    on.spent,
                    all,
                );
            }
        }
    }
}

pub(crate) proof fn lemma_anchored(
    pattern: BoundPathPatternView,
    anchors: Seq<NodeValueView>,
    i: int,
    m: Matched,
    env: Env,
    spent: Spent,
    found: Seq<Matched>,
)
    ensures
        ({
            let x = walk::anchored_from(pattern, anchors, i, m, env, spent, found);
            &&& budget_laws::follows(spent.budget, x.spent.budget, x.result is Ok)
            &&& !(i < 0 || i >= anchors.len()) ==> x.spent.budget.polled >= walk::node_fits(
                anchors[i],
                pattern.start,
                m.row,
                env,
                spent,
            ).spent.budget.polled
            &&& !(i < 0 || i >= anchors.len()) ==> ({
                let t = walk::node_fits(anchors[i], pattern.start, m.row, env, spent);
                let next = Matched {
                    row: walk::bound_to(m.row, pattern.start.var, ValueView::Node(anchors[i])),
                    used: m.used,
                };
                let path = PathValueView { nodes: seq![anchors[i]], rels: seq![] };
                t.result == Ok::<bool, ExecErrorView>(true)
                    ==> x.spent.budget.polled
                        >= walk::walked(
                            pattern,
                            0,
                            anchors[i],
                            next,
                            path,
                            env,
                            t.spent,
                            found,
                        ).spent.budget.polled
            })
        }),
    decreases anchors.len() - i,
{
    reveal(walk::anchored_from);
    if !(i < 0 || i >= anchors.len()) {
        let t = walk::node_fits(anchors[i], pattern.start, m.row, env, spent);
        lemma_node_fits(anchors[i], pattern.start, m.row, env, spent);
        if t.result is Ok {
            lemma_anchored(pattern, anchors, i + 1, m, env, t.spent, found);
            let next = Matched {
                row: walk::bound_to(m.row, pattern.start.var, ValueView::Node(anchors[i])),
                used: m.used,
            };
            let path = PathValueView { nodes: seq![anchors[i]], rels: seq![] };
            let on = walk::walked(pattern, 0, anchors[i], next, path, env, t.spent, found);
            lemma_walked(pattern, 0, anchors[i], next, path, env, t.spent, found);
            if let Ok(all) = on.result {
                lemma_anchored(pattern, anchors, i + 1, m, env, on.spent, all);
            }
        }
    }
}

pub(crate) proof fn lemma_continued(
    pattern: BoundPathPatternView,
    states: Seq<Matched>,
    i: int,
    env: Env,
    spent: Spent,
    found: Seq<Matched>,
)
    ensures
        ({
            let x = walk::continued_from(pattern, states, i, env, spent, found);
            &&& budget_laws::follows(spent.budget, x.spent.budget, x.result is Ok)
            &&& !(i < 0 || i >= states.len()) ==> x.spent.budget.polled >= walk::anchored_from(
                pattern,
                walk::anchors_of(pattern.start, states[i].row, env.graph),
                0,
                states[i],
                env,
                spent,
                found,
            ).spent.budget.polled
        }),
    decreases states.len() - i,
{
    reveal(walk::continued_from);
    if !(i < 0 || i >= states.len()) {
        let anchors = walk::anchors_of(pattern.start, states[i].row, env.graph);
        let on = walk::anchored_from(pattern, anchors, 0, states[i], env, spent, found);
        lemma_anchored(pattern, anchors, 0, states[i], env, spent, found);
        if let Ok(all) = on.result {
            lemma_continued(pattern, states, i + 1, env, on.spent, all);
        }
    }
}

pub(crate) proof fn lemma_patterns(
    patterns: Seq<BoundPathPatternView>,
    k: int,
    states: Seq<Matched>,
    env: Env,
    spent: Spent,
)
    ensures
        ({
            let x = walk::patterns_from(patterns, k, states, env, spent);
            &&& budget_laws::follows(spent.budget, x.spent.budget, x.result is Ok)
            &&& !(k < 0 || k >= patterns.len()) ==> x.spent.budget.polled >= walk::continued_from(
                patterns[k],
                states,
                0,
                env,
                spent,
                seq![],
            ).spent.budget.polled
        }),
    decreases patterns.len() - k,
{
    reveal(walk::patterns_from);
    if !(k < 0 || k >= patterns.len()) {
        let on = walk::continued_from(patterns[k], states, 0, env, spent, seq![]);
        lemma_continued(patterns[k], states, 0, env, spent, seq![]);
        if let Ok(next) = on.result {
            lemma_patterns(patterns, k + 1, next, env, on.spent);
        }
    }
}

pub(crate) proof fn lemma_kept(
    states: Seq<Matched>,
    i: int,
    predicate: Option<BoundExprView>,
    env: Env,
    spent: Spent,
    kept: Seq<Map<u32, ValueView>>,
)
    ensures
        ({
            let x = walk::kept_from(states, i, predicate, env, spent, kept);
            &&& budget_laws::follows(spent.budget, x.spent.budget, x.result is Ok)
            &&& !(i < 0 || i >= states.len()) ==> x.spent.budget.polled >= walk::passes(
                predicate,
                states[i].row,
                env,
                spent,
            ).spent.budget.polled
        }),
    decreases states.len() - i,
{
    reveal(walk::kept_from);
    if !(i < 0 || i >= states.len()) {
        let t = walk::passes(predicate, states[i].row, env, spent);
        row_laws::lemma_passes(predicate, states[i].row, env, spent);
        if let Ok(b) = t.result {
            let next = if b {
                kept.push(states[i].row)
            } else {
                kept
            };
            lemma_kept(states, i + 1, predicate, env, t.spent, next);
        }
    }
}

pub(crate) proof fn lemma_appended(
    rows: Seq<Map<u32, ValueView>>,
    j: int,
    out: Seq<Map<u32, ValueView>>,
    spent: Spent,
)
    ensures
        ({
            let x = walk::appended_from(rows, j, out, spent);
            &&& budget_laws::follows(spent.budget, x.spent.budget, x.result is Ok)
            &&& out.len() <= spent.budget.limits.max_result_rows ==> (
                x.result matches Ok(all) ==> all.len() <= spent.budget.limits.max_result_rows
            )
            &&& !(
                j < 0 || j >= rows.len()
            ) ==> x.spent.budget.polled >= spent.budget.row(out.len()).budget.polled
        }),
    decreases rows.len() - j,
{
    reveal(walk::appended_from);
    if !(j < 0 || j >= rows.len()) {
        let c = spent.budget.row(out.len());
        budget_laws::charges_follow(spent.budget, 0, out.len());
        if c.result is Ok {
            let after = semantics::with_budget(spent, c.budget);
            lemma_appended(rows, j + 1, out.push(rows[j]), after);
        }
    }
}

pub(crate) proof fn lemma_row_matches(
    row: Map<u32, ValueView>,
    optional: bool,
    patterns: Seq<BoundPathPatternView>,
    predicate: Option<BoundExprView>,
    env: Env,
    spent: Spent,
)
    ensures
        ({
            let x = walk::row_matches(row, optional, patterns, predicate, env, spent);
            budget_laws::follows(spent.budget, x.spent.budget, x.result is Ok)
        }),
{
    reveal(walk::row_matches);
    let start = seq![Matched { row, used: seq![] }];
    let on = walk::patterns_from(patterns, 0, start, env, spent);
    lemma_patterns(patterns, 0, start, env, spent);
    if let Ok(states) = on.result {
        lemma_kept(states, 0, predicate, env, on.spent, seq![]);
    }
}

pub(crate) proof fn lemma_matched(
    rows: Seq<Map<u32, ValueView>>,
    i: int,
    optional: bool,
    patterns: Seq<BoundPathPatternView>,
    predicate: Option<BoundExprView>,
    env: Env,
    spent: Spent,
    out: Seq<Map<u32, ValueView>>,
)
    ensures
        ({
            let x = walk::matched_from(rows, i, optional, patterns, predicate, env, spent, out);
            &&& budget_laws::follows(spent.budget, x.spent.budget, x.result is Ok)
            &&& out.len() <= spent.budget.limits.max_result_rows ==> (
                x.result matches Ok(all) ==> all.len() <= spent.budget.limits.max_result_rows
            )
            &&& !(i < 0 || i >= rows.len()) ==> ({
                let r = walk::row_matches(rows[i], optional, patterns, predicate, env, spent);
                &&& x.spent.budget.polled >= r.spent.budget.polled
                &&& r.result matches Ok(found)
                        ==> x.spent.budget.polled
                            >= walk::appended_from(found, 0, out, r.spent).spent.budget.polled
            })
        }),
    decreases rows.len() - i,
{
    reveal(walk::matched_from);
    if !(i < 0 || i >= rows.len()) {
        let r = walk::row_matches(rows[i], optional, patterns, predicate, env, spent);
        lemma_row_matches(rows[i], optional, patterns, predicate, env, spent);
        if let Ok(found) = r.result {
            let more = walk::appended_from(found, 0, out, r.spent);
            lemma_appended(found, 0, out, r.spent);
            if let Ok(all) = more.result {
                lemma_matched(rows, i + 1, optional, patterns, predicate, env, more.spent, all);
            }
        }
    }
}

// --- UNWIND and CALL --------------------------------------------------------------------------------

pub(crate) proof fn lemma_value(
    e: BoundExprView,
    row: Map<u32, ValueView>,
    env: Env,
    spent: Spent,
)
    ensures
        ({
            let x = semantics::value_of(e, row, env, spent);
            budget_laws::follows(spent.budget, x.spent.budget, x.result is Ok)
        }),
{
    reveal(semantics::value_of);
    budget_laws::evaluation_only_charges(e, row, env, spent);
}

pub(crate) proof fn lemma_row_unwound(
    row: Map<u32, ValueView>,
    expr: BoundExprView,
    alias: VarId,
    span: Span,
    env: Env,
    spent: Spent,
)
    ensures
        ({
            let x = feed::row_unwound(row, expr, alias, span, env, spent);
            budget_laws::follows(spent.budget, x.spent.budget, x.result is Ok)
        }),
{
    reveal(feed::row_unwound);
    lemma_value(expr, row, env, spent);
}

pub(crate) proof fn lemma_unwound(
    rows: Seq<Map<u32, ValueView>>,
    i: int,
    expr: BoundExprView,
    alias: VarId,
    span: Span,
    env: Env,
    spent: Spent,
    out: Seq<Map<u32, ValueView>>,
)
    ensures
        ({
            let x = feed::unwound_from(rows, i, expr, alias, span, env, spent, out);
            &&& budget_laws::follows(spent.budget, x.spent.budget, x.result is Ok)
            &&& out.len() <= spent.budget.limits.max_result_rows ==> (
                x.result matches Ok(all) ==> all.len() <= spent.budget.limits.max_result_rows
            )
            &&& !(i < 0 || i >= rows.len()) ==> ({
                let r = feed::row_unwound(rows[i], expr, alias, span, env, spent);
                &&& x.spent.budget.polled >= r.spent.budget.polled
                &&& r.result matches Ok(found)
                        ==> x.spent.budget.polled
                            >= walk::appended_from(found, 0, out, r.spent).spent.budget.polled
            })
        }),
    decreases rows.len() - i,
{
    reveal(feed::unwound_from);
    if !(i < 0 || i >= rows.len()) {
        let r = feed::row_unwound(rows[i], expr, alias, span, env, spent);
        lemma_row_unwound(rows[i], expr, alias, span, env, spent);
        if let Ok(found) = r.result {
            let more = walk::appended_from(found, 0, out, r.spent);
            lemma_appended(found, 0, out, r.spent);
            if let Ok(all) = more.result {
                lemma_unwound(rows, i + 1, expr, alias, span, env, more.spent, all);
            }
        }
    }
}

pub(crate) proof fn lemma_row_called(
    row: Map<u32, ValueView>,
    procedure: ProcedureDefView,
    args: Seq<BoundExprView>,
    yields: Seq<(Seq<char>, VarId)>,
    predicate: Option<BoundExprView>,
    span: Span,
    outcome: Outcome,
    env: Env,
    spent: Spent,
)
    ensures
        ({
            let x = feed::row_called(
                row,
                procedure,
                args,
                yields,
                predicate,
                span,
                outcome,
                env,
                spent,
            );
            budget_laws::follows(spent.budget, x.spent.budget, x.result is Ok)
        }),
{
    reveal(feed::row_called);
    let a = semantics::arguments_from(args, 0, seq![], row, env, spent);
    budget_laws::lemma_arguments(args, 0, seq![], row, env, spent);
    if let Ok(values) = a.result {
        if let Ok(tuples) = outcome(procedure.name, values) {
            let more = feed::extended(row, yields, procedure.yields, tuples);
            row_laws::lemma_filtered(more, 0, predicate, env, a.spent, seq![]);
        }
    }
}

pub(crate) proof fn lemma_called(
    rows: Seq<Map<u32, ValueView>>,
    i: int,
    procedure: ProcedureDefView,
    args: Seq<BoundExprView>,
    yields: Seq<(Seq<char>, VarId)>,
    predicate: Option<BoundExprView>,
    span: Span,
    outcome: Outcome,
    env: Env,
    spent: Spent,
    out: Seq<Map<u32, ValueView>>,
)
    ensures
        ({
            let x = feed::called_from(
                rows,
                i,
                procedure,
                args,
                yields,
                predicate,
                span,
                outcome,
                env,
                spent,
                out,
            );
            &&& budget_laws::follows(spent.budget, x.spent.budget, x.result is Ok)
            &&& out.len() <= spent.budget.limits.max_result_rows ==> (
                x.result matches Ok(all) ==> all.len() <= spent.budget.limits.max_result_rows
            )
            &&& !(i < 0 || i >= rows.len()) ==> ({
                let r = feed::row_called(
                    rows[i],
                    procedure,
                    args,
                    yields,
                    predicate,
                    span,
                    outcome,
                    env,
                    spent,
                );
                &&& x.spent.budget.polled >= r.spent.budget.polled
                &&& r.result matches Ok(found)
                        ==> x.spent.budget.polled
                            >= walk::appended_from(found, 0, out, r.spent).spent.budget.polled
            })
        }),
    decreases rows.len() - i,
{
    reveal(feed::called_from);
    if !(i < 0 || i >= rows.len()) {
        let r = feed::row_called(
            rows[i],
            procedure,
            args,
            yields,
            predicate,
            span,
            outcome,
            env,
            spent,
        );
        lemma_row_called(rows[i], procedure, args, yields, predicate, span, outcome, env, spent);
        if let Ok(found) = r.result {
            let more = walk::appended_from(found, 0, out, r.spent);
            lemma_appended(found, 0, out, r.spent);
            if let Ok(all) = more.result {
                lemma_called(
                    rows,
                    i + 1,
                    procedure,
                    args,
                    yields,
                    predicate,
                    span,
                    outcome,
                    env,
                    more.spent,
                    all,
                );
            }
        }
    }
}

// --- Writing ----------------------------------------------------------------------------------------

pub(crate) proof fn lemma_properties_of(
    properties: Option<BoundExprView>,
    row: Map<u32, ValueView>,
    env: Env,
    span: Span,
    spent: Spent,
)
    ensures
        ({
            let x = create::properties_of(properties, row, env, span, spent);
            budget_laws::follows(spent.budget, x.spent.budget, x.result is Ok)
        }),
{
    reveal(create::properties_of);
    if let Some(e) = properties {
        budget_laws::evaluation_only_charges(e, row, env, spent);
    }
}

pub(crate) proof fn lemma_node_made(
    p: BoundNodePatternView,
    row: Map<u32, ValueView>,
    o: OverlayView,
    given: Given,
    spent: Spent,
)
    ensures
        ({
            let x = create::node_made(p, row, o, given, spent);
            budget_laws::follows(spent.budget, x.spent.budget, x.result is Ok)
        }),
{
    reveal(create::node_made);
    lemma_properties_of(p.properties, row, given.env(o.graph()), p.span, spent);
}

pub(crate) proof fn lemma_steps_made(
    steps: Seq<(BoundRelPatternView, BoundNodePatternView)>,
    at: int,
    from: NodeValueView,
    path: PathValueView,
    row: Map<u32, ValueView>,
    o: OverlayView,
    given: Given,
    spent: Spent,
)
    ensures
        ({
            let x = create::steps_made(steps, at, from, path, row, o, given, spent);
            &&& budget_laws::follows(spent.budget, x.spent.budget, x.result is Ok)
            &&& !(at < 0 || at >= steps.len()) ==> ({
                let n = create::node_made(steps[at].1, row, o, given, spent);
                &&& x.spent.budget.polled >= n.spent.budget.polled
                &&& n.result matches Ok(t)
                        ==> x.spent.budget.polled
                            >= create::properties_of(
                                steps[at].0.properties,
                                t.1,
                                given.env(t.2.graph()),
                                steps[at].0.span,
                                n.spent,
                            ).spent.budget.polled
            })
        }),
    decreases steps.len() - at,
{
    reveal(create::steps_made);
    if !(at < 0 || at >= steps.len()) {
        let p = steps[at].0;
        let n = create::node_made(steps[at].1, row, o, given, spent);
        lemma_node_made(steps[at].1, row, o, given, spent);
        if let Ok((target, row, o)) = n.result {
            let env = given.env(o.graph());
            let m = create::properties_of(p.properties, row, env, p.span, n.spent);
            lemma_properties_of(p.properties, row, env, p.span, n.spent);
            if let Ok(properties) = m.result {
                let made = create::rel_made(p, from, target, properties, o);
                lemma_steps_made(
                    steps,
                    at + 1,
                    target,
                    PathValueView {
                        nodes: path.nodes.push(target),
                        rels: path.rels.push(made.1),
                    },
                    walk::bound_to(row, p.var, ValueView::Relationship(made.1)),
                    made.0,
                    given,
                    m.spent,
                );
            }
        }
    }
}

pub(crate) proof fn lemma_path_made(
    p: BoundPathPatternView,
    row: Map<u32, ValueView>,
    o: OverlayView,
    given: Given,
    spent: Spent,
)
    ensures
        ({
            let x = create::path_made(p, row, o, given, spent);
            budget_laws::follows(spent.budget, x.spent.budget, x.result is Ok)
        }),
{
    reveal(create::path_made);
    let n = create::node_made(p.start, row, o, given, spent);
    lemma_node_made(p.start, row, o, given, spent);
    if let Ok((start, row, o)) = n.result {
        let path = PathValueView { nodes: seq![start], rels: seq![] };
        lemma_steps_made(p.steps, 0, start, path, row, o, given, n.spent);
    }
}

pub(crate) proof fn lemma_paths_made(
    patterns: Seq<BoundPathPatternView>,
    k: int,
    row: Map<u32, ValueView>,
    o: OverlayView,
    given: Given,
    spent: Spent,
)
    ensures
        ({
            let x = create::paths_made(patterns, k, row, o, given, spent);
            &&& budget_laws::follows(spent.budget, x.spent.budget, x.result is Ok)
            &&& !(k < 0 || k >= patterns.len()) ==> x.spent.budget.polled >= create::path_made(
                patterns[k],
                row,
                o,
                given,
                spent,
            ).spent.budget.polled
        }),
    decreases patterns.len() - k,
{
    reveal(create::paths_made);
    if !(k < 0 || k >= patterns.len()) {
        let m = create::path_made(patterns[k], row, o, given, spent);
        lemma_path_made(patterns[k], row, o, given, spent);
        if let Ok((row, o)) = m.result {
            lemma_paths_made(patterns, k + 1, row, o, given, m.spent);
        }
    }
}

pub(crate) proof fn lemma_created(
    rows: Seq<Map<u32, ValueView>>,
    i: int,
    patterns: Seq<BoundPathPatternView>,
    o: OverlayView,
    given: Given,
    spent: Spent,
    out: Seq<Map<u32, ValueView>>,
)
    ensures
        ({
            let x = create::created_from(rows, i, patterns, o, given, spent, out);
            &&& budget_laws::follows(spent.budget, x.spent.budget, x.result is Ok)
            &&& !(i < 0 || i >= rows.len()) ==> x.spent.budget.polled >= create::paths_made(
                patterns,
                0,
                rows[i],
                o,
                given,
                spent,
            ).spent.budget.polled
        }),
    decreases rows.len() - i,
{
    reveal(create::created_from);
    if !(i < 0 || i >= rows.len()) {
        let m = create::paths_made(patterns, 0, rows[i], o, given, spent);
        lemma_paths_made(patterns, 0, rows[i], o, given, spent);
        if let Ok((row, o)) = m.result {
            lemma_created(rows, i + 1, patterns, o, given, m.spent, out.push(row));
        }
    }
}

pub(crate) proof fn lemma_item_set(
    item: BoundSetItemView,
    row: Map<u32, ValueView>,
    o: OverlayView,
    given: Given,
    spent: Spent,
)
    ensures
        ({
            let x = change::item_set(item, row, o, given, spent);
            budget_laws::follows(spent.budget, x.spent.budget, x.result is Ok)
        }),
{
    reveal(change::item_set);
    let env = given.env(o.graph());
    match item {
        BoundSetItemView::Property { value, .. } => lemma_value(value, row, env, spent),
        BoundSetItemView::Replace { value, .. } => lemma_value(value, row, env, spent),
        BoundSetItemView::Merge { value, .. } => lemma_value(value, row, env, spent),
        BoundSetItemView::AddLabels { .. } => {},
    }
}

pub(crate) proof fn lemma_items_set(
    items: Seq<BoundSetItemView>,
    k: int,
    row: Map<u32, ValueView>,
    o: OverlayView,
    given: Given,
    spent: Spent,
)
    ensures
        ({
            let x = change::items_set(items, k, row, o, given, spent);
            &&& budget_laws::follows(spent.budget, x.spent.budget, x.result is Ok)
            &&& !(k < 0 || k >= items.len()) ==> x.spent.budget.polled >= change::item_set(
                items[k],
                refresh::refreshed_row(row, o),
                o,
                given,
                spent,
            ).spent.budget.polled
        }),
    decreases items.len() - k,
{
    reveal(change::items_set);
    let row = refresh::refreshed_row(row, o);
    if !(k < 0 || k >= items.len()) {
        let c = change::item_set(items[k], row, o, given, spent);
        lemma_item_set(items[k], row, o, given, spent);
        if let Ok(o) = c.result {
            lemma_items_set(items, k + 1, row, o, given, c.spent);
        }
    }
}

pub(crate) proof fn lemma_set(
    rows: Seq<Map<u32, ValueView>>,
    i: int,
    items: Seq<BoundSetItemView>,
    o: OverlayView,
    given: Given,
    spent: Spent,
    out: Seq<Map<u32, ValueView>>,
)
    ensures
        ({
            let x = change::set_from(rows, i, items, o, given, spent, out);
            &&& budget_laws::follows(spent.budget, x.spent.budget, x.result is Ok)
            &&& !(i < 0 || i >= rows.len()) ==> x.spent.budget.polled >= change::items_set(
                items,
                0,
                rows[i],
                o,
                given,
                spent,
            ).spent.budget.polled
        }),
    decreases rows.len() - i,
{
    reveal(change::set_from);
    if !(i < 0 || i >= rows.len()) {
        let m = change::items_set(items, 0, rows[i], o, given, spent);
        lemma_items_set(items, 0, rows[i], o, given, spent);
        if let Ok((row, o)) = m.result {
            lemma_set(rows, i + 1, items, o, given, m.spent, out.push(row));
        }
    }
}

pub(crate) proof fn lemma_targets(
    targets: Seq<BoundExprView>,
    k: int,
    row: Map<u32, ValueView>,
    env: Env,
    spent: Spent,
    d: Doomed,
)
    ensures
        ({
            let x = delete::targets_marked(targets, k, row, env, spent, d);
            &&& budget_laws::follows(spent.budget, x.spent.budget, x.result is Ok)
            &&& !(k < 0 || k >= targets.len()) ==> x.spent.budget.polled >= semantics::value_of(
                targets[k],
                row,
                env,
                spent,
            ).spent.budget.polled
        }),
    decreases targets.len() - k,
{
    reveal(delete::targets_marked);
    if !(k < 0 || k >= targets.len()) {
        let x = semantics::value_of(targets[k], row, env, spent);
        lemma_value(targets[k], row, env, spent);
        if let Ok(v) = x.result {
            if let Ok(d) = delete::doomed_with(d, v, semantics::bound_place(targets[k])) {
                lemma_targets(targets, k + 1, row, env, x.spent, d);
            }
        }
    }
}

pub(crate) proof fn lemma_marked(
    targets: Seq<BoundExprView>,
    rows: Seq<Map<u32, ValueView>>,
    i: int,
    env: Env,
    spent: Spent,
    d: Doomed,
)
    ensures
        ({
            let x = delete::rows_marked(targets, rows, i, env, spent, d);
            &&& budget_laws::follows(spent.budget, x.spent.budget, x.result is Ok)
            &&& !(i < 0 || i >= rows.len()) ==> x.spent.budget.polled >= delete::targets_marked(
                targets,
                0,
                rows[i],
                env,
                spent,
                d,
            ).spent.budget.polled
        }),
    decreases rows.len() - i,
{
    reveal(delete::rows_marked);
    if !(i < 0 || i >= rows.len()) {
        let m = delete::targets_marked(targets, 0, rows[i], env, spent, d);
        lemma_targets(targets, 0, rows[i], env, spent, d);
        if let Ok(d) = m.result {
            lemma_marked(targets, rows, i + 1, env, m.spent, d);
        }
    }
}

pub(crate) proof fn lemma_deleted(
    detach: bool,
    targets: Seq<BoundExprView>,
    span: Span,
    rows: Seq<Map<u32, ValueView>>,
    o: OverlayView,
    given: Given,
    spent: Spent,
)
    ensures
        ({
            let x = delete::deleted(detach, targets, span, rows, o, given, spent);
            budget_laws::follows(spent.budget, x.spent.budget, x.result is Ok)
        }),
{
    reveal(delete::deleted);
    lemma_marked(targets, rows, 0, given.env(o.graph()), spent, Doomed::nothing());
}

pub(crate) proof fn lemma_matches_set(
    states: Seq<Matched>,
    i: int,
    items: Seq<BoundSetItemView>,
    o: OverlayView,
    given: Given,
    spent: Spent,
    out: Seq<Map<u32, ValueView>>,
)
    ensures
        ({
            let x = merge::matches_set(states, i, items, o, given, spent, out);
            &&& budget_laws::follows(spent.budget, x.spent.budget, x.result is Ok)
            &&& !(i < 0 || i >= states.len()) ==> ({
                let m = change::items_set(items, 0, states[i].row, o, given, spent);
                &&& x.spent.budget.polled >= m.spent.budget.polled
                &&& m.result is Ok
                        ==> x.spent.budget.polled >= m.spent.budget.row(out.len()).budget.polled
            })
        }),
    decreases states.len() - i,
{
    reveal(merge::matches_set);
    if !(i < 0 || i >= states.len()) {
        let m = change::items_set(items, 0, states[i].row, o, given, spent);
        lemma_items_set(items, 0, states[i].row, o, given, spent);
        if let Ok((row, o)) = m.result {
            let c = m.spent.budget.row(out.len());
            budget_laws::charges_follow(m.spent.budget, 0, out.len());
            if c.result is Ok {
                let after = semantics::with_budget(m.spent, c.budget);
                lemma_matches_set(states, i + 1, items, o, given, after, out.push(row));
            }
        }
    }
}

pub(crate) proof fn lemma_row_merged(
    row: Map<u32, ValueView>,
    pattern: BoundPathPatternView,
    on_create: Seq<BoundSetItemView>,
    on_match: Seq<BoundSetItemView>,
    o: OverlayView,
    given: Given,
    spent: Spent,
    out: Seq<Map<u32, ValueView>>,
)
    ensures
        ({
            let x = merge::row_merged(row, pattern, on_create, on_match, o, given, spent, out);
            budget_laws::follows(spent.budget, x.spent.budget, x.result is Ok)
        }),
{
    reveal(merge::row_merged);
    let start = seq![Matched { row, used: seq![] }];
    let env = given.env(o.graph());
    let found = walk::continued_from(pattern, start, 0, env, spent, seq![]);
    lemma_continued(pattern, start, 0, env, spent, seq![]);
    if let Ok(states) = found.result {
        if states.len() > 0 {
            lemma_matches_set(states, 0, on_match, o, given, found.spent, out);
        } else {
            let m = create::path_made(pattern, row, o, given, found.spent);
            lemma_path_made(pattern, row, o, given, found.spent);
            if let Ok((row, o)) = m.result {
                let one = seq![Matched { row, used: seq![] }];
                lemma_matches_set(one, 0, on_create, o, given, m.spent, out);
            }
        }
    }
}

pub(crate) proof fn lemma_merged(
    rows: Seq<Map<u32, ValueView>>,
    i: int,
    pattern: BoundPathPatternView,
    on_create: Seq<BoundSetItemView>,
    on_match: Seq<BoundSetItemView>,
    o: OverlayView,
    given: Given,
    spent: Spent,
    out: Seq<Map<u32, ValueView>>,
)
    ensures
        ({
            let x = merge::merged_from(rows, i, pattern, on_create, on_match, o, given, spent, out);
            &&& budget_laws::follows(spent.budget, x.spent.budget, x.result is Ok)
            &&& !(i < 0 || i >= rows.len()) ==> x.spent.budget.polled >= merge::row_merged(
                rows[i],
                pattern,
                on_create,
                on_match,
                o,
                given,
                spent,
                out,
            ).spent.budget.polled
        }),
    decreases rows.len() - i,
{
    reveal(merge::merged_from);
    if !(i < 0 || i >= rows.len()) {
        let m = merge::row_merged(rows[i], pattern, on_create, on_match, o, given, spent, out);
        lemma_row_merged(rows[i], pattern, on_create, on_match, o, given, spent, out);
        if let Ok((out, o)) = m.result {
            lemma_merged(rows, i + 1, pattern, on_create, on_match, o, given, m.spent, out);
        }
    }
}

// --- Queries ----------------------------------------------------------------------------------------

pub(crate) proof fn lemma_clause(
    clause: BoundClauseView,
    last: bool,
    s: Progress,
    given: Given,
    world: World,
    spent: Spent,
)
    ensures
        ({
            let x = run::clause_run(clause, last, s, given, world, spent);
            &&& budget_laws::follows(spent.budget, x.spent.budget, x.result is Ok)
            &&& s.output.len() <= spent.budget.limits.max_result_rows ==> (
                x.result matches Ok(next) ==> next.output.len() <= spent.budget.limits.max_result_rows
            )
        }),
{
    reveal(run::clause_run);
    let env = given.env(s.overlay.graph());
    match clause {
        BoundClauseView::Match { optional, patterns, at_ref, where_clause, span } => {
            if let Ok(graph) = run::graph_for(at_ref, span, s.overlay, given, world) {
                lemma_matched(
                    s.rows,
                    0,
                    optional,
                    patterns,
                    where_clause,
                    given.env(graph),
                    spent,
                    seq![],
                );
            }
        },
        BoundClauseView::Unwind { expr, alias, span } => {
            lemma_unwound(s.rows, 0, expr, alias, span, env, spent, seq![]);
        },
        BoundClauseView::With(p) => {
            row_laws::projections_stay_within_the_row_cap(p, true, s.rows, env, spent);
        },
        BoundClauseView::Return(p) => {
            row_laws::projections_stay_within_the_row_cap(p, false, s.rows, env, spent);
        },
        BoundClauseView::Call { procedure, args, yields, where_clause, span } => {
            lemma_called(
                s.rows,
                0,
                procedure,
                args,
                yields,
                where_clause,
                span,
                world.outcome,
                env,
                spent,
                seq![],
            );
        },
        BoundClauseView::Create { patterns, span } => {
            lemma_created(s.rows, 0, patterns, s.overlay, given, spent, seq![]);
        },
        BoundClauseView::SetItems { items, span } => {
            lemma_set(s.rows, 0, items, s.overlay, given, spent, seq![]);
        },
        BoundClauseView::Remove { items, span } => {},
        BoundClauseView::Delete { detach, targets, span } => {
            lemma_deleted(detach, targets, span, s.rows, s.overlay, given, spent);
        },
        BoundClauseView::Merge { pattern, on_create, on_match, span } => {
            lemma_merged(
                s.rows,
                0,
                pattern,
                on_create,
                on_match,
                s.overlay,
                given,
                spent,
                seq![],
            );
        },
    }
}

pub(crate) proof fn lemma_ran(
    clauses: Seq<BoundClauseView>,
    k: int,
    s: Progress,
    given: Given,
    world: World,
    spent: Spent,
)
    ensures
        ({
            let x = run::ran_from(clauses, k, s, given, world, spent);
            &&& budget_laws::follows(spent.budget, x.spent.budget, x.result is Ok)
            &&& s.output.len() <= spent.budget.limits.max_result_rows ==> (
                x.result matches Ok(next) ==> next.output.len() <= spent.budget.limits.max_result_rows
            )
            &&& !(k < 0 || k >= clauses.len()) ==> x.spent.budget.polled >= run::clause_run(
                clauses[k],
                k == clauses.len() - 1,
                s,
                given,
                world,
                spent,
            ).spent.budget.polled
        }),
    decreases clauses.len() - k,
{
    reveal(run::ran_from);
    if !(k < 0 || k >= clauses.len()) {
        let last = k == clauses.len() - 1;
        let r = run::clause_run(clauses[k], last, s, given, world, spent);
        lemma_clause(clauses[k], last, s, given, world, spent);
        if let Ok(next) = r.result {
            lemma_ran(clauses, k + 1, next, given, world, r.spent);
        }
    }
}

/// A query that succeeds has stayed within its limits: its work and its
/// expansions are within their caps, and its output has no more rows than the
/// cap allows. Whatever it comes to, its limits are those it was given.
pub proof fn queries_stay_within_their_limits(
    query: BoundQueryView,
    base: GraphView,
    given: Given,
    world: World,
    limits: QueryLimits,
)
    ensures
        ({
            let x = run::query_run(query, base, given, world, run::fresh(limits));
            let spent = x.spent.budget;
            &&& spent.limits == limits
            &&& x.result matches Ok(end) ==> {
                &&& spent.work <= limits.max_work_units
                &&& spent.expansion <= limits.max_expansion_steps
                &&& run::result_of(end).rows.len() <= limits.max_result_rows
            }
        }),
{
    let start = run::fresh(limits);
    lemma_ran(query.clauses, 0, run::at_the_start(base), given, world, start);
}

// --- Reading ----------------------------------------------------------------------------------------

/// Whether a clause only reads.
pub open spec fn only_reads(clause: BoundClauseView) -> bool {
    clause is Match || clause is Unwind || clause is With || clause is Return || clause is Call
}

pub(crate) proof fn lemma_read(
    clauses: Seq<BoundClauseView>,
    k: int,
    s: Progress,
    given: Given,
    world: World,
    spent: Spent,
)
    requires
        forall|i: int| 0 <= i < clauses.len() ==> only_reads(#[trigger] clauses[i]),
    ensures
        run::ran_from(clauses, k, s, given, world, spent).result matches Ok(end) ==> end.overlay
            == s.overlay,
    decreases clauses.len() - k,
{
    reveal(run::ran_from);
    if !(k < 0 || k >= clauses.len()) {
        let last = k == clauses.len() - 1;
        let r = run::clause_run(clauses[k], last, s, given, world, spent);
        if let Ok(next) = r.result {
            assert(next.overlay == s.overlay) by {
                reveal(run::clause_run);
                assert(only_reads(clauses[k]));
            }
            lemma_read(clauses, k + 1, next, given, world, r.spent);
        }
    }
}

/// A query without write clauses writes nothing: its side effects are all zero
/// and its net effect on the graph is empty.
pub proof fn reading_writes_nothing(
    query: BoundQueryView,
    base: GraphView,
    given: Given,
    world: World,
    spent: Spent,
)
    requires
        forall|i: int| 0 <= i < query.clauses.len() ==> only_reads(#[trigger] query.clauses[i]),
    ensures
        run::query_run(query, base, given, world, spent).result matches Ok(end) ==> {
            &&& run::result_of(end).stats == overlay::no_writes()
            &&& end.overlay.net().upserted_nodes.len() == 0
            &&& end.overlay.net().upserted_rels.len() == 0
            &&& end.overlay.net().deleted_nodes.len() == 0
            &&& end.overlay.net().deleted_rels.len() == 0
        },
{
    lemma_read(query.clauses, 0, run::at_the_start(base), given, world, spent);
}

// --- Output -----------------------------------------------------------------------------------------

/// Whether every output row has one value for each column.
pub open spec fn is_rectangular(s: Progress) -> bool {
    forall|i: int|
        0 <= i < s.output.len() ==> (#[trigger] s.output[i]).len() == s.columns.len()
}

pub(crate) proof fn lemma_rectangular(
    clauses: Seq<BoundClauseView>,
    k: int,
    s: Progress,
    given: Given,
    world: World,
    spent: Spent,
)
    requires
        is_rectangular(s),
    ensures
        run::ran_from(clauses, k, s, given, world, spent).result matches Ok(end) ==> is_rectangular(
            end,
        ),
    decreases clauses.len() - k,
{
    reveal(run::ran_from);
    if !(k < 0 || k >= clauses.len()) {
        let last = k == clauses.len() - 1;
        let r = run::clause_run(clauses[k], last, s, given, world, spent);
        if let Ok(next) = r.result {
            assert(is_rectangular(next)) by {
                reveal(run::clause_run);
            }
            lemma_rectangular(clauses, k + 1, next, given, world, r.spent);
        }
    }
}

/// Every row of a result has one value for each column.
pub proof fn results_are_rectangular(
    query: BoundQueryView,
    base: GraphView,
    given: Given,
    world: World,
    spent: Spent,
    i: int,
)
    requires
        run::query_run(query, base, given, world, spent).result is Ok,
        0 <= i < run::result_of(
            run::query_run(query, base, given, world, spent).result->Ok_0,
        ).rows.len(),
    ensures
        ({
            let result = run::result_of(
                run::query_run(query, base, given, world, spent).result->Ok_0,
            );
            result.rows[i].len() == result.columns.len()
        }),
{
    lemma_rectangular(query.clauses, 0, run::at_the_start(base), given, world, spent);
}

} // verus!
