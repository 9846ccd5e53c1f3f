//! What patterns match: the model of `MATCH`.
//!
//! Relationship uniqueness: per openCypher, a relationship is traversed at
//! most once per `MATCH` clause (across all its comma patterns and within
//! var-length expansions).

use vstd::prelude::*;

use crate::ast::VarLength;
use crate::bind::bound::{
    BoundExprView, BoundNodePatternView, BoundPathPatternView, BoundRelPatternView, VarId,
};
use crate::exec::compare;
use crate::exec::fault::ExecErrorView;
use crate::exec::operators;
use crate::exec::row;
use crate::exec::semantics::{self, Env, Spent};
use crate::exec::source::{self, GraphView};
use crate::exec::value::{
    EntityIdView, NodeValueView, PathValueView, PropertyMapView, RelValueView, ValueView,
};

verus! {

/// One way of matching so far: the row, and the relationships used up.
pub struct Matched {
    pub row: Map<u32, ValueView>,
    pub used: Seq<EntityIdView>,
}

/// What matching comes to, and what is spent after it.
pub struct Walked {
    pub result: Result<Seq<Matched>, ExecErrorView>,
    pub spent: Spent,
}

/// What a test comes to, and what is spent after it.
pub struct Tested {
    pub result: Result<bool, ExecErrorView>,
    pub spent: Spent,
}

pub open spec fn stopped(e: ExecErrorView, spent: Spent) -> Walked {
    Walked { result: Err(e), spent }
}

/// Whether `actual` has every entry of `wanted`, by openCypher equality.
pub open spec fn has_entries(
    actual: PropertyMapView,
    wanted: Seq<(Seq<char>, ValueView)>,
) -> bool {
    forall|i: int|
        0 <= i < wanted.len() ==> has_entry(actual, #[trigger] wanted[i])
}

pub open spec fn has_entry(actual: PropertyMapView, entry: (Seq<char>, ValueView)) -> bool {
    match actual.lookup(entry.0) {
        Some(have) => compare::equality(have, entry.1) == Some(true),
        None => false,
    }
}

/// Whether an entity's properties satisfy those of a pattern.
#[verifier::opaque]
pub open spec fn properties_fit(
    wanted: Option<BoundExprView>,
    actual: PropertyMapView,
    row: Map<u32, ValueView>,
    env: Env,
    spent: Spent,
) -> Tested {
    match wanted {
        None => Tested { result: Ok(true), spent },
        Some(e) => {
            let x = semantics::evaluated(e, row, env, spent);
            Tested {
                result: match x.result {
                    Err(e) => Err(e),
                    Ok(ValueView::Mapping(m)) => Ok(has_entries(actual, m.entries)),
                    Ok(_) => Ok(false),
                },
                spent: x.spent,
            }
        },
    }
}

/// Whether a variable that the row binds is bound to `node`; bound null
/// matches nothing, an unbound variable anything.
pub open spec fn admits_node(
    row: Map<u32, ValueView>,
    var: Option<VarId>,
    node: NodeValueView,
) -> bool {
    match var {
        None => true,
        Some(v) => !row.dom().contains(v.0) || match row::row_get(row, v) {
            ValueView::Node(bound) => bound.id == node.id,
            _ => false,
        },
    }
}

/// Whether a variable that the row binds is bound to `rel`.
pub open spec fn admits_rel(
    row: Map<u32, ValueView>,
    var: Option<VarId>,
    rel: RelValueView,
) -> bool {
    match var {
        None => true,
        Some(v) => !row.dom().contains(v.0) || match row::row_get(row, v) {
            ValueView::Relationship(bound) => bound.id == rel.id,
            _ => false,
        },
    }
}

/// Whether a node satisfies a node pattern.
#[verifier::opaque]
pub open spec fn node_fits(
    node: NodeValueView,
    pattern: BoundNodePatternView,
    row: Map<u32, ValueView>,
    env: Env,
    spent: Spent,
) -> Tested {
    if !source::carries(node, pattern.labels) || !admits_node(row, pattern.var, node) {
        Tested { result: Ok(false), spent }
    } else {
        properties_fit(pattern.properties, node.properties, row, env, spent)
    }
}

/// The row with a fresh variable bound to `value`; a variable it has keeps its
/// value.
pub open spec fn bound_fresh(
    row: Map<u32, ValueView>,
    var: Option<VarId>,
    value: ValueView,
) -> Map<u32, ValueView> {
    match var {
        None => row,
        Some(v) => if row.dom().contains(v.0) {
            row
        } else {
            row.insert(v.0, value)
        },
    }
}

/// The row with a variable bound to `value`.
pub open spec fn bound_to(
    row: Map<u32, ValueView>,
    var: Option<VarId>,
    value: ValueView,
) -> Map<u32, ValueView> {
    match var {
        None => row,
        Some(v) => row.insert(v.0, value),
    }
}

pub open spec fn rel_list(hops: Seq<RelValueView>) -> ValueView {
    ValueView::List(Seq::new(hops.len(), |i: int| ValueView::Relationship(hops[i])))
}

/// The path one relationship and node longer.
pub open spec fn longer(
    path: PathValueView,
    way: (RelValueView, NodeValueView),
) -> PathValueView {
    PathValueView { nodes: path.nodes.push(way.1), rels: path.rels.push(way.0) }
}

pub open spec fn least_hops(bounds: VarLength) -> u64 {
    match bounds.min {
        Some(n) => n,
        None => 1,
    }
}

pub open spec fn most_hops(bounds: VarLength) -> u64 {
    match bounds.max {
        Some(n) => n,
        None => u64::MAX,
    }
}

/// The matches of the steps from `at` on, walked from `from`, behind `found`.
#[verifier::opaque]
pub open spec fn walked(
    pattern: BoundPathPatternView,
    at: int,
    from: NodeValueView,
    m: Matched,
    path: PathValueView,
    env: Env,
    spent: Spent,
    found: Seq<Matched>,
) -> Walked
    decreases pattern.steps.len() - at, 2int, 0int, 0int, 0int,
{
    if at < 0 || at >= pattern.steps.len() {
        let c = spent.budget.row(found.len());
        let after = semantics::with_budget(spent, c.budget);
        match c.result {
            Err(e) => stopped(e, after),
            Ok(_) => Walked {
                result: Ok(
                    found.push(
                        Matched {
                            row: bound_to(m.row, pattern.path_var, ValueView::Path(path)),
                            used: m.used,
                        },
                    ),
                ),
                spent: after,
            },
        }
    } else {
        let rel = pattern.steps[at].0;
        match rel.var_length {
            None => walked_over(
                pattern,
                at,
                (env.graph.expand)(from.id, rel.direction, rel.types),
                0,
                m,
                path,
                env,
                spent,
                found,
            ),
            Some(bounds) => hopped(
                pattern,
                at,
                from,
                m,
                path,
                seq![],
                least_hops(bounds),
                most_hops(bounds),
                env,
                spent,
                found,
            ),
        }
    }
}

/// The matches that take one of `ways` from `i` on as the step `at`.
#[verifier::opaque]
pub open spec fn walked_over(
    pattern: BoundPathPatternView,
    at: int,
    ways: Seq<(RelValueView, NodeValueView)>,
    i: int,
    m: Matched,
    path: PathValueView,
    env: Env,
    spent: Spent,
    found: Seq<Matched>,
) -> Walked
    decreases pattern.steps.len() - at, 1int, 0int, 0int, ways.len() - i,
{
    if at < 0 || at >= pattern.steps.len() || i < 0 || i >= ways.len() {
        Walked { result: Ok(found), spent }
    } else {
        let (rel_pattern, node_pattern) = pattern.steps[at];
        let (rel, node) = ways[i];
        let t = way_fits(rel_pattern, Some(node_pattern), ways[i], m, env, spent);
        match t.result {
            Err(e) => stopped(e, t.spent),
            Ok(false) => walked_over(pattern, at, ways, i + 1, m, path, env, t.spent, found),
            Ok(true) => {
                let with_rel = bound_fresh(m.row, rel_pattern.var, ValueView::Relationship(rel));
                if admits_rel(m.row, rel_pattern.var, rel) && admits_node(
                    with_rel,
                    node_pattern.var,
                    node,
                ) {
                    let next = Matched {
                        row: bound_fresh(with_rel, node_pattern.var, ValueView::Node(node)),
                        used: m.used.push(rel.id),
                    };
                    let w = walked(
                        pattern,
                        at + 1,
                        node,
                        next,
                        longer(path, ways[i]),
                        env,
                        t.spent,
                        found,
                    );
                    match w.result {
                        Err(e) => w,
                        Ok(all) => walked_over(
                            pattern,
                            at,
                            ways,
                            i + 1,
                            m,
                            path,
                            env,
                            w.spent,
                            all,
                        ),
                    }
                } else {
                    walked_over(pattern, at, ways, i + 1, m, path, env, t.spent, found)
                }
            },
        }
    }
}

/// Whether a way may be taken: it is charged, its relationship is not used up,
/// and it satisfies the relationship pattern and the node pattern, where there
/// is one.
#[verifier::opaque]
pub open spec fn way_fits(
    rel_pattern: BoundRelPatternView,
    node_pattern: Option<BoundNodePatternView>,
    way: (RelValueView, NodeValueView),
    m: Matched,
    env: Env,
    spent: Spent,
) -> Tested {
    let c = spent.budget.hop();
    let after = semantics::with_budget(spent, c.budget);
    match c.result {
        Err(e) => Tested { result: Err(e), spent: after },
        Ok(_) => if m.used.contains(way.0.id) {
            Tested { result: Ok(false), spent: after }
        } else {
            let t = properties_fit(
                rel_pattern.properties,
                way.0.properties,
                m.row,
                env,
                after,
            );
            match (t.result, node_pattern) {
                (Ok(true), Some(n)) => node_fits(way.1, n, m.row, env, t.spent),
                _ => t,
            }
        },
    }
}

/// The matches of a var-length step `at` that has taken `hops` to `from`: at
/// each depth within bounds, try to close on the target node pattern.
#[verifier::opaque]
pub open spec fn hopped(
    pattern: BoundPathPatternView,
    at: int,
    from: NodeValueView,
    m: Matched,
    path: PathValueView,
    hops: Seq<RelValueView>,
    min: u64,
    max: u64,
    env: Env,
    spent: Spent,
    found: Seq<Matched>,
) -> Walked
    decreases pattern.steps.len() - at, 1int, max - hops.len(), 1int, 0int,
{
    if at < 0 || at >= pattern.steps.len() {
        Walked { result: Ok(found), spent }
    } else {
        let (rel_pattern, node_pattern) = pattern.steps[at];
        let t = if hops.len() >= min {
            node_fits(from, node_pattern, m.row, env, spent)
        } else {
            Tested { result: Ok(false), spent }
        };
        match t.result {
            Err(e) => stopped(e, t.spent),
            Ok(close) => {
                let with_rel = bound_to(m.row, rel_pattern.var, rel_list(hops));
                let w = if close && admits_node(with_rel, node_pattern.var, from) {
                    walked(
                        pattern,
                        at + 1,
                        from,
                        Matched {
                            row: bound_fresh(
                                with_rel,
                                node_pattern.var,
                                ValueView::Node(from),
                            ),
                            used: m.used,
                        },
                        path,
                        env,
                        t.spent,
                        found,
                    )
                } else {
                    Walked { result: Ok(found), spent: t.spent }
                };
                match w.result {
                    Err(e) => w,
                    Ok(all) => if hops.len() >= max {
                        w
                    } else {
                        hopped_over(
                            pattern,
                            at,
                            (env.graph.expand)(
                                from.id,
                                rel_pattern.direction,
                                rel_pattern.types,
                            ),
                            0,
                            m,
                            path,
                            hops,
                            min,
                            max,
                            env,
                            w.spent,
                            all,
                        )
                    },
                }
            },
        }
    }
}

/// The matches that take one of `ways` from `i` on as the next hop.
#[verifier::opaque]
pub open spec fn hopped_over(
    pattern: BoundPathPatternView,
    at: int,
    ways: Seq<(RelValueView, NodeValueView)>,
    i: int,
    m: Matched,
    path: PathValueView,
    hops: Seq<RelValueView>,
    min: u64,
    max: u64,
    env: Env,
    spent: Spent,
    found: Seq<Matched>,
) -> Walked
    decreases pattern.steps.len() - at, 1int, max - hops.len(), 0int, ways.len() - i,
{
    if at < 0 || at >= pattern.steps.len() || i < 0 || i >= ways.len() || hops.len() >= max {
        Walked { result: Ok(found), spent }
    } else {
        let t = way_fits(pattern.steps[at].0, None, ways[i], m, env, spent);
        match t.result {
            Err(e) => stopped(e, t.spent),
            Ok(false) => hopped_over(
                pattern,
                at,
                ways,
                i + 1,
                m,
                path,
                hops,
                min,
                max,
                env,
                t.spent,
                found,
            ),
            Ok(true) => {
                let w = hopped(
                    pattern,
                    at,
                    ways[i].1,
                    Matched { row: m.row, used: m.used.push(ways[i].0.id) },
                    longer(path, ways[i]),
                    hops.push(ways[i].0),
                    min,
                    max,
                    env,
                    t.spent,
                    found,
                );
                match w.result {
                    Err(e) => w,
                    Ok(all) => hopped_over(
                        pattern,
                        at,
                        ways,
                        i + 1,
                        m,
                        path,
                        hops,
                        min,
                        max,
                        env,
                        w.spent,
                        all,
                    ),
                }
            },
        }
    }
}

// --- Clauses ----------------------------------------------------------------------------------------

/// What a clause comes to: its rows, and what is spent after it.
pub struct Produced {
    pub result: Result<Seq<Map<u32, ValueView>>, ExecErrorView>,
    pub spent: Spent,
}

/// Where a pattern is anchored: a bound variable pins its leftmost node (bound
/// null or a non-node matches nothing), otherwise all nodes with its labels.
pub open spec fn anchors_of(
    start: BoundNodePatternView,
    row: Map<u32, ValueView>,
    graph: GraphView,
) -> Seq<NodeValueView> {
    match start.var {
        Some(v) => if row.dom().contains(v.0) {
            match row::row_get(row, v) {
                ValueView::Node(n) => seq![n],
                _ => seq![],
            }
        } else {
            source::labelled(graph.nodes, start.labels, graph.nodes.len())
        },
        None => source::labelled(graph.nodes, start.labels, graph.nodes.len()),
    }
}

/// The matches of a pattern that start at one of `anchors` from `i` on.
#[verifier::opaque]
pub open spec fn anchored_from(
    pattern: BoundPathPatternView,
    anchors: Seq<NodeValueView>,
    i: int,
    m: Matched,
    env: Env,
    spent: Spent,
    found: Seq<Matched>,
) -> Walked
    decreases anchors.len() - i,
{
    if i < 0 || i >= anchors.len() {
        Walked { result: Ok(found), spent }
    } else {
        let t = node_fits(anchors[i], pattern.start, m.row, env, spent);
        match t.result {
            Err(e) => stopped(e, t.spent),
            Ok(false) => anchored_from(pattern, anchors, i + 1, m, env, t.spent, found),
            Ok(true) => {
                let w = walked(
                    pattern,
                    0,
                    anchors[i],
                    Matched {
                        row: bound_to(m.row, pattern.start.var, ValueView::Node(anchors[i])),
                        used: m.used,
                    },
                    PathValueView { nodes: seq![anchors[i]], rels: seq![] },
                    env,
                    t.spent,
                    found,
                );
                match w.result {
                    Err(e) => w,
                    Ok(all) => anchored_from(pattern, anchors, i + 1, m, env, w.spent, all),
                }
            },
        }
    }
}

/// The matches of a pattern that go on from one of `states` from `i` on.
#[verifier::opaque]
pub open spec fn continued_from(
    pattern: BoundPathPatternView,
    states: Seq<Matched>,
    i: int,
    env: Env,
    spent: Spent,
    found: Seq<Matched>,
) -> Walked
    decreases states.len() - i,
{
    if i < 0 || i >= states.len() {
        Walked { result: Ok(found), spent }
    } else {
        let w = anchored_from(
            pattern,
            anchors_of(pattern.start, states[i].row, env.graph),
            0,
            states[i],
            env,
            spent,
            found,
        );
        match w.result {
            Err(e) => w,
            Ok(all) => continued_from(pattern, states, i + 1, env, w.spent, all),
        }
    }
}

/// The matches of `patterns` from the `k`-th on, going on from `states`.
#[verifier::opaque]
pub open spec fn patterns_from(
    patterns: Seq<BoundPathPatternView>,
    k: int,
    states: Seq<Matched>,
    env: Env,
    spent: Spent,
) -> Walked
    decreases patterns.len() - k,
{
    if k < 0 || k >= patterns.len() {
        Walked { result: Ok(states), spent }
    } else {
        let w = continued_from(patterns[k], states, 0, env, spent, seq![]);
        match w.result {
            Err(e) => w,
            Ok(next) => patterns_from(patterns, k + 1, next, env, w.spent),
        }
    }
}

/// Whether a predicate, where there is one, is true of a row.
#[verifier::opaque]
pub open spec fn passes(
    predicate: Option<BoundExprView>,
    row: Map<u32, ValueView>,
    env: Env,
    spent: Spent,
) -> Tested {
    match predicate {
        None => Tested { result: Ok(true), spent },
        Some(e) => {
            let x = semantics::evaluated(e, row, env, spent);
            Tested {
                result: match x.result {
                    Err(e) => Err(e),
                    Ok(v) => match operators::truth_of(v, semantics::bound_place(e)) {
                        Err(e) => Err(e),
                        Ok(t) => Ok(t == Some(true)),
                    },
                },
                spent: x.spent,
            }
        },
    }
}

/// Those of `states` from `i` on of whose row `predicate` is true, behind
/// `kept`.
#[verifier::opaque]
pub open spec fn kept_from(
    states: Seq<Matched>,
    i: int,
    predicate: Option<BoundExprView>,
    env: Env,
    spent: Spent,
    kept: Seq<Map<u32, ValueView>>,
) -> Produced
    decreases states.len() - i,
{
    if i < 0 || i >= states.len() {
        Produced { result: Ok(kept), spent }
    } else {
        let t = passes(predicate, states[i].row, env, spent);
        match t.result {
            Err(e) => Produced { result: Err(e), spent: t.spent },
            Ok(b) => kept_from(
                states,
                i + 1,
                predicate,
                env,
                t.spent,
                if b {
                    kept.push(states[i].row)
                } else {
                    kept
                },
            ),
        }
    }
}

/// `rows` from `j` on behind `out`, each charged.
#[verifier::opaque]
pub open spec fn appended_from(
    rows: Seq<Map<u32, ValueView>>,
    j: int,
    out: Seq<Map<u32, ValueView>>,
    spent: Spent,
) -> Produced
    decreases rows.len() - j,
{
    if j < 0 || j >= rows.len() {
        Produced { result: Ok(out), spent }
    } else {
        let c = spent.budget.row(out.len());
        let after = semantics::with_budget(spent, c.budget);
        match c.result {
            Err(e) => Produced { result: Err(e), spent: after },
            Ok(_) => appended_from(rows, j + 1, out.push(rows[j]), after),
        }
    }
}

/// The variables of a pattern's steps, in order.
pub open spec fn step_vars(
    steps: Seq<(BoundRelPatternView, BoundNodePatternView)>,
    n: nat,
) -> Seq<VarId>
    decreases n,
{
    if n == 0 || n > steps.len() {
        seq![]
    } else {
        step_vars(steps, (n - 1) as nat) + one_var(steps[n - 1].0.var) + one_var(
            steps[n - 1].1.var,
        )
    }
}

pub open spec fn one_var(var: Option<VarId>) -> Seq<VarId> {
    match var {
        Some(v) => seq![v],
        None => seq![],
    }
}

/// The variables that patterns mention, in order.
pub open spec fn mentioned(patterns: Seq<BoundPathPatternView>, n: nat) -> Seq<VarId>
    decreases n,
{
    if n == 0 || n > patterns.len() {
        seq![]
    } else {
        let p = patterns[n - 1];
        mentioned(patterns, (n - 1) as nat) + one_var(p.path_var) + one_var(p.start.var)
            + step_vars(p.steps, p.steps.len())
    }
}

/// The row with null for each of the first `n` of `vars` that it does not
/// bind.
pub open spec fn nulled(row: Map<u32, ValueView>, vars: Seq<VarId>, n: nat) -> Map<u32, ValueView>
    decreases n,
{
    if n == 0 || n > vars.len() {
        row
    } else {
        bound_fresh(nulled(row, vars, (n - 1) as nat), Some(vars[n - 1]), ValueView::Null)
    }
}

/// The rows that a `MATCH` makes of one row: its matches, or, where an
/// optional match has none, the row with nulls.
#[verifier::opaque]
pub open spec fn row_matches(
    row: Map<u32, ValueView>,
    optional: bool,
    patterns: Seq<BoundPathPatternView>,
    predicate: Option<BoundExprView>,
    env: Env,
    spent: Spent,
) -> Produced {
    let w = patterns_from(patterns, 0, seq![Matched { row, used: seq![] }], env, spent);
    match w.result {
        Err(e) => Produced { result: Err(e), spent: w.spent },
        Ok(states) => {
            let k = kept_from(states, 0, predicate, env, w.spent, seq![]);
            match k.result {
                Err(e) => k,
                Ok(rows) => if rows.len() == 0 && optional {
                    let vars = mentioned(patterns, patterns.len());
                    Produced { result: Ok(seq![nulled(row, vars, vars.len())]), spent: k.spent }
                } else {
                    k
                },
            }
        },
    }
}

/// The rows that a `MATCH` makes of `rows` from `i` on, behind `out`.
#[verifier::opaque]
pub open spec fn matched_from(
    rows: Seq<Map<u32, ValueView>>,
    i: int,
    optional: bool,
    patterns: Seq<BoundPathPatternView>,
    predicate: Option<BoundExprView>,
    env: Env,
    spent: Spent,
    out: Seq<Map<u32, ValueView>>,
) -> Produced
    decreases rows.len() - i,
{
    if i < 0 || i >= rows.len() {
        Produced { result: Ok(out), spent }
    } else {
        let r = row_matches(rows[i], optional, patterns, predicate, env, spent);
        match r.result {
            Err(e) => r,
            Ok(found) => {
                let a = appended_from(found, 0, out, r.spent);
                match a.result {
                    Err(e) => a,
                    Ok(all) => matched_from(
                        rows,
                        i + 1,
                        optional,
                        patterns,
                        predicate,
                        env,
                        a.spent,
                        all,
                    ),
                }
            },
        }
    }
}

} // verus!
