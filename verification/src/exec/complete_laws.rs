//! No match is missed: where a walk through the graph meets a pattern, matching finds it.

use vstd::prelude::*;

use crate::bind::bound::{BoundNodePatternView, BoundPathPatternView, BoundRelPatternView};
use crate::exec::fault::ExecErrorView;
use crate::exec::graph_laws;
use crate::exec::pattern_laws::{self, Way};
use crate::exec::semantics::{Env, Spent};
use crate::exec::source;
use crate::exec::value::{NodeValueView, PathValueView, ValueView};
use crate::exec::walk::{self, Matched};

verus! {

/// Whether a pattern asks for no properties and each of its steps is one relationship, with
/// a variable of its own.
pub open spec fn is_simple(pattern: BoundPathPatternView) -> bool {
    &&& pattern.start.properties is None
    &&& forall|k: int|
        0 <= k < pattern.steps.len() ==> {
            &&& (#[trigger] pattern.steps[k]).0.properties is None
            &&& pattern.steps[k].0.var_length is None
            &&& pattern.steps[k].1.properties is None
            &&& pattern.steps[k].0.var is Some ==> pattern.steps[k].0.var != pattern.steps[k].1.var
        }
}

/// Whether a way meets a step behind a match: its relationship is not used yet and is the
/// one that the row has for the step's variable, if it has one; its node carries the
/// labels and is the one that the row has.
pub open spec fn may_go(
    step: (BoundRelPatternView, BoundNodePatternView),
    m: Matched,
    way: Way,
) -> bool {
    &&& !m.used.contains(way.0.id)
    &&& step.0.var matches Some(v) ==> m.row.dom().contains(v.0) ==> (
    m.row[v.0] matches ValueView::Relationship(r) && r.id == way.0.id)
    &&& step.1.var matches Some(v) ==> m.row.dom().contains(v.0) ==> (
    m.row[v.0] matches ValueView::Node(n) && n.id == way.1.id)
    &&& forall|i: int|
        0 <= i < step.1.labels.len() ==> way.1.labels.contains(#[trigger] step.1.labels[i])
}

/// The match behind a way: its relationship is used, and variables that the row did not
/// have are bound.
pub open spec fn gone(
    step: (BoundRelPatternView, BoundNodePatternView),
    m: Matched,
    way: Way,
) -> Matched {
    let with_rel = match step.0.var {
        Some(v) => if m.row.dom().contains(v.0) {
            m.row
        } else {
            m.row.insert(v.0, ValueView::Relationship(way.0))
        },
        None => m.row,
    };
    Matched {
        row: match step.1.var {
            Some(v) => if with_rel.dom().contains(v.0) {
                with_rel
            } else {
                with_rel.insert(v.0, ValueView::Node(way.1))
            },
            None => with_rel,
        },
        used: m.used.push(way.0.id),
    }
}

/// Whether a walk from a node meets the steps from `at` on.
pub open spec fn may_walk(
    pattern: BoundPathPatternView,
    at: int,
    from: NodeValueView,
    m: Matched,
    walk: Seq<Way>,
    env: Env,
) -> bool
    decreases walk.len(),
{
    if walk.len() == 0 {
        at == pattern.steps.len()
    } else {
        &&& 0 <= at < pattern.steps.len()
        &&& (env.graph.expand)(
            from.id,
            pattern.steps[at].0.direction,
            pattern.steps[at].0.types,
        ).contains(walk[0])
        &&& may_go(pattern.steps[at], m, walk[0])
        &&& may_walk(
            pattern,
            at + 1,
            walk[0].1,
            gone(pattern.steps[at], m, walk[0]),
            walk.skip(1),
            env,
        )
    }
}

/// The match at the end of a walk.
pub open spec fn at_the_end(
    pattern: BoundPathPatternView,
    at: int,
    m: Matched,
    path: PathValueView,
    walk: Seq<Way>,
) -> Matched
    decreases walk.len(),
{
    if walk.len() == 0 {
        Matched {
            row: match pattern.path_var {
                Some(v) => m.row.insert(v.0, ValueView::Path(path)),
                None => m.row,
            },
            used: m.used,
        }
    } else {
        at_the_end(
            pattern,
            at + 1,
            gone(pattern.steps[at], m, walk[0]),
            PathValueView { nodes: path.nodes.push(walk[0].1), rels: path.rels.push(walk[0].0) },
            walk.skip(1),
        )
    }
}

proof fn lemma_fits(
    step: (BoundRelPatternView, BoundNodePatternView),
    way: Way,
    m: Matched,
    env: Env,
    spent: Spent,
)
    requires
        step.0.properties is None,
        step.1.properties is None,
        step.0.var is Some ==> step.0.var != step.1.var,
        may_go(step, m, way),
    ensures
        walk::way_fits(step.0, Some(step.1), way, m, env, spent).result matches Ok(b) ==> b,
        walk::admits_rel(m.row, step.0.var, way.0),
        walk::admits_node(
            walk::bound_fresh(m.row, step.0.var, ValueView::Relationship(way.0)),
            step.1.var,
            way.1,
        ),
        gone(step, m, way) == (Matched {
            row: walk::bound_fresh(
                walk::bound_fresh(m.row, step.0.var, ValueView::Relationship(way.0)),
                step.1.var,
                ValueView::Node(way.1),
            ),
            used: m.used.push(way.0.id),
        }),
{
    reveal(walk::way_fits);
    reveal(walk::node_fits);
    reveal(walk::properties_fit);
    assert(source::carries(way.1, step.1.labels));
}

proof fn lemma_walked(
    pattern: BoundPathPatternView,
    at: int,
    from: NodeValueView,
    m: Matched,
    path: PathValueView,
    env: Env,
    spent: Spent,
    found: Seq<Matched>,
    walk: Seq<Way>,
)
    requires
        is_simple(pattern),
        0 <= at <= pattern.steps.len(),
        may_walk(pattern, at, from, m, walk, env),
    ensures
        walk::walked(pattern, at, from, m, path, env, spent, found).result matches Ok(all)
            ==> all.contains(at_the_end(pattern, at, m, path, walk)),
    decreases pattern.steps.len() - at, 1int, 0int,
{
    reveal(walk::walked);
    reveal(walk::walked_over);
    reveal(walk::hopped);
    reveal(walk::hopped_over);
    if walk.len() == 0 {
        let end = at_the_end(pattern, at, m, path, walk);
        assert(found.push(end)[found.len() as int] == end);
    } else {
        let ways = (env.graph.expand)(
            from.id,
            pattern.steps[at].0.direction,
            pattern.steps[at].0.types,
        );
        let j = ways.index_of(walk[0]);
        assert(pattern.steps[at].0.var_length is None);
        lemma_over(pattern, at, from, 0, m, path, env, spent, found, walk, j);
    }
}

proof fn lemma_over(
    pattern: BoundPathPatternView,
    at: int,
    from: NodeValueView,
    i: int,
    m: Matched,
    path: PathValueView,
    env: Env,
    spent: Spent,
    found: Seq<Matched>,
    walk: Seq<Way>,
    j: int,
)
    requires
        is_simple(pattern),
        0 <= at < pattern.steps.len(),
        walk.len() > 0,
        may_walk(pattern, at, from, m, walk, env),
        0 <= i <= j < (env.graph.expand)(
            from.id,
            pattern.steps[at].0.direction,
            pattern.steps[at].0.types,
        ).len(),
        (env.graph.expand)(
            from.id,
            pattern.steps[at].0.direction,
            pattern.steps[at].0.types,
        )[j] == walk[0],
    ensures
        walk::walked_over(
            pattern,
            at,
            (env.graph.expand)(
                from.id,
                pattern.steps[at].0.direction,
                pattern.steps[at].0.types,
            ),
            i,
            m,
            path,
            env,
            spent,
            found,
        ).result matches Ok(all) ==> all.contains(at_the_end(pattern, at, m, path, walk)),
    decreases pattern.steps.len() - at, 0int, j - i,
{
    reveal(walk::walked);
    reveal(walk::walked_over);
    reveal(walk::hopped);
    reveal(walk::hopped_over);
    let step = pattern.steps[at];
    let ways = (env.graph.expand)(from.id, step.0.direction, step.0.types);
    let t = walk::way_fits(step.0, Some(step.1), ways[i], m, env, spent);
    let (rel, node) = ways[i];
    let with_rel = walk::bound_fresh(m.row, step.0.var, ValueView::Relationship(rel));
    let next = Matched {
        row: walk::bound_fresh(with_rel, step.1.var, ValueView::Node(node)),
        used: m.used.push(rel.id),
    };
    let on = walk::longer(path, ways[i]);
    let w = walk::walked(pattern, at + 1, node, next, on, env, t.spent, found);
    if i < j {
        lemma_over(pattern, at, from, i + 1, m, path, env, t.spent, found, walk, j);
        if let Ok(more) = w.result {
            lemma_over(pattern, at, from, i + 1, m, path, env, w.spent, more, walk, j);
        }
    } else {
        lemma_fits(step, walk[0], m, env, spent);
        lemma_walked(pattern, at + 1, node, next, on, env, t.spent, found, walk.skip(1));
        if let Ok(more) = w.result {
            let end = at_the_end(pattern, at, m, path, walk);
            assert(end == at_the_end(pattern, at + 1, next, on, walk.skip(1)));
            pattern_laws::lemma_over_keeps(
                pattern,
                at,
                from,
                i + 1,
                m,
                path,
                env,
                w.spent,
                more,
                end,
            );
        }
    }
}

/// Whether a pattern may start at a node behind a match.
pub open spec fn may_start(
    pattern: BoundPathPatternView,
    m: Matched,
    n: NodeValueView,
    env: Env,
) -> bool {
    &&& forall|i: int|
        0 <= i < pattern.start.labels.len() ==> n.labels.contains(
            #[trigger] pattern.start.labels[i],
        )
    &&& match pattern.start.var {
        Some(v) => if m.row.dom().contains(v.0) {
            m.row[v.0] == ValueView::Node(n)
        } else {
            env.graph.nodes.contains(n)
        },
        None => env.graph.nodes.contains(n),
    }
}

/// The match with the first node of a pattern bound.
pub open spec fn started(pattern: BoundPathPatternView, m: Matched, n: NodeValueView) -> Matched {
    Matched {
        row: match pattern.start.var {
            Some(v) => m.row.insert(v.0, ValueView::Node(n)),
            None => m.row,
        },
        used: m.used,
    }
}

proof fn lemma_anchored(
    pattern: BoundPathPatternView,
    i: int,
    m: Matched,
    env: Env,
    spent: Spent,
    found: Seq<Matched>,
    walk: Seq<Way>,
    j: int,
)
    requires
        is_simple(pattern),
        0 <= i <= j < walk::anchors_of(pattern.start, m.row, env.graph).len(),
        ({
            let n = walk::anchors_of(pattern.start, m.row, env.graph)[j];
            may_start(pattern, m, n, env) && may_walk(
                pattern,
                0,
                n,
                started(pattern, m, n),
                walk,
                env,
            )
        }),
    ensures
        ({
            let anchors = walk::anchors_of(pattern.start, m.row, env.graph);
            walk::anchored_from(pattern, anchors, i, m, env, spent, found).result matches Ok(all)
                ==> all.contains(
                at_the_end(
                    pattern,
                    0,
                    started(pattern, m, anchors[j]),
                    pattern_laws::path_at(anchors[j]),
                    walk,
                ),
            )
        }),
    decreases j - i,
{
    reveal(walk::anchored_from);
    let anchors = walk::anchors_of(pattern.start, m.row, env.graph);
    let t = walk::node_fits(anchors[i], pattern.start, m.row, env, spent);
    let n = anchors[i];
    let next = started(pattern, m, n);
    let path = pattern_laws::path_at(n);
    let w = walk::walked(pattern, 0, n, next, path, env, t.spent, found);
    if i < j {
        lemma_anchored(pattern, i + 1, m, env, t.spent, found, walk, j);
        if let Ok(more) = w.result {
            lemma_anchored(pattern, i + 1, m, env, w.spent, more, walk, j);
        }
    } else {
        assert(t.result == Ok::<bool, ExecErrorView>(true)) by {
            reveal(walk::node_fits);
            reveal(walk::properties_fit);
            assert(source::carries(n, pattern.start.labels));
        }
        lemma_walked(pattern, 0, n, next, path, env, t.spent, found, walk);
        if let Ok(more) = w.result {
            let end = at_the_end(pattern, 0, next, path, walk);
            pattern_laws::lemma_anchored_keeps(pattern, i + 1, m, env, w.spent, more, end);
        }
    }
}

proof fn lemma_continued_keeps(
    pattern: BoundPathPatternView,
    states: Seq<Matched>,
    i: int,
    env: Env,
    spent: Spent,
    found: Seq<Matched>,
    x: Matched,
)
    requires
        0 <= i <= states.len(),
        found.contains(x),
    ensures
        walk::continued_from(pattern, states, i, env, spent, found).result matches Ok(all)
            ==> all.contains(x),
    decreases states.len() - i,
{
    reveal(walk::continued_from);
    if i < states.len() {
        let anchors = walk::anchors_of(pattern.start, states[i].row, env.graph);
        let w = walk::anchored_from(pattern, anchors, 0, states[i], env, spent, found);
        pattern_laws::lemma_anchored_keeps(pattern, 0, states[i], env, spent, found, x);
        if let Ok(more) = w.result {
            lemma_continued_keeps(pattern, states, i + 1, env, w.spent, more, x);
        }
    }
}

proof fn lemma_continued(
    pattern: BoundPathPatternView,
    states: Seq<Matched>,
    i: int,
    env: Env,
    spent: Spent,
    found: Seq<Matched>,
    walk: Seq<Way>,
    k: int,
    j: int,
)
    requires
        is_simple(pattern),
        0 <= i <= k < states.len(),
        0 <= j < walk::anchors_of(pattern.start, states[k].row, env.graph).len(),
        ({
            let n = walk::anchors_of(pattern.start, states[k].row, env.graph)[j];
            may_start(pattern, states[k], n, env) && may_walk(
                pattern,
                0,
                n,
                started(pattern, states[k], n),
                walk,
                env,
            )
        }),
    ensures
        ({
            let n = walk::anchors_of(pattern.start, states[k].row, env.graph)[j];
            walk::continued_from(pattern, states, i, env, spent, found).result matches Ok(all)
                ==> all.contains(
                at_the_end(
                    pattern,
                    0,
                    started(pattern, states[k], n),
                    pattern_laws::path_at(n),
                    walk,
                ),
            )
        }),
    decreases k - i,
{
    reveal(walk::continued_from);
    let anchors = walk::anchors_of(pattern.start, states[i].row, env.graph);
    let w = walk::anchored_from(pattern, anchors, 0, states[i], env, spent, found);
    if i < k {
        if let Ok(more) = w.result {
            lemma_continued(pattern, states, i + 1, env, w.spent, more, walk, k, j);
        }
    } else {
        lemma_anchored(pattern, 0, states[i], env, spent, found, walk, j);
        if let Ok(more) = w.result {
            let n = anchors[j];
            let end = at_the_end(
                pattern,
                0,
                started(pattern, states[k], n),
                pattern_laws::path_at(n),
                walk,
            );
            lemma_continued_keeps(pattern, states, i + 1, env, w.spent, more, end);
        }
    }
}

/// Where a walk starts at a node that a pattern may start at and meets its steps, the match
/// at its end is found.
pub proof fn no_match_is_missed(
    pattern: BoundPathPatternView,
    states: Seq<Matched>,
    env: Env,
    spent: Spent,
    k: int,
    n: NodeValueView,
    walk: Seq<Way>,
)
    requires
        is_simple(pattern),
        0 <= k < states.len(),
        may_start(pattern, states[k], n, env),
        may_walk(pattern, 0, n, started(pattern, states[k], n), walk, env),
    ensures
        walk::continued_from(pattern, states, 0, env, spent, seq![]).result matches Ok(all)
            ==> all.contains(
            at_the_end(
                pattern,
                0,
                started(pattern, states[k], n),
                pattern_laws::path_at(n),
                walk,
            ),
        ),
{
    let m = states[k];
    let anchors = walk::anchors_of(pattern.start, m.row, env.graph);
    assert(anchors.contains(n)) by {
        if pattern.start.var is Some && m.row.dom().contains((pattern.start.var->Some_0).0) {
            assert(anchors[0] == n);
        } else {
            let h = env.graph.nodes.index_of(n);
            assert(source::carries(n, pattern.start.labels));
            graph_laws::lemma_all_labelled(
                env.graph.nodes,
                pattern.start.labels,
                env.graph.nodes.len(),
                h,
            );
        }
    }
    let j = anchors.index_of(n);
    lemma_continued(pattern, states, 0, env, spent, seq![], walk, k, j);
}

} // verus!
