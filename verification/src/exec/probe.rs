//! Pattern predicates: a relationship pattern used as a boolean.

use vstd::prelude::*;

use crate::bind::bound::{
    self, BoundNodePattern, BoundNodePatternView, BoundPathPattern, BoundRelPattern,
    BoundRelPatternView, VarId,
};
use crate::exec::fault::{ExecError, ExecErrorView};
use crate::exec::row::Row;
use crate::exec::semantics;
use crate::exec::source::{self, GraphSource};
use crate::exec::value::{self, NodeValue, RelValue, Value};

verus! {

// --- Pattern predicates -----------------------------------------------------------------------------

fn rel_pinned(row: &Row, var: Option<VarId>, rel: &RelValue) -> (r: bool)
    ensures
        r == semantics::pins_rel(row@, var, rel@),
{
    match var {
        None => true,
        Some(v) => match row.get(v) {
            Value::Relationship(bound) => bound.id.same(&rel.id),
            _ => false,
        },
    }
}

fn node_pinned(row: &Row, var: Option<VarId>, node: &NodeValue) -> (r: bool)
    ensures
        r == semantics::pins_node(row@, var, node@),
{
    match var {
        None => true,
        Some(v) => match row.get(v) {
            Value::Node(bound) => bound.id.same(&node.id),
            _ => false,
        },
    }
}

fn step_fits(
    row: &Row,
    step: &(BoundRelPattern, BoundNodePattern),
    way: &(RelValue, NodeValue),
) -> (r: bool)
    ensures
        r == semantics::fits(row@, (step.0@, step.1@), (way.0@, way.1@)),
{
    reveal(semantics::fits);
    proof {
        step.0.lemma_view();
        step.1.lemma_view();
    }
    rel_pinned(row, step.0.var, &way.0) && node_pinned(row, step.1.var, &way.1) && source::carries_all(
        &way.1,
        &step.1.labels,
    )
}

/// Whether the probing of a pattern came to what the model says.
pub open spec fn probes(r: Result<bool, ExecError>, model: Result<bool, ExecErrorView>) -> bool {
    match r {
        Ok(b) => model == Ok::<_, ExecErrorView>(b),
        Err(e) => model == Err::<bool, _>(e@),
    }
}

fn probe_steps<G: GraphSource>(
    steps: &Vec<(BoundRelPattern, BoundNodePattern)>,
    at: usize,
    from: &NodeValue,
    row: &Row,
    graph: &G,
) -> (r: Result<bool, ExecError>)
    requires
        at <= steps@.len(),
    ensures
        probes(
            r,
            semantics::probed(
                bound::bound_rel_pattern_bound_node_patterns_view(steps@),
                at as int,
                from@,
                row@,
                graph.graph(),
            ),
        ),
    decreases steps@.len() - at,
{
    let ghost model = bound::bound_rel_pattern_bound_node_patterns_view(steps@);
    let ghost g = graph.graph();
    proof {
        semantics::lemma_probed(model, at as int, from@, row@, g);
    }
    if at >= steps.len() {
        return Ok(true);
    }
    let rel = &steps[at].0;
    proof {
        rel.lemma_view();
        assert(model[at as int] == (steps@[at as int].0@, steps@[at as int].1@));
    }
    if rel.var_length.is_some() {
        return Err(
            ExecError::Unsupported { feature: "var-length pattern predicates", span: rel.span },
        );
    }
    let ways = graph.expand(&from.id, rel.direction, &rel.types);
    let ghost all = source::steps_view(ways@);
    let mut i: usize = 0;
    while i < ways.len()
        invariant
            i <= ways.len(),
            at < steps.len(),
            g == graph.graph(),
            all == source::steps_view(ways@),
            model == bound::bound_rel_pattern_bound_node_patterns_view(steps@),
            model[at as int] == (steps@[at as int].0@, steps@[at as int].1@),
            semantics::probed(model, at as int, from@, row@, g) == semantics::probed_any(
                model,
                at as int,
                all,
                i as int,
                row@,
                g,
            ),
        decreases ways.len() - i,
    {
        let way = &ways[i];
        assert(all[i as int] == (way.0@, way.1@));
        proof {
            semantics::lemma_probed_any(model, at as int, all, i as int, row@, g);
        }
        if step_fits(row, &steps[at], way) {
            match probe_steps(steps, at + 1, &way.1, row, graph) {
                Err(e) => {
                    return Err(e);
                },
                Ok(true) => {
                    return Ok(true);
                },
                Ok(false) => {},
            }
        }
        i += 1;
    }
    proof {
        semantics::lemma_probed_any(model, at as int, all, i as int, row@, g);
    }
    Ok(false)
}

fn probe_starts<G: GraphSource>(
    pattern: &BoundPathPattern,
    starts: &Vec<NodeValue>,
    row: &Row,
    graph: &G,
) -> (r: Result<bool, ExecError>)
    ensures
        probes(
            r,
            semantics::probed_starts(
                pattern@,
                value::node_values_view(starts@),
                0,
                row@,
                graph.graph(),
            ),
        ),
{
    let ghost all = value::node_values_view(starts@);
    let mut i: usize = 0;
    while i < starts.len()
        invariant
            i <= starts.len(),
            all == value::node_values_view(starts@),
            semantics::probed_starts(pattern@, all, 0, row@, graph.graph()) == semantics::probed_starts(
                pattern@,
                all,
                i as int,
                row@,
                graph.graph(),
            ),
        decreases starts.len() - i,
    {
        assert(all[i as int] == starts@[i as int]@);
        proof {
            pattern.lemma_view();
            pattern.start.lemma_view();
        }
        assert(pattern@.steps == bound::bound_rel_pattern_bound_node_patterns_view(pattern.steps@));
        if source::carries_all(&starts[i], &pattern.start.labels) {
            match probe_steps(&pattern.steps, 0, &starts[i], row, graph) {
                Err(e) => {
                    return Err(e);
                },
                Ok(true) => {
                    return Ok(true);
                },
                Ok(false) => {},
            }
        }
        i += 1;
    }
    Ok(false)
}

/// Does any assignment of the pattern's unbound (anonymous) parts exist,
/// anchored on the row's bound variables? Pattern predicates cannot introduce
/// variables, so this is a pure probe.
pub(crate) fn pattern_exists<G: GraphSource>(pattern: &BoundPathPattern, row: &Row, graph: &G) -> (r: Result<
    bool,
    ExecError,
>)
    ensures
        probes(r, semantics::pattern_holds(pattern@, row@, graph.graph())),
{
    proof {
        pattern.lemma_view();
        pattern.start.lemma_view();
    }
    match pattern.start.var {
        Some(var) => match row.get(var) {
            Value::Node(node) => {
                let mut starts: Vec<NodeValue> = Vec::new();
                starts.push(node);
                assert(value::node_values_view(starts@) =~= seq![node@]);
                probe_starts(pattern, &starts, row, graph)
            },
            _ => Ok(false),
        },
        None => {
            let starts = graph.nodes_by_labels(&pattern.start.labels);
            probe_starts(pattern, &starts, row, graph)
        },
    }
}

} // verus!
