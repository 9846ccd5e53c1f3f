//! `CREATE`: for each incoming row, create the unbound elements of every
//! pattern and bind the new variables. Each row drives one instantiation;
//! created elements are visible to later clauses through the overlay.

use vstd::prelude::*;
use vstd::string::*;

use crate::ast::Direction;
use crate::bind::bound::{
    self, BoundExpr, BoundExprView, BoundNodePattern, BoundNodePatternView, BoundPathPattern,
    BoundPathPatternView, BoundRelPattern, BoundRelPatternView, VarId,
};
use crate::exec::eval::{self, EvalCtx, EvalState};
use crate::exec::fault::{ExecError, ExecErrorView, FloatRequestView};
use crate::exec::float::{FloatAnswerView, FloatTable};
use crate::exec::governor;
use crate::exec::inspect;
use crate::exec::matching;
use crate::exec::operators;
use crate::exec::overlay::{MutableGraph, OverlayView};
use crate::exec::row::{self, Row};
use crate::exec::semantics::{self, Env, Spent};
use crate::exec::source::{GraphSource, GraphView};
use crate::exec::value::{
    self, NodeValue, NodeValueView, PathValue, PathValueView, PropertyMap, PropertyMapView,
    RelValue, RelValueView, Value, ValueView,
};
use crate::exec::walk;
use crate::span::Span;
use crate::text;

verus! {

/// What a query is given besides the graph.
pub struct Given {
    pub parameters: PropertyMapView,
    pub floats: Seq<(FloatRequestView, FloatAnswerView)>,
}

impl Given {
    /// What evaluation reads besides the row, over `graph`.
    pub open spec fn env(self, graph: GraphView) -> Env {
        Env { graph, parameters: self.parameters, floats: self.floats, slots: None }
    }
}

/// What a query is given besides the graph.
pub struct Inputs<'a> {
    pub parameters: &'a PropertyMap,
    /// Results of floating-point operations supplied so far.
    pub floats: &'a FloatTable,
}

impl<'a> Inputs<'a> {
    pub open spec fn view(&self) -> Given {
        Given { parameters: self.parameters@, floats: self.floats@ }
    }

    /// The evaluation context over `graph`.
    pub(crate) fn context<'b, G: GraphSource>(&self, graph: &'b G) -> (r: EvalCtx<'b, G>) where
        'a: 'b,

        ensures
            r@ == self@.env(graph.graph()),
    {
        EvalCtx::new(graph, self.parameters, self.floats)
    }
}

/// What writing for one row comes to: the row and the overlay after it.
pub struct Wrote {
    pub result: Result<(Map<u32, ValueView>, OverlayView), ExecErrorView>,
    pub spent: Spent,
}

/// What writing for several rows comes to.
pub struct WroteAll {
    pub result: Result<(Seq<Map<u32, ValueView>>, OverlayView), ExecErrorView>,
    pub spent: Spent,
}

/// Whether writing for one row came to what the model says. Under a running
/// clock it may instead have been stopped by the backstop.
pub open spec fn wrote_row(
    r: Result<(), ExecError>,
    before: Spent,
    after: Spent,
    row: Map<u32, ValueView>,
    o: OverlayView,
    model: Wrote,
) -> bool {
    &&& after.budget.timed == before.budget.timed
    &&& after.budget.polled >= before.budget.polled
    &&& governor::timed_out(before.budget, model.spent.budget, r) || (match r {
        Ok(_) => model.result == Ok::<_, ExecErrorView>((row, o)),
        Err(e) => model.result == Err::<(Map<u32, ValueView>, OverlayView), _>(e@),
    } && after == model.spent)
}

/// As [`wrote_row`], for several rows.
pub open spec fn wrote_rows(
    r: Result<Vec<Row>, ExecError>,
    before: Spent,
    after: Spent,
    o: OverlayView,
    model: WroteAll,
) -> bool {
    &&& after.budget.timed == before.budget.timed
    &&& after.budget.polled >= before.budget.polled
    &&& governor::timed_out(before.budget, model.spent.budget, r) || (match r {
        Ok(rows) => model.result == Ok::<_, ExecErrorView>((row::rows_view(rows@), o)),
        Err(e) => model.result == Err::<(Seq<Map<u32, ValueView>>, OverlayView), _>(e@),
    } && after == model.spent)
}

// --- Model ------------------------------------------------------------------------------------------

/// What a pattern's property map comes to.
pub struct Mapped {
    pub result: Result<PropertyMapView, ExecErrorView>,
    pub spent: Spent,
}

/// The properties that a pattern gives. An absent map is empty; a non-map value
/// is an error.
#[verifier::opaque]
pub open spec fn properties_of(
    properties: Option<BoundExprView>,
    row: Map<u32, ValueView>,
    env: Env,
    span: Span,
    spent: Spent,
) -> Mapped {
    match properties {
        None => Mapped { result: Ok(PropertyMapView::empty()), spent },
        Some(e) => {
            let x = semantics::evaluated(e, row, env, spent);
            Mapped {
                result: match x.result {
                    Err(e) => Err(e),
                    Ok(ValueView::Mapping(m)) => Ok(m),
                    Ok(other) => Err(
                        operators::type_error(
                            "a property map must be a map, got "@ + inspect::type_label_of(other),
                            span,
                        ),
                    ),
                },
                spent: x.spent,
            }
        },
    }
}

/// What a node position comes to: the node, the row and the overlay after it.
pub struct NodeMade {
    pub result: Result<(NodeValueView, Map<u32, ValueView>, OverlayView), ExecErrorView>,
    pub spent: Spent,
}

/// Whether a row binds the variable, if there is one.
pub open spec fn is_bound(row: Map<u32, ValueView>, var: Option<VarId>) -> bool {
    match var {
        Some(v) => row.dom().contains(v.0),
        None => false,
    }
}

/// A node position: an already-bound variable references an existing node; a
/// fresh (or anonymous) position creates one.
#[verifier::opaque]
pub open spec fn node_made(
    p: BoundNodePatternView,
    row: Map<u32, ValueView>,
    o: OverlayView,
    given: Given,
    spent: Spent,
) -> NodeMade {
    if is_bound(row, p.var) {
        NodeMade {
            result: match row::row_get(row, p.var->0) {
                ValueView::Node(n) => Ok((n, row, o)),
                other => Err(
                    operators::type_error(
                        "CREATE cannot reference a bound "@ + inspect::type_label_of(other) + " as a node"@,
                        p.span,
                    ),
                ),
            },
            spent,
        }
    } else {
        let m = properties_of(p.properties, row, given.env(o.graph()), p.span, spent);
        NodeMade {
            result: match m.result {
                Err(e) => Err(e),
                Ok(properties) => {
                    let made = o.with_node(p.labels, properties);
                    Ok((made.1, walk::bound_to(row, p.var, ValueView::Node(made.1)), made.0))
                },
            },
            spent: m.spent,
        }
    }
}

/// What the steps of a pattern come to: the path, the row and the overlay.
pub struct PathMade {
    pub result: Result<(PathValueView, Map<u32, ValueView>, OverlayView), ExecErrorView>,
    pub spent: Spent,
}

/// The relationship of a step between two nodes of a path.
pub open spec fn rel_made(
    p: BoundRelPatternView,
    from: NodeValueView,
    to: NodeValueView,
    properties: PropertyMapView,
    o: OverlayView,
) -> (OverlayView, RelValueView) {
    match p.direction {
        Direction::In => o.with_rel(to.id, p.types[0], from.id, properties),
        _ => o.with_rel(from.id, p.types[0], to.id, properties),
    }
}

/// The steps from `at` on, behind the path so far.
#[verifier::opaque]
pub open spec fn steps_made(
    steps: Seq<(BoundRelPatternView, BoundNodePatternView)>,
    at: int,
    from: NodeValueView,
    path: PathValueView,
    row: Map<u32, ValueView>,
    o: OverlayView,
    given: Given,
    spent: Spent,
) -> PathMade
    decreases steps.len() - at,
{
    if at < 0 || at >= steps.len() {
        PathMade { result: Ok((path, row, o)), spent }
    } else {
        let p = steps[at].0;
        let n = node_made(steps[at].1, row, o, given, spent);
        match n.result {
            Err(e) => PathMade { result: Err(e), spent: n.spent },
            Ok((target, row, o)) => {
                let m = properties_of(p.properties, row, given.env(o.graph()), p.span, n.spent);
                match m.result {
                    Err(e) => PathMade { result: Err(e), spent: m.spent },
                    Ok(properties) => if p.direction == Direction::Undirected {
                        PathMade {
                            result: Err(
                                ExecErrorView::InvalidArgument {
                                    message: "CREATE requires a directed relationship"@,
                                    span: p.span,
                                },
                            ),
                            spent: m.spent,
                        }
                    } else {
                        let made = rel_made(p, from, target, properties, o);
                        steps_made(
                            steps,
                            at + 1,
                            target,
                            PathValueView {
                                nodes: path.nodes.push(target),
                                rels: path.rels.push(made.1),
                            },
                            walk::bound_to(row, p.var, ValueView::Relationship(made.1)),
                            made.0,
                            given,
                            m.spent,
                        )
                    },
                }
            },
        }
    }
}

/// One pattern, instantiated for a row.
#[verifier::opaque]
pub open spec fn path_made(
    p: BoundPathPatternView,
    row: Map<u32, ValueView>,
    o: OverlayView,
    given: Given,
    spent: Spent,
) -> Wrote {
    let n = node_made(p.start, row, o, given, spent);
    match n.result {
        Err(e) => Wrote { result: Err(e), spent: n.spent },
        Ok((start, row, o)) => {
            let s = steps_made(
                p.steps,
                0,
                start,
                PathValueView { nodes: seq![start], rels: seq![] },
                row,
                o,
                given,
                n.spent,
            );
            Wrote {
                result: match s.result {
                    Err(e) => Err(e),
                    Ok((path, row, o)) => Ok(
                        (walk::bound_to(row, p.path_var, ValueView::Path(path)), o),
                    ),
                },
                spent: s.spent,
            }
        },
    }
}

/// The patterns from `k` on, instantiated for a row.
#[verifier::opaque]
pub open spec fn paths_made(
    patterns: Seq<BoundPathPatternView>,
    k: int,
    row: Map<u32, ValueView>,
    o: OverlayView,
    given: Given,
    spent: Spent,
) -> Wrote
    decreases patterns.len() - k,
{
    if k < 0 || k >= patterns.len() {
        Wrote { result: Ok((row, o)), spent }
    } else {
        let w = path_made(patterns[k], row, o, given, spent);
        match w.result {
            Err(e) => w,
            Ok((row, o)) => paths_made(patterns, k + 1, row, o, given, w.spent),
        }
    }
}

/// The patterns, instantiated for each of `rows` from `i` on, behind `out`.
#[verifier::opaque]
pub open spec fn created_from(
    rows: Seq<Map<u32, ValueView>>,
    i: int,
    patterns: Seq<BoundPathPatternView>,
    o: OverlayView,
    given: Given,
    spent: Spent,
    out: Seq<Map<u32, ValueView>>,
) -> WroteAll
    decreases rows.len() - i,
{
    if i < 0 || i >= rows.len() {
        WroteAll { result: Ok((out, o)), spent }
    } else {
        let w = paths_made(patterns, 0, rows[i], o, given, spent);
        match w.result {
            Err(e) => WroteAll { result: Err(e), spent: w.spent },
            Ok((row, o)) => created_from(
                rows,
                i + 1,
                patterns,
                o,
                given,
                w.spent,
                out.push(row),
            ),
        }
    }
}

/// Whether every relationship of a pattern names a type to create.
pub open spec fn creatable(p: BoundPathPatternView) -> bool {
    forall|i: int| 0 <= i < p.steps.len() ==> (#[trigger] p.steps[i]).0.types.len() > 0
}

// --- Execution --------------------------------------------------------------------------------------

/// Evaluate a pattern property map (a map literal or a parameter) to a concrete
/// property map.
pub(crate) fn eval_property_map<G: GraphSource>(
    properties: &Option<BoundExpr>,
    row: &Row,
    ctx: &EvalCtx<G>,
    span: Span,
    st: &mut EvalState,
) -> (r: Result<PropertyMap, ExecError>)
    ensures
        final(st)@.budget.timed == old(st)@.budget.timed,
        final(st)@.budget.polled >= old(st)@.budget.polled,
        ({
            let model = properties_of(
                matching::optional_expr(*properties),
                row@,
                ctx@,
                span,
                old(st)@,
            );
            governor::timed_out(old(st)@.budget, model.spent.budget, r) || (match r {
                Ok(m) => model.result == Ok::<_, ExecErrorView>(m@),
                Err(e) => model.result == Err::<PropertyMapView, _>(e@),
            } && final(st)@ == model.spent)
        }),
{
    broadcast use crate::exec::poll_laws::group_polls;

    reveal(properties_of);
    match properties {
        None => Ok(PropertyMap::new()),
        Some(e) => match eval::eval(e, row, ctx, st) {
            Err(e) => Err(e),
            Ok(Value::Mapping(m)) => Ok(m),
            Ok(other) => Err(
                operators::type_err(
                    text::join2("a property map must be a map, got ", other.type_label()),
                    span,
                ),
            ),
        },
    }
}

fn resolve_or_create_node<G: GraphSource>(
    p: &BoundNodePattern,
    row: &mut Row,
    graph: &mut MutableGraph<G>,
    inputs: &Inputs,
    st: &mut EvalState,
) -> (r: Result<NodeValue, ExecError>)
    ensures
        final(st)@.budget.timed == old(st)@.budget.timed,
        final(st)@.budget.polled >= old(st)@.budget.polled,
        ({
            let model = node_made(p@, old(row)@, old(graph)@, inputs@, old(st)@);
            governor::timed_out(old(st)@.budget, model.spent.budget, r) || (match r {
                Ok(n) => model.result == Ok::<_, ExecErrorView>((n@, final(row)@, final(graph)@)),
                Err(e) => model.result == Err::<
                    (NodeValueView, Map<u32, ValueView>, OverlayView),
                    _,
                >(e@),
            } && final(st)@ == model.spent)
        }),
{
    broadcast use crate::exec::poll_laws::group_polls;

    reveal(node_made);
    proof {
        p.lemma_view();
    }
    if let Some(var) = p.var {
        if row.contains(var) {
            return match row.get(var) {
                Value::Node(n) => Ok(n),
                other => Err(
                    operators::type_err(
                        text::join3(
                            "CREATE cannot reference a bound ",
                            other.type_label(),
                            " as a node",
                        ),
                        p.span,
                    ),
                ),
            };
        }
    }
    let ctx = inputs.context(&*graph);
    let properties = match eval_property_map(&p.properties, row, &ctx, p.span, st) {
        Err(e) => {
            return Err(e);
        },
        Ok(properties) => properties,
    };
    let node = graph.create_node(text::dup_strings(&p.labels), properties);
    if let Some(var) = p.var {
        row.set(var, Value::Node(node.dup()));
    }
    Ok(node)
}

fn create_steps<G: GraphSource>(
    steps: &Vec<(BoundRelPattern, BoundNodePattern)>,
    start: NodeValue,
    row: &mut Row,
    graph: &mut MutableGraph<G>,
    inputs: &Inputs,
    st: &mut EvalState,
) -> (r: Result<PathValue, ExecError>)
    requires
        forall|i: int| 0 <= i < steps@.len() ==> (#[trigger] steps@[i]).0.types@.len() > 0,
    ensures
        final(st)@.budget.timed == old(st)@.budget.timed,
        final(st)@.budget.polled >= old(st)@.budget.polled,
        ({
            let model = steps_made(
                bound::bound_rel_pattern_bound_node_patterns_view(steps@),
                0,
                start@,
                PathValueView { nodes: seq![start@], rels: seq![] },
                old(row)@,
                old(graph)@,
                inputs@,
                old(st)@,
            );
            governor::timed_out(old(st)@.budget, model.spent.budget, r) || (match r {
                Ok(p) => model.result == Ok::<_, ExecErrorView>((p@, final(row)@, final(graph)@)),
                Err(e) => model.result == Err::<
                    (PathValueView, Map<u32, ValueView>, OverlayView),
                    _,
                >(e@),
            } && final(st)@ == model.spent)
        }),
{
    broadcast use crate::exec::poll_laws::group_polls;

    let ghost all = bound::bound_rel_pattern_bound_node_patterns_view(steps@);
    let ghost given = inputs@;
    let mut nodes: Vec<NodeValue> = Vec::new();
    let mut rels: Vec<RelValue> = Vec::new();
    let mut from = start.dup();
    let ghost first = PathValueView { nodes: seq![start@], rels: seq![] };
    let ghost model = steps_made(all, 0, start@, first, row@, graph@, given, st@);
    nodes.push(start);
    assert(value::node_values_view(nodes@) =~= first.nodes);
    assert(value::rel_values_view(rels@) =~= first.rels);
    let mut at: usize = 0;
    while at < steps.len()
        invariant
            at <= steps.len(),
            forall|i: int| 0 <= i < steps@.len() ==> (#[trigger] steps@[i]).0.types@.len() > 0,
            all == bound::bound_rel_pattern_bound_node_patterns_view(steps@),
            given == inputs@,
            st@.budget.timed == old(st)@.budget.timed,
            st@.budget.polled >= old(st)@.budget.polled,
            first == (PathValueView { nodes: seq![start@], rels: seq![] }),
            model == steps_made(all, 0, start@, first, old(row)@, old(graph)@, given, old(st)@),
            model == steps_made(
                all,
                at as int,
                from@,
                PathValueView {
                    nodes: value::node_values_view(nodes@),
                    rels: value::rel_values_view(rels@),
                },
                row@,
                graph@,
                given,
                st@,
            ),
        decreases steps.len() - at,
    {
        broadcast use crate::exec::poll_laws::group_polls;

        reveal(steps_made);
        let step = &steps[at];
        proof {
            assert(all[at as int] == (step.0@, step.1@));
            step.0.lemma_view();
        }
        let target = match resolve_or_create_node(&step.1, row, graph, inputs, st) {
            Err(e) => {
                return Err(e);
            },
            Ok(n) => n,
        };
        let ctx = inputs.context(&*graph);
        let properties = match eval_property_map(&step.0.properties, row, &ctx, step.0.span, st) {
            Err(e) => {
                return Err(e);
            },
            Ok(properties) => properties,
        };
        let rel_type = step.0.types[0].clone();
        let rel = match step.0.direction {
            Direction::Out => graph.create_rel(
                from.id.dup(),
                rel_type,
                target.id.dup(),
                properties,
            ),
            Direction::In => graph.create_rel(target.id.dup(), rel_type, from.id.dup(), properties),
            Direction::Undirected => {
                return Err(
                    ExecError::InvalidArgument {
                        message: "CREATE requires a directed relationship".to_owned(),
                        span: step.0.span,
                    },
                );
            },
        };
        if let Some(var) = step.0.var {
            row.set(var, Value::Relationship(rel.dup()));
        }
        let copy = target.dup();
        proof {
            assert(
                value::node_values_view(nodes@.push(copy)) =~= value::node_values_view(nodes@).push(copy@)
            );
            assert(
                value::rel_values_view(rels@.push(rel)) =~= value::rel_values_view(rels@).push(rel@)
            );
        }
        rels.push(rel);
        nodes.push(copy);
        from = target;
        at += 1;
    }
    reveal(steps_made);
    Ok(PathValue { nodes, rels })
}

/// Instantiates one pattern for a row.
pub(crate) fn create_path<G: GraphSource>(
    p: &BoundPathPattern,
    row: &mut Row,
    graph: &mut MutableGraph<G>,
    inputs: &Inputs,
    st: &mut EvalState,
) -> (r: Result<(), ExecError>)
    requires
        creatable(p@),
    ensures
        wrote_row(
            r,
            old(st)@,
            final(st)@,
            final(row)@,
            final(graph)@,
            path_made(p@, old(row)@, old(graph)@, inputs@, old(st)@),
        ),
{
    broadcast use crate::exec::poll_laws::group_polls;

    reveal(path_made);
    proof {
        p.lemma_view();
        let all = bound::bound_rel_pattern_bound_node_patterns_view(p.steps@);
        assert forall|i: int| 0 <= i < p.steps@.len() implies (#[trigger] p.steps@[i]).0.types@.len()
            > 0 by {
            assert(all[i] == (p.steps@[i].0@, p.steps@[i].1@));
            p.steps@[i].0.lemma_view();
        }
    }
    let start = match resolve_or_create_node(&p.start, row, graph, inputs, st) {
        Err(e) => {
            return Err(e);
        },
        Ok(n) => n,
    };
    let path = match create_steps(&p.steps, start, row, graph, inputs, st) {
        Err(e) => {
            return Err(e);
        },
        Ok(path) => path,
    };
    if let Some(var) = p.path_var {
        row.set(var, Value::Path(path));
    }
    Ok(())
}

fn create_paths<G: GraphSource>(
    patterns: &Vec<BoundPathPattern>,
    row: &mut Row,
    graph: &mut MutableGraph<G>,
    inputs: &Inputs,
    st: &mut EvalState,
) -> (r: Result<(), ExecError>)
    requires
        forall|k: int| 0 <= k < patterns@.len() ==> creatable((#[trigger] patterns@[k])@),
    ensures
        wrote_row(
            r,
            old(st)@,
            final(st)@,
            final(row)@,
            final(graph)@,
            paths_made(
                bound::bound_path_patterns_view(patterns@),
                0,
                old(row)@,
                old(graph)@,
                inputs@,
                old(st)@,
            ),
        ),
{
    broadcast use crate::exec::poll_laws::group_polls;

    let ghost all = bound::bound_path_patterns_view(patterns@);
    let ghost given = inputs@;
    let ghost model = paths_made(all, 0, row@, graph@, given, st@);
    let mut k: usize = 0;
    while k < patterns.len()
        invariant
            k <= patterns.len(),
            forall|k: int| 0 <= k < patterns@.len() ==> creatable((#[trigger] patterns@[k])@),
            all == bound::bound_path_patterns_view(patterns@),
            given == inputs@,
            st@.budget.timed == old(st)@.budget.timed,
            st@.budget.polled >= old(st)@.budget.polled,
            model == paths_made(all, 0, old(row)@, old(graph)@, given, old(st)@),
            model == paths_made(all, k as int, row@, graph@, given, st@),
        decreases patterns.len() - k,
    {
        broadcast use crate::exec::poll_laws::group_polls;

        reveal(paths_made);
        assert(all[k as int] == patterns@[k as int]@);
        if let Err(e) = create_path(&patterns[k], row, graph, inputs, st) {
            return Err(e);
        }
        k += 1;
    }
    reveal(paths_made);
    Ok(())
}

/// Execute a CREATE clause.
pub(crate) fn create_clause<G: GraphSource>(
    rows: &Vec<Row>,
    patterns: &Vec<BoundPathPattern>,
    graph: &mut MutableGraph<G>,
    inputs: &Inputs,
    st: &mut EvalState,
) -> (r: Result<Vec<Row>, ExecError>)
    requires
        forall|k: int| 0 <= k < patterns@.len() ==> creatable((#[trigger] patterns@[k])@),
    ensures
        wrote_rows(
            r,
            old(st)@,
            final(st)@,
            final(graph)@,
            created_from(
                row::rows_view(rows@),
                0,
                bound::bound_path_patterns_view(patterns@),
                old(graph)@,
                inputs@,
                old(st)@,
                seq![],
            ),
        ),
{
    broadcast use crate::exec::poll_laws::group_polls;

    let ghost all = row::rows_view(rows@);
    let ghost ps = bound::bound_path_patterns_view(patterns@);
    let ghost given = inputs@;
    let ghost model = created_from(all, 0, ps, graph@, given, st@, seq![]);
    let mut out: Vec<Row> = Vec::new();
    assert(row::rows_view(out@) =~= seq![]);
    let mut i: usize = 0;
    while i < rows.len()
        invariant
            i <= rows.len(),
            forall|k: int| 0 <= k < patterns@.len() ==> creatable((#[trigger] patterns@[k])@),
            all == row::rows_view(rows@),
            ps == bound::bound_path_patterns_view(patterns@),
            given == inputs@,
            st@.budget.timed == old(st)@.budget.timed,
            st@.budget.polled >= old(st)@.budget.polled,
            model == created_from(all, 0, ps, old(graph)@, given, old(st)@, seq![]),
            model == created_from(all, i as int, ps, graph@, given, st@, row::rows_view(out@)),
        decreases rows.len() - i,
    {
        broadcast use crate::exec::poll_laws::group_polls;

        reveal(created_from);
        assert(all[i as int] == rows@[i as int]@);
        let mut row = rows[i].dup();
        if let Err(e) = create_paths(patterns, &mut row, graph, inputs, st) {
            return Err(e);
        }
        assert(row::rows_view(out@.push(row)) =~= row::rows_view(out@).push(row@));
        out.push(row);
        i += 1;
    }
    reveal(created_from);
    Ok(out)
}

} // verus!
