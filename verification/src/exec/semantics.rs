//! What expressions evaluate to.

use vstd::prelude::*;

use crate::ast::{LiteralView, QuantifierKind};
use crate::bind::bound::{
    BoundExprView, BoundNodePatternView, BoundPathPatternView, BoundRelPatternView, VarId,
};
use crate::exec::access;
use crate::exec::arith;
use crate::exec::compare;
use crate::exec::fault::{ExecErrorView, FloatRequestView};
use crate::exec::float::FloatAnswerView;
use crate::exec::functions;
use crate::exec::governor::Budget;
use crate::exec::inspect;
use crate::exec::operators;
use crate::exec::projection_model;
use crate::exec::row;
use crate::exec::source::{self, GraphView};
use crate::exec::value::{NodeValueView, PropertyMapView, RelValueView, ValueView};
use crate::span::Span;

verus! {

/// What evaluation uses up: the budget, and the aggregate slots read so far.
pub struct Spent {
    pub budget: Budget,
    pub cursor: nat,
}

/// What evaluation reads besides the row.
pub struct Env {
    pub graph: GraphView,
    pub parameters: PropertyMapView,
    pub floats: Seq<(FloatRequestView, FloatAnswerView)>,
    /// Pre-computed aggregate results, consumed in traversal order.
    pub slots: Option<Seq<ValueView>>,
}

/// What an expression comes to, and what is spent after it.
pub struct Evaluated {
    pub result: Result<ValueView, ExecErrorView>,
    pub spent: Spent,
}

/// What an expression comes to.
#[verifier::opaque]
pub open spec fn value_of(
    e: BoundExprView,
    row: Map<u32, ValueView>,
    env: Env,
    spent: Spent,
) -> Evaluated {
    evaluated(e, row, env, spent)
}

/// What several expressions come to.
pub struct EvaluatedAll {
    pub result: Result<Seq<ValueView>, ExecErrorView>,
    pub spent: Spent,
}

pub open spec fn done(result: Result<ValueView, ExecErrorView>, spent: Spent) -> Evaluated {
    Evaluated { result, spent }
}

pub open spec fn failed(e: ExecErrorView, spent: Spent) -> Evaluated {
    Evaluated { result: Err(e), spent }
}

pub open spec fn with_budget(spent: Spent, budget: Budget) -> Spent {
    Spent { budget, ..spent }
}

/// What a literal stands for.
pub open spec fn literal_value(value: LiteralView) -> ValueView {
    match value {
        LiteralView::Null => ValueView::Null,
        LiteralView::Boolean(b) => ValueView::Bool(b),
        LiteralView::Integer(n) => ValueView::Int(n),
        LiteralView::Float(bits) => ValueView::Float(bits),
        LiteralView::String(s) => ValueView::String(s),
    }
}

pub open spec fn parameter_value(
    name: Seq<char>,
    span: Span,
    parameters: PropertyMapView,
) -> Result<
    ValueView,
    ExecErrorView,
> {
    match parameters.lookup(name) {
        Some(v) => Ok(v),
        None => Err(ExecErrorView::MissingParameter { name, span }),
    }
}

pub open spec fn aggregate_value(span: Span, env: Env, spent: Spent) -> Evaluated {
    match env.slots {
        None => failed(
            ExecErrorView::Unsupported { feature: "aggregate outside projection"@, span },
            spent,
        ),
        Some(values) => if spent.cursor < values.len() {
            done(
                Ok(values[spent.cursor as int]),
                Spent { cursor: spent.cursor + 1, ..spent },
            )
        } else {
            failed(
                ExecErrorView::Unsupported { feature: "aggregate slot mismatch"@, span },
                spent,
            )
        },
    }
}

/// What is left when evaluation passes over `n` aggregates: their slots are
/// behind it, though nobody read them.
pub open spec fn past(spent: Spent, env: Env, n: nat) -> Spent {
    match env.slots {
        None => spent,
        Some(values) => Spent {
            cursor: if spent.cursor + n > values.len() {
                values.len()
            } else {
                spent.cursor + n
            },
            ..spent
        },
    }
}

/// What was evaluated, with `n` aggregates behind it passed over.
pub open spec fn passing(x: Evaluated, env: Env, n: nat) -> Evaluated {
    match x.result {
        Err(_) => x,
        Ok(v) => done(Ok(v), past(x.spent, env, n)),
    }
}

/// How many aggregates a `CASE` holds from its `i`-th branch on.
pub open spec fn aggregates_behind(
    whens: Seq<(BoundExprView, BoundExprView)>,
    else_expr: Option<Box<BoundExprView>>,
    i: int,
) -> nat
    decreases whens.len() - i,
{
    if i < 0 || i >= whens.len() {
        match else_expr {
            Some(otherwise) => projection_model::aggregates_in(*otherwise).len(),
            None => 0,
        }
    } else {
        projection_model::aggregates_in(whens[i].0).len() + projection_model::aggregates_in(
            whens[i].1,
        ).len() + aggregates_behind(whens, else_expr, i + 1)
    }
}

/// What a quantifier says of `t` true, `n` unknown and `f` false predicates.
pub open spec fn quantified(kind: QuantifierKind, t: nat, n: nat, f: nat) -> ValueView {
    match kind {
        QuantifierKind::Any => if t >= 1 {
            ValueView::Bool(true)
        } else if n >= 1 {
            ValueView::Null
        } else {
            ValueView::Bool(false)
        },
        QuantifierKind::All => if f >= 1 {
            ValueView::Bool(false)
        } else if n >= 1 {
            ValueView::Null
        } else {
            ValueView::Bool(true)
        },
        QuantifierKind::NoneOf => if t >= 1 {
            ValueView::Bool(false)
        } else if n >= 1 {
            ValueView::Null
        } else {
            ValueView::Bool(true)
        },
        QuantifierKind::Single => if t == 1 && n == 0 {
            ValueView::Bool(true)
        } else if t >= 2 || (t == 0 && n == 0) {
            ValueView::Bool(false)
        } else {
            ValueView::Null
        },
    }
}

// --- Pattern predicates --------------------------------------------------------------------------

/// Whether a bound relationship variable pins the relationship `rel`.
pub open spec fn pins_rel(row: Map<u32, ValueView>, var: Option<VarId>, rel: RelValueView) -> bool {
    match var {
        None => true,
        Some(v) => match row::row_get(row, v) {
            ValueView::Relationship(bound) => bound.id == rel.id,
            _ => false,
        },
    }
}

/// Whether a bound node variable pins the node `node`.
pub open spec fn pins_node(
    row: Map<u32, ValueView>,
    var: Option<VarId>,
    node: NodeValueView,
) -> bool {
    match var {
        None => true,
        Some(v) => match row::row_get(row, v) {
            ValueView::Node(bound) => bound.id == node.id,
            _ => false,
        },
    }
}

/// Whether a way over a relationship to a node fits a step of a pattern.
#[verifier::opaque]
pub open spec fn fits(
    row: Map<u32, ValueView>,
    step: (BoundRelPatternView, BoundNodePatternView),
    way: (RelValueView, NodeValueView),
) -> bool {
    pins_rel(row, step.0.var, way.0) && pins_node(row, step.1.var, way.1) && source::carries(
        way.1,
        step.1.labels,
    )
}

/// Whether the steps from `at` on can be walked from `from`.
#[verifier::opaque]
pub open spec fn probed(
    steps: Seq<(BoundRelPatternView, BoundNodePatternView)>,
    at: int,
    from: NodeValueView,
    row: Map<u32, ValueView>,
    graph: GraphView,
) -> Result<bool, ExecErrorView>
    decreases steps.len() - at, 1int, 0int,
{
    if at < 0 || at >= steps.len() {
        Ok(true)
    } else {
        let rel = steps[at].0;
        if rel.var_length is Some {
            Err(
                ExecErrorView::Unsupported {
                    feature: "var-length pattern predicates"@,
                    span: rel.span,
                },
            )
        } else {
            probed_any(
                steps,
                at,
                (graph.expand)(from.id, rel.direction, rel.types),
                0,
                row,
                graph,
            )
        }
    }
}

/// Whether the steps from `at` on can be walked over one of `ways` from `i`
/// on.
#[verifier::opaque]
pub open spec fn probed_any(
    steps: Seq<(BoundRelPatternView, BoundNodePatternView)>,
    at: int,
    ways: Seq<(RelValueView, NodeValueView)>,
    i: int,
    row: Map<u32, ValueView>,
    graph: GraphView,
) -> Result<bool, ExecErrorView>
    decreases steps.len() - at, 0int, ways.len() - i,
{
    if at < 0 || at >= steps.len() || i < 0 || i >= ways.len() {
        Ok(false)
    } else {
        if fits(row, steps[at], ways[i]) {
            match probed(steps, at + 1, ways[i].1, row, graph) {
                Err(e) => Err(e),
                Ok(true) => Ok(true),
                Ok(false) => probed_any(steps, at, ways, i + 1, row, graph),
            }
        } else {
            probed_any(steps, at, ways, i + 1, row, graph)
        }
    }
}

pub proof fn lemma_probed(
    steps: Seq<(BoundRelPatternView, BoundNodePatternView)>,
    at: int,
    from: NodeValueView,
    row: Map<u32, ValueView>,
    graph: GraphView,
)
    requires
        0 <= at <= steps.len(),
    ensures
        at == steps.len() ==> probed(steps, at, from, row, graph) == Ok::<bool, ExecErrorView>(
            true,
        ),
        at < steps.len() && steps[at].0.var_length is Some ==> probed(steps, at, from, row, graph)
            == Err::<bool, _>(
            ExecErrorView::Unsupported {
                feature: "var-length pattern predicates"@,
                span: steps[at].0.span,
            },
        ),
        at < steps.len() && steps[at].0.var_length is None ==> probed(steps, at, from, row, graph)
            == probed_any(
            steps,
            at,
            (graph.expand)(from.id, steps[at].0.direction, steps[at].0.types),
            0,
            row,
            graph,
        ),
{
    reveal(probed);
    reveal(probed_any);
}

pub proof fn lemma_probed_any(
    steps: Seq<(BoundRelPatternView, BoundNodePatternView)>,
    at: int,
    ways: Seq<(RelValueView, NodeValueView)>,
    i: int,
    row: Map<u32, ValueView>,
    graph: GraphView,
)
    requires
        0 <= at < steps.len(),
        0 <= i <= ways.len(),
    ensures
        i == ways.len() ==> probed_any(steps, at, ways, i, row, graph) == Ok::<
            bool,
            ExecErrorView,
        >(false),
        i < ways.len() ==> probed_any(steps, at, ways, i, row, graph) == if fits(
            row,
            steps[at],
            ways[i],
        ) {
            match probed(steps, at + 1, ways[i].1, row, graph) {
                Err(e) => Err(e),
                Ok(true) => Ok(true),
                Ok(false) => probed_any(steps, at, ways, i + 1, row, graph),
            }
        } else {
            probed_any(steps, at, ways, i + 1, row, graph)
        },
{
    reveal(probed);
    reveal(probed_any);
}

/// Whether the pattern can be walked from one of `starts` from `i` on.
pub open spec fn probed_starts(
    pattern: BoundPathPatternView,
    starts: Seq<NodeValueView>,
    i: int,
    row: Map<u32, ValueView>,
    graph: GraphView,
) -> Result<bool, ExecErrorView>
    decreases starts.len() - i,
{
    if i < 0 || i >= starts.len() {
        Ok(false)
    } else if !source::carries(starts[i], pattern.start.labels) {
        probed_starts(pattern, starts, i + 1, row, graph)
    } else {
        match probed(pattern.steps, 0, starts[i], row, graph) {
            Err(e) => Err(e),
            Ok(true) => Ok(true),
            Ok(false) => probed_starts(pattern, starts, i + 1, row, graph),
        }
    }
}

/// Whether any assignment of the pattern's unbound parts exists, anchored on
/// the row's bound variables.
pub open spec fn pattern_holds(
    pattern: BoundPathPatternView,
    row: Map<u32, ValueView>,
    graph: GraphView,
) -> Result<bool, ExecErrorView> {
    match pattern.start.var {
        Some(var) => match row::row_get(row, var) {
            ValueView::Node(n) => probed_starts(pattern, seq![n], 0, row, graph),
            _ => Ok(false),
        },
        None => probed_starts(
            pattern,
            source::labelled(graph.nodes, pattern.start.labels, graph.nodes.len()),
            0,
            row,
            graph,
        ),
    }
}

// --- Expressions -----------------------------------------------------------------------------------

/// What `e` evaluates to over `row`.
pub open spec fn evaluated(
    e: BoundExprView,
    row: Map<u32, ValueView>,
    env: Env,
    spent: Spent,
) -> Evaluated
    decreases e, 1int, 0int,
{
    match e {
        BoundExprView::Literal { value, span } => done(
            Ok(literal_value(value)),
            spent,
        ),
        BoundExprView::Parameter { name, span } => done(
            parameter_value(name, span, env.parameters),
            spent,
        ),
        BoundExprView::Variable { id, span } => done(Ok(row::row_get(row, id)), spent),
        BoundExprView::Property { base, key, span } => {
            let b = evaluated(*base, row, env, spent);
            match b.result {
                Err(e) => b,
                Ok(v) => done(access::property_of(v, key, span), b.spent),
            }
        },
        BoundExprView::Unary { op, operand, span } => {
            let a = evaluated(*operand, row, env, spent);
            match a.result {
                Err(e) => a,
                Ok(v) => done(operators::unary_of(op, compare::decayed(v), span), a.spent),
            }
        },
        BoundExprView::Binary { op, lhs, rhs, span } => {
            let a = evaluated(*lhs, row, env, spent);
            match a.result {
                Err(e) => a,
                Ok(x) => if operators::is_logical(op) {
                    match operators::truth_of(x, span) {
                        Err(e) => failed(e, a.spent),
                        Ok(p) => {
                            let b = evaluated(*rhs, row, env, a.spent);
                            match b.result {
                                Err(e) => b,
                                Ok(y) => match operators::truth_of(y, span) {
                                    Err(e) => failed(e, b.spent),
                                    Ok(q) => done(
                                        Ok(operators::of_ternary(operators::connective(op, p, q))),
                                        b.spent,
                                    ),
                                },
                            }
                        },
                    }
                } else {
                    let b = evaluated(*rhs, row, env, a.spent);
                    match b.result {
                        Err(e) => b,
                        Ok(y) => {
                            let o = arith::binary_of(
                                op,
                                compare::decayed(x),
                                compare::decayed(y),
                                span,
                                env.floats,
                                b.spent.budget,
                            );
                            done(o.result, with_budget(b.spent, o.budget))
                        },
                    }
                },
            }
        },
        BoundExprView::IsNull { operand, negated, span } => {
            let a = evaluated(*operand, row, env, spent);
            match a.result {
                Err(e) => a,
                Ok(v) => done(Ok(ValueView::Bool((v is Null) != negated)), a.spent),
            }
        },
        BoundExprView::Function { def, args, span } => {
            let a = arguments_from(args, 0, seq![], row, env, spent);
            match a.result {
                Err(e) => failed(e, a.spent),
                Ok(values) => {
                    let o = functions::applied(
                        def.name,
                        values,
                        span,
                        env.graph,
                        env.floats,
                        a.spent.budget,
                    );
                    done(o.result, with_budget(a.spent, o.budget))
                },
            }
        },
        BoundExprView::Aggregate { def, distinct, arg, span } => aggregate_value(span, env, spent),
        BoundExprView::Case { operand, whens, else_expr, span } => match operand {
            Some(subject) => {
                let s = evaluated(*subject, row, env, spent);
                match s.result {
                    Err(e) => s,
                    Ok(v) => case_from(e, Some(v), 0, row, env, s.spent),
                }
            },
            None => case_from(e, None, 0, row, env, spent),
        },
        BoundExprView::ListLiteral { items, span } => {
            let a = items_from(items, span, 0, seq![], row, env, spent);
            match a.result {
                Err(e) => failed(e, a.spent),
                Ok(values) => done(Ok(ValueView::List(values)), a.spent),
            }
        },
        BoundExprView::ListComprehension { variable, list, where_clause, map, span } => {
            let l = evaluated(*list, row, env, spent);
            match l.result {
                Err(e) => l,
                Ok(ValueView::Null) => done(Ok(ValueView::Null), l.spent),
                Ok(ValueView::List(values)) => comprehended_from(
                    e,
                    values,
                    0,
                    seq![],
                    row,
                    env,
                    l.spent,
                ),
                Ok(other) => failed(
                    operators::type_error(
                        "expected a list, got "@ + inspect::type_label_of(other),
                        span,
                    ),
                    l.spent,
                ),
            }
        },
        BoundExprView::Quantifier { kind, variable, list, predicate, span } => {
            let l = evaluated(*list, row, env, spent);
            match l.result {
                Err(e) => l,
                Ok(ValueView::Null) => done(Ok(ValueView::Null), l.spent),
                Ok(ValueView::List(values)) => quantified_from(
                    e,
                    values,
                    0,
                    0,
                    0,
                    row,
                    env,
                    l.spent,
                ),
                Ok(other) => failed(
                    operators::type_error(
                        "expected a list, got "@ + inspect::type_label_of(other),
                        span,
                    ),
                    l.spent,
                ),
            }
        },
        BoundExprView::Reduce { accumulator, init, variable, list, expr, span } => {
            let l = evaluated(*list, row, env, spent);
            match l.result {
                Err(e) => l,
                Ok(ValueView::Null) => done(
                    Ok(ValueView::Null),
                    past(l.spent, env, projection_model::aggregates_in(*init).len()),
                ),
                Ok(ValueView::List(values)) => {
                    let a = evaluated(*init, row, env, l.spent);
                    match a.result {
                        Err(e) => a,
                        Ok(acc) => reduced_from(e, values, 0, acc, row, env, a.spent),
                    }
                },
                Ok(other) => failed(
                    operators::type_error(
                        "reduce expects a list, got "@ + inspect::type_label_of(other),
                        span,
                    ),
                    l.spent,
                ),
            }
        },
        BoundExprView::MapLiteral { entries, span } => entries_from(
            entries,
            span,
            0,
            PropertyMapView::empty(),
            row,
            env,
            spent,
        ),
        BoundExprView::Index { base, index, span } => {
            let b = evaluated(*base, row, env, spent);
            match b.result {
                Err(e) => b,
                Ok(x) => {
                    let i = evaluated(*index, row, env, b.spent);
                    match i.result {
                        Err(e) => i,
                        Ok(y) => done(
                            access::indexed(compare::decayed(x), compare::decayed(y), span),
                            i.spent,
                        ),
                    }
                },
            }
        },
        BoundExprView::Slice { base, from, to, span } => {
            let b = evaluated(*base, row, env, spent);
            match b.result {
                Err(e) => b,
                Ok(x) => match from {
                    Some(from) => {
                        let f = evaluated(*from, row, env, b.spent);
                        match f.result {
                            Err(e) => f,
                            Ok(p) => match to {
                                Some(to) => {
                                    let t = evaluated(*to, row, env, f.spent);
                                    match t.result {
                                        Err(e) => t,
                                        Ok(q) => done(
                                            access::sliced(
                                                compare::decayed(x),
                                                Some(compare::decayed(p)),
                                                Some(compare::decayed(q)),
                                                span,
                                            ),
                                            t.spent,
                                        ),
                                    }
                                },
                                None => done(
                                    access::sliced(
                                        compare::decayed(x),
                                        Some(compare::decayed(p)),
                                        None,
                                        span,
                                    ),
                                    f.spent,
                                ),
                            },
                        }
                    },
                    None => match to {
                        Some(to) => {
                            let t = evaluated(*to, row, env, b.spent);
                            match t.result {
                                Err(e) => t,
                                Ok(q) => done(
                                    access::sliced(
                                        compare::decayed(x),
                                        None,
                                        Some(compare::decayed(q)),
                                        span,
                                    ),
                                    t.spent,
                                ),
                            }
                        },
                        None => done(
                            access::sliced(compare::decayed(x), None, None, span),
                            b.spent,
                        ),
                    },
                },
            }
        },
        BoundExprView::PatternPredicate { pattern, span } => match pattern_holds(
            *pattern,
            row,
            env.graph,
        ) {
            Ok(b) => done(Ok(ValueView::Bool(b)), spent),
            Err(e) => failed(e, spent),
        },
    }
}

/// The arguments of a call from `i` on, behind those already evaluated; a
/// carrier passed to a function decays to its rendering.
pub open spec fn arguments_from(
    args: Seq<BoundExprView>,
    i: int,
    before: Seq<ValueView>,
    row: Map<u32, ValueView>,
    env: Env,
    spent: Spent,
) -> EvaluatedAll
    decreases args, 0int, args.len() - i,
{
    if i < 0 || i >= args.len() {
        EvaluatedAll { result: Ok(before), spent }
    } else {
        let a = evaluated(args[i], row, env, spent);
        match a.result {
            Err(e) => EvaluatedAll { result: Err(e), spent: a.spent },
            Ok(v) => arguments_from(
                args,
                i + 1,
                before.push(compare::decayed(v)),
                row,
                env,
                a.spent,
            ),
        }
    }
}

/// The elements of a list literal from `i` on, each of which may be nested.
pub open spec fn items_from(
    items: Seq<BoundExprView>,
    span: Span,
    i: int,
    before: Seq<ValueView>,
    row: Map<u32, ValueView>,
    env: Env,
    spent: Spent,
) -> EvaluatedAll
    decreases items, 0int, items.len() - i,
{
    if i < 0 || i >= items.len() {
        EvaluatedAll { result: Ok(before), spent }
    } else {
        let a = evaluated(items[i], row, env, spent);
        match a.result {
            Err(e) => EvaluatedAll { result: Err(e), spent: a.spent },
            Ok(v) => if !arith::nestable(v) {
                EvaluatedAll { result: Err(arith::too_deep(span)), spent: a.spent }
            } else {
                items_from(items, span, i + 1, before.push(v), row, env, a.spent)
            },
        }
    }
}

/// The entries of a map literal from `i` on; a later entry of the same name
/// wins.
pub open spec fn entries_from(
    entries: Seq<(Seq<char>, BoundExprView)>,
    span: Span,
    i: int,
    before: PropertyMapView,
    row: Map<u32, ValueView>,
    env: Env,
    spent: Spent,
) -> Evaluated
    decreases entries, 0int, entries.len() - i,
{
    if i < 0 || i >= entries.len() {
        done(Ok(ValueView::Mapping(before)), spent)
    } else {
        let a = evaluated(entries[i].1, row, env, spent);
        match a.result {
            Err(e) => a,
            Ok(v) => if !arith::nestable(v) {
                failed(arith::too_deep(span), a.spent)
            } else {
                entries_from(
                    entries,
                    span,
                    i + 1,
                    before.inserted(entries[i].0, v),
                    row,
                    env,
                    a.spent,
                )
            },
        }
    }
}

/// The branches of a `CASE` from the `i`-th on: with a subject the first
/// branch equal to it, without one the first whose condition is true. The
/// aggregates of the branches that are not taken are passed over.
pub open spec fn case_from(
    e: BoundExprView,
    subject: Option<ValueView>,
    i: int,
    row: Map<u32, ValueView>,
    env: Env,
    spent: Spent,
) -> Evaluated
    decreases e, 0int, e->whens.len() - i,
{
    match e {
        BoundExprView::Case { operand, whens, else_expr, span } => if i < 0 || i >= whens.len() {
            match else_expr {
                Some(otherwise) => evaluated(*otherwise, row, env, spent),
                None => done(Ok(ValueView::Null), spent),
            }
        } else {
            let c = evaluated(whens[i].0, row, env, spent);
            match c.result {
                Err(e) => c,
                Ok(v) => match subject {
                    Some(s) => if compare::equality(s, v) == Some(true) {
                        passing(
                            evaluated(whens[i].1, row, env, c.spent),
                            env,
                            aggregates_behind(whens, else_expr, i + 1),
                        )
                    } else {
                        case_from(
                            e,
                            subject,
                            i + 1,
                            row,
                            env,
                            past(c.spent, env, projection_model::aggregates_in(whens[i].1).len()),
                        )
                    },
                    None => match operators::truth_of(v, bound_place(whens[i].1)) {
                        Err(e) => failed(e, c.spent),
                        Ok(t) => if t == Some(true) {
                            passing(
                                evaluated(whens[i].1, row, env, c.spent),
                                env,
                                aggregates_behind(whens, else_expr, i + 1),
                            )
                        } else {
                            case_from(
                                e,
                                subject,
                                i + 1,
                                row,
                                env,
                                past(
                                    c.spent,
                                    env,
                                    projection_model::aggregates_in(whens[i].1).len(),
                                ),
                            )
                        },
                    },
                },
            }
        },
        _ => done(Ok(ValueView::Null), spent),
    }
}

/// The elements of a list comprehension over `values` from `i` on.
pub open spec fn comprehended_from(
    e: BoundExprView,
    values: Seq<ValueView>,
    i: int,
    before: Seq<ValueView>,
    row: Map<u32, ValueView>,
    env: Env,
    spent: Spent,
) -> Evaluated
    decreases e, 0int, values.len() - i,
{
    match e {
        BoundExprView::ListComprehension { variable, list, where_clause, map, span } => if i < 0
            || i >= values.len() {
            done(Ok(ValueView::List(before)), spent)
        } else {
            let inner = row.insert(variable.0, values[i]);
            match where_clause {
                Some(predicate) => {
                    let p = evaluated(*predicate, inner, env, spent);
                    match p.result {
                        Err(e) => p,
                        Ok(v) => match operators::truth_of(v, span) {
                            Err(e) => failed(e, p.spent),
                            Ok(t) => if t == Some(true) {
                                comprehended_element(e, values, i, before, row, env, p.spent)
                            } else {
                                comprehended_from(e, values, i + 1, before, row, env, p.spent)
                            },
                        },
                    }
                },
                None => comprehended_element(e, values, i, before, row, env, spent),
            }
        },
        _ => done(Ok(ValueView::Null), spent),
    }
}

/// The element of a list comprehension for the `i`-th value, and those behind
/// it. Each produced element is charged.
pub open spec fn comprehended_element(
    e: BoundExprView,
    values: Seq<ValueView>,
    i: int,
    before: Seq<ValueView>,
    row: Map<u32, ValueView>,
    env: Env,
    spent: Spent,
) -> Evaluated
    decreases e, 0int, values.len() - i, 0int,
{
    match e {
        BoundExprView::ListComprehension { variable, list, where_clause, map, span } => if i < 0
            || i >= values.len() {
            done(Ok(ValueView::List(before)), spent)
        } else {
            let inner = row.insert(variable.0, values[i]);
            let c = spent.budget.collection_push(before.len());
            let after = with_budget(spent, c.budget);
            match c.result {
                Err(e) => failed(e, after),
                Ok(_) => match map {
                    Some(map) => {
                        let m = evaluated(*map, inner, env, after);
                        match m.result {
                            Err(e) => m,
                            Ok(v) => if !arith::nestable(v) {
                                failed(arith::too_deep(span), m.spent)
                            } else {
                                comprehended_from(
                                    e,
                                    values,
                                    i + 1,
                                    before.push(v),
                                    row,
                                    env,
                                    m.spent,
                                )
                            },
                        }
                    },
                    None => if !arith::nestable(values[i]) {
                        failed(arith::too_deep(span), after)
                    } else {
                        comprehended_from(
                            e,
                            values,
                            i + 1,
                            before.push(values[i]),
                            row,
                            env,
                            after,
                        )
                    },
                },
            }
        },
        _ => done(Ok(ValueView::Null), spent),
    }
}

/// A quantifier over `values` from `i` on, `t` true and `n` unknown predicates
/// before. Each predicate evaluation is charged.
pub open spec fn quantified_from(
    e: BoundExprView,
    values: Seq<ValueView>,
    i: int,
    t: nat,
    n: nat,
    row: Map<u32, ValueView>,
    env: Env,
    spent: Spent,
) -> Evaluated
    decreases e, 0int, values.len() - i,
{
    match e {
        BoundExprView::Quantifier { kind, variable, list, predicate, span } => if i < 0 || i
            >= values.len() {
            done(Ok(quantified(kind, t, n, (values.len() - t - n) as nat)), spent)
        } else {
            let c = spent.budget.collection_push(i as nat);
            let after = with_budget(spent, c.budget);
            match c.result {
                Err(e) => failed(e, after),
                Ok(_) => {
                    let p = evaluated(
                        *predicate,
                        row.insert(variable.0, values[i]),
                        env,
                        after,
                    );
                    match p.result {
                        Err(e) => p,
                        Ok(v) => match operators::truth_of(v, span) {
                            Err(e) => failed(e, p.spent),
                            Ok(Some(true)) => quantified_from(
                                e,
                                values,
                                i + 1,
                                t + 1,
                                n,
                                row,
                                env,
                                p.spent,
                            ),
                            Ok(Some(false)) => quantified_from(
                                e,
                                values,
                                i + 1,
                                t,
                                n,
                                row,
                                env,
                                p.spent,
                            ),
                            Ok(None) => quantified_from(
                                e,
                                values,
                                i + 1,
                                t,
                                n + 1,
                                row,
                                env,
                                p.spent,
                            ),
                        },
                    }
                },
            }
        },
        _ => done(Ok(ValueView::Null), spent),
    }
}

/// A fold over `values` from `i` on, `acc` accumulated before. Each step is
/// charged.
pub open spec fn reduced_from(
    e: BoundExprView,
    values: Seq<ValueView>,
    i: int,
    acc: ValueView,
    row: Map<u32, ValueView>,
    env: Env,
    spent: Spent,
) -> Evaluated
    decreases e, 0int, values.len() - i,
{
    match e {
        BoundExprView::Reduce { accumulator, init, variable, list, expr, span } => if i < 0 || i
            >= values.len() {
            done(Ok(acc), spent)
        } else {
            let c = spent.budget.collection_push(i as nat);
            let after = with_budget(spent, c.budget);
            match c.result {
                Err(e) => failed(e, after),
                Ok(_) => {
                    let inner = row.insert(accumulator.0, acc).insert(variable.0, values[i]);
                    let x = evaluated(*expr, inner, env, after);
                    match x.result {
                        Err(e) => x,
                        Ok(v) => reduced_from(e, values, i + 1, v, row, env, x.spent),
                    }
                },
            }
        },
        _ => done(Ok(ValueView::Null), spent),
    }
}

/// The source range of a bound expression.
pub open spec fn bound_place(e: BoundExprView) -> Span {
    match e {
        BoundExprView::Literal { span, .. } => span,
        BoundExprView::Parameter { span, .. } => span,
        BoundExprView::Variable { span, .. } => span,
        BoundExprView::Property { span, .. } => span,
        BoundExprView::Unary { span, .. } => span,
        BoundExprView::Binary { span, .. } => span,
        BoundExprView::IsNull { span, .. } => span,
        BoundExprView::Function { span, .. } => span,
        BoundExprView::Aggregate { span, .. } => span,
        BoundExprView::Case { span, .. } => span,
        BoundExprView::ListLiteral { span, .. } => span,
        BoundExprView::ListComprehension { span, .. } => span,
        BoundExprView::Quantifier { span, .. } => span,
        BoundExprView::Reduce { span, .. } => span,
        BoundExprView::MapLiteral { span, .. } => span,
        BoundExprView::Index { span, .. } => span,
        BoundExprView::Slice { span, .. } => span,
        BoundExprView::PatternPredicate { span, .. } => span,
    }
}

} // verus!
