//! Query execution: a clause pipeline over materialised row sets.
//!
//! Relationship uniqueness: per openCypher, a relationship is traversed at most
//! once per MATCH clause (across all its comma patterns and within var-length
//! expansions).

use vstd::prelude::*;
use vstd::string::*;

use crate::ast::{AtRef, AtRefView};
use crate::bind::bound::{
    self, BoundClause, BoundClauseView, BoundProjectionItem, BoundProjectionItemView, BoundQuery,
    BoundQueryView, VarId,
};
use crate::exec::change;
use crate::exec::create::{self, Given, Inputs, WroteAll};
use crate::exec::delete;
use crate::exec::eval::EvalState;
use crate::exec::fault::{ExecError, ExecErrorView};
use crate::exec::feed::{self, Outcome};
use crate::exec::float::FloatTable;
use crate::exec::governor::{self, Budget, QueryLimits};
use crate::exec::inspect;
use crate::exec::matching;
use crate::exec::merge;
use crate::exec::operators;
use crate::exec::overlay::{MutableGraph, OverlayView, WriteSummary};
use crate::exec::project;
use crate::exec::projection_model;
use crate::exec::row::{self, Row};
use crate::exec::semantics::Spent;
use crate::exec::source::{
    self, GraphSource, GraphView, NoProcedures, ProcedureProvider, SingleVersion, VersionResolver,
    WriteChanges,
};
use crate::exec::value::{self, PropertyMap, PropertyMapView, Value, ValueView};
use crate::exec::walk::{self, Produced};
use crate::span::Span;
use crate::text;

verus! {

/// A completed query's output.
#[derive(Debug)]
pub struct QueryResult {
    pub columns: Vec<String>,
    pub rows: Vec<Vec<Value>>,
    /// Side effects of any write clauses (all zero for a read query).
    pub stats: WriteSummary,
}

/// The value that a [`QueryResult`] stands for.
pub struct QueryResultView {
    pub columns: Seq<Seq<char>>,
    pub rows: Seq<Seq<ValueView>>,
    pub stats: WriteSummary,
}

impl QueryResult {
    pub open spec fn view(&self) -> QueryResultView {
        QueryResultView {
            columns: text::strings_view(self.columns@),
            rows: source::value_rows_view(self.rows@),
            stats: self.stats,
        }
    }
}

// --- Model ------------------------------------------------------------------------------------------

/// What a query can ask for beyond the base graph: other versions, and
/// procedures.
pub struct World {
    pub graph_at: spec_fn(Seq<char>) -> Result<GraphView, Seq<char>>,
    pub outcome: Outcome,
}

/// How far a query has come.
pub struct Progress {
    pub rows: Seq<Map<u32, ValueView>>,
    pub overlay: OverlayView,
    pub columns: Seq<Seq<char>>,
    pub output: Seq<Seq<ValueView>>,
}

/// What clauses come to.
pub struct Ran {
    pub result: Result<Progress, ExecErrorView>,
    pub spent: Spent,
}

/// The refspec that an `AT` names. A parameter form (`AT $ref`) reads the
/// parameter, which must be a string.
pub open spec fn refspec_of(at: AtRefView, parameters: PropertyMapView) -> Result<
    Seq<char>,
    ExecErrorView,
> {
    match at {
        AtRefView::Refspec { value, .. } => Ok(value),
        AtRefView::Parameter { name, span } => match parameters.lookup(name) {
            Some(ValueView::String(s)) => Ok(s),
            Some(other) => Err(
                operators::type_error(
                    "AT parameter must be a string, got "@ + inspect::type_label_of(other),
                    span,
                ),
            ),
            None => Err(ExecErrorView::MissingParameter { name, span }),
        },
    }
}

/// The graph that a `MATCH` queries: with `AT` that of a version, otherwise the
/// base with the pending writes.
pub open spec fn graph_for(
    at_ref: Option<AtRefView>,
    span: Span,
    o: OverlayView,
    given: Given,
    world: World,
) -> Result<GraphView, ExecErrorView> {
    match at_ref {
        None => Ok(o.graph()),
        Some(at) => match refspec_of(at, given.parameters) {
            Err(e) => Err(e),
            Ok(refspec) => match (world.graph_at)(refspec) {
                Ok(graph) => Ok(graph),
                Err(message) => Err(ExecErrorView::InvalidArgument { message, span }),
            },
        },
    }
}

/// Progress with other rows.
pub open spec fn with_rows(s: Progress, p: Produced) -> Ran {
    Ran {
        result: match p.result {
            Err(e) => Err(e),
            Ok(rows) => Ok(Progress { rows, ..s }),
        },
        spent: p.spent,
    }
}

/// Progress with other rows and other pending writes.
pub open spec fn with_writes(s: Progress, w: WroteAll) -> Ran {
    Ran {
        result: match w.result {
            Err(e) => Err(e),
            Ok((rows, overlay)) => Ok(Progress { rows, overlay, ..s }),
        },
        spent: w.spent,
    }
}

/// The values that rows project to.
pub open spec fn outputs(
    items: Seq<BoundProjectionItemView>,
    rows: Seq<Map<u32, ValueView>>,
) -> Seq<Seq<ValueView>> {
    Seq::new(rows.len(), |i: int| projection_model::output_of(items, rows[i]))
}

/// The names of yielded columns.
pub open spec fn yield_names(yields: Seq<(Seq<char>, VarId)>) -> Seq<Seq<char>> {
    Seq::new(yields.len(), |i: int| yields[i].0)
}

/// The values of yielded columns in a row.
pub open spec fn yield_values(
    yields: Seq<(Seq<char>, VarId)>,
    row: Map<u32, ValueView>,
) -> Seq<ValueView> {
    Seq::new(yields.len(), |i: int| row::row_get(row, yields[i].1))
}

/// The values of yielded columns in rows.
pub open spec fn yield_outputs(
    yields: Seq<(Seq<char>, VarId)>,
    rows: Seq<Map<u32, ValueView>>,
) -> Seq<Seq<ValueView>> {
    Seq::new(rows.len(), |i: int| yield_values(yields, rows[i]))
}

/// One clause. `last` says whether it ends the query: a `CALL` that does
/// projects its yielded columns.
#[verifier::opaque]
pub open spec fn clause_run(
    clause: BoundClauseView,
    last: bool,
    s: Progress,
    given: Given,
    world: World,
    spent: Spent,
) -> Ran {
    let env = given.env(s.overlay.graph());
    match clause {
        BoundClauseView::Match { optional, patterns, at_ref, where_clause, span } => {
            match graph_for(at_ref, span, s.overlay, given, world) {
                Err(e) => Ran { result: Err(e), spent },
                Ok(graph) => with_rows(
                    s,
                    walk::matched_from(
                        s.rows,
                        0,
                        optional,
                        patterns,
                        where_clause,
                        given.env(graph),
                        spent,
                        seq![],
                    ),
                ),
            }
        },
        BoundClauseView::Unwind { expr, alias, span } => with_rows(
            s,
            feed::unwound_from(s.rows, 0, expr, alias, span, env, spent, seq![]),
        ),
        BoundClauseView::With(p) => with_rows(
            s,
            projection_model::projected(p, true, s.rows, env, spent),
        ),
        BoundClauseView::Return(p) => {
            let r = projection_model::projected(p, false, s.rows, env, spent);
            Ran {
                result: match r.result {
                    Err(e) => Err(e),
                    Ok(rows) => Ok(
                        Progress {
                            rows: seq![],
                            overlay: s.overlay,
                            columns: projection_model::column_names(p.items),
                            output: outputs(p.items, rows),
                        },
                    ),
                },
                spent: r.spent,
            }
        },
        BoundClauseView::Call { procedure, args, yields, where_clause, span } => {
            let r = feed::called_from(
                s.rows,
                0,
                procedure,
                args,
                yields,
                where_clause,
                span,
                world.outcome,
                env,
                spent,
                seq![],
            );
            Ran {
                result: match r.result {
                    Err(e) => Err(e),
                    Ok(rows) => if last {
                        Ok(
                            Progress {
                                rows,
                                overlay: s.overlay,
                                columns: yield_names(yields),
                                output: yield_outputs(yields, rows),
                            },
                        )
                    } else {
                        Ok(Progress { rows, ..s })
                    },
                },
                spent: r.spent,
            }
        },
        BoundClauseView::Create { patterns, span } => with_writes(
            s,
            create::created_from(s.rows, 0, patterns, s.overlay, given, spent, seq![]),
        ),
        BoundClauseView::SetItems { items, span } => with_writes(
            s,
            change::set_from(s.rows, 0, items, s.overlay, given, spent, seq![]),
        ),
        BoundClauseView::Remove { items, span } => with_writes(
            s,
            WroteAll {
                result: change::removed_from(s.rows, 0, items, s.overlay, seq![]),
                spent,
            },
        ),
        BoundClauseView::Delete { detach, targets, span } => {
            let c = delete::deleted(detach, targets, span, s.rows, s.overlay, given, spent);
            Ran {
                result: match c.result {
                    Err(e) => Err(e),
                    Ok(overlay) => Ok(Progress { overlay, ..s }),
                },
                spent: c.spent,
            }
        },
        BoundClauseView::Merge { pattern, on_create, on_match, span } => with_writes(
            s,
            merge::merged_from(
                s.rows,
                0,
                pattern,
                on_create,
                on_match,
                s.overlay,
                given,
                spent,
                seq![],
            ),
        ),
    }
}

/// The clauses from `k` on.
#[verifier::opaque]
pub open spec fn ran_from(
    clauses: Seq<BoundClauseView>,
    k: int,
    s: Progress,
    given: Given,
    world: World,
    spent: Spent,
) -> Ran
    decreases clauses.len() - k,
{
    if k < 0 || k >= clauses.len() {
        Ran { result: Ok(s), spent }
    } else {
        let r = clause_run(clauses[k], k == clauses.len() - 1, s, given, world, spent);
        match r.result {
            Err(e) => r,
            Ok(next) => ran_from(clauses, k + 1, next, given, world, r.spent),
        }
    }
}

/// A query before its first clause: one empty row.
pub open spec fn at_the_start(base: GraphView) -> Progress {
    Progress {
        rows: seq![Map::<u32, ValueView>::empty()],
        overlay: OverlayView::over(base),
        columns: seq![],
        output: seq![],
    }
}

/// A query as a whole, over a base graph.
pub open spec fn query_run(
    query: BoundQueryView,
    base: GraphView,
    given: Given,
    world: World,
    spent: Spent,
) -> Ran {
    ran_from(query.clauses, 0, at_the_start(base), given, world, spent)
}

/// The output of a query that came to its end.
pub open spec fn result_of(s: Progress) -> QueryResultView {
    QueryResultView { columns: s.columns, rows: s.output, stats: s.overlay.summary }
}

/// Whether a query can run: grouping keys are items of their projection, and
/// every relationship to create has a type.
pub open spec fn clause_is_sound(c: BoundClauseView) -> bool {
    match c {
        BoundClauseView::With(p) => projection_model::grouping_is_sound(p),
        BoundClauseView::Return(p) => projection_model::grouping_is_sound(p),
        BoundClauseView::Create { patterns, .. } => forall|i: int|
            0 <= i < patterns.len() ==> create::creatable(#[trigger] patterns[i]),
        BoundClauseView::Merge { pattern, .. } => create::creatable(pattern),
        _ => true,
    }
}

/// Whether every clause of a query can run.
pub open spec fn query_is_sound(q: BoundQueryView) -> bool {
    forall|i: int| 0 <= i < q.clauses.len() ==> clause_is_sound(#[trigger] q.clauses[i])
}

/// What a query can ask of a resolver and a provider.
pub open spec fn world_of<R: VersionResolver, P: ProcedureProvider>(
    resolver: &R,
    provider: &P,
) -> World {
    World {
        graph_at: |refspec: Seq<char>| resolver.graph_at(refspec),
        outcome: feed::outcome_of(provider),
    }
}

/// Whether a run came to what the model says. Under a running clock it may
/// instead have been stopped by the backstop.
pub open spec fn runs<T>(
    r: Result<T, ExecError>,
    before: Spent,
    after: Spent,
    s: Progress,
    model: Ran,
) -> bool {
    &&& after.budget.timed == before.budget.timed
    &&& after.budget.polled >= before.budget.polled
    &&& governor::timed_out(before.budget, model.spent.budget, r) || (match r {
        Ok(_) => model.result == Ok::<_, ExecErrorView>(s),
        Err(e) => model.result == Err::<Progress, _>(e@),
    } && after == model.spent)
}

/// Whether a query came to what the model says, under a budget.
pub open spec fn answers(r: Result<QueryResult, ExecError>, before: Spent, model: Ran) -> bool {
    governor::timed_out(before.budget, model.spent.budget, r) || match r {
        Ok(out) => model.result is Ok && out@ == result_of(model.result->Ok_0),
        Err(e) => model.result == Err::<Progress, _>(e@),
    }
}

// --- Execution --------------------------------------------------------------------------------------

fn resolve_at_ref(at: &AtRef, parameters: &PropertyMap) -> (r: Result<String, ExecError>)
    ensures
        refspec_of(at@, parameters@) == match r {
            Ok(s) => Ok::<_, ExecErrorView>(s@),
            Err(e) => Err(e@),
        },
{
    match at {
        AtRef::Refspec { value, .. } => Ok(value.clone()),
        AtRef::Parameter { name, span } => match parameters.get(name.as_str()) {
            Some(Value::String(s)) => Ok(s.clone()),
            Some(other) => Err(
                operators::type_err(
                    text::join2("AT parameter must be a string, got ", other.type_label()),
                    *span,
                ),
            ),
            None => Err(ExecError::MissingParameter { name: name.clone(), span: *span }),
        },
    }
}

/// A query under way.
struct Pipeline<'g, G: GraphSource> {
    rows: Vec<Row>,
    graph: MutableGraph<'g, G>,
    columns: Vec<String>,
    output: Vec<Vec<Value>>,
}

impl<'g, G: GraphSource> Pipeline<'g, G> {
    spec fn view(&self) -> Progress {
        Progress {
            rows: row::rows_view(self.rows@),
            overlay: self.graph@,
            columns: text::strings_view(self.columns@),
            output: source::value_rows_view(self.output@),
        }
    }

    fn new(base: &'g G) -> (r: Self)
        ensures
            r@ == at_the_start(base.graph()),
    {
        let mut rows: Vec<Row> = Vec::new();
        rows.push(Row::new());
        let r = Pipeline {
            rows,
            graph: MutableGraph::new(base),
            columns: Vec::new(),
            output: Vec::new(),
        };
        proof {
            let s = at_the_start(base.graph());
            assert(r@.rows =~= s.rows);
            assert(r@.columns =~= s.columns);
            assert(r@.output =~= s.output);
        }
        r
    }

    fn finish(self) -> (r: QueryResult)
        ensures
            r@ == result_of(self@),
    {
        let stats = *self.graph.summary();
        QueryResult { columns: self.columns, rows: self.output, stats }
    }
}

fn collect_outputs(items: &Vec<BoundProjectionItem>, rows: &Vec<Row>) -> (r: Vec<Vec<Value>>)
    ensures
        source::value_rows_view(r@) == outputs(
            bound::bound_projection_items_view(items@),
            row::rows_view(rows@),
        ),
{
    let ghost all = bound::bound_projection_items_view(items@);
    let ghost rv = row::rows_view(rows@);
    let mut out: Vec<Vec<Value>> = Vec::new();
    let mut i: usize = 0;
    while i < rows.len()
        invariant
            i <= rows.len(),
            all == bound::bound_projection_items_view(items@),
            rv == row::rows_view(rows@),
            out@.len() == i,
            forall|k: int| 0 <= k < i ==> value::values_view((#[trigger] out@[k])@) == projection_model::output_of(all, rv[k]),
        decreases rows.len() - i,
    {
        out.push(project::output_values(items, &rows[i]));
        i += 1;
    }
    assert(source::value_rows_view(out@) =~= outputs(all, rv));
    out
}

fn collect_names(items: &Vec<BoundProjectionItem>) -> (r: Vec<String>)
    ensures
        text::strings_view(r@) == projection_model::column_names(
            bound::bound_projection_items_view(items@),
        ),
{
    let ghost all = bound::bound_projection_items_view(items@);
    let mut out: Vec<String> = Vec::new();
    let mut i: usize = 0;
    while i < items.len()
        invariant
            i <= items.len(),
            all == bound::bound_projection_items_view(items@),
            out@.len() == i,
            forall|k: int| 0 <= k < i ==> (#[trigger] out@[k])@ == all[k].name,
        decreases items.len() - i,
    {
        assert(all[i as int] == items@[i as int]@);
        out.push(items[i].name.clone());
        i += 1;
    }
    assert(text::strings_view(out@) =~= projection_model::column_names(all));
    out
}

fn collect_yield_names(yields: &Vec<(String, VarId)>) -> (r: Vec<String>)
    ensures
        text::strings_view(r@) == yield_names(bound::string_var_ids_view(yields@)),
{
    let ghost all = bound::string_var_ids_view(yields@);
    let mut out: Vec<String> = Vec::new();
    let mut i: usize = 0;
    while i < yields.len()
        invariant
            i <= yields.len(),
            all == bound::string_var_ids_view(yields@),
            out@.len() == i,
            forall|k: int| 0 <= k < i ==> (#[trigger] out@[k])@ == all[k].0,
        decreases yields.len() - i,
    {
        out.push(yields[i].0.clone());
        i += 1;
    }
    assert(text::strings_view(out@) =~= yield_names(all));
    out
}

fn collect_yield_values(yields: &Vec<(String, VarId)>, row: &Row) -> (r: Vec<Value>)
    ensures
        value::values_view(r@) == yield_values(bound::string_var_ids_view(yields@), row@),
{
    let ghost all = bound::string_var_ids_view(yields@);
    let mut out: Vec<Value> = Vec::new();
    let mut i: usize = 0;
    while i < yields.len()
        invariant
            i <= yields.len(),
            all == bound::string_var_ids_view(yields@),
            out@.len() == i,
            forall|k: int| 0 <= k < i ==> (#[trigger] out@[k])@ == row::row_get(row@, all[k].1),
        decreases yields.len() - i,
    {
        out.push(row.get(yields[i].1));
        i += 1;
    }
    assert(value::values_view(out@) =~= yield_values(all, row@));
    out
}

fn collect_yields(yields: &Vec<(String, VarId)>, rows: &Vec<Row>) -> (r: Vec<Vec<Value>>)
    ensures
        source::value_rows_view(r@) == yield_outputs(
            bound::string_var_ids_view(yields@),
            row::rows_view(rows@),
        ),
{
    let ghost all = bound::string_var_ids_view(yields@);
    let ghost rv = row::rows_view(rows@);
    let mut out: Vec<Vec<Value>> = Vec::new();
    let mut i: usize = 0;
    while i < rows.len()
        invariant
            i <= rows.len(),
            all == bound::string_var_ids_view(yields@),
            rv == row::rows_view(rows@),
            out@.len() == i,
            forall|k: int|
                0 <= k < i ==> value::values_view((#[trigger] out@[k])@) == yield_values(all, rv[k]),
        decreases rows.len() - i,
    {
        out.push(collect_yield_values(yields, &rows[i]));
        i += 1;
    }
    assert(source::value_rows_view(out@) =~= yield_outputs(all, rv));
    out
}

fn run_match<'g, G: GraphSource, R: VersionResolver, P: ProcedureProvider>(
    clause: &BoundClause,
    last: bool,
    p: &mut Pipeline<'g, G>,
    resolver: &R,
    provider: &P,
    inputs: &Inputs,
    st: &mut EvalState,
) -> (r: Result<(), ExecError>)
    requires
        clause is Match,
    ensures
        runs(
            r,
            old(st)@,
            final(st)@,
            final(p)@,
            clause_run(
                clause@,
                last,
                old(p)@,
                inputs@,
                world_of(resolver, provider),
                old(st)@,
            ),
        ),
{
    broadcast use crate::exec::poll_laws::group_polls;

    reveal(clause_run);
    if let BoundClause::Match { optional, patterns, at_ref, where_clause, span } = clause {
        match at_ref {
            None => {
                let ctx = inputs.context(&p.graph);
                match matching::match_clause(&p.rows, *optional, patterns, where_clause, &ctx, st) {
                    Err(e) => {
                        return Err(e);
                    },
                    Ok(rows) => {
                        p.rows = rows;
                    },
                }
            },
            Some(at) => {
                let refspec = match resolve_at_ref(at, inputs.parameters) {
                    Err(e) => {
                        return Err(e);
                    },
                    Ok(refspec) => refspec,
                };
                let version = match resolver.at(refspec.as_str()) {
                    Err(message) => {
                        return Err(ExecError::InvalidArgument { message, span: *span });
                    },
                    Ok(version) => version,
                };
                let ctx = inputs.context(&version);
                match matching::match_clause(&p.rows, *optional, patterns, where_clause, &ctx, st) {
                    Err(e) => {
                        return Err(e);
                    },
                    Ok(rows) => {
                        p.rows = rows;
                    },
                }
            },
        }
    }
    Ok(())
}

fn run_clause<'g, G: GraphSource, R: VersionResolver, P: ProcedureProvider>(
    clause: &BoundClause,
    last: bool,
    p: &mut Pipeline<'g, G>,
    resolver: &R,
    provider: &P,
    inputs: &Inputs,
    st: &mut EvalState,
) -> (r: Result<(), ExecError>)
    requires
        clause_is_sound(clause@),
    ensures
        runs(
            r,
            old(st)@,
            final(st)@,
            final(p)@,
            clause_run(
                clause@,
                last,
                old(p)@,
                inputs@,
                world_of(resolver, provider),
                old(st)@,
            ),
        ),
{
    broadcast use crate::exec::poll_laws::group_polls;

    reveal(clause_run);
    match clause {
        BoundClause::Match { .. } => run_match(clause, last, p, resolver, provider, inputs, st),
        BoundClause::Unwind { expr, alias, span } => {
            let ctx = inputs.context(&p.graph);
            match feed::unwind_clause(&p.rows, expr, *alias, *span, &ctx, st) {
                Err(e) => Err(e),
                Ok(rows) => {
                    p.rows = rows;
                    Ok(())
                },
            }
        },
        BoundClause::With(projection) => {
            let ctx = inputs.context(&p.graph);
            match project::project(&p.rows, projection, true, &ctx, st) {
                Err(e) => Err(e),
                Ok(rows) => {
                    p.rows = rows;
                    Ok(())
                },
            }
        },
        BoundClause::Return(projection) => {
            let ctx = inputs.context(&p.graph);
            match project::project(&p.rows, projection, false, &ctx, st) {
                Err(e) => Err(e),
                Ok(rows) => {
                    p.columns = collect_names(&projection.items);
                    p.output = collect_outputs(&projection.items, &rows);
                    p.rows = Vec::new();
                    assert(row::rows_view(p.rows@) =~= seq![]);
                    Ok(())
                },
            }
        },
        BoundClause::Call { procedure, args, yields, where_clause, span } => {
            let ctx = inputs.context(&p.graph);
            match feed::call_clause(
                &p.rows,
                procedure,
                args,
                yields,
                where_clause,
                *span,
                provider,
                &ctx,
                st,
            ) {
                Err(e) => Err(e),
                Ok(rows) => {
                    if last {
                        p.columns = collect_yield_names(yields);
                        p.output = collect_yields(yields, &rows);
                    }
                    p.rows = rows;
                    Ok(())
                },
            }
        },
        BoundClause::Create { patterns, .. } => {
            proof {
                let all = bound::bound_path_patterns_view(patterns@);
                assert forall|k: int| 0 <= k < patterns@.len() implies create::creatable(
                    (#[trigger] patterns@[k])@,
                ) by {
                    assert(all[k] == patterns@[k]@);
                }
            }
            match create::create_clause(&p.rows, patterns, &mut p.graph, inputs, st) {
                Err(e) => Err(e),
                Ok(rows) => {
                    p.rows = rows;
                    Ok(())
                },
            }
        },
        BoundClause::SetItems { items, .. } => {
            match change::set_clause(&p.rows, items, &mut p.graph, inputs, st) {
                Err(e) => Err(e),
                Ok(rows) => {
                    p.rows = rows;
                    Ok(())
                },
            }
        },
        BoundClause::Remove { items, .. } => {
            match change::remove_clause(&p.rows, items, &mut p.graph) {
                Err(e) => Err(e),
                Ok(rows) => {
                    p.rows = rows;
                    Ok(())
                },
            }
        },
        BoundClause::Delete { detach, targets, span } => delete::delete_clause(
            *detach,
            targets,
            *span,
            &p.rows,
            &mut p.graph,
            inputs,
            st,
        ),
        BoundClause::Merge { pattern, on_create, on_match, .. } => {
            match merge::merge_clause(
                &p.rows,
                pattern,
                on_create,
                on_match,
                &mut p.graph,
                inputs,
                st,
            ) {
                Err(e) => Err(e),
                Ok(rows) => {
                    p.rows = rows;
                    Ok(())
                },
            }
        },
    }
}

fn run_clauses<'g, G: GraphSource, R: VersionResolver, P: ProcedureProvider>(
    clauses: &Vec<BoundClause>,
    p: &mut Pipeline<'g, G>,
    resolver: &R,
    provider: &P,
    inputs: &Inputs,
    st: &mut EvalState,
) -> (r: Result<(), ExecError>)
    requires
        forall|i: int| 0 <= i < clauses@.len() ==> clause_is_sound((#[trigger] clauses@[i])@),
    ensures
        runs(
            r,
            old(st)@,
            final(st)@,
            final(p)@,
            ran_from(
                bound::bound_clauses_view(clauses@),
                0,
                old(p)@,
                inputs@,
                world_of(resolver, provider),
                old(st)@,
            ),
        ),
{
    broadcast use crate::exec::poll_laws::group_polls;

    let ghost all = bound::bound_clauses_view(clauses@);
    let ghost world = world_of(resolver, provider);
    let ghost given = inputs@;
    let ghost model = ran_from(all, 0, p@, given, world, st@);
    let mut k: usize = 0;
    while k < clauses.len()
        invariant
            k <= clauses.len(),
            forall|i: int| 0 <= i < clauses@.len() ==> clause_is_sound((#[trigger] clauses@[i])@),
            all == bound::bound_clauses_view(clauses@),
            world == world_of(resolver, provider),
            given == inputs@,
            st@.budget.timed == old(st)@.budget.timed,
            st@.budget.polled >= old(st)@.budget.polled,
            model == ran_from(all, 0, old(p)@, given, world, old(st)@),
            model == ran_from(all, k as int, p@, given, world, st@),
        decreases clauses.len() - k,
    {
        broadcast use crate::exec::poll_laws::group_polls;

        reveal(ran_from);
        assert(all[k as int] == clauses@[k as int]@);
        let last = k == clauses.len() - 1;
        if let Err(e) = run_clause(&clauses[k], last, p, resolver, provider, inputs, st) {
            return Err(e);
        }
        k += 1;
    }
    reveal(ran_from);
    Ok(())
}

fn run_pipeline<'g, R: VersionResolver, P: ProcedureProvider>(
    query: &BoundQuery,
    resolver: &'g R,
    provider: &P,
    inputs: &Inputs,
    st: &mut EvalState,
) -> (r: Result<Pipeline<'g, R::Base>, ExecError>)
    requires
        query_is_sound(query@),
    ensures
        final(st)@.budget.timed == old(st)@.budget.timed,
        final(st)@.budget.polled >= old(st)@.budget.polled,
        ({
            let model = query_run(
                query@,
                resolver.base_graph(),
                inputs@,
                world_of(resolver, provider),
                old(st)@,
            );
            governor::timed_out(old(st)@.budget, model.spent.budget, r) || (match r {
                Ok(p) => model.result == Ok::<_, ExecErrorView>(p@),
                Err(e) => model.result == Err::<Progress, _>(e@),
            } && final(st)@ == model.spent)
        }),
{
    broadcast use crate::exec::poll_laws::group_polls;

    proof {
        let all = bound::bound_clauses_view(query.clauses@);
        assert forall|i: int| 0 <= i < query.clauses@.len() implies clause_is_sound(
            (#[trigger] query.clauses@[i])@,
        ) by {
            assert(all[i] == query.clauses@[i]@);
        }
    }
    let mut p = Pipeline::new(resolver.base());
    if let Err(e) = run_clauses(&query.clauses, &mut p, resolver, provider, inputs, st) {
        return Err(e);
    }
    Ok(p)
}

/// Execute with an explicit state, whose governor spans the query.
pub fn execute_with_governor<R: VersionResolver, P: ProcedureProvider>(
    query: &BoundQuery,
    resolver: &R,
    provider: &P,
    parameters: &PropertyMap,
    floats: &FloatTable,
    st: &mut EvalState,
) -> (r: Result<QueryResult, ExecError>)
    requires
        query_is_sound(query@),
    ensures
        final(st)@.budget.timed == old(st)@.budget.timed,
        final(st)@.budget.polled >= old(st)@.budget.polled,
        ({
            let model = query_run(
                query@,
                resolver.base_graph(),
                (Given { parameters: parameters@, floats: floats@ }),
                world_of(resolver, provider),
                old(st)@,
            );
            answers(r, old(st)@, model) && (governor::timed_out(old(st)@.budget, model.spent.budget, r) || final(st)@
                == model.spent)
        }),
{
    broadcast use crate::exec::poll_laws::group_polls;

    let inputs = Inputs { parameters, floats };
    match run_pipeline(query, resolver, provider, &inputs, st) {
        Err(e) => Err(e),
        Ok(p) => Ok(p.finish()),
    }
}

/// The state that a query starts with, under limits.
pub open spec fn fresh(limits: QueryLimits) -> Spent {
    Spent { budget: Budget::fresh(limits), cursor: 0 }
}

/// Whether a query came to what the model says, under limits. The clock runs
/// only where the limits set one.
pub open spec fn answers_within(
    r: Result<QueryResult, ExecError>,
    query: BoundQueryView,
    base: GraphView,
    given: Given,
    world: World,
    limits: QueryLimits,
) -> bool {
    answers(r, fresh(limits), query_run(query, base, given, world, fresh(limits)))
}

/// Execute against a version resolver and a procedure provider, under limits.
pub fn execute_versioned_with_limits<R: VersionResolver, P: ProcedureProvider>(
    query: &BoundQuery,
    resolver: &R,
    provider: &P,
    parameters: &PropertyMap,
    floats: &FloatTable,
    limits: QueryLimits,
) -> (r: Result<QueryResult, ExecError>)
    requires
        query_is_sound(query@),
    ensures
        answers_within(
            r,
            query@,
            resolver.base_graph(),
            (Given { parameters: parameters@, floats: floats@ }),
            world_of(resolver, provider),
            limits,
        ),
{
    let mut st = EvalState::new(limits);
    assert(st@ == fresh(limits));
    execute_with_governor(query, resolver, provider, parameters, floats, &mut st)
}

/// Execute against a version resolver and a procedure provider, under the
/// default limits.
pub fn execute_versioned_with<R: VersionResolver, P: ProcedureProvider>(
    query: &BoundQuery,
    resolver: &R,
    provider: &P,
    parameters: &PropertyMap,
    floats: &FloatTable,
) -> (r: Result<QueryResult, ExecError>)
    requires
        query_is_sound(query@),
    ensures
        answers(
            r,
            fresh(governor::default_limits()),
            query_run(
                query@,
                resolver.base_graph(),
                (Given { parameters: parameters@, floats: floats@ }),
                world_of(resolver, provider),
                fresh(governor::default_limits()),
            ),
        ),
{
    execute_versioned_with_limits(
        query,
        resolver,
        provider,
        parameters,
        floats,
        QueryLimits::default(),
    )
}

/// Execute against a version resolver, so `MATCH ... AT <ref>` clauses query
/// the graph at that commit while the rest of the query sees the base version.
///
/// Cross-version identity: a node bound in an `AT` clause carries its values
/// (labels, properties) as a snapshot of that version, but is identified by its
/// natural key, which is stable across versions. So re-anchoring it in a later
/// base-version clause, `MATCH (h) AT old MATCH (h)-[:R]->(x)`, walks the *base*
/// topology from that node's identity: the old node's values with current
/// edges.
pub fn execute_versioned<R: VersionResolver>(
    query: &BoundQuery,
    resolver: &R,
    parameters: &PropertyMap,
    floats: &FloatTable,
) -> (r: Result<QueryResult, ExecError>)
    requires
        query_is_sound(query@),
    ensures
        answers(
            r,
            fresh(governor::default_limits()),
            query_run(
                query@,
                resolver.base_graph(),
                (Given { parameters: parameters@, floats: floats@ }),
                world_of(resolver, &NoProcedures),
                fresh(governor::default_limits()),
            ),
        ),
{
    execute_versioned_with(query, resolver, &NoProcedures, parameters, floats)
}

/// What a query can ask for where there is a single fixed graph and no
/// procedures.
pub open spec fn closed_world() -> World {
    World {
        graph_at: |refspec: Seq<char>|
            Err(
                "AT '"@ + refspec
                    + "' needs a repository-backed resolver; this query has a single fixed graph"@,
            ),
        outcome: feed::outcome_of(&NoProcedures),
    }
}

/// Execute against a single fixed graph under limits.
pub fn execute_with_limits<G: GraphSource>(
    query: &BoundQuery,
    graph: &G,
    parameters: &PropertyMap,
    floats: &FloatTable,
    limits: QueryLimits,
) -> (r: Result<QueryResult, ExecError>)
    requires
        query_is_sound(query@),
    ensures
        answers_within(
            r,
            query@,
            graph.graph(),
            (Given { parameters: parameters@, floats: floats@ }),
            closed_world(),
            limits,
        ),
{
    let resolver = SingleVersion::new(graph);
    assert(world_of(&resolver, &NoProcedures).graph_at =~= closed_world().graph_at);
    execute_versioned_with_limits(query, &resolver, &NoProcedures, parameters, floats, limits)
}

/// Execute against a single fixed graph. `AT <ref>` clauses are unsupported on
/// this path (no repository to resolve refs against).
pub fn execute<G: GraphSource>(
    query: &BoundQuery,
    graph: &G,
    parameters: &PropertyMap,
    floats: &FloatTable,
) -> (r: Result<QueryResult, ExecError>)
    requires
        query_is_sound(query@),
    ensures
        answers(
            r,
            fresh(governor::default_limits()),
            query_run(
                query@,
                graph.graph(),
                (Given { parameters: parameters@, floats: floats@ }),
                closed_world(),
                fresh(governor::default_limits()),
            ),
        ),
{
    execute_with_limits(query, graph, parameters, floats, QueryLimits::default())
}

/// Execute a write query under limits, yielding its output and its net effect
/// on the base graph.
pub fn execute_write_with_limits<R: VersionResolver, P: ProcedureProvider>(
    query: &BoundQuery,
    resolver: &R,
    provider: &P,
    parameters: &PropertyMap,
    floats: &FloatTable,
    limits: QueryLimits,
) -> (r: Result<(QueryResult, WriteChanges), ExecError>)
    requires
        query_is_sound(query@),
    ensures
        writes_within(
            r,
            query@,
            resolver.base_graph(),
            (Given { parameters: parameters@, floats: floats@ }),
            world_of(resolver, provider),
            limits,
        ),
{
    let mut st = EvalState::new(limits);
    assert(st@ == fresh(limits));
    let inputs = Inputs { parameters, floats };
    match run_pipeline(query, resolver, provider, &inputs, &mut st) {
        Err(e) => Err(e),
        Ok(p) => {
            let net = p.graph.changes();
            Ok((p.finish(), net))
        },
    }
}

/// Whether a write query came to what the model says: its output, and the net
/// effect of its pending writes.
pub open spec fn writes_within(
    r: Result<(QueryResult, WriteChanges), ExecError>,
    query: BoundQueryView,
    base: GraphView,
    given: Given,
    world: World,
    limits: QueryLimits,
) -> bool {
    let model = query_run(query, base, given, world, fresh(limits));
    governor::timed_out(fresh(limits).budget, model.spent.budget, r) || match r {
        Ok(out) => model.result is Ok && out.0@ == result_of(model.result->Ok_0) && out.1@
            == model.result->Ok_0.overlay.net(),
        Err(e) => model.result == Err::<Progress, _>(e@),
    }
}

/// Execute a write query against a version resolver under the default
/// limits, yielding its output and its net effect on the graph.
pub fn execute_write<R: VersionResolver>(
    query: &BoundQuery,
    resolver: &R,
    parameters: &PropertyMap,
    floats: &FloatTable,
) -> (r: Result<(QueryResult, WriteChanges), ExecError>)
    requires
        query_is_sound(query@),
    ensures
        writes_within(
            r,
            query@,
            resolver.base_graph(),
            (Given { parameters: parameters@, floats: floats@ }),
            world_of(resolver, &NoProcedures),
            governor::default_limits(),
        ),
{
    execute_write_with_limits(
        query,
        resolver,
        &NoProcedures,
        parameters,
        floats,
        QueryLimits::default(),
    )
}

} // verus!
