//! `UNWIND` and `CALL`: clauses that make rows out of lists and procedures.

use vstd::prelude::*;
use vstd::string::*;

use crate::bind::bound::{self, BoundExpr, BoundExprView, ProcedureDef, ProcedureDefView, VarId};
use crate::exec::eval::{self, EvalCtx, EvalState};
use crate::exec::fault::{ExecError, ExecErrorView};
use crate::exec::inspect;
use crate::exec::matching;
use crate::exec::operators;
use crate::exec::project;
use crate::exec::projection_model;
use crate::exec::row::{self, Row};
use crate::exec::semantics::{self, Env, Spent};
use crate::exec::source::{self, GraphSource, ProcedureProvider};
use crate::exec::value::{self, Value, ValueView};
use crate::exec::walk::{self, Produced};
use crate::span::Span;
use crate::text;

verus! {

// --- UNWIND -----------------------------------------------------------------------------------------

/// The rows that `UNWIND` makes of one row: one for each item of the list, none
/// for null.
#[verifier::opaque]
pub open spec fn row_unwound(
    row: Map<u32, ValueView>,
    expr: BoundExprView,
    alias: VarId,
    span: Span,
    env: Env,
    spent: Spent,
) -> Produced {
    let x = semantics::value_of(expr, row, env, spent);
    Produced {
        result: match x.result {
            Err(e) => Err(e),
            Ok(ValueView::Null) => Ok(seq![]),
            Ok(ValueView::List(items)) => Ok(
                Seq::new(items.len(), |i: int| row.insert(alias.0, items[i])),
            ),
            Ok(other) => Err(
                operators::type_error(
                    "UNWIND needs a list, got "@ + inspect::type_label_of(other),
                    span,
                ),
            ),
        },
        spent: x.spent,
    }
}

/// The rows that `UNWIND` makes of `rows` from `i` on, behind `out`.
#[verifier::opaque]
pub open spec fn unwound_from(
    rows: Seq<Map<u32, ValueView>>,
    i: int,
    expr: BoundExprView,
    alias: VarId,
    span: Span,
    env: Env,
    spent: Spent,
    out: Seq<Map<u32, ValueView>>,
) -> Produced
    decreases rows.len() - i,
{
    if i < 0 || i >= rows.len() {
        Produced { result: Ok(out), spent }
    } else {
        let r = row_unwound(rows[i], expr, alias, span, env, spent);
        match r.result {
            Err(e) => r,
            Ok(found) => {
                let a = walk::appended_from(found, 0, out, r.spent);
                match a.result {
                    Err(e) => a,
                    Ok(all) => unwound_from(rows, i + 1, expr, alias, span, env, a.spent, all),
                }
            },
        }
    }
}

fn unwind_row<G: GraphSource>(
    row: &Row,
    expr: &BoundExpr,
    alias: VarId,
    span: Span,
    ctx: &EvalCtx<G>,
    st: &mut EvalState,
) -> (r: Result<Vec<Row>, ExecError>)
    ensures
        matching::produces(
            r,
            old(st)@,
            final(st)@,
            row_unwound(row@, expr@, alias, span, ctx@, old(st)@),
        ),
{
    broadcast use crate::exec::poll_laws::group_polls;

    reveal(row_unwound);
    let list = match eval::eval_value(expr, row, ctx, st) {
        Err(e) => {
            return Err(e);
        },
        Ok(v) => v,
    };
    let mut out: Vec<Row> = Vec::new();
    match list {
        Value::Null => {
            assert(row::rows_view(out@) =~= seq![]);
            Ok(out)
        },
        Value::List(items) => {
            let ghost all = value::values_view(items@);
            let mut i: usize = 0;
            while i < items.len()
                invariant
                    i <= items.len(),
                    all == value::values_view(items@),
                    out@.len() == i,
                    forall|k: int|
                        0 <= k < i ==> (#[trigger] out@[k])@ == row@.insert(alias.0, all[k]),
                decreases items.len() - i,
            {
                let mut next = row.dup();
                next.set(alias, items[i].dup());
                out.push(next);
                i += 1;
            }
            assert(row::rows_view(out@) =~= Seq::new(
                all.len(),
                |i: int| row@.insert(alias.0, all[i]),
            ));
            Ok(out)
        },
        other => Err(
            operators::type_err(text::join2("UNWIND needs a list, got ", other.type_label()), span),
        ),
    }
}

/// Execute an UNWIND clause.
pub(crate) fn unwind_clause<G: GraphSource>(
    rows: &Vec<Row>,
    expr: &BoundExpr,
    alias: VarId,
    span: Span,
    ctx: &EvalCtx<G>,
    st: &mut EvalState,
) -> (r: Result<Vec<Row>, ExecError>)
    ensures
        matching::produces(
            r,
            old(st)@,
            final(st)@,
            unwound_from(row::rows_view(rows@), 0, expr@, alias, span, ctx@, old(st)@, seq![]),
        ),
{
    broadcast use crate::exec::poll_laws::group_polls;

    let ghost all = row::rows_view(rows@);
    let ghost e = expr@;
    let ghost model = unwound_from(all, 0, e, alias, span, ctx@, st@, seq![]);
    let mut out: Vec<Row> = Vec::new();
    assert(row::rows_view(out@) =~= seq![]);
    let mut i: usize = 0;
    while i < rows.len()
        invariant
            i <= rows.len(),
            all == row::rows_view(rows@),
            e == expr@,
            st@.budget.timed == old(st)@.budget.timed,
            st@.budget.polled >= old(st)@.budget.polled,
            model == unwound_from(all, 0, e, alias, span, ctx@, old(st)@, seq![]),
            model == unwound_from(all, i as int, e, alias, span, ctx@, st@, row::rows_view(out@)),
        decreases rows.len() - i,
    {
        broadcast use crate::exec::poll_laws::group_polls;

        reveal(unwound_from);
        assert(all[i as int] == rows@[i as int]@);
        let found = match unwind_row(&rows[i], expr, alias, span, ctx, st) {
            Err(e) => {
                return Err(e);
            },
            Ok(found) => found,
        };
        if let Err(e) = matching::append_rows(&found, &mut out, st) {
            return Err(e);
        }
        i += 1;
    }
    reveal(unwound_from);
    Ok(out)
}

// --- CALL -------------------------------------------------------------------------------------------

/// Where `name` first stands among `columns` from `i` on.
pub open spec fn column_at(columns: Seq<Seq<char>>, name: Seq<char>, i: int) -> Option<int>
    decreases columns.len() - i,
{
    if i < 0 || i >= columns.len() {
        None
    } else if columns[i] == name {
        Some(i)
    } else {
        column_at(columns, name, i + 1)
    }
}

/// The cell of a result tuple under a column, null where it has none.
pub open spec fn cell(
    columns: Seq<Seq<char>>,
    name: Seq<char>,
    tuple: Seq<ValueView>,
) -> ValueView {
    match column_at(columns, name, 0) {
        Some(i) => if i < tuple.len() {
            tuple[i]
        } else {
            ValueView::Null
        },
        None => ValueView::Null,
    }
}

/// The row with the first `n` of the yielded columns bound.
pub open spec fn yielded(
    row: Map<u32, ValueView>,
    yields: Seq<(Seq<char>, VarId)>,
    n: nat,
    columns: Seq<Seq<char>>,
    tuple: Seq<ValueView>,
) -> Map<u32, ValueView>
    decreases n,
{
    if n == 0 || n > yields.len() {
        row
    } else {
        yielded(row, yields, (n - 1) as nat, columns, tuple).insert(
            yields[n - 1].1.0,
            cell(columns, yields[n - 1].0, tuple),
        )
    }
}

/// The row extended by each result tuple.
pub open spec fn extended(
    row: Map<u32, ValueView>,
    yields: Seq<(Seq<char>, VarId)>,
    columns: Seq<Seq<char>>,
    tuples: Seq<Seq<ValueView>>,
) -> Seq<Map<u32, ValueView>> {
    Seq::new(tuples.len(), |i: int| yielded(row, yields, yields.len(), columns, tuples[i]))
}

/// What calling a procedure with arguments comes to.
pub type Outcome = spec_fn(Seq<char>, Seq<ValueView>) -> Result<Seq<Seq<ValueView>>, Seq<char>>;

/// The rows that `CALL` makes of one row: one for each result of which the
/// predicate is true.
#[verifier::opaque]
pub open spec fn row_called(
    row: Map<u32, ValueView>,
    procedure: ProcedureDefView,
    args: Seq<BoundExprView>,
    yields: Seq<(Seq<char>, VarId)>,
    predicate: Option<BoundExprView>,
    span: Span,
    outcome: Outcome,
    env: Env,
    spent: Spent,
) -> Produced {
    let a = semantics::arguments_from(args, 0, seq![], row, env, spent);
    match a.result {
        Err(e) => Produced { result: Err(e), spent: a.spent },
        Ok(values) => match outcome(procedure.name, values) {
            Err(message) => Produced {
                result: Err(ExecErrorView::InvalidArgument { message, span }),
                spent: a.spent,
            },
            Ok(tuples) => projection_model::filtered_from(
                extended(row, yields, procedure.yields, tuples),
                0,
                predicate,
                env,
                a.spent,
                seq![],
            ),
        },
    }
}

/// The rows that `CALL` makes of `rows` from `i` on, behind `out`.
#[verifier::opaque]
pub open spec fn called_from(
    rows: Seq<Map<u32, ValueView>>,
    i: int,
    procedure: ProcedureDefView,
    args: Seq<BoundExprView>,
    yields: Seq<(Seq<char>, VarId)>,
    predicate: Option<BoundExprView>,
    span: Span,
    outcome: Outcome,
    env: Env,
    spent: Spent,
    out: Seq<Map<u32, ValueView>>,
) -> Produced
    decreases rows.len() - i,
{
    if i < 0 || i >= rows.len() {
        Produced { result: Ok(out), spent }
    } else {
        let r = row_called(
            rows[i],
            procedure,
            args,
            yields,
            predicate,
            span,
            outcome,
            env,
            spent,
        );
        match r.result {
            Err(e) => r,
            Ok(found) => {
                let a = walk::appended_from(found, 0, out, r.spent);
                match a.result {
                    Err(e) => a,
                    Ok(all) => called_from(
                        rows,
                        i + 1,
                        procedure,
                        args,
                        yields,
                        predicate,
                        span,
                        outcome,
                        env,
                        a.spent,
                        all,
                    ),
                }
            },
        }
    }
}

/// What a provider's calls come to.
pub open spec fn outcome_of<P: ProcedureProvider>(provider: &P) -> Outcome {
    |name: Seq<char>, args: Seq<ValueView>| provider.outcome(name, args)
}

fn cell_under(columns: &Vec<&'static str>, name: &str, tuple: &Vec<Value>) -> (r: Value)
    ensures
        r@ == cell(bound::strs_view(columns@), name@, value::values_view(tuple@)),
{
    let ghost all = bound::strs_view(columns@);
    let mut i: usize = 0;
    while i < columns.len()
        invariant
            i <= columns.len(),
            all == bound::strs_view(columns@),
            column_at(all, name@, 0) == column_at(all, name@, i as int),
        decreases columns.len() - i,
    {
        assert(all[i as int] == columns@[i as int]@);
        if text::str_eq(columns[i], name) {
            return if i < tuple.len() {
                tuple[i].dup()
            } else {
                Value::Null
            };
        }
        i += 1;
    }
    Value::Null
}

fn yield_tuple(
    row: &Row,
    yields: &Vec<(String, VarId)>,
    columns: &Vec<&'static str>,
    tuple: &Vec<Value>,
) -> (r: Row)
    ensures
        r@ == yielded(
            row@,
            bound::string_var_ids_view(yields@),
            yields@.len(),
            bound::strs_view(columns@),
            value::values_view(tuple@),
        ),
{
    let ghost all = bound::string_var_ids_view(yields@);
    let ghost cols = bound::strs_view(columns@);
    let ghost cells = value::values_view(tuple@);
    let mut out = row.dup();
    let mut i: usize = 0;
    while i < yields.len()
        invariant
            i <= yields.len(),
            all == bound::string_var_ids_view(yields@),
            cols == bound::strs_view(columns@),
            cells == value::values_view(tuple@),
            out@ == yielded(row@, all, i as nat, cols, cells),
        decreases yields.len() - i,
    {
        assert(all[i as int] == (yields@[i as int].0@, yields@[i as int].1));
        out.set(yields[i].1, cell_under(columns, yields[i].0.as_str(), tuple));
        i += 1;
    }
    out
}

fn extend_row(
    row: &Row,
    yields: &Vec<(String, VarId)>,
    columns: &Vec<&'static str>,
    tuples: &Vec<Vec<Value>>,
) -> (r: Vec<Row>)
    ensures
        row::rows_view(r@) == extended(
            row@,
            bound::string_var_ids_view(yields@),
            bound::strs_view(columns@),
            source::value_rows_view(tuples@),
        ),
{
    let ghost ys = bound::string_var_ids_view(yields@);
    let ghost cols = bound::strs_view(columns@);
    let ghost all = source::value_rows_view(tuples@);
    let mut out: Vec<Row> = Vec::new();
    let mut i: usize = 0;
    while i < tuples.len()
        invariant
            i <= tuples.len(),
            ys == bound::string_var_ids_view(yields@),
            cols == bound::strs_view(columns@),
            all == source::value_rows_view(tuples@),
            out@.len() == i,
            forall|k: int|
                0 <= k < i ==> (#[trigger] out@[k])@ == yielded(row@, ys, ys.len(), cols, all[k]),
        decreases tuples.len() - i,
    {
        assert(all[i as int] == value::values_view(tuples@[i as int]@));
        out.push(yield_tuple(row, yields, columns, &tuples[i]));
        i += 1;
    }
    assert(row::rows_view(out@) =~= extended(row@, ys, cols, all));
    out
}

fn call_row<G: GraphSource, P: ProcedureProvider>(
    row: &Row,
    procedure: &ProcedureDef,
    args: &Vec<BoundExpr>,
    yields: &Vec<(String, VarId)>,
    predicate: &Option<BoundExpr>,
    span: Span,
    provider: &P,
    ctx: &EvalCtx<G>,
    st: &mut EvalState,
) -> (r: Result<Vec<Row>, ExecError>)
    ensures
        matching::produces(
            r,
            old(st)@,
            final(st)@,
            row_called(
                row@,
                procedure@,
                bound::bound_exprs_view(args@),
                bound::string_var_ids_view(yields@),
                matching::optional_expr(*predicate),
                span,
                outcome_of(provider),
                ctx@,
                old(st)@,
            ),
        ),
{
    broadcast use crate::exec::poll_laws::group_polls;

    reveal(row_called);
    let values = match eval::eval_arguments(args, row, ctx, st) {
        Err(e) => {
            return Err(e);
        },
        Ok(values) => values,
    };
    match provider.call(procedure.name, &values) {
        Err(message) => Err(ExecError::InvalidArgument { message, span }),
        Ok(tuples) => {
            let found = extend_row(row, yields, &procedure.yields, &tuples);
            project::filter_rows(&found, predicate, ctx, st)
        },
    }
}

/// Execute a CALL clause.
pub(crate) fn call_clause<G: GraphSource, P: ProcedureProvider>(
    rows: &Vec<Row>,
    procedure: &ProcedureDef,
    args: &Vec<BoundExpr>,
    yields: &Vec<(String, VarId)>,
    predicate: &Option<BoundExpr>,
    span: Span,
    provider: &P,
    ctx: &EvalCtx<G>,
    st: &mut EvalState,
) -> (r: Result<Vec<Row>, ExecError>)
    ensures
        matching::produces(
            r,
            old(st)@,
            final(st)@,
            called_from(
                row::rows_view(rows@),
                0,
                procedure@,
                bound::bound_exprs_view(args@),
                bound::string_var_ids_view(yields@),
                matching::optional_expr(*predicate),
                span,
                outcome_of(provider),
                ctx@,
                old(st)@,
                seq![],
            ),
        ),
{
    broadcast use crate::exec::poll_laws::group_polls;

    let ghost all = row::rows_view(rows@);
    let ghost p = procedure@;
    let ghost xs = bound::bound_exprs_view(args@);
    let ghost ys = bound::string_var_ids_view(yields@);
    let ghost w = matching::optional_expr(*predicate);
    let ghost f = outcome_of(provider);
    let ghost model = called_from(all, 0, p, xs, ys, w, span, f, ctx@, st@, seq![]);
    let mut out: Vec<Row> = Vec::new();
    assert(row::rows_view(out@) =~= seq![]);
    let mut i: usize = 0;
    while i < rows.len()
        invariant
            i <= rows.len(),
            all == row::rows_view(rows@),
            p == procedure@,
            xs == bound::bound_exprs_view(args@),
            ys == bound::string_var_ids_view(yields@),
            w == matching::optional_expr(*predicate),
            f == outcome_of(provider),
            st@.budget.timed == old(st)@.budget.timed,
            st@.budget.polled >= old(st)@.budget.polled,
            model == called_from(all, 0, p, xs, ys, w, span, f, ctx@, old(st)@, seq![]),
            model == called_from(
                all,
                i as int,
                p,
                xs,
                ys,
                w,
                span,
                f,
                ctx@,
                st@,
                row::rows_view(out@),
            ),
        decreases rows.len() - i,
    {
        broadcast use crate::exec::poll_laws::group_polls;

        reveal(called_from);
        assert(all[i as int] == rows@[i as int]@);
        let found = match call_row(
            &rows[i],
            procedure,
            args,
            yields,
            predicate,
            span,
            provider,
            ctx,
            st,
        ) {
            Err(e) => {
                return Err(e);
            },
            Ok(found) => found,
        };
        if let Err(e) = matching::append_rows(&found, &mut out, st) {
            return Err(e);
        }
        i += 1;
    }
    reveal(called_from);
    Ok(out)
}

} // verus!
