//! `MERGE`: match the pattern, or create the whole of it where nothing
//! matches.

use vstd::prelude::*;

use crate::bind::bound::{
    self, BoundPathPattern, BoundPathPatternView, BoundSetItem, BoundSetItemView,
};
use crate::exec::change;
use crate::exec::create::{self, Given, Inputs, WroteAll};
use crate::exec::eval::EvalState;
use crate::exec::fault::{ExecError, ExecErrorView};
use crate::exec::governor;
use crate::exec::matching::{self, MatchState};
use crate::exec::overlay::{MutableGraph, OverlayView};
use crate::exec::refresh;
use crate::exec::row::{self, Row};
use crate::exec::semantics::{self, Spent};
use crate::exec::source::GraphSource;
use crate::exec::value::ValueView;
use crate::exec::walk::{self, Matched};

verus! {

/// The rows of `states` from `i` on with `ON MATCH` applied, behind `out`, each
/// charged.
#[verifier::opaque]
pub open spec fn matches_set(
    states: Seq<Matched>,
    i: int,
    items: Seq<BoundSetItemView>,
    o: OverlayView,
    given: Given,
    spent: Spent,
    out: Seq<Map<u32, ValueView>>,
) -> WroteAll
    decreases states.len() - i,
{
    if i < 0 || i >= states.len() {
        WroteAll { result: Ok((out, o)), spent }
    } else {
        let w = change::items_set(items, 0, states[i].row, o, given, spent);
        match w.result {
            Err(e) => WroteAll { result: Err(e), spent: w.spent },
            Ok((row, o)) => {
                let c = w.spent.budget.row(out.len());
                let after = semantics::with_budget(w.spent, c.budget);
                match c.result {
                    Err(e) => WroteAll { result: Err(e), spent: after },
                    Ok(_) => matches_set(states, i + 1, items, o, given, after, out.push(row)),
                }
            },
        }
    }
}

/// One row: the pattern's matches, or where it has none the pattern created.
#[verifier::opaque]
pub open spec fn row_merged(
    row: Map<u32, ValueView>,
    pattern: BoundPathPatternView,
    on_create: Seq<BoundSetItemView>,
    on_match: Seq<BoundSetItemView>,
    o: OverlayView,
    given: Given,
    spent: Spent,
    out: Seq<Map<u32, ValueView>>,
) -> WroteAll {
    let found = walk::continued_from(
        pattern,
        seq![Matched { row, used: seq![] }],
        0,
        given.env(o.graph()),
        spent,
        seq![],
    );
    match found.result {
        Err(e) => WroteAll { result: Err(e), spent: found.spent },
        Ok(states) => if states.len() > 0 {
            matches_set(states, 0, on_match, o, given, found.spent, out)
        } else {
            let w = create::path_made(pattern, row, o, given, found.spent);
            match w.result {
                Err(e) => WroteAll { result: Err(e), spent: w.spent },
                Ok((row, o)) => matches_set(
                    seq![Matched { row, used: seq![] }],
                    0,
                    on_create,
                    o,
                    given,
                    w.spent,
                    out,
                ),
            }
        },
    }
}

/// The rows from `i` on, merged one after the other, behind `out`.
#[verifier::opaque]
pub open spec fn merged_from(
    rows: Seq<Map<u32, ValueView>>,
    i: int,
    pattern: BoundPathPatternView,
    on_create: Seq<BoundSetItemView>,
    on_match: Seq<BoundSetItemView>,
    o: OverlayView,
    given: Given,
    spent: Spent,
    out: Seq<Map<u32, ValueView>>,
) -> WroteAll
    decreases rows.len() - i,
{
    if i < 0 || i >= rows.len() {
        WroteAll { result: Ok((refresh::refreshed_rows(out, o), o)), spent }
    } else {
        let w = row_merged(rows[i], pattern, on_create, on_match, o, given, spent, out);
        match w.result {
            Err(e) => w,
            Ok((out, o)) => merged_from(
                rows,
                i + 1,
                pattern,
                on_create,
                on_match,
                o,
                given,
                w.spent,
                out,
            ),
        }
    }
}

/// Whether writing behind `out` came to what the model says.
pub open spec fn wrote_behind(
    r: Result<(), ExecError>,
    before: Spent,
    after: Spent,
    out: Seq<Row>,
    o: OverlayView,
    model: WroteAll,
) -> bool {
    &&& after.budget.timed == before.budget.timed
    &&& after.budget.polled >= before.budget.polled
    &&& governor::timed_out(before.budget, model.spent.budget, r) || (match r {
        Ok(_) => model.result == Ok::<_, ExecErrorView>((row::rows_view(out), o)),
        Err(e) => model.result == Err::<(Seq<Map<u32, ValueView>>, OverlayView), _>(e@),
    } && after == model.spent)
}

fn set_on_states<G: GraphSource>(
    states: &Vec<MatchState>,
    items: &Vec<BoundSetItem>,
    graph: &mut MutableGraph<G>,
    inputs: &Inputs,
    st: &mut EvalState,
    out: &mut Vec<Row>,
) -> (r: Result<(), ExecError>)
    ensures
        wrote_behind(
            r,
            old(st)@,
            final(st)@,
            final(out)@,
            final(graph)@,
            matches_set(
                matching::match_states_view(states@),
                0,
                bound::bound_set_items_view(items@),
                old(graph)@,
                inputs@,
                old(st)@,
                row::rows_view(old(out)@),
            ),
        ),
{
    broadcast use crate::exec::poll_laws::group_polls;

    let ghost all = matching::match_states_view(states@);
    let ghost its = bound::bound_set_items_view(items@);
    let ghost given = inputs@;
    let ghost model = matches_set(all, 0, its, graph@, given, st@, row::rows_view(out@));
    let mut i: usize = 0;
    while i < states.len()
        invariant
            i <= states.len(),
            all == matching::match_states_view(states@),
            its == bound::bound_set_items_view(items@),
            given == inputs@,
            st@.budget.timed == old(st)@.budget.timed,
            st@.budget.polled >= old(st)@.budget.polled,
            model == matches_set(
                all,
                0,
                its,
                old(graph)@,
                given,
                old(st)@,
                row::rows_view(old(out)@),
            ),
            model == matches_set(all, i as int, its, graph@, given, st@, row::rows_view(out@)),
        decreases states.len() - i,
    {
        broadcast use crate::exec::poll_laws::group_polls;

        reveal(matches_set);
        assert(all[i as int] == states@[i as int]@);
        let mut row = states[i].row.dup();
        if let Err(e) = change::set_items(items, &mut row, graph, inputs, st) {
            return Err(e);
        }
        if let Err(e) = st.governor.row(out.len()) {
            return Err(e);
        }
        assert(row::rows_view(out@.push(row)) =~= row::rows_view(out@).push(row@));
        out.push(row);
        i += 1;
    }
    reveal(matches_set);
    Ok(())
}

fn only_state(row: Row) -> (r: Vec<MatchState>)
    ensures
        matching::match_states_view(r@) == seq![Matched { row: row@, used: seq![] }],
{
    let mut states: Vec<MatchState> = Vec::new();
    let state = MatchState { row, used_rels: Vec::new() };
    assert(state@.used =~= seq![]);
    states.push(state);
    assert(matching::match_states_view(states@) =~= seq![Matched { row: row@, used: seq![] }]);
    states
}

fn merge_row<G: GraphSource>(
    row: &Row,
    pattern: &BoundPathPattern,
    on_create: &Vec<BoundSetItem>,
    on_match: &Vec<BoundSetItem>,
    graph: &mut MutableGraph<G>,
    inputs: &Inputs,
    st: &mut EvalState,
    out: &mut Vec<Row>,
) -> (r: Result<(), ExecError>)
    requires
        create::creatable(pattern@),
    ensures
        wrote_behind(
            r,
            old(st)@,
            final(st)@,
            final(out)@,
            final(graph)@,
            row_merged(
                row@,
                pattern@,
                bound::bound_set_items_view(on_create@),
                bound::bound_set_items_view(on_match@),
                old(graph)@,
                inputs@,
                old(st)@,
                row::rows_view(old(out)@),
            ),
        ),
{
    broadcast use crate::exec::poll_laws::group_polls;

    reveal(row_merged);
    let first = only_state(row.dup());
    let mut states: Vec<MatchState> = Vec::new();
    assert(matching::match_states_view(states@) =~= seq![]);
    let ctx = inputs.context(&*graph);
    if let Err(e) = matching::match_states(pattern, &first, &ctx, st, &mut states) {
        return Err(e);
    }
    if states.len() > 0 {
        return set_on_states(&states, on_match, graph, inputs, st, out);
    }
    let mut made = row.dup();
    if let Err(e) = create::create_path(pattern, &mut made, graph, inputs, st) {
        return Err(e);
    }
    set_on_states(&only_state(made), on_create, graph, inputs, st, out)
}

/// Execute a MERGE clause.
pub(crate) fn merge_clause<G: GraphSource>(
    rows: &Vec<Row>,
    pattern: &BoundPathPattern,
    on_create: &Vec<BoundSetItem>,
    on_match: &Vec<BoundSetItem>,
    graph: &mut MutableGraph<G>,
    inputs: &Inputs,
    st: &mut EvalState,
) -> (r: Result<Vec<Row>, ExecError>)
    requires
        create::creatable(pattern@),
    ensures
        create::wrote_rows(
            r,
            old(st)@,
            final(st)@,
            final(graph)@,
            merged_from(
                row::rows_view(rows@),
                0,
                pattern@,
                bound::bound_set_items_view(on_create@),
                bound::bound_set_items_view(on_match@),
                old(graph)@,
                inputs@,
                old(st)@,
                seq![],
            ),
        ),
{
    broadcast use crate::exec::poll_laws::group_polls;

    let ghost all = row::rows_view(rows@);
    let ghost p = pattern@;
    let ghost created = bound::bound_set_items_view(on_create@);
    let ghost matched = bound::bound_set_items_view(on_match@);
    let ghost given = inputs@;
    let ghost model = merged_from(all, 0, p, created, matched, graph@, given, st@, seq![]);
    let mut out: Vec<Row> = Vec::new();
    assert(row::rows_view(out@) =~= seq![]);
    let mut i: usize = 0;
    while i < rows.len()
        invariant
            i <= rows.len(),
            create::creatable(pattern@),
            all == row::rows_view(rows@),
            p == pattern@,
            created == bound::bound_set_items_view(on_create@),
            matched == bound::bound_set_items_view(on_match@),
            given == inputs@,
            st@.budget.timed == old(st)@.budget.timed,
            st@.budget.polled >= old(st)@.budget.polled,
            model == merged_from(
                all,
                0,
                p,
                created,
                matched,
                old(graph)@,
                given,
                old(st)@,
                seq![],
            ),
            model == merged_from(
                all,
                i as int,
                p,
                created,
                matched,
                graph@,
                given,
                st@,
                row::rows_view(out@),
            ),
        decreases rows.len() - i,
    {
        broadcast use crate::exec::poll_laws::group_polls;

        reveal(merged_from);
        assert(all[i as int] == rows@[i as int]@);
        if let Err(e) = merge_row(
            &rows[i],
            pattern,
            on_create,
            on_match,
            graph,
            inputs,
            st,
            &mut out,
        ) {
            return Err(e);
        }
        i += 1;
    }
    reveal(merged_from);
    Ok(refresh::refresh_rows(&out, graph))
}

} // verus!
