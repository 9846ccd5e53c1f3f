//! `DELETE` and `DETACH DELETE`.
//!
//! What to delete is collected over all rows first. Then the relationships go,
//! and last the nodes: whether a node may go is decided when the clause has
//! dropped its relationships, so a node and all its relationships can be
//! deleted together without `DETACH`.

use vstd::prelude::*;
use vstd::string::*;

use crate::ast::Direction;
use crate::bind::bound::{self, BoundExpr, BoundExprView};
use crate::exec::change::{self, Changed};
use crate::exec::create::{Given, Inputs};
use crate::exec::eval::{self, EvalCtx, EvalState};
use crate::exec::fault::{ExecError, ExecErrorView};
use crate::exec::governor;
use crate::exec::inspect;
use crate::exec::operators;
use crate::exec::overlay::{MutableGraph, OverlayView};
use crate::exec::row::{self, Row};
use crate::exec::semantics::{self, Env, Spent};
use crate::exec::source::{self, GraphSource};
use crate::exec::value::{
    self, EntityId, EntityIdView, NodeValueView, PathValue, RelValue, RelValueView, Value,
    ValueView,
};
use crate::span::Span;
use crate::text;

verus! {

/// What a clause deletes, in order.
pub struct Doomed {
    pub nodes: Seq<EntityIdView>,
    pub rels: Seq<RelValueView>,
}

impl Doomed {
    pub open spec fn nothing() -> Doomed {
        Doomed { nodes: seq![], rels: seq![] }
    }
}

/// The identities of the nodes of a path.
pub open spec fn ids_of(nodes: Seq<NodeValueView>) -> Seq<EntityIdView> {
    Seq::new(nodes.len(), |i: int| nodes[i].id)
}

/// `d` with what deleting `v` takes: an entity, or all elements of a path; null
/// takes nothing.
pub open spec fn doomed_with(d: Doomed, v: ValueView, span: Span) -> Result<Doomed, ExecErrorView> {
    match v {
        ValueView::Null => Ok(d),
        ValueView::Node(n) => Ok(Doomed { nodes: d.nodes.push(n.id), rels: d.rels }),
        ValueView::Relationship(r) => Ok(Doomed { nodes: d.nodes, rels: d.rels.push(r) }),
        ValueView::Path(p) => Ok(
            Doomed { nodes: d.nodes + ids_of(p.nodes), rels: d.rels + p.rels },
        ),
        other => Err(
            operators::type_error(
                "DELETE needs a node, relationship or path, got "@ + inspect::type_label_of(other),
                span,
            ),
        ),
    }
}

/// What collecting comes to.
pub struct Marked {
    pub result: Result<Doomed, ExecErrorView>,
    pub spent: Spent,
}

/// `d` with what the targets from `k` on take, for one row.
#[verifier::opaque]
pub open spec fn targets_marked(
    targets: Seq<BoundExprView>,
    k: int,
    row: Map<u32, ValueView>,
    env: Env,
    spent: Spent,
    d: Doomed,
) -> Marked
    decreases targets.len() - k,
{
    if k < 0 || k >= targets.len() {
        Marked { result: Ok(d), spent }
    } else {
        let x = semantics::value_of(targets[k], row, env, spent);
        match x.result {
            Err(e) => Marked { result: Err(e), spent: x.spent },
            Ok(v) => match doomed_with(d, v, semantics::bound_place(targets[k])) {
                Err(e) => Marked { result: Err(e), spent: x.spent },
                Ok(d) => targets_marked(targets, k + 1, row, env, x.spent, d),
            },
        }
    }
}

/// `d` with what the targets take for each of `rows` from `i` on.
#[verifier::opaque]
pub open spec fn rows_marked(
    targets: Seq<BoundExprView>,
    rows: Seq<Map<u32, ValueView>>,
    i: int,
    env: Env,
    spent: Spent,
    d: Doomed,
) -> Marked
    decreases rows.len() - i,
{
    if i < 0 || i >= rows.len() {
        Marked { result: Ok(d), spent }
    } else {
        let m = targets_marked(targets, 0, rows[i], env, spent, d);
        match m.result {
            Err(e) => m,
            Ok(d) => rows_marked(targets, rows, i + 1, env, m.spent, d),
        }
    }
}

/// The overlay without the first `n` of `rels`.
pub open spec fn rels_dropped(o: OverlayView, rels: Seq<RelValueView>, n: nat) -> OverlayView
    decreases n,
{
    if n == 0 || n > rels.len() {
        o
    } else {
        rels_dropped(o, rels, (n - 1) as nat).without_rel(rels[n - 1])
    }
}

/// The relationships of an expansion.
pub open spec fn rels_of(ways: Seq<(RelValueView, NodeValueView)>) -> Seq<RelValueView> {
    Seq::new(ways.len(), |i: int| ways[i].0)
}

/// The relationships that a node still has.
pub open spec fn incident(o: OverlayView, id: EntityIdView) -> Seq<RelValueView> {
    rels_of((o.graph().expand)(id, Direction::Undirected, seq![]))
}

pub open spec fn still_connected(span: Span) -> ExecErrorView {
    ExecErrorView::InvalidArgument {
        message: "cannot delete a node that still has relationships; use DETACH DELETE"@,
        span,
    }
}

/// The overlay with the nodes from `i` on freed of relationships: those that
/// they still have go with `DETACH`, and are an error without.
#[verifier::opaque]
pub open spec fn freed_from(
    o: OverlayView,
    nodes: Seq<EntityIdView>,
    i: int,
    detach: bool,
    span: Span,
) -> Result<OverlayView, ExecErrorView>
    decreases nodes.len() - i,
{
    if i < 0 || i >= nodes.len() {
        Ok(o)
    } else {
        let held = incident(o, nodes[i]);
        if held.len() > 0 && !detach {
            Err(still_connected(span))
        } else {
            freed_from(rels_dropped(o, held, held.len()), nodes, i + 1, detach, span)
        }
    }
}

/// The overlay without the first `n` of `nodes`.
pub open spec fn nodes_dropped(o: OverlayView, nodes: Seq<EntityIdView>, n: nat) -> OverlayView
    decreases n,
{
    if n == 0 || n > nodes.len() {
        o
    } else {
        nodes_dropped(o, nodes, (n - 1) as nat).without_node(nodes[n - 1])
    }
}

/// The clause as a whole.
#[verifier::opaque]
pub open spec fn deleted(
    detach: bool,
    targets: Seq<BoundExprView>,
    span: Span,
    rows: Seq<Map<u32, ValueView>>,
    o: OverlayView,
    given: Given,
    spent: Spent,
) -> Changed {
    let m = rows_marked(targets, rows, 0, given.env(o.graph()), spent, Doomed::nothing());
    Changed {
        result: match m.result {
            Err(e) => Err(e),
            Ok(d) => match freed_from(
                rels_dropped(o, d.rels, d.rels.len()),
                d.nodes,
                0,
                detach,
                span,
            ) {
                Err(e) => Err(e),
                Ok(o) => Ok(nodes_dropped(o, d.nodes, d.nodes.len())),
            },
        },
        spent: m.spent,
    }
}

// --- Execution --------------------------------------------------------------------------------------

struct DoomedLists {
    nodes: Vec<EntityId>,
    rels: Vec<RelValue>,
}

impl DoomedLists {
    spec fn view(&self) -> Doomed {
        Doomed { nodes: source::entity_ids_view(self.nodes@), rels: value::rel_values_view(self.rels@) }
    }

    fn mark_path(&mut self, p: &PathValue)
        ensures
            final(self)@ == (Doomed {
                nodes: old(self)@.nodes + ids_of(p@.nodes),
                rels: old(self)@.rels + p@.rels,
            }),
    {
        let ghost before = self@;
        let mut i: usize = 0;
        assert(self@.nodes =~= before.nodes + ids_of(p@.nodes).take(0));
        while i < p.nodes.len()
            invariant
                i <= p.nodes.len(),
                self@.rels == before.rels,
                self@.nodes == before.nodes + ids_of(p@.nodes).take(i as int),
            decreases p.nodes.len() - i,
        {
            assert(p@.nodes[i as int] == p.nodes@[i as int]@);
            let id = p.nodes[i].id.dup();
            let ghost v = self.nodes@;
            self.nodes.push(id);
            assert(source::entity_ids_view(v.push(id)) =~= source::entity_ids_view(v).push(id@));
            i += 1;
            assert(self@.nodes =~= before.nodes + ids_of(p@.nodes).take(i as int));
        }
        assert(ids_of(p@.nodes).take(i as int) =~= ids_of(p@.nodes));
        let mut j: usize = 0;
        assert(self@.rels =~= before.rels + p@.rels.take(0));
        while j < p.rels.len()
            invariant
                j <= p.rels.len(),
                self@.nodes == before.nodes + ids_of(p@.nodes),
                self@.rels == before.rels + p@.rels.take(j as int),
            decreases p.rels.len() - j,
        {
            assert(p@.rels[j as int] == p.rels@[j as int]@);
            let rel = p.rels[j].dup();
            let ghost v = self.rels@;
            self.rels.push(rel);
            assert(value::rel_values_view(v.push(rel)) =~= value::rel_values_view(v).push(rel@));
            j += 1;
            assert(self@.rels =~= before.rels + p@.rels.take(j as int));
        }
        assert(p@.rels.take(j as int) =~= p@.rels);
    }

    fn mark(&mut self, v: Value, span: Span) -> (r: Result<(), ExecError>)
        ensures
            doomed_with(old(self)@, v@, span) == match r {
                Ok(_) => Ok::<_, ExecErrorView>(final(self)@),
                Err(e) => Err(e@),
            },
    {
        match v {
            Value::Null => Ok(()),
            Value::Node(n) => {
                let ghost before = self.nodes@;
                let id = n.id.dup();
                self.nodes.push(id);
                assert(
                    source::entity_ids_view(before.push(id)) =~= source::entity_ids_view(before).push(id@)
                );
                Ok(())
            },
            Value::Relationship(x) => {
                let ghost before = self.rels@;
                self.rels.push(x);
                assert(
                    value::rel_values_view(before.push(x)) =~= value::rel_values_view(before).push(x@)
                );
                Ok(())
            },
            Value::Path(p) => {
                self.mark_path(&p);
                Ok(())
            },
            other => Err(
                operators::type_err(
                    text::join2(
                        "DELETE needs a node, relationship or path, got ",
                        other.type_label(),
                    ),
                    span,
                ),
            ),
        }
    }
}

spec fn marks(
    r: Result<(), ExecError>,
    before: Spent,
    after: Spent,
    d: Doomed,
    model: Marked,
) -> bool {
    &&& after.budget.timed == before.budget.timed
    &&& after.budget.polled >= before.budget.polled
    &&& governor::timed_out(before.budget, model.spent.budget, r) || (match r {
        Ok(_) => model.result == Ok::<_, ExecErrorView>(d),
        Err(e) => model.result == Err::<Doomed, _>(e@),
    } && after == model.spent)
}

fn mark_targets<G: GraphSource>(
    targets: &Vec<BoundExpr>,
    row: &Row,
    ctx: &EvalCtx<G>,
    st: &mut EvalState,
    d: &mut DoomedLists,
) -> (r: Result<(), ExecError>)
    ensures
        marks(
            r,
            old(st)@,
            final(st)@,
            final(d)@,
            targets_marked(bound::bound_exprs_view(targets@), 0, row@, ctx@, old(st)@, old(d)@),
        ),
{
    broadcast use crate::exec::poll_laws::group_polls;

    let ghost all = bound::bound_exprs_view(targets@);
    let ghost model = targets_marked(all, 0, row@, ctx@, st@, d@);
    let mut k: usize = 0;
    while k < targets.len()
        invariant
            k <= targets.len(),
            all == bound::bound_exprs_view(targets@),
            st@.budget.timed == old(st)@.budget.timed,
            st@.budget.polled >= old(st)@.budget.polled,
            model == targets_marked(all, 0, row@, ctx@, old(st)@, old(d)@),
            model == targets_marked(all, k as int, row@, ctx@, st@, d@),
        decreases targets.len() - k,
    {
        broadcast use crate::exec::poll_laws::group_polls;

        reveal(targets_marked);
        assert(all[k as int] == targets@[k as int]@);
        let v = match eval::eval_value(&targets[k], row, ctx, st) {
            Err(e) => {
                return Err(e);
            },
            Ok(v) => v,
        };
        if let Err(e) = d.mark(v, targets[k].span()) {
            return Err(e);
        }
        k += 1;
    }
    reveal(targets_marked);
    Ok(())
}

fn mark_rows<G: GraphSource>(
    targets: &Vec<BoundExpr>,
    rows: &Vec<Row>,
    ctx: &EvalCtx<G>,
    st: &mut EvalState,
    d: &mut DoomedLists,
) -> (r: Result<(), ExecError>)
    ensures
        marks(
            r,
            old(st)@,
            final(st)@,
            final(d)@,
            rows_marked(
                bound::bound_exprs_view(targets@),
                row::rows_view(rows@),
                0,
                ctx@,
                old(st)@,
                old(d)@,
            ),
        ),
{
    broadcast use crate::exec::poll_laws::group_polls;

    let ghost all = row::rows_view(rows@);
    let ghost ts = bound::bound_exprs_view(targets@);
    let ghost model = rows_marked(ts, all, 0, ctx@, st@, d@);
    let mut i: usize = 0;
    while i < rows.len()
        invariant
            i <= rows.len(),
            all == row::rows_view(rows@),
            ts == bound::bound_exprs_view(targets@),
            st@.budget.timed == old(st)@.budget.timed,
            st@.budget.polled >= old(st)@.budget.polled,
            model == rows_marked(ts, all, 0, ctx@, old(st)@, old(d)@),
            model == rows_marked(ts, all, i as int, ctx@, st@, d@),
        decreases rows.len() - i,
    {
        broadcast use crate::exec::poll_laws::group_polls;

        reveal(rows_marked);
        assert(all[i as int] == rows@[i as int]@);
        if let Err(e) = mark_targets(targets, &rows[i], ctx, st, d) {
            return Err(e);
        }
        i += 1;
    }
    reveal(rows_marked);
    Ok(())
}

fn drop_rels<G: GraphSource>(graph: &mut MutableGraph<G>, rels: &Vec<RelValue>)
    ensures
        final(graph)@ == rels_dropped(old(graph)@, value::rel_values_view(rels@), rels@.len()),
{
    let ghost all = value::rel_values_view(rels@);
    let ghost before = graph@;
    let mut i: usize = 0;
    while i < rels.len()
        invariant
            i <= rels.len(),
            all == value::rel_values_view(rels@),
            graph@ == rels_dropped(before, all, i as nat),
        decreases rels.len() - i,
    {
        assert(all[i as int] == rels@[i as int]@);
        graph.delete_rel(&rels[i]);
        i += 1;
    }
}

fn held_rels<G: GraphSource>(graph: &MutableGraph<G>, id: &EntityId) -> (r: Vec<RelValue>)
    ensures
        value::rel_values_view(r@) == incident(graph@, id@),
{
    let any: Vec<String> = Vec::new();
    assert(text::strings_view(any@) =~= seq![]);
    let ways = graph.expand(id, Direction::Undirected, &any);
    let ghost all = source::steps_view(ways@);
    let mut out: Vec<RelValue> = Vec::new();
    let mut i: usize = 0;
    while i < ways.len()
        invariant
            i <= ways.len(),
            all == source::steps_view(ways@),
            out@.len() == i,
            forall|k: int| 0 <= k < i ==> (#[trigger] out@[k])@ == all[k].0,
        decreases ways.len() - i,
    {
        out.push(ways[i].0.dup());
        i += 1;
    }
    assert(value::rel_values_view(out@) =~= rels_of(all));
    out
}

fn free_nodes<G: GraphSource>(
    graph: &mut MutableGraph<G>,
    nodes: &Vec<EntityId>,
    detach: bool,
    span: Span,
) -> (r: Result<(), ExecError>)
    ensures
        freed_from(old(graph)@, source::entity_ids_view(nodes@), 0, detach, span) == match r {
            Ok(_) => Ok::<_, ExecErrorView>(final(graph)@),
            Err(e) => Err(e@),
        },
{
    let ghost all = source::entity_ids_view(nodes@);
    let ghost model = freed_from(graph@, all, 0, detach, span);
    let mut i: usize = 0;
    while i < nodes.len()
        invariant
            i <= nodes.len(),
            all == source::entity_ids_view(nodes@),
            model == freed_from(old(graph)@, all, 0, detach, span),
            model == freed_from(graph@, all, i as int, detach, span),
        decreases nodes.len() - i,
    {
        reveal(freed_from);
        assert(all[i as int] == nodes@[i as int]@);
        let held = held_rels(graph, &nodes[i]);
        if held.len() > 0 && !detach {
            return Err(
                ExecError::InvalidArgument {
                    message:
                        "cannot delete a node that still has relationships; use DETACH DELETE".to_owned(),
                    span,
                },
            );
        }
        drop_rels(graph, &held);
        i += 1;
    }
    reveal(freed_from);
    Ok(())
}

fn drop_nodes<G: GraphSource>(graph: &mut MutableGraph<G>, nodes: &Vec<EntityId>)
    ensures
        final(graph)@ == nodes_dropped(old(graph)@, source::entity_ids_view(nodes@), nodes@.len()),
{
    let ghost all = source::entity_ids_view(nodes@);
    let ghost before = graph@;
    let mut i: usize = 0;
    while i < nodes.len()
        invariant
            i <= nodes.len(),
            all == source::entity_ids_view(nodes@),
            graph@ == nodes_dropped(before, all, i as nat),
        decreases nodes.len() - i,
    {
        assert(all[i as int] == nodes@[i as int]@);
        graph.delete_node(&nodes[i]);
        i += 1;
    }
}

/// Execute a DELETE clause; the rows stay as they are.
pub(crate) fn delete_clause<G: GraphSource>(
    detach: bool,
    targets: &Vec<BoundExpr>,
    span: Span,
    rows: &Vec<Row>,
    graph: &mut MutableGraph<G>,
    inputs: &Inputs,
    st: &mut EvalState,
) -> (r: Result<(), ExecError>)
    ensures
        change::changes(
            r,
            old(st)@,
            final(st)@,
            final(graph)@,
            deleted(
                detach,
                bound::bound_exprs_view(targets@),
                span,
                row::rows_view(rows@),
                old(graph)@,
                inputs@,
                old(st)@,
            ),
        ),
{
    broadcast use crate::exec::poll_laws::group_polls;

    reveal(deleted);
    let mut d = DoomedLists { nodes: Vec::new(), rels: Vec::new() };
    assert(d@.nodes =~= seq![]);
    assert(d@.rels =~= seq![]);
    let ctx = inputs.context(&*graph);
    if let Err(e) = mark_rows(targets, rows, &ctx, st, &mut d) {
        return Err(e);
    }
    drop_rels(graph, &d.rels);
    if let Err(e) = free_nodes(graph, &d.nodes, detach, span) {
        return Err(e);
    }
    drop_nodes(graph, &d.nodes);
    Ok(())
}

} // verus!
