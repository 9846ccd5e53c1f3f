//! Pattern matching.

use vstd::prelude::*;

use crate::bind::bound::{
    self, BoundExpr, BoundExprView, BoundNodePattern, BoundPathPattern, BoundRelPattern, VarId,
};
use crate::exec::eval::{self, EvalCtx, EvalState};
use crate::exec::fault::{ExecError, ExecErrorView};
use crate::exec::governor;
use crate::exec::operators;
use crate::exec::row::{self, Row};
use crate::exec::semantics::Spent;
use crate::exec::source::{self, GraphSource};
use crate::exec::value::{
    self, EntityId, NodeValue, PathValue, PathValueView, PropertyMap, RelValue, Value, ValueView,
};
use crate::exec::walk::{self, Matched, Produced, Tested, Walked};

verus! {

/// One way of matching so far.
pub struct MatchState {
    pub row: Row,
    /// The relationships used up.
    pub used_rels: Vec<EntityId>,
}

impl MatchState {
    pub open spec fn view(&self) -> Matched {
        Matched { row: self.row@, used: source::entity_ids_view(self.used_rels@) }
    }
}

pub open spec fn match_states_view(v: Seq<MatchState>) -> Seq<Matched> {
    Seq::new(v.len(), |i: int| v[i]@)
}

/// Whether a test came to what the model says.
pub open spec fn tests(
    r: Result<bool, ExecError>,
    before: Spent,
    after: Spent,
    model: Tested,
) -> bool {
    &&& after.budget.timed == before.budget.timed
    &&& after.budget.polled >= before.budget.polled
    &&& governor::timed_out(before.budget, model.spent.budget, r) || (match r {
        Ok(b) => model.result == Ok::<_, ExecErrorView>(b),
        Err(e) => model.result == Err::<bool, _>(e@),
    } && after == model.spent)
}

/// Whether matching came to what the model says.
pub open spec fn walks(
    r: Result<(), ExecError>,
    before: Spent,
    after: Spent,
    found: Seq<Matched>,
    model: Walked,
) -> bool {
    &&& after.budget.timed == before.budget.timed
    &&& after.budget.polled >= before.budget.polled
    &&& governor::timed_out(before.budget, model.spent.budget, r) || (match r {
        Ok(_) => model.result == Ok::<_, ExecErrorView>(found),
        Err(e) => model.result == Err::<Seq<Matched>, _>(e@),
    } && after == model.spent)
}

/// The expression that an optional expression stands for.
pub open spec fn optional_expr(o: Option<BoundExpr>) -> Option<BoundExprView> {
    match o {
        Some(e) => Some(e@),
        None => None,
    }
}

fn entries_hold(actual: &PropertyMap, wanted: &PropertyMap) -> (r: bool)
    ensures
        r == walk::has_entries(actual@, wanted@.entries),
{
    let ghost all = wanted@.entries;
    let mut i: usize = 0;
    while i < wanted.entries.len()
        invariant
            i <= wanted.entries.len(),
            all == wanted@.entries,
            all == value::string_values_view(wanted.entries@),
            forall|k: int| 0 <= k < i ==> walk::has_entry(actual@, #[trigger] all[k]),
        decreases wanted.entries.len() - i,
    {
        assert(all[i as int] == (wanted.entries@[i as int].0@, wanted.entries@[i as int].1@));
        match actual.get(wanted.entries[i].0.as_str()) {
            None => {
                assert(!walk::has_entry(actual@, all[i as int]));
                return false;
            },
            Some(have) => {
                if have.eq3(&wanted.entries[i].1) != Some(true) {
                    assert(!walk::has_entry(actual@, all[i as int]));
                    return false;
                }
            },
        }
        i += 1;
    }
    true
}

fn properties_satisfy<G: GraphSource>(
    wanted: &Option<BoundExpr>,
    actual: &PropertyMap,
    row: &Row,
    ctx: &EvalCtx<G>,
    st: &mut EvalState,
) -> (r: Result<bool, ExecError>)
    ensures
        tests(
            r,
            old(st)@,
            final(st)@,
            walk::properties_fit(optional_expr(*wanted), actual@, row@, ctx@, old(st)@),
        ),
{
    broadcast use crate::exec::poll_laws::group_polls;

    reveal(walk::properties_fit);
    match wanted {
        None => Ok(true),
        Some(expr) => match eval::eval(expr, row, ctx, st) {
            Err(e) => Err(e),
            Ok(Value::Mapping(m)) => Ok(entries_hold(actual, &m)),
            Ok(_) => Ok(false),
        },
    }
}

fn node_admitted(row: &Row, var: Option<VarId>, node: &NodeValue) -> (r: bool)
    ensures
        r == walk::admits_node(row@, var, node@),
{
    match var {
        None => true,
        Some(v) => if !row.contains(v) {
            true
        } else {
            match row.get(v) {
                Value::Node(bound) => bound.id.same(&node.id),
                _ => false,
            }
        },
    }
}

fn rel_admitted(row: &Row, var: Option<VarId>, rel: &RelValue) -> (r: bool)
    ensures
        r == walk::admits_rel(row@, var, rel@),
{
    match var {
        None => true,
        Some(v) => if !row.contains(v) {
            true
        } else {
            match row.get(v) {
                Value::Relationship(bound) => bound.id.same(&rel.id),
                _ => false,
            }
        },
    }
}

pub(crate) fn node_satisfies<G: GraphSource>(
    node: &NodeValue,
    pattern: &BoundNodePattern,
    row: &Row,
    ctx: &EvalCtx<G>,
    st: &mut EvalState,
) -> (r: Result<bool, ExecError>)
    ensures
        tests(r, old(st)@, final(st)@, walk::node_fits(node@, pattern@, row@, ctx@, old(st)@)),
{
    broadcast use crate::exec::poll_laws::group_polls;

    reveal(walk::node_fits);
    proof {
        pattern.lemma_view();
    }
    if !source::carries_all(node, &pattern.labels) || !node_admitted(row, pattern.var, node) {
        return Ok(false);
    }
    properties_satisfy(&pattern.properties, &node.properties, row, ctx, st)
}

fn is_used(used: &Vec<EntityId>, id: &EntityId) -> (r: bool)
    ensures
        r == source::entity_ids_view(used@).contains(id@),
{
    let ghost all = source::entity_ids_view(used@);
    let mut i: usize = 0;
    while i < used.len()
        invariant
            i <= used.len(),
            all == source::entity_ids_view(used@),
            forall|k: int| 0 <= k < i ==> #[trigger] all[k] != id@,
        decreases used.len() - i,
    {
        if used[i].same(id) {
            assert(all[i as int] == id@);
            return true;
        }
        i += 1;
    }
    false
}

fn with_used(used: &Vec<EntityId>, id: &EntityId) -> (r: Vec<EntityId>)
    ensures
        source::entity_ids_view(r@) == source::entity_ids_view(used@).push(id@),
{
    let mut out: Vec<EntityId> = Vec::new();
    let mut i: usize = 0;
    while i < used.len()
        invariant
            i <= used.len(),
            out@.len() == i,
            forall|k: int| 0 <= k < i ==> (#[trigger] out@[k])@ == used@[k]@,
        decreases used.len() - i,
    {
        out.push(used[i].dup());
        i += 1;
    }
    out.push(id.dup());
    assert(source::entity_ids_view(out@) =~= source::entity_ids_view(used@).push(id@));
    out
}

fn dup_used(used: &Vec<EntityId>) -> (r: Vec<EntityId>)
    ensures
        source::entity_ids_view(r@) == source::entity_ids_view(used@),
{
    let mut out: Vec<EntityId> = Vec::new();
    let mut i: usize = 0;
    while i < used.len()
        invariant
            i <= used.len(),
            out@.len() == i,
            forall|k: int| 0 <= k < i ==> (#[trigger] out@[k])@ == used@[k]@,
        decreases used.len() - i,
    {
        out.push(used[i].dup());
        i += 1;
    }
    assert(source::entity_ids_view(out@) =~= source::entity_ids_view(used@));
    out
}

fn bind_fresh(row: &mut Row, var: Option<VarId>, value: Value)
    ensures
        final(row)@ == walk::bound_fresh(old(row)@, var, value@),
{
    if let Some(v) = var {
        if !row.contains(v) {
            row.set(v, value);
        }
    }
}

fn bind_to(row: &mut Row, var: Option<VarId>, value: Value)
    ensures
        final(row)@ == walk::bound_to(old(row)@, var, value@),
{
    if let Some(v) = var {
        row.set(v, value);
    }
}

fn way_satisfies<G: GraphSource>(
    rel_pattern: &BoundRelPattern,
    node_pattern: Option<&BoundNodePattern>,
    way: &(RelValue, NodeValue),
    m: &MatchState,
    ctx: &EvalCtx<G>,
    st: &mut EvalState,
) -> (r: Result<bool, ExecError>)
    ensures
        tests(
            r,
            old(st)@,
            final(st)@,
            walk::way_fits(
                rel_pattern@,
                match node_pattern {
                    Some(n) => Some(n@),
                    None => None,
                },
                (way.0@, way.1@),
                m@,
                ctx@,
                old(st)@,
            ),
        ),
{
    broadcast use crate::exec::poll_laws::group_polls;

    reveal(walk::way_fits);
    proof {
        rel_pattern.lemma_view();
    }
    if let Err(e) = st.governor.hop() {
        return Err(e);
    }
    if is_used(&m.used_rels, &way.0.id) {
        return Ok(false);
    }
    match properties_satisfy(&rel_pattern.properties, &way.0.properties, &m.row, ctx, st) {
        Err(e) => Err(e),
        Ok(false) => Ok(false),
        Ok(true) => match node_pattern {
            None => Ok(true),
            Some(n) => node_satisfies(&way.1, n, &m.row, ctx, st),
        },
    }
}

fn lengthened(path: &PathValue, way: &(RelValue, NodeValue)) -> (r: PathValue)
    ensures
        r@ == walk::longer(path@, (way.0@, way.1@)),
{
    let mut next = path.dup();
    let ghost before = path@;
    assert(next@.nodes == value::node_values_view(next.nodes@));
    assert(next@.rels == value::rel_values_view(next.rels@));
    next.nodes.push(way.1.dup());
    next.rels.push(way.0.dup());
    assert(next@.nodes =~= before.nodes.push(way.1@));
    assert(next@.rels =~= before.rels.push(way.0@));
    next
}

fn hop_list(hops: &Vec<RelValue>) -> (r: Value)
    ensures
        r@ == walk::rel_list(value::rel_values_view(hops@)),
{
    let mut out: Vec<Value> = Vec::new();
    let mut i: usize = 0;
    while i < hops.len()
        invariant
            i <= hops.len(),
            out@.len() == i,
            forall|k: int|
                0 <= k < i ==> (#[trigger] out@[k])@ == ValueView::Relationship(hops@[k]@),
        decreases hops.len() - i,
    {
        out.push(Value::Relationship(hops[i].dup()));
        i += 1;
    }
    let r = Value::List(out);
    assert(r@->List_0 =~= walk::rel_list(value::rel_values_view(hops@))->List_0);
    r
}

// --- Walking ----------------------------------------------------------------------------------------

fn walk_steps<G: GraphSource>(
    pattern: &BoundPathPattern,
    at: usize,
    from: &NodeValue,
    m: MatchState,
    path: PathValue,
    ctx: &EvalCtx<G>,
    st: &mut EvalState,
    results: &mut Vec<MatchState>,
) -> (r: Result<(), ExecError>)
    requires
        at <= pattern.steps.len(),
    ensures
        walks(
            r,
            old(st)@,
            final(st)@,
            match_states_view(final(results)@),
            walk::walked(
                pattern@,
                at as int,
                from@,
                m@,
                path@,
                ctx@,
                old(st)@,
                match_states_view(old(results)@),
            ),
        ),
    decreases pattern.steps@.len() - at, 2nat, 0nat, 0nat,
{
    broadcast use crate::exec::poll_laws::group_polls;

    reveal(walk::walked);
    reveal(walk::walked_over);
    reveal(walk::hopped);
    proof {
        pattern.lemma_view();
    }
    if at >= pattern.steps.len() {
        if let Err(e) = st.governor.row(results.len()) {
            return Err(e);
        }
        let mut done = m;
        bind_to(&mut done.row, pattern.path_var, Value::Path(path));
        proof {
            assert(match_states_view(results@.push(done)) =~= match_states_view(results@).push(
                done@,
            ));
        }
        results.push(done);
        return Ok(());
    }
    let rel_pattern = &pattern.steps[at].0;
    proof {
        rel_pattern.lemma_view();
        assert(pattern@.steps[at as int].0 == rel_pattern@);
    }
    match rel_pattern.var_length {
        None => {
            let ways = ctx.graph.expand(&from.id, rel_pattern.direction, &rel_pattern.types);
            walk_over(pattern, at, ways, m, path, ctx, st, results)
        },
        Some(bounds) => {
            let min: u64 = match bounds.min {
                Some(n) => n,
                None => 1,
            };
            let max: u64 = match bounds.max {
                Some(n) => n,
                None => u64::MAX,
            };
            let hops: Vec<RelValue> = Vec::new();
            assert(value::rel_values_view(hops@) =~= seq![]);
            expand_var_length(pattern, at, from, m, path, hops, min, max, ctx, st, results)
        },
    }
}

fn walk_over<G: GraphSource>(
    pattern: &BoundPathPattern,
    at: usize,
    ways: Vec<(RelValue, NodeValue)>,
    m: MatchState,
    path: PathValue,
    ctx: &EvalCtx<G>,
    st: &mut EvalState,
    results: &mut Vec<MatchState>,
) -> (r: Result<(), ExecError>)
    requires
        at < pattern.steps.len(),
    ensures
        walks(
            r,
            old(st)@,
            final(st)@,
            match_states_view(final(results)@),
            walk::walked_over(
                pattern@,
                at as int,
                source::steps_view(ways@),
                0,
                m@,
                path@,
                ctx@,
                old(st)@,
                match_states_view(old(results)@),
            ),
        ),
    decreases pattern.steps@.len() - at, 1nat, 0nat, 0nat,
{
    broadcast use crate::exec::poll_laws::group_polls;

    let ghost p = pattern@;
    let ghost all = source::steps_view(ways@);
    let ghost model = walk::walked_over(
        p,
        at as int,
        all,
        0,
        m@,
        path@,
        ctx@,
        st@,
        match_states_view(results@),
    );
    proof {
        pattern.lemma_view();
    }
    let mut i: usize = 0;
    while i < ways.len()
        invariant
            i <= ways.len(),
            at < pattern.steps.len(),
            p == pattern@,
            p.steps == bound::bound_rel_pattern_bound_node_patterns_view(pattern.steps@),
            all == source::steps_view(ways@),
            st@.budget.timed == old(st)@.budget.timed,
            st@.budget.polled >= old(st)@.budget.polled,
            model == walk::walked_over(
                p,
                at as int,
                all,
                0,
                m@,
                path@,
                ctx@,
                old(st)@,
                match_states_view(old(results)@),
            ),
            model == walk::walked_over(
                p,
                at as int,
                all,
                i as int,
                m@,
                path@,
                ctx@,
                st@,
                match_states_view(results@),
            ),
        decreases ways.len() - i,
    {
        broadcast use crate::exec::poll_laws::group_polls;

        reveal(walk::walked_over);
        reveal(walk::walked);
        let rel_pattern = &pattern.steps[at].0;
        let node_pattern = &pattern.steps[at].1;
        let way = &ways[i];
        proof {
            rel_pattern.lemma_view();
            node_pattern.lemma_view();
            assert(p.steps[at as int] == (rel_pattern@, node_pattern@));
            assert(all[i as int] == (way.0@, way.1@));
        }
        match way_satisfies(rel_pattern, Some(node_pattern), way, &m, ctx, st) {
            Err(e) => {
                return Err(e);
            },
            Ok(false) => {},
            Ok(true) => {
                let mut row = m.row.dup();
                let free: bool = rel_admitted(&row, rel_pattern.var, &way.0);
                bind_fresh(&mut row, rel_pattern.var, Value::Relationship(way.0.dup()));
                if free && node_admitted(&row, node_pattern.var, &way.1) {
                    bind_fresh(&mut row, node_pattern.var, Value::Node(way.1.dup()));
                    let next = MatchState { row, used_rels: with_used(&m.used_rels, &way.0.id) };
                    let next_path = lengthened(&path, way);
                    if let Err(e) = walk_steps(
                        pattern,
                        at + 1,
                        &way.1,
                        next,
                        next_path,
                        ctx,
                        st,
                        results,
                    ) {
                        return Err(e);
                    }
                }
            },
        }
        i += 1;
    }
    reveal(walk::walked_over);
    Ok(())
}

/// Var-length expansion with relationship uniqueness pruning; at each depth
/// within bounds, try to close on the target node pattern.
fn expand_var_length<G: GraphSource>(
    pattern: &BoundPathPattern,
    at: usize,
    from: &NodeValue,
    m: MatchState,
    path: PathValue,
    hops: Vec<RelValue>,
    min: u64,
    max: u64,
    ctx: &EvalCtx<G>,
    st: &mut EvalState,
    results: &mut Vec<MatchState>,
) -> (r: Result<(), ExecError>)
    requires
        at < pattern.steps.len(),
    ensures
        walks(
            r,
            old(st)@,
            final(st)@,
            match_states_view(final(results)@),
            walk::hopped(
                pattern@,
                at as int,
                from@,
                m@,
                path@,
                value::rel_values_view(hops@),
                min,
                max,
                ctx@,
                old(st)@,
                match_states_view(old(results)@),
            ),
        ),
    decreases pattern.steps@.len() - at, 1nat, max - hops@.len(), 1nat,
{
    broadcast use crate::exec::poll_laws::group_polls;

    reveal(walk::hopped);
    reveal(walk::walked);
    reveal(walk::hopped_over);
    let rel_pattern = &pattern.steps[at].0;
    let node_pattern = &pattern.steps[at].1;
    proof {
        rel_pattern.lemma_view();
        node_pattern.lemma_view();
        pattern.lemma_view();
        assert(pattern@.steps[at as int] == (rel_pattern@, node_pattern@));
    }
    let depth: u64 = hops.len() as u64;
    let mut close: bool = false;
    if depth >= min {
        match node_satisfies(from, node_pattern, &m.row, ctx, st) {
            Err(e) => {
                return Err(e);
            },
            Ok(b) => {
                close = b;
            },
        }
    }
    let mut row = m.row.dup();
    bind_to(&mut row, rel_pattern.var, hop_list(&hops));
    if close && node_admitted(&row, node_pattern.var, from) {
        bind_fresh(&mut row, node_pattern.var, Value::Node(from.dup()));
        let next = MatchState { row, used_rels: dup_used(&m.used_rels) };
        if let Err(e) = walk_steps(
            pattern,
            at + 1,
            from,
            next,
            path.dup(),
            ctx,
            st,
            results,
        ) {
            return Err(e);
        }
    }
    if depth >= max {
        return Ok(());
    }
    let ways = ctx.graph.expand(&from.id, rel_pattern.direction, &rel_pattern.types);
    hop_over(pattern, at, ways, m, path, hops, min, max, ctx, st, results)
}

fn hop_over<G: GraphSource>(
    pattern: &BoundPathPattern,
    at: usize,
    ways: Vec<(RelValue, NodeValue)>,
    m: MatchState,
    path: PathValue,
    hops: Vec<RelValue>,
    min: u64,
    max: u64,
    ctx: &EvalCtx<G>,
    st: &mut EvalState,
    results: &mut Vec<MatchState>,
) -> (r: Result<(), ExecError>)
    requires
        at < pattern.steps.len(),
        hops@.len() < max,
    ensures
        walks(
            r,
            old(st)@,
            final(st)@,
            match_states_view(final(results)@),
            walk::hopped_over(
                pattern@,
                at as int,
                source::steps_view(ways@),
                0,
                m@,
                path@,
                value::rel_values_view(hops@),
                min,
                max,
                ctx@,
                old(st)@,
                match_states_view(old(results)@),
            ),
        ),
    decreases pattern.steps@.len() - at, 1nat, max - hops@.len(), 0nat,
{
    broadcast use crate::exec::poll_laws::group_polls;

    let ghost p = pattern@;
    let ghost all = source::steps_view(ways@);
    let ghost taken = value::rel_values_view(hops@);
    let ghost model = walk::hopped_over(
        p,
        at as int,
        all,
        0,
        m@,
        path@,
        taken,
        min,
        max,
        ctx@,
        st@,
        match_states_view(results@),
    );
    proof {
        pattern.lemma_view();
    }
    let mut i: usize = 0;
    while i < ways.len()
        invariant
            i <= ways.len(),
            at < pattern.steps.len(),
            hops@.len() < max,
            p == pattern@,
            p.steps == bound::bound_rel_pattern_bound_node_patterns_view(pattern.steps@),
            all == source::steps_view(ways@),
            taken == value::rel_values_view(hops@),
            st@.budget.timed == old(st)@.budget.timed,
            st@.budget.polled >= old(st)@.budget.polled,
            model == walk::hopped_over(
                p,
                at as int,
                all,
                0,
                m@,
                path@,
                taken,
                min,
                max,
                ctx@,
                old(st)@,
                match_states_view(old(results)@),
            ),
            model == walk::hopped_over(
                p,
                at as int,
                all,
                i as int,
                m@,
                path@,
                taken,
                min,
                max,
                ctx@,
                st@,
                match_states_view(results@),
            ),
        decreases ways.len() - i,
    {
        broadcast use crate::exec::poll_laws::group_polls;

        reveal(walk::hopped_over);
        reveal(walk::hopped);
        let rel_pattern = &pattern.steps[at].0;
        let way = &ways[i];
        proof {
            assert(p.steps[at as int].0 == rel_pattern@);
            assert(all[i as int] == (way.0@, way.1@));
        }
        match way_satisfies(rel_pattern, None, way, &m, ctx, st) {
            Err(e) => {
                return Err(e);
            },
            Ok(false) => {},
            Ok(true) => {
                let next = MatchState {
                    row: m.row.dup(),
                    used_rels: with_used(&m.used_rels, &way.0.id),
                };
                let next_path = lengthened(&path, way);
                let mut next_hops = value::dup_rel_values(&hops);
                next_hops.push(way.0.dup());
                proof {
                    assert(value::rel_values_view(next_hops@) =~= taken.push(way.0@));
                    assert(next_hops@.len() == hops@.len() + 1) by {
                        assert(value::rel_values_view(next_hops@).len() == taken.len() + 1);
                    }
                }
                if let Err(e) = expand_var_length(
                    pattern,
                    at,
                    &way.1,
                    next,
                    next_path,
                    next_hops,
                    min,
                    max,
                    ctx,
                    st,
                    results,
                ) {
                    return Err(e);
                }
            },
        }
        i += 1;
    }
    reveal(walk::hopped_over);
    Ok(())
}

// --- Clauses ----------------------------------------------------------------------------------------

/// Whether a clause came to what the model says.
pub open spec fn produces(
    r: Result<Vec<Row>, ExecError>,
    before: Spent,
    after: Spent,
    model: Produced,
) -> bool {
    &&& after.budget.timed == before.budget.timed
    &&& after.budget.polled >= before.budget.polled
    &&& governor::timed_out(before.budget, model.spent.budget, r) || (match r {
        Ok(rows) => model.result == Ok::<_, ExecErrorView>(row::rows_view(rows@)),
        Err(e) => model.result == Err::<Seq<Map<u32, ValueView>>, _>(e@),
    } && after == model.spent)
}

/// As [`produces`], for rows that are appended to a list.
pub open spec fn appends(
    r: Result<(), ExecError>,
    before: Spent,
    after: Spent,
    rows: Seq<Row>,
    model: Produced,
) -> bool {
    &&& after.budget.timed == before.budget.timed
    &&& after.budget.polled >= before.budget.polled
    &&& governor::timed_out(before.budget, model.spent.budget, r) || (match r {
        Ok(_) => model.result == Ok::<_, ExecErrorView>(row::rows_view(rows)),
        Err(e) => model.result == Err::<Seq<Map<u32, ValueView>>, _>(e@),
    } && after == model.spent)
}

fn anchors<G: GraphSource>(start: &BoundNodePattern, row: &Row, graph: &G) -> (r: Vec<NodeValue>)
    ensures
        value::node_values_view(r@) == walk::anchors_of(start@, row@, graph.graph()),
{
    proof {
        start.lemma_view();
    }
    if let Some(v) = start.var {
        if row.contains(v) {
            let mut out: Vec<NodeValue> = Vec::new();
            if let Value::Node(n) = row.get(v) {
                out.push(n);
                assert(value::node_values_view(out@) =~= seq![n@]);
            } else {
                assert(value::node_values_view(out@) =~= seq![]);
            }
            return out;
        }
    }
    graph.nodes_by_labels(&start.labels)
}

fn match_path<G: GraphSource>(
    pattern: &BoundPathPattern,
    m: &MatchState,
    ctx: &EvalCtx<G>,
    st: &mut EvalState,
    results: &mut Vec<MatchState>,
) -> (r: Result<(), ExecError>)
    ensures
        walks(
            r,
            old(st)@,
            final(st)@,
            match_states_view(final(results)@),
            walk::anchored_from(
                pattern@,
                walk::anchors_of(pattern@.start, m@.row, ctx@.graph),
                0,
                m@,
                ctx@,
                old(st)@,
                match_states_view(old(results)@),
            ),
        ),
{
    broadcast use crate::exec::poll_laws::group_polls;

    proof {
        pattern.lemma_view();
        pattern.start.lemma_view();
    }
    // Anchor at the leftmost node: a bound variable pins it; otherwise scan by
    // labels.
    let starts = anchors(&pattern.start, &m.row, ctx.graph);
    let ghost p = pattern@;
    let ghost all = value::node_values_view(starts@);
    let ghost model = walk::anchored_from(
        p,
        all,
        0,
        m@,
        ctx@,
        st@,
        match_states_view(results@),
    );
    let mut i: usize = 0;
    while i < starts.len()
        invariant
            i <= starts.len(),
            p == pattern@,
            p.start == pattern.start@,
            p.start.var == pattern.start.var,
            all == value::node_values_view(starts@),
            all == walk::anchors_of(p.start, m@.row, ctx@.graph),
            st@.budget.timed == old(st)@.budget.timed,
            st@.budget.polled >= old(st)@.budget.polled,
            model == walk::anchored_from(
                p,
                all,
                0,
                m@,
                ctx@,
                old(st)@,
                match_states_view(old(results)@),
            ),
            model == walk::anchored_from(
                p,
                all,
                i as int,
                m@,
                ctx@,
                st@,
                match_states_view(results@),
            ),
        decreases starts.len() - i,
    {
        broadcast use crate::exec::poll_laws::group_polls;

        reveal(walk::anchored_from);
        assert(all[i as int] == starts@[i as int]@);
        match node_satisfies(&starts[i], &pattern.start, &m.row, ctx, st) {
            Err(e) => {
                return Err(e);
            },
            Ok(false) => {},
            Ok(true) => {
                let mut row = m.row.dup();
                bind_to(&mut row, pattern.start.var, Value::Node(starts[i].dup()));
                let next = MatchState { row, used_rels: dup_used(&m.used_rels) };
                let path = single_path(&starts[i]);
                if let Err(e) = walk_steps(pattern, 0, &starts[i], next, path, ctx, st, results) {
                    return Err(e);
                }
            },
        }
        i += 1;
    }
    reveal(walk::anchored_from);
    Ok(())
}

fn single_path(node: &NodeValue) -> (r: PathValue)
    ensures
        r@ == (PathValueView { nodes: seq![node@], rels: seq![] }),
{
    let mut nodes: Vec<NodeValue> = Vec::new();
    nodes.push(node.dup());
    let r = PathValue { nodes, rels: Vec::new() };
    assert(r@.nodes =~= seq![node@]);
    assert(r@.rels =~= seq![]);
    r
}

pub(crate) fn match_states<G: GraphSource>(
    pattern: &BoundPathPattern,
    states: &Vec<MatchState>,
    ctx: &EvalCtx<G>,
    st: &mut EvalState,
    results: &mut Vec<MatchState>,
) -> (r: Result<(), ExecError>)
    ensures
        walks(
            r,
            old(st)@,
            final(st)@,
            match_states_view(final(results)@),
            walk::continued_from(
                pattern@,
                match_states_view(states@),
                0,
                ctx@,
                old(st)@,
                match_states_view(old(results)@),
            ),
        ),
{
    broadcast use crate::exec::poll_laws::group_polls;

    let ghost p = pattern@;
    let ghost all = match_states_view(states@);
    let ghost model = walk::continued_from(p, all, 0, ctx@, st@, match_states_view(results@));
    let mut i: usize = 0;
    while i < states.len()
        invariant
            i <= states.len(),
            p == pattern@,
            all == match_states_view(states@),
            st@.budget.timed == old(st)@.budget.timed,
            st@.budget.polled >= old(st)@.budget.polled,
            model == walk::continued_from(
                p,
                all,
                0,
                ctx@,
                old(st)@,
                match_states_view(old(results)@),
            ),
            model == walk::continued_from(
                p,
                all,
                i as int,
                ctx@,
                st@,
                match_states_view(results@),
            ),
        decreases states.len() - i,
    {
        broadcast use crate::exec::poll_laws::group_polls;

        reveal(walk::continued_from);
        assert(all[i as int] == states@[i as int]@);
        if let Err(e) = match_path(pattern, &states[i], ctx, st, results) {
            return Err(e);
        }
        i += 1;
    }
    reveal(walk::continued_from);
    Ok(())
}

fn match_patterns<G: GraphSource>(
    patterns: &Vec<BoundPathPattern>,
    row: &Row,
    ctx: &EvalCtx<G>,
    st: &mut EvalState,
    results: &mut Vec<MatchState>,
) -> (r: Result<(), ExecError>)
    requires
        old(results)@.len() == 0,
    ensures
        walks(
            r,
            old(st)@,
            final(st)@,
            match_states_view(final(results)@),
            walk::patterns_from(
                bound::bound_path_patterns_view(patterns@),
                0,
                seq![Matched { row: row@, used: seq![] }],
                ctx@,
                old(st)@,
            ),
        ),
{
    broadcast use crate::exec::poll_laws::group_polls;

    let ghost all = bound::bound_path_patterns_view(patterns@);
    let ghost first = seq![Matched { row: row@, used: seq![] }];
    let ghost model = walk::patterns_from(all, 0, first, ctx@, st@);
    let start = MatchState { row: row.dup(), used_rels: Vec::new() };
    assert(start@.used =~= seq![]);
    results.push(start);
    assert(match_states_view(results@) =~= first);
    let mut k: usize = 0;
    while k < patterns.len()
        invariant
            k <= patterns.len(),
            all == bound::bound_path_patterns_view(patterns@),
            first == seq![Matched { row: row@, used: seq![] }],
            st@.budget.timed == old(st)@.budget.timed,
            st@.budget.polled >= old(st)@.budget.polled,
            model == walk::patterns_from(all, 0, first, ctx@, old(st)@),
            model == walk::patterns_from(all, k as int, match_states_view(results@), ctx@, st@),
        decreases patterns.len() - k,
    {
        broadcast use crate::exec::poll_laws::group_polls;

        reveal(walk::patterns_from);
        assert(all[k as int] == patterns@[k as int]@);
        let mut next: Vec<MatchState> = Vec::new();
        assert(match_states_view(next@) =~= seq![]);
        if let Err(e) = match_states(&patterns[k], results, ctx, st, &mut next) {
            return Err(e);
        }
        *results = next;
        k += 1;
    }
    reveal(walk::patterns_from);
    Ok(())
}

/// Whether a predicate, where there is one, is true of a row.
pub(crate) fn row_passes<G: GraphSource>(
    predicate: &Option<BoundExpr>,
    row: &Row,
    ctx: &EvalCtx<G>,
    st: &mut EvalState,
) -> (r: Result<bool, ExecError>)
    ensures
        tests(
            r,
            old(st)@,
            final(st)@,
            walk::passes(optional_expr(*predicate), row@, ctx@, old(st)@),
        ),
{
    broadcast use crate::exec::poll_laws::group_polls;

    reveal(walk::passes);
    match predicate {
        None => Ok(true),
        Some(expr) => match eval::eval(expr, row, ctx, st) {
            Err(e) => Err(e),
            Ok(v) => match operators::truth(&v, expr.span()) {
                Err(e) => Err(e),
                Ok(t) => Ok(t == Some(true)),
            },
        },
    }
}

fn keep_rows<G: GraphSource>(
    states: &Vec<MatchState>,
    predicate: &Option<BoundExpr>,
    ctx: &EvalCtx<G>,
    st: &mut EvalState,
) -> (r: Result<Vec<Row>, ExecError>)
    ensures
        produces(
            r,
            old(st)@,
            final(st)@,
            walk::kept_from(
                match_states_view(states@),
                0,
                optional_expr(*predicate),
                ctx@,
                old(st)@,
                seq![],
            ),
        ),
{
    broadcast use crate::exec::poll_laws::group_polls;

    let ghost all = match_states_view(states@);
    let ghost p = optional_expr(*predicate);
    let ghost model = walk::kept_from(all, 0, p, ctx@, st@, seq![]);
    let mut kept: Vec<Row> = Vec::new();
    assert(row::rows_view(kept@) =~= seq![]);
    let mut i: usize = 0;
    while i < states.len()
        invariant
            i <= states.len(),
            p == optional_expr(*predicate),
            all == match_states_view(states@),
            st@.budget.timed == old(st)@.budget.timed,
            st@.budget.polled >= old(st)@.budget.polled,
            model == walk::kept_from(all, 0, p, ctx@, old(st)@, seq![]),
            model == walk::kept_from(all, i as int, p, ctx@, st@, row::rows_view(kept@)),
        decreases states.len() - i,
    {
        broadcast use crate::exec::poll_laws::group_polls;

        reveal(walk::kept_from);
        assert(all[i as int] == states@[i as int]@);
        match row_passes(predicate, &states[i].row, ctx, st) {
            Err(e) => {
                return Err(e);
            },
            Ok(false) => {},
            Ok(true) => {
                let row = states[i].row.dup();
                assert(row::rows_view(kept@.push(row)) =~= row::rows_view(kept@).push(row@));
                kept.push(row);
            },
        }
        i += 1;
    }
    reveal(walk::kept_from);
    Ok(kept)
}

/// Appends `rows` to `out`, charging each.
pub(crate) fn append_rows(rows: &Vec<Row>, out: &mut Vec<Row>, st: &mut EvalState) -> (r: Result<
    (),
    ExecError,
>)
    ensures
        appends(
            r,
            old(st)@,
            final(st)@,
            final(out)@,
            walk::appended_from(row::rows_view(rows@), 0, row::rows_view(old(out)@), old(st)@),
        ),
{
    broadcast use crate::exec::poll_laws::group_polls;

    let ghost all = row::rows_view(rows@);
    let ghost model = walk::appended_from(all, 0, row::rows_view(out@), st@);
    let mut j: usize = 0;
    while j < rows.len()
        invariant
            j <= rows.len(),
            all == row::rows_view(rows@),
            st@.budget.timed == old(st)@.budget.timed,
            st@.budget.polled >= old(st)@.budget.polled,
            model == walk::appended_from(all, 0, row::rows_view(old(out)@), old(st)@),
            model == walk::appended_from(all, j as int, row::rows_view(out@), st@),
        decreases rows.len() - j,
    {
        broadcast use crate::exec::poll_laws::group_polls;

        reveal(walk::appended_from);
        assert(all[j as int] == rows@[j as int]@);
        if let Err(e) = st.governor.row(out.len()) {
            return Err(e);
        }
        let row = rows[j].dup();
        assert(row::rows_view(out@.push(row)) =~= row::rows_view(out@).push(row@));
        out.push(row);
        j += 1;
    }
    reveal(walk::appended_from);
    Ok(())
}

fn push_var(vars: &mut Vec<VarId>, var: Option<VarId>)
    ensures
        final(vars)@ == old(vars)@ + walk::one_var(var),
{
    if let Some(v) = var {
        vars.push(v);
    }
    assert(vars@ =~= old(vars)@ + walk::one_var(var));
}

/// The variables that patterns mention.
fn mentioned_vars(patterns: &Vec<BoundPathPattern>) -> (r: Vec<VarId>)
    ensures
        r@ == walk::mentioned(bound::bound_path_patterns_view(patterns@), patterns@.len()),
{
    let ghost all = bound::bound_path_patterns_view(patterns@);
    let mut vars: Vec<VarId> = Vec::new();
    let mut i: usize = 0;
    while i < patterns.len()
        invariant
            i <= patterns.len(),
            all == bound::bound_path_patterns_view(patterns@),
            vars@ == walk::mentioned(all, i as nat),
        decreases patterns.len() - i,
    {
        let p = &patterns[i];
        proof {
            p.lemma_view();
            p.start.lemma_view();
            assert(all[i as int] == p@);
        }
        push_var(&mut vars, p.path_var);
        push_var(&mut vars, p.start.var);
        let ghost before = vars@;
        let steps = &p.steps;
        let ghost ss = bound::bound_rel_pattern_bound_node_patterns_view(steps@);
        let mut j: usize = 0;
        assert(vars@ =~= before + walk::step_vars(ss, 0));
        while j < steps.len()
            invariant
                j <= steps.len(),
                ss == bound::bound_rel_pattern_bound_node_patterns_view(steps@),
                vars@ == before + walk::step_vars(ss, j as nat),
            decreases steps.len() - j,
        {
            proof {
                steps@[j as int].0.lemma_view();
                steps@[j as int].1.lemma_view();
                assert(ss[j as int] == (steps@[j as int].0@, steps@[j as int].1@));
            }
            push_var(&mut vars, steps[j].0.var);
            push_var(&mut vars, steps[j].1.var);
            j += 1;
            assert(vars@ =~= before + walk::step_vars(ss, j as nat));
        }
        i += 1;
    }
    vars
}

fn match_row<G: GraphSource>(
    row: &Row,
    optional: bool,
    patterns: &Vec<BoundPathPattern>,
    predicate: &Option<BoundExpr>,
    ctx: &EvalCtx<G>,
    st: &mut EvalState,
) -> (r: Result<Vec<Row>, ExecError>)
    ensures
        produces(
            r,
            old(st)@,
            final(st)@,
            walk::row_matches(
                row@,
                optional,
                bound::bound_path_patterns_view(patterns@),
                optional_expr(*predicate),
                ctx@,
                old(st)@,
            ),
        ),
{
    broadcast use crate::exec::poll_laws::group_polls;

    reveal(walk::row_matches);
    let mut states: Vec<MatchState> = Vec::new();
    if let Err(e) = match_patterns(patterns, row, ctx, st, &mut states) {
        return Err(e);
    }
    // The WHERE participates in the match (essential for OPTIONAL).
    let kept = match keep_rows(&states, predicate, ctx, st) {
        Err(e) => {
            return Err(e);
        },
        Ok(kept) => kept,
    };
    if kept.len() == 0 && optional {
        let vars = mentioned_vars(patterns);
        let mut empty = row.dup();
        let mut i: usize = 0;
        while i < vars.len()
            invariant
                i <= vars.len(),
                empty@ == walk::nulled(row@, vars@, i as nat),
            decreases vars.len() - i,
        {
            bind_fresh(&mut empty, Some(vars[i]), Value::Null);
            i += 1;
        }
        let mut out: Vec<Row> = Vec::new();
        out.push(empty);
        assert(row::rows_view(out@) =~= seq![empty@]);
        return Ok(out);
    }
    Ok(kept)
}

/// The rows that a `MATCH` makes of `rows`.
pub(crate) fn match_clause<G: GraphSource>(
    rows: &Vec<Row>,
    optional: bool,
    patterns: &Vec<BoundPathPattern>,
    predicate: &Option<BoundExpr>,
    ctx: &EvalCtx<G>,
    st: &mut EvalState,
) -> (r: Result<Vec<Row>, ExecError>)
    ensures
        produces(
            r,
            old(st)@,
            final(st)@,
            walk::matched_from(
                row::rows_view(rows@),
                0,
                optional,
                bound::bound_path_patterns_view(patterns@),
                optional_expr(*predicate),
                ctx@,
                old(st)@,
                seq![],
            ),
        ),
{
    broadcast use crate::exec::poll_laws::group_polls;

    let ghost all = row::rows_view(rows@);
    let ghost ps = bound::bound_path_patterns_view(patterns@);
    let ghost p = optional_expr(*predicate);
    let ghost model = walk::matched_from(all, 0, optional, ps, p, ctx@, st@, seq![]);
    let mut out: Vec<Row> = Vec::new();
    assert(row::rows_view(out@) =~= seq![]);
    let mut i: usize = 0;
    while i < rows.len()
        invariant
            i <= rows.len(),
            all == row::rows_view(rows@),
            ps == bound::bound_path_patterns_view(patterns@),
            p == optional_expr(*predicate),
            st@.budget.timed == old(st)@.budget.timed,
            st@.budget.polled >= old(st)@.budget.polled,
            model == walk::matched_from(all, 0, optional, ps, p, ctx@, old(st)@, seq![]),
            model == walk::matched_from(
                all,
                i as int,
                optional,
                ps,
                p,
                ctx@,
                st@,
                row::rows_view(out@),
            ),
        decreases rows.len() - i,
    {
        broadcast use crate::exec::poll_laws::group_polls;

        reveal(walk::matched_from);
        assert(all[i as int] == rows@[i as int]@);
        let found = match match_row(&rows[i], optional, patterns, predicate, ctx, st) {
            Err(e) => {
                return Err(e);
            },
            Ok(found) => found,
        };
        if let Err(e) = append_rows(&found, &mut out, st) {
            return Err(e);
        }
        i += 1;
    }
    reveal(walk::matched_from);
    Ok(out)
}

} // verus!
