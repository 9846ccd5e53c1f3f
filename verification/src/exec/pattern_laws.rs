//! What a match is: every row that matching makes comes of a walk through the
//! graph that meets the pattern at every place.

use vstd::prelude::*;

use crate::ast::VarLength;
use crate::bind::bound::{
    BoundExprView, BoundNodePatternView, BoundPathPatternView, BoundRelPatternView, VarId,
};
use crate::exec::compare;
use crate::exec::fault::ExecErrorView;
use crate::exec::match_laws;
use crate::exec::semantics::{self, Env, Spent};
use crate::exec::source;
use crate::exec::value::{
    EntityIdView, NodeValueView, PathValueView, PropertyMapView, RelValueView, ValueView,
};
use crate::exec::walk::{self, Matched, Tested, Walked};

verus! {

/// A relationship, and the node that it leads to.
pub type Way = (RelValueView, NodeValueView);

/// Whether `later` has what `row` has, apart from the variables in `free`.
pub open spec fn keeps(
    row: Map<u32, ValueView>,
    later: Map<u32, ValueView>,
    free: Set<u32>,
) -> bool {
    forall|v: u32|
        #[trigger] row.dom().contains(v) && !free.contains(v) ==> later.dom().contains(v)
            && later[v] == row[v]
}

/// Whether an element has every property that a map asks for: the map is what the
/// expression comes to over a row that the final row keeps.
#[verifier::opaque]
pub open spec fn has_what_is_asked(
    asked: Option<BoundExprView>,
    actual: PropertyMapView,
    row: Map<u32, ValueView>,
    env: Env,
    free: Set<u32>,
) -> bool {
    asked matches Some(e) ==> exists|r: Map<u32, ValueView>, s: Spent, m: PropertyMapView|
        #[trigger] asks(e, r, env, s, m) && keeps(r, row, free) && forall|i: int|
            0 <= i < m.entries.len() ==> (actual.lookup(
                (#[trigger] m.entries[i]).0,
            ) matches Some(have) && compare::equality(have, m.entries[i].1) == Some(true))
}

/// Whether an expression comes to a map.
pub open spec fn asks(
    e: BoundExprView,
    row: Map<u32, ValueView>,
    env: Env,
    spent: Spent,
    m: PropertyMapView,
) -> bool {
    semantics::evaluated(e, row, env, spent).result == Ok::<_, ExecErrorView>(ValueView::Mapping(m))
}

/// Whether a node meets a node pattern: it has the labels and the properties, and
/// the variable is bound to it.
pub open spec fn meets_node_pattern(
    node: NodeValueView,
    p: BoundNodePatternView,
    row: Map<u32, ValueView>,
    env: Env,
    free: Set<u32>,
) -> bool {
    &&& forall|i: int| 0 <= i < p.labels.len() ==> node.labels.contains(#[trigger] p.labels[i])
    &&& has_what_is_asked(p.properties, node.properties, row, env, free)
    &&& p.var matches Some(v) ==> !free.contains(v.0) ==> row.dom().contains(v.0) && (
    row[v.0] matches ValueView::Node(n) && n.id == node.id)
}

/// The node before the `i`-th way of a leg that leaves `from`.
pub open spec fn node_before(from: NodeValueView, leg: Seq<Way>, i: int) -> NodeValueView {
    if i <= 0 || i > leg.len() {
        from
    } else {
        leg[i - 1].1
    }
}

/// Where a leg that leaves `from` arrives.
pub open spec fn arrives(from: NodeValueView, leg: Seq<Way>) -> NodeValueView {
    node_before(from, leg, leg.len() as int)
}

/// Whether a step may take so many ways: one, or as many as its bounds say, of
/// which a missing lower one is one and a missing upper one is none.
pub open spec fn may_take(bounds: Option<VarLength>, n: nat) -> bool {
    match bounds {
        None => n == 1,
        Some(b) => {
            &&& b.min matches Some(least) ==> least <= n
            &&& b.min is None ==> 1 <= n
            &&& b.max matches Some(most) ==> n <= most
        },
    }
}

/// Whether a leg meets a step of a pattern: each of its ways leads on from the one
/// before, in the direction and by a type that the step names, and has the
/// properties that the step asks for; and where it arrives meets the node pattern.
#[verifier::opaque]
pub open spec fn meets_step(
    from: NodeValueView,
    leg: Seq<Way>,
    step: (BoundRelPatternView, BoundNodePatternView),
    row: Map<u32, ValueView>,
    env: Env,
    free: Set<u32>,
) -> bool {
    let (rel, node) = step;
    &&& may_take(rel.var_length, leg.len())
    &&& forall|i: int|
        0 <= i < leg.len() ==> (env.graph.expand)(
            node_before(from, leg, i).id,
            rel.direction,
            rel.types,
        ).contains(#[trigger] leg[i])
    &&& forall|i: int|
        0 <= i < leg.len() ==> has_what_is_asked(
            rel.properties,
            (#[trigger] leg[i]).0.properties,
            row,
            env,
            free,
        )
    &&& meets_node_pattern(arrives(from, leg), node, row, env, free)
    &&& rel.var_length is None ==> (rel.var matches Some(v) ==> !free.contains(v.0)
        ==> row.dom().contains(v.0) && (row[v.0] matches ValueView::Relationship(r) && r.id
        == leg[0].0.id))
}

/// Where the first `k` legs of a walk arrive.
pub open spec fn reached(from: NodeValueView, legs: Seq<Seq<Way>>, k: nat) -> NodeValueView
    decreases k,
{
    if k == 0 || k > legs.len() {
        from
    } else {
        arrives(reached(from, legs, (k - 1) as nat), legs[k - 1])
    }
}

/// Whether a walk meets the steps of a pattern, one leg for each.
pub open spec fn meets_steps(
    from: NodeValueView,
    legs: Seq<Seq<Way>>,
    steps: Seq<(BoundRelPatternView, BoundNodePatternView)>,
    row: Map<u32, ValueView>,
    env: Env,
    free: Set<u32>,
) -> bool {
    &&& legs.len() == steps.len()
    &&& forall|k: int|
        0 <= k < legs.len() ==> meets_step(
            reached(from, legs, k as nat),
            #[trigger] legs[k],
            steps[k],
            row,
            env,
            free,
        )
}

/// The ways of a walk, one after the other.
pub open spec fn all_ways(legs: Seq<Seq<Way>>) -> Seq<Way>
    decreases legs.len(),
{
    if legs.len() == 0 {
        seq![]
    } else {
        legs[0] + all_ways(legs.skip(1))
    }
}

/// The identities of the relationships of ways.
pub open spec fn rel_ids(ways: Seq<Way>) -> Seq<EntityIdView> {
    ways.map_values(|w: Way| w.0.id)
}

/// A path that goes on over ways.
pub open spec fn path_over(path: PathValueView, ways: Seq<Way>) -> PathValueView {
    PathValueView {
        nodes: path.nodes + ways.map_values(|w: Way| w.1),
        rels: path.rels + ways.map_values(|w: Way| w.0),
    }
}

/// Whether the path variable of a pattern holds a path.
pub open spec fn holds(
    pattern: BoundPathPatternView,
    path: PathValueView,
    row: Map<u32, ValueView>,
) -> bool {
    pattern.path_var matches Some(v) ==> row.dom().contains(v.0) && row[v.0] == ValueView::Path(
        path,
    )
}

/// Whether the variables that matching may bind again are free: those of steps of
/// variable length, and the path's.
pub open spec fn leaves_free(pattern: BoundPathPatternView, free: Set<u32>) -> bool {
    &&& pattern.path_var matches Some(v) ==> free.contains(v.0)
    &&& forall|k: int|
        0 <= k < pattern.steps.len() && (#[trigger] pattern.steps[k]).0.var_length is Some ==> (
        pattern.steps[k].0.var matches Some(v) ==> free.contains(v.0))
}

/// Whether a match goes on from another over a walk through the steps from `at`
/// on.
pub open spec fn goes_on(
    pattern: BoundPathPatternView,
    at: int,
    from: NodeValueView,
    m: Matched,
    path: PathValueView,
    legs: Seq<Seq<Way>>,
    end: Matched,
    env: Env,
    free: Set<u32>,
) -> bool {
    &&& meets_steps(from, legs, pattern.steps.skip(at), end.row, env, free)
    &&& end.used == m.used + rel_ids(all_ways(legs))
    &&& keeps(m.row, end.row, free)
    &&& holds(pattern, path_over(path, all_ways(legs)), end.row)
}

/// Whether a match goes on from another over some walk.
#[verifier::opaque]
pub open spec fn is_reached(
    pattern: BoundPathPatternView,
    at: int,
    from: NodeValueView,
    m: Matched,
    path: PathValueView,
    end: Matched,
    env: Env,
    free: Set<u32>,
) -> bool {
    exists|legs: Seq<Seq<Way>>| goes_on(pattern, at, from, m, path, legs, end, env, free)
}

/// Whether `all` is `found` and behind it matches that go on.
spec fn adds(
    pattern: BoundPathPatternView,
    at: int,
    from: NodeValueView,
    m: Matched,
    path: PathValueView,
    env: Env,
    free: Set<u32>,
    found: Seq<Matched>,
    all: Seq<Matched>,
) -> bool {
    &&& found.len() <= all.len()
    &&& all.take(found.len() as int) == found
    &&& forall|i: int|
        found.len() <= i < all.len() ==> is_reached(
            pattern,
            at,
            from,
            m,
            path,
            #[trigger] all[i],
            env,
            free,
        )
}

proof fn lemma_keeps(
    a: Map<u32, ValueView>,
    b: Map<u32, ValueView>,
    c: Map<u32, ValueView>,
    free: Set<u32>,
)
    requires
        keeps(a, b, free),
        keeps(b, c, free),
    ensures
        keeps(a, c, free),
{
    assert forall|v: u32| #[trigger] a.dom().contains(v) && !free.contains(v) implies c.dom().contains(
        v,
    ) && c[v] == a[v] by {
        assert(b.dom().contains(v));
    }
}

proof fn lemma_asked_later(
    asked: Option<BoundExprView>,
    actual: PropertyMapView,
    row: Map<u32, ValueView>,
    later: Map<u32, ValueView>,
    env: Env,
    free: Set<u32>,
)
    requires
        has_what_is_asked(asked, actual, row, env, free),
        keeps(row, later, free),
    ensures
        has_what_is_asked(asked, actual, later, env, free),
{
    reveal(has_what_is_asked);
    if let Some(e) = asked {
        let (r, s, m) = choose|r: Map<u32, ValueView>, s: Spent, m: PropertyMapView|
            #[trigger] asks(e, r, env, s, m) && keeps(r, row, free) && forall|i: int|
                0 <= i < m.entries.len() ==> (actual.lookup(
                    (#[trigger] m.entries[i]).0,
                ) matches Some(have) && compare::equality(have, m.entries[i].1) == Some(true));
        lemma_keeps(r, row, later, free);
        assert(asks(e, r, env, s, m));
    }
}

proof fn lemma_properties(
    asked: Option<BoundExprView>,
    actual: PropertyMapView,
    row: Map<u32, ValueView>,
    env: Env,
    spent: Spent,
    free: Set<u32>,
)
    requires
        walk::properties_fit(asked, actual, row, env, spent).result == Ok::<bool, ExecErrorView>(
            true,
        ),
    ensures
        has_what_is_asked(asked, actual, row, env, free),
{
    reveal(walk::properties_fit);
    reveal(has_what_is_asked);
    if let Some(e) = asked {
        let x = semantics::evaluated(e, row, env, spent);
        let m = x.result->Ok_0->Mapping_0;
        assert(asks(e, row, env, spent, m));
        assert forall|i: int| 0 <= i < m.entries.len() implies (actual.lookup(
            (#[trigger] m.entries[i]).0,
        ) matches Some(have) && compare::equality(have, m.entries[i].1) == Some(true)) by {
            assert(walk::has_entry(actual, m.entries[i]));
        }
    }
}

proof fn lemma_node_later(
    node: NodeValueView,
    p: BoundNodePatternView,
    row: Map<u32, ValueView>,
    later: Map<u32, ValueView>,
    env: Env,
    free: Set<u32>,
)
    requires
        meets_node_pattern(node, p, row, env, free),
        keeps(row, later, free),
    ensures
        meets_node_pattern(node, p, later, env, free),
{
    lemma_asked_later(p.properties, node.properties, row, later, env, free);
}

/// A node that fits meets the pattern once its variable is bound.
proof fn lemma_node(
    node: NodeValueView,
    p: BoundNodePatternView,
    row: Map<u32, ValueView>,
    bound: Map<u32, ValueView>,
    env: Env,
    spent: Spent,
    free: Set<u32>,
)
    requires
        walk::node_fits(node, p, row, env, spent).result == Ok::<bool, ExecErrorView>(true),
        keeps(row, bound, free),
        p.var matches Some(v) ==> !free.contains(v.0) ==> bound.dom().contains(v.0) && (
        bound[v.0] matches ValueView::Node(n) && n.id == node.id),
    ensures
        meets_node_pattern(node, p, bound, env, free),
{
    reveal(walk::node_fits);
    lemma_properties(p.properties, node.properties, row, env, spent, free);
    lemma_asked_later(p.properties, node.properties, row, bound, env, free);
}

proof fn lemma_step_later(
    from: NodeValueView,
    leg: Seq<Way>,
    step: (BoundRelPatternView, BoundNodePatternView),
    row: Map<u32, ValueView>,
    later: Map<u32, ValueView>,
    env: Env,
    free: Set<u32>,
)
    requires
        meets_step(from, leg, step, row, env, free),
        keeps(row, later, free),
    ensures
        meets_step(from, leg, step, later, env, free),
{
    reveal(meets_step);
    lemma_node_later(arrives(from, leg), step.1, row, later, env, free);
    assert forall|i: int| 0 <= i < leg.len() implies has_what_is_asked(
        step.0.properties,
        (#[trigger] leg[i]).0.properties,
        later,
        env,
        free,
    ) by {
        lemma_asked_later(step.0.properties, leg[i].0.properties, row, later, env, free);
    }
}

proof fn lemma_steps_later(
    from: NodeValueView,
    legs: Seq<Seq<Way>>,
    steps: Seq<(BoundRelPatternView, BoundNodePatternView)>,
    row: Map<u32, ValueView>,
    later: Map<u32, ValueView>,
    env: Env,
    free: Set<u32>,
)
    requires
        meets_steps(from, legs, steps, row, env, free),
        keeps(row, later, free),
    ensures
        meets_steps(from, legs, steps, later, env, free),
{
    assert forall|k: int| 0 <= k < legs.len() implies meets_step(
        reached(from, legs, k as nat),
        #[trigger] legs[k],
        steps[k],
        later,
        env,
        free,
    ) by {
        lemma_step_later(
            reached(from, legs, k as nat),
            legs[k],
            steps[k],
            row,
            later,
            env,
            free,
        );
    }
}

proof fn lemma_reached(from: NodeValueView, leg: Seq<Way>, legs: Seq<Seq<Way>>, k: nat)
    requires
        k <= legs.len(),
    ensures
        reached(from, seq![leg] + legs, k + 1) == reached(arrives(from, leg), legs, k),
    decreases k,
{
    let all = seq![leg] + legs;
    if k > 0 {
        lemma_reached(from, leg, legs, (k - 1) as nat);
        assert(all[k as int] == legs[k - 1]);
    } else {
        assert(reached(from, all, 0) == from);
        assert(all[0] == leg);
    }
}

/// A leg before a walk makes a walk through one step more.
proof fn lemma_prepend(
    pattern: BoundPathPatternView,
    at: int,
    from: NodeValueView,
    m: Matched,
    path: PathValueView,
    leg: Seq<Way>,
    legs: Seq<Seq<Way>>,
    next: Matched,
    end: Matched,
    env: Env,
    free: Set<u32>,
)
    requires
        0 <= at < pattern.steps.len(),
        meets_step(from, leg, pattern.steps[at], next.row, env, free),
        goes_on(
            pattern,
            at + 1,
            arrives(from, leg),
            next,
            path_over(path, leg),
            legs,
            end,
            env,
            free,
        ),
        next.used == m.used + rel_ids(leg),
        keeps(m.row, next.row, free),
    ensures
        goes_on(pattern, at, from, m, path, seq![leg] + legs, end, env, free),
{
    let all = seq![leg] + legs;
    lemma_keeps(m.row, next.row, end.row, free);
    assert(all.skip(1) =~= legs);
    assert(all_ways(all) == leg + all_ways(legs));
    assert(rel_ids(leg + all_ways(legs)) =~= rel_ids(leg) + rel_ids(all_ways(legs)));
    assert(end.used =~= m.used + rel_ids(all_ways(all)));
    let p = path_over(path_over(path, leg), all_ways(legs));
    let q = path_over(path, leg + all_ways(legs));
    assert(p.nodes =~= q.nodes);
    assert(p.rels =~= q.rels);
    lemma_step_later(from, leg, pattern.steps[at], next.row, end.row, env, free);
    lemma_prepend_steps(pattern, at, from, leg, legs, end.row, env, free);
}

proof fn lemma_prepend_steps(
    pattern: BoundPathPatternView,
    at: int,
    from: NodeValueView,
    leg: Seq<Way>,
    legs: Seq<Seq<Way>>,
    row: Map<u32, ValueView>,
    env: Env,
    free: Set<u32>,
)
    requires
        0 <= at < pattern.steps.len(),
        meets_step(from, leg, pattern.steps[at], row, env, free),
        meets_steps(arrives(from, leg), legs, pattern.steps.skip(at + 1), row, env, free),
    ensures
        meets_steps(from, seq![leg] + legs, pattern.steps.skip(at), row, env, free),
{
    let all = seq![leg] + legs;
    let steps = pattern.steps.skip(at);
    assert forall|k: int| 0 <= k < all.len() implies meets_step(
        reached(from, all, k as nat),
        #[trigger] all[k],
        steps[k],
        row,
        env,
        free,
    ) by {
        if k == 0 {
            assert(all[0] == leg);
            assert(steps[0] == pattern.steps[at]);
        } else {
            lemma_reached(from, leg, legs, (k - 1) as nat);
            assert(all[k] == legs[k - 1]);
            assert(steps[k] == pattern.steps.skip(at + 1)[k - 1]);
        }
    }
}

proof fn lemma_way(
    rel_pattern: BoundRelPatternView,
    node_pattern: Option<BoundNodePatternView>,
    way: Way,
    m: Matched,
    env: Env,
    spent: Spent,
    free: Set<u32>,
)
    requires
        walk::way_fits(rel_pattern, node_pattern, way, m, env, spent).result == Ok::<
            bool,
            ExecErrorView,
        >(true),
    ensures
        has_what_is_asked(rel_pattern.properties, way.0.properties, m.row, env, free),
        node_pattern matches Some(n) ==> exists|s: Spent|
            #[trigger] walk::node_fits(way.1, n, m.row, env, s).result == Ok::<bool, ExecErrorView>(
                true,
            ),
{
    reveal(walk::way_fits);
    let c = spent.budget.hop();
    let after = semantics::with_budget(spent, c.budget);
    let t = walk::properties_fit(rel_pattern.properties, way.0.properties, m.row, env, after);
    lemma_properties(rel_pattern.properties, way.0.properties, m.row, env, after, free);
    if let Some(n) = node_pattern {
        assert(walk::node_fits(way.1, n, m.row, env, t.spent).result == Ok::<bool, ExecErrorView>(
            true,
        ));
    }
}

proof fn lemma_adds_more(
    pattern: BoundPathPatternView,
    at: int,
    from: NodeValueView,
    m: Matched,
    path: PathValueView,
    env: Env,
    free: Set<u32>,
    a: Seq<Matched>,
    b: Seq<Matched>,
    c: Seq<Matched>,
)
    requires
        adds(pattern, at, from, m, path, env, free, a, b),
        adds(pattern, at, from, m, path, env, free, b, c),
    ensures
        adds(pattern, at, from, m, path, env, free, a, c),
{
    assert(c.take(a.len() as int) =~= c.take(b.len() as int).take(a.len() as int));
    assert forall|i: int| a.len() <= i < c.len() implies is_reached(
        pattern,
        at,
        from,
        m,
        path,
        #[trigger] c[i],
        env,
        free,
    ) by {
        if i < b.len() {
            assert(c.take(b.len() as int)[i] == c[i]);
            assert(b[i] == c[i]);
        }
    }
}

proof fn lemma_adds_nothing(
    pattern: BoundPathPatternView,
    at: int,
    from: NodeValueView,
    m: Matched,
    path: PathValueView,
    env: Env,
    free: Set<u32>,
    found: Seq<Matched>,
)
    ensures
        adds(pattern, at, from, m, path, env, free, found, found),
{
    assert(found.take(found.len() as int) =~= found);
}

/// What goes on behind a leg goes on from before it.
proof fn lemma_adds_behind(
    pattern: BoundPathPatternView,
    at: int,
    from: NodeValueView,
    m: Matched,
    path: PathValueView,
    leg: Seq<Way>,
    next: Matched,
    env: Env,
    free: Set<u32>,
    found: Seq<Matched>,
    all: Seq<Matched>,
)
    requires
        0 <= at < pattern.steps.len(),
        meets_step(from, leg, pattern.steps[at], next.row, env, free),
        next.used == m.used + rel_ids(leg),
        keeps(m.row, next.row, free),
        adds(
            pattern,
            at + 1,
            arrives(from, leg),
            next,
            path_over(path, leg),
            env,
            free,
            found,
            all,
        ),
    ensures
        adds(pattern, at, from, m, path, env, free, found, all),
{
    assert forall|i: int| found.len() <= i < all.len() implies is_reached(
        pattern,
        at,
        from,
        m,
        path,
        #[trigger] all[i],
        env,
        free,
    ) by {
        reveal(is_reached);
        let there = arrives(from, leg);
        let on = path_over(path, leg);
        let end = all[i];
        let following = at + 1;
        let legs = choose|legs: Seq<Seq<Way>>|
            goes_on(pattern, following, there, next, on, legs, end, env, free);
        lemma_prepend(pattern, at, from, m, path, leg, legs, next, all[i], env, free);
        assert(goes_on(pattern, at, from, m, path, seq![leg] + legs, all[i], env, free));
    }
}

proof fn lemma_walked(
    pattern: BoundPathPatternView,
    at: int,
    from: NodeValueView,
    m: Matched,
    path: PathValueView,
    env: Env,
    spent: Spent,
    found: Seq<Matched>,
    free: Set<u32>,
)
    requires
        0 <= at <= pattern.steps.len(),
        leaves_free(pattern, free),
    ensures
        walk::walked(pattern, at, from, m, path, env, spent, found).result matches Ok(all) ==> adds(
            pattern,
            at,
            from,
            m,
            path,
            env,
            free,
            found,
            all,
        ),
    decreases pattern.steps.len() - at, 2int, 0int, 0int, 0int,
{
    reveal(walk::walked);
    reveal(walk::walked_over);
    reveal(walk::hopped);
    reveal(walk::hopped_over);
    if at >= pattern.steps.len() {
        let end = Matched {
            row: walk::bound_to(m.row, pattern.path_var, ValueView::Path(path)),
            used: m.used,
        };
        let none = Seq::<Seq<Way>>::empty();
        assert(all_ways(none) =~= seq![]);
        assert(m.used + rel_ids(all_ways(none)) =~= m.used);
        assert(path_over(path, all_ways(none)).nodes =~= path.nodes);
        assert(path_over(path, all_ways(none)).rels =~= path.rels);
        assert(goes_on(pattern, at, from, m, path, none, end, env, free));
        reveal(is_reached);
        assert(is_reached(pattern, at, from, m, path, end, env, free));
        assert(found.push(end).take(found.len() as int) =~= found);
    } else {
        let rel = pattern.steps[at].0;
        match rel.var_length {
            None => {
                let ways = (env.graph.expand)(from.id, rel.direction, rel.types);
                lemma_walked_over(pattern, at, from, ways, 0, m, path, env, spent, found, free);
            },
            Some(bounds) => {
                let none = Seq::<Way>::empty();
                assert(path_over(path, none).nodes =~= path.nodes);
                assert(path_over(path, none).rels =~= path.rels);
                assert(m.used + rel_ids(none) =~= m.used);
                assert(none.map_values(|w: Way| w.0) =~= seq![]);
                assert(leads_on(from, none, rel, m.row, env, free)) by {
                    reveal(leads_on);
                }
                lemma_hopped(
                    pattern,
                    at,
                    from,
                    none,
                    m,
                    m,
                    path,
                    walk::least_hops(bounds),
                    walk::most_hops(bounds),
                    env,
                    spent,
                    found,
                    free,
                );
            },
        }
    }
}

proof fn lemma_walked_over(
    pattern: BoundPathPatternView,
    at: int,
    from: NodeValueView,
    ways: Seq<Way>,
    i: int,
    m: Matched,
    path: PathValueView,
    env: Env,
    spent: Spent,
    found: Seq<Matched>,
    free: Set<u32>,
)
    requires
        0 <= at < pattern.steps.len(),
        0 <= i <= ways.len(),
        leaves_free(pattern, free),
        pattern.steps[at].0.var_length is None,
        ways == (env.graph.expand)(
            from.id,
            pattern.steps[at].0.direction,
            pattern.steps[at].0.types,
        ),
    ensures
        walk::walked_over(
            pattern,
            at,
            ways,
            i,
            m,
            path,
            env,
            spent,
            found,
        ).result matches Ok(all) ==> adds(pattern, at, from, m, path, env, free, found, all),
    decreases pattern.steps.len() - at, 1int, 0int, 0int, ways.len() - i,
{
    reveal(walk::walked);
    reveal(walk::walked_over);
    reveal(walk::hopped);
    reveal(walk::hopped_over);
    lemma_adds_nothing(pattern, at, from, m, path, env, free, found);
    if i < ways.len() {
        let (rel_pattern, node_pattern) = pattern.steps[at];
        let (rel, node) = ways[i];
        let t = walk::way_fits(rel_pattern, Some(node_pattern), ways[i], m, env, spent);
        if t.result is Ok {
            lemma_walked_over(pattern, at, from, ways, i + 1, m, path, env, t.spent, found, free);
            let with_rel = walk::bound_fresh(m.row, rel_pattern.var, ValueView::Relationship(rel));
            if t.result->Ok_0 && walk::admits_rel(m.row, rel_pattern.var, rel) && walk::admits_node(
                with_rel,
                node_pattern.var,
                node,
            ) {
                let next = Matched {
                    row: walk::bound_fresh(with_rel, node_pattern.var, ValueView::Node(node)),
                    used: m.used.push(rel.id),
                };
                let leg = seq![ways[i]];
                lemma_way(rel_pattern, Some(node_pattern), ways[i], m, env, spent, free);
                let s = choose|s: Spent|
                    #[trigger] walk::node_fits(node, node_pattern, m.row, env, s).result == Ok::<
                        bool,
                        ExecErrorView,
                    >(true);
                assert(keeps(m.row, next.row, free));
                lemma_asked_later(
                    rel_pattern.properties,
                    rel.properties,
                    m.row,
                    next.row,
                    env,
                    free,
                );
                lemma_node(node, node_pattern, m.row, next.row, env, s, free);
                assert(ways.contains(ways[i]));
                assert(arrives(from, leg) == node);
                assert(meets_step(from, leg, pattern.steps[at], next.row, env, free)) by {
                    reveal(meets_step);
                    assert(leg[0] == ways[i]);
                    assert(node_before(from, leg, 0) == from);
                }
                assert(next.used =~= m.used + rel_ids(leg));
                let path_on = walk::longer(path, ways[i]);
                assert(path_on.nodes =~= path_over(path, leg).nodes);
                assert(path_on.rels =~= path_over(path, leg).rels);
                let on = walk::walked(pattern, at + 1, node, next, path_on, env, t.spent, found);
                lemma_walked(pattern, at + 1, node, next, path_on, env, t.spent, found, free);
                if let Ok(all) = on.result {
                    lemma_adds_behind(
                        pattern,
                        at,
                        from,
                        m,
                        path,
                        leg,
                        next,
                        env,
                        free,
                        found,
                        all,
                    );
                    lemma_walked_over(
                        pattern,
                        at,
                        from,
                        ways,
                        i + 1,
                        m,
                        path,
                        env,
                        on.spent,
                        all,
                        free,
                    );
                    let last = walk::walked_over(
                        pattern,
                        at,
                        ways,
                        i + 1,
                        m,
                        path,
                        env,
                        on.spent,
                        all,
                    );
                    if let Ok(end) = last.result {
                        lemma_adds_more(
                            pattern,
                            at,
                            from,
                            m,
                            path,
                            env,
                            free,
                            found,
                            all,
                            end,
                        );
                    }
                }
            }
        }
    }
}

/// Whether ways that a step of variable length has taken lead on from one to the
/// next, as the step asks.
#[verifier::opaque]
spec fn leads_on(
    from: NodeValueView,
    leg: Seq<Way>,
    rel: BoundRelPatternView,
    row: Map<u32, ValueView>,
    env: Env,
    free: Set<u32>,
) -> bool {
    &&& forall|i: int|
        0 <= i < leg.len() ==> (env.graph.expand)(
            node_before(from, leg, i).id,
            rel.direction,
            rel.types,
        ).contains(#[trigger] leg[i])
    &&& forall|i: int|
        0 <= i < leg.len() ==> has_what_is_asked(
            rel.properties,
            (#[trigger] leg[i]).0.properties,
            row,
            env,
            free,
        )
}

proof fn lemma_further(
    from: NodeValueView,
    leg: Seq<Way>,
    way: Way,
    rel: BoundRelPatternView,
    row: Map<u32, ValueView>,
    env: Env,
    free: Set<u32>,
)
    requires
        leads_on(from, leg, rel, row, env, free),
        (env.graph.expand)(arrives(from, leg).id, rel.direction, rel.types).contains(way),
        has_what_is_asked(rel.properties, way.0.properties, row, env, free),
    ensures
        leads_on(from, leg.push(way), rel, row, env, free),
{
    reveal(leads_on);
    let further = leg.push(way);
    assert forall|k: int| 0 <= k < further.len() implies (env.graph.expand)(
        node_before(from, further, k).id,
        rel.direction,
        rel.types,
    ).contains(#[trigger] further[k]) by {
        if k < leg.len() {
            assert(further[k] == leg[k]);
            assert(node_before(from, further, k) == node_before(from, leg, k));
        } else {
            assert(node_before(from, further, k) == arrives(from, leg));
        }
    }
    assert forall|k: int| 0 <= k < further.len() implies has_what_is_asked(
        rel.properties,
        (#[trigger] further[k]).0.properties,
        row,
        env,
        free,
    ) by {
        if k < leg.len() {
            assert(further[k] == leg[k]);
        }
    }
}

/// `m` is the match before the step, `on` the one that has taken `leg` so far.
proof fn lemma_hopped(
    pattern: BoundPathPatternView,
    at: int,
    from: NodeValueView,
    leg: Seq<Way>,
    m: Matched,
    on: Matched,
    path: PathValueView,
    min: u64,
    max: u64,
    env: Env,
    spent: Spent,
    found: Seq<Matched>,
    free: Set<u32>,
)
    requires
        0 <= at < pattern.steps.len(),
        leaves_free(pattern, free),
        pattern.steps[at].0.var_length is Some,
        min == walk::least_hops(pattern.steps[at].0.var_length->0),
        max == walk::most_hops(pattern.steps[at].0.var_length->0),
        on.row == m.row,
        on.used == m.used + rel_ids(leg),
        leads_on(from, leg, pattern.steps[at].0, m.row, env, free),
        leg.len() <= max || leg.len() == 0,
    ensures
        walk::hopped(
            pattern,
            at,
            arrives(from, leg),
            on,
            path_over(path, leg),
            leg.map_values(|w: Way| w.0),
            min,
            max,
            env,
            spent,
            found,
        ).result matches Ok(all) ==> adds(pattern, at, from, m, path, env, free, found, all),
    decreases pattern.steps.len() - at, 1int, max - leg.len(), 1int, 0int,
{
    reveal(walk::walked);
    reveal(walk::walked_over);
    reveal(walk::hopped);
    reveal(walk::hopped_over);
    let here = arrives(from, leg);
    let path_on = path_over(path, leg);
    let hops = leg.map_values(|w: Way| w.0);
    let (rel_pattern, node_pattern) = pattern.steps[at];
    lemma_adds_nothing(pattern, at, from, m, path, env, free, found);
    let t = if hops.len() >= min {
        walk::node_fits(here, node_pattern, on.row, env, spent)
    } else {
        Tested { result: Ok(false), spent }
    };
    if let Ok(close) = t.result {
        let with_rel = walk::bound_to(on.row, rel_pattern.var, walk::rel_list(hops));
        let next = Matched {
            row: walk::bound_fresh(with_rel, node_pattern.var, ValueView::Node(here)),
            used: on.used,
        };
        let w = if close && walk::admits_node(with_rel, node_pattern.var, here) {
            walk::walked(pattern, at + 1, here, next, path_on, env, t.spent, found)
        } else {
            Walked { result: Ok(found), spent: t.spent }
        };
        if close && walk::admits_node(with_rel, node_pattern.var, here) {
            assert(rel_pattern.var matches Some(v) ==> free.contains(v.0));
            assert(keeps(m.row, next.row, free));
            lemma_node(here, node_pattern, m.row, next.row, env, spent, free);
            assert(meets_step(from, leg, pattern.steps[at], next.row, env, free)) by {
                reveal(meets_step);
                reveal(leads_on);
                assert forall|i: int| 0 <= i < leg.len() implies has_what_is_asked(
                    rel_pattern.properties,
                    (#[trigger] leg[i]).0.properties,
                    next.row,
                    env,
                    free,
                ) by {
                    lemma_asked_later(
                        rel_pattern.properties,
                        leg[i].0.properties,
                        m.row,
                        next.row,
                        env,
                        free,
                    );
                }
            }
            lemma_walked(pattern, at + 1, here, next, path_on, env, t.spent, found, free);
            if let Ok(all) = w.result {
                lemma_adds_behind(pattern, at, from, m, path, leg, next, env, free, found, all);
            }
        }
        if let Ok(all) = w.result {
            if hops.len() < max {
                let ways = (env.graph.expand)(here.id, rel_pattern.direction, rel_pattern.types);
                lemma_hopped_over(
                    pattern,
                    at,
                    from,
                    leg,
                    ways,
                    0,
                    m,
                    on,
                    path,
                    min,
                    max,
                    env,
                    w.spent,
                    all,
                    free,
                );
                let last = walk::hopped_over(
                    pattern,
                    at,
                    ways,
                    0,
                    on,
                    path_on,
                    hops,
                    min,
                    max,
                    env,
                    w.spent,
                    all,
                );
                if let Ok(end) = last.result {
                    lemma_adds_more(pattern, at, from, m, path, env, free, found, all, end);
                }
            }
        }
    }
}

proof fn lemma_hopped_over(
    pattern: BoundPathPatternView,
    at: int,
    from: NodeValueView,
    leg: Seq<Way>,
    ways: Seq<Way>,
    i: int,
    m: Matched,
    on: Matched,
    path: PathValueView,
    min: u64,
    max: u64,
    env: Env,
    spent: Spent,
    found: Seq<Matched>,
    free: Set<u32>,
)
    requires
        0 <= at < pattern.steps.len(),
        0 <= i <= ways.len(),
        leaves_free(pattern, free),
        pattern.steps[at].0.var_length is Some,
        min == walk::least_hops(pattern.steps[at].0.var_length->0),
        max == walk::most_hops(pattern.steps[at].0.var_length->0),
        on.row == m.row,
        on.used == m.used + rel_ids(leg),
        leads_on(from, leg, pattern.steps[at].0, m.row, env, free),
        leg.len() < max,
        ways == (env.graph.expand)(
            arrives(from, leg).id,
            pattern.steps[at].0.direction,
            pattern.steps[at].0.types,
        ),
    ensures
        walk::hopped_over(
            pattern,
            at,
            ways,
            i,
            on,
            path_over(path, leg),
            leg.map_values(|w: Way| w.0),
            min,
            max,
            env,
            spent,
            found,
        ).result matches Ok(all) ==> adds(pattern, at, from, m, path, env, free, found, all),
    decreases pattern.steps.len() - at, 1int, max - leg.len(), 0int, ways.len() - i,
{
    reveal(walk::walked);
    reveal(walk::walked_over);
    reveal(walk::hopped);
    reveal(walk::hopped_over);
    let path_on = path_over(path, leg);
    let hops = leg.map_values(|w: Way| w.0);
    let rel_pattern = pattern.steps[at].0;
    lemma_adds_nothing(pattern, at, from, m, path, env, free, found);
    if i < ways.len() {
        let t = walk::way_fits(rel_pattern, None, ways[i], on, env, spent);
        if t.result is Ok {
            lemma_hopped_over(
                pattern,
                at,
                from,
                leg,
                ways,
                i + 1,
                m,
                on,
                path,
                min,
                max,
                env,
                t.spent,
                found,
                free,
            );
            if t.result->Ok_0 {
                let further = leg.push(ways[i]);
                let next = Matched { row: on.row, used: on.used.push(ways[i].0.id) };
                lemma_way(rel_pattern, None, ways[i], on, env, spent, free);
                assert(ways.contains(ways[i]));
                lemma_further(from, leg, ways[i], rel_pattern, m.row, env, free);
                assert(next.used =~= m.used + rel_ids(further));
                assert(further.map_values(|w: Way| w.0) =~= hops.push(ways[i].0));
                assert(path_over(path, further).nodes =~= walk::longer(path_on, ways[i]).nodes);
                assert(path_over(path, further).rels =~= walk::longer(path_on, ways[i]).rels);
                assert(arrives(from, further) == ways[i].1);
                let w = walk::hopped(
                    pattern,
                    at,
                    ways[i].1,
                    next,
                    walk::longer(path_on, ways[i]),
                    hops.push(ways[i].0),
                    min,
                    max,
                    env,
                    t.spent,
                    found,
                );
                lemma_hopped(
                    pattern,
                    at,
                    from,
                    further,
                    m,
                    next,
                    path,
                    min,
                    max,
                    env,
                    t.spent,
                    found,
                    free,
                );
                if let Ok(all) = w.result {
                    lemma_hopped_over(
                        pattern,
                        at,
                        from,
                        leg,
                        ways,
                        i + 1,
                        m,
                        on,
                        path,
                        min,
                        max,
                        env,
                        w.spent,
                        all,
                        free,
                    );
                    let last = walk::hopped_over(
                        pattern,
                        at,
                        ways,
                        i + 1,
                        on,
                        path_on,
                        hops,
                        min,
                        max,
                        env,
                        w.spent,
                        all,
                    );
                    if let Ok(end) = last.result {
                        lemma_adds_more(pattern, at, from, m, path, env, free, found, all, end);
                    }
                }
            }
        }
    }
}

// --- Patterns ---------------------------------------------------------------------------------------

/// A walk that starts at a node: one leg for each step.
pub type Walk = (NodeValueView, Seq<Seq<Way>>);

/// The path that is one node.
pub open spec fn path_at(node: NodeValueView) -> PathValueView {
    PathValueView { nodes: seq![node], rels: seq![] }
}

/// Whether a walk meets a pattern: it starts at a node that meets the pattern's
/// first, and its legs meet the steps.
pub open spec fn meets_pattern(
    walk: Walk,
    pattern: BoundPathPatternView,
    row: Map<u32, ValueView>,
    env: Env,
    free: Set<u32>,
) -> bool {
    &&& meets_node_pattern(walk.0, pattern.start, row, env, free)
    &&& meets_steps(walk.0, walk.1, pattern.steps, row, env, free)
}

/// Whether a walk takes one match of the patterns before to one of this pattern
/// too. It starts at a node of the graph, or at the one that the row has for the
/// pattern's first variable; the relationships it takes are used up, and the path
/// variable holds its path.
pub open spec fn walks_out(
    pattern: BoundPathPatternView,
    m: Matched,
    walk: Walk,
    end: Matched,
    env: Env,
    free: Set<u32>,
) -> bool {
    &&& meets_pattern(walk, pattern, end.row, env, free)
    &&& env.graph.nodes.contains(walk.0) || (pattern.start.var matches Some(v)
        && m.row.dom().contains(v.0) && m.row[v.0] == ValueView::Node(walk.0))
    &&& end.used == m.used + rel_ids(all_ways(walk.1))
    &&& keeps(m.row, end.row, free)
    &&& holds(pattern, path_over(path_at(walk.0), all_ways(walk.1)), end.row)
}

#[verifier::opaque]
pub open spec fn is_walked_out(
    pattern: BoundPathPatternView,
    m: Matched,
    end: Matched,
    env: Env,
    free: Set<u32>,
) -> bool {
    exists|walk: Walk| walks_out(pattern, m, walk, end, env, free)
}

spec fn all_walked_out(
    pattern: BoundPathPatternView,
    m: Matched,
    env: Env,
    free: Set<u32>,
    found: Seq<Matched>,
    all: Seq<Matched>,
) -> bool {
    &&& found.len() <= all.len()
    &&& all.take(found.len() as int) == found
    &&& forall|i: int|
        found.len() <= i < all.len() ==> is_walked_out(pattern, m, #[trigger] all[i], env, free)
}

pub(crate) proof fn lemma_labelled(
    nodes: Seq<NodeValueView>,
    labels: Seq<Seq<char>>,
    n: nat,
    i: int,
)
    requires
        n <= nodes.len(),
        0 <= i < source::labelled(nodes, labels, n).len(),
    ensures
        nodes.contains(source::labelled(nodes, labels, n)[i]),
    decreases n,
{
    let before = source::labelled(nodes, labels, (n - 1) as nat);
    if i < before.len() {
        lemma_labelled(nodes, labels, (n - 1) as nat, i);
    } else {
        assert(nodes[n - 1] == source::labelled(nodes, labels, n)[i]);
    }
}

proof fn lemma_anchored(
    pattern: BoundPathPatternView,
    anchors: Seq<NodeValueView>,
    i: int,
    m: Matched,
    env: Env,
    spent: Spent,
    found: Seq<Matched>,
    free: Set<u32>,
)
    requires
        leaves_free(pattern, free),
        0 <= i <= anchors.len(),
        anchors == walk::anchors_of(pattern.start, m.row, env.graph),
    ensures
        walk::anchored_from(pattern, anchors, i, m, env, spent, found).result matches Ok(all)
            ==> all_walked_out(pattern, m, env, free, found, all),
    decreases anchors.len() - i,
{
    reveal(walk::anchored_from);
    assert(found.take(found.len() as int) =~= found);
    if i < anchors.len() {
        let t = walk::node_fits(anchors[i], pattern.start, m.row, env, spent);
        if t.result is Ok {
            lemma_anchored(pattern, anchors, i + 1, m, env, t.spent, found, free);
            if t.result->Ok_0 {
                let next = Matched {
                    row: walk::bound_to(m.row, pattern.start.var, ValueView::Node(anchors[i])),
                    used: m.used,
                };
                let path = path_at(anchors[i]);
                let w = walk::walked(pattern, 0, anchors[i], next, path, env, t.spent, found);
                lemma_walked(pattern, 0, anchors[i], next, path, env, t.spent, found, free);
                if let Ok(all) = w.result {
                    lemma_anchored_here(pattern, anchors, i, m, next, env, spent, found, all, free);
                    lemma_anchored(pattern, anchors, i + 1, m, env, w.spent, all, free);
                    let last = walk::anchored_from(pattern, anchors, i + 1, m, env, w.spent, all);
                    if let Ok(end) = last.result {
                        assert(end.take(found.len() as int) =~= end.take(all.len() as int).take(
                            found.len() as int,
                        ));
                        assert forall|k: int| found.len() <= k < end.len() implies is_walked_out(
                            pattern,
                            m,
                            #[trigger] end[k],
                            env,
                            free,
                        ) by {
                            if k < all.len() {
                                assert(end.take(all.len() as int)[k] == end[k]);
                                assert(all[k] == end[k]);
                            }
                        }
                    }
                }
            }
        }
    }
}

proof fn lemma_anchored_here(
    pattern: BoundPathPatternView,
    anchors: Seq<NodeValueView>,
    i: int,
    m: Matched,
    next: Matched,
    env: Env,
    spent: Spent,
    found: Seq<Matched>,
    all: Seq<Matched>,
    free: Set<u32>,
)
    requires
        0 <= i < anchors.len(),
        anchors == walk::anchors_of(pattern.start, m.row, env.graph),
        walk::node_fits(anchors[i], pattern.start, m.row, env, spent).result == Ok::<
            bool,
            ExecErrorView,
        >(true),
        next == (Matched {
            row: walk::bound_to(m.row, pattern.start.var, ValueView::Node(anchors[i])),
            used: m.used,
        }),
        adds(pattern, 0, anchors[i], next, path_at(anchors[i]), env, free, found, all),
    ensures
        all_walked_out(pattern, m, env, free, found, all),
{
    let start = anchors[i];
    let nodes = env.graph.nodes;
    let pinned = pattern.start.var is Some && m.row.dom().contains(
        (pattern.start.var->Some_0).0,
    );
    if !pinned {
        lemma_labelled(nodes, pattern.start.labels, nodes.len(), i);
    }
    assert(keeps(m.row, next.row, free));
    lemma_node(start, pattern.start, m.row, next.row, env, spent, free);
    assert forall|k: int| found.len() <= k < all.len() implies is_walked_out(
        pattern,
        m,
        #[trigger] all[k],
        env,
        free,
    ) by {
        let end = all[k];
        let path = path_at(start);
        assert(is_reached(pattern, 0, start, next, path, end, env, free));
        reveal(is_reached);
        let legs = choose|legs: Seq<Seq<Way>>|
            goes_on(pattern, 0, start, next, path, legs, end, env, free);
        assert(pattern.steps.skip(0) =~= pattern.steps);
        lemma_node_later(start, pattern.start, next.row, end.row, env, free);
        lemma_keeps(m.row, next.row, end.row, free);
        assert(walks_out(pattern, m, (start, legs), end, env, free));
        reveal(is_walked_out);
    }
}

/// Whether every one of `all` behind the first `n` comes of one of `states`.
spec fn all_come(
    pattern: BoundPathPatternView,
    states: Seq<Matched>,
    env: Env,
    free: Set<u32>,
    n: int,
    all: Seq<Matched>,
) -> bool {
    forall|i: int|
        n <= i < all.len() ==> comes_of_one(pattern, states, #[trigger] all[i], env, free)
}

/// Whether a match comes of one of `states` by a walk that meets a pattern.
pub open spec fn comes_of_one(
    pattern: BoundPathPatternView,
    states: Seq<Matched>,
    end: Matched,
    env: Env,
    free: Set<u32>,
) -> bool {
    exists|j: int|
        0 <= j < states.len() && is_walked_out(pattern, #[trigger] states[j], end, env, free)
}

proof fn lemma_continued(
    pattern: BoundPathPatternView,
    states: Seq<Matched>,
    i: int,
    env: Env,
    spent: Spent,
    found: Seq<Matched>,
    free: Set<u32>,
)
    requires
        leaves_free(pattern, free),
        0 <= i <= states.len(),
        all_come(pattern, states, env, free, 0, found),
    ensures
        walk::continued_from(pattern, states, i, env, spent, found).result matches Ok(all)
            ==> all_come(pattern, states, env, free, 0, all),
    decreases states.len() - i,
{
    reveal(walk::continued_from);
    if i < states.len() {
        let anchors = walk::anchors_of(pattern.start, states[i].row, env.graph);
        let w = walk::anchored_from(pattern, anchors, 0, states[i], env, spent, found);
        lemma_anchored(pattern, anchors, 0, states[i], env, spent, found, free);
        if let Ok(all) = w.result {
            assert(all_come(pattern, states, env, free, 0, all)) by {
                assert forall|k: int| 0 <= k < all.len() implies comes_of_one(
                    pattern,
                    states,
                    #[trigger] all[k],
                    env,
                    free,
                ) by {
                    if k < found.len() {
                        assert(all.take(found.len() as int)[k] == all[k]);
                        assert(found[k] == all[k]);
                    } else {
                        assert(is_walked_out(pattern, states[i], all[k], env, free));
                    }
                }
            }
            lemma_continued(pattern, states, i + 1, env, w.spent, all, free);
        }
    }
}

/// Every match of a pattern comes of a match before it, by a walk through the graph
/// that meets the pattern: each relationship it takes has the direction, the type
/// and the properties that its step asks for, each node the labels and the
/// properties, and as many are taken as the step allows.
pub proof fn matches_walk_the_graph(
    pattern: BoundPathPatternView,
    states: Seq<Matched>,
    env: Env,
    spent: Spent,
    free: Set<u32>,
    i: int,
)
    requires
        leaves_free(pattern, free),
    ensures
        walk::continued_from(pattern, states, 0, env, spent, seq![]).result matches Ok(all)
            ==> 0 <= i < all.len() ==> exists|j: int, walk: Walk|
            0 <= j < states.len() && #[trigger] walks_out(
                pattern,
                states[j],
                walk,
                all[i],
                env,
                free,
            ),
{
    lemma_continued(pattern, states, 0, env, spent, seq![], free);
    if let Ok(all) = walk::continued_from(pattern, states, 0, env, spent, seq![]).result {
        if 0 <= i < all.len() {
            assert(comes_of_one(pattern, states, all[i], env, free));
            let j = choose|j: int|
                0 <= j < states.len() && is_walked_out(
                    pattern,
                    #[trigger] states[j],
                    all[i],
                    env,
                    free,
                );
            reveal(is_walked_out);
            let (m, end) = (states[j], all[i]);
            let walk = choose|walk: Walk| walks_out(pattern, m, walk, end, env, free);
            assert(walks_out(pattern, states[j], walk, all[i], env, free));
        }
    }
}

// --- What was found stays ---------------------------------------------------------------------------

pub(crate) proof fn lemma_walked_keeps(
    pattern: BoundPathPatternView,
    at: int,
    from: NodeValueView,
    m: Matched,
    path: PathValueView,
    env: Env,
    spent: Spent,
    found: Seq<Matched>,
    x: Matched,
)
    requires
        0 <= at <= pattern.steps.len(),
        found.contains(x),
    ensures
        walk::walked(pattern, at, from, m, path, env, spent, found).result matches Ok(all)
            ==> all.contains(x),
{
    lemma_walked(pattern, at, from, m, path, env, spent, found, Set::full());
    if let Ok(all) = walk::walked(pattern, at, from, m, path, env, spent, found).result {
        let k = found.index_of(x);
        assert(all.take(found.len() as int)[k] == all[k]);
    }
}

pub(crate) proof fn lemma_over_keeps(
    pattern: BoundPathPatternView,
    at: int,
    from: NodeValueView,
    i: int,
    m: Matched,
    path: PathValueView,
    env: Env,
    spent: Spent,
    found: Seq<Matched>,
    x: Matched,
)
    requires
        0 <= at < pattern.steps.len(),
        pattern.steps[at].0.var_length is None,
        0 <= i <= (env.graph.expand)(
            from.id,
            pattern.steps[at].0.direction,
            pattern.steps[at].0.types,
        ).len(),
        found.contains(x),
    ensures
        ({
            let ways = (env.graph.expand)(
                from.id,
                pattern.steps[at].0.direction,
                pattern.steps[at].0.types,
            );
            walk::walked_over(pattern, at, ways, i, m, path, env, spent, found).result matches Ok(
                all,
            ) ==> all.contains(x)
        }),
{
    let ways = (env.graph.expand)(
        from.id,
        pattern.steps[at].0.direction,
        pattern.steps[at].0.types,
    );
    lemma_walked_over(pattern, at, from, ways, i, m, path, env, spent, found, Set::full());
    if let Ok(all) = walk::walked_over(pattern, at, ways, i, m, path, env, spent, found).result {
        let k = found.index_of(x);
        assert(all.take(found.len() as int)[k] == all[k]);
    }
}

pub(crate) proof fn lemma_anchored_keeps(
    pattern: BoundPathPatternView,
    i: int,
    m: Matched,
    env: Env,
    spent: Spent,
    found: Seq<Matched>,
    x: Matched,
)
    requires
        0 <= i <= walk::anchors_of(pattern.start, m.row, env.graph).len(),
        found.contains(x),
    ensures
        walk::anchored_from(
            pattern,
            walk::anchors_of(pattern.start, m.row, env.graph),
            i,
            m,
            env,
            spent,
            found,
        ).result matches Ok(all) ==> all.contains(x),
{
    let anchors = walk::anchors_of(pattern.start, m.row, env.graph);
    lemma_anchored(pattern, anchors, i, m, env, spent, found, Set::full());
    if let Ok(all) = walk::anchored_from(pattern, anchors, i, m, env, spent, found).result {
        let k = found.index_of(x);
        assert(all.take(found.len() as int)[k] == all[k]);
    }
}

// --- Clauses ----------------------------------------------------------------------------------------

/// The ways of several walks, one after the other.
pub open spec fn ways_of(walks: Seq<Walk>) -> Seq<Way>
    decreases walks.len(),
{
    if walks.len() == 0 {
        seq![]
    } else {
        all_ways(walks[0].1) + ways_of(walks.skip(1))
    }
}

/// Whether walks meet patterns, one for each.
pub open spec fn meet_patterns(
    walks: Seq<Walk>,
    patterns: Seq<BoundPathPatternView>,
    row: Map<u32, ValueView>,
    env: Env,
    free: Set<u32>,
) -> bool {
    &&& walks.len() == patterns.len()
    &&& forall|p: int|
        0 <= p < walks.len() ==> meets_pattern(#[trigger] walks[p], patterns[p], row, env, free)
}

spec fn walked_all(
    patterns: Seq<BoundPathPatternView>,
    m: Matched,
    walks: Seq<Walk>,
    end: Matched,
    env: Env,
    free: Set<u32>,
) -> bool {
    &&& meet_patterns(walks, patterns, end.row, env, free)
    &&& end.used == m.used + rel_ids(ways_of(walks))
    &&& keeps(m.row, end.row, free)
}

#[verifier::opaque]
spec fn reached_from(
    patterns: Seq<BoundPathPatternView>,
    states: Seq<Matched>,
    end: Matched,
    env: Env,
    free: Set<u32>,
) -> bool {
    exists|j: int, walks: Seq<Walk>|
        0 <= j < states.len() && #[trigger] walked_all(patterns, states[j], walks, end, env, free)
}

proof fn lemma_walk_before(
    pattern: BoundPathPatternView,
    rest: Seq<BoundPathPatternView>,
    m: Matched,
    walk: Walk,
    next: Matched,
    walks: Seq<Walk>,
    end: Matched,
    env: Env,
    free: Set<u32>,
)
    requires
        walks_out(pattern, m, walk, next, env, free),
        walked_all(rest, next, walks, end, env, free),
    ensures
        walked_all(seq![pattern] + rest, m, seq![walk] + walks, end, env, free),
{
    let all = seq![walk] + walks;
    let patterns = seq![pattern] + rest;
    lemma_keeps(m.row, next.row, end.row, free);
    assert(all.skip(1) =~= walks);
    assert(all[0] == walk);
    assert(rel_ids(all_ways(walk.1) + ways_of(walks)) =~= rel_ids(all_ways(walk.1)) + rel_ids(
        ways_of(walks),
    ));
    assert(end.used =~= m.used + rel_ids(ways_of(all)));
    lemma_node_later(walk.0, pattern.start, next.row, end.row, env, free);
    lemma_steps_later(walk.0, walk.1, pattern.steps, next.row, end.row, env, free);
    assert forall|p: int| 0 <= p < all.len() implies meets_pattern(
        #[trigger] all[p],
        patterns[p],
        end.row,
        env,
        free,
    ) by {
        if p > 0 {
            assert(all[p] == walks[p - 1]);
            assert(patterns[p] == rest[p - 1]);
        }
    }
}

proof fn lemma_patterns(
    patterns: Seq<BoundPathPatternView>,
    k: int,
    states: Seq<Matched>,
    env: Env,
    spent: Spent,
    free: Set<u32>,
)
    requires
        0 <= k <= patterns.len(),
        forall|p: int| 0 <= p < patterns.len() ==> leaves_free(#[trigger] patterns[p], free),
    ensures
        walk::patterns_from(patterns, k, states, env, spent).result matches Ok(all) ==> forall|i: int|
            0 <= i < all.len() ==> reached_from(
                patterns.skip(k),
                states,
                #[trigger] all[i],
                env,
                free,
            ),
    decreases patterns.len() - k,
{
    reveal(walk::patterns_from);
    if k < patterns.len() {
        let w = walk::continued_from(patterns[k], states, 0, env, spent, seq![]);
        if let Ok(next) = w.result {
            lemma_patterns(patterns, k + 1, next, env, w.spent, free);
            let on = walk::patterns_from(patterns, k + 1, next, env, w.spent);
            if let Ok(all) = on.result {
                assert forall|i: int| 0 <= i < all.len() implies reached_from(
                    patterns.skip(k),
                    states,
                    #[trigger] all[i],
                    env,
                    free,
                ) by {
                    let rest = patterns.skip(k + 1);
                    let end = all[i];
                    assert(reached_from(rest, next, end, env, free));
                    reveal(reached_from);
                    let (j, walks) = choose|j: int, walks: Seq<Walk>|
                        0 <= j < next.len() && #[trigger] walked_all(
                            rest,
                            next[j],
                            walks,
                            end,
                            env,
                            free,
                        );
                    matches_walk_the_graph(patterns[k], states, env, spent, free, j);
                    let (h, walk) = choose|h: int, walk: Walk|
                        0 <= h < states.len() && #[trigger] walks_out(
                            patterns[k],
                            states[h],
                            walk,
                            next[j],
                            env,
                            free,
                        );
                    lemma_walk_before(
                        patterns[k],
                        rest,
                        states[h],
                        walk,
                        next[j],
                        walks,
                        end,
                        env,
                        free,
                    );
                    assert(patterns.skip(k) =~= seq![patterns[k]] + rest);
                    assert(walked_all(
                        patterns.skip(k),
                        states[h],
                        seq![walk] + walks,
                        end,
                        env,
                        free,
                    ));
                }
            }
        }
    } else {
        assert forall|i: int| 0 <= i < states.len() implies reached_from(
            patterns.skip(k),
            states,
            #[trigger] states[i],
            env,
            free,
        ) by {
            reveal(reached_from);
            let none = Seq::<Walk>::empty();
            assert(patterns.skip(k).len() == 0);
            assert(states[i].used + rel_ids(ways_of(none)) =~= states[i].used);
            assert(walked_all(patterns.skip(k), states[i], none, states[i], env, free));
        }
    }
}

/// Whether a row that matching makes of another is a match: there are walks that
/// meet the patterns, no relationship is taken twice, and the predicate is true.
pub open spec fn is_a_match(
    before: Map<u32, ValueView>,
    row: Map<u32, ValueView>,
    walks: Seq<Walk>,
    patterns: Seq<BoundPathPatternView>,
    predicate: Option<BoundExprView>,
    env: Env,
    free: Set<u32>,
) -> bool {
    &&& meet_patterns(walks, patterns, row, env, free)
    &&& rel_ids(ways_of(walks)).no_duplicates()
    &&& keeps(before, row, free)
    &&& predicate matches Some(e) ==> exists|s: Spent|
        (#[trigger] semantics::evaluated(e, row, env, s)).result == Ok::<_, ExecErrorView>(
            ValueView::Bool(true),
        )
}

/// Whether a row is another with null for what the patterns mention and the other
/// does not have.
pub open spec fn is_padded(
    before: Map<u32, ValueView>,
    row: Map<u32, ValueView>,
    patterns: Seq<BoundPathPatternView>,
) -> bool {
    &&& forall|v: u32|
        #[trigger] before.dom().contains(v) ==> row.dom().contains(v) && row[v] == before[v]
    &&& forall|v: u32|
        #[trigger] row.dom().contains(v) && !before.dom().contains(v) ==> row[v] is Null
    &&& forall|p: int|
        0 <= p < patterns.len() ==> names_are_bound(#[trigger] patterns[p], row)
}

/// Whether a row binds every variable of a pattern.
pub open spec fn names_are_bound(p: BoundPathPatternView, row: Map<u32, ValueView>) -> bool {
    &&& p.path_var matches Some(v) ==> row.dom().contains(v.0)
    &&& p.start.var matches Some(v) ==> row.dom().contains(v.0)
    &&& forall|k: int|
        0 <= k < p.steps.len() ==> ((#[trigger] p.steps[k]).0.var matches Some(v) ==> row.dom().contains(
            v.0,
        )) && (p.steps[k].1.var matches Some(v) ==> row.dom().contains(v.0))
}

#[verifier::opaque]
spec fn comes_of_row(
    before: Map<u32, ValueView>,
    row: Map<u32, ValueView>,
    optional: bool,
    patterns: Seq<BoundPathPatternView>,
    predicate: Option<BoundExprView>,
    env: Env,
    free: Set<u32>,
) -> bool {
    ||| exists|walks: Seq<Walk>|
        is_a_match(before, row, walks, patterns, predicate, env, free)
    ||| optional && is_padded(before, row, patterns)
}

proof fn lemma_kept(
    states: Seq<Matched>,
    i: int,
    before: Map<u32, ValueView>,
    patterns: Seq<BoundPathPatternView>,
    predicate: Option<BoundExprView>,
    env: Env,
    spent: Spent,
    kept: Seq<Map<u32, ValueView>>,
    free: Set<u32>,
)
    requires
        0 <= i <= states.len(),
        match_laws::used_once(states),
        forall|k: int|
            0 <= k < states.len() ==> reached_from(
                patterns,
                seq![Matched { row: before, used: seq![] }],
                #[trigger] states[k],
                env,
                free,
            ),
        forall|k: int|
            0 <= k < kept.len() ==> comes_of_row(
                before,
                #[trigger] kept[k],
                false,
                patterns,
                predicate,
                env,
                free,
            ),
    ensures
        walk::kept_from(states, i, predicate, env, spent, kept).result matches Ok(all)
            ==> forall|k: int|
            0 <= k < all.len() ==> comes_of_row(
                before,
                #[trigger] all[k],
                false,
                patterns,
                predicate,
                env,
                free,
            ),
    decreases states.len() - i,
{
    reveal(walk::kept_from);
    if i < states.len() {
        let t = walk::passes(predicate, states[i].row, env, spent);
        if let Ok(b) = t.result {
            if b {
                assert(comes_of_row(
                    before,
                    states[i].row,
                    false,
                    patterns,
                    predicate,
                    env,
                    free,
                )) by {
                    let end = states[i];
                    let one = seq![Matched { row: before, used: seq![] }];
                    assert(reached_from(patterns, one, end, env, free));
                    reveal(reached_from);
                    reveal(walk::passes);
                    reveal(comes_of_row);
                    let (j, walks) = choose|j: int, walks: Seq<Walk>|
                        0 <= j < one.len() && #[trigger] walked_all(
                            patterns,
                            one[j],
                            walks,
                            end,
                            env,
                            free,
                        );
                    assert(one[j].used + rel_ids(ways_of(walks)) =~= rel_ids(ways_of(walks)));
                    assert(states[i].used.no_duplicates());
                    if let Some(e) = predicate {
                        let x = semantics::evaluated(e, end.row, env, spent);
                        assert(x.result == Ok::<_, ExecErrorView>(ValueView::Bool(true)));
                    }
                    assert(is_a_match(before, end.row, walks, patterns, predicate, env, free));
                }
            }
            let next = if b {
                kept.push(states[i].row)
            } else {
                kept
            };
            lemma_kept(states, i + 1, before, patterns, predicate, env, t.spent, next, free);
        }
    }
}

proof fn lemma_nulled(row: Map<u32, ValueView>, vars: Seq<VarId>, n: nat)
    requires
        n <= vars.len(),
    ensures
        ({
            let after = walk::nulled(row, vars, n);
            &&& forall|v: u32|
                #[trigger] row.dom().contains(v) ==> after.dom().contains(v) && after[v] == row[v]
            &&& forall|v: u32|
                #[trigger] after.dom().contains(v) && !row.dom().contains(v) ==> after[v] is Null
            &&& forall|i: int| 0 <= i < n ==> after.dom().contains((#[trigger] vars[i]).0)
        }),
    decreases n,
{
    if n > 0 {
        lemma_nulled(row, vars, (n - 1) as nat);
    }
}

proof fn lemma_step_vars(
    steps: Seq<(BoundRelPatternView, BoundNodePatternView)>,
    n: nat,
    k: int,
)
    requires
        0 <= k < n <= steps.len(),
    ensures
        steps[k].0.var matches Some(v) ==> walk::step_vars(steps, n).contains(v),
        steps[k].1.var matches Some(v) ==> walk::step_vars(steps, n).contains(v),
    decreases n,
{
    let before = walk::step_vars(steps, (n - 1) as nat);
    let all = walk::step_vars(steps, n);
    let rel = walk::one_var(steps[n - 1].0.var);
    let node = walk::one_var(steps[n - 1].1.var);
    if k < n - 1 {
        lemma_step_vars(steps, (n - 1) as nat, k);
        if let Some(v) = steps[k].0.var {
            assert(all[before.index_of(v)] == v);
        }
        if let Some(v) = steps[k].1.var {
            assert(all[before.index_of(v)] == v);
        }
    } else {
        if let Some(v) = steps[k].0.var {
            assert(all[before.len() as int] == v);
        }
        if let Some(v) = steps[k].1.var {
            assert(all[(before.len() + rel.len()) as int] == v);
        }
    }
}

proof fn lemma_mentioned(patterns: Seq<BoundPathPatternView>, n: nat, p: int, v: VarId)
    requires
        0 <= p < n <= patterns.len(),
        patterns[p].path_var == Some(v) || patterns[p].start.var == Some(v) || walk::step_vars(
            patterns[p].steps,
            patterns[p].steps.len(),
        ).contains(v),
    ensures
        walk::mentioned(patterns, n).contains(v),
    decreases n,
{
    let q = patterns[n - 1];
    let before = walk::mentioned(patterns, (n - 1) as nat);
    let path = walk::one_var(q.path_var);
    let start = walk::one_var(q.start.var);
    let steps = walk::step_vars(q.steps, q.steps.len());
    let all = walk::mentioned(patterns, n);
    assert(all == before + path + start + steps);
    if p < n - 1 {
        lemma_mentioned(patterns, (n - 1) as nat, p, v);
        assert(all[before.index_of(v)] == v);
    } else if q.path_var == Some(v) {
        assert(all[before.len() as int] == v);
    } else if q.start.var == Some(v) {
        assert(all[(before.len() + path.len()) as int] == v);
    } else {
        assert(all[before.len() + path.len() + start.len() + steps.index_of(v)] == v);
    }
}

proof fn lemma_padded(row: Map<u32, ValueView>, patterns: Seq<BoundPathPatternView>)
    ensures
        ({
            let vars = walk::mentioned(patterns, patterns.len());
            is_padded(row, walk::nulled(row, vars, vars.len()), patterns)
        }),
{
    let vars = walk::mentioned(patterns, patterns.len());
    let after = walk::nulled(row, vars, vars.len());
    lemma_nulled(row, vars, vars.len());
    assert forall|p: int| 0 <= p < patterns.len() implies names_are_bound(
        #[trigger] patterns[p],
        after,
    ) by {
        let q = patterns[p];
        if let Some(v) = q.path_var {
            lemma_mentioned(patterns, patterns.len(), p, v);
            assert(vars[vars.index_of(v)] == v);
        }
        if let Some(v) = q.start.var {
            lemma_mentioned(patterns, patterns.len(), p, v);
            assert(vars[vars.index_of(v)] == v);
        }
        assert forall|k: int| 0 <= k < q.steps.len() implies ((
        #[trigger] q.steps[k]).0.var matches Some(v) ==> after.dom().contains(v.0)) && (
        q.steps[k].1.var matches Some(v) ==> after.dom().contains(v.0)) by {
            lemma_step_vars(q.steps, q.steps.len(), k);
            if let Some(v) = q.steps[k].0.var {
                lemma_mentioned(patterns, patterns.len(), p, v);
                assert(vars[vars.index_of(v)] == v);
            }
            if let Some(v) = q.steps[k].1.var {
                lemma_mentioned(patterns, patterns.len(), p, v);
                assert(vars[vars.index_of(v)] == v);
            }
        }
    }
}

proof fn lemma_row(
    row: Map<u32, ValueView>,
    optional: bool,
    patterns: Seq<BoundPathPatternView>,
    predicate: Option<BoundExprView>,
    env: Env,
    spent: Spent,
    free: Set<u32>,
)
    requires
        forall|p: int| 0 <= p < patterns.len() ==> leaves_free(#[trigger] patterns[p], free),
    ensures
        walk::row_matches(row, optional, patterns, predicate, env, spent).result matches Ok(all)
            ==> forall|k: int|
            0 <= k < all.len() ==> comes_of_row(
                row,
                #[trigger] all[k],
                optional,
                patterns,
                predicate,
                env,
                free,
            ),
{
    reveal(walk::row_matches);
    let one = seq![Matched { row, used: seq![] }];
    let w = walk::patterns_from(patterns, 0, one, env, spent);
    lemma_patterns(patterns, 0, one, env, spent, free);
    assert(patterns.skip(0) =~= patterns);
    if let Ok(states) = w.result {
        assert(match_laws::used_once(one));
        match_laws::relationships_are_used_once(patterns, 0, one, env, spent);
        lemma_kept(states, 0, row, patterns, predicate, env, w.spent, seq![], free);
        let k = walk::kept_from(states, 0, predicate, env, w.spent, seq![]);
        if let Ok(rows) = k.result {
            reveal(comes_of_row);
            lemma_padded(row, patterns);
        }
    }
}

pub(crate) proof fn lemma_appended(
    rows: Seq<Map<u32, ValueView>>,
    j: int,
    out: Seq<Map<u32, ValueView>>,
    spent: Spent,
)
    requires
        0 <= j <= rows.len(),
    ensures
        walk::appended_from(rows, j, out, spent).result matches Ok(all) ==> all == out + rows.skip(
            j,
        ),
    decreases rows.len() - j,
{
    reveal(walk::appended_from);
    if j < rows.len() {
        let c = spent.budget.row(out.len());
        let after = semantics::with_budget(spent, c.budget);
        lemma_appended(rows, j + 1, out.push(rows[j]), after);
        assert(out.push(rows[j]) + rows.skip(j + 1) =~= out + rows.skip(j));
    } else {
        assert(out + rows.skip(j) =~= out);
    }
}

spec fn comes_of_rows(
    rows: Seq<Map<u32, ValueView>>,
    row: Map<u32, ValueView>,
    optional: bool,
    patterns: Seq<BoundPathPatternView>,
    predicate: Option<BoundExprView>,
    env: Env,
    free: Set<u32>,
) -> bool {
    exists|j: int|
        0 <= j < rows.len() && comes_of_row(
            #[trigger] rows[j],
            row,
            optional,
            patterns,
            predicate,
            env,
            free,
        )
}

proof fn lemma_matched(
    rows: Seq<Map<u32, ValueView>>,
    i: int,
    optional: bool,
    patterns: Seq<BoundPathPatternView>,
    predicate: Option<BoundExprView>,
    env: Env,
    spent: Spent,
    out: Seq<Map<u32, ValueView>>,
    free: Set<u32>,
)
    requires
        0 <= i <= rows.len(),
        forall|p: int| 0 <= p < patterns.len() ==> leaves_free(#[trigger] patterns[p], free),
        forall|k: int|
            0 <= k < out.len() ==> comes_of_rows(
                rows,
                #[trigger] out[k],
                optional,
                patterns,
                predicate,
                env,
                free,
            ),
    ensures
        walk::matched_from(
            rows,
            i,
            optional,
            patterns,
            predicate,
            env,
            spent,
            out,
        ).result matches Ok(all) ==> forall|k: int|
            0 <= k < all.len() ==> comes_of_rows(
                rows,
                #[trigger] all[k],
                optional,
                patterns,
                predicate,
                env,
                free,
            ),
    decreases rows.len() - i,
{
    reveal(walk::matched_from);
    if i < rows.len() {
        let r = walk::row_matches(rows[i], optional, patterns, predicate, env, spent);
        lemma_row(rows[i], optional, patterns, predicate, env, spent, free);
        if let Ok(found) = r.result {
            let more = walk::appended_from(found, 0, out, r.spent);
            lemma_appended(found, 0, out, r.spent);
            if let Ok(all) = more.result {
                assert(found.skip(0) =~= found);
                assert forall|k: int| 0 <= k < all.len() implies comes_of_rows(
                    rows,
                    #[trigger] all[k],
                    optional,
                    patterns,
                    predicate,
                    env,
                    free,
                ) by {
                    if k < out.len() {
                        assert(all[k] == out[k]);
                    } else {
                        assert(all[k] == found[k - out.len()]);
                        assert(comes_of_row(
                            rows[i],
                            found[k - out.len()],
                            optional,
                            patterns,
                            predicate,
                            env,
                            free,
                        ));
                    }
                }
                lemma_matched(
                    rows,
                    i + 1,
                    optional,
                    patterns,
                    predicate,
                    env,
                    more.spent,
                    all,
                    free,
                );
            }
        }
    }
}

/// Every row that a `MATCH` makes is a match of one of its rows: walks through the
/// graph meet its patterns, and its predicate is true. What an optional match makes
/// besides is a row with nulls.
pub proof fn every_row_is_a_match(
    rows: Seq<Map<u32, ValueView>>,
    optional: bool,
    patterns: Seq<BoundPathPatternView>,
    predicate: Option<BoundExprView>,
    env: Env,
    spent: Spent,
    free: Set<u32>,
    k: int,
)
    requires
        forall|p: int| 0 <= p < patterns.len() ==> leaves_free(#[trigger] patterns[p], free),
    ensures
        walk::matched_from(
            rows,
            0,
            optional,
            patterns,
            predicate,
            env,
            spent,
            seq![],
        ).result matches Ok(all) ==> 0 <= k < all.len() ==> ({
            ||| exists|j: int, walks: Seq<Walk>|
                0 <= j < rows.len() && #[trigger] is_a_match(
                    rows[j],
                    all[k],
                    walks,
                    patterns,
                    predicate,
                    env,
                    free,
                )
            ||| optional && exists|j: int|
                0 <= j < rows.len() && is_padded(#[trigger] rows[j], all[k], patterns)
        }),
{
    lemma_matched(rows, 0, optional, patterns, predicate, env, spent, seq![], free);
    let made = walk::matched_from(rows, 0, optional, patterns, predicate, env, spent, seq![]);
    if let Ok(all) = made.result {
        if 0 <= k < all.len() {
            assert(comes_of_rows(rows, all[k], optional, patterns, predicate, env, free));
            let j = choose|j: int|
                0 <= j < rows.len() && comes_of_row(
                    #[trigger] rows[j],
                    all[k],
                    optional,
                    patterns,
                    predicate,
                    env,
                    free,
                );
            reveal(comes_of_row);
            let (before, row) = (rows[j], all[k]);
            if !(optional && is_padded(before, row, patterns)) {
                let walks = choose|walks: Seq<Walk>|
                    is_a_match(before, row, walks, patterns, predicate, env, free);
                assert(is_a_match(rows[j], all[k], walks, patterns, predicate, env, free));
            }
        }
    }
}

} // verus!
