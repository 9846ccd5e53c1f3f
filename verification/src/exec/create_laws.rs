//! What `CREATE` leaves behind: every element stands in the graph as its pattern
//! writes it, under the variable that names it.

use vstd::prelude::*;

use crate::ast::Direction;
use crate::bind::bound::{
    BoundExprView, BoundNodePatternView, BoundPathPatternView, BoundRelPatternView, VarId,
};
use crate::exec::create::{self, Given};
use crate::exec::identity_laws;
use crate::exec::overlay::{self, MutationView, OverlayView};
use crate::exec::overlay_laws;
use crate::exec::semantics::{self, Spent};
use crate::exec::source;
use crate::exec::value::{
    EntityIdView, NodeValueView, PathValueView, PropertyMapView, RelValueView, ValueView,
};
use crate::exec::walk;
use crate::span::Span;

verus! {

/// What a clause works on: a row and the graph with its changes.
pub type Sight = (Map<u32, ValueView>, OverlayView);

/// Whether one overlay is another with more created, and nothing else changed.
pub open spec fn only_creates(o: OverlayView, later: OverlayView) -> bool {
    &&& later.base == o.base
    &&& later.changed_nodes == o.changed_nodes
    &&& later.changed_rels == o.changed_rels
    &&& later.deleted_nodes == o.deleted_nodes
    &&& later.deleted_rels == o.deleted_rels
    &&& o.created_nodes.is_prefix_of(later.created_nodes)
    &&& o.created_rels.is_prefix_of(later.created_rels)
    &&& o.log.is_prefix_of(later.log)
}

/// Whether creating may lead from one sight to another: the row keeps what it has.
pub open spec fn goes_to(a: Sight, b: Sight) -> bool {
    &&& forall|v: u32| #[trigger] a.0.dom().contains(v) ==> b.0.dom().contains(v) && b.0[v] == a.0[v]
    &&& only_creates(a.1, b.1)
}

/// Whether properties are what an expression gives in a sight: none where there is
/// no expression.
pub open spec fn gives(
    asked: Option<BoundExprView>,
    made: PropertyMapView,
    s: Sight,
    given: Given,
    spent: Spent,
) -> bool {
    match asked {
        None => forall|name: Seq<char>| (#[trigger] made.lookup(name)) is None,
        Some(e) => semantics::evaluated(e, s.0, given.env(s.1.graph()), spent).result matches Ok(
            v,
        ) && (v matches ValueView::Mapping(m) && forall|name: Seq<char>| #[trigger]
            made.lookup(name) == m.lookup(name)),
    }
}

/// Whether properties are what an expression gives somewhere between two sights.
#[verifier::opaque]
pub open spec fn are_given(
    asked: Option<BoundExprView>,
    made: PropertyMapView,
    a: Sight,
    b: Sight,
    given: Given,
) -> bool {
    exists|s: Sight, spent: Spent|
        goes_to(a, s) && goes_to(s, b) && #[trigger] gives(asked, made, s, given, spent)
}

/// Whether a variable was bound at some point between two sights.
#[verifier::opaque]
pub open spec fn was_bound(var: Option<VarId>, a: Sight, b: Sight) -> bool {
    exists|s: Sight| #[trigger] goes_to(a, s) && goes_to(s, b) && create::is_bound(s.0, var)
}

/// Whether a node stands for a pattern's: it is the one that the variable names, and
/// if it was not there already, it has the labels and the properties of the pattern
/// and is found by its identity.
pub open spec fn node_stands(
    p: BoundNodePatternView,
    n: NodeValueView,
    a: Sight,
    b: Sight,
    given: Given,
) -> bool {
    &&& p.var matches Some(v) ==> b.0.dom().contains(v.0) && b.0[v.0] == ValueView::Node(n)
    &&& was_bound(p.var, a, b) || {
        &&& n.labels == p.labels
        &&& are_given(p.properties, n.properties, a, b, given)
        &&& a.1.own_node(n.id) is None
        &&& b.1.own_node(n.id) == Some(n)
        &&& b.1.log.contains(MutationView::CreateNode(n))
    }
}

/// Whether a relationship stands for a step's, and a node for the one behind it: the
/// relationship is new, joins the two nodes in the direction of the step, has its
/// type and its properties, and is what the variable names and what is found by its
/// identity.
#[verifier::opaque]
pub open spec fn step_stands(
    step: (BoundRelPatternView, BoundNodePatternView),
    from: NodeValueView,
    rel: RelValueView,
    to: NodeValueView,
    a: Sight,
    b: Sight,
    given: Given,
) -> bool {
    &&& rel.rel_type == step.0.types[0]
    &&& step.0.direction != Direction::Undirected
    &&& step.0.direction == Direction::Out ==> rel.start == from.id && rel.end == to.id
    &&& step.0.direction == Direction::In ==> rel.start == to.id && rel.end == from.id
    &&& are_given(step.0.properties, rel.properties, a, b, given)
    &&& step.0.var matches Some(v) ==> b.0.dom().contains(v.0) && b.0[v.0]
        == ValueView::Relationship(rel)
    &&& a.1.own_rel(rel.id) is None
    &&& b.1.own_rel(rel.id) == Some(rel)
    &&& b.1.log.contains(MutationView::CreateRel(rel))
    &&& node_stands(step.1, to, a, b, given)
}

/// Whether a step names a variable.
pub open spec fn step_names(step: (BoundRelPatternView, BoundNodePatternView), v: u32) -> bool {
    step.0.var == Some(VarId(v)) || step.1.var == Some(VarId(v))
}

/// Whether a pattern names a variable.
pub open spec fn names(p: BoundPathPatternView, v: u32) -> bool {
    ||| p.path_var == Some(VarId(v))
    ||| p.start.var == Some(VarId(v))
    ||| exists|k: int| 0 <= k < p.steps.len() && step_names(#[trigger] p.steps[k], v)
}

/// Whether a pattern names a variable for a relationship or for its path.
pub open spec fn introduces(p: BoundPathPatternView, v: u32) -> bool {
    ||| p.path_var == Some(VarId(v))
    ||| exists|k: int| 0 <= k < p.steps.len() && (#[trigger] p.steps[k]).0.var == Some(VarId(v))
}

/// Whether the relationship variables of steps from `at` on are new: a row does not
/// have them and each is named once.
pub open spec fn steps_are_new(
    steps: Seq<(BoundRelPatternView, BoundNodePatternView)>,
    at: int,
    row: Map<u32, ValueView>,
) -> bool {
    &&& forall|k: int, v: u32|
        at <= k < steps.len() && (#[trigger] steps[k]).0.var == Some(VarId(v))
            ==> !#[trigger] row.dom().contains(v)
    &&& forall|j: int, k: int|
        at <= j < steps.len() && at <= k < steps.len() && (#[trigger] steps[j]).0.var is Some ==> (
        j != k ==> (#[trigger] steps[k]).0.var != steps[j].0.var) && steps[k].1.var
            != steps[j].0.var
}

/// Whether the variables for relationships and for the path of a pattern are new.
pub open spec fn is_new(p: BoundPathPatternView, row: Map<u32, ValueView>) -> bool {
    &&& steps_are_new(p.steps, 0, row)
    &&& forall|k: int|
        0 <= k < p.steps.len() && (#[trigger] p.steps[k]).0.var is Some ==> p.start.var
            != p.steps[k].0.var && p.path_var != p.steps[k].0.var
    &&& p.path_var matches Some(v) ==> !row.dom().contains(v.0) && p.start.var != Some(v)
    &&& forall|k: int|
        0 <= k < p.steps.len() && p.path_var is Some ==> (#[trigger] p.steps[k]).1.var
            != p.path_var
}

// --- Finding ----------------------------------------------------------------------------------------

proof fn lemma_rel_stays(a: Seq<RelValueView>, b: Seq<RelValueView>, id: EntityIdView, i: int)
    requires
        a.is_prefix_of(b),
        0 <= i <= a.len(),
    ensures
        overlay::find_rel(a, id, i) is Some ==> overlay::find_rel(b, id, i) == overlay::find_rel(
            a,
            id,
            i,
        ),
    decreases a.len() - i,
{
    if i < a.len() {
        assert(a[i] == b[i]);
        if a[i].id != id {
            lemma_rel_stays(a, b, id, i + 1);
        }
    }
}

proof fn lemma_node_stays(a: Seq<NodeValueView>, b: Seq<NodeValueView>, id: EntityIdView, i: int)
    requires
        a.is_prefix_of(b),
        0 <= i <= a.len(),
    ensures
        source::find_node(a, id, i) is Some ==> source::find_node(b, id, i) == source::find_node(
            a,
            id,
            i,
        ),
    decreases a.len() - i,
{
    if i < a.len() {
        assert(a[i] == b[i]);
        if a[i].id != id {
            lemma_node_stays(a, b, id, i + 1);
        }
    }
}

proof fn lemma_rel_pushed(rels: Seq<RelValueView>, rel: RelValueView, i: int)
    requires
        0 <= i <= rels.len(),
        overlay::find_rel(rels, rel.id, i) is None,
    ensures
        overlay::find_rel(rels.push(rel), rel.id, i) == Some(rel),
    decreases rels.len() - i,
{
    if i < rels.len() {
        assert(rels.push(rel)[i] == rels[i]);
        lemma_rel_pushed(rels, rel, i + 1);
    }
}

proof fn lemma_found_stays(a: OverlayView, b: OverlayView, id: EntityIdView)
    requires
        only_creates(a, b),
    ensures
        b.own_rel(id) is None ==> a.own_rel(id) is None,
        b.own_node(id) is None ==> a.own_node(id) is None,
        overlay::find_rel(a.created_rels, id, 0) is Some ==> b.own_rel(id) == a.own_rel(id),
        source::find_node(a.created_nodes, id, 0) is Some ==> b.own_node(id) == a.own_node(id),
{
    lemma_rel_stays(a.created_rels, b.created_rels, id, 0);
    lemma_node_stays(a.created_nodes, b.created_nodes, id, 0);
}

proof fn lemma_goes(a: Sight, b: Sight, c: Sight)
    requires
        goes_to(a, b),
        goes_to(b, c),
    ensures
        goes_to(a, c),
{
    let (x, y, z) = (a.1, b.1, c.1);
    assert(x.created_nodes.is_prefix_of(z.created_nodes)) by {
        assert(z.created_nodes.take(x.created_nodes.len() as int) =~= x.created_nodes);
    }
    assert(x.created_rels.is_prefix_of(z.created_rels)) by {
        assert(z.created_rels.take(x.created_rels.len() as int) =~= x.created_rels);
    }
    assert(x.log.is_prefix_of(z.log)) by {
        assert(z.log.take(x.log.len() as int) =~= x.log);
    }
}

proof fn lemma_goes_nowhere(a: Sight)
    ensures
        goes_to(a, a),
{
    assert(a.1.created_nodes.is_prefix_of(a.1.created_nodes));
    assert(a.1.created_rels.is_prefix_of(a.1.created_rels));
    assert(a.1.log.is_prefix_of(a.1.log));
}

// --- A wider view -----------------------------------------------------------------------------------

proof fn lemma_given_wider(
    asked: Option<BoundExprView>,
    made: PropertyMapView,
    a: Sight,
    b: Sight,
    c: Sight,
    d: Sight,
    given: Given,
)
    requires
        are_given(asked, made, b, c, given),
        goes_to(a, b),
        goes_to(c, d),
    ensures
        are_given(asked, made, a, d, given),
{
    reveal(are_given);
    let (s, spent) = choose|s: Sight, spent: Spent|
        goes_to(b, s) && goes_to(s, c) && #[trigger] gives(asked, made, s, given, spent);
    lemma_goes(a, b, s);
    lemma_goes(s, c, d);
    assert(gives(asked, made, s, given, spent));
}

proof fn lemma_bound_wider(var: Option<VarId>, a: Sight, b: Sight, c: Sight, d: Sight)
    requires
        was_bound(var, b, c),
        goes_to(a, b),
        goes_to(c, d),
    ensures
        was_bound(var, a, d),
{
    reveal(was_bound);
    let s = choose|s: Sight|
        #[trigger] goes_to(b, s) && goes_to(s, c) && create::is_bound(s.0, var);
    lemma_goes(a, b, s);
    lemma_goes(s, c, d);
    assert(goes_to(a, s));
}

/// What stands in the log stays there.
proof fn lemma_logged(a: OverlayView, b: OverlayView, m: MutationView)
    requires
        only_creates(a, b),
        a.log.contains(m),
    ensures
        b.log.contains(m),
{
    let i = a.log.index_of(m);
    assert(b.log[i] == a.log[i]);
}

/// Whether the overlay found an element among those it created.
spec fn is_kept(o: OverlayView, n: NodeValueView) -> bool {
    source::find_node(o.created_nodes, n.id, 0) == Some(n)
}

proof fn lemma_node_wider(
    p: BoundNodePatternView,
    n: NodeValueView,
    a: Sight,
    b: Sight,
    c: Sight,
    d: Sight,
    given: Given,
)
    requires
        node_stands(p, n, b, c, given),
        was_bound(p.var, b, c) || is_kept(c.1, n),
        goes_to(a, b),
        goes_to(c, d),
    ensures
        node_stands(p, n, a, d, given),
        was_bound(p.var, a, d) || is_kept(d.1, n),
{
    if was_bound(p.var, b, c) {
        lemma_bound_wider(p.var, a, b, c, d);
    } else {
        lemma_given_wider(p.properties, n.properties, a, b, c, d, given);
        lemma_found_stays(a.1, b.1, n.id);
        lemma_found_stays(c.1, d.1, n.id);
        lemma_node_stays(c.1.created_nodes, d.1.created_nodes, n.id, 0);
        lemma_logged(c.1, d.1, MutationView::CreateNode(n));
    }
}

/// [`step_stands`], and what it takes for it to last.
spec fn step_lasts(
    step: (BoundRelPatternView, BoundNodePatternView),
    from: NodeValueView,
    rel: RelValueView,
    to: NodeValueView,
    a: Sight,
    b: Sight,
    given: Given,
) -> bool {
    &&& step_stands(step, from, rel, to, a, b, given)
    &&& overlay::find_rel(b.1.created_rels, rel.id, 0) == Some(rel)
    &&& was_bound(step.1.var, a, b) || is_kept(b.1, to)
}

proof fn lemma_step_wider(
    step: (BoundRelPatternView, BoundNodePatternView),
    from: NodeValueView,
    rel: RelValueView,
    to: NodeValueView,
    a: Sight,
    b: Sight,
    c: Sight,
    d: Sight,
    given: Given,
)
    requires
        step_lasts(step, from, rel, to, b, c, given),
        goes_to(a, b),
        goes_to(c, d),
    ensures
        step_lasts(step, from, rel, to, a, d, given),
{
    reveal(step_stands);
    lemma_given_wider(step.0.properties, rel.properties, a, b, c, d, given);
    lemma_found_stays(a.1, b.1, rel.id);
    lemma_found_stays(c.1, d.1, rel.id);
    lemma_rel_stays(c.1.created_rels, d.1.created_rels, rel.id, 0);
    lemma_logged(c.1, d.1, MutationView::CreateRel(rel));
    lemma_node_wider(step.1, to, a, b, c, d, given);
}

// --- One element ------------------------------------------------------------------------------------

proof fn lemma_properties(
    asked: Option<BoundExprView>,
    s: Sight,
    given: Given,
    span: Span,
    spent: Spent,
)
    ensures
        create::properties_of(
            asked,
            s.0,
            given.env(s.1.graph()),
            span,
            spent,
        ).result matches Ok(made) ==> gives(asked, made, s, given, spent),
{
    reveal(create::properties_of);
}

proof fn lemma_given_here(
    asked: Option<BoundExprView>,
    made: PropertyMapView,
    a: Sight,
    s: Sight,
    b: Sight,
    given: Given,
    spent: Spent,
)
    requires
        gives(asked, made, s, given, spent),
        goes_to(a, s),
        goes_to(s, b),
    ensures
        are_given(asked, made, a, b, given),
{
    reveal(are_given);
}

proof fn lemma_node(
    p: BoundNodePatternView,
    row: Map<u32, ValueView>,
    o: OverlayView,
    given: Given,
    spent: Spent,
)
    requires
        identity_laws::keeps_identities(o),
    ensures
        create::node_made(p, row, o, given, spent).result matches Ok((n, after, later)) ==> {
            &&& goes_to((row, o), (after, later))
            &&& identity_laws::keeps_identities(later)
            &&& node_stands(p, n, (row, o), (after, later), given)
            &&& was_bound(p.var, (row, o), (after, later)) || is_kept(later, n)
            &&& forall|v: u32| #[trigger]
                after.dom().contains(v) <==> row.dom().contains(v) || p.var == Some(VarId(v))
            &&& later.created_rels == o.created_rels
            &&& create::is_bound(row, p.var) ==> later == o
            &&& !create::is_bound(row, p.var) ==> later.created_nodes == o.created_nodes.push(n)
        },
{
    reveal(create::node_made);
    let a = (row, o);
    lemma_goes_nowhere(a);
    if create::is_bound(row, p.var) {
        reveal(was_bound);
        assert(was_bound(p.var, a, a));
    } else {
        let m = create::properties_of(p.properties, row, given.env(o.graph()), p.span, spent);
        lemma_properties(p.properties, a, given, p.span, spent);
        if let Ok(properties) = m.result {
            let made = o.with_node(p.labels, properties);
            let n = made.1;
            let b = (walk::bound_to(row, p.var, ValueView::Node(n)), made.0);
            identity_laws::creating_keeps_identities(
                o,
                p.labels,
                properties,
                n.id,
                seq![],
                n.id,
            );
            overlay_laws::lemma_find_pushed(o.created_nodes, n, n.id, 0);
            assert(b.1.log[o.log.len() as int] == MutationView::CreateNode(n));
            assert(o.created_nodes.is_prefix_of(b.1.created_nodes));
            assert(o.log.is_prefix_of(b.1.log));
            assert(goes_to(a, b));
            lemma_given_here(p.properties, properties, a, a, b, given, spent);
        }
    }
}

proof fn lemma_rel(
    p: BoundRelPatternView,
    from: NodeValueView,
    to: NodeValueView,
    properties: PropertyMapView,
    s: Sight,
)
    requires
        identity_laws::keeps_identities(s.1),
        p.direction != Direction::Undirected,
        p.var matches Some(v) ==> !s.0.dom().contains(v.0),
    ensures
        ({
            let made = create::rel_made(p, from, to, properties, s.1);
            let rel = made.1;
            let b = (walk::bound_to(s.0, p.var, ValueView::Relationship(rel)), made.0);
            &&& goes_to(s, b)
            &&& identity_laws::keeps_identities(b.1)
            &&& rel.rel_type == p.types[0]
            &&& p.direction == Direction::Out ==> rel.start == from.id && rel.end == to.id
            &&& p.direction == Direction::In ==> rel.start == to.id && rel.end == from.id
            &&& forall|name: Seq<char>| #[trigger]
                rel.properties.lookup(name) == properties.lookup(name)
            &&& p.var matches Some(v) ==> b.0.dom().contains(v.0) && b.0[v.0]
                == ValueView::Relationship(rel)
            &&& s.1.own_rel(rel.id) is None
            &&& overlay::find_rel(b.1.created_rels, rel.id, 0) == Some(rel)
            &&& b.1.log.contains(MutationView::CreateRel(rel))
            &&& b.1.created_rels == s.1.created_rels.push(rel)
            &&& b.1.created_nodes == s.1.created_nodes
        }),
{
    let o = s.1;
    let made = create::rel_made(p, from, to, properties, o);
    let rel = made.1;
    let b = (walk::bound_to(s.0, p.var, ValueView::Relationship(rel)), made.0);
    identity_laws::creating_keeps_identities(
        o,
        seq![],
        properties,
        rel.start,
        rel.rel_type,
        rel.end,
    );
    lemma_rel_pushed(o.created_rels, rel, 0);
    assert(b.1.log[o.log.len() as int] == MutationView::CreateRel(rel));
    assert(o.created_rels.is_prefix_of(b.1.created_rels));
    assert(o.log.is_prefix_of(b.1.log));
}

// --- Paths ------------------------------------------------------------------------------------------

/// What the steps of a pattern from `at` on leave behind.
#[verifier::opaque]
spec fn steps_last(
    steps: Seq<(BoundRelPatternView, BoundNodePatternView)>,
    at: int,
    path: PathValueView,
    whole: PathValueView,
    a: Sight,
    b: Sight,
    given: Given,
) -> bool {
    &&& goes_to(a, b)
    &&& identity_laws::keeps_identities(b.1)
    &&& whole.nodes.len() == steps.len() + 1
    &&& whole.rels.len() == steps.len()
    &&& path.nodes.is_prefix_of(whole.nodes)
    &&& path.rels.is_prefix_of(whole.rels)
    &&& forall|k: int|
        at <= k < steps.len() ==> step_lasts(
            #[trigger] steps[k],
            whole.nodes[k],
            whole.rels[k],
            whole.nodes[k + 1],
            a,
            b,
            given,
        )
    &&& b.1.created_rels == a.1.created_rels + whole.rels.skip(at)
    &&& forall|i: int|
        a.1.created_nodes.len() <= i < b.1.created_nodes.len() ==> whole.nodes.contains(
            #[trigger] b.1.created_nodes[i],
        )
    &&& forall|v: u32|
        #[trigger] b.0.dom().contains(v) && !a.0.dom().contains(v) ==> exists|k: int|
            at <= k < steps.len() && step_names(#[trigger] steps[k], v)
}

proof fn lemma_step(
    step: (BoundRelPatternView, BoundNodePatternView),
    from: NodeValueView,
    to: NodeValueView,
    a: Sight,
    s: Sight,
    properties: PropertyMapView,
    given: Given,
    spent: Spent,
)
    requires
        identity_laws::keeps_identities(s.1),
        step.0.direction != Direction::Undirected,
        step.0.var matches Some(v) ==> !s.0.dom().contains(v.0),
        goes_to(a, s),
        node_stands(step.1, to, a, s, given),
        was_bound(step.1.var, a, s) || is_kept(s.1, to),
        gives(step.0.properties, properties, s, given, spent),
    ensures
        ({
            let made = create::rel_made(step.0, from, to, properties, s.1);
            let b = (walk::bound_to(s.0, step.0.var, ValueView::Relationship(made.1)), made.0);
            &&& goes_to(s, b)
            &&& goes_to(a, b)
            &&& step_lasts(step, from, made.1, to, a, b, given)
        }),
{
    let made = create::rel_made(step.0, from, to, properties, s.1);
    let rel = made.1;
    let b = (walk::bound_to(s.0, step.0.var, ValueView::Relationship(rel)), made.0);
    lemma_rel(step.0, from, to, properties, s);
    lemma_goes(a, s, b);
    lemma_goes_nowhere(a);
    assert(gives(step.0.properties, rel.properties, s, given, spent));
    lemma_given_here(step.0.properties, rel.properties, a, s, b, given, spent);
    lemma_node_wider(step.1, to, a, a, s, b, given);
    lemma_found_stays(a.1, s.1, rel.id);
    reveal(step_stands);
}

proof fn lemma_steps_joined(
    steps: Seq<(BoundRelPatternView, BoundNodePatternView)>,
    at: int,
    path: PathValueView,
    rel: RelValueView,
    to: NodeValueView,
    whole: PathValueView,
    a: Sight,
    s: Sight,
    m: Sight,
    b: Sight,
    given: Given,
)
    requires
        0 <= at < steps.len(),
        path.nodes.len() == at + 1,
        path.rels.len() == at,
        goes_to(a, s),
        goes_to(s, m),
        step_lasts(steps[at], path.nodes[at], rel, to, a, m, given),
        m.1.created_rels == a.1.created_rels.push(rel),
        m.1.created_nodes == a.1.created_nodes || m.1.created_nodes == a.1.created_nodes.push(to),
        forall|v: u32| #[trigger]
            m.0.dom().contains(v) && !a.0.dom().contains(v) ==> step_names(steps[at], v),
        steps_last(
            steps,
            at + 1,
            PathValueView { nodes: path.nodes.push(to), rels: path.rels.push(rel) },
            whole,
            m,
            b,
            given,
        ),
    ensures
        steps_last(steps, at, path, whole, a, b, given),
{
    reveal(steps_last);
    lemma_goes(a, s, m);
    lemma_goes(a, m, b);
    lemma_goes_nowhere(a);
    let nodes = path.nodes.push(to);
    let rels = path.rels.push(rel);
    assert(whole.nodes[at] == nodes[at]);
    assert(whole.nodes[at + 1] == nodes[at + 1]);
    assert(whole.rels[at] == rels[at]);
    assert(whole.nodes.take(at + 1) =~= path.nodes);
    assert(whole.rels.take(at) =~= path.rels);
    assert(path.nodes.is_prefix_of(whole.nodes));
    assert(path.rels.is_prefix_of(whole.rels));
    assert(whole.rels.skip(at) =~= seq![rel] + whole.rels.skip(at + 1));
    assert(b.1.created_rels =~= a.1.created_rels + whole.rels.skip(at));
    assert forall|k: int| at <= k < steps.len() implies step_lasts(
        #[trigger] steps[k],
        whole.nodes[k],
        whole.rels[k],
        whole.nodes[k + 1],
        a,
        b,
        given,
    ) by {
        if k == at {
            lemma_step_wider(steps[at], path.nodes[at], rel, to, a, a, m, b, given);
        } else {
            lemma_goes_nowhere(b);
            lemma_step_wider(
                steps[k],
                whole.nodes[k],
                whole.rels[k],
                whole.nodes[k + 1],
                a,
                m,
                b,
                b,
                given,
            );
        }
    }
    assert forall|i: int| a.1.created_nodes.len() <= i < b.1.created_nodes.len() implies whole.nodes.contains(
        #[trigger] b.1.created_nodes[i],
    ) by {
        if i < m.1.created_nodes.len() {
            assert(b.1.created_nodes[i] == m.1.created_nodes[i]);
            assert(whole.nodes[at + 1] == to);
        }
    }
    assert forall|v: u32| #[trigger]
        b.0.dom().contains(v) && !a.0.dom().contains(v) implies exists|k: int|
        at <= k < steps.len() && step_names(#[trigger] steps[k], v) by {
        if m.0.dom().contains(v) {
            assert(step_names(steps[at], v));
        }
    }
}

proof fn lemma_steps(
    steps: Seq<(BoundRelPatternView, BoundNodePatternView)>,
    at: int,
    path: PathValueView,
    row: Map<u32, ValueView>,
    o: OverlayView,
    given: Given,
    spent: Spent,
)
    requires
        identity_laws::keeps_identities(o),
        0 <= at <= steps.len(),
        path.nodes.len() == at + 1,
        path.rels.len() == at,
        steps_are_new(steps, at, row),
    ensures
        create::steps_made(
            steps,
            at,
            path.nodes[at],
            path,
            row,
            o,
            given,
            spent,
        ).result matches Ok((whole, after, later)) ==> steps_last(
            steps,
            at,
            path,
            whole,
            (row, o),
            (after, later),
            given,
        ),
    decreases steps.len() - at,
{
    reveal(create::steps_made);
    let a = (row, o);
    if at >= steps.len() {
        reveal(steps_last);
        lemma_goes_nowhere(a);
        assert(path.nodes.is_prefix_of(path.nodes));
        assert(path.rels.is_prefix_of(path.rels));
        assert(o.created_rels =~= o.created_rels + path.rels.skip(at));
    } else {
        let p = steps[at].0;
        let from = path.nodes[at];
        let n = create::node_made(steps[at].1, row, o, given, spent);
        lemma_node(steps[at].1, row, o, given, spent);
        if let Ok((to, row1, o1)) = n.result {
            let s = (row1, o1);
            let m = create::properties_of(
                p.properties,
                row1,
                given.env(o1.graph()),
                p.span,
                n.spent,
            );
            lemma_properties(p.properties, s, given, p.span, n.spent);
            if m.result is Ok && p.direction != Direction::Undirected {
                let properties = m.result->Ok_0;
                let made = create::rel_made(p, from, to, properties, o1);
                let rel = made.1;
                let next = (walk::bound_to(row1, p.var, ValueView::Relationship(rel)), made.0);
                let longer = PathValueView {
                    nodes: path.nodes.push(to),
                    rels: path.rels.push(rel),
                };
                if let Some(v) = p.var {
                    assert(v == VarId(v.0));
                    assert(steps[at].1.var != steps[at].0.var);
                    assert(!row.dom().contains(v.0));
                }
                lemma_rel(p, from, to, properties, s);
                lemma_step(steps[at], from, to, a, s, properties, given, n.spent);
                assert(steps_are_new(steps, at + 1, next.0)) by {
                    assert forall|k: int, v: u32|
                        at + 1 <= k < steps.len() && (#[trigger] steps[k]).0.var == Some(
                            VarId(v),
                        ) implies !#[trigger] next.0.dom().contains(v) by {
                        assert(!row.dom().contains(v));
                        assert(steps[at].1.var != steps[k].0.var);
                        assert(steps[at].0.var != steps[k].0.var);
                    }
                }
                assert(longer.nodes[at + 1] == to);
                lemma_steps(steps, at + 1, longer, next.0, next.1, given, m.spent);
                let on = create::steps_made(
                    steps,
                    at + 1,
                    to,
                    longer,
                    next.0,
                    next.1,
                    given,
                    m.spent,
                );
                if let Ok((whole, after, later)) = on.result {
                    lemma_steps_joined(
                        steps,
                        at,
                        path,
                        rel,
                        to,
                        whole,
                        a,
                        s,
                        next,
                        (after, later),
                        given,
                    );
                }
            }
        }
    }
}

/// Whether a path stands for a pattern: a node for each place and a relationship for
/// each step, as the pattern writes them.
pub open spec fn path_stands(
    p: BoundPathPatternView,
    path: PathValueView,
    a: Sight,
    b: Sight,
    given: Given,
) -> bool {
    &&& path.nodes.len() == p.steps.len() + 1
    &&& path.rels.len() == p.steps.len()
    &&& p.path_var matches Some(v) ==> b.0.dom().contains(v.0) && b.0[v.0] == ValueView::Path(path)
    &&& node_stands(p.start, path.nodes[0], a, b, given)
    &&& forall|k: int|
        0 <= k < p.steps.len() ==> step_stands(
            #[trigger] p.steps[k],
            path.nodes[k],
            path.rels[k],
            path.nodes[k + 1],
            a,
            b,
            given,
        )
}

/// Whether the elements of a path are all that is created between two overlays.
pub open spec fn creates_just(o: OverlayView, path: PathValueView, later: OverlayView) -> bool {
    &&& later.created_rels == o.created_rels + path.rels
    &&& forall|i: int|
        o.created_nodes.len() <= i < later.created_nodes.len() ==> path.nodes.contains(
            #[trigger] later.created_nodes[i],
        )
}

/// [`path_stands`], and what it takes for it to last.
spec fn path_lasts(
    p: BoundPathPatternView,
    path: PathValueView,
    a: Sight,
    b: Sight,
    given: Given,
) -> bool {
    &&& path_stands(p, path, a, b, given)
    &&& was_bound(p.start.var, a, b) || is_kept(b.1, path.nodes[0])
    &&& forall|k: int|
        0 <= k < p.steps.len() ==> step_lasts(
            #[trigger] p.steps[k],
            path.nodes[k],
            path.rels[k],
            path.nodes[k + 1],
            a,
            b,
            given,
        )
}

#[verifier::opaque]
spec fn is_left(p: BoundPathPatternView, a: Sight, b: Sight, given: Given) -> bool {
    exists|path: PathValueView| path_lasts(p, path, a, b, given)
}

proof fn lemma_path_wider(
    p: BoundPathPatternView,
    a: Sight,
    b: Sight,
    c: Sight,
    d: Sight,
    given: Given,
)
    requires
        is_left(p, b, c, given),
        goes_to(a, b),
        goes_to(c, d),
    ensures
        is_left(p, a, d, given),
{
    reveal(is_left);
    let path = choose|path: PathValueView| path_lasts(p, path, b, c, given);
    lemma_node_wider(p.start, path.nodes[0], a, b, c, d, given);
    assert forall|k: int| 0 <= k < p.steps.len() implies step_lasts(
        #[trigger] p.steps[k],
        path.nodes[k],
        path.rels[k],
        path.nodes[k + 1],
        a,
        d,
        given,
    ) by {
        lemma_step_wider(
            p.steps[k],
            path.nodes[k],
            path.rels[k],
            path.nodes[k + 1],
            a,
            b,
            c,
            d,
            given,
        );
    }
    assert(path_lasts(p, path, a, d, given));
}

proof fn lemma_whole(
    p: BoundPathPatternView,
    start: NodeValueView,
    whole: PathValueView,
    a: Sight,
    s: Sight,
    m: Sight,
    given: Given,
)
    requires
        goes_to(a, s),
        node_stands(p.start, start, a, s, given),
        was_bound(p.start.var, a, s) || is_kept(s.1, start),
        s.1.created_rels == a.1.created_rels,
        s.1.created_nodes == a.1.created_nodes || s.1.created_nodes == a.1.created_nodes.push(start),
        steps_last(
            p.steps,
            0,
            PathValueView { nodes: seq![start], rels: seq![] },
            whole,
            s,
            m,
            given,
        ),
        p.path_var matches Some(v) ==> !m.0.dom().contains(v.0),
    ensures
        ({
            let b = (walk::bound_to(m.0, p.path_var, ValueView::Path(whole)), m.1);
            &&& goes_to(a, b)
            &&& path_lasts(p, whole, a, b, given)
            &&& creates_just(a.1, whole, m.1)
        }),
{
    reveal(steps_last);
    let path = PathValueView { nodes: seq![start], rels: seq![] };
    let b = (walk::bound_to(m.0, p.path_var, ValueView::Path(whole)), m.1);
    lemma_goes_nowhere(m);
    assert(goes_to(m, b));
    lemma_goes(s, m, b);
    lemma_goes(a, s, b);
    lemma_goes_nowhere(a);
    assert(whole.nodes[0] == path.nodes[0]);
    lemma_node_wider(p.start, start, a, a, s, b, given);
    assert forall|k: int| 0 <= k < p.steps.len() implies step_lasts(
        #[trigger] p.steps[k],
        whole.nodes[k],
        whole.rels[k],
        whole.nodes[k + 1],
        a,
        b,
        given,
    ) by {
        lemma_step_wider(
            p.steps[k],
            whole.nodes[k],
            whole.rels[k],
            whole.nodes[k + 1],
            a,
            s,
            m,
            b,
            given,
        );
    }
    assert(whole.rels.skip(0) =~= whole.rels);
    assert forall|i: int|
        a.1.created_nodes.len() <= i < m.1.created_nodes.len() implies whole.nodes.contains(
        #[trigger] m.1.created_nodes[i],
    ) by {
        if i < s.1.created_nodes.len() {
            assert(m.1.created_nodes[i] == s.1.created_nodes[i]);
            assert(whole.nodes[0] == start);
        }
    }
}

/// Whether a path lasts for a pattern, and nothing else is created.
#[verifier::opaque]
spec fn is_made(p: BoundPathPatternView, a: Sight, b: Sight, given: Given) -> bool {
    exists|path: PathValueView| #[trigger]
        path_lasts(p, path, a, b, given) && creates_just(a.1, path, b.1)
}

/// Whether a row has no more than another and what a pattern names.
#[verifier::opaque]
spec fn adds_names(
    p: BoundPathPatternView,
    a: Map<u32, ValueView>,
    b: Map<u32, ValueView>,
) -> bool {
    forall|v: u32| #[trigger] b.dom().contains(v) && !a.dom().contains(v) ==> names(p, v)
}

proof fn lemma_names(
    p: BoundPathPatternView,
    start: NodeValueView,
    whole: PathValueView,
    a: Sight,
    s: Sight,
    m: Sight,
    given: Given,
)
    requires
        forall|v: u32| #[trigger]
            s.0.dom().contains(v) <==> a.0.dom().contains(v) || p.start.var == Some(VarId(v)),
        steps_last(
            p.steps,
            0,
            PathValueView { nodes: seq![start], rels: seq![] },
            whole,
            s,
            m,
            given,
        ),
    ensures
        adds_names(p, a.0, walk::bound_to(m.0, p.path_var, ValueView::Path(whole))),
{
    reveal(steps_last);
    reveal(adds_names);
    let b = walk::bound_to(m.0, p.path_var, ValueView::Path(whole));
    assert forall|v: u32| #[trigger] b.dom().contains(v) && !a.0.dom().contains(v) implies names(
        p,
        v,
    ) by {
        if p.path_var != Some(VarId(v)) && p.start.var != Some(VarId(v)) {
            assert(m.0.dom().contains(v));
            assert(!s.0.dom().contains(v));
            let k = choose|k: int|
                0 <= k < p.steps.len() && step_names(#[trigger] p.steps[k], v);
            assert(step_names(p.steps[k], v));
        }
    }
}

/// A variable that neither a row nor steps have is not bound by the steps.
proof fn lemma_path_var(
    p: BoundPathPatternView,
    path: PathValueView,
    whole: PathValueView,
    s: Sight,
    m: Sight,
    given: Given,
    v: VarId,
)
    requires
        p.path_var == Some(v),
        is_new(p, s.0) || forall|k: int|
            0 <= k < p.steps.len() ==> !step_names(#[trigger] p.steps[k], v.0),
        !s.0.dom().contains(v.0),
        steps_last(p.steps, 0, path, whole, s, m, given),
    ensures
        !m.0.dom().contains(v.0),
{
    reveal(steps_last);
    assert(v == VarId(v.0));
    if m.0.dom().contains(v.0) {
        let k = choose|k: int| 0 <= k < p.steps.len() && step_names(#[trigger] p.steps[k], v.0);
        assert(step_names(p.steps[k], v.0));
    }
}

proof fn lemma_path(
    p: BoundPathPatternView,
    row: Map<u32, ValueView>,
    o: OverlayView,
    given: Given,
    spent: Spent,
)
    requires
        identity_laws::keeps_identities(o),
        is_new(p, row),
    ensures
        create::path_made(p, row, o, given, spent).result matches Ok((after, later)) ==> {
            &&& goes_to((row, o), (after, later))
            &&& identity_laws::keeps_identities(later)
            &&& is_made(p, (row, o), (after, later), given)
            &&& adds_names(p, row, after)
        },
{
    reveal(create::path_made);
    let a = (row, o);
    let n = create::node_made(p.start, row, o, given, spent);
    lemma_node(p.start, row, o, given, spent);
    if let Ok((start, row1, o1)) = n.result {
        let s = (row1, o1);
        let path = PathValueView { nodes: seq![start], rels: seq![] };
        assert(steps_are_new(p.steps, 0, row1)) by {
            assert forall|k: int, v: u32|
                0 <= k < p.steps.len() && (#[trigger] p.steps[k]).0.var == Some(
                    VarId(v),
                ) implies !#[trigger] row1.dom().contains(v) by {
                assert(!row.dom().contains(v));
                assert(p.start.var != p.steps[k].0.var);
            }
        }
        assert(is_new(p, row1)) by {
            if let Some(v) = p.path_var {
                assert(v == VarId(v.0));
            }
        }
        lemma_steps(p.steps, 0, path, row1, o1, given, n.spent);
        let made = create::steps_made(p.steps, 0, start, path, row1, o1, given, n.spent);
        if let Ok((whole, row2, later)) = made.result {
            let m = (row2, later);
            assert(steps_last(p.steps, 0, path, whole, s, m, given));
            if let Some(v) = p.path_var {
                assert(v == VarId(v.0));
                lemma_path_var(p, path, whole, s, m, given, v);
            }
            lemma_whole(p, start, whole, a, s, m, given);
            lemma_names(p, start, whole, a, s, m, given);
            assert(identity_laws::keeps_identities(later)) by {
                reveal(steps_last);
            }
            let b = (walk::bound_to(row2, p.path_var, ValueView::Path(whole)), later);
            assert(is_made(p, a, b, given)) by {
                reveal(is_made);
                assert(path_lasts(p, whole, a, b, given));
            }
        }
    }
}

/// Creating a pattern leaves a path that stands for it: each relationship has the
/// type of its step, joins the nodes on either side in the step's direction, and has
/// under every name just what the step's map gives it; it is what its variable names
/// and what the graph has under its identity. Nodes likewise; nothing else is
/// created.
pub proof fn a_created_path_is_as_it_is_written(
    p: BoundPathPatternView,
    row: Map<u32, ValueView>,
    o: OverlayView,
    given: Given,
    spent: Spent,
)
    requires
        identity_laws::keeps_identities(o),
        is_new(p, row),
    ensures
        create::path_made(p, row, o, given, spent).result matches Ok((after, later)) ==> {
            &&& goes_to((row, o), (after, later))
            &&& identity_laws::keeps_identities(later)
            &&& exists|path: PathValueView| #[trigger]
                path_stands(p, path, (row, o), (after, later), given) && creates_just(
                    o,
                    path,
                    later,
                )
        },
{
    lemma_path(p, row, o, given, spent);
    if let Ok((after, later)) = create::path_made(p, row, o, given, spent).result {
        let (a, b) = ((row, o), (after, later));
        assert(is_made(p, a, b, given));
        reveal(is_made);
        let path = choose|path: PathValueView| #[trigger]
            path_lasts(p, path, a, b, given) && creates_just(a.1, path, b.1);
        assert(path_stands(p, path, a, b, given));
    }
}

// --- Clauses ----------------------------------------------------------------------------------------

/// Whether the variables that patterns introduce are new: a row does not have them,
/// and no other pattern names them.
pub open spec fn are_new(
    patterns: Seq<BoundPathPatternView>,
    k: int,
    row: Map<u32, ValueView>,
) -> bool {
    &&& forall|p: int| k <= p < patterns.len() ==> is_new(#[trigger] patterns[p], row)
    &&& forall|p: int, q: int, v: u32|
        k <= p < patterns.len() && k <= q < patterns.len() && p != q && introduces(
            #[trigger] patterns[p],
            v,
        ) ==> !#[trigger] names(patterns[q], v)
}

proof fn lemma_still_new(
    patterns: Seq<BoundPathPatternView>,
    k: int,
    row: Map<u32, ValueView>,
    after: Map<u32, ValueView>,
)
    requires
        0 <= k < patterns.len(),
        are_new(patterns, k, row),
        adds_names(patterns[k], row, after),
    ensures
        are_new(patterns, k + 1, after),
{
    reveal(adds_names);
    assert forall|p: int| k + 1 <= p < patterns.len() implies is_new(
        #[trigger] patterns[p],
        after,
    ) by {
        let q = patterns[p];
        assert(is_new(q, row));
        assert forall|j: int, v: u32|
            0 <= j < q.steps.len() && (#[trigger] q.steps[j]).0.var == Some(
                VarId(v),
            ) implies !#[trigger] after.dom().contains(v) by {
            assert(introduces(q, v));
            assert(!names(patterns[k], v));
            assert(!row.dom().contains(v));
        }
        if let Some(v) = q.path_var {
            assert(v == VarId(v.0));
            assert(introduces(q, v.0));
            assert(!names(patterns[k], v.0));
        }
    }
}

proof fn lemma_paths(
    patterns: Seq<BoundPathPatternView>,
    k: int,
    row: Map<u32, ValueView>,
    o: OverlayView,
    given: Given,
    spent: Spent,
)
    requires
        0 <= k <= patterns.len(),
        identity_laws::keeps_identities(o),
        are_new(patterns, k, row),
    ensures
        create::paths_made(
            patterns,
            k,
            row,
            o,
            given,
            spent,
        ).result matches Ok((after, later)) ==> {
            &&& goes_to((row, o), (after, later))
            &&& identity_laws::keeps_identities(later)
            &&& forall|p: int|
                k <= p < patterns.len() ==> is_left(
                    #[trigger] patterns[p],
                    (row, o),
                    (after, later),
                    given,
                )
        },
    decreases patterns.len() - k,
{
    reveal(create::paths_made);
    let a = (row, o);
    lemma_goes_nowhere(a);
    if k < patterns.len() {
        let w = create::path_made(patterns[k], row, o, given, spent);
        lemma_path(patterns[k], row, o, given, spent);
        if let Ok((row1, o1)) = w.result {
            let s = (row1, o1);
            assert(is_left(patterns[k], a, s, given)) by {
                reveal(is_left);
                reveal(is_made);
                let path = choose|path: PathValueView| #[trigger]
                    path_lasts(patterns[k], path, a, s, given) && creates_just(a.1, path, s.1);
                assert(path_lasts(patterns[k], path, a, s, given));
            }
            assert(adds_names(patterns[k], row, row1));
            lemma_still_new(patterns, k, row, row1);
            lemma_paths(patterns, k + 1, row1, o1, given, w.spent);
            let on = create::paths_made(patterns, k + 1, row1, o1, given, w.spent);
            if let Ok((after, later)) = on.result {
                let b = (after, later);
                lemma_goes(a, s, b);
                lemma_goes_nowhere(b);
                assert forall|p: int| k <= p < patterns.len() implies is_left(
                    #[trigger] patterns[p],
                    a,
                    b,
                    given,
                ) by {
                    if p == k {
                        lemma_path_wider(patterns[p], a, a, s, b, given);
                    } else {
                        lemma_path_wider(patterns[p], a, s, b, b, given);
                    }
                }
            }
        }
    }
}

proof fn lemma_created(
    rows: Seq<Map<u32, ValueView>>,
    i: int,
    patterns: Seq<BoundPathPatternView>,
    o: OverlayView,
    given: Given,
    spent: Spent,
    out: Seq<Map<u32, ValueView>>,
)
    requires
        0 <= i <= rows.len(),
        out.len() == i,
        identity_laws::keeps_identities(o),
        forall|j: int| 0 <= j < rows.len() ==> are_new(patterns, 0, #[trigger] rows[j]),
    ensures
        create::created_from(rows, i, patterns, o, given, spent, out).result matches Ok(
            (all, later),
        ) ==> {
            &&& all.len() == rows.len()
            &&& out.is_prefix_of(all)
            &&& only_creates(o, later)
            &&& identity_laws::keeps_identities(later)
            &&& forall|j: int, p: int|
                i <= j < rows.len() && 0 <= p < patterns.len() ==> is_left(
                    #[trigger] patterns[p],
                    (#[trigger] rows[j], o),
                    (all[j], later),
                    given,
                )
            &&& forall|j: int|
                i <= j < rows.len() ==> goes_to((#[trigger] rows[j], o), (all[j], later))
        },
    decreases rows.len() - i,
{
    reveal(create::created_from);
    if i >= rows.len() {
        lemma_goes_nowhere((Map::empty(), o));
        assert(out.is_prefix_of(out));
    } else {
        let w = create::paths_made(patterns, 0, rows[i], o, given, spent);
        lemma_paths(patterns, 0, rows[i], o, given, spent);
        if let Ok((row, o1)) = w.result {
            lemma_created(rows, i + 1, patterns, o1, given, w.spent, out.push(row));
            let on = create::created_from(
                rows,
                i + 1,
                patterns,
                o1,
                given,
                w.spent,
                out.push(row),
            );
            if let Ok((all, later)) = on.result {
                assert(all[i] == out.push(row)[i]);
                assert(all.take(i) =~= out);
                let a = (rows[i], o);
                let s = (row, o1);
                let b = (row, later);
                assert(goes_to(s, b));
                lemma_goes(a, s, b);
                lemma_goes_nowhere(a);
                assert forall|j: int| i <= j < rows.len() implies goes_to(
                    (#[trigger] rows[j], o),
                    (all[j], later),
                ) by {
                    if j > i {
                        assert(goes_to((rows[j], o), (rows[j], o1)));
                        lemma_goes((rows[j], o), (rows[j], o1), (all[j], later));
                    }
                }
                assert forall|j: int, p: int|
                    i <= j < rows.len() && 0 <= p < patterns.len() implies is_left(
                    #[trigger] patterns[p],
                    (#[trigger] rows[j], o),
                    (all[j], later),
                    given,
                ) by {
                    if j == i {
                        lemma_path_wider(patterns[p], a, a, s, b, given);
                    } else {
                        let d = (all[j], later);
                        lemma_goes_nowhere(d);
                        assert(goes_to((rows[j], o), (rows[j], o1)));
                        lemma_path_wider(patterns[p], (rows[j], o), (rows[j], o1), d, d, given);
                    }
                }
            }
        }
    }
}

/// `CREATE` makes of each row one row that keeps what the row has, and leaves for
/// every pattern a path that stands for it.
pub proof fn every_row_gets_its_patterns(
    rows: Seq<Map<u32, ValueView>>,
    patterns: Seq<BoundPathPatternView>,
    o: OverlayView,
    given: Given,
    spent: Spent,
    j: int,
    p: int,
)
    requires
        identity_laws::keeps_identities(o),
        forall|j: int| 0 <= j < rows.len() ==> are_new(patterns, 0, #[trigger] rows[j]),
        0 <= j < rows.len(),
        0 <= p < patterns.len(),
    ensures
        create::created_from(rows, 0, patterns, o, given, spent, seq![]).result matches Ok(
            (all, later),
        ) ==> {
            &&& all.len() == rows.len()
            &&& identity_laws::keeps_identities(later)
            &&& goes_to((rows[j], o), (all[j], later))
            &&& exists|path: PathValueView| #[trigger]
                path_stands(patterns[p], path, (rows[j], o), (all[j], later), given)
        },
{
    lemma_created(rows, 0, patterns, o, given, spent, seq![]);
    let made = create::created_from(rows, 0, patterns, o, given, spent, seq![]);
    if let Ok((all, later)) = made.result {
        let (a, b) = ((rows[j], o), (all[j], later));
        let q = patterns[p];
        assert(is_left(q, a, b, given));
        reveal(is_left);
        let path = choose|path: PathValueView| path_lasts(q, path, a, b, given);
        assert(path_stands(q, path, a, b, given));
    }
}

} // verus!
