//! What writing clauses keep.

use vstd::prelude::*;

use crate::bind::bound::{BoundPathPatternView, BoundSetItemView};
use crate::exec::change::{self, Altered};
use crate::exec::create::{self, Given};
use crate::exec::merge;
use crate::exec::overlay::{self, OverlayView, Tally};
use crate::exec::refresh;
use crate::exec::row;
use crate::exec::semantics::{self, Spent};
use crate::exec::source;
use crate::exec::value::{NodeValueView, RelValueView, ValueView};
use crate::exec::walk::{self, Matched};

verus! {

/// Whether `later` has created and deleted what `o` has, over the same base.
pub open spec fn same_elements(o: OverlayView, later: OverlayView) -> bool {
    &&& later.base == o.base
    &&& later.created_nodes.len() == o.created_nodes.len()
    &&& later.created_rels.len() == o.created_rels.len()
    &&& later.deleted_nodes == o.deleted_nodes
    &&& later.deleted_rels == o.deleted_rels
}

proof fn lemma_version_in_place(nodes: Seq<NodeValueView>, node: NodeValueView, i: int)
    requires
        0 <= i,
        source::find_node(nodes, node.id, i) is Some,
    ensures
        overlay::with_version(nodes, node, i).len() == nodes.len(),
    decreases nodes.len() - i,
{
    if i < nodes.len() && nodes[i].id != node.id {
        lemma_version_in_place(nodes, node, i + 1);
    }
}

proof fn lemma_rel_version_in_place(rels: Seq<RelValueView>, rel: RelValueView, i: int)
    requires
        0 <= i,
        overlay::find_rel(rels, rel.id, i) is Some,
    ensures
        overlay::with_rel_version(rels, rel, i).len() == rels.len(),
    decreases rels.len() - i,
{
    if i < rels.len() && rels[i].id != rel.id {
        lemma_rel_version_in_place(rels, rel, i + 1);
    }
}

proof fn lemma_node_version(o: OverlayView, node: NodeValueView, t: Tally)
    ensures
        same_elements(o, o.with_node_version(node, t)),
{
    if source::find_node(o.created_nodes, node.id, 0) is Some {
        lemma_version_in_place(o.created_nodes, node, 0);
    }
}

proof fn lemma_rel_version(o: OverlayView, rel: RelValueView, t: Tally)
    ensures
        same_elements(o, o.with_relationship_version(rel, t)),
{
    if overlay::find_rel(o.created_rels, rel.id, 0) is Some {
        lemma_rel_version_in_place(o.created_rels, rel, 0);
    }
}

proof fn lemma_with_properties(o: OverlayView, v: ValueView, a: Altered)
    ensures
        same_elements(o, change::with_properties(o, v, a)),
{
    let t = Tally { properties_set: a.count, labels_added: 0, labels_removed: 0 };
    match v {
        ValueView::Node(n) => {
            lemma_node_version(o, NodeValueView { properties: a.properties, ..n }, t);
        },
        ValueView::Relationship(r) => {
            lemma_rel_version(o, RelValueView { properties: a.properties, ..r }, t);
        },
        _ => {},
    }
}

proof fn lemma_relabelled(o: OverlayView, v: ValueView, labels: Seq<Seq<char>>)
    ensures
        same_elements(o, change::relabelled(o, v, labels)),
{
    match v {
        ValueView::Node(n) => {
            let t = Tally {
                properties_set: 0,
                labels_added: if labels.len() > n.labels.len() {
                    (labels.len() - n.labels.len()) as u64
                } else {
                    0
                },
                labels_removed: if labels.len() < n.labels.len() {
                    (n.labels.len() - labels.len()) as u64
                } else {
                    0
                },
            };
            lemma_node_version(o, NodeValueView { labels, ..n }, t);
        },
        _ => {},
    }
}

proof fn lemma_item_set(
    item: BoundSetItemView,
    row: Map<u32, ValueView>,
    o: OverlayView,
    given: Given,
    spent: Spent,
)
    ensures
        change::item_set(
            item,
            row,
            o,
            given,
            spent,
        ).result matches Ok(later) ==> same_elements(o, later),
{
    reveal(change::item_set);
    let env = given.env(o.graph());
    match item {
        BoundSetItemView::Property { target, key, value, span } => {
            let x = semantics::value_of(value, row, env, spent);
            let v = row::row_get(row, target);
            if x.result is Ok && change::properties_in(v, span) is Ok && change::properties_in(v, span)->Ok_0 is Some {
                let m = change::properties_in(v, span)->Ok_0->Some_0;
                lemma_with_properties(o, v, change::put(m, key, x.result->Ok_0));
            }
        },
        BoundSetItemView::Replace { target, value, span } => {
            let x = semantics::value_of(value, row, env, spent);
            let v = row::row_get(row, target);
            if x.result is Ok && change::properties_in(v, span) is Ok && change::properties_in(v, span)->Ok_0 is Some
                && change::properties_from(x.result->Ok_0, span) is Ok {
                let m = change::properties_in(v, span)->Ok_0->Some_0;
                let p = change::properties_from(x.result->Ok_0, span)->Ok_0;
                lemma_with_properties(o, v, change::replaced(m, p.entries));
            }
        },
        BoundSetItemView::Merge { target, value, span } => {
            let x = semantics::value_of(value, row, env, spent);
            let v = row::row_get(row, target);
            if x.result is Ok && change::properties_in(v, span) is Ok && change::properties_in(v, span)->Ok_0 is Some
                && change::properties_from(x.result->Ok_0, span) is Ok {
                let m = change::properties_in(v, span)->Ok_0->Some_0;
                let p = change::properties_from(x.result->Ok_0, span)->Ok_0;
                lemma_with_properties(o, v, change::merged(m, p.entries, p.entries.len()));
            }
        },
        BoundSetItemView::AddLabels { target, labels, span } => {
            let v = row::row_get(row, target);
            if change::labels_in(v, span) is Ok && change::labels_in(v, span)->Ok_0 is Some {
                let ls = change::labels_in(v, span)->Ok_0->Some_0;
                lemma_relabelled(o, v, change::with_labels(ls, labels, labels.len()));
            }
        },
    }
}

/// `SET` changes what is there: it creates nothing and deletes nothing.
pub proof fn setting_creates_and_deletes_nothing(
    items: Seq<BoundSetItemView>,
    k: int,
    row: Map<u32, ValueView>,
    o: OverlayView,
    given: Given,
    spent: Spent,
)
    ensures
        change::items_set(items, k, row, o, given, spent).result matches Ok((_, later)) ==> same_elements(
            o,
            later,
        ),
    decreases items.len() - k,
{
    reveal(change::items_set);
    let row = refresh::refreshed_row(row, o);
    if !(k < 0 || k >= items.len()) {
        let c = change::item_set(items[k], row, o, given, spent);
        lemma_item_set(items[k], row, o, given, spent);
        match c.result {
            Err(e) => {},
            Ok(next) => {
                setting_creates_and_deletes_nothing(items, k + 1, row, next, given, c.spent);
            },
        }
    }
}

proof fn lemma_matches_set(
    states: Seq<Matched>,
    i: int,
    items: Seq<BoundSetItemView>,
    o: OverlayView,
    given: Given,
    spent: Spent,
    out: Seq<Map<u32, ValueView>>,
)
    requires
        0 <= i <= states.len(),
    ensures
        merge::matches_set(states, i, items, o, given, spent, out).result matches Ok((rows, later))
            ==> same_elements(o, later) && rows.len() == out.len() + states.len() - i,
    decreases states.len() - i,
{
    reveal(merge::matches_set);
    if i < states.len() {
        let w = change::items_set(items, 0, states[i].row, o, given, spent);
        setting_creates_and_deletes_nothing(items, 0, states[i].row, o, given, spent);
        match w.result {
            Err(e) => {},
            Ok((row, next)) => {
                let c = w.spent.budget.row(out.len());
                let after = semantics::with_budget(w.spent, c.budget);
                lemma_matches_set(states, i + 1, items, next, given, after, out.push(row));
            },
        }
    }
}

/// `MERGE` creates nothing where its pattern matches: it makes one row for each
/// match. Where the pattern has no match it makes one row.
pub proof fn merging_creates_nothing_where_it_matches(
    row: Map<u32, ValueView>,
    pattern: BoundPathPatternView,
    on_create: Seq<BoundSetItemView>,
    on_match: Seq<BoundSetItemView>,
    o: OverlayView,
    given: Given,
    spent: Spent,
    out: Seq<Map<u32, ValueView>>,
)
    ensures
        ({
            let found = walk::continued_from(
                pattern,
                seq![Matched { row, used: seq![] }],
                0,
                given.env(o.graph()),
                spent,
                seq![],
            );
            merge::row_merged(
                row,
                pattern,
                on_create,
                on_match,
                o,
                given,
                spent,
                out,
            ).result matches Ok((rows, later)) ==> {
                &&& found.result is Ok
                &&& found.result->Ok_0.len() > 0 ==> same_elements(o, later) && rows.len()
                    == out.len() + found.result->Ok_0.len()
                &&& found.result->Ok_0.len() == 0 ==> rows.len() == out.len() + 1
            }
        }),
{
    reveal(merge::row_merged);
    let found = walk::continued_from(
        pattern,
        seq![Matched { row, used: seq![] }],
        0,
        given.env(o.graph()),
        spent,
        seq![],
    );
    match found.result {
        Err(e) => {},
        Ok(states) => {
            if states.len() > 0 {
                lemma_matches_set(states, 0, on_match, o, given, found.spent, out);
            } else {
                let w = create::path_made(pattern, row, o, given, found.spent);
                match w.result {
                    Err(e) => {},
                    Ok((row, next)) => {
                        lemma_matches_set(
                            seq![Matched { row, used: seq![] }],
                            0,
                            on_create,
                            next,
                            given,
                            w.spent,
                            out,
                        );
                    },
                }
            }
        },
    }
}

} // verus!
