//! Whether a bound query can run, for callers that have it from elsewhere than
//! `bind`.

use vstd::prelude::*;

use crate::bind::bound::{self, BoundClause, BoundPathPattern, BoundProjection, BoundQuery};
use crate::exec::create;
use crate::exec::projection_model;
use crate::exec::run;

verus! {

fn groups_soundly(p: &BoundProjection) -> (r: bool)
    ensures
        r == projection_model::grouping_is_sound(p@),
{
    assert(p@.items.len() == p.items@.len());
    let mut i: usize = 0;
    while i < p.grouping_items.len()
        invariant
            i <= p.grouping_items.len(),
            p@.items.len() == p.items@.len(),
            forall|k: int| 0 <= k < i ==> (#[trigger] p@.grouping_items[k]) < p@.items.len(),
        decreases p.grouping_items.len() - i,
    {
        if p.grouping_items[i] >= p.items.len() {
            assert(p@.grouping_items[i as int] >= p@.items.len());
            return false;
        }
        i += 1;
    }
    true
}

fn can_create(p: &BoundPathPattern) -> (r: bool)
    ensures
        r == create::creatable(p@),
{
    proof {
        p.lemma_view();
    }
    let mut i: usize = 0;
    while i < p.steps.len()
        invariant
            i <= p.steps.len(),
            p@.steps == bound::bound_rel_pattern_bound_node_patterns_view(p.steps@),
            forall|k: int| 0 <= k < i ==> (#[trigger] p@.steps[k]).0.types.len() > 0,
        decreases p.steps.len() - i,
    {
        proof {
            p.steps@[i as int].0.lemma_view();
            assert(p@.steps[i as int].0 == p.steps@[i as int].0@);
        }
        if p.steps[i].0.types.len() == 0 {
            assert(p@.steps[i as int].0.types.len() == 0);
            return false;
        }
        i += 1;
    }
    true
}

fn can_create_all(patterns: &Vec<BoundPathPattern>) -> (r: bool)
    ensures
        r == forall|i: int|
            0 <= i < patterns@.len() ==> create::creatable(
                #[trigger] bound::bound_path_patterns_view(patterns@)[i],
            ),
{
    let ghost all = bound::bound_path_patterns_view(patterns@);
    let mut i: usize = 0;
    while i < patterns.len()
        invariant
            i <= patterns.len(),
            all == bound::bound_path_patterns_view(patterns@),
            forall|k: int| 0 <= k < i ==> create::creatable(#[trigger] all[k]),
        decreases patterns.len() - i,
    {
        assert(all[i as int] == patterns@[i as int]@);
        if !can_create(&patterns[i]) {
            return false;
        }
        i += 1;
    }
    true
}

/// Whether every clause of a query can run. What `bind` gives can.
pub fn is_sound(query: &BoundQuery) -> (r: bool)
    ensures
        r == run::query_is_sound(query@),
{
    let ghost all = bound::bound_clauses_view(query.clauses@);
    let mut i: usize = 0;
    while i < query.clauses.len()
        invariant
            i <= query.clauses.len(),
            all == bound::bound_clauses_view(query.clauses@),
            forall|k: int| 0 <= k < i ==> run::clause_is_sound(#[trigger] all[k]),
        decreases query.clauses.len() - i,
    {
        assert(all[i as int] == query.clauses@[i as int]@);
        let sound: bool = match &query.clauses[i] {
            BoundClause::With(p) => groups_soundly(p),
            BoundClause::Return(p) => groups_soundly(p),
            BoundClause::Create { patterns, .. } => can_create_all(patterns),
            BoundClause::Merge { pattern, .. } => can_create(pattern),
            _ => true,
        };
        if !sound {
            assert(!run::clause_is_sound(query@.clauses[i as int]));
            return false;
        }
        i += 1;
    }
    true
}

} // verus!
