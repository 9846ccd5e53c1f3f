//! The grouping-key rule: beside an aggregate, an expression may refer only to
//! what it is grouped by.

use std::collections::HashMap;

use vstd::prelude::*;
use vstd::string::*;

use crate::bind::bound::{self, BoundExpr, BoundExprView, VarBinding, VarBindingView, VarId};
use crate::bind::digest::{self, Digested};
use crate::bind::error::{BindError, BindErrorView};
use crate::bind::likeness;
use crate::bind::subtrees;
use crate::span::Span;

verus! {

broadcast use vstd::std_specs::hash::group_hash_axioms;

/// Which error a disallowed reference raises: beside an aggregate in a
/// projection item it is ambiguous; in `ORDER BY` the name has no value in the
/// projected row.
#[derive(Debug, Clone, Copy, PartialEq, Eq, Structural)]
pub enum RefErrorMode {
    Ambiguous,
    Undefined,
}

/// Whether an expression is alike to one of `keys`.
#[verifier::opaque]
pub open spec fn is_key(e: BoundExprView, keys: Seq<BoundExprView>) -> bool {
    exists|i: int| 0 <= i < keys.len() && likeness::alike(#[trigger] keys[i], e, seq![])
}

/// The name of a variable.
pub open spec fn name_of(id: VarId, variables: Seq<VarBindingView>) -> Seq<char> {
    if id.0 < variables.len() {
        variables[id.0 as int].name
    } else {
        seq![]
    }
}

/// What references are checked against.
pub struct RefRule {
    pub keys: Seq<BoundExprView>,
    /// The variables that a projection gives out.
    pub outputs: Seq<u32>,
    pub mode: RefErrorMode,
    pub span: Span,
    pub variables: Seq<VarBindingView>,
}

impl RefRule {
    /// Whether an expression as a whole may stand for a grouping key: beside an
    /// aggregate only variables and properties may.
    pub open spec fn matches_whole(self, e: BoundExprView) -> bool {
        (self.mode == RefErrorMode::Undefined || e is Variable || e is Property) && is_key(
            e,
            self.keys,
        )
    }

    /// The error of a reference that is not allowed.
    pub open spec fn error(self, id: VarId, span: Span) -> BindErrorView {
        match self.mode {
            RefErrorMode::Ambiguous => BindErrorView::AmbiguousAggregation { span: self.span },
            RefErrorMode::Undefined => BindErrorView::UndefinedVariable {
                name: name_of(id, self.variables),
                span,
            },
        }
    }
}

/// The first reference in `e` that the rule does not allow. A grouping key and
/// an aggregate stop the search; variables that an iteration construct declares
/// are its own.
pub open spec fn bad_ref(e: BoundExprView, rule: RefRule, locals: Seq<u32>) -> Option<BindErrorView>
    decreases e, subtrees::bound_children(e).len() + 1,
{
    if rule.matches_whole(e) {
        None
    } else {
        match e {
            BoundExprView::Aggregate { .. } => None,
            BoundExprView::Variable { id, span } => if locals.contains(id.0)
                || rule.outputs.contains(id.0) {
                None
            } else {
                Some(rule.error(id, span))
            },
            BoundExprView::ListComprehension { variable, list, where_clause, map, .. } => {
                let inner = locals.push(variable.0);
                match bad_ref(*list, rule, locals) {
                    Some(error) => Some(error),
                    None => match (if where_clause is Some {
                        bad_ref(*where_clause->0, rule, inner)
                    } else {
                        None
                    }) {
                        Some(error) => Some(error),
                        None => if map is Some {
                            bad_ref(*map->0, rule, inner)
                        } else {
                            None
                        },
                    },
                }
            },
            BoundExprView::Quantifier { variable, list, predicate, .. } => match bad_ref(
                *list,
                rule,
                locals,
            ) {
                Some(error) => Some(error),
                None => bad_ref(*predicate, rule, locals.push(variable.0)),
            },
            BoundExprView::Reduce { accumulator, init, variable, list, expr, .. } => match bad_ref(
                *init,
                rule,
                locals,
            ) {
                Some(error) => Some(error),
                None => match bad_ref(*list, rule, locals) {
                    Some(error) => Some(error),
                    None => bad_ref(*expr, rule, locals.push(accumulator.0).push(variable.0)),
                },
            },
            _ => bad_child_ref(e, 0, rule, locals),
        }
    }
}

/// The first reference in the children of `e` from `i` on that the rule does not
/// allow.
pub open spec fn bad_child_ref(
    e: BoundExprView,
    i: nat,
    rule: RefRule,
    locals: Seq<u32>,
) -> Option<BindErrorView>
    decreases e, subtrees::bound_children(e).len() - i,
{
    if i >= subtrees::bound_children(e).len() {
        None
    } else {
        proof {
            subtrees::lemma_bound_child_is_smaller(e, i as int);
        }
        match bad_ref(subtrees::bound_children(e)[i as int], rule, locals) {
            Some(error) => Some(error),
            None => bad_child_ref(e, i + 1, rule, locals),
        }
    }
}

// --- Execution --------------------------------------------------------------------------------------

/// The digest that keys are found by.
#[verifier::opaque]
spec fn sum(e: BoundExprView) -> u64 {
    digest::digest(e)
}

fn sum_of(e: &BoundExpr) -> (r: u64)
    ensures
        r == sum(e@),
{
    reveal(sum);
    digest::digest_tree(e).digest
}

#[verifier::opaque]
spec fn fits(key: BoundExprView, e: BoundExprView) -> bool {
    likeness::alike(key, e, seq![])
}

proof fn lemma_fits(key: BoundExprView, e: BoundExprView)
    ensures
        fits(key, e) ==> sum(key) == sum(e),
{
    reveal(fits);
    reveal(sum);
    if fits(key, e) {
        digest::alike_expressions_share_a_digest(key, e, seq![]);
    }
}

proof fn lemma_is_key(e: BoundExprView, keys: Seq<BoundExprView>)
    ensures
        is_key(e, keys) == (exists|i: int| 0 <= i < keys.len() && fits(#[trigger] keys[i], e)),
{
    reveal(is_key);
    reveal(fits);
}

fn fits_key(key: &BoundExpr, e: &BoundExpr) -> (r: bool)
    ensures
        r == fits(key@, e@),
{
    reveal(fits);
    likeness::same_bound(key, e)
}

fn any_fits(keys: &Vec<&BoundExpr>, at: &Vec<usize>, e: &BoundExpr) -> (r: bool)
    requires
        forall|p: int| 0 <= p < at@.len() ==> (#[trigger] at@[p]) < keys@.len(),
    ensures
        r == (exists|p: int|
            0 <= p < at@.len() && fits(keys@[(#[trigger] at@[p]) as int]@, e@)),
{
    let mut i: usize = 0;
    while i < at.len()
        invariant
            i <= at.len(),
            forall|p: int| 0 <= p < at@.len() ==> (#[trigger] at@[p]) < keys@.len(),
            forall|p: int| 0 <= p < i ==> !fits(keys@[(#[trigger] at@[p]) as int]@, e@),
        decreases at.len() - i,
    {
        assert(at@[i as int] < keys@.len());
        if fits_key(keys[at[i]], e) {
            return true;
        }
        i += 1;
    }
    false
}

/// Grouping keys, found by their digests.
pub(crate) struct KeyIndex<'k> {
    keys: Vec<&'k BoundExpr>,
    buckets: HashMap<u64, Vec<usize>>,
}

spec fn in_bucket(m: Map<u64, Vec<usize>>, d: u64, i: int) -> bool {
    m.contains_key(d) && m[d]@.contains(i as usize)
}

impl<'k> KeyIndex<'k> {
    pub closed spec fn view(&self) -> Seq<BoundExprView> {
        subtrees::referenced(self.keys@)
    }

    pub closed spec fn indexed(&self) -> bool {
        &&& forall|i: int|
            0 <= i < self.keys@.len() ==> in_bucket(
                self.buckets@,
                sum(#[trigger] self@[i]),
                i,
            )
        &&& forall|d: u64, k: int|
            self.buckets@.contains_key(d) && 0 <= k < self.buckets@[d]@.len() ==> (
            #[trigger] self.buckets@[d]@[k]) < self.keys@.len()
    }

    pub(crate) fn build(keys: Vec<&'k BoundExpr>) -> (r: KeyIndex<'k>)
        ensures
            r.indexed(),
            r@ == subtrees::referenced(keys@),
    {
        let ghost all = subtrees::referenced(keys@);
        let mut buckets: HashMap<u64, Vec<usize>> = HashMap::new();
        let mut i: usize = 0;
        while i < keys.len()
            invariant
                i <= keys.len(),
                all == subtrees::referenced(keys@),
                forall|k: int|
                    0 <= k < i ==> in_bucket(buckets@, sum(#[trigger] all[k]), k),
                forall|d: u64, k: int|
                    buckets@.contains_key(d) && 0 <= k < buckets@[d]@.len() ==> (
                    #[trigger] buckets@[d]@[k]) < i,
            decreases keys.len() - i,
        {
            assert(all[i as int] == keys@[i as int]@);
            let d: u64 = sum_of(keys[i]);
            let ghost before = buckets@;
            let mut at: Vec<usize> = match buckets.remove(&d) {
                Some(at) => at,
                None => Vec::new(),
            };
            let ghost was = at@;
            at.push(i);
            buckets.insert(d, at);
            proof {
                assert(buckets@[d]@ == was.push(i));
                assert(buckets@[d]@[was.len() as int] == i);
                assert forall|k: int| 0 <= k < i + 1 implies in_bucket(
                    buckets@,
                    sum(#[trigger] all[k]),
                    k,
                ) by {
                    if k < i {
                        let e = sum(all[k]);
                        assert(in_bucket(before, e, k));
                        if e == d {
                            let p = choose|p: int| 0 <= p < was.len() && was[p] == k as usize;
                            assert(buckets@[d]@[p] == k as usize);
                        } else {
                            assert(buckets@[e] == before[e]);
                        }
                    }
                }
                assert forall|e: u64, k: int|
                    buckets@.contains_key(e) && 0 <= k < buckets@[e]@.len() implies (
                #[trigger] buckets@[e]@[k]) < i + 1 by {
                    if e == d {
                        if k < was.len() {
                            assert(before.contains_key(d));
                            assert(before[d]@[k] < i);
                        }
                    } else {
                        assert(before[e]@[k] < i);
                    }
                }
            }
            i += 1;
        }
        KeyIndex { keys, buckets }
    }

    /// Whether the expression is alike to a key, given its digests.
    fn whole_match(&self, e: &BoundExpr, digests: &Digested) -> (r: bool)
        requires
            self.indexed(),
            digest::tells(*digests, e@),
        ensures
            r == is_key(e@, self@),
    {
        reveal(sum);
        self.look_up(e, digests.digest)
    }

    /// Whether the expression is alike to a key: looked for among the keys that
    /// share its digest.
    fn look_up(&self, e: &BoundExpr, wanted: u64) -> (r: bool)
        requires
            self.indexed(),
            wanted == sum(e@),
        ensures
            r == is_key(e@, self@),
    {
        let ghost all = self@;
        proof {
            lemma_is_key(e@, all);
            assert forall|k: int| 0 <= k < all.len() && fits(#[trigger] all[k], e@) implies in_bucket(
                self.buckets@,
                wanted,
                k,
            ) by {
                lemma_fits(all[k], e@);
            }
        }
        match self.buckets.get(&wanted) {
            None => false,
            Some(at) => {
                let found = any_fits(&self.keys, at, e);
                let len: usize = self.keys.len();
                proof {
                    if found {
                        let p = choose|p: int|
                            0 <= p < at@.len() && fits(
                                self.keys@[(#[trigger] at@[p]) as int]@,
                                e@,
                            );
                        assert(fits(all[at@[p] as int], e@));
                    } else {
                        assert forall|k: int| 0 <= k < all.len() implies !fits(
                            #[trigger] all[k],
                            e@,
                        ) by {
                            if fits(all[k], e@) {
                                assert(in_bucket(self.buckets@, wanted, k));
                                assert(all.len() == len);
                                assert((k as usize) as int == k);
                                let p = choose|p: int| 0 <= p < at@.len() && at@[p] == k as usize;
                                assert(at@[p] < self.keys@.len());
                                assert(all[k] == self.keys@[at@[p] as int]@);
                            }
                        }
                    }
                }
                found
            },
        }
    }
}

/// What references are checked against.
pub(crate) struct Rule<'k> {
    pub keys: KeyIndex<'k>,
    pub outputs: Vec<u32>,
    pub mode: RefErrorMode,
    pub span: Span,
}

impl<'k> Rule<'k> {
    pub(crate) open spec fn over(&self, variables: Seq<VarBindingView>) -> RefRule {
        RefRule {
            keys: self.keys@,
            outputs: self.outputs@,
            mode: self.mode,
            span: self.span,
            variables,
        }
    }
}

fn holds(ids: &Vec<u32>, id: u32) -> (r: bool)
    ensures
        r == ids@.contains(id),
{
    let mut i: usize = 0;
    while i < ids.len()
        invariant
            i <= ids.len(),
            forall|k: int| 0 <= k < i ==> #[trigger] ids@[k] != id,
        decreases ids.len() - i,
    {
        if ids[i] == id {
            return true;
        }
        i += 1;
    }
    false
}

proof fn lemma_below(d: Digested, e: BoundExprView)
    requires
        digest::tells(d, e),
    ensures
        d.children@.len() == subtrees::bound_children(e).len(),
        forall|k: int|
            0 <= k < d.children@.len() ==> digest::tells(
                #[trigger] d.children@[k],
                subtrees::bound_children(e)[k],
            ),
{
    let all = subtrees::bound_children(e);
    assert forall|k: int| 0 <= k < d.children@.len() implies digest::tells(
        #[trigger] d.children@[k],
        all[k],
    ) by {
        digest::lemma_tells_child(d.children@, e, all.len(), k);
    }
}

/// Checks references; the error is the first that is not allowed.
pub(crate) fn validate_grouping_refs(
    e: &BoundExpr,
    rule: &Rule,
    locals: &mut Vec<u32>,
    variables: &Vec<VarBinding>,
) -> (r: Result<(), BindError>)
    requires
        rule.keys.indexed(),
    ensures
        final(locals)@ == old(locals)@,
        bad_ref(e@, rule.over(bound::var_bindings_view(variables@)), old(locals)@) == match r {
            Ok(_) => None,
            Err(error) => Some(error@),
        },
{
    let digests = digest::digest_tree(e);
    check_refs(e, &digests, rule, locals, variables)
}

/// As [`validate_grouping_refs`], given the digests of the expression.
fn check_refs(
    e: &BoundExpr,
    digests: &Digested,
    rule: &Rule,
    locals: &mut Vec<u32>,
    variables: &Vec<VarBinding>,
) -> (r: Result<(), BindError>)
    requires
        rule.keys.indexed(),
        digest::tells(*digests, e@),
    ensures
        final(locals)@ == old(locals)@,
        bad_ref(e@, rule.over(bound::var_bindings_view(variables@)), old(locals)@) == match r {
            Ok(_) => None,
            Err(error) => Some(error@),
        },
    decreases e@,
{
    let ghost rr = rule.over(bound::var_bindings_view(variables@));
    let ghost before = locals@;
    let whole_match_ok = match rule.mode {
        RefErrorMode::Ambiguous => matches!(
            e,
            BoundExpr::Variable { .. } | BoundExpr::Property { .. }
        ),
        RefErrorMode::Undefined => true,
    };
    if whole_match_ok && rule.keys.whole_match(e, digests) {
        return Ok(());
    }
    match e {
        BoundExpr::Aggregate { .. } => Ok(()),
        BoundExpr::Variable { id, span } => {
            if holds(locals, id.0) || holds(&rule.outputs, id.0) {
                return Ok(());
            }
            match rule.mode {
                RefErrorMode::Ambiguous => Err(
                    BindError::AmbiguousAggregation { span: rule.span },
                ),
                RefErrorMode::Undefined => {
                    let at: usize = id.0 as usize;
                    let name = if at < variables.len() {
                        assert(
                            bound::var_bindings_view(variables@)[at as int] == variables@[at as int]@
                        );
                        variables[at].name.clone()
                    } else {
                        String::new()
                    };
                    Err(BindError::UndefinedVariable { name, span: *span })
                },
            }
        },
        BoundExpr::ListComprehension { variable, list, where_clause, map, .. } => {
            proof {
                lemma_below(*digests, e@);
            }
            if let Err(error) = check_refs(list, &digests.children[0], rule, locals, variables) {
                return Err(error);
            }
            locals.push(variable.0);
            let mut result: Result<(), BindError> = Ok(());
            if let Some(filter) = where_clause {
                result = check_refs(filter, &digests.children[1], rule, locals, variables);
            }
            if result.is_ok() {
                if let Some(mapped) = map {
                    let last: usize = digests.children.len() - 1;
                    result = check_refs(mapped, &digests.children[last], rule, locals, variables);
                }
            }
            locals.pop();
            assert(locals@ =~= before);
            result
        },
        BoundExpr::Quantifier { variable, list, predicate, .. } => {
            proof {
                lemma_below(*digests, e@);
            }
            if let Err(error) = check_refs(list, &digests.children[0], rule, locals, variables) {
                return Err(error);
            }
            locals.push(variable.0);
            let result = check_refs(predicate, &digests.children[1], rule, locals, variables);
            locals.pop();
            assert(locals@ =~= before);
            result
        },
        BoundExpr::Reduce { accumulator, init, variable, list, expr, .. } => {
            proof {
                lemma_below(*digests, e@);
            }
            if let Err(error) = check_refs(init, &digests.children[0], rule, locals, variables) {
                return Err(error);
            }
            if let Err(error) = check_refs(list, &digests.children[1], rule, locals, variables) {
                return Err(error);
            }
            locals.push(accumulator.0);
            locals.push(variable.0);
            let result = check_refs(expr, &digests.children[2], rule, locals, variables);
            locals.pop();
            locals.pop();
            assert(locals@ =~= before);
            result
        },
        _ => {
            let parts = e.children();
            let ghost all = subtrees::bound_children(e@);
            proof {
                lemma_below(*digests, e@);
            }
            let mut i: usize = 0;
            while i < parts.len()
                invariant
                    i <= parts.len(),
                    rule.keys.indexed(),
                    digests.children@.len() == all.len(),
                    forall|k: int|
                        0 <= k < all.len() ==> digest::tells(
                            #[trigger] digests.children@[k],
                            all[k],
                        ),
                    all == subtrees::bound_children(e@),
                    subtrees::referenced(parts@) == all,
                    rr == rule.over(bound::var_bindings_view(variables@)),
                    locals@ == before,
                    bad_child_ref(e@, 0, rr, before) == bad_child_ref(e@, i as nat, rr, before),
                    bad_ref(e@, rr, before) == bad_child_ref(e@, 0, rr, before),
                    before == old(locals)@,
                decreases parts.len() - i,
            {
                proof {
                    subtrees::lemma_bound_child_is_smaller(e@, i as int);
                    assert(all[i as int] == parts@[i as int]@);
                }
                if let Err(error) = check_refs(
                    parts[i],
                    &digests.children[i],
                    rule,
                    locals,
                    variables,
                ) {
                    return Err(error);
                }
                i += 1;
            }
            Ok(())
        },
    }
}

} // verus!
