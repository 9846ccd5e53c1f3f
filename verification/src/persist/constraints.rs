//! The constraints of the schema on nodes that are written.

use vstd::prelude::*;
use vstd::string::*;

use crate::bind::catalogue::{Catalogue, CatalogueView};
use crate::exec::float;
use crate::exec::records::{
    self, EdgeKey, EdgeKeyView, ModelValue, ModelValueView, NodeKey, NodeKeyView, NodeRecord,
    NodeRecordView,
};
use crate::exec::seek;
use crate::exec::source;
use crate::exec::value::{
    EntityId, EntityIdView, NodeValue, NodeValueView, PropertyMap, PropertyMapView,
};
use crate::names;
use crate::persist::error::{PersistError, PersistErrorView};
use crate::text;

verus! {

/// What is stored before the changes.
#[derive(Debug)]
pub struct StoredState {
    /// The identities of stored nodes that the changes speak of, with the keys
    /// that they encode. An identity that is not listed encodes no key: it is
    /// that of a created node.
    pub identities: Vec<(EntityId, NodeKey)>,
    pub nodes: Vec<(NodeKey, NodeRecord)>,
    /// The relationships that have no discriminator.
    pub edges: Vec<EdgeKey>,
}

/// The value that a [`StoredState`] stands for.
pub struct StoredStateView {
    pub identities: Seq<(EntityIdView, NodeKeyView)>,
    pub nodes: Seq<(NodeKeyView, NodeRecordView)>,
    pub edges: Seq<EdgeKeyView>,
}

pub open spec fn identities_view(v: Seq<(EntityId, NodeKey)>) -> Seq<(EntityIdView, NodeKeyView)> {
    Seq::new(v.len(), |i: int| (v[i].0@, v[i].1@))
}

pub open spec fn keyed_records_view(v: Seq<(NodeKey, NodeRecord)>) -> Seq<
    (NodeKeyView, NodeRecordView),
> {
    Seq::new(v.len(), |i: int| (v[i].0@, v[i].1@))
}

pub open spec fn edge_keys_view(v: Seq<EdgeKey>) -> Seq<EdgeKeyView> {
    Seq::new(v.len(), |i: int| v[i]@)
}

impl StoredState {
    pub open spec fn view(&self) -> StoredStateView {
        StoredStateView {
            identities: identities_view(self.identities@),
            nodes: keyed_records_view(self.nodes@),
            edges: edge_keys_view(self.edges@),
        }
    }
}

/// The key of the first pair from `i` on that has an identity.
pub open spec fn key_of_id(
    pairs: Seq<(EntityIdView, NodeKeyView)>,
    id: EntityIdView,
    i: int,
) -> Option<NodeKeyView>
    decreases pairs.len() - i,
{
    if i < 0 || i >= pairs.len() {
        None
    } else if pairs[i].0 == id {
        Some(pairs[i].1)
    } else {
        key_of_id(pairs, id, i + 1)
    }
}

impl StoredStateView {
    /// The key that an identity encodes.
    pub open spec fn decoded(self, id: EntityIdView) -> Option<NodeKeyView> {
        key_of_id(self.identities, id, 0)
    }

    /// Whether a node of a key is stored.
    pub open spec fn holds(self, key: NodeKeyView) -> bool {
        exists|i: int| 0 <= i < self.nodes.len() && (#[trigger] self.nodes[i]).0 == key
    }

    /// Whether one of the deleted nodes has a key.
    pub open spec fn freed(self, deleted: Seq<EntityIdView>, key: NodeKeyView) -> bool {
        exists|i: int|
            0 <= i < deleted.len() && self.decoded(#[trigger] deleted[i]) == Some(key)
    }
}

pub(crate) fn same_key(a: &NodeKey, b: &NodeKey) -> (r: bool)
    ensures
        r == (a@ == b@),
{
    text::str_eq(a.label.as_str(), b.label.as_str()) && seek::same_models(&a.key, &b.key)
}

pub(crate) fn find_key<'a>(pairs: &'a Vec<(EntityId, NodeKey)>, id: &EntityId) -> (r: Option<
    &'a NodeKey,
>)
    ensures
        key_of_id(identities_view(pairs@), id@, 0) == match r {
            Some(key) => Some(key@),
            None => None,
        },
{
    let ghost all = identities_view(pairs@);
    let mut i: usize = 0;
    while i < pairs.len()
        invariant
            i <= pairs.len(),
            all == identities_view(pairs@),
            key_of_id(all, id@, 0) == key_of_id(all, id@, i as int),
        decreases pairs.len() - i,
    {
        assert(all[i as int] == (pairs@[i as int].0@, pairs@[i as int].1@));
        if pairs[i].0.same(id) {
            return Some(&pairs[i].1);
        }
        i += 1;
    }
    None
}

impl StoredState {
    pub(crate) fn contains_node(&self, key: &NodeKey) -> (r: bool)
        ensures
            r == self@.holds(key@),
    {
        let ghost all = self@.nodes;
        let mut i: usize = 0;
        while i < self.nodes.len()
            invariant
                i <= self.nodes.len(),
                all == keyed_records_view(self.nodes@),
                forall|k: int| 0 <= k < i ==> (#[trigger] all[k]).0 != key@,
            decreases self.nodes.len() - i,
        {
            assert(all[i as int] == (self.nodes@[i as int].0@, self.nodes@[i as int].1@));
            if same_key(&self.nodes[i].0, key) {
                assert(self@.nodes[i as int].0 == key@);
                return true;
            }
            i += 1;
        }
        false
    }

    pub(crate) fn is_freed(&self, deleted: &Vec<EntityId>, key: &NodeKey) -> (r: bool)
        ensures
            r == self@.freed(source::entity_ids_view(deleted@), key@),
    {
        let ghost all = source::entity_ids_view(deleted@);
        let mut i: usize = 0;
        while i < deleted.len()
            invariant
                i <= deleted.len(),
                all == source::entity_ids_view(deleted@),
                forall|k: int| 0 <= k < i ==> self@.decoded(#[trigger] all[k]) != Some(key@),
            decreases deleted.len() - i,
        {
            assert(all[i as int] == deleted@[i as int]@);
            let hit = match find_key(&self.identities, &deleted[i]) {
                Some(found_key) => same_key(found_key, key),
                None => false,
            };
            if hit {
                assert(self@.decoded(all[i as int]) == Some(key@));
                return true;
            }
            i += 1;
        }
        false
    }
}

// --- Existence --------------------------------------------------------------------------------------

/// The first of the names from `i` on that is no property.
pub open spec fn missing_from(
    required: Seq<Seq<char>>,
    properties: PropertyMapView,
    i: int,
) -> Option<
    Seq<char>,
>
    decreases required.len() - i,
{
    if i < 0 || i >= required.len() {
        None
    } else if properties.lookup(required[i]) is None {
        Some(required[i])
    } else {
        missing_from(required, properties, i + 1)
    }
}

fn find_missing(required: &Vec<String>, properties: &PropertyMap) -> (r: Option<String>)
    ensures
        missing_from(text::strings_view(required@), properties@, 0) == match r {
            Some(name) => Some(name@),
            None => None,
        },
{
    let ghost all = text::strings_view(required@);
    let mut i: usize = 0;
    while i < required.len()
        invariant
            i <= required.len(),
            all == text::strings_view(required@),
            missing_from(all, properties@, 0) == missing_from(all, properties@, i as int),
        decreases required.len() - i,
    {
        assert(all[i as int] == required@[i as int]@);
        if properties.get(required[i].as_str()).is_none() {
            return Some(required[i].clone());
        }
        i += 1;
    }
    None
}

// --- Uniqueness -------------------------------------------------------------------------------------

/// Whether two stored values are equal: numbers of one type by their value, so
/// that NaN is not itself and the two zeros are one.
pub open spec fn stored_equal(a: ModelValueView, b: ModelValueView) -> bool
    decreases a, 0nat,
{
    match (a, b) {
        (
            ModelValueView::Float(x),
            ModelValueView::Float(y),
        ) => !float::is_nan(x) && !float::is_nan(y)
            && float::order_key(x) == float::order_key(y),
        (ModelValueView::List(x), ModelValueView::List(y)) => x.len() == y.len()
            && items_equal(x, y, x.len()),
        _ => a == b,
    }
}

/// Whether the first `n` items are equal.
pub open spec fn items_equal(a: Seq<ModelValueView>, b: Seq<ModelValueView>, n: nat) -> bool
    decreases a, n,
{
    if n == 0 || n > a.len() || n > b.len() {
        true
    } else {
        items_equal(a, b, (n - 1) as nat) && stored_equal(a[n - 1], b[n - 1])
    }
}

fn equal_values(a: &ModelValue, b: &ModelValue) -> (r: bool)
    ensures
        r == stored_equal(a@, b@),
    decreases a,
{
    match (a, b) {
        (ModelValue::Float(x), ModelValue::Float(y)) => !float::nan(*x) && !float::nan(*y) && (*x
            == *y || (float::absolute(*x) == 0 && float::absolute(*y) == 0)),
        (ModelValue::List(x), ModelValue::List(y)) => {
            let ghost xs = records::model_values_view(x@);
            let ghost ys = records::model_values_view(y@);
            assert(xs.len() == x@.len());
            assert(ys.len() == y@.len());
            if x.len() != y.len() {
                return false;
            }
            let mut same = true;
            let mut i: usize = 0;
            while i < x.len()
                invariant
                    i <= x.len(),
                    x@.len() == y@.len(),
                    a is List,
                    *x == a->List_0,
                    xs == records::model_values_view(x@),
                    ys == records::model_values_view(y@),
                    same == items_equal(xs, ys, i as nat),
                decreases x.len() - i,
            {
                assert(decreases_to!(*a => a->List_0@[i as int]));
                assert(xs[i as int] == x@[i as int]@);
                assert(ys[i as int] == y@[i as int]@);
                if !equal_values(&x[i], &y[i]) {
                    same = false;
                }
                i += 1;
            }
            same
        },
        _ => seek::same_model(a, b),
    }
}

/// The stored values of those of the first `n` unique properties that a node
/// has.
pub open spec fn unique_values(
    properties: PropertyMapView,
    unique: Seq<Seq<char>>,
    n: nat,
) -> Result<
    Seq<(Seq<char>, ModelValueView)>,
    PersistErrorView,
>
    decreases n,
{
    if n == 0 || n > unique.len() {
        Ok(seq![])
    } else {
        match unique_values(properties, unique, (n - 1) as nat) {
            Err(e) => Err(e),
            Ok(before) => match properties.lookup(unique[n - 1]) {
                None => Ok(before),
                Some(v) => match records::stored_as(v, 0) {
                    Err(kind) => Err(PersistErrorView::Value { kind }),
                    Ok(m) => Ok(before.push((unique[n - 1], m))),
                },
            },
        }
    }
}

proof fn lemma_unique_values_err(
    properties: PropertyMapView,
    unique: Seq<Seq<char>>,
    m: nat,
    n: nat,
)
    requires
        m <= n <= unique.len(),
        unique_values(properties, unique, m) is Err,
    ensures
        unique_values(properties, unique, n) == unique_values(properties, unique, m),
    decreases n - m,
{
    if m < n {
        lemma_unique_values_err(properties, unique, m, (n - 1) as nat);
    }
}

fn find_unique_values(properties: &PropertyMap, unique: &Vec<String>) -> (r: Result<
    Vec<(String, ModelValue)>,
    PersistError,
>)
    ensures
        unique_values(properties@, text::strings_view(unique@), unique@.len()) == match r {
            Ok(all) => Ok::<Seq<(Seq<char>, ModelValueView)>, PersistErrorView>(
                records::string_model_values_view(all@),
            ),
            Err(e) => Err(e@),
        },
{
    let ghost all = text::strings_view(unique@);
    let mut out: Vec<(String, ModelValue)> = Vec::new();
    let mut i: usize = 0;
    assert(records::string_model_values_view(out@) =~= seq![]);
    while i < unique.len()
        invariant
            i <= unique.len(),
            all == text::strings_view(unique@),
            unique_values(properties@, all, i as nat) == Ok::<_, PersistErrorView>(
                records::string_model_values_view(out@),
            ),
        decreases unique.len() - i,
    {
        assert(all[i as int] == unique@[i as int]@);
        if let Some(v) = properties.get(unique[i].as_str()) {
            match records::storable(v) {
                Err(kind) => {
                    proof {
                        lemma_unique_values_err(properties@, all, (i + 1) as nat, all.len());
                    }
                    return Err(PersistError::Value { kind });
                },
                Ok(m) => {
                    let pair = (unique[i].clone(), m);
                    assert(records::string_model_values_view(out@.push(pair)) =~= records::string_model_values_view(
                        out@,
                    ).push((pair.0@, pair.1@)));
                    out.push(pair);
                },
            }
        }
        i += 1;
    }
    Ok(out)
}

/// Whether a record has an equal value under a name.
pub open spec fn record_has(
    properties: Seq<(Seq<char>, ModelValueView)>,
    name: Seq<char>,
    v: ModelValueView,
) -> bool {
    match names::found(properties, name) {
        Some(x) => stored_equal(x, v),
        None => false,
    }
}

/// The first of the wanted properties from `i` on whose value a record has.
pub open spec fn clash_from(
    properties: Seq<(Seq<char>, ModelValueView)>,
    wanted: Seq<(Seq<char>, ModelValueView)>,
    i: int,
) -> Option<Seq<char>>
    decreases wanted.len() - i,
{
    if i < 0 || i >= wanted.len() {
        None
    } else if record_has(properties, wanted[i].0, wanted[i].1) {
        Some(wanted[i].0)
    } else {
        clash_from(properties, wanted, i + 1)
    }
}

fn has_value(properties: &Vec<(String, ModelValue)>, name: &str, v: &ModelValue) -> (r: bool)
    ensures
        r == record_has(records::string_model_values_view(properties@), name@, v@),
{
    let ghost all = records::string_model_values_view(properties@);
    let mut i: usize = 0;
    while i < properties.len()
        invariant
            i <= properties.len(),
            all == records::string_model_values_view(properties@),
            names::found(all, name@) == names::found_from(all, name@, i as int),
        decreases properties.len() - i,
    {
        assert(all[i as int] == (properties@[i as int].0@, properties@[i as int].1@));
        if text::str_eq(properties[i].0.as_str(), name) {
            return equal_values(&properties[i].1, v);
        }
        i += 1;
    }
    false
}

fn find_clash(properties: &Vec<(String, ModelValue)>, wanted: &Vec<(String, ModelValue)>) -> (r:
    Option<String>)
    ensures
        clash_from(
            records::string_model_values_view(properties@),
            records::string_model_values_view(wanted@),
            0,
        ) == match r {
            Some(name) => Some(name@),
            None => None,
        },
{
    let ghost props = records::string_model_values_view(properties@);
    let ghost all = records::string_model_values_view(wanted@);
    let mut i: usize = 0;
    while i < wanted.len()
        invariant
            i <= wanted.len(),
            props == records::string_model_values_view(properties@),
            all == records::string_model_values_view(wanted@),
            clash_from(props, all, 0) == clash_from(props, all, i as int),
        decreases wanted.len() - i,
    {
        assert(all[i as int] == (wanted@[i as int].0@, wanted@[i as int].1@));
        if has_value(properties, wanted[i].0.as_str(), &wanted[i].1) {
            return Some(wanted[i].0.clone());
        }
        i += 1;
    }
    None
}

/// The first wanted property whose value a stored node from `i` on has: another
/// node of the label that is not deleted.
pub open spec fn taken_from(
    state: StoredStateView,
    deleted: Seq<EntityIdView>,
    key: NodeKeyView,
    wanted: Seq<(Seq<char>, ModelValueView)>,
    i: int,
) -> Option<Seq<char>>
    decreases state.nodes.len() - i,
{
    if i < 0 || i >= state.nodes.len() {
        None
    } else {
        let other = state.nodes[i];
        if other.0.label == key.label && other.0 != key && !state.freed(deleted, other.0)
            && clash_from(other.1.properties, wanted, 0) is Some {
            clash_from(other.1.properties, wanted, 0)
        } else {
            taken_from(state, deleted, key, wanted, i + 1)
        }
    }
}

fn find_taken(
    state: &StoredState,
    deleted: &Vec<EntityId>,
    key: &NodeKey,
    wanted: &Vec<(String, ModelValue)>,
) -> (r: Option<String>)
    ensures
        taken_from(
            state@,
            source::entity_ids_view(deleted@),
            key@,
            records::string_model_values_view(wanted@),
            0,
        ) == match r {
            Some(name) => Some(name@),
            None => None,
        },
{
    let ghost ids = source::entity_ids_view(deleted@);
    let ghost want = records::string_model_values_view(wanted@);
    let ghost all = state@.nodes;
    let mut i: usize = 0;
    while i < state.nodes.len()
        invariant
            i <= state.nodes.len(),
            ids == source::entity_ids_view(deleted@),
            want == records::string_model_values_view(wanted@),
            all == state@.nodes,
            all == keyed_records_view(state.nodes@),
            taken_from(state@, ids, key@, want, 0) == taken_from(state@, ids, key@, want, i as int),
        decreases state.nodes.len() - i,
    {
        assert(all[i as int] == (state.nodes@[i as int].0@, state.nodes@[i as int].1@));
        let other = &state.nodes[i];
        if text::str_eq(other.0.label.as_str(), key.label.as_str()) && !same_key(&other.0, key)
            && !state.is_freed(deleted, &other.0) {
            if let Some(name) = find_clash(&other.1.properties, wanted) {
                return Some(name);
            }
        }
        i += 1;
    }
    None
}

/// Which constraint of the schema a written node breaks. Uniqueness is held
/// against what is stored and not deleted in the same change.
pub open spec fn constraint_fault(
    node: NodeValueView,
    key: NodeKeyView,
    catalogue: CatalogueView,
    state: StoredStateView,
    deleted: Seq<EntityIdView>,
) -> Option<PersistErrorView> {
    match catalogue.label(key.label) {
        None => None,
        Some(def) => {
            let required = text::strings_view(def.required@);
            let unique = text::strings_view(def.unique@);
            match missing_from(required, node.properties, 0) {
                Some(property) => Some(PersistErrorView::MissingRequired { key, property }),
                None => match unique_values(node.properties, unique, unique.len()) {
                    Err(e) => Some(e),
                    Ok(wanted) => match taken_from(state, deleted, key, wanted, 0) {
                        Some(property) => Some(
                            PersistErrorView::UniqueViolation { label: key.label, property },
                        ),
                        None => None,
                    },
                },
            }
        },
    }
}

/// Enforce the schema's existence and UNIQUE constraints for one written node.
pub fn check_constraints(
    node: &NodeValue,
    key: &NodeKey,
    catalogue: &Catalogue,
    state: &StoredState,
    deleted: &Vec<EntityId>,
) -> (r: Result<(), PersistError>)
    ensures
        constraint_fault(
            node@,
            key@,
            catalogue@,
            state@,
            source::entity_ids_view(deleted@),
        ) == match r {
            Ok(()) => None,
            Err(e) => Some(e@),
        },
{
    match catalogue.label(key.label.as_str()) {
        None => Ok(()),
        Some(def) => {
            assert(text::strings_view(def.unique@).len() == def.unique@.len());
            if let Some(property) = find_missing(&def.required, &node.properties) {
                return Err(PersistError::MissingRequired { key: key.dup(), property });
            }
            let wanted = match find_unique_values(&node.properties, &def.unique) {
                Err(e) => {
                    return Err(e);
                },
                Ok(wanted) => wanted,
            };
            match find_taken(state, deleted, key, &wanted) {
                Some(property) => Err(
                    PersistError::UniqueViolation { label: key.label.clone(), property },
                ),
                None => Ok(()),
            }
        },
    }
}

} // verus!
