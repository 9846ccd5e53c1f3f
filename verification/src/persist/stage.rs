//! Staging a query's net changes as writes on the store.

use vstd::prelude::*;
use vstd::string::*;

use crate::bind::catalogue::{Catalogue, CatalogueView};
use crate::exec::ids;
use crate::exec::records::{
    EdgeKey, EdgeKeyView, EdgeRecord, EdgeRecordView, NodeKey, NodeKeyView, NodeRecord,
    NodeRecordView,
};
use crate::exec::source::{self, WriteChanges, WriteChangesView};
use crate::exec::value::{
    self, EntityId, EntityIdView, NodeValue, NodeValueView, RelValue, RelValueView,
};
use crate::persist::constraints::{self, StoredState, StoredStateView};
use crate::persist::error::{KeyError, PersistError, PersistErrorView};
use crate::persist::identity;
use crate::text;

verus! {

/// One write on the store.
#[derive(Debug)]
pub enum StagedWrite {
    DeleteEdge { key: EdgeKey },
    DeleteNode { key: NodeKey },
    PutNode { key: NodeKey, record: NodeRecord },
    PutEdge { key: EdgeKey, record: EdgeRecord },
}

/// The value that a [`StagedWrite`] stands for.
pub enum StagedWriteView {
    DeleteEdge { key: EdgeKeyView },
    DeleteNode { key: NodeKeyView },
    PutNode { key: NodeKeyView, record: NodeRecordView },
    PutEdge { key: EdgeKeyView, record: EdgeRecordView },
}

impl StagedWrite {
    pub open spec fn view(&self) -> StagedWriteView {
        match self {
            StagedWrite::DeleteEdge { key } => StagedWriteView::DeleteEdge { key: key@ },
            StagedWrite::DeleteNode { key } => StagedWriteView::DeleteNode { key: key@ },
            StagedWrite::PutNode { key, record } => StagedWriteView::PutNode {
                key: key@,
                record: record@,
            },
            StagedWrite::PutEdge { key, record } => StagedWriteView::PutEdge {
                key: key@,
                record: record@,
            },
        }
    }
}

pub open spec fn staged_writes_view(v: Seq<StagedWrite>) -> Seq<StagedWriteView> {
    Seq::new(v.len(), |i: int| v[i]@)
}

// --- Nodes ------------------------------------------------------------------------------------------

/// The nodes settled so far: under which key each identity is written, and the
/// records by key.
pub struct Settled {
    pub keys: Seq<(EntityIdView, NodeKeyView)>,
    pub records: Seq<(NodeKeyView, NodeRecordView)>,
}

/// Whether a record is written under a key already.
pub open spec fn is_written(records: Seq<(NodeKeyView, NodeRecordView)>, key: NodeKeyView) -> bool {
    exists|i: int| 0 <= i < records.len() && (#[trigger] records[i]).0 == key
}

/// The key and the record that a node is written as, after others.
pub open spec fn settled_one(
    before: Seq<(NodeKeyView, NodeRecordView)>,
    node: NodeValueView,
    catalogue: CatalogueView,
    state: StoredStateView,
    deleted: Seq<EntityIdView>,
) -> Result<(NodeKeyView, NodeRecordView), PersistErrorView> {
    match identity::identified(node, catalogue) {
        Err(e) => Err(e),
        Ok((key, record)) => {
            let decoded = state.decoded(node.id);
            if decoded is None && state.holds(key) && !state.freed(deleted, key) {
                Err(PersistErrorView::DuplicateKey { key })
            } else if decoded is Some && decoded->Some_0 != key {
                Err(PersistErrorView::KeyImmutable { label: key.label })
            } else if is_written(before, key) {
                Err(PersistErrorView::DuplicateKeyInStatement { key })
            } else {
                match constraints::constraint_fault(node, key, catalogue, state, deleted) {
                    Some(e) => Err(e),
                    None => Ok((key, record)),
                }
            }
        },
    }
}

/// The first `n` nodes, settled one after the other.
pub open spec fn settled(
    nodes: Seq<NodeValueView>,
    n: nat,
    catalogue: CatalogueView,
    state: StoredStateView,
    deleted: Seq<EntityIdView>,
) -> Result<Settled, PersistErrorView>
    decreases n,
{
    if n == 0 || n > nodes.len() {
        Ok(Settled { keys: seq![], records: seq![] })
    } else {
        match settled(nodes, (n - 1) as nat, catalogue, state, deleted) {
            Err(e) => Err(e),
            Ok(before) => match settled_one(
                before.records,
                nodes[n - 1],
                catalogue,
                state,
                deleted,
            ) {
                Err(e) => Err(e),
                Ok((key, record)) => Ok(
                    Settled {
                        keys: before.keys.push((nodes[n - 1].id, key)),
                        records: before.records.push((key, record)),
                    },
                ),
            },
        }
    }
}

proof fn lemma_settled_err(
    nodes: Seq<NodeValueView>,
    m: nat,
    n: nat,
    catalogue: CatalogueView,
    state: StoredStateView,
    deleted: Seq<EntityIdView>,
)
    requires
        m <= n <= nodes.len(),
        settled(nodes, m, catalogue, state, deleted) is Err,
    ensures
        settled(nodes, n, catalogue, state, deleted) == settled(
            nodes,
            m,
            catalogue,
            state,
            deleted,
        ),
    decreases n - m,
{
    if m < n {
        lemma_settled_err(nodes, m, (n - 1) as nat, catalogue, state, deleted);
    }
}

fn already_written(records: &Vec<(NodeKey, NodeRecord)>, key: &NodeKey) -> (r: bool)
    ensures
        r == is_written(constraints::keyed_records_view(records@), key@),
{
    let ghost all = constraints::keyed_records_view(records@);
    let mut i: usize = 0;
    while i < records.len()
        invariant
            i <= records.len(),
            all == constraints::keyed_records_view(records@),
            forall|k: int| 0 <= k < i ==> (#[trigger] all[k]).0 != key@,
        decreases records.len() - i,
    {
        assert(all[i as int] == (records@[i as int].0@, records@[i as int].1@));
        if constraints::same_key(&records[i].0, key) {
            assert(constraints::keyed_records_view(records@)[i as int].0 == key@);
            return true;
        }
        i += 1;
    }
    false
}

fn settle_one(
    records: &Vec<(NodeKey, NodeRecord)>,
    node: &NodeValue,
    catalogue: &Catalogue,
    state: &StoredState,
    deleted: &Vec<EntityId>,
) -> (r: Result<(NodeKey, NodeRecord), PersistError>)
    ensures
        settled_one(
            constraints::keyed_records_view(records@),
            node@,
            catalogue@,
            state@,
            source::entity_ids_view(deleted@),
        ) == match r {
            Ok((key, record)) => Ok::<(NodeKeyView, NodeRecordView), PersistErrorView>(
                (key@, record@),
            ),
            Err(e) => Err(e@),
        },
{
    let (key, record) = match identity::node_key_and_record(node, catalogue) {
        Err(e) => {
            return Err(e);
        },
        Ok(pair) => pair,
    };
    match constraints::find_key(&state.identities, &node.id) {
        None => {
            // A created node: its key must be free, or freed by a deletion.
            if state.contains_node(&key) && !state.is_freed(deleted, &key) {
                return Err(PersistError::DuplicateKey { key });
            }
        },
        Some(original) => {
            if !constraints::same_key(original, &key) {
                return Err(PersistError::KeyImmutable { label: key.label });
            }
        },
    }
    if already_written(records, &key) {
        return Err(PersistError::DuplicateKeyInStatement { key });
    }
    match constraints::check_constraints(node, &key, catalogue, state, deleted) {
        Err(e) => Err(e),
        Ok(()) => Ok((key, record)),
    }
}

struct SettledNodes {
    keys: Vec<(EntityId, NodeKey)>,
    records: Vec<(NodeKey, NodeRecord)>,
}

impl SettledNodes {
    spec fn view(&self) -> Settled {
        Settled {
            keys: constraints::identities_view(self.keys@),
            records: constraints::keyed_records_view(self.records@),
        }
    }
}

fn settle(
    nodes: &Vec<NodeValue>,
    catalogue: &Catalogue,
    state: &StoredState,
    deleted: &Vec<EntityId>,
) -> (r: Result<SettledNodes, PersistError>)
    ensures
        settled(
            value::node_values_view(nodes@),
            nodes@.len(),
            catalogue@,
            state@,
            source::entity_ids_view(deleted@),
        ) == match r {
            Ok(s) => Ok::<Settled, PersistErrorView>(s@),
            Err(e) => Err(e@),
        },
{
    let ghost all = value::node_values_view(nodes@);
    let ghost gone = source::entity_ids_view(deleted@);
    let mut keys: Vec<(EntityId, NodeKey)> = Vec::new();
    let mut records: Vec<(NodeKey, NodeRecord)> = Vec::new();
    let mut i: usize = 0;
    assert(constraints::identities_view(keys@) =~= seq![]);
    assert(constraints::keyed_records_view(records@) =~= seq![]);
    while i < nodes.len()
        invariant
            i <= nodes.len(),
            all == value::node_values_view(nodes@),
            gone == source::entity_ids_view(deleted@),
            settled(all, i as nat, catalogue@, state@, gone) == Ok::<_, PersistErrorView>(
                Settled {
                    keys: constraints::identities_view(keys@),
                    records: constraints::keyed_records_view(records@),
                },
            ),
        decreases nodes.len() - i,
    {
        assert(all[i as int] == nodes@[i as int]@);
        match settle_one(&records, &nodes[i], catalogue, state, deleted) {
            Err(e) => {
                proof {
                    lemma_settled_err(all, (i + 1) as nat, all.len(), catalogue@, state@, gone);
                }
                return Err(e);
            },
            Ok((key, record)) => {
                let named = (nodes[i].id.dup(), key.dup());
                let pair = (key, record);
                assert(constraints::identities_view(keys@.push(named)) =~= constraints::identities_view(keys@).push(
                    (named.0@, named.1@),
                ));
                assert(constraints::keyed_records_view(records@.push(pair)) =~= constraints::keyed_records_view(
                    records@,
                ).push((pair.0@, pair.1@)));
                keys.push(named);
                records.push(pair);
            },
        }
        i += 1;
    }
    Ok(SettledNodes { keys, records })
}

// --- Relationships ----------------------------------------------------------------------------------

/// The key of the last of the first `n` pairs that has an identity.
pub open spec fn last_key(
    pairs: Seq<(EntityIdView, NodeKeyView)>,
    id: EntityIdView,
    n: nat,
) -> Option<NodeKeyView>
    decreases n,
{
    if n == 0 || n > pairs.len() {
        None
    } else if pairs[n - 1].0 == id {
        Some(pairs[n - 1].1)
    } else {
        last_key(pairs, id, (n - 1) as nat)
    }
}

/// The key of a relationship's end: that of a written node, or the key that the
/// identity encodes.
pub open spec fn end_key(
    keys: Seq<(EntityIdView, NodeKeyView)>,
    state: StoredStateView,
    id: EntityIdView,
) -> Option<NodeKeyView> {
    match last_key(keys, id, keys.len()) {
        Some(key) => Some(key),
        None => state.decoded(id),
    }
}

/// The key of a relationship.
pub open spec fn edge_of(
    keys: Seq<(EntityIdView, NodeKeyView)>,
    state: StoredStateView,
    rel: RelValueView,
) -> Result<EdgeKeyView, PersistErrorView> {
    match (end_key(keys, state, rel.start), end_key(keys, state, rel.end)) {
        (Some(src), Some(dst)) => Ok(EdgeKeyView { src, rtype: rel.rel_type, dst }),
        _ => Err(PersistErrorView::Key { error: KeyError::NotAKey }),
    }
}

fn resolve(keys: &Vec<(EntityId, NodeKey)>, state: &StoredState, id: &EntityId) -> (r: Option<
    NodeKey,
>)
    ensures
        end_key(constraints::identities_view(keys@), state@, id@) == match r {
            Some(key) => Some(key@),
            None => None,
        },
{
    let ghost all = constraints::identities_view(keys@);
    let mut n: usize = keys.len();
    assert(all.len() == keys@.len());
    while n > 0
        invariant
            n <= keys.len(),
            all == constraints::identities_view(keys@),
            all.len() == keys@.len(),
            last_key(all, id@, all.len()) == last_key(all, id@, n as nat),
        decreases n,
    {
        assert(all[n - 1] == (keys@[n - 1].0@, keys@[n - 1].1@));
        if keys[n - 1].0.same(id) {
            return Some(keys[n - 1].1.dup());
        }
        n -= 1;
    }
    match constraints::find_key(&state.identities, id) {
        Some(key) => Some(key.dup()),
        None => None,
    }
}

/// Build an edge key from a relationship, resolving its ends to node keys: a
/// written node through `keys`, a stored node through its identity.
fn edge_key(keys: &Vec<(EntityId, NodeKey)>, state: &StoredState, rel: &RelValue) -> (r: Result<
    EdgeKey,
    PersistError,
>)
    ensures
        edge_of(constraints::identities_view(keys@), state@, rel@) == match r {
            Ok(key) => Ok::<EdgeKeyView, PersistErrorView>(key@),
            Err(e) => Err(e@),
        },
{
    match (resolve(keys, state, &rel.start), resolve(keys, state, &rel.end)) {
        (Some(src), Some(dst)) => Ok(EdgeKey { src, rtype: rel.rel_type.clone(), dst }),
        _ => Err(PersistError::Key { error: KeyError::NotAKey }),
    }
}

/// The keys of the first `n` deleted relationships.
pub open spec fn deleted_edges(
    keys: Seq<(EntityIdView, NodeKeyView)>,
    state: StoredStateView,
    rels: Seq<RelValueView>,
    n: nat,
) -> Result<Seq<EdgeKeyView>, PersistErrorView>
    decreases n,
{
    if n == 0 || n > rels.len() {
        Ok(seq![])
    } else {
        match deleted_edges(keys, state, rels, (n - 1) as nat) {
            Err(e) => Err(e),
            Ok(before) => match edge_of(keys, state, rels[n - 1]) {
                Err(e) => Err(e),
                Ok(key) => Ok(before.push(key)),
            },
        }
    }
}

proof fn lemma_deleted_edges_err(
    keys: Seq<(EntityIdView, NodeKeyView)>,
    state: StoredStateView,
    rels: Seq<RelValueView>,
    m: nat,
    n: nat,
)
    requires
        m <= n <= rels.len(),
        deleted_edges(keys, state, rels, m) is Err,
    ensures
        deleted_edges(keys, state, rels, n) == deleted_edges(keys, state, rels, m),
    decreases n - m,
{
    if m < n {
        lemma_deleted_edges_err(keys, state, rels, m, (n - 1) as nat);
    }
}

fn delete_edges(keys: &Vec<(EntityId, NodeKey)>, state: &StoredState, rels: &Vec<RelValue>) -> (r:
    Result<Vec<EdgeKey>, PersistError>)
    ensures
        deleted_edges(
            constraints::identities_view(keys@),
            state@,
            value::rel_values_view(rels@),
            rels@.len(),
        ) == match r {
            Ok(all) => Ok::<Seq<EdgeKeyView>, PersistErrorView>(constraints::edge_keys_view(all@)),
            Err(e) => Err(e@),
        },
{
    let ghost ks = constraints::identities_view(keys@);
    let ghost all = value::rel_values_view(rels@);
    let mut out: Vec<EdgeKey> = Vec::new();
    let mut i: usize = 0;
    assert(constraints::edge_keys_view(out@) =~= seq![]);
    while i < rels.len()
        invariant
            i <= rels.len(),
            ks == constraints::identities_view(keys@),
            all == value::rel_values_view(rels@),
            deleted_edges(ks, state@, all, i as nat) == Ok::<_, PersistErrorView>(
                constraints::edge_keys_view(out@),
            ),
        decreases rels.len() - i,
    {
        assert(all[i as int] == rels@[i as int]@);
        match edge_key(keys, state, &rels[i]) {
            Err(e) => {
                proof {
                    lemma_deleted_edges_err(ks, state@, all, (i + 1) as nat, all.len());
                }
                return Err(e);
            },
            Ok(key) => {
                assert(
                    constraints::edge_keys_view(out@.push(key)) =~= constraints::edge_keys_view(out@).push(key@)
                );
                out.push(key);
            },
        }
        i += 1;
    }
    Ok(out)
}

/// The keys of the first `n` deleted nodes.
pub open spec fn deleted_nodes(state: StoredStateView, ids: Seq<EntityIdView>, n: nat) -> Result<
    Seq<NodeKeyView>,
    PersistErrorView,
>
    decreases n,
{
    if n == 0 || n > ids.len() {
        Ok(seq![])
    } else {
        match deleted_nodes(state, ids, (n - 1) as nat) {
            Err(e) => Err(e),
            Ok(before) => match state.decoded(ids[n - 1]) {
                None => Err(PersistErrorView::Key { error: KeyError::NotAKey }),
                Some(key) => Ok(before.push(key)),
            },
        }
    }
}

proof fn lemma_deleted_nodes_err(state: StoredStateView, ids: Seq<EntityIdView>, m: nat, n: nat)
    requires
        m <= n <= ids.len(),
        deleted_nodes(state, ids, m) is Err,
    ensures
        deleted_nodes(state, ids, n) == deleted_nodes(state, ids, m),
    decreases n - m,
{
    if m < n {
        lemma_deleted_nodes_err(state, ids, m, (n - 1) as nat);
    }
}

pub open spec fn node_keys_view(v: Seq<NodeKey>) -> Seq<NodeKeyView> {
    Seq::new(v.len(), |i: int| v[i]@)
}

fn delete_nodes(state: &StoredState, ids: &Vec<EntityId>) -> (r: Result<Vec<NodeKey>, PersistError>)
    ensures
        deleted_nodes(state@, source::entity_ids_view(ids@), ids@.len()) == match r {
            Ok(all) => Ok::<Seq<NodeKeyView>, PersistErrorView>(node_keys_view(all@)),
            Err(e) => Err(e@),
        },
{
    let ghost all = source::entity_ids_view(ids@);
    let mut out: Vec<NodeKey> = Vec::new();
    let mut i: usize = 0;
    assert(node_keys_view(out@) =~= seq![]);
    while i < ids.len()
        invariant
            i <= ids.len(),
            all == source::entity_ids_view(ids@),
            deleted_nodes(state@, all, i as nat) == Ok::<_, PersistErrorView>(
                node_keys_view(out@),
            ),
        decreases ids.len() - i,
    {
        assert(all[i as int] == ids@[i as int]@);
        match constraints::find_key(&state.identities, &ids[i]) {
            None => {
                proof {
                    lemma_deleted_nodes_err(state@, all, (i + 1) as nat, all.len());
                }
                return Err(PersistError::Key { error: KeyError::NotAKey });
            },
            Some(found_key) => {
                let key = found_key.dup();
                assert(node_keys_view(out@.push(key)) =~= node_keys_view(out@).push(key@));
                out.push(key);
            },
        }
        i += 1;
    }
    Ok(out)
}

/// Whether a relationship of a key is stored and stays, or was created already.
pub open spec fn is_taken(
    state: StoredStateView,
    gone: Seq<EdgeKeyView>,
    written: Seq<(EdgeKeyView, EdgeRecordView)>,
    key: EdgeKeyView,
) -> bool {
    ||| state.edges.contains(key) && !gone.contains(key)
    ||| exists|i: int| 0 <= i < written.len() && (#[trigger] written[i]).0 == key
}

/// The keys and the records of those of the first `n` relationships that are
/// created, or of those that are not. A created one must not take the place of
/// another.
pub open spec fn put_edges(
    keys: Seq<(EntityIdView, NodeKeyView)>,
    state: StoredStateView,
    gone: Seq<EdgeKeyView>,
    rels: Seq<RelValueView>,
    n: nat,
    created: bool,
) -> Result<Seq<(EdgeKeyView, EdgeRecordView)>, PersistErrorView>
    decreases n,
{
    if n == 0 || n > rels.len() {
        Ok(seq![])
    } else {
        let rel = rels[n - 1];
        match put_edges(keys, state, gone, rels, (n - 1) as nat, created) {
            Err(e) => Err(e),
            Ok(before) => if ids::is_overlay_id(rel.id) != created {
                Ok(before)
            } else {
                match edge_of(keys, state, rel) {
                    Err(e) => Err(e),
                    Ok(key) => if created && is_taken(state, gone, before, key) {
                        Err(PersistErrorView::DuplicateEdge { key })
                    } else {
                        match identity::stored_properties(
                            rel.properties.entries,
                            seq![],
                            rel.properties.entries.len(),
                        ) {
                            Err(e) => Err(e),
                            Ok(properties) => Ok(
                                before.push((key, EdgeRecordView { properties })),
                            ),
                        }
                    },
                }
            },
        }
    }
}

proof fn lemma_put_edges_err(
    keys: Seq<(EntityIdView, NodeKeyView)>,
    state: StoredStateView,
    gone: Seq<EdgeKeyView>,
    rels: Seq<RelValueView>,
    m: nat,
    n: nat,
    created: bool,
)
    requires
        m <= n <= rels.len(),
        put_edges(keys, state, gone, rels, m, created) is Err,
    ensures
        put_edges(keys, state, gone, rels, n, created) == put_edges(
            keys,
            state,
            gone,
            rels,
            m,
            created,
        ),
    decreases n - m,
{
    if m < n {
        lemma_put_edges_err(keys, state, gone, rels, m, (n - 1) as nat, created);
    }
}

pub open spec fn keyed_edges_view(v: Seq<(EdgeKey, EdgeRecord)>) -> Seq<
    (EdgeKeyView, EdgeRecordView),
> {
    Seq::new(v.len(), |i: int| (v[i].0@, v[i].1@))
}

fn same_edge(a: &EdgeKey, b: &EdgeKey) -> (r: bool)
    ensures
        r == (a@ == b@),
{
    constraints::same_key(&a.src, &b.src) && text::str_eq(a.rtype.as_str(), b.rtype.as_str()) && constraints::same_key(
        &a.dst,
        &b.dst,
    )
}

fn edges_contain(edges: &Vec<EdgeKey>, key: &EdgeKey) -> (r: bool)
    ensures
        r == constraints::edge_keys_view(edges@).contains(key@),
{
    let ghost all = constraints::edge_keys_view(edges@);
    let mut i: usize = 0;
    while i < edges.len()
        invariant
            i <= edges.len(),
            all == constraints::edge_keys_view(edges@),
            forall|k: int| 0 <= k < i ==> #[trigger] all[k] != key@,
        decreases edges.len() - i,
    {
        assert(all[i as int] == edges@[i as int]@);
        if same_edge(&edges[i], key) {
            assert(constraints::edge_keys_view(edges@)[i as int] == key@);
            return true;
        }
        i += 1;
    }
    false
}

fn taken(
    state: &StoredState,
    gone: &Vec<EdgeKey>,
    written: &Vec<(EdgeKey, EdgeRecord)>,
    key: &EdgeKey,
) -> (r: bool)
    ensures
        r == is_taken(state@, constraints::edge_keys_view(gone@), keyed_edges_view(written@), key@),
{
    if edges_contain(&state.edges, key) && !edges_contain(gone, key) {
        return true;
    }
    let ghost all = keyed_edges_view(written@);
    let mut i: usize = 0;
    while i < written.len()
        invariant
            i <= written.len(),
            all == keyed_edges_view(written@),
            !(state@.edges.contains(key@) && !constraints::edge_keys_view(gone@).contains(key@)),
            forall|k: int| 0 <= k < i ==> (#[trigger] all[k]).0 != key@,
        decreases written.len() - i,
    {
        assert(all[i as int] == (written@[i as int].0@, written@[i as int].1@));
        if same_edge(&written[i].0, key) {
            assert(keyed_edges_view(written@)[i as int].0 == key@);
            return true;
        }
        i += 1;
    }
    false
}

fn stage_edges(
    keys: &Vec<(EntityId, NodeKey)>,
    state: &StoredState,
    gone: &Vec<EdgeKey>,
    rels: &Vec<RelValue>,
    created: bool,
) -> (r: Result<Vec<(EdgeKey, EdgeRecord)>, PersistError>)
    ensures
        put_edges(
            constraints::identities_view(keys@),
            state@,
            constraints::edge_keys_view(gone@),
            value::rel_values_view(rels@),
            rels@.len(),
            created,
        ) == match r {
            Ok(all) => Ok::<Seq<(EdgeKeyView, EdgeRecordView)>, PersistErrorView>(
                keyed_edges_view(all@),
            ),
            Err(e) => Err(e@),
        },
{
    let ghost ks = constraints::identities_view(keys@);
    let ghost gs = constraints::edge_keys_view(gone@);
    let ghost all = value::rel_values_view(rels@);
    let nothing: Vec<String> = Vec::new();
    let mut out: Vec<(EdgeKey, EdgeRecord)> = Vec::new();
    let mut i: usize = 0;
    assert(text::strings_view(nothing@) =~= seq![]);
    assert(keyed_edges_view(out@) =~= seq![]);
    while i < rels.len()
        invariant
            i <= rels.len(),
            ks == constraints::identities_view(keys@),
            gs == constraints::edge_keys_view(gone@),
            all == value::rel_values_view(rels@),
            text::strings_view(nothing@) == Seq::<Seq<char>>::empty(),
            put_edges(ks, state@, gs, all, i as nat, created) == Ok::<_, PersistErrorView>(
                keyed_edges_view(out@),
            ),
        decreases rels.len() - i,
    {
        assert(all[i as int] == rels@[i as int]@);
        if ids::is_overlay(&rels[i].id) == created {
            let key = match edge_key(keys, state, &rels[i]) {
                Err(e) => {
                    proof {
                        lemma_put_edges_err(
                            ks,
                            state@,
                            gs,
                            all,
                            (i + 1) as nat,
                            all.len(),
                            created,
                        );
                    }
                    return Err(e);
                },
                Ok(key) => key,
            };
            if created && taken(state, gone, &out, &key) {
                proof {
                    lemma_put_edges_err(ks, state@, gs, all, (i + 1) as nat, all.len(), created);
                }
                return Err(PersistError::DuplicateEdge { key });
            }
            match identity::store_properties(&rels[i].properties, &nothing) {
                Err(e) => {
                    proof {
                        lemma_put_edges_err(
                            ks,
                            state@,
                            gs,
                            all,
                            (i + 1) as nat,
                            all.len(),
                            created,
                        );
                    }
                    return Err(e);
                },
                Ok(properties) => {
                    let pair = (key, EdgeRecord { properties });
                    assert(keyed_edges_view(out@.push(pair)) =~= keyed_edges_view(out@).push(
                        (pair.0@, pair.1@),
                    ));
                    out.push(pair);
                },
            }
        }
        i += 1;
    }
    Ok(out)
}

// --- The whole change -------------------------------------------------------------------------------

/// Deletions of relationships.
pub open spec fn edge_deletions(keys: Seq<EdgeKeyView>) -> Seq<StagedWriteView> {
    Seq::new(keys.len(), |i: int| StagedWriteView::DeleteEdge { key: keys[i] })
}

/// Deletions of nodes.
pub open spec fn node_deletions(keys: Seq<NodeKeyView>) -> Seq<StagedWriteView> {
    Seq::new(keys.len(), |i: int| StagedWriteView::DeleteNode { key: keys[i] })
}

/// Writes of nodes.
pub open spec fn node_puts(records: Seq<(NodeKeyView, NodeRecordView)>) -> Seq<StagedWriteView> {
    Seq::new(
        records.len(),
        |i: int| StagedWriteView::PutNode { key: records[i].0, record: records[i].1 },
    )
}

/// Writes of relationships.
pub open spec fn edge_puts(records: Seq<(EdgeKeyView, EdgeRecordView)>) -> Seq<StagedWriteView> {
    Seq::new(
        records.len(),
        |i: int| StagedWriteView::PutEdge { key: records[i].0, record: records[i].1 },
    )
}

/// The writes that a change is persisted by. Deletions come first, so that
/// deleting and creating under one key nets to the creation.
pub open spec fn persisted(
    changes: WriteChangesView,
    catalogue: CatalogueView,
    state: StoredStateView,
) -> Result<Seq<StagedWriteView>, PersistErrorView> {
    let nodes = changes.upserted_nodes;
    let gone = changes.deleted_nodes;
    let rels = changes.upserted_rels;
    match settled(nodes, nodes.len(), catalogue, state, gone) {
        Err(e) => Err(e),
        Ok(s) => match deleted_edges(
            s.keys,
            state,
            changes.deleted_rels,
            changes.deleted_rels.len(),
        ) {
            Err(e) => Err(e),
            Ok(edges) => match deleted_nodes(state, gone, gone.len()) {
                Err(e) => Err(e),
                Ok(keys) => match put_edges(s.keys, state, edges, rels, rels.len(), true) {
                    Err(e) => Err(e),
                    Ok(created) => match put_edges(s.keys, state, edges, rels, rels.len(), false) {
                        Err(e) => Err(e),
                        Ok(changed) => Ok(
                            edge_deletions(edges) + node_deletions(keys) + node_puts(s.records)
                                + edge_puts(created) + edge_puts(changed),
                        ),
                    },
                },
            },
        },
    }
}

fn push_edge_deletions(keys: Vec<EdgeKey>, out: &mut Vec<StagedWrite>)
    ensures
        staged_writes_view(final(out)@) == staged_writes_view(old(out)@) + edge_deletions(
            constraints::edge_keys_view(keys@),
        ),
{
    let ghost all = constraints::edge_keys_view(keys@);
    let ghost before = staged_writes_view(out@);
    let mut i: usize = 0;
    assert(staged_writes_view(out@) =~= before + edge_deletions(all).take(0));
    while i < keys.len()
        invariant
            i <= keys.len(),
            all == constraints::edge_keys_view(keys@),
            staged_writes_view(out@) == before + edge_deletions(all).take(i as int),
        decreases keys.len() - i,
    {
        let write = StagedWrite::DeleteEdge { key: keys[i].dup() };
        let ghost v = out@;
        out.push(write);
        assert(staged_writes_view(v.push(write)) =~= staged_writes_view(v).push(write@));
        i += 1;
        assert(staged_writes_view(out@) =~= before + edge_deletions(all).take(i as int));
    }
    assert(edge_deletions(all).take(i as int) =~= edge_deletions(all));
}

fn push_node_deletions(keys: Vec<NodeKey>, out: &mut Vec<StagedWrite>)
    ensures
        staged_writes_view(final(out)@) == staged_writes_view(old(out)@) + node_deletions(
            node_keys_view(keys@),
        ),
{
    let ghost all = node_keys_view(keys@);
    let ghost before = staged_writes_view(out@);
    let mut i: usize = 0;
    assert(staged_writes_view(out@) =~= before + node_deletions(all).take(0));
    while i < keys.len()
        invariant
            i <= keys.len(),
            all == node_keys_view(keys@),
            staged_writes_view(out@) == before + node_deletions(all).take(i as int),
        decreases keys.len() - i,
    {
        let write = StagedWrite::DeleteNode { key: keys[i].dup() };
        let ghost v = out@;
        out.push(write);
        assert(staged_writes_view(v.push(write)) =~= staged_writes_view(v).push(write@));
        i += 1;
        assert(staged_writes_view(out@) =~= before + node_deletions(all).take(i as int));
    }
    assert(node_deletions(all).take(i as int) =~= node_deletions(all));
}

fn push_node_puts(records: Vec<(NodeKey, NodeRecord)>, out: &mut Vec<StagedWrite>)
    ensures
        staged_writes_view(final(out)@) == staged_writes_view(old(out)@) + node_puts(
            constraints::keyed_records_view(records@),
        ),
{
    let ghost all = constraints::keyed_records_view(records@);
    let ghost before = staged_writes_view(out@);
    let mut i: usize = 0;
    assert(staged_writes_view(out@) =~= before + node_puts(all).take(0));
    while i < records.len()
        invariant
            i <= records.len(),
            all == constraints::keyed_records_view(records@),
            staged_writes_view(out@) == before + node_puts(all).take(i as int),
        decreases records.len() - i,
    {
        let write = StagedWrite::PutNode { key: records[i].0.dup(), record: records[i].1.dup() };
        let ghost v = out@;
        out.push(write);
        assert(staged_writes_view(v.push(write)) =~= staged_writes_view(v).push(write@));
        i += 1;
        assert(staged_writes_view(out@) =~= before + node_puts(all).take(i as int));
    }
    assert(node_puts(all).take(i as int) =~= node_puts(all));
}

fn push_edge_puts(records: Vec<(EdgeKey, EdgeRecord)>, out: &mut Vec<StagedWrite>)
    ensures
        staged_writes_view(final(out)@) == staged_writes_view(old(out)@) + edge_puts(
            keyed_edges_view(records@),
        ),
{
    let ghost all = keyed_edges_view(records@);
    let ghost before = staged_writes_view(out@);
    let mut i: usize = 0;
    assert(staged_writes_view(out@) =~= before + edge_puts(all).take(0));
    while i < records.len()
        invariant
            i <= records.len(),
            all == keyed_edges_view(records@),
            staged_writes_view(out@) == before + edge_puts(all).take(i as int),
        decreases records.len() - i,
    {
        let write = StagedWrite::PutEdge { key: records[i].0.dup(), record: records[i].1.dup() };
        let ghost v = out@;
        out.push(write);
        assert(staged_writes_view(v.push(write)) =~= staged_writes_view(v).push(write@));
        i += 1;
        assert(staged_writes_view(out@) =~= before + edge_puts(all).take(i as int));
    }
    assert(edge_puts(all).take(i as int) =~= edge_puts(all));
}

/// Turn `changes` into writes on the store, deriving stored identities against
/// `catalogue` and enforcing the constraints of the schema against `state`: one
/// key per node, immutable keys, no creation under a key that is taken, existence
/// and UNIQUE. The caller applies the writes in order.
pub fn persist_changes(changes: &WriteChanges, catalogue: &Catalogue, state: &StoredState) -> (r:
    Result<Vec<StagedWrite>, PersistError>)
    ensures
        persisted(changes@, catalogue@, state@) == match r {
            Ok(writes) => Ok::<Seq<StagedWriteView>, PersistErrorView>(
                staged_writes_view(writes@),
            ),
            Err(e) => Err(e@),
        },
{
    assert(changes@.upserted_nodes.len() == changes.upserted_nodes@.len());
    assert(changes@.upserted_rels.len() == changes.upserted_rels@.len());
    assert(changes@.deleted_nodes.len() == changes.deleted_nodes@.len());
    assert(changes@.deleted_rels.len() == changes.deleted_rels@.len());
    let nodes = match settle(&changes.upserted_nodes, catalogue, state, &changes.deleted_nodes) {
        Err(e) => {
            return Err(e);
        },
        Ok(nodes) => nodes,
    };
    let edges = match delete_edges(&nodes.keys, state, &changes.deleted_rels) {
        Err(e) => {
            return Err(e);
        },
        Ok(edges) => edges,
    };
    let keys = match delete_nodes(state, &changes.deleted_nodes) {
        Err(e) => {
            return Err(e);
        },
        Ok(keys) => keys,
    };
    let created = match stage_edges(&nodes.keys, state, &edges, &changes.upserted_rels, true) {
        Err(e) => {
            return Err(e);
        },
        Ok(created) => created,
    };
    let changed = match stage_edges(&nodes.keys, state, &edges, &changes.upserted_rels, false) {
        Err(e) => {
            return Err(e);
        },
        Ok(changed) => changed,
    };
    let mut out: Vec<StagedWrite> = Vec::new();
    let ghost de = edge_deletions(constraints::edge_keys_view(edges@));
    assert(staged_writes_view(out@) =~= seq![]);
    push_edge_deletions(edges, &mut out);
    assert(staged_writes_view(out@) =~= de);
    push_node_deletions(keys, &mut out);
    push_node_puts(nodes.records, &mut out);
    push_edge_puts(created, &mut out);
    push_edge_puts(changed, &mut out);
    Ok(out)
}

} // verus!
