//! Where an identity stands in a list, without looking through the list.

use std::collections::HashMap;

use vstd::prelude::*;

use crate::bind::digest;
use crate::exec::source;
use crate::exec::value::{EntityId, EntityIdView};

verus! {

broadcast use vstd::std_specs::hash::group_hash_axioms;

/// `h` with the first `n` bytes folded in.
pub open spec fn bytes_digest(h: u64, s: Seq<u8>, n: nat) -> u64
    decreases n,
{
    if n == 0 || n > s.len() {
        h
    } else {
        digest::mix(bytes_digest(h, s, (n - 1) as nat), s[n - 1] as u64)
    }
}

/// The digest of an identity.
pub open spec fn id_digest(id: EntityIdView) -> u64 {
    bytes_digest(0, id.bytes, id.bytes.len())
}

fn digest_id(id: &EntityId) -> (r: u64)
    ensures
        r == id_digest(id@),
{
    let mut out: u64 = 0;
    let mut i: usize = 0;
    while i < id.bytes.len()
        invariant
            i <= id.bytes.len(),
            out == bytes_digest(0, id.bytes@, i as nat),
        decreases id.bytes.len() - i,
    {
        out = digest::mixed(out, id.bytes[i] as u64);
        i += 1;
    }
    out
}

/// The positions among the first `n` of `ids` with a digest.
pub open spec fn with_digest(ids: Seq<EntityIdView>, n: nat, d: u64) -> Seq<usize>
    decreases n,
{
    if n == 0 || n > ids.len() {
        seq![]
    } else {
        let before = with_digest(ids, (n - 1) as nat, d);
        if id_digest(ids[n - 1]) == d {
            before.push((n - 1) as usize)
        } else {
            before
        }
    }
}

/// The positions among the first `n` of `ids` of an identity.
pub open spec fn positions_of(ids: Seq<EntityIdView>, n: nat, id: EntityIdView) -> Seq<usize>
    decreases n,
{
    if n == 0 || n > ids.len() {
        seq![]
    } else {
        let before = positions_of(ids, (n - 1) as nat, id);
        if ids[n - 1] == id {
            before.push((n - 1) as usize)
        } else {
            before
        }
    }
}

/// Those of the first `m` of `at` where an identity stands.
spec fn picked(ids: Seq<EntityIdView>, at: Seq<usize>, m: nat, id: EntityIdView) -> Seq<usize>
    decreases m,
{
    if m == 0 || m > at.len() {
        seq![]
    } else {
        let before = picked(ids, at, (m - 1) as nat, id);
        if ids[at[m - 1] as int] == id {
            before.push(at[m - 1])
        } else {
            before
        }
    }
}

proof fn lemma_picked_push(
    ids: Seq<EntityIdView>,
    at: Seq<usize>,
    x: usize,
    m: nat,
    id: EntityIdView,
)
    requires
        m <= at.len(),
    ensures
        picked(ids, at.push(x), m, id) == picked(ids, at, m, id),
    decreases m,
{
    if m > 0 {
        lemma_picked_push(ids, at, x, (m - 1) as nat, id);
    }
}

proof fn lemma_picked(ids: Seq<EntityIdView>, n: nat, id: EntityIdView)
    requires
        n <= ids.len(),
        ids.len() <= usize::MAX,
    ensures
        ({
            let at = with_digest(ids, n, id_digest(id));
            picked(ids, at, at.len(), id) == positions_of(ids, n, id)
        }),
    decreases n,
{
    if n > 0 {
        lemma_picked(ids, (n - 1) as nat, id);
        let d = id_digest(id);
        let before = with_digest(ids, (n - 1) as nat, d);
        if id_digest(ids[n - 1]) == d {
            lemma_picked_push(ids, before, (n - 1) as usize, before.len(), id);
        }
    }
}

proof fn lemma_digest_positions(ids: Seq<EntityIdView>, n: nat, d: u64)
    requires
        n <= ids.len(),
        ids.len() <= usize::MAX,
    ensures
        forall|i: int|
            0 <= i < with_digest(ids, n, d).len() ==> (#[trigger] with_digest(ids, n, d)[i]) < n,
    decreases n,
{
    if n > 0 {
        lemma_digest_positions(ids, (n - 1) as nat, d);
        let before = with_digest(ids, (n - 1) as nat, d);
        let now = with_digest(ids, n, d);
        assert forall|i: int| 0 <= i < now.len() implies (#[trigger] now[i]) < n by {
            if i < before.len() {
                assert(now[i] == before[i]);
            }
        }
    }
}

/// Positions of an identity lie within the list and ascend to it.
pub proof fn lemma_positions(ids: Seq<EntityIdView>, n: nat, id: EntityIdView)
    requires
        n <= ids.len(),
        ids.len() <= usize::MAX,
    ensures
        forall|i: int|
            0 <= i < positions_of(ids, n, id).len() ==> (#[trigger] positions_of(ids, n, id)[i])
                < n && ids[positions_of(ids, n, id)[i] as int] == id,
    decreases n,
{
    if n > 0 {
        lemma_positions(ids, (n - 1) as nat, id);
        let before = positions_of(ids, (n - 1) as nat, id);
        let now = positions_of(ids, n, id);
        assert forall|i: int| 0 <= i < now.len() implies (#[trigger] now[i]) < n
            && ids[now[i] as int] == id by {
            if i < before.len() {
                assert(now[i] == before[i]);
            }
        }
    }
}

/// A list of identities with the positions of each at hand.
#[derive(Debug)]
pub struct IdIndex {
    ids: Vec<EntityId>,
    /// Positions by digest.
    buckets: HashMap<u64, Vec<usize>>,
}

spec fn bucket(m: Map<u64, Vec<usize>>, d: u64) -> Seq<usize> {
    if m.dom().contains(d) {
        m[d]@
    } else {
        seq![]
    }
}

impl IdIndex {
    pub closed spec fn view(&self) -> Seq<EntityIdView> {
        source::entity_ids_view(self.ids@)
    }

    /// Every position stands in the bucket of its identity's digest.
    #[verifier::type_invariant]
    spec fn indexed(&self) -> bool {
        forall|d: u64|
            #[trigger] bucket(self.buckets@, d) == with_digest(
                source::entity_ids_view(self.ids@),
                self.ids@.len(),
                d,
            )
    }

    pub fn build(ids: Vec<EntityId>) -> (r: IdIndex)
        ensures
            r@ == source::entity_ids_view(ids@),
    {
        let ghost all = source::entity_ids_view(ids@);
        let mut buckets: HashMap<u64, Vec<usize>> = HashMap::new();
        let mut i: usize = 0;
        assert forall|d: u64| #[trigger] bucket(buckets@, d) == with_digest(all, 0, d) by {}
        while i < ids.len()
            invariant
                i <= ids.len(),
                all == source::entity_ids_view(ids@),
                forall|d: u64| #[trigger] bucket(buckets@, d) == with_digest(all, i as nat, d),
            decreases ids.len() - i,
        {
            assert(all[i as int] == ids@[i as int]@);
            let d: u64 = digest_id(&ids[i]);
            let ghost before = buckets@;
            assert(bucket(before, d) == with_digest(all, i as nat, d));
            let mut at: Vec<usize> = match buckets.remove(&d) {
                Some(at) => at,
                None => Vec::new(),
            };
            assert(at@ =~= bucket(before, d));
            at.push(i);
            buckets.insert(d, at);
            assert forall|e: u64| #[trigger]
                bucket(buckets@, e) == with_digest(all, (i + 1) as nat, e) by {
                assert(bucket(before, e) == with_digest(all, i as nat, e));
            }
            i += 1;
        }
        IdIndex { ids, buckets }
    }

    /// The positions of an identity, in order.
    pub fn positions(&self, id: &EntityId) -> (r: Vec<usize>)
        ensures
            r@ == positions_of(self@, self@.len(), id@),
    {
        proof {
            use_type_invariant(self);
        }
        let ghost all = self@;
        let d: u64 = digest_id(id);
        let ghost at = with_digest(all, all.len(), d);
        proof {
            assert(all.len() == self.ids.len());
            lemma_picked(all, all.len(), id@);
            lemma_digest_positions(all, all.len(), d);
            assert(bucket(self.buckets@, d) == at);
        }
        let mut out: Vec<usize> = Vec::new();
        if let Some(candidates) = self.buckets.get(&d) {
            let mut i: usize = 0;
            assert(out@ =~= picked(all, at, 0, id@));
            while i < candidates.len()
                invariant
                    i <= candidates.len(),
                    all == source::entity_ids_view(self.ids@),
                    at == candidates@,
                    forall|k: int| 0 <= k < at.len() ==> (#[trigger] at[k]) < all.len(),
                    out@ == picked(all, at, i as nat, id@),
                decreases candidates.len() - i,
            {
                let p: usize = candidates[i];
                assert(at[i as int] < all.len());
                assert(all[p as int] == self.ids@[p as int]@);
                if self.ids[p].same(id) {
                    out.push(p);
                }
                i += 1;
            }
        } else {
            assert(at =~= seq![]);
            assert(out@ =~= picked(all, at, 0, id@));
        }
        out
    }
}

} // verus!
