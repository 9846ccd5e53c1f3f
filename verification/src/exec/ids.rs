//! Synthesised identities: a letter and a counter.

use vstd::prelude::*;

use crate::exec::value::{EntityId, EntityIdView};

verus! {

/// The tag byte of overlay identities, reserved from the key space of stored
/// elements.
pub const OVERLAY_TAG: u8 = 0xFF;

/// The ASCII digits of `n` in decimal.
pub open spec fn digit_bytes(n: nat) -> Seq<u8>
    decreases n,
{
    if n < 10 {
        seq![(48 + n) as u8]
    } else {
        digit_bytes(n / 10).push((48 + n % 10) as u8)
    }
}

/// `letter` followed by `n` in decimal.
pub open spec fn numbered(letter: u8, n: nat) -> Seq<u8> {
    seq![letter] + digit_bytes(n)
}

/// The identity of the `n`-th element of an overlay.
pub open spec fn overlay_id(n: nat) -> EntityIdView {
    EntityIdView { bytes: seq![OVERLAY_TAG] + numbered(119, n) }
}

/// Whether an identity is one of an overlay.
pub open spec fn is_overlay_id(id: EntityIdView) -> bool {
    id.bytes.len() > 0 && id.bytes[0] == OVERLAY_TAG
}

fn push_digits(out: &mut Vec<u8>, n: u128)
    ensures
        final(out)@ == old(out)@ + digit_bytes(n as nat),
    decreases n,
{
    if n < 10 {
        out.push((48 + n) as u8);
        assert(out@ =~= old(out)@ + digit_bytes(n as nat));
    } else {
        push_digits(out, n / 10);
        out.push((48 + n % 10) as u8);
        assert(out@ =~= old(out)@ + digit_bytes(n as nat));
    }
}

/// An identity made of `letter` and `n`.
pub(crate) fn numbered_id(letter: u8, n: u128) -> (r: EntityId)
    ensures
        r@ == (EntityIdView { bytes: numbered(letter, n as nat) }),
{
    let mut bytes: Vec<u8> = Vec::new();
    bytes.push(letter);
    push_digits(&mut bytes, n);
    assert(bytes@ =~= numbered(letter, n as nat));
    EntityId { bytes }
}

/// The identity of the `n`-th element of an overlay.
pub(crate) fn new_overlay_id(n: u128) -> (r: EntityId)
    ensures
        r@ == overlay_id(n as nat),
{
    let mut bytes: Vec<u8> = Vec::new();
    bytes.push(OVERLAY_TAG);
    bytes.push(119);
    push_digits(&mut bytes, n);
    assert(bytes@ =~= overlay_id(n as nat).bytes);
    EntityId { bytes }
}

/// True when `id` is an executor overlay id: a created element's id, carrying
/// the tag byte reserved from the key space. Base-graph ids never start with
/// it.
pub(crate) fn is_overlay(id: &EntityId) -> (r: bool)
    ensures
        r == is_overlay_id(id@),
{
    id.bytes.len() > 0 && id.bytes[0] == OVERLAY_TAG
}

proof fn lemma_digits_last(n: nat)
    ensures
        digit_bytes(n).len() > 0,
        digit_bytes(n).last() == (48 + n % 10) as u8,
        n >= 10 ==> digit_bytes(n).drop_last() == digit_bytes(n / 10),
        n < 10 ==> digit_bytes(n).len() == 1,
        n >= 10 ==> digit_bytes(n).len() >= 2,
    decreases n,
{
    if n >= 10 {
        lemma_digits_last(n / 10);
        assert(digit_bytes(n).drop_last() =~= digit_bytes(n / 10));
    }
}

proof fn lemma_digits_injective(m: nat, n: nat)
    requires
        digit_bytes(m) == digit_bytes(n),
    ensures
        m == n,
    decreases m,
{
    lemma_digits_last(m);
    lemma_digits_last(n);
    assert(m % 10 == n % 10);
    if m >= 10 {
        assert(n >= 10);
        lemma_digits_injective(m / 10, n / 10);
    }
}

/// Different counters give different identities of one letter.
pub proof fn numbered_ids_are_distinct(letter: u8, m: nat, n: nat)
    requires
        numbered(letter, m) == numbered(letter, n),
    ensures
        m == n,
{
    assert(numbered(letter, m).skip(1) =~= digit_bytes(m));
    assert(numbered(letter, n).skip(1) =~= digit_bytes(n));
    lemma_digits_injective(m, n);
}

/// Different counters give different overlay identities.
pub proof fn overlay_ids_are_distinct(m: nat, n: nat)
    requires
        overlay_id(m) == overlay_id(n),
    ensures
        m == n,
{
    assert(overlay_id(m).bytes.skip(2) =~= digit_bytes(m));
    assert(overlay_id(n).bytes.skip(2) =~= digit_bytes(n));
    lemma_digits_injective(m, n);
}

/// Overlay identities carry the reserved tag.
pub proof fn overlay_ids_are_tagged(n: nat)
    ensures
        is_overlay_id(overlay_id(n)),
{
}

} // verus!
