//! Vines that the player can climb.

use std::collections::HashSet;
use vstd::prelude::*;

verus! {

broadcast use vstd::std_specs::hash::group_hash_axioms;

/// A pair of colliders that the physics engine reports for the player: the
/// bits of both entities, and whether their shapes intersect.
pub type ContactPair = (u64, u64, bool);

/// The vine that contact `pair` of `player` touches, if the shapes
/// intersect and the other entity is a vine.
pub open spec fn vine_of(pair: ContactPair, player: u64, vines: Set<u64>) -> Option<u64> {
    let other = if pair.0 == player {
        pair.1
    } else {
        pair.0
    };
    if pair.2 && vines.contains(other) {
        Some(other)
    } else {
        None
    }
}

/// `found` is the vine of the first of `pairs` that touches one, or `None`
/// when none does.
pub open spec fn is_first_vine(
    pairs: Seq<ContactPair>,
    player: u64,
    vines: Set<u64>,
    found: Option<u64>,
) -> bool {
    match found {
        Some(v) => exists|i: int|
            0 <= i < pairs.len() && vine_of(#[trigger] pairs[i], player, vines) == Some(v)
                && forall|j: int| 0 <= j < i ==> vine_of(#[trigger] pairs[j], player, vines) is None,
        None => forall|i: int| 0 <= i < pairs.len() ==> vine_of(#[trigger] pairs[i], player, vines) is None,
    }
}

/// Whichever place the player takes in a contact pair, an intersecting pair
/// whose other entity is a vine means a vine is found; what is found is a
/// vine that intersects the player in one of the pairs; and when the first
/// pair is such a contact, its vine is the one found.
pub proof fn lemma_vine_found_in_either_place(
    pairs: Seq<ContactPair>,
    player: u64,
    vines: Set<u64>,
    found: Option<u64>,
)
    requires
        is_first_vine(pairs, player, vines, found),
    ensures
        forall|i: int|
            0 <= i < pairs.len() && (#[trigger] pairs[i]).2 && ((pairs[i].0 == player
                && vines.contains(pairs[i].1)) || (pairs[i].1 == player && vines.contains(
                pairs[i].0,
            ))) ==> found is Some,
        found matches Some(v) ==> vines.contains(v) && exists|i: int|
            0 <= i < pairs.len() && (#[trigger] pairs[i]).2 && ((pairs[i].0 == player
                && pairs[i].1 == v) || (pairs[i].0 != player && pairs[i].0 == v)),
        pairs.len() > 0 && pairs[0].2 && pairs[0].0 == player && vines.contains(pairs[0].1)
            ==> found == Some(pairs[0].1),
        pairs.len() > 0 && pairs[0].2 && pairs[0].1 == player && vines.contains(pairs[0].0)
            ==> found == Some(pairs[0].0),
{
    assert forall|i: int|
        0 <= i < pairs.len() && (#[trigger] pairs[i]).2 && ((pairs[i].0 == player
            && vines.contains(pairs[i].1)) || (pairs[i].1 == player && vines.contains(
            pairs[i].0,
        ))) implies found is Some by {
        assert(vine_of(pairs[i], player, vines) is Some);
    }
    if pairs.len() > 0 && pairs[0].2 && ((pairs[0].0 == player && vines.contains(pairs[0].1)) || (
    pairs[0].1 == player && vines.contains(pairs[0].0))) {
        assert(vine_of(pairs[0], player, vines) is Some);
        let i = choose|i: int|
            0 <= i < pairs.len() && vine_of(#[trigger] pairs[i], player, vines) == found
                && forall|j: int| 0 <= j < i ==> vine_of(#[trigger] pairs[j], player, vines) is None;
        if i > 0 {
            assert(vine_of(pairs[0], player, vines) is None);
        }
    }
}

/// The vine of the first of `pairs` (the physics engine's contacts of the
/// player) that touches one; `vines` holds the vine entities.
pub fn overlapping_vine(pairs: &Vec<ContactPair>, player: u64, vines: &HashSet<u64>) -> (found:
    Option<u64>)
    ensures
        is_first_vine(pairs@, player, vines@, found),
{
    let n = pairs.len();
    let mut i: usize = 0;
    while i < n
        invariant
            n == pairs@.len(),
            i <= n,
            forall|j: int| 0 <= j < i ==> vine_of(#[trigger] pairs@[j], player, vines@) is None,
        decreases n - i,
    {
        let (first, second, intersecting) = pairs[i];
        if intersecting {
            let other = if first == player {
                second
            } else {
                first
            };
            if vines.contains(&other) {
                assert(vine_of(pairs@[i as int], player, vines@) == Some(other));
                return Some(other);
            }
        }
        i = i + 1;
    }
    None
}

} // verus!
