//! One-way platforms: bodies pass through them from below and stand on them
//! from above.

use vstd::prelude::*;

verus! {

/// Which collider of a contact pair is the platform.
#[derive(Clone, Copy, PartialEq, Eq, Structural, Debug)]
pub enum PlatformSide {
    /// The first collider is the platform: the pass-through normal points up.
    First,
    /// Only the second collider is a platform: the normal points down.
    Second,
}

/// The platform side of a contact pair, as [`platform_side`] finds it.
pub open spec fn platform_of(first_is_platform: bool, second_is_platform: bool) -> Option<PlatformSide> {
    if first_is_platform {
        Some(PlatformSide::First)
    } else if second_is_platform {
        Some(PlatformSide::Second)
    } else {
        None
    }
}

/// A contact pair has a platform side exactly when one of its colliders is
/// a platform; the first collider is the platform whenever it is one, and
/// the second only when the first is not.
pub proof fn lemma_platform_side_rules(first_is_platform: bool, second_is_platform: bool)
    ensures
        platform_of(first_is_platform, second_is_platform) is Some <==> (first_is_platform
            || second_is_platform),
        (platform_of(first_is_platform, second_is_platform) == Some(PlatformSide::First))
            <==> first_is_platform,
        (platform_of(first_is_platform, second_is_platform) == Some(PlatformSide::Second)) <==> (
        !first_is_platform && second_is_platform),
{
}

/// The platform of a contact pair, if either collider is one; the first
/// collider is checked first.
pub fn platform_side(first_is_platform: bool, second_is_platform: bool) -> (side: Option<
    PlatformSide,
>)
    ensures
        side == platform_of(first_is_platform, second_is_platform),
{
    if first_is_platform {
        Some(PlatformSide::First)
    } else if second_is_platform {
        Some(PlatformSide::Second)
    } else {
        None
    }
}

} // verus!
