//! The limits that the player controls put on what they are given.
use vstd::prelude::*;

verus! {

/// The fewest sprites a canvas is asked to show.
pub const MIN_SPRITES: u32 = 1;

/// The most sprites a canvas is asked to show.
pub const MAX_SPRITES: u32 = 10000;

/// The highest fit mode.
pub const MAX_FIT_MODE: u32 = 4;

/// `n` brought into `lo..=hi`.
pub open spec fn clamped(n: int, lo: int, hi: int) -> int {
    if n < lo {
        lo
    } else if n > hi {
        hi
    } else {
        n
    }
}

/// The sprite count that a request for `n` sprites sets: `n` within 1..=10000.
pub fn clamp_sprite_request(n: u32) -> (r: u32)
    ensures
        r as int == clamped(n as int, MIN_SPRITES as int, MAX_SPRITES as int),
{
    if n < MIN_SPRITES {
        MIN_SPRITES
    } else if n > MAX_SPRITES {
        MAX_SPRITES
    } else {
        n
    }
}

/// The sprite count after adding `n` sprites to `current`: their sum within 1..=10000.
pub fn sprites_after_add(current: u32, n: u32) -> (r: u32)
    requires
        current + n <= u32::MAX,
    ensures
        r as int == clamped(current + n, MIN_SPRITES as int, MAX_SPRITES as int),
{
    clamp_sprite_request(current + n)
}

/// The fit mode that a request for mode `fit` sets: at most 4.
pub fn clamp_fit_mode(fit: u32) -> (r: u32)
    ensures
        r == if fit <= MAX_FIT_MODE { fit } else { MAX_FIT_MODE },
{
    if fit <= MAX_FIT_MODE {
        fit
    } else {
        MAX_FIT_MODE
    }
}

/// A sprite request always lands in 1..=10000, and a request already in that range is
/// kept as it is; the fit mode is at most 4, and a mode up to 4 is kept.
pub proof fn lemma_player_limits(n: int, fit: int)
    ensures
        1 <= clamped(n, MIN_SPRITES as int, MAX_SPRITES as int) <= 10000,
        1 <= n <= 10000 ==> clamped(n, MIN_SPRITES as int, MAX_SPRITES as int) == n,
        n < 1 ==> clamped(n, MIN_SPRITES as int, MAX_SPRITES as int) == 1,
        n > 10000 ==> clamped(n, MIN_SPRITES as int, MAX_SPRITES as int) == 10000,
        MAX_FIT_MODE == 4,
{
}

} // verus!
