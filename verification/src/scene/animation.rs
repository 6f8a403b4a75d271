//! Playback state of an animation.
use vstd::prelude::*;

verus! {

/// Animation playback state.
#[derive(Clone, Copy, Debug, PartialEq, Eq, Structural)]
pub enum PlayState {
    Playing,
    Paused,
    Stopped,
}

impl PlayState {
    /// Only a playing animation advances.
    pub fn is_playing(&self) -> (r: bool)
        ensures
            r == (*self == PlayState::Playing),
    {
        match self {
            PlayState::Playing => true,
            _ => false,
        }
    }
}

} // verus!
