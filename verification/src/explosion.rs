//! The frames of the sprite animations.

use vstd::prelude::*;

verus! {

/// The frame that follows `index` in an animation of `frames` frames that
/// runs round and round.
pub fn next_frame(index: usize, frames: usize) -> (next: usize)
    requires
        frames > 0,
        index < usize::MAX,
    ensures
        next == (index + 1) % (frames as int),
        next < frames,
{
    (index + 1) % frames
}

/// The frame that follows `index` in an explosion of `frames` frames, or
/// nothing where the explosion is over.
pub fn animate(index: usize, frames: usize) -> (next: Option<usize>)
    ensures
        next == if index + 1 < frames {
            Some((index + 1) as usize)
        } else {
            None
        },
{
    if index < frames && index + 1 < frames {
        Some(index + 1)
    } else {
        None
    }
}

} // verus!
