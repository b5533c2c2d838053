use vstd::prelude::*;

verus! {

/// A sound cue produced by a collision, played by the surrounding
/// application at the end of the tick.
#[derive(Clone, Copy, Debug, PartialEq, Eq, Structural)]
pub enum AudioEvent {
    Bounce,
    Destroyed,
}

} // verus!
