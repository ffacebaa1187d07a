//! The event type a driven state machine emits towards the runner.

use vstd::prelude::*;

verus! {

/// What the browser state machine surfaces: a fresh snapshot, or an
/// error message from the drive itself.
pub enum Event<State> {
    StateChanged(State),
    Error(String),
}

} // verus!
