//! The two discrete signals that are watched for changes.

use vstd::prelude::*;

use crate::data::{Direction, HookState, Inputs};

verus! {

/// Whether the hook is actively engaged: extending or attached.
pub open spec fn hook_engaged(hs: HookState) -> bool {
    hs == HookState::Flying || hs == HookState::Grabbed
}

/// Tells whether a hook state counts as the hook being pressed.
pub fn hook_pressed(hs: HookState) -> (pressed: bool)
    ensures
        pressed == hook_engaged(hs),
{
    match hs {
        HookState::Retracted => false,
        HookState::Idle => false,
        HookState::RetractStart => false,
        HookState::Retracting => false,
        HookState::RetractEnd => false,
        HookState::Flying => true,
        HookState::Grabbed => true,
    }
}

/// What the change detector compares from one tick to the next.
#[derive(Clone, Copy, Debug, PartialEq, Eq, Structural)]
pub struct Signals {
    pub direction: Direction,
    pub hook: bool,
}

/// The signals carried by a player state.
pub open spec fn signals_of(state: Inputs) -> Signals {
    Signals { direction: state.direction, hook: hook_engaged(state.hook_state) }
}

/// Projects a player state onto its direction and hook signals.
pub fn project(state: &Inputs) -> (signals: Signals)
    ensures
        signals == signals_of(*state),
{
    Signals { direction: state.direction, hook: hook_pressed(state.hook_state) }
}

} // verus!
