//! Door animation state machine.
//!
//! A door is `Closed`, `Opening`, `Open` or `Closing`; the three animated
//! states carry a countdown measured in scaled time units ([`SCALE`] units
//! equal one second, the same fixed-point convention the geometry uses).
//! Once per simulated tick the countdown is decreased by the elapsed time;
//! on reaching zero the door moves to the next phase.  An interact trigger
//! starts opening a closed door and smoothly reverses a closing one.

use vstd::prelude::*;
use crate::fixed::SCALE;

verus! {

/// Time a door spends animating between fully shut and fully open (0.5 s).
pub const DOOR_ANIM: i64 = 3200;

/// Time an opened door holds before it starts closing again (5 s).
pub const DOOR_HOLD: i64 = 32000;

#[derive(Clone, Copy, Debug, PartialEq, Eq, Structural)]
pub enum DoorState {
    Closed,
    Open(i64),
    Closing(i64),
    Opening(i64),
}

/// Countdowns never exceed the duration of their phase.
pub open spec fn door_wf(d: DoorState) -> bool {
    match d {
        DoorState::Closed => true,
        DoorState::Open(t) => 0 <= t <= DOOR_HOLD,
        DoorState::Closing(t) => 0 <= t <= DOOR_ANIM,
        DoorState::Opening(t) => 0 <= t <= DOOR_ANIM,
    }
}

/// The per-tick transition: count the active phase down by `dt`, and on
/// reaching zero move to the next phase of the cycle
/// `Opening -> Open -> Closing -> Closed`.
pub open spec fn spec_step_door(d: DoorState, dt: i64) -> DoorState {
    match d {
        DoorState::Closed => DoorState::Closed,
        DoorState::Closing(t) => if t - dt > 0 {
            DoorState::Closing((t - dt) as i64)
        } else {
            DoorState::Closed
        },
        DoorState::Opening(t) => if t - dt > 0 {
            DoorState::Opening((t - dt) as i64)
        } else {
            DoorState::Open(DOOR_HOLD)
        },
        DoorState::Open(t) => if t - dt > 0 {
            DoorState::Open((t - dt) as i64)
        } else {
            DoorState::Closing(DOOR_ANIM)
        },
    }
}

/// The interact trigger: open a closed door; reverse a closing door from
/// where it stands (so the animation resumes rather than restarts); leave
/// an opening or open door alone.
pub open spec fn spec_interact_door(d: DoorState) -> DoorState {
    match d {
        DoorState::Closed => DoorState::Opening(DOOR_ANIM),
        DoorState::Closing(t) => DoorState::Opening((DOOR_ANIM - t) as i64),
        _ => d,
    }
}

/// How much of the cell the door panel blocks, from `0` (fully open) to
/// `SCALE` (fully blocking), interpolated linearly while animating.
pub open spec fn spec_open_amount(d: DoorState) -> int {
    match d {
        DoorState::Closed => SCALE as int,
        DoorState::Open(_) => 0,
        DoorState::Closing(t) => SCALE - 2 * t,
        DoorState::Opening(t) => 2 * t,
    }
}

/// Advance one door by the elapsed time `dt`.
pub fn step_door(d: DoorState, dt: i64) -> (r: DoorState)
    requires
        door_wf(d),
        0 <= dt,
    ensures
        door_wf(r),
        r == spec_step_door(d, dt),
{
    match d {
        DoorState::Closed => DoorState::Closed,
        DoorState::Closing(t) => if t - dt > 0 {
            DoorState::Closing(t - dt)
        } else {
            DoorState::Closed
        },
        DoorState::Opening(t) => if t - dt > 0 {
            DoorState::Opening(t - dt)
        } else {
            DoorState::Open(DOOR_HOLD)
        },
        DoorState::Open(t) => if t - dt > 0 {
            DoorState::Open(t - dt)
        } else {
            DoorState::Closing(DOOR_ANIM)
        },
    }
}

/// Apply the interact trigger to one door.
pub fn interact_door(d: DoorState) -> (r: DoorState)
    requires
        door_wf(d),
    ensures
        door_wf(r),
        r == spec_interact_door(d),
{
    match d {
        DoorState::Closed => DoorState::Opening(DOOR_ANIM),
        DoorState::Closing(t) => DoorState::Opening(DOOR_ANIM - t),
        _ => d,
    }
}

/// The blocking amount the shape-intersection geometry consumes.
pub fn open_amount(d: DoorState) -> (r: i64)
    requires
        door_wf(d),
    ensures
        r == spec_open_amount(d),
        0 <= r <= SCALE,
{
    match d {
        DoorState::Closed => SCALE,
        DoorState::Open(_) => 0,
        DoorState::Closing(t) => SCALE - 2 * t,
        DoorState::Opening(t) => 2 * t,
    }
}

/// A door that starts fully shut and opens for half the animation time
/// twice ends up open and holding: two half-steps complete the animation.
pub proof fn lemma_door_opening_completes()
    ensures
        spec_step_door(
            spec_step_door(DoorState::Opening(DOOR_ANIM), (DOOR_ANIM / 2) as i64),
            (DOOR_ANIM / 2) as i64,
        ) == DoorState::Open(DOOR_HOLD),
{
}

/// A closed door fully blocks; an open door does not block at all; and the
/// blocking amount is always between the two extremes.
pub proof fn lemma_open_amount_range(d: DoorState)
    requires
        door_wf(d),
    ensures
        0 <= spec_open_amount(d) <= SCALE,
        d == DoorState::Closed ==> spec_open_amount(d) == SCALE,
        forall|t: i64| d == DoorState::Open(t) ==> spec_open_amount(d) == 0,
{
}

} // verus!
