//! The transition state machine: sequences a room change through
//! fade-out, room change, and fade-in, and toggles the pause state.
//!
//! Opacity and the curtain timer accumulate real elapsed milliseconds, so
//! the sequence is frame-rate independent: splitting a span of time over
//! several frames drives the machine exactly as one frame of the whole
//! span would. Entering a door to the plan's start room skips the fade-out
//! ramp entirely, leaving the overlay transparent until the room change.

use vstd::prelude::*;

use crate::layout::{room_state_derived, update_doors, RoomState, MAX_LAYOUT_DOORS};
use crate::world::{at_start_room, spec_at_start_room, CurrentFloorPlan};

verus! {

/// The phases of play and of a room transition.
#[derive(Clone, Copy, Debug, PartialEq, Eq, Structural)]
pub enum GameState {
    InGame,
    Paused,
    TransitioningOut,
    RoomChange,
    TransitioningIn,
}

/// How long the overlay takes to reach full opacity, in milliseconds.
pub const FADE_OUT_DURATION_MS: u64 = 2000;

/// How long the curtain stays closed on a room change, in milliseconds.
pub const CURTAIN_DURATION_MS: u64 = 1500;

/// How long the overlay takes to turn transparent again, in milliseconds.
pub const FADE_IN_DURATION_MS: u64 = 2000;

/// Full opacity, in thousandths.
pub const OPACITY_FULL: u64 = 1000;

/// The fade overlay's state: its opacity in thousandths, how far the
/// current ramp and the curtain timer have come, and which way the fade
/// runs.
#[derive(Clone, Copy, Debug, PartialEq, Eq, Structural)]
pub struct FadeEffect {
    pub alpha: u64,
    pub fade_elapsed: u64,
    pub curtain: u64,
    pub fading_out: bool,
}

impl Default for FadeEffect {
    /// The overlay before any transition: transparent, both timers at
    /// zero, not fading out.
    fn default() -> (r: FadeEffect)
        ensures
            r == (FadeEffect { alpha: 0, fade_elapsed: 0, curtain: 0, fading_out: false }),
    {
        FadeEffect { alpha: 0, fade_elapsed: 0, curtain: 0, fading_out: false }
    }
}

/// Mathematical model of the machine: the phase together with the overlay.
#[verifier::ext_equal]
pub ghost struct MachineModel {
    pub state: GameState,
    pub alpha: int,
    pub fade_elapsed: int,
    pub curtain: int,
    pub fading_out: bool,
}

/// The model of a phase-and-overlay pair.
pub open spec fn machine_of(state: GameState, fade: FadeEffect) -> MachineModel {
    MachineModel {
        state,
        alpha: fade.alpha as int,
        fade_elapsed: fade.fade_elapsed as int,
        curtain: fade.curtain as int,
        fading_out: fade.fading_out,
    }
}

/// The machine's timers and opacity stay inside their ranges.
pub open spec fn machine_wf(m: MachineModel) -> bool {
    &&& 0 <= m.alpha <= OPACITY_FULL
    &&& 0 <= m.fade_elapsed <= FADE_OUT_DURATION_MS
    &&& 0 <= m.curtain <= CURTAIN_DURATION_MS
}

/// A machine freshly committed to a room change: the overlay transparent,
/// both timers at zero, the fade running out.
pub open spec fn fresh_transition(m: MachineModel) -> bool {
    &&& m.state == GameState::TransitioningOut
    &&& m.alpha == 0
    &&& m.fade_elapsed == 0
    &&& m.curtain == 0
    &&& m.fading_out
}

/// Commits the machine to a room change: the transition begins with a
/// transparent overlay and fresh timers. The world records the target room
/// before this runs.
pub fn start_room_transition(state: &mut GameState, fade: &mut FadeEffect)
    ensures
        fresh_transition(machine_of(*final(state), *final(fade))),
        machine_wf(machine_of(*final(state), *final(fade))),
{
    *state = GameState::TransitioningOut;
    *fade = FadeEffect { alpha: 0, fade_elapsed: 0, curtain: 0, fading_out: true };
}

/// One fade-out step: standing in the start room skips the ramp and closes
/// the curtain at once; otherwise the ramp accumulates the elapsed time,
/// the opacity follows it, and reaching the full duration advances the
/// machine to the room change.
pub open spec fn spec_fade_out(m: MachineModel, delta: int, at_start_room: bool) -> MachineModel {
    if at_start_room {
        MachineModel { state: GameState::RoomChange, fading_out: false, ..m }
    } else if m.fading_out {
        if delta >= FADE_OUT_DURATION_MS - m.fade_elapsed {
            MachineModel {
                state: GameState::RoomChange,
                alpha: OPACITY_FULL as int,
                fade_elapsed: FADE_OUT_DURATION_MS as int,
                fading_out: false,
                ..m
            }
        } else {
            MachineModel {
                alpha: (m.fade_elapsed + delta) * OPACITY_FULL / (FADE_OUT_DURATION_MS as int),
                fade_elapsed: m.fade_elapsed + delta,
                ..m
            }
        }
    } else {
        m
    }
}

/// Runs one fade-out step on the machine.
pub fn fade_out(state: &mut GameState, fade: &mut FadeEffect, delta_ms: u64, at_start_room: bool)
    requires
        machine_wf(machine_of(*old(state), *old(fade))),
    ensures
        machine_of(*final(state), *final(fade)) == spec_fade_out(
            machine_of(*old(state), *old(fade)),
            delta_ms as int,
            at_start_room,
        ),
        machine_wf(machine_of(*final(state), *final(fade))),
{
    if at_start_room {
        fade.fading_out = false;
        *state = GameState::RoomChange;
    } else if fade.fading_out {
        if delta_ms >= FADE_OUT_DURATION_MS - fade.fade_elapsed {
            fade.fade_elapsed = FADE_OUT_DURATION_MS;
            fade.alpha = OPACITY_FULL;
            fade.fading_out = false;
            *state = GameState::RoomChange;
        } else {
            fade.fade_elapsed = fade.fade_elapsed + delta_ms;
            fade.alpha = fade.fade_elapsed * OPACITY_FULL / FADE_OUT_DURATION_MS;
        }
    }
}

/// One curtain step: the timer accumulates the elapsed time, and reaching
/// the curtain duration advances the machine to the fade-in with the timer
/// and ramp reset.
pub open spec fn spec_room_change_curtain(m: MachineModel, delta: int) -> MachineModel {
    if delta >= CURTAIN_DURATION_MS - m.curtain {
        MachineModel { state: GameState::TransitioningIn, curtain: 0, fade_elapsed: 0, ..m }
    } else {
        MachineModel { curtain: m.curtain + delta, ..m }
    }
}

/// Runs one curtain step on the machine.
pub fn room_change_curtain(state: &mut GameState, fade: &mut FadeEffect, delta_ms: u64)
    requires
        machine_wf(machine_of(*old(state), *old(fade))),
    ensures
        machine_of(*final(state), *final(fade)) == spec_room_change_curtain(
            machine_of(*old(state), *old(fade)),
            delta_ms as int,
        ),
        machine_wf(machine_of(*final(state), *final(fade))),
{
    if delta_ms >= CURTAIN_DURATION_MS - fade.curtain {
        fade.curtain = 0;
        fade.fade_elapsed = 0;
        *state = GameState::TransitioningIn;
    } else {
        fade.curtain = fade.curtain + delta_ms;
    }
}

/// One fade-in step: while the fade is not running out, the ramp
/// accumulates the elapsed time, the opacity falls with it, and reaching
/// the full duration returns the machine to play with a transparent
/// overlay.
pub open spec fn spec_fade_in(m: MachineModel, delta: int) -> MachineModel {
    if !m.fading_out {
        if delta >= FADE_IN_DURATION_MS - m.fade_elapsed {
            MachineModel {
                state: GameState::InGame,
                alpha: 0,
                fade_elapsed: FADE_IN_DURATION_MS as int,
                ..m
            }
        } else {
            MachineModel {
                alpha: OPACITY_FULL - (m.fade_elapsed + delta) * OPACITY_FULL / (
                FADE_IN_DURATION_MS as int),
                fade_elapsed: m.fade_elapsed + delta,
                ..m
            }
        }
    } else {
        m
    }
}

/// Runs one fade-in step on the machine.
pub fn fade_in(state: &mut GameState, fade: &mut FadeEffect, delta_ms: u64)
    requires
        machine_wf(machine_of(*old(state), *old(fade))),
    ensures
        machine_of(*final(state), *final(fade)) == spec_fade_in(
            machine_of(*old(state), *old(fade)),
            delta_ms as int,
        ),
        machine_wf(machine_of(*final(state), *final(fade))),
{
    if !fade.fading_out {
        if delta_ms >= FADE_IN_DURATION_MS - fade.fade_elapsed {
            fade.fade_elapsed = FADE_IN_DURATION_MS;
            fade.alpha = 0;
            *state = GameState::InGame;
        } else {
            fade.fade_elapsed = fade.fade_elapsed + delta_ms;
            proof {
                assert(fade.fade_elapsed * OPACITY_FULL <= FADE_IN_DURATION_MS * OPACITY_FULL)
                    by (nonlinear_arith)
                    requires
                        0 <= fade.fade_elapsed <= FADE_IN_DURATION_MS,
                ;
            }
            fade.alpha = OPACITY_FULL - fade.fade_elapsed * OPACITY_FULL / FADE_IN_DURATION_MS;
        }
    }
}

/// Toggles the pause state: play pauses and pause resumes; the transition
/// phases ignore the input.
pub fn game_state_input_events(state: &mut GameState, pause_pressed: bool)
    ensures
        *final(state) == (if pause_pressed {
            match *old(state) {
                GameState::InGame => GameState::Paused,
                GameState::Paused => GameState::InGame,
                other => other,
            }
        } else {
            *old(state)
        }),
{
    if pause_pressed {
        match state {
            GameState::InGame => {
                *state = GameState::Paused;
            },
            GameState::Paused => {
                *state = GameState::InGame;
            },
            _ => {},
        }
    }
}

/// One step of the transition pipeline: each phase runs its own system and
/// the others leave the machine alone.
pub open spec fn spec_step(m: MachineModel, delta: int, at_start_room: bool) -> MachineModel {
    if m.state == GameState::TransitioningOut {
        spec_fade_out(m, delta, at_start_room)
    } else if m.state == GameState::RoomChange {
        spec_room_change_curtain(m, delta)
    } else if m.state == GameState::TransitioningIn {
        spec_fade_in(m, delta)
    } else {
        m
    }
}

/// The machine after a sequence of frames, each contributing its elapsed
/// time.
pub open spec fn spec_run(m: MachineModel, deltas: Seq<int>, at_start_room: bool) -> MachineModel
    decreases deltas.len(),
{
    if deltas.len() == 0 {
        m
    } else {
        spec_run(spec_step(m, deltas[0], at_start_room), deltas.drop_first(), at_start_room)
    }
}

/// Law: the fade-out ramp accumulates time, so two frames drive it exactly
/// as far as one frame of their combined span.
pub proof fn lemma_fade_out_accumulates(m: MachineModel, a: int, b: int)
    requires
        m.state == GameState::TransitioningOut,
        m.fading_out,
        0 <= m.fade_elapsed,
        0 <= a,
        0 <= b,
        m.fade_elapsed + a < FADE_OUT_DURATION_MS,
    ensures
        spec_fade_out(spec_fade_out(m, a, false), b, false) == spec_fade_out(m, a + b, false),
{
    assert(spec_fade_out(m, a, false).state == GameState::TransitioningOut);
    assert(spec_fade_out(spec_fade_out(m, a, false), b, false) =~= spec_fade_out(m, a + b, false));
}

/// Law: the curtain timer accumulates time the same way.
pub proof fn lemma_curtain_accumulates(m: MachineModel, a: int, b: int)
    requires
        0 <= m.curtain,
        0 <= a,
        0 <= b,
        m.curtain + a < CURTAIN_DURATION_MS,
    ensures
        spec_room_change_curtain(spec_room_change_curtain(m, a), b) == spec_room_change_curtain(
            m,
            a + b,
        ),
{
    assert(spec_room_change_curtain(spec_room_change_curtain(m, a), b) =~= spec_room_change_curtain(
        m,
        a + b,
    ));
}

/// Law: the fade-in ramp accumulates time the same way.
pub proof fn lemma_fade_in_accumulates(m: MachineModel, a: int, b: int)
    requires
        !m.fading_out,
        0 <= m.fade_elapsed,
        0 <= a,
        0 <= b,
        m.fade_elapsed + a < FADE_IN_DURATION_MS,
    ensures
        spec_fade_in(spec_fade_in(m, a), b) == spec_fade_in(m, a + b),
{
    assert(spec_fade_in(spec_fade_in(m, a), b) =~= spec_fade_in(m, a + b));
}

/// Law: entering a door to a room that is not the start room walks the
/// machine through the whole sequence: fade-out to the room change, the
/// curtain to the fade-in, and the fade-in back to play, one phase per
/// configured duration, so the round trip takes exactly the sum of the
/// three durations; the room change is visited exactly once, and play
/// resumes with a transparent overlay.
pub proof fn lemma_room_transition_sequence(m0: MachineModel)
    requires
        fresh_transition(m0),
    ensures
        spec_step(m0, FADE_OUT_DURATION_MS as int, false).state == GameState::RoomChange,
        spec_step(
            spec_step(m0, FADE_OUT_DURATION_MS as int, false),
            CURTAIN_DURATION_MS as int,
            false,
        ).state == GameState::TransitioningIn,
        spec_run(
            m0,
            seq![
                FADE_OUT_DURATION_MS as int,
                CURTAIN_DURATION_MS as int,
                FADE_IN_DURATION_MS as int,
            ],
            false,
        ).state == GameState::InGame,
        spec_run(
            m0,
            seq![
                FADE_OUT_DURATION_MS as int,
                CURTAIN_DURATION_MS as int,
                FADE_IN_DURATION_MS as int,
            ],
            false,
        ).alpha == 0,
{
    let deltas = seq![
        FADE_OUT_DURATION_MS as int,
        CURTAIN_DURATION_MS as int,
        FADE_IN_DURATION_MS as int,
    ];
    let m1 = spec_step(m0, deltas[0], false);
    let m2 = spec_step(m1, deltas[1], false);
    let m3 = spec_step(m2, deltas[2], false);
    assert(m1.state == GameState::RoomChange);
    assert(m2.state == GameState::TransitioningIn);
    assert(m3.state == GameState::InGame);
    assert(m3.alpha == 0);
    let rest1 = deltas.drop_first();
    let rest2 = rest1.drop_first();
    let rest3 = rest2.drop_first();
    assert(rest1[0] == deltas[1]);
    assert(rest2[0] == deltas[2]);
    assert(rest3.len() == 0);
    assert(spec_run(m0, deltas, false) == spec_run(m1, rest1, false));
    assert(spec_run(m1, rest1, false) == spec_run(m2, rest2, false));
    assert(spec_run(m2, rest2, false) == spec_run(m3, rest3, false));
    assert(spec_run(m3, rest3, false) == m3);
}

/// Law: entering a door to the start room skips the fade-out ramp: the
/// very next step closes the curtain, and the opacity never leaves zero
/// before the room change.
pub proof fn lemma_start_room_skips_fade(m0: MachineModel, delta: int)
    requires
        fresh_transition(m0),
    ensures
        spec_step(m0, delta, true).state == GameState::RoomChange,
        spec_step(m0, delta, true).alpha == 0,
{
}


/// One frame of the transition pipeline: the phase the machine stands in
/// runs its own system. The layout is rebuilt exactly once per room
/// change, on the first frame behind the closed curtain, bounding the
/// recomputation to one full rebuild per actual change. Reports whether
/// the layout was rebuilt this frame.
pub fn transition_frame(
    state: &mut GameState,
    fade: &mut FadeEffect,
    current_floorplan: &CurrentFloorPlan,
    room_state: &mut RoomState,
    delta_ms: u64,
) -> (recomputed: bool)
    requires
        machine_wf(machine_of(*old(state), *old(fade))),
        match current_floorplan@.floorplan {
            Some(p) => crate::floorplan::plan_wf(p) && p.edges.len() <= MAX_LAYOUT_DOORS,
            None => true,
        },
    ensures
        machine_of(*final(state), *final(fade)) == spec_step(
            machine_of(*old(state), *old(fade)),
            delta_ms as int,
            spec_at_start_room(current_floorplan@),
        ),
        machine_wf(machine_of(*final(state), *final(fade))),
        recomputed == (*old(state) == GameState::RoomChange && old(fade).curtain == 0),
        recomputed ==> room_state_derived(*final(room_state), current_floorplan@),
        !recomputed ==> *final(room_state) == *old(room_state),
{
    match *state {
        GameState::TransitioningOut => {
            let start_here = at_start_room(current_floorplan);
            fade_out(state, fade, delta_ms, start_here);
            false
        },
        GameState::RoomChange => {
            let entering = fade.curtain == 0;
            if entering {
                update_doors(current_floorplan, room_state);
            }
            room_change_curtain(state, fade, delta_ms);
            entering
        },
        GameState::TransitioningIn => {
            fade_in(state, fade, delta_ms);
            false
        },
        GameState::InGame => false,
        GameState::Paused => false,
    }
}


/// How often a sequence of frames moves the machine into the room change
/// phase from some other phase.
pub open spec fn room_change_entries(m: MachineModel, deltas: Seq<int>, at_start_room: bool) -> nat
    decreases deltas.len(),
{
    if deltas.len() == 0 {
        0
    } else {
        let next = spec_step(m, deltas[0], at_start_room);
        (if next.state == GameState::RoomChange && m.state != GameState::RoomChange {
            1nat
        } else {
            0nat
        }) + room_change_entries(next, deltas.drop_first(), at_start_room)
    }
}

/// Once the machine has left the fade-out phase it never enters the room
/// change phase again: the phases only move forward.
pub proof fn lemma_no_room_change_after_fade_out(
    m: MachineModel,
    deltas: Seq<int>,
    at_start_room: bool,
)
    requires
        m.state != GameState::TransitioningOut,
    ensures
        room_change_entries(m, deltas, at_start_room) == 0,
    decreases deltas.len(),
{
    if deltas.len() > 0 {
        let next = spec_step(m, deltas[0], at_start_room);
        lemma_no_room_change_after_fade_out(next, deltas.drop_first(), at_start_room);
    }
}

/// Law: over any sequence of frames whatsoever, the machine enters the
/// room change phase at most once, so the layout rebuild that phase gates
/// happens for at most one room change.
pub proof fn lemma_room_change_at_most_once(m: MachineModel, deltas: Seq<int>, at_start_room: bool)
    ensures
        room_change_entries(m, deltas, at_start_room) <= 1,
    decreases deltas.len(),
{
    if deltas.len() > 0 {
        if m.state == GameState::TransitioningOut {
            let next = spec_step(m, deltas[0], at_start_room);
            if next.state == GameState::RoomChange {
                lemma_no_room_change_after_fade_out(next, deltas.drop_first(), at_start_room);
            } else {
                lemma_room_change_at_most_once(next, deltas.drop_first(), at_start_room);
            }
        } else {
            lemma_no_room_change_after_fade_out(m, deltas, at_start_room);
        }
    }
}

} // verus!
