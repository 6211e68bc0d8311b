use doors::generators::generate_room5_floorplan;
use doors::layout::RoomState;
use doors::transition::{
    fade_in, fade_out, game_state_input_events, room_change_curtain, start_room_transition,
    transition_frame, FadeEffect, GameState, CURTAIN_DURATION_MS, FADE_IN_DURATION_MS,
    FADE_OUT_DURATION_MS, OPACITY_FULL,
};
use doors::world::{enter_door, handle_floor_plan_changes, CurrentFloorPlan};

fn fresh_machine() -> (GameState, FadeEffect) {
    let mut state = GameState::InGame;
    let mut fade = FadeEffect::default();
    assert!(!fade.fading_out);
    assert_eq!((fade.alpha, fade.fade_elapsed, fade.curtain), (0, 0, 0));
    start_room_transition(&mut state, &mut fade);
    (state, fade)
}

#[test]
fn test_full_room_transition_takes_the_three_durations() {
    let (mut state, mut fade) = fresh_machine();
    assert_eq!(state, GameState::TransitioningOut);
    assert_eq!(fade.alpha, 0);

    let mut room_changes = 0;
    fade_out(&mut state, &mut fade, FADE_OUT_DURATION_MS, false);
    assert_eq!(state, GameState::RoomChange);
    assert_eq!(fade.alpha, OPACITY_FULL);
    room_changes += 1;

    room_change_curtain(&mut state, &mut fade, CURTAIN_DURATION_MS);
    assert_eq!(state, GameState::TransitioningIn);
    assert_eq!(fade.curtain, 0);

    fade_in(&mut state, &mut fade, FADE_IN_DURATION_MS);
    assert_eq!(state, GameState::InGame);
    assert_eq!(fade.alpha, 0);

    assert_eq!(room_changes, 1);
    assert_eq!(
        FADE_OUT_DURATION_MS + CURTAIN_DURATION_MS + FADE_IN_DURATION_MS,
        5500
    );
}

#[test]
fn test_transition_is_frame_rate_independent() {
    // drive one machine with many small frames and another with one big one
    let (mut state_small, mut fade_small) = fresh_machine();
    let (mut state_big, mut fade_big) = fresh_machine();

    for _ in 0..20 {
        fade_out(&mut state_small, &mut fade_small, FADE_OUT_DURATION_MS / 20, false);
    }
    fade_out(&mut state_big, &mut fade_big, FADE_OUT_DURATION_MS, false);
    assert_eq!(state_small, state_big);
    assert_eq!(fade_small, fade_big);

    // halfway through the ramp the opacity reads half
    let (mut state, mut fade) = fresh_machine();
    fade_out(&mut state, &mut fade, FADE_OUT_DURATION_MS / 2, false);
    assert_eq!(state, GameState::TransitioningOut);
    assert_eq!(fade.alpha, OPACITY_FULL / 2);
}

#[test]
fn test_entering_the_start_room_skips_the_fade_out() {
    let (mut state, mut fade) = fresh_machine();

    fade_out(&mut state, &mut fade, 16, true);
    assert_eq!(state, GameState::RoomChange);
    assert_eq!(fade.alpha, 0, "opacity never leaves zero before the room change");
    assert!(!fade.fading_out);
}

#[test]
fn test_curtain_accumulates_across_frames() {
    let (mut state, mut fade) = fresh_machine();
    fade_out(&mut state, &mut fade, FADE_OUT_DURATION_MS, false);

    room_change_curtain(&mut state, &mut fade, CURTAIN_DURATION_MS - 1);
    assert_eq!(state, GameState::RoomChange);
    assert_eq!(fade.curtain, CURTAIN_DURATION_MS - 1);

    room_change_curtain(&mut state, &mut fade, 1);
    assert_eq!(state, GameState::TransitioningIn);
    assert_eq!(fade.curtain, 0);
    assert_eq!(fade.fade_elapsed, 0);
}

#[test]
fn test_fade_in_ramps_back_to_play() {
    let (mut state, mut fade) = fresh_machine();
    fade_out(&mut state, &mut fade, FADE_OUT_DURATION_MS, false);
    room_change_curtain(&mut state, &mut fade, CURTAIN_DURATION_MS);

    fade_in(&mut state, &mut fade, FADE_IN_DURATION_MS / 4);
    assert_eq!(state, GameState::TransitioningIn);
    assert_eq!(fade.alpha, OPACITY_FULL - OPACITY_FULL / 4);

    fade_in(&mut state, &mut fade, FADE_IN_DURATION_MS);
    assert_eq!(state, GameState::InGame);
    assert_eq!(fade.alpha, 0);
}

#[test]
fn test_pause_toggles_only_between_play_and_pause() {
    let mut state = GameState::InGame;
    game_state_input_events(&mut state, true);
    assert_eq!(state, GameState::Paused);
    game_state_input_events(&mut state, true);
    assert_eq!(state, GameState::InGame);
    game_state_input_events(&mut state, false);
    assert_eq!(state, GameState::InGame);

    let mut mid_transition = GameState::RoomChange;
    game_state_input_events(&mut mid_transition, true);
    assert_eq!(mid_transition, GameState::RoomChange);
}

#[test]
fn test_layout_recomputes_exactly_once_per_transition() {
    let mut world = CurrentFloorPlan::default();
    let plan = generate_room5_floorplan().expect("the five-room world builds");
    handle_floor_plan_changes(&mut world, plan, 0);
    let mut room_state = RoomState::default();

    enter_door(&mut world, "1".to_string());
    let (mut state, mut fade) = fresh_machine();

    let mut recomputations = 0;
    let mut frames = 0;
    while state != GameState::InGame {
        if transition_frame(&mut state, &mut fade, &world, &mut room_state, 16) {
            recomputations += 1;
        }
        frames += 1;
        assert!(frames < 10_000, "the transition must finish");
    }

    assert_eq!(recomputations, 1, "layout output changes exactly once");
    assert_eq!(room_state.room_id.as_deref(), Some("1"));
    assert_eq!(room_state.doors.len(), 2);
}

