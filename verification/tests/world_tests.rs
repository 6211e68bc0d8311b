use doors::generators::{generate_room2_floorplan, generate_room5_floorplan};
use doors::world::{at_start_room, enter_door, handle_floor_plan_changes, CurrentFloorPlan};

#[test]
fn test_merge_adopts_start_room() {
    let mut world = CurrentFloorPlan::default();
    let plan = generate_room5_floorplan().expect("the five-room world builds");

    let changed = handle_floor_plan_changes(&mut world, plan, 10);
    assert!(changed);
    assert_eq!(world.you_are_here.as_deref(), Some("0"));
    assert_eq!(world.you_were_here, None);
    assert_eq!(world.refreshed, 10);
    assert_eq!(world.modified, 10);
}

#[test]
fn test_merging_identical_plan_twice_keeps_current_room() {
    let mut world = CurrentFloorPlan::default();
    let plan = generate_room5_floorplan().expect("the five-room world builds");

    handle_floor_plan_changes(&mut world, plan.clone(), 5);
    enter_door(&mut world, "2".to_string());
    let here_before = world.you_are_here.clone();
    let there_before = world.you_were_here.clone();

    let changed = handle_floor_plan_changes(&mut world, plan.clone(), 9);
    assert!(!changed);
    assert_eq!(world.you_are_here, here_before);
    assert_eq!(world.you_were_here, there_before);
    assert_eq!(world.refreshed, 9);
    assert_eq!(world.modified, 5);

    let changed_again = handle_floor_plan_changes(&mut world, plan, 14);
    assert!(!changed_again);
    assert_eq!(world.you_are_here, here_before);
}

#[test]
fn test_merge_of_different_plan_keeps_position() {
    let mut world = CurrentFloorPlan::default();
    let five = generate_room5_floorplan().expect("the five-room world builds");
    handle_floor_plan_changes(&mut world, five, 1);
    enter_door(&mut world, "1".to_string());

    let two = generate_room2_floorplan().expect("the two-room world builds");
    let changed = handle_floor_plan_changes(&mut world, two, 2);
    assert!(changed);
    assert_eq!(world.you_are_here.as_deref(), Some("1"));
    assert_eq!(world.you_were_here.as_deref(), Some("0"));
    assert_eq!(world.modified, 2);
}

#[test]
fn test_enter_door_tracks_previous_room() {
    let mut world = CurrentFloorPlan::default();
    let plan = generate_room5_floorplan().expect("the five-room world builds");
    handle_floor_plan_changes(&mut world, plan, 0);

    enter_door(&mut world, "1".to_string());
    assert_eq!(world.you_are_here.as_deref(), Some("1"));
    assert_eq!(world.you_were_here.as_deref(), Some("0"));

    enter_door(&mut world, "2".to_string());
    assert_eq!(world.you_are_here.as_deref(), Some("2"));
    assert_eq!(world.you_were_here.as_deref(), Some("1"));
}

#[test]
fn test_at_start_room() {
    let mut world = CurrentFloorPlan::default();
    assert!(!at_start_room(&world));

    let plan = generate_room5_floorplan().expect("the five-room world builds");
    handle_floor_plan_changes(&mut world, plan, 0);
    assert!(at_start_room(&world));

    enter_door(&mut world, "1".to_string());
    assert!(!at_start_room(&world));

    enter_door(&mut world, "0".to_string());
    assert!(at_start_room(&world));
}
