use doors::floorplan::{Door, FloorPlan, Room};
use doors::generators::generate_room5_floorplan;
use doors::layout::{update_doors, update_room_state_with_doors, RoomState};
use doors::world::{enter_door, handle_floor_plan_changes, CurrentFloorPlan};

fn pair(door_id: &str, room_id: &str, room_name: &str) -> (Door, Room) {
    (
        Door {
            id: door_id.to_string(),
            name: format!("Door to {room_name}"),
        },
        Room {
            id: room_id.to_string(),
            name: room_name.to_string(),
        },
    )
}

#[test]
fn test_three_doors_make_a_four_unit_room() {
    let mut room_state = RoomState::default();
    let pairs = vec![
        pair("0", "a", "A"),
        pair("1", "b", "B"),
        pair("2", "c", "C"),
    ];

    update_room_state_with_doors(&mut room_state, &pairs);

    assert_eq!(room_state.floor_ceiling_width, 4 * 450);
    assert_eq!(room_state.wall_distance_from_center, 2 * 450);
    assert_eq!(room_state.doors.len(), 3);

    let xs: Vec<i64> = room_state.doors.iter().map(|d| d.position_x).collect();
    assert_eq!(xs, vec![-450, 0, 450]);
    assert!(xs[0] < xs[1] && xs[1] < xs[2]);

    let ys: Vec<i64> = room_state.doors.iter().map(|d| d.position_y).collect();
    assert_eq!(ys, vec![0, -150, 120]);

    assert_eq!(room_state.doors[1].room_id, "b");
    assert_eq!(room_state.doors[1].room_name, "B");
}

#[test]
fn test_vertical_offsets_wrap_past_the_list() {
    let mut room_state = RoomState::default();
    let mut pairs = Vec::new();
    for i in 0..12 {
        let door_id = i.to_string();
        let room_id = format!("r{i}");
        pairs.push(pair(&door_id, &room_id, &room_id));
    }

    update_room_state_with_doors(&mut room_state, &pairs);
    assert_eq!(room_state.doors.len(), 12);
    assert_eq!(room_state.doors[10].position_y, room_state.doors[0].position_y);
    assert_eq!(room_state.doors[11].position_y, room_state.doors[1].position_y);
}

#[test]
fn test_exit_door_is_marked() {
    let mut room_state = RoomState::default();
    room_state.previous_room_id = Some("b".to_string());
    let pairs = vec![pair("0", "a", "A"), pair("1", "b", "B")];

    update_room_state_with_doors(&mut room_state, &pairs);
    assert!(!room_state.doors[0].is_exit);
    assert!(room_state.doors[1].is_exit);
}

#[test]
fn test_update_doors_rebuilds_from_world_state() {
    let mut world = CurrentFloorPlan::default();
    let plan = generate_room5_floorplan().expect("the five-room world builds");
    handle_floor_plan_changes(&mut world, plan, 0);
    enter_door(&mut world, "2".to_string());

    let mut room_state = RoomState::default();
    update_doors(&world, &mut room_state);

    assert_eq!(room_state.room_id.as_deref(), Some("2"));
    assert_eq!(room_state.previous_room_id.as_deref(), Some("0"));
    assert_eq!(room_state.doors.len(), 2);
    assert_eq!(room_state.floor_ceiling_width, 3 * 450);
    assert_eq!(room_state.doors[0].room_id, "1");
    assert_eq!(room_state.doors[1].room_id, "4");
    assert!(!room_state.doors[0].is_exit);
    assert!(!room_state.doors[1].is_exit);

    // walking back marks the exit door
    enter_door(&mut world, "1".to_string());
    update_doors(&world, &mut room_state);
    assert_eq!(room_state.previous_room_id.as_deref(), Some("2"));
    let exits: Vec<bool> = room_state.doors.iter().map(|d| d.is_exit).collect();
    assert_eq!(exits, vec![false, true]);
}

#[test]
fn test_update_doors_fails_closed_on_unknown_room() {
    let mut world = CurrentFloorPlan::default();
    let plan = generate_room5_floorplan().expect("the five-room world builds");
    handle_floor_plan_changes(&mut world, plan, 0);
    enter_door(&mut world, "nowhere".to_string());

    let mut room_state = RoomState::default();
    let old_width = room_state.floor_ceiling_width;
    update_doors(&world, &mut room_state);

    assert_eq!(room_state.doors.len(), 0);
    assert_eq!(room_state.floor_ceiling_width, old_width);
    assert_eq!(room_state.room_id.as_deref(), Some("nowhere"));
}
