use doors::floorplan::{Door, FloorPlan, FloorPlanError, Room};

#[test]
fn test_add_room_and_door() {
    let mut floor_plan = FloorPlan::new();

    let room1 = Room {
        id: "1".to_string(),
        name: "Room 1".to_string(),
    };
    let room2 = Room {
        id: "2".to_string(),
        name: "Room 2".to_string(),
    };

    let room1_index = floor_plan.add_room(room1);
    let room2_index = floor_plan.add_room(room2);

    let door = Door {
        id: "1".to_string(),
        name: "Door 1".to_string(),
    };
    floor_plan.add_door(room1_index, room2_index, door);

    let doors = floor_plan.get_doors(room1_index);
    assert_eq!(doors.len(), 1);
    assert_eq!(doors[0].name, "Door 1");

    if let Some(connected_room) = floor_plan.get_connected_room(room1_index, &doors[0].id) {
        assert_eq!(connected_room.name, "Room 2");
    } else {
        panic!("Connected room not found");
    }
}

#[test]
fn test_get_connected_room() {
    let mut floor_plan = FloorPlan::new();

    let room1 = Room {
        id: "1".to_string(),
        name: "Room 1".to_string(),
    };
    let room2 = Room {
        id: "2".to_string(),
        name: "Room 2".to_string(),
    };
    let room3 = Room {
        id: "3".to_string(),
        name: "Room 3".to_string(),
    };

    let room1_index = floor_plan.add_room(room1);
    let room2_index = floor_plan.add_room(room2);
    let room3_index = floor_plan.add_room(room3);

    let door1 = Door {
        id: "1".to_string(),
        name: "Door 1".to_string(),
    };
    let door2 = Door {
        id: "2".to_string(),
        name: "Door 2".to_string(),
    };

    floor_plan.add_door(room1_index, room2_index, door1);
    floor_plan.add_door(room2_index, room3_index, door2);

    let doors = floor_plan.get_doors(room2_index);
    assert_eq!(doors.len(), 1);

    if let Some(connected_room) = floor_plan.get_connected_room(room2_index, &doors[0].id) {
        assert_eq!(connected_room.name, "Room 3");
    } else {
        panic!("Connected room not found for door 1");
    }

    if let Some(connected_room) = floor_plan.get_connected_room(room2_index, &doors[0].id) {
        assert_eq!(connected_room.name, "Room 3");
    } else {
        panic!("Connected room not found for door 2");
    }
}

#[test]
fn test_get_room_by_id_absent_is_not_found() {
    let mut floor_plan = FloorPlan::new();
    floor_plan.add_room(Room {
        id: "present".to_string(),
        name: "Present".to_string(),
    });

    match floor_plan.get_room_by_id("absent") {
        Err(FloorPlanError::RoomDataNotFound(missing)) => assert_eq!(missing, "absent"),
        Err(_) => panic!("wrong error for an absent id"),
        Ok(_) => panic!("an absent id must never yield a room"),
    }

    let found = floor_plan.get_room_by_id("present").expect("present room");
    assert_eq!(found.name, "Present");
}

#[test]
fn test_get_doors_and_connected_rooms_pairs_in_order() {
    let mut floor_plan = FloorPlan::new();
    let a = floor_plan.add_room(Room {
        id: "a".to_string(),
        name: "A".to_string(),
    });
    let b = floor_plan.add_room(Room {
        id: "b".to_string(),
        name: "B".to_string(),
    });
    let c = floor_plan.add_room(Room {
        id: "c".to_string(),
        name: "C".to_string(),
    });

    floor_plan.add_door(
        a,
        b,
        Door {
            id: "0".to_string(),
            name: "to b".to_string(),
        },
    );
    floor_plan.add_door(
        b,
        c,
        Door {
            id: "1".to_string(),
            name: "to c".to_string(),
        },
    );
    floor_plan.add_door(
        a,
        c,
        Door {
            id: "2".to_string(),
            name: "to c direct".to_string(),
        },
    );

    let pairs = floor_plan
        .get_doors_and_connected_rooms("a")
        .expect("room a exists");
    assert_eq!(pairs.len(), 2);
    assert_eq!(pairs[0].0.id, "0");
    assert_eq!(pairs[0].1.id, "b");
    assert_eq!(pairs[1].0.id, "2");
    assert_eq!(pairs[1].1.id, "c");

    match floor_plan.get_doors_and_connected_rooms("zzz") {
        Err(FloorPlanError::RoomDataNotFound(missing)) => assert_eq!(missing, "zzz"),
        _ => panic!("an unknown room id must fail closed"),
    }
}

#[test]
fn test_set_start_room_and_world_size() {
    let mut floor_plan = FloorPlan::new();
    assert!(floor_plan.get_start_room().is_err());
    assert!(floor_plan.set_start_room("missing").is_err());

    let a = floor_plan.add_room(Room {
        id: "a".to_string(),
        name: "A".to_string(),
    });
    let b = floor_plan.add_room(Room {
        id: "b".to_string(),
        name: "B".to_string(),
    });
    floor_plan.add_door(
        a,
        b,
        Door {
            id: "0".to_string(),
            name: "to b".to_string(),
        },
    );

    assert_eq!(floor_plan.get_world_size(), (2, 1));
    floor_plan.set_start_room("b").expect("room b exists");
    assert_eq!(floor_plan.get_start_room().expect("start set").id, "b");
}

#[test]
fn test_structural_equality() {
    let mut one = FloorPlan::new();
    let mut two = FloorPlan::new();
    assert!(one == two);

    let a1 = one.add_room(Room {
        id: "a".to_string(),
        name: "A".to_string(),
    });
    assert!(one != two);

    let a2 = two.add_room(Room {
        id: "a".to_string(),
        name: "A".to_string(),
    });
    assert!(one == two);

    one.add_door(
        a1,
        a1,
        Door {
            id: "0".to_string(),
            name: "loop".to_string(),
        },
    );
    assert!(one != two);
    two.add_door(
        a2,
        a2,
        Door {
            id: "0".to_string(),
            name: "loop".to_string(),
        },
    );
    assert!(one == two);

    one.set_start_room("a").expect("room a exists");
    assert!(one != two);
    two.set_start_room("a").expect("room a exists");
    assert!(one == two);
}
