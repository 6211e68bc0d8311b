use doors::generators::{
    create_doors, create_rooms, generate_room25_floorplan, generate_room2_floorplan,
    generate_room5_floorplan,
};

#[test]
fn test_fire_floorplan_event() {
    let plans = vec![generate_room2_floorplan().expect("the two-room world builds")];
    assert_eq!(plans.len(), 1);

    let plan = &plans[0];
    let start_room = plan.get_start_room().unwrap();
    assert_eq!(start_room.id, "0");

    let doors_and_rooms = plan.get_doors_and_connected_rooms(&start_room.id).unwrap();
    assert_eq!(doors_and_rooms.len(), 1);

    let other_room = &doors_and_rooms[0].1;
    assert_eq!(other_room.id, "1");
}

#[test]
fn test_room2_reciprocal_pair() {
    let plan = generate_room2_floorplan().expect("the two-room world builds");
    assert_eq!(plan.get_world_size(), (2, 2));

    let from_zero = plan.get_doors_and_connected_rooms("0").unwrap();
    assert_eq!(from_zero.len(), 1);
    assert_eq!(from_zero[0].0.id, "0");
    assert_eq!(from_zero[0].0.name, "Door 1");
    assert_eq!(from_zero[0].1.id, "1");
    assert_eq!(from_zero[0].1.name, "Room 2");

    let from_one = plan.get_doors_and_connected_rooms("1").unwrap();
    assert_eq!(from_one.len(), 1);
    assert_eq!(from_one[0].0.id, "1");
    assert_eq!(from_one[0].1.id, "0");
}

#[test]
fn test_room5_doors_from_room_two() {
    let plan = generate_room5_floorplan().expect("the five-room world builds");
    assert_eq!(plan.get_world_size(), (5, 8));
    assert_eq!(plan.get_start_room().unwrap().id, "0");

    let from_two = plan.get_doors_and_connected_rooms("2").unwrap();
    assert_eq!(from_two.len(), 2);
    assert_eq!(from_two[0].1.id, "1");
    assert_eq!(from_two[1].1.id, "4");
}

#[test]
fn test_room5_wiring() {
    let plan = generate_room5_floorplan().expect("the five-room world builds");

    let expected: [(&str, Vec<&str>); 5] = [
        ("0", vec!["1", "3"]),
        ("1", vec!["0", "2"]),
        ("2", vec!["1", "4"]),
        ("3", vec!["0"]),
        ("4", vec!["2"]),
    ];
    for (room, mut targets) in expected {
        let out = plan.get_doors_and_connected_rooms(room).unwrap();
        let mut got: Vec<String> = out.iter().map(|(_, r)| r.id.clone()).collect();
        got.sort();
        targets.sort();
        assert_eq!(got, targets, "room {room}");
    }
}

#[test]
fn test_room25_world() {
    let plan = generate_room25_floorplan();
    let (rooms, doors) = plan.get_world_size();
    assert_eq!(rooms, 25);
    assert!(doors > 0);
    assert_eq!(doors % 2, 0);
    assert_eq!(plan.get_start_room().unwrap().id, "0");
    assert_eq!(plan.get_room_by_id("24").unwrap().name, "Room 24");

    // every door can be walked back through a different door, and no two
    // doors of the world share an id
    let mut seen_ids = Vec::new();
    for i in 0..25usize {
        let id = i.to_string();
        let out = plan.get_doors_and_connected_rooms(&id).unwrap();
        for (door, target) in &out {
            assert_ne!(target.id, id, "a room never links to itself");
            assert!(!seen_ids.contains(&door.id), "door id {} repeats", door.id);
            seen_ids.push(door.id.clone());
            let back = plan.get_doors_and_connected_rooms(&target.id).unwrap();
            assert!(
                back.iter()
                    .any(|(bdoor, broom)| broom.id == id && bdoor.id != door.id),
                "no way back from {} to {}",
                target.id,
                id
            );
        }
    }
    assert_eq!(seen_ids.len(), doors);
}

#[test]
fn test_create_rooms_and_doors_numbering() {
    let rooms = create_rooms(3);
    assert_eq!(rooms.len(), 3);
    assert_eq!(rooms[0].id, "0");
    assert_eq!(rooms[0].name, "Room 1");
    assert_eq!(rooms[2].id, "2");
    assert_eq!(rooms[2].name, "Room 3");

    let doors = create_doors(12);
    assert_eq!(doors.len(), 12);
    assert_eq!(doors[9].id, "9");
    assert_eq!(doors[9].name, "Door 10");
    assert_eq!(doors[11].id, "11");
    assert_eq!(doors[11].name, "Door 12");
}
