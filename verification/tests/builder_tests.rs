use doors::builder::{connect_rooms_with_doors, generate_k8s_floorplan};
use doors::floorplan::{FloorPlan, Room};
use doors::resolver::{ContainerRecord, OwnerReference, ResourceRecord, VolumeMountRecord};

fn simple_record(kind: &str, name: &str, namespace: &str) -> ResourceRecord {
    ResourceRecord {
        kind: Some(kind.to_string()),
        name: Some(name.to_string()),
        namespace: Some(namespace.to_string()),
        owner_references: Vec::new(),
        containers: Vec::new(),
    }
}

#[test]
fn test_connect_rooms_creates_opposite_doors_with_distinct_ids() {
    let mut plan = FloorPlan::new();
    let here = Room {
        id: "here".to_string(),
        name: "Here".to_string(),
    };
    let there = Room {
        id: "there".to_string(),
        name: "There".to_string(),
    };
    plan.add_room(here.clone());
    plan.add_room(there.clone());

    let mut door_id: usize = 0;
    connect_rooms_with_doors(&mut plan, &here, &there, &mut door_id).expect("both rooms exist");
    assert_eq!(door_id, 2);

    let out_here = plan.get_doors_and_connected_rooms("here").expect("here");
    assert_eq!(out_here.len(), 1);
    assert_eq!(out_here[0].0.id, "0");
    assert_eq!(out_here[0].0.name, "Door to There");
    assert_eq!(out_here[0].1.id, "there");

    let out_there = plan.get_doors_and_connected_rooms("there").expect("there");
    assert_eq!(out_there.len(), 1);
    assert_eq!(out_there[0].0.id, "1");
    assert_eq!(out_there[0].0.name, "Door to Here");
    assert_eq!(out_there[0].1.id, "here");

    assert_ne!(out_here[0].0.id, out_there[0].0.id);
}

#[test]
fn test_connect_rooms_missing_room_fails_closed() {
    let mut plan = FloorPlan::new();
    let here = Room {
        id: "here".to_string(),
        name: "Here".to_string(),
    };
    plan.add_room(here.clone());
    let ghost_town = Room {
        id: "ghost".to_string(),
        name: "Ghost".to_string(),
    };

    let mut door_id: usize = 0;
    assert!(connect_rooms_with_doors(&mut plan, &here, &ghost_town, &mut door_id).is_err());
    assert_eq!(door_id, 0);
    assert_eq!(plan.get_world_size(), (1, 0));
}

#[test]
fn test_generate_k8s_floorplan_builds_the_hierarchy() {
    let mut pod = simple_record("Pod", "pod1", "default");
    pod.owner_references.push(OwnerReference {
        kind: Some("ReplicaSet".to_string()),
        name: Some("rs1".to_string()),
    });
    pod.containers.push(ContainerRecord {
        name: Some("app".to_string()),
        volume_mounts: vec![VolumeMountRecord {
            name: Some("data".to_string()),
        }],
    });
    let items = vec![
        simple_record("ReplicaSet", "rs1", "default"),
        pod,
        simple_record("Service", "svc1", "default"),
    ];

    let plan = generate_k8s_floorplan(&items).expect("the build never fails");

    // the root and the namespace room
    assert_eq!(plan.get_room_by_id("cluster").expect("root").name, "Cluster");
    assert!(plan.get_room_by_id("default").is_ok());

    // one hallway per fixed kind
    for hallway in [
        "default-Deployments",
        "default-DaemonSets",
        "default-ReplicaSets",
        "default-Services",
        "default-ConfigMaps",
        "default-Pods",
    ] {
        assert!(plan.get_room_by_id(hallway).is_ok(), "missing {hallway}");
    }

    // resource, container and volume mount rooms
    assert!(plan.get_room_by_id("default-ReplicaSet-rs1").is_ok());
    assert!(plan.get_room_by_id("default-Pod-pod1").is_ok());
    assert!(plan.get_room_by_id("default-Pod-container-app").is_ok());
    assert!(plan.get_room_by_id("default-Pod-container-app-data").is_ok());
    assert!(plan.get_room_by_id("default-Service-svc1").is_ok());

    // the pod hangs off its hallway and its owner
    let pod_doors = plan
        .get_doors_and_connected_rooms("default-Pod-pod1")
        .expect("pod room");
    let mut targets: Vec<String> = pod_doors.iter().map(|(_, room)| room.id.clone()).collect();
    targets.sort();
    assert_eq!(
        targets,
        vec![
            "default-Pod-container-app".to_string(),
            "default-Pods".to_string(),
            "default-ReplicaSet-rs1".to_string(),
        ]
    );

    // no start room is set by ingestion
    assert!(plan.get_start_room().is_err());

    // door ids follow one shared counter: the i-th door carries id "i"
    let (_, door_count) = plan.get_world_size();
    let mut ids = Vec::new();
    let mut next_room = vec!["cluster".to_string()];
    let mut visited = Vec::new();
    while let Some(room_id) = next_room.pop() {
        if visited.contains(&room_id) {
            continue;
        }
        visited.push(room_id.clone());
        for (door, target) in plan.get_doors_and_connected_rooms(&room_id).unwrap() {
            ids.push(door.id.parse::<usize>().expect("decimal door id"));
            next_room.push(target.id);
        }
    }
    ids.sort_unstable();
    assert_eq!(ids, (0..door_count).collect::<Vec<usize>>());
}

#[test]
fn test_generated_doors_are_reciprocal_with_distinct_ids() {
    let items = vec![
        simple_record("Deployment", "web", "edge"),
        simple_record("Pod", "web-1", "edge"),
    ];
    let plan = generate_k8s_floorplan(&items).expect("the build never fails");

    let (room_count, door_count) = plan.get_world_size();
    assert!(room_count > 0);
    assert!(door_count > 0);
    assert_eq!(door_count % 2, 0);

    // every door leaving any room can be walked back through a different door
    for room_id in [
        "cluster",
        "edge",
        "edge-Deployments",
        "edge-Deployment-web",
        "edge-Pods",
        "edge-Pod-web-1",
    ] {
        let out = plan.get_doors_and_connected_rooms(room_id).expect("room");
        for (door, target) in &out {
            let back = plan
                .get_doors_and_connected_rooms(&target.id)
                .expect("target room");
            assert!(
                back.iter()
                    .any(|(bdoor, broom)| broom.id == *room_id && bdoor.id != door.id),
                "no distinct opposite door from {} back to {}",
                target.id,
                room_id
            );
        }
    }
}

#[test]
fn test_missing_owner_is_skipped_not_fatal() {
    let mut pod = simple_record("Pod", "orphan", "default");
    pod.owner_references.push(OwnerReference {
        kind: Some("ReplicaSet".to_string()),
        name: Some("never-built".to_string()),
    });
    let items = vec![pod];

    let plan = generate_k8s_floorplan(&items).expect("a missing owner is tolerated");
    let doors = plan
        .get_doors_and_connected_rooms("default-Pod-orphan")
        .expect("pod room");
    assert_eq!(doors.len(), 1);
    assert_eq!(doors[0].1.id, "default-Pods");
}
