use doors::resolver::{
    get_containers, get_names, get_namespaces, get_owner_reference, get_volume_mounts,
    ContainerRecord, OwnerReference, ResourceRecord, VolumeMountRecord,
};

fn pod_record(
    name: &str,
    namespace: &str,
    owner: Option<(&str, &str)>,
    containers: Vec<&str>,
) -> ResourceRecord {
    record("Pod", name, namespace, owner, containers)
}

fn record(
    kind: &str,
    name: &str,
    namespace: &str,
    owner: Option<(&str, &str)>,
    containers: Vec<&str>,
) -> ResourceRecord {
    ResourceRecord {
        kind: Some(kind.to_string()),
        name: Some(name.to_string()),
        namespace: Some(namespace.to_string()),
        owner_references: owner
            .into_iter()
            .map(|(okind, oname)| OwnerReference {
                kind: Some(okind.to_string()),
                name: Some(oname.to_string()),
            })
            .collect(),
        containers: containers
            .into_iter()
            .map(|cname| ContainerRecord {
                name: Some(cname.to_string()),
                volume_mounts: Vec::new(),
            })
            .collect(),
    }
}

#[test]
fn test_get_names_with_owner_and_containers() {
    let items = vec![
        pod_record(
            "pod1",
            "default",
            Some(("ReplicaSet", "rs1")),
            vec!["container1", "container2"],
        ),
        pod_record("pod2", "default", None, vec!["container3"]),
    ];

    let result = get_names(&items, "Pod", "default");
    assert_eq!(result.len(), 2);

    let pod1 = &result[0];
    assert_eq!(pod1.name, "pod1");
    assert_eq!(pod1.kind, "Pod");
    assert!(pod1.owner.is_some());
    let owner = pod1.owner.as_ref().unwrap();
    assert_eq!(owner.name, "rs1");
    assert_eq!(owner.kind, "ReplicaSet");
    assert_eq!(pod1.containers, vec!["container1", "container2"]);

    let pod2 = &result[1];
    assert_eq!(pod2.name, "pod2");
    assert_eq!(pod2.kind, "Pod");
    assert!(pod2.owner.is_none());
    assert_eq!(pod2.containers, vec!["container3"]);
}

#[test]
fn test_get_names_without_owner_and_containers() {
    let items = vec![record("Service", "service1", "default", None, Vec::new())];

    let result = get_names(&items, "Service", "default");
    assert_eq!(result.len(), 1);

    let service = &result[0];
    assert_eq!(service.name, "service1");
    assert_eq!(service.kind, "Service");
    assert!(service.owner.is_none());
    assert!(service.containers.is_empty());
}

#[test]
fn test_get_names_filters_kind_and_namespace() {
    let items = vec![
        record("Pod", "keep", "default", None, Vec::new()),
        record("Pod", "other-space", "kube-system", None, Vec::new()),
        record("Service", "not-a-pod", "default", None, Vec::new()),
        ResourceRecord {
            kind: Some("Pod".to_string()),
            name: None,
            namespace: Some("default".to_string()),
            owner_references: Vec::new(),
            containers: Vec::new(),
        },
    ];

    let result = get_names(&items, "Pod", "default");
    assert_eq!(result.len(), 1);
    assert_eq!(result[0].name, "keep");
}

#[test]
fn test_get_namespaces_distinct_in_first_seen_order() {
    let items = vec![
        record("Pod", "a", "beta", None, Vec::new()),
        record("Pod", "b", "alpha", None, Vec::new()),
        record("Pod", "c", "beta", None, Vec::new()),
        ResourceRecord {
            kind: Some("Pod".to_string()),
            name: Some("d".to_string()),
            namespace: None,
            owner_references: Vec::new(),
            containers: Vec::new(),
        },
    ];

    let namespaces = get_namespaces(&items);
    assert_eq!(namespaces, vec!["beta", "alpha"]);
}

#[test]
fn test_get_owner_reference_needs_both_fields() {
    let with_both = record("Pod", "p", "default", Some(("ReplicaSet", "rs9")), Vec::new());
    assert_eq!(
        get_owner_reference(&with_both),
        Some(("ReplicaSet".to_string(), "rs9".to_string()))
    );

    let mut missing_name = record("Pod", "p", "default", None, Vec::new());
    missing_name.owner_references.push(OwnerReference {
        kind: Some("ReplicaSet".to_string()),
        name: None,
    });
    assert_eq!(get_owner_reference(&missing_name), None);

    let no_refs = record("Pod", "p", "default", None, Vec::new());
    assert_eq!(get_owner_reference(&no_refs), None);
}

#[test]
fn test_get_containers_and_volume_mounts() {
    let mut rec = record("Pod", "p", "default", None, Vec::new());
    rec.containers.push(ContainerRecord {
        name: Some("main".to_string()),
        volume_mounts: vec![
            VolumeMountRecord {
                name: Some("data".to_string()),
            },
            VolumeMountRecord { name: None },
            VolumeMountRecord {
                name: Some("logs".to_string()),
            },
        ],
    });
    rec.containers.push(ContainerRecord {
        name: None,
        volume_mounts: Vec::new(),
    });

    let containers = get_containers(&rec);
    assert_eq!(containers.len(), 1);
    let main = &containers[0];
    assert_eq!(main.name, "main");
    assert_eq!(main.kind, "Container");
    assert!(main.parent.is_none());
    assert_eq!(main.children.len(), 2);
    assert_eq!(main.children[0].name, "data");
    assert_eq!(main.children[0].kind, "VolumeMount");
    assert_eq!(main.children[1].name, "logs");

    let mounts = get_volume_mounts(&rec.containers[0]);
    assert_eq!(mounts.len(), 2);
    assert_eq!(mounts[0].name, "data");
    assert_eq!(mounts[1].name, "logs");
}
