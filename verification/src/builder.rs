//! The floor plan builder: turns resolved resource records into a graph.
//!
//! The build walks the resource hierarchy: one root room for the cluster,
//! one room per namespace, one grouping hallway per resource kind and
//! namespace, one room per resource, and nested rooms for containers and
//! volume mounts. Every connection is reciprocal: two directed doors whose
//! ids come from one monotonically increasing counter, a pair consuming two
//! consecutive values. The counter always equals the number of doors in the
//! plan under construction.

use vstd::prelude::*;
use vstd::string::StringExecFns;

use crate::floorplan::{
    has_room_id, plan_wf, doors_paired, find_room_index, lemma_find_room_from_properties,
    lemma_find_room_index_some, lemma_doors_paired_extend_pair, lemma_plan_extends_keeps_room,
    lemma_plan_extends_trans, lemma_plan_extends_refl, lemma_doors_paired_same_edges,
    lemma_find_room_index_stable, plan_extends, Door, DoorEdgeModel,
    DoorModel, FloorPlan, FloorPlanError, FloorPlanModel, FloorPlanResult, Room, RoomModel,
};
use crate::resolver::{
    distinct_namespaces, first_owner_reference, get_namespaces, get_owner_reference,
    matching_records, named_containers, named_volume_mount_names, record_matches, records_view,
    ContainerModel, ContainerRecord, ResourceRecord, ResourceRecordModel, VolumeMountModel,
    VolumeMountRecord,
};
use crate::text::{spec_decimal, usize_to_string, lemma_spec_decimal_injective};

verus! {

/// The display name of a door: where it leads.
pub open spec fn door_to_name(room_name: Seq<char>) -> Seq<char> {
    "Door to "@ + room_name
}

/// The id of the grouping hallway for one kind in one namespace.
pub open spec fn hallway_room_id(ns: Seq<char>, kind: Seq<char>) -> Seq<char> {
    ns + "-"@ + kind + "s"@
}

/// The display name of a grouping hallway.
pub open spec fn hallway_room_name(ns: Seq<char>, kind: Seq<char>) -> Seq<char> {
    ns + " "@ + kind + "s Hallway"@
}

/// The id of a resource's room, synthesized from its namespace, kind and
/// name. Owner references resolve to the same synthesized id.
pub open spec fn resource_room_id(ns: Seq<char>, kind: Seq<char>, name: Seq<char>) -> Seq<char> {
    ns + "-"@ + kind + "-"@ + name
}

/// The display name of a resource's room.
pub open spec fn resource_room_name(kind: Seq<char>, name: Seq<char>) -> Seq<char> {
    kind + " "@ + name
}

/// The id of a container's room under its resource.
pub open spec fn container_room_id(ns: Seq<char>, kind: Seq<char>, cname: Seq<char>) -> Seq<char> {
    ns + "-"@ + kind + "-container-"@ + cname
}

/// The display name of a container's room.
pub open spec fn container_room_name(cname: Seq<char>) -> Seq<char> {
    "container "@ + cname
}

/// The id of a volume mount's room under its container.
pub open spec fn volume_mount_room_id(
    ns: Seq<char>,
    kind: Seq<char>,
    cname: Seq<char>,
    vmname: Seq<char>,
) -> Seq<char> {
    container_room_id(ns, kind, cname) + "-"@ + vmname
}

/// The display name of a volume mount's room.
pub open spec fn volume_mount_room_name(vmname: Seq<char>) -> Seq<char> {
    "volume mount "@ + vmname
}

/// Builds the room for one namespace.
fn namespace_room(ns: &str) -> (r: Room)
    ensures
        r@.id == ns@,
        r@.name == ns@,
{
    Room { id: ns.to_owned(), name: ns.to_owned() }
}

/// Builds the grouping hallway room for one kind in one namespace.
fn hallway_room(namespace: &str, kind: &str) -> (r: Room)
    ensures
        r@.id == hallway_room_id(namespace@, kind@),
        r@.name == hallway_room_name(namespace@, kind@),
{
    let id = String::from_str(namespace).concat("-").concat(kind).concat("s");
    let name = String::from_str(namespace).concat(" ").concat(kind).concat("s Hallway");
    proof {
        assert(id@ =~= hallway_room_id(namespace@, kind@));
        assert(name@ =~= hallway_room_name(namespace@, kind@));
    }
    Room { id, name }
}

/// Builds the room for one resource.
fn resource_room(namespace: &str, kind: &str, name: &str) -> (r: Room)
    ensures
        r@.id == resource_room_id(namespace@, kind@, name@),
        r@.name == resource_room_name(kind@, name@),
{
    let id = String::from_str(namespace).concat("-").concat(kind).concat("-").concat(name);
    let display = String::from_str(kind).concat(" ").concat(name);
    proof {
        assert(id@ =~= resource_room_id(namespace@, kind@, name@));
        assert(display@ =~= resource_room_name(kind@, name@));
    }
    Room { id, name: display }
}

/// Builds the room for one container of a resource.
fn container_room(namespace: &str, kind: &str, cname: &str) -> (r: Room)
    ensures
        r@.id == container_room_id(namespace@, kind@, cname@),
        r@.name == container_room_name(cname@),
{
    let id = String::from_str(namespace).concat("-").concat(kind).concat("-container-").concat(
        cname,
    );
    let display = String::from_str("container ").concat(cname);
    proof {
        assert(id@ =~= container_room_id(namespace@, kind@, cname@));
        assert(display@ =~= container_room_name(cname@));
    }
    Room { id, name: display }
}

/// Builds the room for one volume mount of a container.
fn volume_mount_room(namespace: &str, kind: &str, cname: &str, vmname: &str) -> (r: Room)
    ensures
        r@.id == volume_mount_room_id(namespace@, kind@, cname@, vmname@),
        r@.name == volume_mount_room_name(vmname@),
{
    let id = String::from_str(namespace).concat("-").concat(kind).concat("-container-").concat(
        cname,
    ).concat("-").concat(vmname);
    let display = String::from_str("volume mount ").concat(vmname);
    proof {
        assert(id@ =~= volume_mount_room_id(namespace@, kind@, cname@, vmname@));
        assert(display@ =~= volume_mount_room_name(vmname@));
    }
    Room { id, name: display }
}

/// Connects two rooms reciprocally: one door each way, with the next two
/// counter values as ids and each door named after where it leads. Fails
/// with `RoomDataNotFound` and changes nothing when either room id is not
/// in the plan.
pub fn connect_rooms_with_doors(
    plan: &mut FloorPlan,
    room1: &Room,
    room2: &Room,
    door_id: &mut usize,
) -> (r: FloorPlanResult<()>)
    requires
        plan_wf(old(plan)@),
        *old(door_id) == old(plan)@.edges.len() || *old(door_id) + 2 <= usize::MAX,
    ensures
        plan_wf(final(plan)@),
        final(plan)@.rooms == old(plan)@.rooms,
        final(plan)@.start == old(plan)@.start,
        doors_paired(old(plan)@) ==> doors_paired(final(plan)@),
        *old(door_id) == old(plan)@.edges.len() ==> *final(door_id) == final(plan)@.edges.len(),
        door_ids_sequential(old(plan)@) && *old(door_id) == old(plan)@.edges.len()
            ==> door_ids_sequential(final(plan)@),
        match (find_room_index(old(plan)@, room1@.id), find_room_index(old(plan)@, room2@.id)) {
            (Some(i1), Some(i2)) => r is Ok && *final(door_id) == *old(door_id) + 2
                && final(plan)@.edges == old(plan)@.edges.push(
                DoorEdgeModel {
                    from: i1,
                    to: i2,
                    door: DoorModel {
                        id: spec_decimal(*old(door_id) as int),
                        name: door_to_name(room2@.name),
                    },
                },
            ).push(
                DoorEdgeModel {
                    from: i2,
                    to: i1,
                    door: DoorModel {
                        id: spec_decimal((*old(door_id) as int) + 1),
                        name: door_to_name(room1@.name),
                    },
                },
            ) && rooms_connected(final(plan)@, room1@.id, room2@.id),
            (None, _) => r matches Err(FloorPlanError::RoomDataNotFound(missing)) && missing@
                == room1@.id && final(plan)@.edges == old(plan)@.edges
                && *final(door_id) == *old(door_id),
            (Some(_), None) => r matches Err(FloorPlanError::RoomDataNotFound(missing)) && missing@
                == room2@.id && final(plan)@.edges == old(plan)@.edges
                && *final(door_id) == *old(door_id),
        },
{
    let i1 = match plan.get_room_index_by_id(room1.id.as_str()) {
        Ok(i) => i,
        Err(e) => {
            return Err(e);
        },
    };
    let i2 = match plan.get_room_index_by_id(room2.id.as_str()) {
        Ok(i) => i,
        Err(e) => {
            return Err(e);
        },
    };
    proof {
        lemma_find_room_from_properties(plan@.rooms, room1@.id, 0);
        lemma_find_room_from_properties(plan@.rooms, room2@.id, 0);
    }
    let first_id = *door_id;
    let door1 = Door {
        id: usize_to_string(first_id),
        name: String::from_str("Door to ").concat(room2.name.as_str()),
    };
    plan.add_door(i1, i2, door1);
    let sizes_mid = plan.get_world_size();
    let door2 = Door {
        id: usize_to_string(first_id + 1),
        name: String::from_str("Door to ").concat(room1.name.as_str()),
    };
    plan.add_door(i2, i1, door2);
    let sizes_end = plan.get_world_size();
    *door_id = first_id + 2;
    proof {
        let e1 = DoorEdgeModel {
            from: i1 as int,
            to: i2 as int,
            door: DoorModel {
                id: spec_decimal(first_id as int),
                name: door_to_name(room2@.name),
            },
        };
        let e2 = DoorEdgeModel {
            from: i2 as int,
            to: i1 as int,
            door: DoorModel {
                id: spec_decimal((first_id as int) + 1),
                name: door_to_name(room1@.name),
            },
        };
        assert(door_to_name(room2@.name) =~= "Door to "@ + room2@.name);
        assert(plan@.edges =~= old(plan)@.edges.push(e1).push(e2));
        lemma_spec_decimal_injective(first_id as int, (first_id as int) + 1);
        if doors_paired(old(plan)@) {
            lemma_doors_paired_extend_pair(old(plan)@, plan@, e1, e2);
        }
        let n = old(plan)@.edges.len() as int;
        assert(plan@.edges[n] == e1);
        assert(plan@.edges[n + 1] == e2);
        assert(find_room_index(plan@, room1@.id) == find_room_index(old(plan)@, room1@.id));
        assert(find_room_index(plan@, room2@.id) == find_room_index(old(plan)@, room2@.id));
        assert(rooms_connected(plan@, room1@.id, room2@.id));
        if door_ids_sequential(old(plan)@) && first_id == old(plan)@.edges.len() {
            assert forall|i: int| 0 <= i < plan@.edges.len() implies (
            #[trigger] plan@.edges[i]).door.id == spec_decimal(i) by {
                if i < n {
                    assert(plan@.edges[i] == old(plan)@.edges[i]);
                }
            }
        }
    }
    Ok(())
}

/// Two consecutive edges of the plan reciprocally connect the first room
/// carrying id `aid` to the first room carrying id `bid`: one door each
/// way, under two distinct door ids.
pub open spec fn rooms_connected(m: FloorPlanModel, aid: Seq<char>, bid: Seq<char>) -> bool {
    exists|p: int|
        #![trigger m.edges[p]]
        {
            &&& 0 <= p
            &&& p + 1 < m.edges.len()
            &&& m.edges[p + 1].from == m.edges[p].to
            &&& m.edges[p + 1].to == m.edges[p].from
            &&& m.edges[p + 1].door.id != m.edges[p].door.id
            &&& (Some(m.edges[p].from) == find_room_index(m, aid) && Some(m.edges[p].to)
                == find_room_index(m, bid)) || (Some(m.edges[p].from) == find_room_index(m, bid)
                && Some(m.edges[p].to) == find_room_index(m, aid))
        }
}

/// A reciprocal connection survives any extension of the plan: the edges
/// stay where they were, and the first rooms with the two ids stay first.
pub proof fn lemma_rooms_connected_extends(
    m1: FloorPlanModel,
    m0: FloorPlanModel,
    aid: Seq<char>,
    bid: Seq<char>,
)
    requires
        plan_extends(m1, m0),
        rooms_connected(m0, aid, bid),
    ensures
        rooms_connected(m1, aid, bid),
{
    let p = choose|p: int|
        #![trigger m0.edges[p]]
        {
            &&& 0 <= p
            &&& p + 1 < m0.edges.len()
            &&& m0.edges[p + 1].from == m0.edges[p].to
            &&& m0.edges[p + 1].to == m0.edges[p].from
            &&& m0.edges[p + 1].door.id != m0.edges[p].door.id
            &&& (Some(m0.edges[p].from) == find_room_index(m0, aid) && Some(m0.edges[p].to)
                == find_room_index(m0, bid)) || (Some(m0.edges[p].from) == find_room_index(m0, bid)
                && Some(m0.edges[p].to) == find_room_index(m0, aid))
        };
    lemma_find_room_index_stable(m1, m0, aid);
    lemma_find_room_index_stable(m1, m0, bid);
    assert(m1.edges.take(m0.edges.len() as int)[p] == m0.edges[p]);
    assert(m1.edges.take(m0.edges.len() as int)[p + 1] == m0.edges[p + 1]);
    assert(m1.edges[p] == m0.edges[p]);
    assert(m1.edges[p + 1] == m0.edges[p + 1]);
}

/// Every door id in the plan is the decimal rendering of its edge's
/// position: the build's one shared counter assigns ids "0", "1", and so
/// on, a reciprocal pair consuming two consecutive values.
pub open spec fn door_ids_sequential(m: FloorPlanModel) -> bool {
    forall|i: int| 0 <= i < m.edges.len() ==> (#[trigger] m.edges[i]).door.id == spec_decimal(i)
}

/// Law: sequentially counted door ids never collide, so every door of the
/// build carries a unique id.
pub proof fn lemma_sequential_door_ids_distinct(m: FloorPlanModel)
    requires
        door_ids_sequential(m),
    ensures
        forall|i: int, j: int|
            #![trigger m.edges[i], m.edges[j]]
            0 <= i < j < m.edges.len() ==> m.edges[i].door.id != m.edges[j].door.id,
{
    assert forall|i: int, j: int|
        #![trigger m.edges[i], m.edges[j]]
        0 <= i < j < m.edges.len() implies m.edges[i].door.id != m.edges[j].door.id by {
        lemma_spec_decimal_injective(i, j);
    }
}

/// Everything the build owes one named container of a resource: the
/// container's room, reciprocally connected to the resource's room, and
/// below it one reciprocally connected room per named volume mount.
pub open spec fn container_built(
    m: FloorPlanModel,
    cm: ContainerModel,
    ns: Seq<char>,
    kind: Seq<char>,
    rid: Seq<char>,
) -> bool {
    let cid = container_room_id(ns, kind, cm.name.unwrap());
    &&& has_room_id(m, cid)
    &&& rooms_connected(m, cid, rid)
    &&& forall|v: int|
        0 <= v < named_volume_mount_names(cm.volume_mounts).len() ==> has_room_id(
            m,
            volume_mount_room_id(
                ns,
                kind,
                cm.name.unwrap(),
                #[trigger] named_volume_mount_names(cm.volume_mounts)[v],
            ),
        ) && rooms_connected(
            m,
            volume_mount_room_id(
                ns,
                kind,
                cm.name.unwrap(),
                named_volume_mount_names(cm.volume_mounts)[v],
            ),
            cid,
        )
}

/// Everything the build owes one matching named record under its enclosing
/// room: the resource's room, reciprocally connected to the encloser, and
/// its named containers and volume mounts built below it.
pub open spec fn resource_built(
    m: FloorPlanModel,
    rec: ResourceRecordModel,
    ns: Seq<char>,
    kind: Seq<char>,
    outer_id: Seq<char>,
) -> bool {
    let rid = resource_room_id(ns, kind, rec.name.unwrap());
    &&& has_room_id(m, rid)
    &&& rooms_connected(m, rid, outer_id)
    &&& forall|c: int|
        0 <= c < named_containers(rec.containers).len() ==> container_built(
            m,
            #[trigger] named_containers(rec.containers)[c],
            ns,
            kind,
            rid,
        )
}

/// A record's owner link: when the room synthesized from its first owner
/// reference already stood in the plan as the pass began, the record's
/// room is reciprocally connected to it. A missing owner is skipped, never
/// fatal.
pub open spec fn owner_linked(
    m: FloorPlanModel,
    entry: FloorPlanModel,
    rec: ResourceRecordModel,
    ns: Seq<char>,
    kind: Seq<char>,
) -> bool {
    match first_owner_reference(rec.owner_references) {
        Some(o) => has_room_id(entry, resource_room_id(ns, o.0, o.1)) ==> rooms_connected(
            m,
            resource_room_id(ns, kind, rec.name.unwrap()),
            resource_room_id(ns, o.0, o.1),
        ),
        None => true,
    }
}

/// Every matching named record of the document is fully built under the
/// enclosing room.
pub open spec fn matching_resources_built(
    m: FloorPlanModel,
    recs: Seq<ResourceRecordModel>,
    ns: Seq<char>,
    kind: Seq<char>,
    outer_id: Seq<char>,
) -> bool {
    forall|k: int|
        0 <= k < matching_records(recs, kind, ns).len() ==> resource_built(
            m,
            #[trigger] matching_records(recs, kind, ns)[k],
            ns,
            kind,
            outer_id,
        )
}

/// Every matching named record has its owner link, measured against the
/// rooms present as the pass began.
pub open spec fn matching_owners_linked(
    m: FloorPlanModel,
    entry: FloorPlanModel,
    recs: Seq<ResourceRecordModel>,
    ns: Seq<char>,
    kind: Seq<char>,
) -> bool {
    forall|k: int|
        0 <= k < matching_records(recs, kind, ns).len() ==> owner_linked(
            m,
            entry,
            #[trigger] matching_records(recs, kind, ns)[k],
            ns,
            kind,
        )
}

/// Sequential door ids survive any change that leaves the edges alone.
proof fn lemma_door_ids_sequential_same_edges(m0: FloorPlanModel, m1: FloorPlanModel)
    requires
        door_ids_sequential(m0),
        m1.edges == m0.edges,
    ensures
        door_ids_sequential(m1),
{
    assert forall|i: int| 0 <= i < m1.edges.len() implies (#[trigger] m1.edges[i]).door.id
        == spec_decimal(i) by {
        assert(m1.edges[i] == m0.edges[i]);
    }
}

/// Extending a plan loses none of a container's rooms or connections.
proof fn lemma_keep_container_built(
    m1: FloorPlanModel,
    m0: FloorPlanModel,
    cm: ContainerModel,
    ns: Seq<char>,
    kind: Seq<char>,
    rid: Seq<char>,
)
    requires
        plan_extends(m1, m0),
        container_built(m0, cm, ns, kind, rid),
    ensures
        container_built(m1, cm, ns, kind, rid),
{
    let cid = container_room_id(ns, kind, cm.name.unwrap());
    lemma_plan_extends_keeps_room(m1, m0, cid);
    lemma_rooms_connected_extends(m1, m0, cid, rid);
    assert forall|v: int| 0 <= v < named_volume_mount_names(cm.volume_mounts).len() implies
        has_room_id(
            m1,
            volume_mount_room_id(
                ns,
                kind,
                cm.name.unwrap(),
                #[trigger] named_volume_mount_names(cm.volume_mounts)[v],
            ),
        ) && rooms_connected(
        m1,
        volume_mount_room_id(
            ns,
            kind,
            cm.name.unwrap(),
            named_volume_mount_names(cm.volume_mounts)[v],
        ),
        cid,
    ) by {
        let vid = volume_mount_room_id(
            ns,
            kind,
            cm.name.unwrap(),
            named_volume_mount_names(cm.volume_mounts)[v],
        );
        lemma_plan_extends_keeps_room(m1, m0, vid);
        lemma_rooms_connected_extends(m1, m0, vid, cid);
    }
}

/// Extending a plan loses none of a record's rooms or connections.
proof fn lemma_keep_resource_built(
    m1: FloorPlanModel,
    m0: FloorPlanModel,
    rec: ResourceRecordModel,
    ns: Seq<char>,
    kind: Seq<char>,
    outer_id: Seq<char>,
)
    requires
        plan_extends(m1, m0),
        resource_built(m0, rec, ns, kind, outer_id),
    ensures
        resource_built(m1, rec, ns, kind, outer_id),
{
    let rid = resource_room_id(ns, kind, rec.name.unwrap());
    lemma_plan_extends_keeps_room(m1, m0, rid);
    lemma_rooms_connected_extends(m1, m0, rid, outer_id);
    assert forall|c: int| 0 <= c < named_containers(rec.containers).len() implies container_built(
        m1,
        #[trigger] named_containers(rec.containers)[c],
        ns,
        kind,
        rid,
    ) by {
        lemma_keep_container_built(m1, m0, named_containers(rec.containers)[c], ns, kind, rid);
    }
}

/// Extending a plan loses no owner link.
proof fn lemma_keep_owner_linked(
    m1: FloorPlanModel,
    m0: FloorPlanModel,
    entry: FloorPlanModel,
    rec: ResourceRecordModel,
    ns: Seq<char>,
    kind: Seq<char>,
)
    requires
        plan_extends(m1, m0),
        owner_linked(m0, entry, rec, ns, kind),
    ensures
        owner_linked(m1, entry, rec, ns, kind),
{
    match first_owner_reference(rec.owner_references) {
        Some(o) => {
            if has_room_id(entry, resource_room_id(ns, o.0, o.1)) {
                lemma_rooms_connected_extends(
                    m1,
                    m0,
                    resource_room_id(ns, kind, rec.name.unwrap()),
                    resource_room_id(ns, o.0, o.1),
                );
            }
        },
        None => {},
    }
}

/// Extending a plan keeps every matching record built.
proof fn lemma_keep_matching_resources_built(
    m1: FloorPlanModel,
    m0: FloorPlanModel,
    recs: Seq<ResourceRecordModel>,
    ns: Seq<char>,
    kind: Seq<char>,
    outer_id: Seq<char>,
)
    requires
        plan_extends(m1, m0),
        matching_resources_built(m0, recs, ns, kind, outer_id),
    ensures
        matching_resources_built(m1, recs, ns, kind, outer_id),
{
    assert forall|k: int| 0 <= k < matching_records(recs, kind, ns).len() implies resource_built(
        m1,
        #[trigger] matching_records(recs, kind, ns)[k],
        ns,
        kind,
        outer_id,
    ) by {
        lemma_keep_resource_built(m1, m0, matching_records(recs, kind, ns)[k], ns, kind, outer_id);
    }
}

/// Extending a plan keeps every owner link.
proof fn lemma_keep_matching_owners_linked(
    m1: FloorPlanModel,
    m0: FloorPlanModel,
    entry: FloorPlanModel,
    recs: Seq<ResourceRecordModel>,
    ns: Seq<char>,
    kind: Seq<char>,
)
    requires
        plan_extends(m1, m0),
        matching_owners_linked(m0, entry, recs, ns, kind),
    ensures
        matching_owners_linked(m1, entry, recs, ns, kind),
{
    assert forall|k: int| 0 <= k < matching_records(recs, kind, ns).len() implies owner_linked(
        m1,
        entry,
        #[trigger] matching_records(recs, kind, ns)[k],
        ns,
        kind,
    ) by {
        lemma_keep_owner_linked(m1, m0, entry, matching_records(recs, kind, ns)[k], ns, kind);
    }
}

/// One more matching record is covered once it is built.
proof fn lemma_matching_resources_push(
    m: FloorPlanModel,
    recs0: Seq<ResourceRecordModel>,
    recs1: Seq<ResourceRecordModel>,
    rec: ResourceRecordModel,
    ns: Seq<char>,
    kind: Seq<char>,
    outer_id: Seq<char>,
)
    requires
        matching_records(recs1, kind, ns) == matching_records(recs0, kind, ns).push(rec),
        matching_resources_built(m, recs0, ns, kind, outer_id),
        resource_built(m, rec, ns, kind, outer_id),
    ensures
        matching_resources_built(m, recs1, ns, kind, outer_id),
{
    let list0 = matching_records(recs0, kind, ns);
    let list1 = matching_records(recs1, kind, ns);
    assert forall|k: int| 0 <= k < list1.len() implies resource_built(
        m,
        #[trigger] list1[k],
        ns,
        kind,
        outer_id,
    ) by {
        if k < list0.len() {
            assert(list1[k] == list0[k]);
        } else {
            assert(list1[k] == rec);
        }
    }
}

/// One more matching record is covered once its owner link holds.
proof fn lemma_matching_owners_push(
    m: FloorPlanModel,
    entry: FloorPlanModel,
    recs0: Seq<ResourceRecordModel>,
    recs1: Seq<ResourceRecordModel>,
    rec: ResourceRecordModel,
    ns: Seq<char>,
    kind: Seq<char>,
)
    requires
        matching_records(recs1, kind, ns) == matching_records(recs0, kind, ns).push(rec),
        matching_owners_linked(m, entry, recs0, ns, kind),
        owner_linked(m, entry, rec, ns, kind),
    ensures
        matching_owners_linked(m, entry, recs1, ns, kind),
{
    let list0 = matching_records(recs0, kind, ns);
    let list1 = matching_records(recs1, kind, ns);
    assert forall|k: int| 0 <= k < list1.len() implies owner_linked(
        m,
        entry,
        #[trigger] list1[k],
        ns,
        kind,
    ) by {
        if k < list0.len() {
            assert(list1[k] == list0[k]);
        } else {
            assert(list1[k] == rec);
        }
    }
}

/// Owner links measured against a larger entry plan hold against any plan
/// it extends: fewer rooms at entry only weaken the premise.
proof fn lemma_owners_linked_weaken_entry(
    m: FloorPlanModel,
    entry_small: FloorPlanModel,
    entry_big: FloorPlanModel,
    recs: Seq<ResourceRecordModel>,
    ns: Seq<char>,
    kind: Seq<char>,
)
    requires
        plan_extends(entry_big, entry_small),
        matching_owners_linked(m, entry_big, recs, ns, kind),
    ensures
        matching_owners_linked(m, entry_small, recs, ns, kind),
{
    assert forall|k: int| 0 <= k < matching_records(recs, kind, ns).len() implies owner_linked(
        m,
        entry_small,
        #[trigger] matching_records(recs, kind, ns)[k],
        ns,
        kind,
    ) by {
        let rec = matching_records(recs, kind, ns)[k];
        assert(owner_linked(m, entry_big, rec, ns, kind));
        match first_owner_reference(rec.owner_references) {
            Some(o) => {
                if has_room_id(entry_small, resource_room_id(ns, o.0, o.1)) {
                    lemma_plan_extends_keeps_room(
                        entry_big,
                        entry_small,
                        resource_room_id(ns, o.0, o.1),
                    );
                }
            },
            None => {},
        }
    }
}

/// A plan grown by one room extends the old plan.
proof fn lemma_extends_push_room(m0: FloorPlanModel, m1: FloorPlanModel)
    requires
        m1.rooms.len() == m0.rooms.len() + 1,
        m1.rooms.take(m0.rooms.len() as int) =~= m0.rooms,
        m1.edges == m0.edges,
        m1.start == m0.start,
    ensures
        plan_extends(m1, m0),
{
    assert(m1.edges.take(m0.edges.len() as int) =~= m0.edges);
}

/// Extending the plan keeps every fact gathered so far about the record in
/// hand: the rooms above it, their connections, its owner link, the
/// already finished records, and the container and volume-mount prefixes.
proof fn keep_record_facts(
    m1: FloorPlanModel,
    m0: FloorPlanModel,
    entry: FloorPlanModel,
    rec: ResourceRecordModel,
    items_prefix: Seq<ResourceRecord>,
    ns: Seq<char>,
    kind: Seq<char>,
    outer_id: Seq<char>,
    rid: Seq<char>,
    cid: Seq<char>,
    cms: Seq<ContainerModel>,
    c: int,
    vms: Seq<VolumeMountModel>,
    v: int,
    cm: ContainerModel,
)
    requires
        plan_extends(m1, m0),
        has_room_id(m0, outer_id),
        has_room_id(m0, rid),
        has_room_id(m0, cid),
        rooms_connected(m0, rid, outer_id),
        rooms_connected(m0, cid, rid),
        owner_linked(m0, entry, rec, ns, kind),
        matching_resources_built(m0, records_view(items_prefix), ns, kind, outer_id),
        matching_owners_linked(m0, entry, records_view(items_prefix), ns, kind),
        forall|ci: int|
            0 <= ci < named_containers(cms.take(c)).len() ==> container_built(
                m0,
                #[trigger] named_containers(cms.take(c))[ci],
                ns,
                kind,
                rid,
            ),
        forall|vi: int|
            0 <= vi < named_volume_mount_names(vms.take(v)).len() ==> has_room_id(
                m0,
                volume_mount_room_id(
                    ns,
                    kind,
                    cm.name.unwrap(),
                    #[trigger] named_volume_mount_names(vms.take(v))[vi],
                ),
            ) && rooms_connected(
                m0,
                volume_mount_room_id(
                    ns,
                    kind,
                    cm.name.unwrap(),
                    named_volume_mount_names(vms.take(v))[vi],
                ),
                cid,
            ),
    ensures
        has_room_id(m1, outer_id),
        has_room_id(m1, rid),
        has_room_id(m1, cid),
        rooms_connected(m1, rid, outer_id),
        rooms_connected(m1, cid, rid),
        owner_linked(m1, entry, rec, ns, kind),
        matching_resources_built(m1, records_view(items_prefix), ns, kind, outer_id),
        matching_owners_linked(m1, entry, records_view(items_prefix), ns, kind),
        forall|ci: int|
            0 <= ci < named_containers(cms.take(c)).len() ==> container_built(
                m1,
                #[trigger] named_containers(cms.take(c))[ci],
                ns,
                kind,
                rid,
            ),
        forall|vi: int|
            0 <= vi < named_volume_mount_names(vms.take(v)).len() ==> has_room_id(
                m1,
                volume_mount_room_id(
                    ns,
                    kind,
                    cm.name.unwrap(),
                    #[trigger] named_volume_mount_names(vms.take(v))[vi],
                ),
            ) && rooms_connected(
                m1,
                volume_mount_room_id(
                    ns,
                    kind,
                    cm.name.unwrap(),
                    named_volume_mount_names(vms.take(v))[vi],
                ),
                cid,
            ),
{
    lemma_plan_extends_keeps_room(m1, m0, outer_id);
    lemma_plan_extends_keeps_room(m1, m0, rid);
    lemma_plan_extends_keeps_room(m1, m0, cid);
    lemma_rooms_connected_extends(m1, m0, rid, outer_id);
    lemma_rooms_connected_extends(m1, m0, cid, rid);
    lemma_keep_owner_linked(m1, m0, entry, rec, ns, kind);
    lemma_keep_matching_resources_built(m1, m0, records_view(items_prefix), ns, kind, outer_id);
    lemma_keep_matching_owners_linked(m1, m0, entry, records_view(items_prefix), ns, kind);
    assert forall|ci: int| 0 <= ci < named_containers(cms.take(c)).len() implies container_built(
        m1,
        #[trigger] named_containers(cms.take(c))[ci],
        ns,
        kind,
        rid,
    ) by {
        lemma_keep_container_built(m1, m0, named_containers(cms.take(c))[ci], ns, kind, rid);
    }
    assert forall|vi: int| 0 <= vi < named_volume_mount_names(vms.take(v)).len() implies
        has_room_id(
            m1,
            volume_mount_room_id(
                ns,
                kind,
                cm.name.unwrap(),
                #[trigger] named_volume_mount_names(vms.take(v))[vi],
            ),
        ) && rooms_connected(
        m1,
        volume_mount_room_id(ns, kind, cm.name.unwrap(), named_volume_mount_names(vms.take(v))[vi]),
        cid,
    ) by {
        let vid = volume_mount_room_id(
            ns,
            kind,
            cm.name.unwrap(),
            named_volume_mount_names(vms.take(v))[vi],
        );
        lemma_plan_extends_keeps_room(m1, m0, vid);
        lemma_rooms_connected_extends(m1, m0, vid, cid);
    }
}

/// Adds one room per matching named record, reciprocally connected to the
/// enclosing room; a second reciprocal connection to the resource's owner
/// room where that room already exists (a missing owner is skipped); and
/// nested reciprocally connected rooms for the record's named containers
/// and their volume mounts.
pub fn add_rooms(
    plan: &mut FloorPlan,
    items: &Vec<ResourceRecord>,
    namespace: &str,
    outer_room: &Room,
    door_id: &mut usize,
    kind: &str,
) -> (r: FloorPlanResult<()>)
    requires
        plan_wf(old(plan)@),
        doors_paired(old(plan)@),
        *old(door_id) == old(plan)@.edges.len(),
        has_room_id(old(plan)@, outer_room@.id),
    ensures
        plan_wf(final(plan)@),
        doors_paired(final(plan)@),
        *final(door_id) == final(plan)@.edges.len(),
        plan_extends(final(plan)@, old(plan)@),
        door_ids_sequential(old(plan)@) ==> door_ids_sequential(final(plan)@),
        r is Ok,
        matching_resources_built(
            final(plan)@,
            records_view(items@),
            namespace@,
            kind@,
            outer_room@.id,
        ),
        matching_owners_linked(final(plan)@, old(plan)@, records_view(items@), namespace@, kind@),
{
    proof {
        lemma_plan_extends_refl(old(plan)@);
    }
    let n = items.len();
    let mut j: usize = 0;
    while j < n
        invariant
            0 <= j <= n,
            n == items@.len(),
            plan_wf(plan@),
            doors_paired(plan@),
            *door_id == plan@.edges.len(),
            plan_extends(plan@, old(plan)@),
            door_ids_sequential(old(plan)@) ==> door_ids_sequential(plan@),
            has_room_id(plan@, outer_room@.id),
            matching_resources_built(
                plan@,
                records_view(items@.take(j as int)),
                namespace@,
                kind@,
                outer_room@.id,
            ),
            matching_owners_linked(
                plan@,
                old(plan)@,
                records_view(items@.take(j as int)),
                namespace@,
                kind@,
            ),
        decreases n - j,
    {
        proof {
            assert(records_view(items@.take(j + 1)).drop_last() =~= records_view(
                items@.take(j as int),
            ));
            assert(records_view(items@.take(j + 1)).last() == items@[j as int]@);
        }
        let rec = &items[j];
        let kind_hit = match &rec.kind {
            Some(k) => crate::text::str_eq(k.as_str(), kind),
            None => false,
        };
        let ns_hit = match &rec.namespace {
            Some(s) => crate::text::str_eq(s.as_str(), namespace),
            None => false,
        };
        if kind_hit && ns_hit && rec.name.is_some() {
            proof {
                assert(record_matches(items@[j as int]@, kind@, namespace@));
                assert(matching_records(records_view(items@.take(j + 1)), kind@, namespace@)
                    =~= matching_records(records_view(items@.take(j as int)), kind@, namespace@)
                    .push(items@[j as int]@));
            }
            let name = match &rec.name {
                Some(nm) => nm.clone(),
                None => String::new(),
            };
            let room = resource_room(namespace, kind, name.as_str());
            let ghost rec_m = items@[j as int]@;
            let ghost cms = rec_m.containers;
            proof {
                assert(cms =~= rec.containers@.map_values(|cr: ContainerRecord| cr@));
            }
            let ghost m_before_room = plan@;
            plan.add_room(room.clone());
            proof {
                lemma_extends_push_room(m_before_room, plan@);
                lemma_doors_paired_same_edges(m_before_room, plan@);
                if door_ids_sequential(old(plan)@) {
                    lemma_door_ids_sequential_same_edges(m_before_room, plan@);
                }
                assert(plan@.rooms[m_before_room.rooms.len() as int] == room@);
                assert(has_room_id(plan@, room@.id));
                lemma_plan_extends_keeps_room(plan@, m_before_room, outer_room@.id);
                lemma_keep_matching_resources_built(
                    plan@,
                    m_before_room,
                    records_view(items@.take(j as int)),
                    namespace@,
                    kind@,
                    outer_room@.id,
                );
                lemma_keep_matching_owners_linked(
                    plan@,
                    m_before_room,
                    old(plan)@,
                    records_view(items@.take(j as int)),
                    namespace@,
                    kind@,
                );
                lemma_plan_extends_trans(plan@, m_before_room, old(plan)@);
            }
            let ghost m_room_added = plan@;
            proof {
                lemma_find_room_index_some(m_room_added, room@.id);
                lemma_find_room_index_some(m_room_added, outer_room@.id);
            }
            match connect_rooms_with_doors(plan, &room, outer_room, door_id) {
                Ok(_) => {},
                Err(e) => {
                    proof {
                        assert(false);
                    }
                    return Err(e);
                },
            }
            proof {
                assert(plan@.edges.take(m_room_added.edges.len() as int) =~= m_room_added.edges);
                assert(plan@.rooms.take(m_room_added.rooms.len() as int) =~= m_room_added.rooms);
                assert(plan_extends(plan@, m_room_added));
                lemma_plan_extends_keeps_room(plan@, m_room_added, outer_room@.id);
                lemma_plan_extends_keeps_room(plan@, m_room_added, room@.id);
                lemma_keep_matching_resources_built(
                    plan@,
                    m_room_added,
                    records_view(items@.take(j as int)),
                    namespace@,
                    kind@,
                    outer_room@.id,
                );
                lemma_keep_matching_owners_linked(
                    plan@,
                    m_room_added,
                    old(plan)@,
                    records_view(items@.take(j as int)),
                    namespace@,
                    kind@,
                );
                lemma_plan_extends_trans(plan@, m_room_added, old(plan)@);
                assert(rooms_connected(plan@, room@.id, outer_room@.id));
            }
            if let Some((okind, oname)) = get_owner_reference(rec) {
                let owner_probe = resource_room(namespace, okind.as_str(), oname.as_str());
                match plan.get_room_by_id(owner_probe.id.as_str()) {
                    Ok(owner_room) => {
                        proof {
                            lemma_find_room_from_properties(plan@.rooms, owner_probe@.id, 0);
                            assert(owner_room@.id == owner_probe@.id);
                            assert(has_room_id(plan@, owner_room@.id));
                        }
                        let ghost m_pre_owner = plan@;
                        proof {
                            lemma_find_room_index_some(m_pre_owner, room@.id);
                            lemma_find_room_index_some(m_pre_owner, owner_room@.id);
                        }
                        match connect_rooms_with_doors(plan, &room, &owner_room, door_id) {
                            Ok(_) => {},
                            Err(e) => {
                                proof {
                                    assert(false);
                                }
                                return Err(e);
                            },
                        }
                        proof {
                            assert(plan@.edges.take(m_pre_owner.edges.len() as int)
                                =~= m_pre_owner.edges);
                            assert(plan@.rooms.take(m_pre_owner.rooms.len() as int)
                                =~= m_pre_owner.rooms);
                            assert(plan_extends(plan@, m_pre_owner));
                            lemma_plan_extends_keeps_room(plan@, m_pre_owner, outer_room@.id);
                            lemma_plan_extends_keeps_room(plan@, m_pre_owner, room@.id);
                            lemma_rooms_connected_extends(
                                plan@,
                                m_pre_owner,
                                room@.id,
                                outer_room@.id,
                            );
                            lemma_keep_matching_resources_built(
                                plan@,
                                m_pre_owner,
                                records_view(items@.take(j as int)),
                                namespace@,
                                kind@,
                                outer_room@.id,
                            );
                            lemma_keep_matching_owners_linked(
                                plan@,
                                m_pre_owner,
                                old(plan)@,
                                records_view(items@.take(j as int)),
                                namespace@,
                                kind@,
                            );
                            lemma_plan_extends_trans(plan@, m_pre_owner, old(plan)@);
                            assert(rooms_connected(plan@, room@.id, owner_room@.id));
                            assert(owner_linked(plan@, old(plan)@, rec_m, namespace@, kind@));
                        }
                    },
                    Err(_) => {
                        proof {
                            if has_room_id(old(plan)@, owner_probe@.id) {
                                lemma_plan_extends_keeps_room(plan@, old(plan)@, owner_probe@.id);
                                lemma_find_room_index_some(plan@, owner_probe@.id);
                                assert(false);
                            }
                            assert(owner_linked(plan@, old(plan)@, rec_m, namespace@, kind@));
                        }
                    },
                }
            } else {
                proof {
                    assert(owner_linked(plan@, old(plan)@, rec_m, namespace@, kind@));
                }
            }
            let cn = rec.containers.len();
            let mut c: usize = 0;
            while c < cn
                invariant
                    0 <= c <= cn,
                    0 <= j < items@.len(),
                    cn == rec.containers@.len(),
                    rec_m == items@[j as int]@,
                    cms == rec_m.containers,
                    cms == rec.containers@.map_values(|cr: ContainerRecord| cr@),
                    plan_wf(plan@),
                    doors_paired(plan@),
                    *door_id == plan@.edges.len(),
                    plan_extends(plan@, old(plan)@),
                    door_ids_sequential(old(plan)@) ==> door_ids_sequential(plan@),
                    has_room_id(plan@, outer_room@.id),
                    has_room_id(plan@, room@.id),
                    rooms_connected(plan@, room@.id, outer_room@.id),
                    owner_linked(plan@, old(plan)@, rec_m, namespace@, kind@),
                    matching_resources_built(
                        plan@,
                        records_view(items@.take(j as int)),
                        namespace@,
                        kind@,
                        outer_room@.id,
                    ),
                    matching_owners_linked(
                        plan@,
                        old(plan)@,
                        records_view(items@.take(j as int)),
                        namespace@,
                        kind@,
                    ),
                    forall|ci: int|
                        0 <= ci < named_containers(cms.take(c as int)).len() ==> container_built(
                            plan@,
                            #[trigger] named_containers(cms.take(c as int))[ci],
                            namespace@,
                            kind@,
                            room@.id,
                        ),
                decreases cn - c,
            {
                proof {
                    assert(cms.take(c + 1).drop_last() =~= cms.take(c as int));
                    assert(cms[c as int] == rec.containers@[c as int]@);
                    assert(cms.take(c + 1).last() == cms[c as int]);
                }
                if let Some(cname) = &rec.containers[c].name {
                    let croom = container_room(namespace, kind, cname.as_str());
                    let ghost cm = cms[c as int];
                    proof {
                        assert(cm == rec.containers@[c as int]@);
                        assert(cm.name == Some(cname@));
                    }
                    let ghost m_pre_c = plan@;
                    plan.add_room(croom.clone());
                    proof {
                        lemma_extends_push_room(m_pre_c, plan@);
                        lemma_doors_paired_same_edges(m_pre_c, plan@);
                        if door_ids_sequential(old(plan)@) {
                            lemma_door_ids_sequential_same_edges(m_pre_c, plan@);
                        }
                        assert(plan@.rooms[m_pre_c.rooms.len() as int] == croom@);
                        assert(has_room_id(plan@, croom@.id));
                        lemma_plan_extends_keeps_room(plan@, m_pre_c, outer_room@.id);
                        lemma_plan_extends_keeps_room(plan@, m_pre_c, room@.id);
                        lemma_rooms_connected_extends(plan@, m_pre_c, room@.id, outer_room@.id);
                        lemma_keep_owner_linked(
                            plan@,
                            m_pre_c,
                            old(plan)@,
                            rec_m,
                            namespace@,
                            kind@,
                        );
                        lemma_keep_matching_resources_built(
                            plan@,
                            m_pre_c,
                            records_view(items@.take(j as int)),
                            namespace@,
                            kind@,
                            outer_room@.id,
                        );
                        lemma_keep_matching_owners_linked(
                            plan@,
                            m_pre_c,
                            old(plan)@,
                            records_view(items@.take(j as int)),
                            namespace@,
                            kind@,
                        );
                        assert forall|ci: int|
                            0 <= ci < named_containers(cms.take(c as int)).len() implies container_built(
                            plan@,
                            #[trigger] named_containers(cms.take(c as int))[ci],
                            namespace@,
                            kind@,
                            room@.id,
                        ) by {
                            lemma_keep_container_built(
                                plan@,
                                m_pre_c,
                                named_containers(cms.take(c as int))[ci],
                                namespace@,
                                kind@,
                                room@.id,
                            );
                        }
                        lemma_plan_extends_trans(plan@, m_pre_c, old(plan)@);
                    }
                    let ghost m_c_added = plan@;
                    proof {
                        lemma_find_room_index_some(m_c_added, croom@.id);
                        lemma_find_room_index_some(m_c_added, room@.id);
                    }
                    match connect_rooms_with_doors(plan, &croom, &room, door_id) {
                        Ok(_) => {},
                        Err(e) => {
                            proof {
                                assert(false);
                            }
                            return Err(e);
                        },
                    }
                    proof {
                        assert(plan@.edges.take(m_c_added.edges.len() as int) =~= m_c_added.edges);
                        assert(plan@.rooms.take(m_c_added.rooms.len() as int) =~= m_c_added.rooms);
                        assert(plan_extends(plan@, m_c_added));
                        lemma_plan_extends_keeps_room(plan@, m_c_added, outer_room@.id);
                        lemma_plan_extends_keeps_room(plan@, m_c_added, room@.id);
                        lemma_plan_extends_keeps_room(plan@, m_c_added, croom@.id);
                        lemma_rooms_connected_extends(plan@, m_c_added, room@.id, outer_room@.id);
                        lemma_keep_owner_linked(
                            plan@,
                            m_c_added,
                            old(plan)@,
                            rec_m,
                            namespace@,
                            kind@,
                        );
                        lemma_keep_matching_resources_built(
                            plan@,
                            m_c_added,
                            records_view(items@.take(j as int)),
                            namespace@,
                            kind@,
                            outer_room@.id,
                        );
                        lemma_keep_matching_owners_linked(
                            plan@,
                            m_c_added,
                            old(plan)@,
                            records_view(items@.take(j as int)),
                            namespace@,
                            kind@,
                        );
                        assert forall|ci: int|
                            0 <= ci < named_containers(cms.take(c as int)).len() implies container_built(
                            plan@,
                            #[trigger] named_containers(cms.take(c as int))[ci],
                            namespace@,
                            kind@,
                            room@.id,
                        ) by {
                            lemma_keep_container_built(
                                plan@,
                                m_c_added,
                                named_containers(cms.take(c as int))[ci],
                                namespace@,
                                kind@,
                                room@.id,
                            );
                        }
                        lemma_plan_extends_trans(plan@, m_c_added, old(plan)@);
                        assert(rooms_connected(plan@, croom@.id, room@.id));
                    }
                    let vn = rec.containers[c].volume_mounts.len();
                    let ghost vms = cm.volume_mounts;
                    proof {
                        assert(vms =~= rec.containers@[c as int].volume_mounts@.map_values(
                            |vmr: VolumeMountRecord| vmr@,
                        ));
                    }
                    let mut v: usize = 0;
                    while v < vn
                        invariant
                            0 <= v <= vn,
                            0 <= j < items@.len(),
                            0 <= c < rec.containers@.len(),
                            vn == rec.containers@[c as int].volume_mounts@.len(),
                            rec_m == items@[j as int]@,
                            cms == rec_m.containers,
                            cm == cms[c as int],
                            cm == rec.containers@[c as int]@,
                            cm.name == Some(cname@),
                            vms == cm.volume_mounts,
                            vn == vms.len(),
                            vms == rec.containers@[c as int].volume_mounts@.map_values(
                                |vmr: VolumeMountRecord| vmr@,
                            ),
                            cm.name matches Some(cnm) && croom@.id == container_room_id(
                                namespace@,
                                kind@,
                                cnm,
                            ),
                            plan_wf(plan@),
                            doors_paired(plan@),
                            *door_id == plan@.edges.len(),
                            plan_extends(plan@, old(plan)@),
                            door_ids_sequential(old(plan)@) ==> door_ids_sequential(plan@),
                            has_room_id(plan@, outer_room@.id),
                            has_room_id(plan@, room@.id),
                            has_room_id(plan@, croom@.id),
                            rooms_connected(plan@, room@.id, outer_room@.id),
                            rooms_connected(plan@, croom@.id, room@.id),
                            owner_linked(plan@, old(plan)@, rec_m, namespace@, kind@),
                            matching_resources_built(
                                plan@,
                                records_view(items@.take(j as int)),
                                namespace@,
                                kind@,
                                outer_room@.id,
                            ),
                            matching_owners_linked(
                                plan@,
                                old(plan)@,
                                records_view(items@.take(j as int)),
                                namespace@,
                                kind@,
                            ),
                            forall|ci: int|
                                0 <= ci < named_containers(cms.take(c as int)).len()
                                    ==> container_built(
                                    plan@,
                                    #[trigger] named_containers(cms.take(c as int))[ci],
                                    namespace@,
                                    kind@,
                                    room@.id,
                                ),
                            forall|vi: int|
                                0 <= vi < named_volume_mount_names(vms.take(v as int)).len()
                                    ==> has_room_id(
                                    plan@,
                                    volume_mount_room_id(
                                        namespace@,
                                        kind@,
                                        cm.name.unwrap(),
                                        #[trigger] named_volume_mount_names(
                                            vms.take(v as int),
                                        )[vi],
                                    ),
                                ) && rooms_connected(
                                    plan@,
                                    volume_mount_room_id(
                                        namespace@,
                                        kind@,
                                        cm.name.unwrap(),
                                        named_volume_mount_names(vms.take(v as int))[vi],
                                    ),
                                    croom@.id,
                                ),
                        decreases vn - v,
                    {
                        proof {
                            assert(vms.take(v + 1).drop_last() =~= vms.take(v as int));
                            assert(vms[v as int] == rec.containers@[c as int].volume_mounts@[
                                v as int
                            ]@);
                            assert(vms.take(v + 1).last() == vms[v as int]);
                        }
                        if let Some(vmname) = &rec.containers[c].volume_mounts[v].name {
                            let vroom = volume_mount_room(
                                namespace,
                                kind,
                                cname.as_str(),
                                vmname.as_str(),
                            );
                            let ghost m_pre_v = plan@;
                            plan.add_room(vroom.clone());
                            proof {
                                lemma_extends_push_room(m_pre_v, plan@);
                                lemma_doors_paired_same_edges(m_pre_v, plan@);
                                if door_ids_sequential(old(plan)@) {
                                    lemma_door_ids_sequential_same_edges(m_pre_v, plan@);
                                }
                                assert(plan@.rooms[m_pre_v.rooms.len() as int] == vroom@);
                                assert(has_room_id(plan@, vroom@.id));
                                keep_record_facts(
                                    plan@,
                                    m_pre_v,
                                    old(plan)@,
                                    rec_m,
                                    items@.take(j as int),
                                    namespace@,
                                    kind@,
                                    outer_room@.id,
                                    room@.id,
                                    croom@.id,
                                    cms,
                                    c as int,
                                    vms,
                                    v as int,
                                    cm,
                                );
                                lemma_plan_extends_trans(plan@, m_pre_v, old(plan)@);
                            }
                            let ghost m_v_added = plan@;
                            proof {
                                lemma_find_room_index_some(m_v_added, vroom@.id);
                                lemma_find_room_index_some(m_v_added, croom@.id);
                            }
                            match connect_rooms_with_doors(plan, &vroom, &croom, door_id) {
                                Ok(_) => {},
                                Err(e) => {
                                    proof {
                                        assert(false);
                                    }
                                    return Err(e);
                                },
                            }
                            proof {
                                assert(plan@.edges.take(m_v_added.edges.len() as int)
                                    =~= m_v_added.edges);
                                assert(plan@.rooms.take(m_v_added.rooms.len() as int)
                                    =~= m_v_added.rooms);
                                assert(plan_extends(plan@, m_v_added));
                                lemma_plan_extends_keeps_room(plan@, m_v_added, vroom@.id);
                                keep_record_facts(
                                    plan@,
                                    m_v_added,
                                    old(plan)@,
                                    rec_m,
                                    items@.take(j as int),
                                    namespace@,
                                    kind@,
                                    outer_room@.id,
                                    room@.id,
                                    croom@.id,
                                    cms,
                                    c as int,
                                    vms,
                                    v as int,
                                    cm,
                                );
                                lemma_plan_extends_trans(plan@, m_v_added, old(plan)@);
                                assert(rooms_connected(plan@, vroom@.id, croom@.id));
                                assert(cm == rec.containers@[c as int]@);
                                assert(cm.name == Some(cname@));
                                assert(vms[v as int].name == Some(vmname@));
                                assert(named_volume_mount_names(vms.take(v + 1))
                                    =~= named_volume_mount_names(vms.take(v as int)).push(
                                    vms[v as int].name.unwrap(),
                                ));
                                assert(vroom@.id == volume_mount_room_id(
                                    namespace@,
                                    kind@,
                                    cm.name.unwrap(),
                                    vms[v as int].name.unwrap(),
                                ));
                            }
                        } else {
                            proof {
                                assert(named_volume_mount_names(vms.take(v + 1))
                                    =~= named_volume_mount_names(vms.take(v as int)));
                            }
                        }
                        v += 1;
                    }
                    proof {
                        assert(vms.take(vn as int) =~= vms);
                        assert(container_built(plan@, cm, namespace@, kind@, room@.id));
                        assert(named_containers(cms.take(c + 1)) =~= named_containers(
                            cms.take(c as int),
                        ).push(cm));
                        assert forall|ci: int|
                            0 <= ci < named_containers(cms.take(c + 1)).len() implies container_built(
                            plan@,
                            #[trigger] named_containers(cms.take(c + 1))[ci],
                            namespace@,
                            kind@,
                            room@.id,
                        ) by {
                            if ci < named_containers(cms.take(c as int)).len() {
                                assert(named_containers(cms.take(c + 1))[ci] == named_containers(
                                    cms.take(c as int),
                                )[ci]);
                            } else {
                                assert(named_containers(cms.take(c + 1))[ci] == cm);
                            }
                        }
                    }
                } else {
                    proof {
                        assert(named_containers(cms.take(c + 1)) =~= named_containers(
                            cms.take(c as int),
                        ));
                    }
                }
                c += 1;
            }
            proof {
                assert(cms.take(cn as int) =~= cms);
                assert(resource_built(plan@, rec_m, namespace@, kind@, outer_room@.id));
                lemma_matching_resources_push(
                    plan@,
                    records_view(items@.take(j as int)),
                    records_view(items@.take(j + 1)),
                    rec_m,
                    namespace@,
                    kind@,
                    outer_room@.id,
                );
                lemma_matching_owners_push(
                    plan@,
                    old(plan)@,
                    records_view(items@.take(j as int)),
                    records_view(items@.take(j + 1)),
                    rec_m,
                    namespace@,
                    kind@,
                );
            }
        } else {
            proof {
                assert(!record_matches(items@[j as int]@, kind@, namespace@));
                let list0 = matching_records(
                    records_view(items@.take(j as int)),
                    kind@,
                    namespace@,
                );
                let list1 = matching_records(records_view(items@.take(j + 1)), kind@, namespace@);
                assert(list1 == list0);
                assert forall|k: int| 0 <= k < list1.len() implies resource_built(
                    plan@,
                    #[trigger] list1[k],
                    namespace@,
                    kind@,
                    outer_room@.id,
                ) by {
                    assert(list1[k] == list0[k]);
                }
                assert forall|k: int| 0 <= k < list1.len() implies owner_linked(
                    plan@,
                    old(plan)@,
                    #[trigger] list1[k],
                    namespace@,
                    kind@,
                ) by {
                    assert(list1[k] == list0[k]);
                }
            }
        }
        j += 1;
    }
    proof {
        assert(items@.take(n as int) =~= items@);
    }
    Ok(())
}

/// Sets up the grouping hallway for one kind in one namespace: the hallway
/// room, its reciprocal connection to the enclosing room, and the rooms
/// and connections of all matching resources under it.
pub fn setup_hallway_and_rooms(
    plan: &mut FloorPlan,
    items: &Vec<ResourceRecord>,
    namespace: &str,
    outer_room: &Room,
    door_id: &mut usize,
    kind: &str,
) -> (r: FloorPlanResult<()>)
    requires
        plan_wf(old(plan)@),
        doors_paired(old(plan)@),
        *old(door_id) == old(plan)@.edges.len(),
        has_room_id(old(plan)@, outer_room@.id),
    ensures
        plan_wf(final(plan)@),
        doors_paired(final(plan)@),
        *final(door_id) == final(plan)@.edges.len(),
        plan_extends(final(plan)@, old(plan)@),
        door_ids_sequential(old(plan)@) ==> door_ids_sequential(final(plan)@),
        r is Ok,
        has_room_id(final(plan)@, hallway_room_id(namespace@, kind@)),
        rooms_connected(final(plan)@, hallway_room_id(namespace@, kind@), outer_room@.id),
        matching_resources_built(
            final(plan)@,
            records_view(items@),
            namespace@,
            kind@,
            hallway_room_id(namespace@, kind@),
        ),
        matching_owners_linked(final(plan)@, old(plan)@, records_view(items@), namespace@, kind@),
{
    let hallway = hallway_room(namespace, kind);
    let ghost m0 = old(plan)@;
    plan.add_room(hallway.clone());
    proof {
        lemma_extends_push_room(m0, plan@);
        lemma_doors_paired_same_edges(m0, plan@);
        if door_ids_sequential(m0) {
            lemma_door_ids_sequential_same_edges(m0, plan@);
        }
        assert(plan@.rooms[m0.rooms.len() as int] == hallway@);
        assert(has_room_id(plan@, hallway@.id));
        lemma_plan_extends_keeps_room(plan@, m0, outer_room@.id);
    }
    let ghost m1 = plan@;
    proof {
        lemma_find_room_index_some(m1, outer_room@.id);
        lemma_find_room_index_some(m1, hallway@.id);
    }
    match connect_rooms_with_doors(plan, outer_room, &hallway, door_id) {
        Ok(_) => {},
        Err(e) => {
            proof {
                assert(false);
            }
            return Err(e);
        },
    }
    proof {
        assert(plan@.rooms.take(m1.rooms.len() as int) =~= m1.rooms);
        assert(plan@.edges.take(m1.edges.len() as int) =~= m1.edges);
        assert(plan_extends(plan@, m1));
        lemma_plan_extends_keeps_room(plan@, m1, hallway@.id);
        lemma_plan_extends_trans(plan@, m1, m0);
        assert(rooms_connected(plan@, outer_room@.id, hallway@.id));
    }
    let ghost m2 = plan@;
    match add_rooms(plan, items, namespace, &hallway, door_id, kind) {
        Ok(_) => {},
        Err(e) => {
            proof {
                assert(false);
            }
            return Err(e);
        },
    }
    proof {
        lemma_plan_extends_keeps_room(plan@, m2, hallway@.id);
        lemma_rooms_connected_extends(plan@, m2, outer_room@.id, hallway@.id);
        lemma_plan_extends_trans(plan@, m2, m0);
        lemma_owners_linked_weaken_entry(
            plan@,
            m0,
            m2,
            records_view(items@),
            namespace@,
            kind@,
        );
    }
    Ok(())
}

/// Everything the build owes one kind in one namespace: the grouping
/// hallway, reciprocally connected to the namespace room, and every
/// matching resource built and connected under the hallway.
pub open spec fn kind_built(
    m: FloorPlanModel,
    recs: Seq<ResourceRecordModel>,
    ns: Seq<char>,
    kind: Seq<char>,
) -> bool {
    &&& has_room_id(m, hallway_room_id(ns, kind))
    &&& rooms_connected(m, hallway_room_id(ns, kind), ns)
    &&& matching_resources_built(m, recs, ns, kind, hallway_room_id(ns, kind))
}

/// Extending a plan keeps everything owed to a kind.
proof fn lemma_keep_kind_built(
    m1: FloorPlanModel,
    m0: FloorPlanModel,
    recs: Seq<ResourceRecordModel>,
    ns: Seq<char>,
    kind: Seq<char>,
)
    requires
        plan_extends(m1, m0),
        kind_built(m0, recs, ns, kind),
    ensures
        kind_built(m1, recs, ns, kind),
{
    lemma_plan_extends_keeps_room(m1, m0, hallway_room_id(ns, kind));
    lemma_rooms_connected_extends(m1, m0, hallway_room_id(ns, kind), ns);
    lemma_keep_matching_resources_built(m1, m0, recs, ns, kind, hallway_room_id(ns, kind));
}

/// Everything the build owes one namespace: its room, reciprocally
/// connected to the cluster root, and every fixed kind built under it.
pub open spec fn namespace_built(
    m: FloorPlanModel,
    recs: Seq<ResourceRecordModel>,
    ns: Seq<char>,
) -> bool {
    &&& has_room_id(m, ns)
    &&& rooms_connected(m, ns, "cluster"@)
    &&& kind_built(m, recs, ns, "Deployment"@)
    &&& kind_built(m, recs, ns, "DaemonSet"@)
    &&& kind_built(m, recs, ns, "ReplicaSet"@)
    &&& kind_built(m, recs, ns, "Service"@)
    &&& kind_built(m, recs, ns, "ConfigMap"@)
    &&& kind_built(m, recs, ns, "Pod"@)
}

/// Extending a plan keeps everything owed to a namespace.
proof fn lemma_keep_namespace_built(
    m1: FloorPlanModel,
    m0: FloorPlanModel,
    recs: Seq<ResourceRecordModel>,
    ns: Seq<char>,
)
    requires
        plan_extends(m1, m0),
        namespace_built(m0, recs, ns),
    ensures
        namespace_built(m1, recs, ns),
{
    lemma_plan_extends_keeps_room(m1, m0, ns);
    lemma_rooms_connected_extends(m1, m0, ns, "cluster"@);
    lemma_keep_kind_built(m1, m0, recs, ns, "Deployment"@);
    lemma_keep_kind_built(m1, m0, recs, ns, "DaemonSet"@);
    lemma_keep_kind_built(m1, m0, recs, ns, "ReplicaSet"@);
    lemma_keep_kind_built(m1, m0, recs, ns, "Service"@);
    lemma_keep_kind_built(m1, m0, recs, ns, "ConfigMap"@);
    lemma_keep_kind_built(m1, m0, recs, ns, "Pod"@);
}

/// Sets up the hallways and resource rooms of every fixed kind for one
/// namespace, in the fixed kind order.
fn setup_all_kinds(
    plan: &mut FloorPlan,
    items: &Vec<ResourceRecord>,
    namespace: &str,
    ns_room: &Room,
    door_id: &mut usize,
) -> (r: FloorPlanResult<()>)
    requires
        plan_wf(old(plan)@),
        doors_paired(old(plan)@),
        *old(door_id) == old(plan)@.edges.len(),
        has_room_id(old(plan)@, ns_room@.id),
        ns_room@.id == namespace@,
    ensures
        plan_wf(final(plan)@),
        doors_paired(final(plan)@),
        *final(door_id) == final(plan)@.edges.len(),
        plan_extends(final(plan)@, old(plan)@),
        door_ids_sequential(old(plan)@) ==> door_ids_sequential(final(plan)@),
        r is Ok,
        kind_built(final(plan)@, records_view(items@), namespace@, "Deployment"@),
        kind_built(final(plan)@, records_view(items@), namespace@, "DaemonSet"@),
        kind_built(final(plan)@, records_view(items@), namespace@, "ReplicaSet"@),
        kind_built(final(plan)@, records_view(items@), namespace@, "Service"@),
        kind_built(final(plan)@, records_view(items@), namespace@, "ConfigMap"@),
        kind_built(final(plan)@, records_view(items@), namespace@, "Pod"@),
        matching_owners_linked(
            final(plan)@,
            old(plan)@,
            records_view(items@),
            namespace@,
            "Pod"@,
        ),
{
    let ghost m0 = old(plan)@;
    let ghost recs = records_view(items@);
    match setup_hallway_and_rooms(plan, items, namespace, ns_room, door_id, "Deployment") {
        Ok(_) => {},
        Err(e) => {
            proof {
                assert(false);
            }
            return Err(e);
        },
    }
    let ghost s1 = plan@;
    proof {
        lemma_plan_extends_keeps_room(plan@, m0, ns_room@.id);
    }
    match setup_hallway_and_rooms(plan, items, namespace, ns_room, door_id, "DaemonSet") {
        Ok(_) => {},
        Err(e) => {
            proof {
                assert(false);
            }
            return Err(e);
        },
    }
    let ghost s2 = plan@;
    proof {
        lemma_keep_kind_built(plan@, s1, recs, namespace@, "Deployment"@);
        lemma_plan_extends_keeps_room(plan@, s1, ns_room@.id);
        lemma_plan_extends_trans(plan@, s1, m0);
    }
    match setup_hallway_and_rooms(plan, items, namespace, ns_room, door_id, "ReplicaSet") {
        Ok(_) => {},
        Err(e) => {
            proof {
                assert(false);
            }
            return Err(e);
        },
    }
    let ghost s3 = plan@;
    proof {
        lemma_keep_kind_built(plan@, s2, recs, namespace@, "Deployment"@);
        lemma_keep_kind_built(plan@, s2, recs, namespace@, "DaemonSet"@);
        lemma_plan_extends_keeps_room(plan@, s2, ns_room@.id);
        lemma_plan_extends_trans(plan@, s2, m0);
    }
    match setup_hallway_and_rooms(plan, items, namespace, ns_room, door_id, "Service") {
        Ok(_) => {},
        Err(e) => {
            proof {
                assert(false);
            }
            return Err(e);
        },
    }
    let ghost s4 = plan@;
    proof {
        lemma_keep_kind_built(plan@, s3, recs, namespace@, "Deployment"@);
        lemma_keep_kind_built(plan@, s3, recs, namespace@, "DaemonSet"@);
        lemma_keep_kind_built(plan@, s3, recs, namespace@, "ReplicaSet"@);
        lemma_plan_extends_keeps_room(plan@, s3, ns_room@.id);
        lemma_plan_extends_trans(plan@, s3, m0);
    }
    match setup_hallway_and_rooms(plan, items, namespace, ns_room, door_id, "ConfigMap") {
        Ok(_) => {},
        Err(e) => {
            proof {
                assert(false);
            }
            return Err(e);
        },
    }
    let ghost s5 = plan@;
    proof {
        lemma_keep_kind_built(plan@, s4, recs, namespace@, "Deployment"@);
        lemma_keep_kind_built(plan@, s4, recs, namespace@, "DaemonSet"@);
        lemma_keep_kind_built(plan@, s4, recs, namespace@, "ReplicaSet"@);
        lemma_keep_kind_built(plan@, s4, recs, namespace@, "Service"@);
        lemma_plan_extends_keeps_room(plan@, s4, ns_room@.id);
        lemma_plan_extends_trans(plan@, s4, m0);
    }
    match setup_hallway_and_rooms(plan, items, namespace, ns_room, door_id, "Pod") {
        Ok(_) => {},
        Err(e) => {
            proof {
                assert(false);
            }
            return Err(e);
        },
    }
    proof {
        lemma_keep_kind_built(plan@, s5, recs, namespace@, "Deployment"@);
        lemma_keep_kind_built(plan@, s5, recs, namespace@, "DaemonSet"@);
        lemma_keep_kind_built(plan@, s5, recs, namespace@, "ReplicaSet"@);
        lemma_keep_kind_built(plan@, s5, recs, namespace@, "Service"@);
        lemma_keep_kind_built(plan@, s5, recs, namespace@, "ConfigMap"@);
        lemma_plan_extends_trans(plan@, s5, m0);
        lemma_owners_linked_weaken_entry(plan@, m0, s5, recs, namespace@, "Pod"@);
    }
    Ok(())
}

/// The model of the root room every build starts from.
pub open spec fn cluster_room_model() -> RoomModel {
    RoomModel { id: "cluster"@, name: "Cluster"@ }
}

/// Builds the whole floor plan from a resolved resource document: the
/// cluster root, one room per discovered namespace reciprocally connected
/// to the root, and per namespace the hallways and resource rooms of every
/// fixed kind, each reciprocally connected under its parent. Door ids come
/// from one counter started at zero, so the i-th door carries id "i" and
/// all ids are distinct. The build never fails.
pub fn generate_k8s_floorplan(items: &Vec<ResourceRecord>) -> (r: FloorPlanResult<FloorPlan>)
    ensures
        r matches Ok(plan) && plan_wf(plan@) && doors_paired(plan@) && door_ids_sequential(plan@)
            && plan@.start is None && plan@.rooms.len() >= 1 && plan@.rooms[0]
            == cluster_room_model() && forall|t: int|
            0 <= t < distinct_namespaces(records_view(items@)).len() ==> namespace_built(
                plan@,
                records_view(items@),
                #[trigger] distinct_namespaces(records_view(items@))[t],
            ),
{
    let mut plan = FloorPlan::new();
    let cluster = Room { id: "cluster".to_owned(), name: "Cluster".to_owned() };
    plan.add_room(cluster.clone());
    let mut door_id: usize = 0;
    let ghost base = plan@;
    proof {
        assert(base.rooms[0] == cluster@);
        assert(cluster@ == cluster_room_model());
        lemma_plan_extends_refl(base);
        assert(door_ids_sequential(base));
    }
    let namespaces = get_namespaces(items);
    let nn = namespaces.len();
    let mut t: usize = 0;
    while t < nn
        invariant
            0 <= t <= nn,
            nn == namespaces@.len(),
            namespaces@.map_values(|s: String| s@) == distinct_namespaces(records_view(items@)),
            plan_wf(plan@),
            doors_paired(plan@),
            door_ids_sequential(plan@),
            door_id == plan@.edges.len(),
            plan_extends(plan@, base),
            base.rooms.len() == 1,
            base.rooms[0] == cluster_room_model(),
            base.start is None,
            cluster@ == cluster_room_model(),
            plan@.rooms.len() >= 1,
            plan@.rooms[0] == cluster_room_model(),
            forall|u: int|
                0 <= u < t ==> namespace_built(
                    plan@,
                    records_view(items@),
                    (#[trigger] namespaces@[u])@,
                ),
        decreases nn - t,
    {
        let ns_room = namespace_room(namespaces[t].as_str());
        let ghost ma = plan@;
        plan.add_room(ns_room.clone());
        proof {
            lemma_extends_push_room(ma, plan@);
            lemma_doors_paired_same_edges(ma, plan@);
            lemma_door_ids_sequential_same_edges(ma, plan@);
            assert(plan@.rooms[ma.rooms.len() as int] == ns_room@);
            assert(has_room_id(plan@, ns_room@.id));
            assert(plan@.rooms.take(ma.rooms.len() as int)[0] == ma.rooms[0]);
            assert(plan@.rooms[0] == cluster_room_model());
            assert(has_room_id(plan@, cluster@.id));
            assert forall|u: int| 0 <= u < t implies namespace_built(
                plan@,
                records_view(items@),
                (#[trigger] namespaces@[u])@,
            ) by {
                lemma_keep_namespace_built(plan@, ma, records_view(items@), namespaces@[u]@);
            }
            lemma_plan_extends_trans(plan@, ma, base);
        }
        let ghost mb = plan@;
        proof {
            lemma_find_room_index_some(mb, cluster@.id);
            lemma_find_room_index_some(mb, ns_room@.id);
        }
        match connect_rooms_with_doors(&mut plan, &cluster, &ns_room, &mut door_id) {
            Ok(_) => {},
            Err(e) => {
                proof {
                    assert(false);
                }
                return Err(e);
            },
        }
        proof {
            assert(plan@.rooms.take(mb.rooms.len() as int) =~= mb.rooms);
            assert(plan@.edges.take(mb.edges.len() as int) =~= mb.edges);
            assert(plan_extends(plan@, mb));
            assert(plan@.rooms[0] == cluster_room_model());
            lemma_plan_extends_keeps_room(plan@, mb, ns_room@.id);
            assert forall|u: int| 0 <= u < t implies namespace_built(
                plan@,
                records_view(items@),
                (#[trigger] namespaces@[u])@,
            ) by {
                lemma_keep_namespace_built(plan@, mb, records_view(items@), namespaces@[u]@);
            }
            lemma_plan_extends_trans(plan@, mb, base);
            assert(rooms_connected(plan@, cluster@.id, ns_room@.id));
        }
        let ghost mc = plan@;
        match setup_all_kinds(&mut plan, items, namespaces[t].as_str(), &ns_room, &mut door_id) {
            Ok(_) => {},
            Err(e) => {
                proof {
                    assert(false);
                }
                return Err(e);
            },
        }
        proof {
            assert(plan@.rooms.take(mc.rooms.len() as int)[0] == mc.rooms[0]);
            assert(plan@.rooms[0] == cluster_room_model());
            lemma_plan_extends_keeps_room(plan@, mc, ns_room@.id);
            lemma_rooms_connected_extends(plan@, mc, cluster@.id, ns_room@.id);
            assert forall|u: int| 0 <= u < t implies namespace_built(
                plan@,
                records_view(items@),
                (#[trigger] namespaces@[u])@,
            ) by {
                lemma_keep_namespace_built(plan@, mc, records_view(items@), namespaces@[u]@);
            }
            lemma_plan_extends_trans(plan@, mc, base);
            assert(namespace_built(plan@, records_view(items@), (namespaces@[t as int])@));
        }
        t += 1;
    }
    proof {
        let distinct = distinct_namespaces(records_view(items@));
        assert forall|u: int| 0 <= u < distinct.len() implies namespace_built(
            plan@,
            records_view(items@),
            #[trigger] distinct[u],
        ) by {
            assert(namespaces@.map_values(|s: String| s@)[u] == (namespaces@[u])@);
            assert(distinct[u] == (namespaces@[u])@);
        }
    }
    Ok(plan)
}

} // verus!
