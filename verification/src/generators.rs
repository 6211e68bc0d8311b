//! Synthetic fixed-topology floor plans: small worlds of numbered rooms
//! for exercising navigation without any resource document.

use vstd::prelude::*;
use vstd::string::StringExecFns;

use crate::builder::door_ids_sequential;
use crate::floorplan::{
    doors_paired, find_room_index, lemma_doors_paired_extend_pair, lemma_find_room_from_hits,
    outgoing_edges, plan_wf, reverse_doors, Door, DoorEdgeModel, DoorModel, FloorPlan,
    FloorPlanError, FloorPlanModel, FloorPlanResult, Room,
};
use crate::text::{lemma_spec_decimal_injective, spec_decimal, u64_to_string, usize_to_string};

verus! {

/// The name of the `i`-th numbered room, counting from one.
pub open spec fn room_label(i: int) -> Seq<char> {
    "Room "@ + spec_decimal(i)
}

/// The name of the `i`-th numbered door, counting from one.
pub open spec fn door_label(i: int) -> Seq<char> {
    "Door "@ + spec_decimal(i)
}

/// Rooms numbered from zero, each displayed with its number counted from
/// one.
pub fn create_rooms(lim: u8) -> (r: Vec<Room>)
    ensures
        r@.len() == lim,
        forall|i: int|
            0 <= i < lim ==> (#[trigger] r@[i])@.id == spec_decimal(i) && r@[i]@.name == room_label(
                i + 1,
            ),
{
    let mut r: Vec<Room> = Vec::new();
    let mut i: u8 = 0;
    while i < lim
        invariant
            0 <= i <= lim,
            r@.len() == i,
            forall|t: int|
                0 <= t < i ==> (#[trigger] r@[t])@.id == spec_decimal(t) && r@[t]@.name
                    == room_label(t + 1),
        decreases lim - i,
    {
        let id = u64_to_string(i as u64);
        let name = String::from_str("Room ").concat(u64_to_string((i as u64) + 1).as_str());
        proof {
            assert(name@ =~= room_label(i + 1));
        }
        r.push(Room { id, name });
        i += 1;
    }
    r
}

/// Doors numbered from zero, each displayed with its number counted from
/// one.
pub fn create_doors(lim: u8) -> (r: Vec<Door>)
    ensures
        r@.len() == lim,
        forall|i: int|
            0 <= i < lim ==> (#[trigger] r@[i])@.id == spec_decimal(i) && r@[i]@.name == door_label(
                i + 1,
            ),
{
    let mut r: Vec<Door> = Vec::new();
    let mut i: u8 = 0;
    while i < lim
        invariant
            0 <= i <= lim,
            r@.len() == i,
            forall|t: int|
                0 <= t < i ==> (#[trigger] r@[t])@.id == spec_decimal(t) && r@[t]@.name
                    == door_label(t + 1),
        decreases lim - i,
    {
        let id = u64_to_string(i as u64);
        let name = String::from_str("Door ").concat(u64_to_string((i as u64) + 1).as_str());
        proof {
            assert(name@ =~= door_label(i + 1));
        }
        r.push(Door { id, name });
        i += 1;
    }
    r
}

/// Adds one directed door between two rooms looked up by id. Fails with
/// `RoomDataNotFound` and changes nothing when either id is not in the
/// plan.
pub fn door_adder(plan: &mut FloorPlan, room1: &Room, room2: &Room, door: &Door) -> (r:
    FloorPlanResult<()>)
    requires
        plan_wf(old(plan)@),
    ensures
        plan_wf(final(plan)@),
        final(plan)@.rooms == old(plan)@.rooms,
        final(plan)@.start == old(plan)@.start,
        match (find_room_index(old(plan)@, room1@.id), find_room_index(old(plan)@, room2@.id)) {
            (Some(i1), Some(i2)) => r is Ok && final(plan)@.edges == old(plan)@.edges.push(
                DoorEdgeModel { from: i1, to: i2, door: door@ },
            ),
            (None, _) => r matches Err(FloorPlanError::RoomDataNotFound(missing)) && missing@
                == room1@.id && final(plan)@.edges == old(plan)@.edges,
            (Some(_), None) => r matches Err(FloorPlanError::RoomDataNotFound(missing)) && missing@
                == room2@.id && final(plan)@.edges == old(plan)@.edges,
        },
{
    let i1 = match plan.get_room_index_by_id(room1.id.as_str()) {
        Ok(i) => i,
        Err(e) => {
            return Err(e);
        },
    };
    let i2 = match plan.get_room_index_by_id(room2.id.as_str()) {
        Ok(i) => i,
        Err(e) => {
            return Err(e);
        },
    };
    proof {
        crate::floorplan::lemma_find_room_from_properties(plan@.rooms, room1@.id, 0);
        crate::floorplan::lemma_find_room_from_properties(plan@.rooms, room2@.id, 0);
    }
    plan.add_door(i1, i2, door.clone());
    Ok(())
}

/// The two-room world: rooms numbered zero and one, one door each way, and
/// the start in room zero.
pub fn generate_room2_floorplan() -> (r: FloorPlanResult<FloorPlan>)
    ensures
        r matches Ok(plan) && plan_wf(plan@) && plan@.rooms.len() == 2 && plan@.edges.len() == 2
            && plan@.start == Some(0int) && plan@.rooms[0].id == spec_decimal(0)
            && plan@.rooms[0].name == room_label(1) && plan@.rooms[1].id == spec_decimal(1)
            && plan@.rooms[1].name == room_label(2) && plan@.edges[0] == (DoorEdgeModel {
            from: 0,
            to: 1,
            door: DoorModel { id: spec_decimal(0), name: door_label(1) },
        }) && plan@.edges[1] == (DoorEdgeModel {
            from: 1,
            to: 0,
            door: DoorModel { id: spec_decimal(1), name: door_label(2) },
        }),
{
    let mut floorplan = FloorPlan::new();
    let rooms = create_rooms(2);
    floorplan.add_room(rooms[0].clone());
    floorplan.add_room(rooms[1].clone());
    let doors = create_doors(2);
    proof {
        lemma_spec_decimal_injective(0, 1);
        lemma_find_room_from_hits(floorplan@.rooms, 0, 0);
        lemma_find_room_from_hits(floorplan@.rooms, 1, 0);
    }
    match door_adder(&mut floorplan, &rooms[0], &rooms[1], &doors[0]) {
        Ok(_) => {},
        Err(e) => {
            proof {
                assert(false);
            }
            return Err(e);
        },
    }
    match door_adder(&mut floorplan, &rooms[1], &rooms[0], &doors[1]) {
        Ok(_) => {},
        Err(e) => {
            proof {
                assert(false);
            }
            return Err(e);
        },
    }
    match floorplan.set_start_room(rooms[0].id.as_str()) {
        Ok(_) => {},
        Err(e) => {
            proof {
                assert(false);
            }
            return Err(e);
        },
    }
    Ok(floorplan)
}

/// How the five-room world is wired: rooms numbered zero to four, a
/// reciprocal pair of doors between zero and one, one and two, zero and
/// three, and two and four, in that order, and the start in room zero.
pub open spec fn room5_edges() -> Seq<DoorEdgeModel> {
    seq![
        DoorEdgeModel { from: 0, to: 1, door: DoorModel { id: spec_decimal(0), name: door_label(1) } },
        DoorEdgeModel { from: 1, to: 0, door: DoorModel { id: spec_decimal(1), name: door_label(2) } },
        DoorEdgeModel { from: 1, to: 2, door: DoorModel { id: spec_decimal(2), name: door_label(3) } },
        DoorEdgeModel { from: 2, to: 1, door: DoorModel { id: spec_decimal(3), name: door_label(4) } },
        DoorEdgeModel { from: 0, to: 3, door: DoorModel { id: spec_decimal(4), name: door_label(5) } },
        DoorEdgeModel { from: 3, to: 0, door: DoorModel { id: spec_decimal(5), name: door_label(6) } },
        DoorEdgeModel { from: 2, to: 4, door: DoorModel { id: spec_decimal(6), name: door_label(7) } },
        DoorEdgeModel { from: 4, to: 2, door: DoorModel { id: spec_decimal(7), name: door_label(8) } },
    ]
}

/// The five-room world: rooms numbered zero to four wired as `room5_edges`
/// says, and the start in room zero.
pub fn generate_room5_floorplan() -> (r: FloorPlanResult<FloorPlan>)
    ensures
        r matches Ok(plan) && plan_wf(plan@) && plan@.rooms.len() == 5 && plan@.start == Some(0int)
            && (forall|i: int|
            0 <= i < 5 ==> (#[trigger] plan@.rooms[i]).id == spec_decimal(i) && plan@.rooms[i].name
                == room_label(i + 1)) && plan@.edges == room5_edges(),
{
    let mut floorplan = FloorPlan::new();
    let rooms = create_rooms(5);
    floorplan.add_room(rooms[0].clone());
    floorplan.add_room(rooms[1].clone());
    floorplan.add_room(rooms[2].clone());
    floorplan.add_room(rooms[3].clone());
    floorplan.add_room(rooms[4].clone());
    let doors = create_doors(8);
    proof {
        assert forall|a: int, b: int| 0 <= a < b < 5 implies spec_decimal(a) != spec_decimal(
            b,
        ) by {
            lemma_spec_decimal_injective(a, b);
        }
        lemma_find_room_from_hits(floorplan@.rooms, 0, 0);
        lemma_find_room_from_hits(floorplan@.rooms, 1, 0);
        lemma_find_room_from_hits(floorplan@.rooms, 2, 0);
        lemma_find_room_from_hits(floorplan@.rooms, 3, 0);
        lemma_find_room_from_hits(floorplan@.rooms, 4, 0);
    }
    let pairs: [(usize, usize); 8] = [(0, 1), (1, 0), (1, 2), (2, 1), (0, 3), (3, 0), (2, 4), (
        4,
        2,
    )];
    let mut i: usize = 0;
    while i < 8
        invariant
            0 <= i <= 8,
            rooms@.len() == 5,
            forall|t: int|
                0 <= t < 5 ==> (#[trigger] rooms@[t])@.id == spec_decimal(t),
            plan_wf(floorplan@),
            floorplan@.rooms.len() == 5,
            floorplan@.start is None,
            forall|t: int|
                0 <= t < 5 ==> (#[trigger] floorplan@.rooms[t]).id == spec_decimal(t)
                    && floorplan@.rooms[t].name == room_label(t + 1),
            forall|t: int|
                0 <= t < 5 ==> find_room_index(floorplan@, spec_decimal(t)) == Some(t),
            doors@.len() == 8,
            forall|t: int|
                0 <= t < 8 ==> (#[trigger] doors@[t])@.id == spec_decimal(t) && doors@[t]@.name
                    == door_label(t + 1),
            pairs@ == seq![
                (0usize, 1usize), (1usize, 0usize), (1usize, 2usize), (2usize, 1usize),
                (0usize, 3usize), (3usize, 0usize), (2usize, 4usize), (4usize, 2usize),
            ],
            floorplan@.edges == room5_edges().take(i as int),
        decreases 8 - i,
    {
        let (a, b) = pairs[i];
        proof {
            assert((a, b) == pairs@[i as int]);
            assert(a < 5 && b < 5);
        }
        let room_a = &rooms[a];
        let room_b = &rooms[b];
        proof {
            assert(room5_edges().take(i + 1).drop_last() =~= room5_edges().take(i as int));
        }
        match door_adder(&mut floorplan, room_a, room_b, &doors[i]) {
            Ok(_) => {},
            Err(e) => {
                proof {
                    assert(false);
                }
                return Err(e);
            },
        }
        proof {
            assert(floorplan@.edges =~= room5_edges().take(i + 1));
        }
        i += 1;
    }
    proof {
        assert(room5_edges().take(8) =~= room5_edges());
    }
    match floorplan.set_start_room(rooms[0].id.as_str()) {
        Ok(_) => {},
        Err(e) => {
            proof {
                assert(false);
            }
            return Err(e);
        },
    }
    Ok(floorplan)
}


/// Whether the pair list holds the given ordered pair.
fn pairs_contains(v: &Vec<(usize, usize)>, a: usize, b: usize) -> (r: bool)
    ensures
        r == v@.contains((a, b)),
{
    let n = v.len();
    let mut k: usize = 0;
    while k < n
        invariant
            0 <= k <= n,
            n == v@.len(),
            forall|t: int| 0 <= t < k ==> (#[trigger] v@[t]) != (a, b),
        decreases n - k,
    {
        if v[k].0 == a && v[k].1 == b {
            proof {
                assert(v@[k as int] == (a, b));
            }
            return true;
        }
        k += 1;
    }
    proof {
        if v@.contains((a, b)) {
            let t = choose|t: int| 0 <= t < v@.len() && v@[t] == (a, b);
            assert(false);
        }
    }
    false
}

/// Appending an edge grows a room's outgoing count by one exactly when the
/// edge leaves that room.
proof fn lemma_outgoing_edges_push(edges: Seq<DoorEdgeModel>, e: DoorEdgeModel, room: int)
    ensures
        outgoing_edges(edges.push(e), room).len() == outgoing_edges(edges, room).len() + (
        if e.from == room {
            1int
        } else {
            0
        }),
{
    assert(edges.push(e).drop_last() =~= edges);
    assert(edges.push(e).last() == e);
}

/// How many doors each room may take in the larger synthetic world.
pub const MAX_DOORS_PER_ROOM: usize = 19;

/// The twenty-five-room world: numbered rooms connected by up to two
/// hundred and fifty reciprocal door pairs. No room links to itself, no
/// pair of rooms is connected twice, no room takes more than nineteen
/// doors, every door can be walked back through an opposite door, and the
/// door ids follow one counter, so all are distinct. The start is room
/// zero.
#[verifier::rlimit(100)]
pub fn generate_room25_floorplan() -> (plan: FloorPlan)
    ensures
        plan_wf(plan@),
        plan@.rooms.len() == 25,
        forall|t: int|
            0 <= t < 25 ==> (#[trigger] plan@.rooms[t]).id == spec_decimal(t)
                && plan@.rooms[t].name == room_label(t),
        plan@.start == Some(0int),
        doors_paired(plan@),
        door_ids_sequential(plan@),
        2 <= plan@.edges.len() <= 500,
        forall|k: int|
            0 <= k < plan@.edges.len() ==> (#[trigger] plan@.edges[k]).from != plan@.edges[k].to,
        forall|k1: int, k2: int|
            #![trigger plan@.edges[k1], plan@.edges[k2]]
            0 <= k1 < k2 < plan@.edges.len() ==> (plan@.edges[k1].from, plan@.edges[k1].to) != (
            plan@.edges[k2].from,
            plan@.edges[k2].to,
            ),
        forall|r: int|
            0 <= r < 25 ==> outgoing_edges(plan@.edges, r).len() <= MAX_DOORS_PER_ROOM,
{
    let mut floorplan = FloorPlan::new();
    let mut i: usize = 0;
    while i < 25
        invariant
            0 <= i <= 25,
            plan_wf(floorplan@),
            floorplan@.rooms.len() == i,
            floorplan@.edges.len() == 0,
            floorplan@.start is None,
            forall|t: int|
                0 <= t < i ==> (#[trigger] floorplan@.rooms[t]).id == spec_decimal(t)
                    && floorplan@.rooms[t].name == room_label(t),
        decreases 25 - i,
    {
        let id = u64_to_string(i as u64);
        let name = String::from_str("Room ").concat(id.as_str());
        proof {
            assert(name@ =~= room_label(i as int));
        }
        floorplan.add_room(Room { id, name });
        i += 1;
    }
    let zero = u64_to_string(0);
    proof {
        lemma_find_room_from_hits(floorplan@.rooms, 0, 0);
    }
    match floorplan.set_start_room(zero.as_str()) {
        Ok(_) => {},
        Err(_) => {
            proof {
                assert(false);
            }
        },
    }
    let mut pairs: Vec<(usize, usize)> = Vec::new();
    let mut counts: Vec<usize> = Vec::new();
    let mut c: usize = 0;
    while c < 25
        invariant
            0 <= c <= 25,
            counts@.len() == c,
            forall|t: int| 0 <= t < c ==> (#[trigger] counts@[t]) == 0,
        decreases 25 - c,
    {
        counts.push(0);
        c += 1;
    }
    proof {
        assert forall|r: int| 0 <= r < 25 implies counts@[r] == outgoing_edges(
            floorplan@.edges,
            r,
        ).len() by {
            assert(outgoing_edges(floorplan@.edges, r).len() == 0);
        }
    }
    let mut i: usize = 0;
    while i < 250
        invariant
            0 <= i <= 250,
            plan_wf(floorplan@),
            floorplan@.rooms.len() == 25,
            floorplan@.start == Some(0int),
            forall|t: int|
                0 <= t < 25 ==> (#[trigger] floorplan@.rooms[t]).id == spec_decimal(t)
                    && floorplan@.rooms[t].name == room_label(t),
            counts@.len() == 25,
            doors_paired(floorplan@),
            door_ids_sequential(floorplan@),
            floorplan@.edges.len() <= 2 * i,
            i >= 1 ==> floorplan@.edges.len() >= 2,
            pairs@.len() == floorplan@.edges.len(),
            forall|k: int|
                0 <= k < pairs@.len() ==> ((#[trigger] pairs@[k]).0 as int)
                    == floorplan@.edges[k].from && (pairs@[k].1 as int) == floorplan@.edges[k].to,
            forall|k1: int, k2: int|
                #![trigger pairs@[k1], pairs@[k2]]
                0 <= k1 < k2 < pairs@.len() ==> pairs@[k1] != pairs@[k2],
            forall|k: int|
                0 <= k < pairs@.len() ==> pairs@.contains(
                    ((#[trigger] pairs@[k]).1, pairs@[k].0),
                ),
            forall|k: int|
                0 <= k < floorplan@.edges.len() ==> (#[trigger] floorplan@.edges[k]).from
                    != floorplan@.edges[k].to,
            forall|r: int|
                0 <= r < 25 ==> (#[trigger] counts@[r]) == outgoing_edges(
                    floorplan@.edges,
                    r,
                ).len() && counts@[r] <= MAX_DOORS_PER_ROOM,
        decreases 250 - i,
    {
        let door_name = String::from_str("Door ").concat(u64_to_string((i as u64) + 1).as_str());
        let mut room1_index: usize = i % 25;
        let mut room2_index: usize = (i + 1) % 25;
        let mut attempts: usize = 0;
        while attempts < 50
            invariant
                room1_index < 25,
                room2_index < 25,
                attempts <= 50,
                counts@.len() == 25,
                pairs@.len() == 0 ==> room1_index != room2_index,
            decreases 50 - attempts,
        {
            let linked = pairs_contains(&pairs, room1_index, room2_index);
            let room1_full = counts[room1_index] >= MAX_DOORS_PER_ROOM;
            let room2_full = counts[room2_index] >= MAX_DOORS_PER_ROOM;
            if !(linked || room1_index == room2_index || room1_full || room2_full) {
                break ;
            }
            room2_index = (room2_index + 1) % 25;
            if room2_index == room1_index {
                room1_index = (room1_index + 1) % 25;
            }
            attempts += 1;
        }
        let linked = pairs_contains(&pairs, room1_index, room2_index);
        let room1_full = counts[room1_index] >= MAX_DOORS_PER_ROOM;
        let room2_full = counts[room2_index] >= MAX_DOORS_PER_ROOM;
        if room1_index != room2_index && !linked && !room1_full && !room2_full {
            proof {
                if pairs@.contains((room2_index, room1_index)) {
                    let k = choose|k: int|
                        0 <= k < pairs@.len() && pairs@[k] == (room2_index, room1_index);
                    assert(pairs@.contains((pairs@[k].1, pairs@[k].0)));
                    assert(false);
                }
            }
            let ghost pairs_pre = pairs@;
            let door_a = Door { id: usize_to_string(pairs.len()), name: door_name.clone() };
            pairs.push((room1_index, room2_index));
            let door_b = Door { id: usize_to_string(pairs.len()), name: door_name };
            pairs.push((room2_index, room1_index));
            counts[room1_index] = counts[room1_index] + 1;
            counts[room2_index] = counts[room2_index] + 1;
            let ghost m_pre = floorplan@;
            floorplan.add_door(room1_index, room2_index, door_a);
            floorplan.add_door(room2_index, room1_index, door_b);
            proof {
                let n = m_pre.edges.len() as int;
                let ghost ea = floorplan@.edges[n];
                let ghost eb = floorplan@.edges[n + 1];
                assert(floorplan@.edges =~= m_pre.edges.push(ea).push(eb));
                assert(pairs@ =~= pairs_pre.push((room1_index, room2_index)).push(
                    (room2_index, room1_index),
                ));
                assert(pairs_pre =~= pairs@.take(n));
                lemma_spec_decimal_injective(n, n + 1);
                assert(reverse_doors(ea, eb));
                lemma_doors_paired_extend_pair(m_pre, floorplan@, ea, eb);
                assert forall|k: int| 0 <= k < floorplan@.edges.len() implies (
                #[trigger] floorplan@.edges[k]).door.id == spec_decimal(k) by {
                    if k < n {
                        assert(floorplan@.edges[k] == m_pre.edges[k]);
                    }
                }
                assert forall|k: int| 0 <= k < floorplan@.edges.len() implies (
                #[trigger] floorplan@.edges[k]).from != floorplan@.edges[k].to by {
                    if k < n {
                        assert(floorplan@.edges[k] == m_pre.edges[k]);
                    }
                }
                assert forall|k: int| 0 <= k < pairs@.len() implies ((#[trigger] pairs@[k]).0
                    as int) == floorplan@.edges[k].from && (pairs@[k].1 as int)
                    == floorplan@.edges[k].to by {
                    if k < n {
                        assert(pairs@[k] == pairs_pre[k]);
                        assert(floorplan@.edges[k] == m_pre.edges[k]);
                    }
                }
                assert forall|k1: int, k2: int|
                    #![trigger pairs@[k1], pairs@[k2]]
                    0 <= k1 < k2 < pairs@.len() implies pairs@[k1] != pairs@[k2] by {
                    if k2 < n {
                        assert(pairs@[k1] == pairs_pre[k1]);
                        assert(pairs@[k2] == pairs_pre[k2]);
                    } else if k1 < n {
                        assert(pairs@[k1] == pairs_pre[k1]);
                        if pairs@[k2] == pairs@[k1] {
                            assert(pairs_pre.contains(pairs@[k1]));
                        }
                    }
                }
                assert forall|k: int| 0 <= k < pairs@.len() implies pairs@.contains(
                    ((#[trigger] pairs@[k]).1, pairs@[k].0),
                ) by {
                    if k < n {
                        assert(pairs@[k] == pairs_pre[k]);
                        assert(pairs_pre.contains((pairs_pre[k].1, pairs_pre[k].0)));
                        let w = choose|w: int|
                            0 <= w < pairs_pre.len() && pairs_pre[w] == (
                            pairs_pre[k].1,
                            pairs_pre[k].0,
                            );
                        assert(pairs@[w] == pairs_pre[w]);
                    } else if k == n {
                        assert(pairs@[n + 1] == (room2_index, room1_index));
                    } else {
                        assert(pairs@[n] == (room1_index, room2_index));
                    }
                }
                assert forall|r: int| 0 <= r < 25 implies (#[trigger] counts@[r])
                    == outgoing_edges(floorplan@.edges, r).len() && counts@[r]
                    <= MAX_DOORS_PER_ROOM by {
                    lemma_outgoing_edges_push(m_pre.edges, ea, r);
                    lemma_outgoing_edges_push(m_pre.edges.push(ea), eb, r);
                    assert(m_pre.edges.push(ea).push(eb) =~= floorplan@.edges);
                }
            }
        }
        i += 1;
    }
    proof {
        assert forall|r: int| 0 <= r < 25 implies outgoing_edges(floorplan@.edges, r).len()
            <= MAX_DOORS_PER_ROOM by {
            assert(counts@[r] == outgoing_edges(floorplan@.edges, r).len());
        }
        assert forall|k1: int, k2: int|
            #![trigger floorplan@.edges[k1], floorplan@.edges[k2]]
            0 <= k1 < k2 < floorplan@.edges.len() implies (
        floorplan@.edges[k1].from,
        floorplan@.edges[k1].to,
        ) != (floorplan@.edges[k2].from, floorplan@.edges[k2].to) by {
            assert(pairs@[k1] != pairs@[k2]);
            assert((pairs@[k1].0 as int) == floorplan@.edges[k1].from && (pairs@[k1].1 as int)
                == floorplan@.edges[k1].to);
            assert((pairs@[k2].0 as int) == floorplan@.edges[k2].from && (pairs@[k2].1 as int)
                == floorplan@.edges[k2].to);
        }
    }
    floorplan
}

} // verus!
