//! The room layout deriver: from the occupied room's outgoing doors to the
//! room's width and the position of each door platform.
//!
//! With N doors the room is (N+1) horizontal separator units wide, centered
//! at zero; door platforms step across the separators from the left, taking
//! their heights from a fixed list of vertical offsets that wraps when N
//! outgrows it. A door whose destination is the previous room is marked as
//! the exit. The door list is always cleared and rebuilt in full.

use vstd::prelude::*;

use crate::floorplan::{
    find_room_index, lemma_outgoing_edges_bounds, lemma_outgoing_edges_len_le, outgoing_edges,
    plan_wf, Door, Room,
};
use crate::text::{clone_opt, opt_view, str_eq};
use crate::world::CurrentFloorPlan;

verus! {

/// Horizontal distance between neighbouring door platforms.
pub const PLATFORM_X_SEPARATOR: i64 = 450;

/// How many entries the vertical offset list holds before it wraps.
pub const PLATFORM_Y_COUNT: usize = 10;

/// The largest door count the layout accepts; keeps every coordinate well
/// inside the i64 range.
pub const MAX_LAYOUT_DOORS: usize = 0x1000000;

/// The vertical offset of the door platform at one position, cycling
/// through the fixed offset list.
pub open spec fn spec_y_offset(i: int) -> int {
    let r = i % 10;
    if r == 0 {
        0
    } else if r == 1 {
        -150
    } else if r == 2 {
        120
    } else if r == 3 {
        -100
    } else if r == 4 {
        -180
    } else if r == 5 {
        100
    } else if r == 6 {
        -200
    } else if r == 7 {
        -50
    } else if r == 8 {
        165
    } else {
        25
    }
}

/// The vertical offset of the door platform at one position.
pub fn y_offset(i: usize) -> (y: i64)
    ensures
        y == spec_y_offset(i as int),
{
    let r = i % 10;
    match r {
        0 => 0,
        1 => -150,
        2 => 120,
        3 => -100,
        4 => -180,
        5 => 100,
        6 => -200,
        7 => -50,
        8 => 165,
        _ => 25,
    }
}

/// The horizontal position of the door platform at position `k` among `n`
/// doors: one separator in from the left wall for each step.
pub open spec fn spec_x_position(k: int, n: int) -> int {
    450 * (k + 1) - 225 * (n + 1)
}

/// Law: door platforms stand at strictly increasing horizontal positions,
/// so no two doors of a room ever share one.
pub proof fn lemma_door_positions_increase(k1: int, k2: int, n: int)
    requires
        k1 < k2,
    ensures
        spec_x_position(k1, n) < spec_x_position(k2, n),
{
}

/// One door platform of the occupied room.
#[derive(Debug)]
pub struct DoorState {
    pub room_id: String,
    pub room_name: String,
    pub position_x: i64,
    pub position_y: i64,
    pub is_exit: bool,
}

/// The derived state of the occupied room: wall distance, floor and ceiling
/// width, the door platforms, and which room the occupant stands in and
/// came from.
#[derive(Debug)]
pub struct RoomState {
    pub wall_distance_from_center: i64,
    pub floor_ceiling_width: i64,
    pub doors: Vec<DoorState>,
    pub room_id: Option<String>,
    pub previous_room_id: Option<String>,
}

/// Distance from the room's center to a wall before any layout has been
/// derived.
pub const DEFAULT_WALL_DISTANCE_FROM_CENTER: i64 = 1500;

impl Default for RoomState {
    /// A room of the default width with no doors and no position.
    fn default() -> (r: RoomState)
        ensures
            r.wall_distance_from_center == DEFAULT_WALL_DISTANCE_FROM_CENTER,
            r.floor_ceiling_width == 2 * DEFAULT_WALL_DISTANCE_FROM_CENTER,
            r.doors@.len() == 0,
            r.room_id is None,
            r.previous_room_id is None,
    {
        RoomState {
            wall_distance_from_center: DEFAULT_WALL_DISTANCE_FROM_CENTER,
            floor_ceiling_width: 2 * DEFAULT_WALL_DISTANCE_FROM_CENTER,
            doors: Vec::new(),
            room_id: None,
            previous_room_id: None,
        }
    }
}

/// How one door platform reflects the door-and-room pair at position `k`
/// among `n` doors: the connected room's id and name, the stepped
/// horizontal position, the cycled vertical offset, and the exit mark when
/// the destination is the previous room.
pub open spec fn door_state_reflects_pair(
    d: DoorState,
    pair: (Door, Room),
    k: int,
    n: int,
    previous: Option<Seq<char>>,
) -> bool {
    &&& d.room_id@ == pair.1@.id
    &&& d.room_name@ == pair.1@.name
    &&& d.position_x == spec_x_position(k, n)
    &&& d.position_y == spec_y_offset(k)
    &&& d.is_exit == (previous == Some(pair.1@.id))
}

/// Rebuilds the room's layout from the occupied room's outgoing doors:
/// the room becomes one separator unit wider than the doors are many,
/// centered at zero, and the door list is rebuilt in full, one platform
/// per outgoing door in order.
pub fn update_room_state_with_doors(
    room_state: &mut RoomState,
    doors_and_rooms: &Vec<(Door, Room)>,
)
    requires
        doors_and_rooms@.len() <= MAX_LAYOUT_DOORS,
    ensures
        final(room_state).wall_distance_from_center == 225 * (doors_and_rooms@.len() + 1),
        final(room_state).floor_ceiling_width == 450 * (doors_and_rooms@.len() + 1),
        final(room_state).doors@.len() == doors_and_rooms@.len(),
        forall|k: int|
            0 <= k < doors_and_rooms@.len() ==> door_state_reflects_pair(
                #[trigger] final(room_state).doors@[k],
                doors_and_rooms@[k],
                k,
                doors_and_rooms@.len() as int,
                opt_view(old(room_state).previous_room_id),
            ),
        final(room_state).room_id == old(room_state).room_id,
        final(room_state).previous_room_id == old(room_state).previous_room_id,
{
    let number_of_doors = doors_and_rooms.len();
    let half_width: i64 = 225 * ((number_of_doors as i64) + 1);
    room_state.wall_distance_from_center = half_width;
    room_state.floor_ceiling_width = 2 * half_width;
    room_state.doors.clear();
    let mut k: usize = 0;
    while k < number_of_doors
        invariant
            0 <= k <= number_of_doors,
            number_of_doors == doors_and_rooms@.len(),
            number_of_doors <= MAX_LAYOUT_DOORS,
            half_width == 225 * (number_of_doors + 1),
            room_state.wall_distance_from_center == 225 * (number_of_doors + 1),
            room_state.floor_ceiling_width == 450 * (number_of_doors + 1),
            room_state.doors@.len() == k,
            forall|t: int|
                0 <= t < k ==> door_state_reflects_pair(
                    #[trigger] room_state.doors@[t],
                    doors_and_rooms@[t],
                    t,
                    doors_and_rooms@.len() as int,
                    opt_view(room_state.previous_room_id),
                ),
            room_state.room_id == old(room_state).room_id,
            room_state.previous_room_id == old(room_state).previous_room_id,
        decreases number_of_doors - k,
    {
        let pair = &doors_and_rooms[k];
        let x: i64 = PLATFORM_X_SEPARATOR * ((k as i64) + 1) - half_width;
        let y = y_offset(k);
        let is_exit = match &room_state.previous_room_id {
            Some(p) => str_eq(p.as_str(), pair.1.id.as_str()),
            None => false,
        };
        let door_state = DoorState {
            room_id: pair.1.id.clone(),
            room_name: pair.1.name.clone(),
            position_x: x,
            position_y: y,
            is_exit,
        };
        room_state.doors.push(door_state);
        k += 1;
    }
}


/// How one door platform reflects an outgoing edge of the occupied room in
/// the plan: the target room's id and name, the stepped positions, and the
/// exit mark when the target is the previous room.
pub open spec fn door_state_reflects_edge(
    d: DoorState,
    e: crate::floorplan::DoorEdgeModel,
    m: crate::floorplan::FloorPlanModel,
    k: int,
    n: int,
    previous: Option<Seq<char>>,
) -> bool {
    &&& d.room_id@ == m.rooms[e.to].id
    &&& d.room_name@ == m.rooms[e.to].name
    &&& d.position_x == spec_x_position(k, n)
    &&& d.position_y == spec_y_offset(k)
    &&& d.is_exit == (previous == Some(m.rooms[e.to].id))
}

/// How a rebuilt room state reflects the world: the occupant's position is
/// recorded, and with a plan and an occupied room in it, the doors and
/// widths are derived from that room's outgoing edges; otherwise the door
/// list is empty.
pub open spec fn room_state_derived(rs: RoomState, w: crate::world::WorldModel) -> bool {
    &&& opt_view(rs.previous_room_id) == w.you_were_here
    &&& opt_view(rs.room_id) == w.you_are_here
    &&& match (w.floorplan, w.you_are_here) {
        (Some(p), Some(location)) => match find_room_index(p, location) {
            Some(i) => {
                let out = outgoing_edges(p.edges, i);
                &&& rs.doors@.len() == out.len()
                &&& rs.wall_distance_from_center == 225 * (out.len() + 1)
                &&& rs.floor_ceiling_width == 450 * (out.len() + 1)
                &&& forall|k: int|
                    0 <= k < out.len() ==> door_state_reflects_edge(
                        #[trigger] rs.doors@[k],
                        out[k],
                        p,
                        k,
                        out.len() as int,
                        w.you_were_here,
                    )
            },
            None => rs.doors@.len() == 0,
        },
        _ => rs.doors@.len() == 0,
    }
}

/// Clears the room's door list and rebuilds it in full from the occupied
/// room's outgoing doors, recording the occupant's position. When the
/// world holds no plan, no position, or a position no room of the plan
/// has, the door list stays empty and the widths keep their old values.
pub fn update_doors(current_floorplan: &CurrentFloorPlan, room_state: &mut RoomState)
    requires
        match current_floorplan@.floorplan {
            Some(p) => plan_wf(p) && p.edges.len() <= MAX_LAYOUT_DOORS,
            None => true,
        },
    ensures
        room_state_derived(*final(room_state), current_floorplan@),
        match (current_floorplan@.floorplan, current_floorplan@.you_are_here) {
            (Some(p), Some(location)) => find_room_index(p, location) is Some
                || (final(room_state).wall_distance_from_center
                == old(room_state).wall_distance_from_center
                && final(room_state).floor_ceiling_width
                == old(room_state).floor_ceiling_width),
            _ => final(room_state).wall_distance_from_center
                == old(room_state).wall_distance_from_center
                && final(room_state).floor_ceiling_width
                == old(room_state).floor_ceiling_width,
        },
{
    room_state.doors.clear();
    room_state.previous_room_id = clone_opt(&current_floorplan.you_were_here);
    room_state.room_id = clone_opt(&current_floorplan.you_are_here);
    if let (Some(plan), Some(location)) = (&current_floorplan.floorplan, &current_floorplan
        .you_are_here) {
        match plan.get_doors_and_connected_rooms(location.as_str()) {
            Ok(pairs) => {
                proof {
                    let p = plan@;
                    let i = find_room_index(p, location@).unwrap();
                    lemma_outgoing_edges_len_le(p.edges, i);
                    lemma_outgoing_edges_bounds(p.edges, i, p.rooms.len() as int);
                }
                let ghost previous_before = opt_view(room_state.previous_room_id);
                update_room_state_with_doors(room_state, &pairs);
                proof {
                    let p = plan@;
                    let i = find_room_index(p, location@).unwrap();
                    let out = outgoing_edges(p.edges, i);
                    assert forall|k: int| 0 <= k < out.len() implies door_state_reflects_edge(
                        #[trigger] room_state.doors@[k],
                        out[k],
                        p,
                        k,
                        out.len() as int,
                        current_floorplan@.you_were_here,
                    ) by {
                        assert(door_state_reflects_pair(
                            room_state.doors@[k],
                            pairs@[k],
                            k,
                            out.len() as int,
                            previous_before,
                        ));
                        assert(pairs@[k].1@ == p.rooms[out[k].to]);
                    }
                }
            },
            Err(_) => {
                // the occupant's room is not in the plan: fail closed with
                // an empty door list rather than deriving a wrong layout
            },
        }
    }
}

} // verus!
