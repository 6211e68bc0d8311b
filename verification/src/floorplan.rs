//! The floor plan: a directed graph of rooms (nodes) and doors (edges).
//!
//! Rooms are identified by string ids; doors are directed, so a reciprocal
//! connection between two rooms takes two doors. A floor plan also remembers
//! an optional start room. Lookups fail closed with an explicit error rather
//! than defaulting, so a missed lookup can never silently relocate the
//! occupant.

use vstd::prelude::*;

verus! {

/// A navigable location: one room per resource or synthetic grouping.
#[derive(Debug)]
pub struct Room {
    pub id: String,
    pub name: String,
}

/// A directed connection from one room to another.
#[derive(Debug)]
pub struct Door {
    pub id: String,
    pub name: String,
}

/// Mathematical model of a room: its id and display name as char sequences.
#[verifier::ext_equal]
pub ghost struct RoomModel {
    pub id: Seq<char>,
    pub name: Seq<char>,
}

/// Mathematical model of a door.
#[verifier::ext_equal]
pub ghost struct DoorModel {
    pub id: Seq<char>,
    pub name: Seq<char>,
}

impl View for Room {
    type V = RoomModel;

    open spec fn view(&self) -> RoomModel {
        RoomModel { id: self.id@, name: self.name@ }
    }
}

impl View for Door {
    type V = DoorModel;

    open spec fn view(&self) -> DoorModel {
        DoorModel { id: self.id@, name: self.name@ }
    }
}

impl Clone for Room {
    /// Clones a room, keeping its id and name.
    fn clone(&self) -> (res: Room)
        ensures
            res@ == self@,
    {
        Room { id: self.id.clone(), name: self.name.clone() }
    }
}

impl PartialEq for Room {
    fn eq(&self, other: &Room) -> (r: bool) {
        self.id == other.id && self.name == other.name
    }
}

impl vstd::std_specs::cmp::PartialEqSpecImpl for Room {
    open spec fn obeys_eq_spec() -> bool {
        true
    }

    open spec fn eq_spec(&self, other: &Room) -> bool {
        self@ == other@
    }
}

impl Clone for Door {
    /// Clones a door, keeping its id and name.
    fn clone(&self) -> (res: Door)
        ensures
            res@ == self@,
    {
        Door { id: self.id.clone(), name: self.name.clone() }
    }
}

impl PartialEq for Door {
    fn eq(&self, other: &Door) -> (r: bool) {
        self.id == other.id && self.name == other.name
    }
}

impl vstd::std_specs::cmp::PartialEqSpecImpl for Door {
    open spec fn obeys_eq_spec() -> bool {
        true
    }

    open spec fn eq_spec(&self, other: &Door) -> bool {
        self@ == other@
    }
}

/// A directed edge of the graph: a door leading from one room to another,
/// both given as indices into the room list.
#[derive(Debug)]
pub struct DoorEdge {
    pub from: usize,
    pub to: usize,
    pub door: Door,
}

/// Mathematical model of an edge.
#[verifier::ext_equal]
pub ghost struct DoorEdgeModel {
    pub from: int,
    pub to: int,
    pub door: DoorModel,
}

impl View for DoorEdge {
    type V = DoorEdgeModel;

    open spec fn view(&self) -> DoorEdgeModel {
        DoorEdgeModel { from: self.from as int, to: self.to as int, door: self.door@ }
    }
}

impl Clone for DoorEdge {
    /// Clones an edge, keeping its endpoints and door.
    fn clone(&self) -> (res: DoorEdge)
        ensures
            res@ == self@,
    {
        DoorEdge { from: self.from, to: self.to, door: self.door.clone() }
    }
}

impl PartialEq for DoorEdge {
    fn eq(&self, other: &DoorEdge) -> (r: bool) {
        self.from == other.from && self.to == other.to && self.door == other.door
    }
}

impl vstd::std_specs::cmp::PartialEqSpecImpl for DoorEdge {
    open spec fn obeys_eq_spec() -> bool {
        true
    }

    open spec fn eq_spec(&self, other: &DoorEdge) -> bool {
        self@ == other@
    }
}

/// Why a floor plan operation failed.
#[derive(Clone, Debug)]
pub enum FloorPlanError {
    /// A lookup by room id found no such room.
    RoomDataNotFound(String),
    /// An external source of resource records failed.
    ServiceError(String),
}

pub type FloorPlanResult<T> = Result<T, FloorPlanError>;

/// Mathematical model of a floor plan: the rooms in insertion order, the
/// directed door edges in insertion order, and the optional start room index.
#[verifier::ext_equal]
pub ghost struct FloorPlanModel {
    pub rooms: Seq<RoomModel>,
    pub edges: Seq<DoorEdgeModel>,
    pub start: Option<int>,
}

/// The directed graph of rooms and doors for one ingestion cycle.
///
/// An adjacency structure keyed by integer handles: `add_room` hands out the
/// room's index, and edges refer to rooms by index. String-id lookups scan
/// the room list for the first match.
#[derive(Clone, Debug)]
pub struct FloorPlan {
    rooms: Vec<Room>,
    edges: Vec<DoorEdge>,
    start: Option<usize>,
}

impl View for FloorPlan {
    type V = FloorPlanModel;

    closed spec fn view(&self) -> FloorPlanModel {
        FloorPlanModel {
            rooms: self.rooms@.map_values(|r: Room| r@),
            edges: self.edges@.map_values(|e: DoorEdge| e@),
            start: match self.start {
                Some(i) => Some(i as int),
                None => None,
            },
        }
    }
}

/// Every edge's endpoints exist in the same graph, and so does the start
/// room if one is set.
pub open spec fn plan_wf(m: FloorPlanModel) -> bool {
    &&& forall|i: int|
        0 <= i < m.edges.len() ==> 0 <= #[trigger] m.edges[i].from < m.rooms.len()
            && 0 <= m.edges[i].to < m.rooms.len()
    &&& match m.start {
        Some(s) => 0 <= s < m.rooms.len(),
        None => true,
    }
}

/// Well-formedness carries over to a plan with the same edges, at least as
/// many rooms, and an in-range start room.
pub proof fn lemma_plan_wf_extend(m0: FloorPlanModel, m1: FloorPlanModel)
    requires
        plan_wf(m0),
        m1.edges == m0.edges,
        m1.rooms.len() >= m0.rooms.len(),
        match m1.start {
            Some(s) => 0 <= s < m1.rooms.len(),
            None => true,
        },
    ensures
        plan_wf(m1),
{
    assert forall|i: int| 0 <= i < m1.edges.len() implies 0 <= #[trigger] m1.edges[i].from
        < m1.rooms.len() && 0 <= m1.edges[i].to < m1.rooms.len() by {
        assert(m1.edges[i] == m0.edges[i]);
        assert(0 <= m0.edges[i].from < m0.rooms.len());
    }
}

impl FloorPlan {
    /// An empty floor plan: no rooms, no doors, no start room.
    pub fn new() -> (plan: FloorPlan)
        ensures
            plan@.rooms.len() == 0,
            plan@.edges.len() == 0,
            plan@.start is None,
            plan_wf(plan@),
    {
        FloorPlan { rooms: Vec::new(), edges: Vec::new(), start: None }
    }

    /// Adds a room and returns its handle. Never fails.
    pub fn add_room(&mut self, room: Room) -> (handle: usize)
        requires
            plan_wf(old(self)@),
        ensures
            plan_wf(final(self)@),
            final(self)@.rooms == old(self)@.rooms.push(room@),
            final(self)@.edges == old(self)@.edges,
            final(self)@.start == old(self)@.start,
            handle == old(self)@.rooms.len(),
    {
        let handle = self.rooms.len();
        self.rooms.push(room);
        proof {
            assert(self@.rooms =~= old(self)@.rooms.push(room@));
            lemma_plan_wf_extend(old(self)@, self@);
        }
        handle
    }

    /// Adds a directed door from one room to another. The handles must have
    /// been obtained from this same plan, so they are in bounds.
    pub fn add_door(&mut self, from: usize, to: usize, door: Door)
        requires
            plan_wf(old(self)@),
            from < old(self)@.rooms.len(),
            to < old(self)@.rooms.len(),
        ensures
            plan_wf(final(self)@),
            final(self)@.rooms == old(self)@.rooms,
            final(self)@.edges == old(self)@.edges.push(
                DoorEdgeModel { from: from as int, to: to as int, door: door@ },
            ),
            final(self)@.start == old(self)@.start,
    {
        let ghost d = door@;
        self.edges.push(DoorEdge { from, to, door });
        assert(self@.edges =~= old(self)@.edges.push(
            DoorEdgeModel { from: from as int, to: to as int, door: d },
        ));
    }
}


/// The index of the first room at or after position `j` whose id matches.
pub open spec fn find_room_from(rooms: Seq<RoomModel>, id: Seq<char>, j: int) -> Option<int>
    decreases rooms.len() - j,
{
    if j < 0 || j >= rooms.len() {
        None
    } else if rooms[j].id == id {
        Some(j)
    } else {
        find_room_from(rooms, id, j + 1)
    }
}

/// The index of the first room with the given id, if any.
pub open spec fn find_room_index(m: FloorPlanModel, id: Seq<char>) -> Option<int> {
    find_room_from(m.rooms, id, 0)
}

/// What a successful or failed room search means: a hit is the first
/// matching index, and a miss means no room from `j` on has the id.
pub proof fn lemma_find_room_from_properties(rooms: Seq<RoomModel>, id: Seq<char>, j: int)
    requires
        0 <= j <= rooms.len(),
    ensures
        match find_room_from(rooms, id, j) {
            Some(i) => j <= i < rooms.len() && rooms[i].id == id && forall|k: int|
                j <= k < i ==> (#[trigger] rooms[k].id) != id,
            None => forall|k: int| j <= k < rooms.len() ==> (#[trigger] rooms[k].id) != id,
        },
    decreases rooms.len() - j,
{
    if j < rooms.len() && rooms[j].id != id {
        lemma_find_room_from_properties(rooms, id, j + 1);
    }
}

/// The outgoing edges of a room, in edge insertion order.
pub open spec fn outgoing_edges(edges: Seq<DoorEdgeModel>, room: int) -> Seq<DoorEdgeModel>
    decreases edges.len(),
{
    if edges.len() == 0 {
        Seq::empty()
    } else {
        let rest = outgoing_edges(edges.drop_last(), room);
        if edges.last().from == room {
            rest.push(edges.last())
        } else {
            rest
        }
    }
}

/// Outgoing edges all leave the given room, and stay within the room bounds
/// that hold of the whole edge list.
pub proof fn lemma_outgoing_edges_bounds(edges: Seq<DoorEdgeModel>, room: int, nrooms: int)
    requires
        forall|i: int|
            0 <= i < edges.len() ==> 0 <= (#[trigger] edges[i]).from < nrooms && 0 <= edges[i].to
                < nrooms,
    ensures
        forall|k: int|
            0 <= k < outgoing_edges(edges, room).len() ==> {
                let e = #[trigger] outgoing_edges(edges, room)[k];
                e.from == room && 0 <= e.to < nrooms
            },
    decreases edges.len(),
{
    if edges.len() > 0 {
        lemma_outgoing_edges_bounds(edges.drop_last(), room, nrooms);
        let rest = outgoing_edges(edges.drop_last(), room);
        let out = outgoing_edges(edges, room);
        assert(0 <= edges.last().from < nrooms && 0 <= edges.last().to < nrooms);
        assert forall|k: int| 0 <= k < out.len() implies {
            let e = #[trigger] out[k];
            e.from == room && 0 <= e.to < nrooms
        } by {
            if k < rest.len() {
                assert(out[k] == rest[k]);
            }
        }
    }
}

/// The doors returned for a room pair up, one for one and in order, with
/// that room's outgoing edges, each door beside the room its edge leads to.
pub open spec fn door_room_pairs_match(
    pairs: Seq<(Door, Room)>,
    out: Seq<DoorEdgeModel>,
    m: FloorPlanModel,
) -> bool {
    &&& pairs.len() == out.len()
    &&& forall|k: int|
        0 <= k < out.len() ==> (#[trigger] pairs[k]).0@ == out[k].door && pairs[k].1@
            == m.rooms[out[k].to]
}

/// The target of the first outgoing edge of `room`, at or after position
/// `j`, whose door has the given id.
pub open spec fn find_door_target_from(
    edges: Seq<DoorEdgeModel>,
    room: int,
    did: Seq<char>,
    j: int,
) -> Option<int>
    decreases edges.len() - j,
{
    if j < 0 || j >= edges.len() {
        None
    } else if edges[j].from == room && edges[j].door.id == did {
        Some(edges[j].to)
    } else {
        find_door_target_from(edges, room, did, j + 1)
    }
}

impl FloorPlan {
    /// The handle of the first room with the given id, or `RoomDataNotFound`
    /// when no room has it.
    pub fn get_room_index_by_id(&self, room_id: &str) -> (r: FloorPlanResult<usize>)
        ensures
            match find_room_index(self@, room_id@) {
                Some(i) => r matches Ok(h) && h == i,
                None => r matches Err(FloorPlanError::RoomDataNotFound(missing)) && missing@
                    == room_id@,
            },
    {
        let n = self.rooms.len();
        let mut j: usize = 0;
        while j < n
            invariant
                0 <= j <= n,
                n == self@.rooms.len(),
                self@.rooms == self.rooms@.map_values(|r: Room| r@),
                find_room_from(self@.rooms, room_id@, 0) == find_room_from(
                    self@.rooms,
                    room_id@,
                    j as int,
                ),
            decreases n - j,
        {
            if crate::text::str_eq(self.rooms[j].id.as_str(), room_id) {
                return Ok(j);
            }
            j += 1;
        }
        Err(FloorPlanError::RoomDataNotFound(room_id.to_owned()))
    }

    /// The first room with the given id, or `RoomDataNotFound` when no room
    /// has it: an absent id never yields a default room.
    pub fn get_room_by_id(&self, room_id: &str) -> (r: FloorPlanResult<Room>)
        ensures
            match find_room_index(self@, room_id@) {
                Some(i) => r matches Ok(room) && room@ == self@.rooms[i],
                None => r matches Err(FloorPlanError::RoomDataNotFound(missing)) && missing@
                    == room_id@,
            },
    {
        match self.get_room_index_by_id(room_id) {
            Ok(j) => {
                proof {
                    lemma_find_room_from_properties(self@.rooms, room_id@, 0);
                }
                Ok(self.rooms[j].clone())
            },
            Err(e) => Err(e),
        }
    }

    /// Marks the room with the given id as the start room, or fails with
    /// `RoomDataNotFound` and leaves the plan unchanged.
    pub fn set_start_room(&mut self, room_id: &str) -> (r: FloorPlanResult<()>)
        requires
            plan_wf(old(self)@),
        ensures
            plan_wf(final(self)@),
            final(self)@.rooms == old(self)@.rooms,
            final(self)@.edges == old(self)@.edges,
            match find_room_index(old(self)@, room_id@) {
                Some(i) => r is Ok && final(self)@.start == Some(i),
                None => r matches Err(FloorPlanError::RoomDataNotFound(missing)) && missing@
                    == room_id@ && final(self)@.start == old(self)@.start,
            },
    {
        match self.get_room_index_by_id(room_id) {
            Ok(j) => {
                proof {
                    lemma_find_room_from_properties(self@.rooms, room_id@, 0);
                }
                self.start = Some(j);
                proof {
                    lemma_plan_wf_extend(old(self)@, self@);
                }
                Ok(())
            },
            Err(e) => Err(e),
        }
    }

    /// The start room, or `RoomDataNotFound` when none has been set.
    pub fn get_start_room(&self) -> (r: FloorPlanResult<Room>)
        requires
            plan_wf(self@),
        ensures
            match self@.start {
                Some(s) => r matches Ok(room) && room@ == self@.rooms[s],
                None => r matches Err(FloorPlanError::RoomDataNotFound(missing)) && missing@
                    == "start room"@,
            },
    {
        match self.start {
            Some(j) => Ok(self.rooms[j].clone()),
            None => Err(FloorPlanError::RoomDataNotFound("start room".to_owned())),
        }
    }

    /// How many rooms and doors the world holds.
    pub fn get_world_size(&self) -> (r: (usize, usize))
        ensures
            r.0 == self@.rooms.len(),
            r.1 == self@.edges.len(),
    {
        (self.rooms.len(), self.edges.len())
    }

    /// The doors leaving the room with the given id, in insertion order and
    /// each paired with the room its edge leads to, or `RoomDataNotFound`
    /// when no room has the id.
    pub fn get_doors_and_connected_rooms(&self, room_id: &str) -> (r: FloorPlanResult<
        Vec<(Door, Room)>,
    >)
        requires
            plan_wf(self@),
        ensures
            match find_room_index(self@, room_id@) {
                Some(i) => r matches Ok(pairs) && door_room_pairs_match(
                    pairs@,
                    outgoing_edges(self@.edges, i),
                    self@,
                ),
                None => r matches Err(FloorPlanError::RoomDataNotFound(missing)) && missing@
                    == room_id@,
            },
    {
        let i = match self.get_room_index_by_id(room_id) {
            Ok(i) => i,
            Err(e) => {
                return Err(e);
            },
        };
        proof {
            lemma_find_room_from_properties(self@.rooms, room_id@, 0);
        }
        let mut pairs: Vec<(Door, Room)> = Vec::new();
        let n = self.edges.len();
        let mut j: usize = 0;
        while j < n
            invariant
                plan_wf(self@),
                0 <= j <= n,
                n == self@.edges.len(),
                i < self@.rooms.len(),
                self@.rooms == self.rooms@.map_values(|r: Room| r@),
                self@.edges == self.edges@.map_values(|e: DoorEdge| e@),
                door_room_pairs_match(
                    pairs@,
                    outgoing_edges(self@.edges.take(j as int), i as int),
                    self@,
                ),
            decreases n - j,
        {
            proof {
                assert(self@.edges.take(j + 1).drop_last() =~= self@.edges.take(j as int));
                assert(self@.edges.take(j + 1).last() == self@.edges[j as int]);
            }
            let ghost prev = outgoing_edges(self@.edges.take(j as int), i as int);
            proof {
                assert(0 <= self@.edges[j as int].from < self@.rooms.len());
                assert(self@.edges[j as int] == self.edges@[j as int]@);
            }
            if self.edges[j].from == i {
                let door = self.edges[j].door.clone();
                let room = self.rooms[self.edges[j].to].clone();
                pairs.push((door, room));
                proof {
                    assert(outgoing_edges(self@.edges.take(j + 1), i as int) =~= prev.push(
                        self@.edges[j as int],
                    ));
                }
            }
            j += 1;
        }
        proof {
            assert(self@.edges.take(n as int) =~= self@.edges);
        }
        Ok(pairs)
    }

    /// The doors leaving the given room, in insertion order.
    pub fn get_doors(&self, room_index: usize) -> (doors: Vec<Door>)
        requires
            room_index < self@.rooms.len(),
        ensures
            doors@.len() == outgoing_edges(self@.edges, room_index as int).len(),
            forall|k: int|
                0 <= k < doors@.len() ==> (#[trigger] doors@[k])@ == outgoing_edges(
                    self@.edges,
                    room_index as int,
                )[k].door,
    {
        let mut doors: Vec<Door> = Vec::new();
        let n = self.edges.len();
        let mut j: usize = 0;
        while j < n
            invariant
                0 <= j <= n,
                n == self@.edges.len(),
                self@.edges == self.edges@.map_values(|e: DoorEdge| e@),
                doors@.len() == outgoing_edges(self@.edges.take(j as int), room_index as int).len(),
                forall|k: int|
                    0 <= k < doors@.len() ==> (#[trigger] doors@[k])@ == outgoing_edges(
                        self@.edges.take(j as int),
                        room_index as int,
                    )[k].door,
            decreases n - j,
        {
            proof {
                assert(self@.edges.take(j + 1).drop_last() =~= self@.edges.take(j as int));
                assert(self@.edges.take(j + 1).last() == self@.edges[j as int]);
            }
            let ghost prev = outgoing_edges(self@.edges.take(j as int), room_index as int);
            if self.edges[j].from == room_index {
                doors.push(self.edges[j].door.clone());
                proof {
                    assert(outgoing_edges(self@.edges.take(j + 1), room_index as int) =~= prev.push(
                        self@.edges[j as int],
                    ));
                }
            }
            j += 1;
        }
        proof {
            assert(self@.edges.take(n as int) =~= self@.edges);
        }
        doors
    }

    /// The room behind the first door with the given id leaving the given
    /// room, or nothing when that room has no such door.
    pub fn get_connected_room(&self, room_index: usize, door_id: &str) -> (r: Option<Room>)
        requires
            plan_wf(self@),
            room_index < self@.rooms.len(),
        ensures
            match find_door_target_from(self@.edges, room_index as int, door_id@, 0) {
                Some(t) => r matches Some(room) && room@ == self@.rooms[t],
                None => r is None,
            },
    {
        let n = self.edges.len();
        let mut j: usize = 0;
        while j < n
            invariant
                plan_wf(self@),
                0 <= j <= n,
                n == self@.edges.len(),
                room_index < self@.rooms.len(),
                self@.rooms == self.rooms@.map_values(|r: Room| r@),
                self@.edges == self.edges@.map_values(|e: DoorEdge| e@),
                find_door_target_from(self@.edges, room_index as int, door_id@, 0)
                    == find_door_target_from(self@.edges, room_index as int, door_id@, j as int),
            decreases n - j,
        {
            proof {
                assert(0 <= self@.edges[j as int].from < self@.rooms.len());
                assert(self@.edges[j as int] == self.edges@[j as int]@);
            }
            if self.edges[j].from == room_index && crate::text::str_eq(
                self.edges[j].door.id.as_str(),
                door_id,
            ) {
                return Some(self.rooms[self.edges[j].to].clone());
            }
            j += 1;
        }
        None
    }
}

impl PartialEq for FloorPlan {
    /// Structural equality: the same rooms, doors and start room.
    fn eq(&self, other: &FloorPlan) -> (r: bool) {
        let rooms_eq = self.rooms == other.rooms;
        let edges_eq = self.edges == other.edges;
        let start_eq = match (self.start, other.start) {
            (None, None) => true,
            (Some(a), Some(b)) => a == b,
            _ => false,
        };
        let r = rooms_eq && edges_eq && start_eq;
        proof {
            if r {
                assert(self@.rooms =~= other@.rooms);
                assert(self@.edges =~= other@.edges);
                assert(self@ =~= other@);
            } else {
                if self@ == other@ {
                    assert(self@.rooms.len() == self.rooms@.len());
                    assert(other@.rooms.len() == other.rooms@.len());
                    assert(self.rooms@.len() == other.rooms@.len());
                    assert forall|k: int| 0 <= k < self.rooms@.len() implies (
                    #[trigger] self.rooms@[k])@ == other.rooms@[k]@ by {
                        assert(self@.rooms[k] == other@.rooms[k]);
                    }
                    assert(self@.edges.len() == self.edges@.len());
                    assert(other@.edges.len() == other.edges@.len());
                    assert(self.edges@.len() == other.edges@.len());
                    assert forall|k: int| 0 <= k < self.edges@.len() implies (
                    #[trigger] self.edges@[k])@ == other.edges@[k]@ by {
                        assert(self@.edges[k] == other@.edges[k]);
                    }
                    assert(false);
                }
            }
        }
        r
    }
}

impl vstd::std_specs::cmp::PartialEqSpecImpl for FloorPlan {
    open spec fn obeys_eq_spec() -> bool {
        true
    }

    open spec fn eq_spec(&self, other: &FloorPlan) -> bool {
        self@ == other@
    }
}


/// Whether some room of the plan has the given id.
pub open spec fn has_room_id(m: FloorPlanModel, id: Seq<char>) -> bool {
    exists|i: int| 0 <= i < m.rooms.len() && (#[trigger] m.rooms[i]).id == id
}

/// A room search succeeds exactly when some room has the id.
pub proof fn lemma_find_room_index_some(m: FloorPlanModel, id: Seq<char>)
    ensures
        (find_room_index(m, id) is Some) <==> has_room_id(m, id),
{
    lemma_find_room_from_properties(m.rooms, id, 0);
    match find_room_index(m, id) {
        Some(i) => {
            assert(m.rooms[i].id == id);
        },
        None => {
            if has_room_id(m, id) {
                let i = choose|i: int| 0 <= i < m.rooms.len() && (#[trigger] m.rooms[i]).id == id;
                assert(false);
            }
        },
    }
}

/// One edge reciprocates another: it runs the opposite way under a
/// different door id.
pub open spec fn reverse_doors(a: DoorEdgeModel, b: DoorEdgeModel) -> bool {
    b.from == a.to && b.to == a.from && b.door.id != a.door.id
}

/// Whether the edge at position `i` has a reciprocating edge somewhere in
/// the plan.
pub open spec fn has_reverse_door(m: FloorPlanModel, i: int) -> bool {
    exists|j: int| 0 <= j < m.edges.len() && reverse_doors(m.edges[i], #[trigger] m.edges[j])
}

/// Every door of the plan has a matching opposite-direction door with a
/// distinct id.
pub open spec fn doors_paired(m: FloorPlanModel) -> bool {
    forall|i: int| 0 <= i < m.edges.len() ==> #[trigger] has_reverse_door(m, i)
}

/// Pairing survives any change that leaves the edges alone.
pub proof fn lemma_doors_paired_same_edges(m0: FloorPlanModel, m1: FloorPlanModel)
    requires
        doors_paired(m0),
        m1.edges == m0.edges,
    ensures
        doors_paired(m1),
{
    assert forall|i: int| 0 <= i < m1.edges.len() implies #[trigger] has_reverse_door(m1, i) by {
        assert(has_reverse_door(m0, i));
        let j = choose|j: int|
            0 <= j < m0.edges.len() && reverse_doors(m0.edges[i], #[trigger] m0.edges[j]);
        assert(reverse_doors(m1.edges[i], m1.edges[j]));
    }
}

/// Pairing survives appending a reciprocal pair of edges.
pub proof fn lemma_doors_paired_extend_pair(
    m0: FloorPlanModel,
    m1: FloorPlanModel,
    e1: DoorEdgeModel,
    e2: DoorEdgeModel,
)
    requires
        doors_paired(m0),
        m1.edges == m0.edges.push(e1).push(e2),
        reverse_doors(e1, e2),
    ensures
        doors_paired(m1),
{
    let n = m0.edges.len() as int;
    assert(reverse_doors(e2, e1));
    assert forall|i: int| 0 <= i < m1.edges.len() implies #[trigger] has_reverse_door(m1, i) by {
        if i < n {
            assert(has_reverse_door(m0, i));
            let j = choose|j: int|
                0 <= j < m0.edges.len() && reverse_doors(m0.edges[i], #[trigger] m0.edges[j]);
            assert(m1.edges[i] == m0.edges[i]);
            assert(reverse_doors(m1.edges[i], m1.edges[j]));
        } else if i == n {
            assert(m1.edges[i] == e1);
            assert(reverse_doors(m1.edges[i], m1.edges[n + 1]));
        } else {
            assert(m1.edges[i] == e2);
            assert(reverse_doors(m1.edges[i], m1.edges[n]));
        }
    }
}

/// One plan extends another: the rooms and edges of the old plan stand
/// unchanged at the front of the new one, and the start room is the same.
pub open spec fn plan_extends(m1: FloorPlanModel, m0: FloorPlanModel) -> bool {
    &&& m1.rooms.len() >= m0.rooms.len()
    &&& m1.rooms.take(m0.rooms.len() as int) == m0.rooms
    &&& m1.edges.len() >= m0.edges.len()
    &&& m1.edges.take(m0.edges.len() as int) == m0.edges
    &&& m1.start == m0.start
}

/// Every plan extends itself.
pub proof fn lemma_plan_extends_refl(m: FloorPlanModel)
    ensures
        plan_extends(m, m),
{
    assert(m.rooms.take(m.rooms.len() as int) =~= m.rooms);
    assert(m.edges.take(m.edges.len() as int) =~= m.edges);
}

/// Extension is transitive.
pub proof fn lemma_plan_extends_trans(m2: FloorPlanModel, m1: FloorPlanModel, m0: FloorPlanModel)
    requires
        plan_extends(m2, m1),
        plan_extends(m1, m0),
    ensures
        plan_extends(m2, m0),
{
    assert(m2.rooms.take(m0.rooms.len() as int) =~= m1.rooms.take(m0.rooms.len() as int));
    assert(m2.edges.take(m0.edges.len() as int) =~= m1.edges.take(m0.edges.len() as int));
}

/// A hit of a room search stands in any extension of the plan: the first
/// room with an id stays the first when rooms are only appended.
pub proof fn lemma_find_room_index_stable(m1: FloorPlanModel, m0: FloorPlanModel, id: Seq<char>)
    requires
        plan_extends(m1, m0),
        find_room_index(m0, id) is Some,
    ensures
        find_room_index(m1, id) == find_room_index(m0, id),
{
    lemma_find_room_from_properties(m0.rooms, id, 0);
    let i = find_room_index(m0, id).unwrap();
    assert forall|t: int| 0 <= t < i implies (#[trigger] m1.rooms[t].id) != id by {
        assert(m1.rooms.take(m0.rooms.len() as int)[t] == m0.rooms[t]);
    }
    assert(m1.rooms.take(m0.rooms.len() as int)[i] == m0.rooms[i]);
    assert(m1.rooms[i].id == id);
    lemma_find_room_from_hits(m1.rooms, i, 0);
}

/// A room present in a plan is still present in any extension of it.
pub proof fn lemma_plan_extends_keeps_room(m1: FloorPlanModel, m0: FloorPlanModel, id: Seq<char>)
    requires
        plan_extends(m1, m0),
        has_room_id(m0, id),
    ensures
        has_room_id(m1, id),
{
    let i = choose|i: int| 0 <= i < m0.rooms.len() && (#[trigger] m0.rooms[i]).id == id;
    assert(m1.rooms.take(m0.rooms.len() as int)[i] == m0.rooms[i]);
    assert(m1.rooms[i].id == id);
}


/// A room has no more outgoing edges than the plan has edges.
pub proof fn lemma_outgoing_edges_len_le(edges: Seq<DoorEdgeModel>, room: int)
    ensures
        outgoing_edges(edges, room).len() <= edges.len(),
    decreases edges.len(),
{
    if edges.len() > 0 {
        lemma_outgoing_edges_len_le(edges.drop_last(), room);
    }
}


/// A room search from position `j` lands on `k` when no room between them
/// matches and the room at `k` does.
pub proof fn lemma_find_room_from_hits(rooms: Seq<RoomModel>, k: int, j: int)
    requires
        0 <= j <= k < rooms.len(),
        forall|t: int| j <= t < k ==> (#[trigger] rooms[t].id) != rooms[k].id,
    ensures
        find_room_from(rooms, rooms[k].id, j) == Some(k),
    decreases k - j,
{
    if j < k {
        lemma_find_room_from_hits(rooms, k, j + 1);
    }
}


/// Law: the outgoing listing of a room holds exactly the plan's edges
/// sourced at that room: everything listed is such an edge, and every such
/// edge is listed.
pub proof fn lemma_outgoing_edges_exact(edges: Seq<DoorEdgeModel>, room: int)
    ensures
        forall|k: int|
            0 <= k < outgoing_edges(edges, room).len() ==> edges.contains(
                #[trigger] outgoing_edges(edges, room)[k],
            ) && outgoing_edges(edges, room)[k].from == room,
        forall|j: int|
            0 <= j < edges.len() && (#[trigger] edges[j]).from == room ==> outgoing_edges(
                edges,
                room,
            ).contains(edges[j]),
    decreases edges.len(),
{
    if edges.len() > 0 {
        let prefix = edges.drop_last();
        lemma_outgoing_edges_exact(prefix, room);
        let out = outgoing_edges(edges, room);
        let rest = outgoing_edges(prefix, room);
        assert forall|k: int| 0 <= k < out.len() implies edges.contains(#[trigger] out[k])
            && out[k].from == room by {
            if k < rest.len() {
                assert(out[k] == rest[k]);
                assert(prefix.contains(rest[k]));
                let t = choose|t: int| 0 <= t < prefix.len() && prefix[t] == rest[k];
                assert(edges[t] == rest[k]);
            } else {
                assert(out[k] == edges.last());
                assert(edges[edges.len() - 1] == edges.last());
            }
        }
        assert forall|j: int| 0 <= j < edges.len() && (#[trigger] edges[j]).from == room implies out
            .contains(edges[j]) by {
            if j < edges.len() - 1 {
                assert(prefix[j] == edges[j]);
                assert(rest.contains(edges[j]));
                let t = choose|t: int| 0 <= t < rest.len() && rest[t] == edges[j];
                assert(out[t] == rest[t]);
            } else {
                assert(out[out.len() - 1] == edges.last());
            }
        }
    }
}

} // verus!
