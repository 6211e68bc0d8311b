//! The world state: the latest accepted floor plan together with the
//! occupant's current and previous room ids.
//!
//! Only the merge step replaces the plan; the current room defaults to the
//! incoming plan's start room when none is set, and the previous room is
//! touched only by an actual room change through a door, never by a merge.

use vstd::prelude::*;

use crate::floorplan::{plan_wf, FloorPlan, FloorPlanModel};
use crate::text::{clone_opt, opt_view, str_eq};

verus! {

/// The world state: at most one accepted floor plan, the occupant's
/// position, and when the plan was last refreshed and last modified,
/// in milliseconds of run time.
pub struct CurrentFloorPlan {
    pub floorplan: Option<FloorPlan>,
    pub refreshed: u64,
    pub modified: u64,
    pub you_are_here: Option<String>,
    pub you_were_here: Option<String>,
}

/// Mathematical model of the world state.
#[verifier::ext_equal]
pub ghost struct WorldModel {
    pub floorplan: Option<FloorPlanModel>,
    pub refreshed: int,
    pub modified: int,
    pub you_are_here: Option<Seq<char>>,
    pub you_were_here: Option<Seq<char>>,
}

impl View for CurrentFloorPlan {
    type V = WorldModel;

    open spec fn view(&self) -> WorldModel {
        WorldModel {
            floorplan: match self.floorplan {
                Some(ref p) => Some(p@),
                None => None,
            },
            refreshed: self.refreshed as int,
            modified: self.modified as int,
            you_are_here: opt_view(self.you_are_here),
            you_were_here: opt_view(self.you_were_here),
        }
    }
}

impl Default for CurrentFloorPlan {
    /// An empty world: no plan, no position, clocks at zero.
    fn default() -> (r: CurrentFloorPlan)
        ensures
            r@.floorplan is None,
            r@.refreshed == 0,
            r@.modified == 0,
            r@.you_are_here is None,
            r@.you_were_here is None,
    {
        CurrentFloorPlan {
            floorplan: None,
            refreshed: 0,
            modified: 0,
            you_are_here: None,
            you_were_here: None,
        }
    }
}

/// Where the occupant is after a merge: the current room is kept when set,
/// and otherwise defaults to the incoming plan's start room.
pub open spec fn spec_current_location(incoming: FloorPlanModel, w: WorldModel) -> (
    Option<Seq<char>>,
    Option<Seq<char>>,
) {
    match w.you_are_here {
        Some(location) => (Some(location), w.you_were_here),
        None => match incoming.start {
            Some(s) => (Some(incoming.rooms[s].id), w.you_are_here),
            None => (None, w.you_were_here),
        },
    }
}

/// Picks the current and previous room for a merge of the incoming plan,
/// as `spec_current_location` says.
pub fn determine_current_location(new_floorplan: &FloorPlan, current_floorplan: &CurrentFloorPlan)
    -> (r: (Option<String>, Option<String>))
    requires
        plan_wf(new_floorplan@),
    ensures
        opt_view(r.0) == spec_current_location(new_floorplan@, current_floorplan@).0,
        opt_view(r.1) == spec_current_location(new_floorplan@, current_floorplan@).1,
{
    match &current_floorplan.you_are_here {
        Some(location) => (Some(location.clone()), clone_opt(&current_floorplan.you_were_here)),
        None => match new_floorplan.get_start_room() {
            Ok(room) => (Some(room.id), clone_opt(&current_floorplan.you_are_here)),
            Err(_) => (None, clone_opt(&current_floorplan.you_were_here)),
        },
    }
}

/// The world after merging an incoming plan at a given time: the plan is
/// replaced, the occupant is placed as `spec_current_location` says, the
/// refresh clock is set, and the modification clock moves only when the
/// incoming plan differs from the held one.
pub open spec fn spec_merge(w: WorldModel, incoming: FloorPlanModel, now: int) -> WorldModel {
    WorldModel {
        floorplan: Some(incoming),
        refreshed: now,
        modified: if spec_plan_changed(w, incoming) {
            now
        } else {
            w.modified
        },
        you_are_here: spec_current_location(incoming, w).0,
        you_were_here: spec_current_location(incoming, w).1,
    }
}

/// Whether the incoming plan differs structurally from the held one; with
/// no held plan, any incoming plan counts as a change.
pub open spec fn spec_plan_changed(w: WorldModel, incoming: FloorPlanModel) -> bool {
    match w.floorplan {
        Some(held) => held != incoming,
        None => true,
    }
}

/// Merges an incoming floor plan into the world state and reports whether
/// it differed from the held plan. The plan reference is replaced either
/// way, so an identical refresh is a visible no-op.
pub fn handle_floor_plan_changes(
    current_floorplan: &mut CurrentFloorPlan,
    incoming: FloorPlan,
    now_ms: u64,
) -> (changed: bool)
    requires
        plan_wf(incoming@),
    ensures
        final(current_floorplan)@ == spec_merge(old(current_floorplan)@, incoming@, now_ms as int),
        changed == spec_plan_changed(old(current_floorplan)@, incoming@),
{
    let changed = match &current_floorplan.floorplan {
        Some(held) => !(held == &incoming),
        None => true,
    };
    let (you_are_here, you_were_here) = determine_current_location(&incoming, current_floorplan);
    let modified = if changed {
        now_ms
    } else {
        current_floorplan.modified
    };
    *current_floorplan = CurrentFloorPlan {
        floorplan: Some(incoming),
        refreshed: now_ms,
        modified,
        you_are_here,
        you_were_here,
    };
    changed
}

/// Records a room change through a door: the occupant's room becomes the
/// door's target, and the room left becomes the previous room.
pub fn enter_door(current_floorplan: &mut CurrentFloorPlan, target_room_id: String)
    ensures
        final(current_floorplan)@.you_are_here == Some(target_room_id@),
        final(current_floorplan)@.you_were_here == old(current_floorplan)@.you_are_here,
        final(current_floorplan)@.floorplan == old(current_floorplan)@.floorplan,
        final(current_floorplan)@.refreshed == old(current_floorplan)@.refreshed,
        final(current_floorplan)@.modified == old(current_floorplan)@.modified,
{
    let previous = clone_opt(&current_floorplan.you_are_here);
    current_floorplan.you_were_here = previous;
    current_floorplan.you_are_here = Some(target_room_id);
}

/// Whether the occupant stands in the plan's start room.
pub open spec fn spec_at_start_room(w: WorldModel) -> bool {
    match (w.floorplan, w.you_are_here) {
        (Some(p), Some(location)) => match p.start {
            Some(s) => p.rooms[s].id == location,
            _ => false,
        },
        _ => false,
    }
}

/// Reports whether the occupant stands in the plan's start room.
pub fn at_start_room(current_floorplan: &CurrentFloorPlan) -> (r: bool)
    requires
        match current_floorplan@.floorplan {
            Some(p) => plan_wf(p),
            None => true,
        },
    ensures
        r == spec_at_start_room(current_floorplan@),
{
    match (&current_floorplan.floorplan, &current_floorplan.you_are_here) {
        (Some(plan), Some(location)) => match plan.get_start_room() {
            Ok(room) => str_eq(room.id.as_str(), location.as_str()),
            Err(_) => false,
        },
        _ => false,
    }
}

/// Law: merging the same plan again moves nobody. A second merge of a plan
/// structurally identical to the one already held leaves the occupant's
/// current room exactly where the first merge put it.
pub proof fn lemma_merge_idempotent_current_room(w: WorldModel, p: FloorPlanModel, t1: int, t2: int)
    ensures
        spec_merge(spec_merge(w, p, t1), p, t2).you_are_here == spec_merge(w, p, t1).you_are_here,
        spec_merge(spec_merge(w, p, t1), p, t2).you_were_here == spec_merge(
            w,
            p,
            t1,
        ).you_were_here,
{
}

} // verus!
