//! How far it is: turns between tiles, as the movement rules give them.
use crate::grid::GridPosition;
use crate::units::{MovementType, PlayerId};
use vstd::prelude::*;

verus! {

/// Turns, and movement points used in the last one. A journey that uses the greatest number of
/// points cannot be made.
#[derive(Clone, Copy, Debug, PartialEq, Eq, Structural)]
pub struct TurnDistance {
    pub turns: u32,
    pub used_mp: u32,
}

/// The first journey is shorter: fewer turns, or as many turns and fewer points.
pub open spec fn shorter(a: TurnDistance, b: TurnDistance) -> bool {
    a.turns < b.turns || (a.turns == b.turns && a.used_mp < b.used_mp)
}

/// The journey that cannot be made.
pub open spec fn unreachable_distance() -> TurnDistance {
    TurnDistance { turns: u32::MAX, used_mp: u32::MAX }
}

impl TurnDistance {
    /// Whether this journey is shorter.
    pub fn is_shorter(self, other: TurnDistance) -> (r: bool)
        ensures
            r == shorter(self, other),
    {
        self.turns < other.turns || (self.turns == other.turns && self.used_mp < other.used_mp)
    }
}

/// Who travels, and how.
#[derive(Clone, Copy, Debug, PartialEq, Eq, Structural)]
pub struct Traveller {
    pub player_id: PlayerId,
    pub movement_type: MovementType,
    pub max_movement: u32,
}

/// How far one journey is.
#[derive(Clone, Copy, Debug, PartialEq, Eq, Structural)]
pub struct Route {
    pub traveller: Traveller,
    pub start: GridPosition,
    pub target: GridPosition,
    pub distance: TurnDistance,
}

/// The terrain lets a way of moving get from one tile to another, in any number of turns.
#[derive(Clone, Copy, Debug, PartialEq, Eq, Structural)]
pub struct TerrainLink {
    pub movement_type: MovementType,
    pub start: GridPosition,
    pub target: GridPosition,
}

/// All journeys and links that matter. What is not listed cannot be reached.
#[derive(Clone, Debug)]
pub struct TravelTable {
    pub routes: Vec<Route>,
    pub links: Vec<TerrainLink>,
}

/// The distance in the first route from index `i` on for the journey.
pub open spec fn route_distance(
    routes: Seq<Route>,
    traveller: Traveller,
    start: GridPosition,
    target: GridPosition,
    i: int,
) -> TurnDistance
    decreases routes.len() - i,
{
    if i >= routes.len() {
        unreachable_distance()
    } else if routes[i].traveller == traveller && routes[i].start == start && routes[i].target
        == target {
        routes[i].distance
    } else {
        route_distance(routes, traveller, start, target, i + 1)
    }
}

impl TravelTable {
    /// How far the journey is.
    pub open spec fn turn_distance(
        self,
        traveller: Traveller,
        start: GridPosition,
        target: GridPosition,
    ) -> TurnDistance {
        route_distance(self.routes@, traveller, start, target, 0)
    }

    /// The terrain joins the tiles.
    pub open spec fn linked(
        self,
        movement_type: MovementType,
        start: GridPosition,
        target: GridPosition,
    ) -> bool {
        self.links@.contains(TerrainLink { movement_type, start, target })
    }

    /// How far the journey is.
    pub fn calculate_turn_distance(
        &self,
        traveller: Traveller,
        start: GridPosition,
        target: GridPosition,
    ) -> (r: TurnDistance)
        ensures
            r == self.turn_distance(traveller, start, target),
    {
        let mut i: usize = 0;
        while i < self.routes.len()
            invariant
                i <= self.routes.len(),
                route_distance(self.routes@, traveller, start, target, 0) == route_distance(
                    self.routes@,
                    traveller,
                    start,
                    target,
                    i as int,
                ),
            decreases self.routes.len() - i,
        {
            if self.routes[i].traveller == traveller && self.routes[i].start == start
                && self.routes[i].target == target {
                return self.routes[i].distance;
            }
            i += 1;
        }
        TurnDistance { turns: u32::MAX, used_mp: u32::MAX }
    }

    /// Whether the terrain joins the tiles.
    pub fn is_terrain_reachable(
        &self,
        movement_type: MovementType,
        start: GridPosition,
        target: GridPosition,
    ) -> (r: bool)
        ensures
            r == self.linked(movement_type, start, target),
    {
        let link = TerrainLink { movement_type, start, target };
        let mut i: usize = 0;
        while i < self.links.len()
            invariant
                i <= self.links.len(),
                link == (TerrainLink { movement_type, start, target }),
                forall|j: int| 0 <= j < i ==> self.links[j] != link,
            decreases self.links.len() - i,
        {
            if self.links[i] == link {
                assert(self.links@[i as int] == link);
                return true;
            }
            i += 1;
        }
        false
    }
}

/// A journey is as far as the first route for it says; a journey without a route cannot be made.
pub proof fn law_distance_is_as_listed(
    travel: TravelTable,
    traveller: Traveller,
    start: GridPosition,
    target: GridPosition,
    k: int,
)
    ensures
        ({
            let routes = travel.routes@;
            let d = travel.turn_distance(traveller, start, target);
            &&& 0 <= k < routes.len() && is_route(routes[k], traveller, start, target) && (forall|
                j: int,
            | 0 <= j < k ==> !is_route(#[trigger] routes[j], traveller, start, target)) ==> d
                == routes[k].distance
            &&& (forall|j: int|
                0 <= j < routes.len() ==> !is_route(#[trigger] routes[j], traveller, start, target))
                ==> d.turns == u32::MAX && d.used_mp == u32::MAX
        }),
{
    lemma_route_from(travel.routes@, traveller, start, target, k, 0);
}

/// The route is for the journey.
pub open spec fn is_route(
    route: Route,
    traveller: Traveller,
    start: GridPosition,
    target: GridPosition,
) -> bool {
    &&& route.start == start
    &&& route.target == target
    &&& route.traveller.player_id == traveller.player_id
    &&& route.traveller.movement_type == traveller.movement_type
    &&& route.traveller.max_movement == traveller.max_movement
}

proof fn lemma_route_from(
    routes: Seq<Route>,
    traveller: Traveller,
    start: GridPosition,
    target: GridPosition,
    k: int,
    i: int,
)
    requires
        0 <= i,
    ensures
        ({
            let d = route_distance(routes, traveller, start, target, i);
            &&& i <= k < routes.len() && is_route(routes[k], traveller, start, target) && (forall|
                j: int,
            | i <= j < k ==> !is_route(#[trigger] routes[j], traveller, start, target)) ==> d
                == routes[k].distance
            &&& (forall|j: int|
                i <= j < routes.len() ==> !is_route(#[trigger] routes[j], traveller, start, target))
                ==> d.turns == u32::MAX && d.used_mp == u32::MAX
        }),
    decreases routes.len() - i,
{
    if i < routes.len() && !is_route(routes[i], traveller, start, target) {
        lemma_route_from(routes, traveller, start, target, k, i + 1);
    }
}

} // verus!
