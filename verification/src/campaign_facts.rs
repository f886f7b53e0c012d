//! What is known of each island: its buildings, who is there, who gets there when, and which
//! transport can serve it.
use crate::board::Board;
use crate::entity::Entity;
use crate::eta::{
    capture_eta_from_position, capture_time, cautious_capture_time, combat_worth,
    conservative_capture_eta_from_island, default_capture_turns, hp_weighted_combat_value,
    island_eta, lesser, min_option, quotient_up, unit_eta_to_island,
};
use crate::grid::{GameMap, GridPosition, Terrain};
use crate::island_campaign::{
    operation_models, ExistingCampaignOperation, IslandCampaignFacts, OperationModel,
};
use crate::islands::{Island, IslandId, IslandMap};
use crate::master_data::MasterDataRegistry;
use crate::missions::{
    find_island_holding, find_island_numbered, island_holding, island_numbered,
};
use crate::occupants::Occupant;
use crate::operations::{
    assigned_states, cargo_models, cargo_slot, collect_assigned_transport_phases,
    collect_existing_operations, existing_operations, find_cargo_slot, squad_cargoes,
    AssignedTransportState, CargoAssignment, CargoModel,
};
use crate::order::{key_views, sort_order, stable_order};
use crate::snapshots::{
    board_properties, campaign_unit_snapshots, campaign_units, collect_faction_snapshots,
    collect_property_snapshots, collect_unit_snapshots, models, PropertySnapshot, UnitModel,
    UnitSnapshot,
};
use crate::squad::SquadManager;
use crate::transport_options::{
    all_master_unit_types, arrival_time, chosen_option, is_roi_site, is_strategic, is_strategic_site,
    island_options, master_types, missing_cost, missing_expansion_package_cost,
    operation_transport_eta, pays_off, select_transport_option, transport_options_for_island,
};
use crate::travel::TravelTable;
use crate::units::{PlayerId, UnitType};
use vstd::prelude::*;

verus! {

/// Everything that a campaign looks at.
#[derive(Clone, Debug)]
pub struct CampaignScene {
    pub map: GameMap,
    pub registry: MasterDataRegistry,
    pub travel: TravelTable,
    pub islands: IslandMap,
    pub manager: SquadManager,
    pub board: Board,
}

impl CampaignScene {
    /// The units that campaigns may count on.
    pub open spec fn units(self) -> Seq<UnitModel> {
        campaign_units(self.manager.squads@, self.board.rows@)
    }

    /// The buildings in reading order.
    pub open spec fn properties(self) -> Seq<PropertySnapshot> {
        board_properties(self.board.rows@)
    }

    /// What transports of the player are assigned to.
    pub open spec fn states(self, player: PlayerId) -> Seq<(Entity, AssignedTransportState)> {
        assigned_states(
            self.manager.squads@,
            self.units(),
            player,
            self.manager.squads.len() as int,
        )
    }

    /// The campaigns of the player that are under way.
    pub open spec fn operations(self, player: PlayerId) -> Seq<OperationModel> {
        existing_operations(
            self.islands.islands@,
            self.manager.squads@,
            self.units(),
            player,
        )
    }

    /// The cargo that transports of the player fetch or carry.
    pub open spec fn cargoes(self, player: PlayerId) -> Seq<CargoModel> {
        squad_cargoes(
            self.islands.islands@,
            self.manager.squads@,
            self.units(),
            player,
            self.manager.squads.len() as int,
        )
    }

    /// The indices of the islands in the order of their numbers.
    pub open spec fn island_order(self) -> Seq<int> {
        sort_order(number_keys(self.islands.islands@))
    }

    /// The island at the place in the order.
    pub open spec fn island_at(self, k: int) -> Island {
        self.islands.islands[self.island_order()[k]]
    }

    /// The last of the first `n` places in the order with the number. What is gathered about a
    /// number is entered there.
    pub open spec fn ledger(self, id: IslandId, n: int) -> Option<int>
        decreases n,
    {
        if n <= 0 {
            None
        } else if self.island_at(n - 1).id == id {
            Some(n - 1)
        } else {
            self.ledger(id, n - 1)
        }
    }

    /// What is gathered about the island's number is entered at the place.
    pub open spec fn keeps_ledger(self, k: int) -> bool {
        self.ledger(self.island_at(k).id, self.islands.islands.len() as int) == Some(k)
    }
}

/// The numbers of the islands.
pub open spec fn number_keys(islands: Seq<Island>) -> Seq<Seq<u64>> {
    Seq::new(islands.len(), |i: int| seq![islands[i].id.0 as u64])
}

/// The position lies on the island with the number.
pub open spec fn lies_on(islands: Seq<Island>, p: GridPosition, id: IslandId) -> bool {
    island_holding(islands, p, 0) matches Some(i) && islands[i].id == id
}

fn lies(islands: &IslandMap, p: GridPosition, id: IslandId) -> (r: bool)
    ensures
        r == lies_on(islands.islands@, p, id),
{
    match find_island_holding(islands, p) {
        Some(i) => islands.islands[i].id == id,
        None => false,
    }
}

/// The buildings among the first `n` that stand on the island.
pub open spec fn island_sites(
    islands: Seq<Island>,
    properties: Seq<PropertySnapshot>,
    id: IslandId,
    n: int,
) -> Seq<PropertySnapshot>
    decreases n,
{
    if n <= 0 {
        Seq::empty()
    } else if lies_on(islands, properties[n - 1].position, id) {
        island_sites(islands, properties, id, n - 1).push(properties[n - 1])
    } else {
        island_sites(islands, properties, id, n - 1)
    }
}

/// The buildings on the island.
pub open spec fn sites_of(scene: CampaignScene, id: IslandId) -> Seq<PropertySnapshot> {
    island_sites(
        scene.islands.islands@,
        scene.properties(),
        id,
        scene.properties().len() as int,
    )
}

/// Nothing is known of the island yet.
pub open spec fn blank_facts(id: IslandId) -> IslandCampaignFacts {
    IslandCampaignFacts {
        island_id: id,
        capturable_properties: 0,
        strategic_production_sites: 0,
        roi_production_sites: 0,
        neutral_properties: 0,
        friendly_properties: 0,
        enemy_properties: 0,
        friendly_units: 0,
        enemy_units: 0,
        friendly_combat_value: 0,
        enemy_combat_value: 0,
        friendly_arrival_eta: None,
        enemy_arrival_eta: None,
        friendly_capture_eta: None,
        enemy_capture_eta: None,
        transport_eta: None,
        capture_turns: 0,
        island_income_per_turn: 0,
        missing_expansion_package_cost: 0,
        reachable: false,
        has_unowned_properties: false,
    }
}

/// One of the unit types can be built on the terrain.
pub open spec fn builds_some(registry: MasterDataRegistry, terrain: Terrain) -> bool {
    exists|i: int|
        0 <= i < master_types(registry).len() && registry.builds_type(
            terrain,
            #[trigger] master_types(registry)[i],
        )
}

/// One more, if the condition holds.
pub open spec fn counted(count: u32, more: bool) -> u32 {
    if more {
        count.saturating_add(1)
    } else {
        count
    }
}

/// The facts with one more building. Buildings without capture points count for income and
/// production alone. The quickest capture among the buildings that are not the player's counts.
pub open spec fn with_site(
    facts: IslandCampaignFacts,
    registry: MasterDataRegistry,
    player: PlayerId,
    site: PropertySnapshot,
) -> IslandCampaignFacts {
    let property = site.property;
    let capturable = property.max_capture_points > 0;
    let own = property.owner_id == Some(player);
    let turns = quotient_up(property.capture_points, 100) as u32;
    let production = builds_some(registry, property.terrain);
    IslandCampaignFacts {
        capturable_properties: counted(facts.capturable_properties, capturable),
        neutral_properties: counted(
            facts.neutral_properties,
            capturable && property.owner_id is None,
        ),
        friendly_properties: counted(facts.friendly_properties, capturable && own),
        enemy_properties: counted(
            facts.enemy_properties,
            capturable && !own && property.owner_id is Some,
        ),
        has_unowned_properties: facts.has_unowned_properties || (capturable && !own),
        capture_turns: if capturable && !own {
            if facts.capture_turns == 0 || turns < facts.capture_turns {
                turns
            } else {
                facts.capture_turns
            }
        } else {
            facts.capture_turns
        },
        island_income_per_turn: facts.island_income_per_turn.saturating_add(
            registry.income(property.terrain),
        ),
        strategic_production_sites: counted(
            facts.strategic_production_sites,
            is_strategic(property.terrain) && production,
        ),
        roi_production_sites: counted(
            facts.roi_production_sites,
            pays_off(property.terrain) && production,
        ),
        ..facts
    }
}

/// The facts with the first `n` buildings.
pub open spec fn with_sites(
    facts: IslandCampaignFacts,
    registry: MasterDataRegistry,
    player: PlayerId,
    sites: Seq<PropertySnapshot>,
    n: int,
) -> IslandCampaignFacts
    decreases n,
{
    if n <= 0 {
        facts
    } else {
        with_site(
            with_sites(facts, registry, player, sites, n - 1),
            registry,
            player,
            sites[n - 1],
        )
    }
}

/// The unit stands on the board on its own account: no transport carries it and it waits for
/// none.
pub open spec fn stands_alone(unit: UnitModel, cargoes: Seq<CargoModel>) -> bool {
    cargo_slot(cargoes, unit.entity, cargoes.len() as int) is None && unit.transporting is None
}

/// When the unit could be on one of the first `n` islands of the order with the number.
pub open spec fn landing_eta(scene: CampaignScene, unit: UnitModel, id: IslandId, n: int) -> Option<
    u32,
>
    decreases n,
{
    if n <= 0 {
        None
    } else {
        let rest = landing_eta(scene, unit, id, n - 1);
        if scene.island_at(n - 1).id == id {
            lesser(
                rest,
                island_eta(
                    scene.map,
                    scene.registry,
                    scene.travel,
                    unit,
                    scene.island_at(n - 1).tiles@,
                ),
            )
        } else {
            rest
        }
    }
}

/// The facts with one more unit: whether it is there, when it could be, and when it could have
/// captured something there.
pub open spec fn with_unit(
    facts: IslandCampaignFacts,
    scene: CampaignScene,
    player: PlayerId,
    id: IslandId,
    sites: Seq<PropertySnapshot>,
    unit: UnitModel,
) -> IslandCampaignFacts {
    let here = lies_on(scene.islands.islands@, unit.position, id);
    let own = unit.faction == player;
    let worth = combat_worth(unit.unit_type, unit.cost, unit.health) as u32;
    let arrival = landing_eta(scene, unit, id, scene.islands.islands.len() as int);
    let capture = capture_time(scene.map, scene.travel, unit, unit.position, sites);
    if own {
        IslandCampaignFacts {
            friendly_units: counted(facts.friendly_units, here),
            friendly_combat_value: if here {
                facts.friendly_combat_value.saturating_add(worth)
            } else {
                facts.friendly_combat_value
            },
            friendly_arrival_eta: lesser(
                if here {
                    Some(0)
                } else {
                    facts.friendly_arrival_eta
                },
                arrival,
            ),
            friendly_capture_eta: lesser(facts.friendly_capture_eta, capture),
            ..facts
        }
    } else {
        IslandCampaignFacts {
            enemy_units: counted(facts.enemy_units, here),
            enemy_combat_value: if here {
                facts.enemy_combat_value.saturating_add(worth)
            } else {
                facts.enemy_combat_value
            },
            enemy_arrival_eta: lesser(
                if here {
                    Some(0)
                } else {
                    facts.enemy_arrival_eta
                },
                arrival,
            ),
            enemy_capture_eta: lesser(facts.enemy_capture_eta, capture),
            ..facts
        }
    }
}

/// The facts with those of the first `n` units that stand on their own account.
pub open spec fn with_units(
    facts: IslandCampaignFacts,
    scene: CampaignScene,
    player: PlayerId,
    id: IslandId,
    sites: Seq<PropertySnapshot>,
    units: Seq<UnitModel>,
    cargoes: Seq<CargoModel>,
    n: int,
) -> IslandCampaignFacts
    decreases n,
{
    if n <= 0 {
        facts
    } else {
        let rest = with_units(facts, scene, player, id, sites, units, cargoes, n - 1);
        if stands_alone(units[n - 1], cargoes) {
            with_unit(rest, scene, player, id, sites, units[n - 1])
        } else {
            rest
        }
    }
}

/// The facts with one more unit that is fetched for or carried to the island. After its arrival it
/// captures from its landing tile, or, as long as that is open, from the slowest one.
pub open spec fn with_cargo(
    facts: IslandCampaignFacts,
    scene: CampaignScene,
    island: Island,
    sites: Seq<PropertySnapshot>,
    units: Seq<UnitModel>,
    assignment: CargoModel,
    unit: UnitModel,
) -> IslandCampaignFacts {
    let arrival = arrival_time(
        assignment,
        units,
        scene.map,
        scene.registry,
        scene.travel,
        island.tiles@,
    );
    let worth = combat_worth(unit.unit_type, unit.cost, unit.health) as u32;
    let afterwards = match assignment.drop_position {
        Some(p) => capture_time(scene.map, scene.travel, unit, p, sites),
        None => cautious_capture_time(
            scene.map,
            scene.registry,
            scene.travel,
            unit,
            island.tiles@,
            sites,
        ),
    };
    IslandCampaignFacts {
        friendly_combat_value: facts.friendly_combat_value.saturating_add(worth),
        friendly_arrival_eta: lesser(facts.friendly_arrival_eta, arrival),
        friendly_capture_eta: match (arrival, afterwards) {
            (Some(a), Some(b)) => lesser(facts.friendly_capture_eta, Some(a.saturating_add(b))),
            _ => facts.friendly_capture_eta,
        },
        ..facts
    }
}

/// The facts with those of the first `n` units that are fetched for or carried to the island with
/// the number.
pub open spec fn with_cargoes(
    facts: IslandCampaignFacts,
    scene: CampaignScene,
    id: IslandId,
    sites: Seq<PropertySnapshot>,
    units: Seq<UnitModel>,
    cargoes: Seq<CargoModel>,
    n: int,
) -> IslandCampaignFacts
    decreases n,
{
    if n <= 0 {
        facts
    } else {
        let rest = with_cargoes(facts, scene, id, sites, units, cargoes, n - 1);
        match (
            cargo_slot(cargoes, units[n - 1].entity, cargoes.len() as int),
            island_numbered(scene.islands.islands@, id, 0),
        ) {
            (Some(i), Some(k)) => if cargoes[i].island_id == id {
                with_cargo(
                    rest,
                    scene,
                    scene.islands.islands[k],
                    sites,
                    units,
                    cargoes[i],
                    units[n - 1],
                )
            } else {
                rest
            },
            _ => rest,
        }
    }
}

/// The buildings of the player among the first `n`.
pub open spec fn own_among_sites(sites: Seq<PropertySnapshot>, player: PlayerId, n: int) -> Seq<
    PropertySnapshot,
>
    decreases n,
{
    if n <= 0 {
        Seq::empty()
    } else if sites[n - 1].property.owner_id == Some(player) {
        own_among_sites(sites, player, n - 1).push(sites[n - 1])
    } else {
        own_among_sites(sites, player, n - 1)
    }
}

/// The buildings of the player on the first `n` islands of the order.
pub open spec fn own_sites_of(scene: CampaignScene, player: PlayerId, n: int) -> Seq<
    PropertySnapshot,
>
    decreases n,
{
    if n <= 0 {
        Seq::empty()
    } else if scene.keeps_ledger(n - 1) {
        let sites = sites_of(scene, scene.island_at(n - 1).id);
        own_sites_of(scene, player, n - 1) + own_among_sites(sites, player, sites.len() as int)
    } else {
        own_sites_of(scene, player, n - 1)
    }
}

/// The campaign for the island in the list from index `i` on.
pub open spec fn operation_for(list: Seq<OperationModel>, id: IslandId, i: int) -> Option<int>
    decreases list.len() - i,
{
    if i >= list.len() {
        None
    } else if list[i].island_id == id {
        Some(i)
    } else {
        operation_for(list, id, i + 1)
    }
}

/// The player has nothing but neutral buildings to expect on the island, and nobody is there.
pub open spec fn is_open_neutral(facts: IslandCampaignFacts) -> bool {
    facts.neutral_properties > 0 && facts.friendly_properties == 0 && facts.enemy_properties == 0
        && facts.friendly_units == 0 && facts.enemy_units == 0
}

/// The facts with the transport that can serve the island. Where the player has a foothold none is
/// needed.
pub open spec fn with_transport(
    facts: IslandCampaignFacts,
    scene: CampaignScene,
    player: PlayerId,
    island: Island,
) -> IslandCampaignFacts {
    if facts.friendly_properties > 0 || facts.friendly_units > 0 {
        IslandCampaignFacts { reachable: true, transport_eta: Some(0), ..facts }
    } else {
        let options = island_options(
            scene.map,
            scene.registry,
            scene.travel,
            player,
            island,
            scene.units(),
            scene.states(player),
            own_sites_of(scene, player, scene.islands.islands.len() as int),
        );
        let chosen = chosen_option(scene.registry, options, is_open_neutral(facts));
        let operations = scene.operations(player);
        IslandCampaignFacts {
            reachable: chosen is Some,
            transport_eta: match chosen {
                Some(option) => Some(option.eta),
                None => None,
            },
            missing_expansion_package_cost: missing_cost(
                scene.registry,
                chosen,
                match operation_for(operations, island.id, 0) {
                    Some(i) => Some(operations[i]),
                    None => None,
                },
                scene.units(),
            ),
            ..facts
        }
    }
}

/// All that the board and the squads tell about the number of an island.
pub open spec fn gathered(scene: CampaignScene, player: PlayerId, id: IslandId) -> IslandCampaignFacts {
    let sites = sites_of(scene, id);
    let units = scene.units();
    let cargoes = scene.cargoes(player);
    let a = with_sites(blank_facts(id), scene.registry, player, sites, sites.len() as int);
    let b = with_units(a, scene, player, id, sites, units, cargoes, units.len() as int);
    with_cargoes(b, scene, id, sites, units, cargoes, units.len() as int)
}

/// All that is known of the island at the place in the order.
pub open spec fn facts_of(scene: CampaignScene, player: PlayerId, k: int) -> IslandCampaignFacts {
    let island = scene.island_at(k);
    with_transport(
        if scene.keeps_ledger(k) {
            gathered(scene, player, island.id)
        } else {
            blank_facts(island.id)
        },
        scene,
        player,
        island,
    )
}

/// All that is known of all islands, in the order of their numbers.
pub open spec fn all_facts(scene: CampaignScene, player: PlayerId) -> Seq<IslandCampaignFacts> {
    Seq::new(scene.islands.islands@.len(), |k: int| facts_of(scene, player, k))
}

/// The order lists the islands of the scene.
spec fn is_order(scene: CampaignScene, order: Seq<usize>) -> bool {
    &&& order.len() == scene.islands.islands.len()
    &&& forall|i: int| 0 <= i < order.len() ==> #[trigger] order[i] == scene.island_order()[i]
    &&& forall|i: int| 0 <= i < order.len() ==> #[trigger] order[i] < scene.islands.islands.len()
}

fn find_ledger(scene: &CampaignScene, order: &Vec<usize>, id: IslandId) -> (r: Option<usize>)
    requires
        is_order(*scene, order@),
    ensures
        match r {
            Some(k) => k < order.len() && scene.ledger(id, order.len() as int) == Some(k as int),
            None => scene.ledger(id, order.len() as int) is None,
        },
{
    let mut n: usize = order.len();
    while n > 0
        invariant
            n <= order.len(),
            is_order(*scene, order@),
            scene.ledger(id, order.len() as int) == scene.ledger(id, n as int),
        decreases n,
    {
        assert(order[n - 1] == scene.island_order()[n - 1]);
        if scene.islands.islands[order[n - 1]].id == id {
            return Some(n - 1);
        }
        n -= 1;
    }
    None
}

/// The place in the order at which the facts about the number stand.
pub fn find_facts(scene: &CampaignScene, id: IslandId) -> (r: Option<usize>)
    ensures
        match r {
            Some(k) => k < scene.islands.islands.len() && scene.ledger(
                id,
                scene.islands.islands.len() as int,
            ) == Some(k as int),
            None => scene.ledger(id, scene.islands.islands.len() as int) is None,
        },
{
    let order = sort_islands(&scene.islands);
    find_ledger(scene, &order, id)
}

fn holds_ledger(scene: &CampaignScene, order: &Vec<usize>, k: usize) -> (r: bool)
    requires
        is_order(*scene, order@),
        k < order.len(),
    ensures
        r == scene.keeps_ledger(k as int),
{
    assert(order[k as int] == scene.island_order()[k as int]);
    match find_ledger(scene, order, scene.islands.islands[order[k]].id) {
        Some(at) => at == k,
        None => false,
    }
}

fn find_landing_eta(scene: &CampaignScene, order: &Vec<usize>, unit: &UnitSnapshot, id: IslandId) -> (r:
    Option<u32>)
    requires
        is_order(*scene, order@),
    ensures
        r == landing_eta(*scene, unit@, id, order.len() as int),
{
    let mut r: Option<u32> = None;
    let mut n: usize = 0;
    while n < order.len()
        invariant
            n <= order.len(),
            is_order(*scene, order@),
            r == landing_eta(*scene, unit@, id, n as int),
        decreases order.len() - n,
    {
        assert(order[n as int] == scene.island_order()[n as int]);
        let island = &scene.islands.islands[order[n]];
        if island.id == id {
            r =
            min_option(
                r,
                unit_eta_to_island(&scene.map, &scene.registry, &scene.travel, unit, island),
            );
        }
        n += 1;
    }
    r
}

fn collect_island_sites(
    islands: &IslandMap,
    properties: &Vec<PropertySnapshot>,
    id: IslandId,
) -> (r: Vec<PropertySnapshot>)
    ensures
        r@ == island_sites(islands.islands@, properties@, id, properties.len() as int),
{
    let mut r: Vec<PropertySnapshot> = Vec::new();
    let mut n: usize = 0;
    while n < properties.len()
        invariant
            n <= properties.len(),
            r@ == island_sites(islands.islands@, properties@, id, n as int),
        decreases properties.len() - n,
    {
        if lies(islands, properties[n].position, id) {
            r.push(properties[n]);
        }
        n += 1;
    }
    r
}

fn can_build_some(registry: &MasterDataRegistry, types: &Vec<UnitType>, terrain: Terrain) -> (r: bool)
    requires
        types@ == master_types(*registry),
    ensures
        r == builds_some(*registry, terrain),
{
    let mut i: usize = 0;
    while i < types.len()
        invariant
            i <= types.len(),
            types@ == master_types(*registry),
            forall|j: int|
                0 <= j < i ==> !registry.builds_type(
                    terrain,
                    #[trigger] master_types(*registry)[j],
                ),
        decreases types.len() - i,
    {
        if registry.can_produce_unit(terrain, types[i]) {
            assert(registry.builds_type(terrain, master_types(*registry)[i as int]));
            return true;
        }
        i += 1;
    }
    false
}

fn count_if(count: u32, more: bool) -> (r: u32)
    ensures
        r == counted(count, more),
{
    if more {
        count.saturating_add(1)
    } else {
        count
    }
}

fn add_sites(
    facts: &mut IslandCampaignFacts,
    registry: &MasterDataRegistry,
    types: &Vec<UnitType>,
    player: PlayerId,
    sites: &Vec<PropertySnapshot>,
)
    requires
        types@ == master_types(*registry),
    ensures
        *final(facts) == with_sites(
            *old(facts),
            *registry,
            player,
            sites@,
            sites.len() as int,
        ),
{
    let ghost start = *facts;
    let mut n: usize = 0;
    while n < sites.len()
        invariant
            n <= sites.len(),
            types@ == master_types(*registry),
            *facts == with_sites(start, *registry, player, sites@, n as int),
        decreases sites.len() - n,
    {
        let property = sites[n].property;
        let capturable: bool = property.max_capture_points > 0;
        let own: bool = match property.owner_id {
            Some(owner) => owner == player,
            None => false,
        };
        let neutral: bool = property.owner_id.is_none();
        let turns: u32 = default_capture_turns(&property);
        let production: bool = can_build_some(registry, types, property.terrain);
        let income: u32 = registry.landscape_income(property.terrain);
        let before = *facts;
        let capture_turns: u32 = if capturable && !own {
            if before.capture_turns == 0 || turns < before.capture_turns {
                turns
            } else {
                before.capture_turns
            }
        } else {
            before.capture_turns
        };
        *facts = IslandCampaignFacts {
            capturable_properties: count_if(before.capturable_properties, capturable),
            neutral_properties: count_if(before.neutral_properties, capturable && neutral),
            friendly_properties: count_if(before.friendly_properties, capturable && own),
            enemy_properties: count_if(before.enemy_properties, capturable && !own && !neutral),
            has_unowned_properties: before.has_unowned_properties || (capturable && !own),
            capture_turns,
            island_income_per_turn: before.island_income_per_turn.saturating_add(income),
            strategic_production_sites: count_if(
                before.strategic_production_sites,
                is_strategic_site(property.terrain) && production,
            ),
            roi_production_sites: count_if(
                before.roi_production_sites,
                is_roi_site(property.terrain) && production,
            ),
            ..before
        };
        n += 1;
    }
}

fn add_unit(
    facts: &mut IslandCampaignFacts,
    scene: &CampaignScene,
    player: PlayerId,
    order: &Vec<usize>,
    id: IslandId,
    sites: &Vec<PropertySnapshot>,
    unit: &UnitSnapshot,
)
    requires
        is_order(*scene, order@),
    ensures
        *final(facts) == with_unit(*old(facts), *scene, player, id, sites@, unit@),
{
    let here: bool = lies(&scene.islands, unit.position, id);
    let worth: u32 = hp_weighted_combat_value(&unit.stats, unit.health);
    let arrival: Option<u32> = find_landing_eta(scene, order, unit, id);
    let capture: Option<u32> = capture_eta_from_position(
        &scene.map,
        &scene.travel,
        unit,
        unit.position,
        sites,
    );
    let before = *facts;
    if unit.faction == player {
        let value: u32 = if here {
            before.friendly_combat_value.saturating_add(worth)
        } else {
            before.friendly_combat_value
        };
        let known: Option<u32> = if here {
            Some(0)
        } else {
            before.friendly_arrival_eta
        };
        *facts = IslandCampaignFacts {
            friendly_units: count_if(before.friendly_units, here),
            friendly_combat_value: value,
            friendly_arrival_eta: min_option(known, arrival),
            friendly_capture_eta: min_option(before.friendly_capture_eta, capture),
            ..before
        };
    } else {
        let value: u32 = if here {
            before.enemy_combat_value.saturating_add(worth)
        } else {
            before.enemy_combat_value
        };
        let known: Option<u32> = if here {
            Some(0)
        } else {
            before.enemy_arrival_eta
        };
        *facts = IslandCampaignFacts {
            enemy_units: count_if(before.enemy_units, here),
            enemy_combat_value: value,
            enemy_arrival_eta: min_option(known, arrival),
            enemy_capture_eta: min_option(before.enemy_capture_eta, capture),
            ..before
        };
    }
}

fn add_units(
    facts: &mut IslandCampaignFacts,
    scene: &CampaignScene,
    player: PlayerId,
    order: &Vec<usize>,
    id: IslandId,
    sites: &Vec<PropertySnapshot>,
    units: &Vec<UnitSnapshot>,
    cargoes: &Vec<CargoAssignment>,
)
    requires
        is_order(*scene, order@),
    ensures
        *final(facts) == with_units(
            *old(facts),
            *scene,
            player,
            id,
            sites@,
            models(units@),
            cargo_models(cargoes@),
            units.len() as int,
        ),
{
    let ghost start = *facts;
    let ghost all = models(units@);
    let mut n: usize = 0;
    while n < units.len()
        invariant
            n <= units.len(),
            all == models(units@),
            is_order(*scene, order@),
            *facts == with_units(
                start,
                *scene,
                player,
                id,
                sites@,
                all,
                cargo_models(cargoes@),
                n as int,
            ),
        decreases units.len() - n,
    {
        assert(all[n as int] == units[n as int]@);
        if find_cargo_slot(cargoes, units[n].entity).is_none() && units[n].transporting.is_none() {
            add_unit(facts, scene, player, order, id, sites, &units[n]);
        }
        n += 1;
    }
}

fn add_cargo(
    facts: &mut IslandCampaignFacts,
    scene: &CampaignScene,
    island: &Island,
    sites: &Vec<PropertySnapshot>,
    units: &Vec<UnitSnapshot>,
    assignment: &CargoAssignment,
    unit: &UnitSnapshot,
)
    ensures
        *final(facts) == with_cargo(
            *old(facts),
            *scene,
            *island,
            sites@,
            models(units@),
            assignment@,
            unit@,
        ),
{
    let arrival: Option<u32> = operation_transport_eta(
        assignment,
        units,
        &scene.map,
        &scene.registry,
        &scene.travel,
        island,
    );
    let worth: u32 = hp_weighted_combat_value(&unit.stats, unit.health);
    let before = *facts;
    let mut capture: Option<u32> = before.friendly_capture_eta;
    if let Some(a) = arrival {
        let afterwards: Option<u32> = match assignment.drop_position {
            Some(p) => capture_eta_from_position(&scene.map, &scene.travel, unit, p, sites),
            None => conservative_capture_eta_from_island(
                &scene.map,
                &scene.registry,
                &scene.travel,
                unit,
                island,
                sites,
            ),
        };
        if let Some(b) = afterwards {
            capture = min_option(capture, Some(a.saturating_add(b)));
        }
    }
    *facts = IslandCampaignFacts {
        friendly_combat_value: before.friendly_combat_value.saturating_add(worth),
        friendly_arrival_eta: min_option(before.friendly_arrival_eta, arrival),
        friendly_capture_eta: capture,
        ..before
    };
}

fn add_cargoes(
    facts: &mut IslandCampaignFacts,
    scene: &CampaignScene,
    id: IslandId,
    sites: &Vec<PropertySnapshot>,
    units: &Vec<UnitSnapshot>,
    cargoes: &Vec<CargoAssignment>,
)
    ensures
        *final(facts) == with_cargoes(
            *old(facts),
            *scene,
            id,
            sites@,
            models(units@),
            cargo_models(cargoes@),
            units.len() as int,
        ),
{
    let ghost start = *facts;
    let ghost all = models(units@);
    let ghost list = cargo_models(cargoes@);
    let land: Option<usize> = find_island_numbered(&scene.islands, id);
    let mut n: usize = 0;
    while n < units.len()
        invariant
            n <= units.len(),
            all == models(units@),
            list == cargo_models(cargoes@),
            match land {
                Some(k) => island_numbered(scene.islands.islands@, id, 0) == Some(k as int) && k
                    < scene.islands.islands.len(),
                None => island_numbered(scene.islands.islands@, id, 0) is None,
            },
            *facts == with_cargoes(start, *scene, id, sites@, all, list, n as int),
        decreases units.len() - n,
    {
        assert(all[n as int] == units[n as int]@);
        if let Some(i) = find_cargo_slot(cargoes, units[n].entity) {
            assert(list[i as int] == cargoes[i as int]@);
            if let Some(k) = land {
                if cargoes[i].island_id == id {
                    let island = &scene.islands.islands[k];
                    add_cargo(facts, scene, island, sites, units, &cargoes[i], &units[n]);
                }
            }
        }
        n += 1;
    }
}

/// Finds the campaign for the island.
pub fn find_operation(list: &Vec<ExistingCampaignOperation>, id: IslandId) -> (r: Option<usize>)
    ensures
        r is Some <==> operation_for(operation_models(list@), id, 0) is Some,
        r matches Some(i) ==> i < list.len() && operation_for(operation_models(list@), id, 0)
            == Some(i as int),
{
    let ghost all = operation_models(list@);
    let mut i: usize = 0;
    while i < list.len()
        invariant
            i <= list.len(),
            all == operation_models(list@),
            operation_for(all, id, 0) == operation_for(all, id, i as int),
        decreases list.len() - i,
    {
        assert(all[i as int] == list[i as int]@);
        if list[i].island_id == id {
            return Some(i);
        }
        i += 1;
    }
    None
}

/// The indices of the islands in the order of their numbers.
pub fn sort_islands(islands: &IslandMap) -> (r: Vec<usize>)
    ensures
        r.len() == islands.islands.len(),
        forall|i: int|
            0 <= i < r.len() ==> #[trigger] r[i] == sort_order(number_keys(islands.islands@))[i],
        forall|i: int| 0 <= i < r.len() ==> #[trigger] r[i] < islands.islands.len(),
{
    let mut keys: Vec<Vec<u64>> = Vec::new();
    let mut n: usize = 0;
    while n < islands.islands.len()
        invariant
            n <= islands.islands.len(),
            keys.len() == n,
            forall|i: int|
                0 <= i < n ==> (#[trigger] keys[i])@ == seq![islands.islands[i].id.0 as u64],
        decreases islands.islands.len() - n,
    {
        let mut key: Vec<u64> = Vec::new();
        key.push(islands.islands[n].id.0 as u64);
        assert(key@ =~= seq![islands.islands[n as int].id.0 as u64]);
        keys.push(key);
        n += 1;
    }
    assert(key_views(keys@) =~= number_keys(islands.islands@));
    stable_order(&keys)
}

fn collect_own_sites(
    scene: &CampaignScene,
    player: PlayerId,
    properties: &Vec<PropertySnapshot>,
    order: &Vec<usize>,
) -> (r: Vec<PropertySnapshot>)
    requires
        properties@ == scene.properties(),
        is_order(*scene, order@),
    ensures
        r@ == own_sites_of(*scene, player, scene.islands.islands.len() as int),
{
    let mut r: Vec<PropertySnapshot> = Vec::new();
    let mut k: usize = 0;
    while k < order.len()
        invariant
            k <= order.len(),
            properties@ == scene.properties(),
            is_order(*scene, order@),
            r@ == own_sites_of(*scene, player, k as int),
        decreases order.len() - k,
    {
        assert(order[k as int] == scene.island_order()[k as int]);
        let sites = if holds_ledger(scene, order, k) {
            collect_island_sites(&scene.islands, properties, scene.islands.islands[order[k]].id)
        } else {
            Vec::new()
        };
        let ghost before = r@;
        let mut n: usize = 0;
        while n < sites.len()
            invariant
                n <= sites.len(),
                r@ == before + own_among_sites(sites@, player, n as int),
            decreases sites.len() - n,
        {
            let own: bool = match sites[n].property.owner_id {
                Some(owner) => owner == player,
                None => false,
            };
            if own {
                r.push(sites[n]);
            }
            n += 1;
        }
        k += 1;
    }
    r
}

/// The units that campaigns may count on.
pub fn collect_scene_units(scene: &CampaignScene) -> (r: Vec<UnitSnapshot>)
    ensures
        models(r@) == scene.units(),
{
    let factions = collect_faction_snapshots(&scene.board);
    let units = collect_unit_snapshots(&scene.board);
    let ghost all = models(units@);
    assert(all.len() == units.len());
    campaign_unit_snapshots(&scene.manager, units, &factions)
}

/// Rebuilds what is known of each island from the board and the squads alone, in the order of the
/// islands' numbers.
pub fn collect_island_campaign_facts(scene: &CampaignScene, player_id: PlayerId) -> (r: Vec<
    IslandCampaignFacts,
>)
    ensures
        r@ == all_facts(*scene, player_id),
{
    let properties = collect_property_snapshots(&scene.board);
    let units = collect_scene_units(scene);
    let states = collect_assigned_transport_phases(&scene.manager, &units, player_id);
    let (operations, cargoes) = collect_existing_operations(
        &scene.islands,
        &scene.manager,
        &units,
        player_id,
    );
    let types = all_master_unit_types(&scene.registry);
    let order = sort_islands(&scene.islands);
    let owned = collect_own_sites(scene, player_id, &properties, &order);
    let mut r: Vec<IslandCampaignFacts> = Vec::new();
    let mut k: usize = 0;
    while k < order.len()
        invariant
            k <= order.len(),
            is_order(*scene, order@),
            properties@ == scene.properties(),
            models(units@) == scene.units(),
            states@ == scene.states(player_id),
            operation_models(operations@) == scene.operations(player_id),
            cargo_models(cargoes@) == scene.cargoes(player_id),
            types@ == master_types(scene.registry),
            owned@ == own_sites_of(*scene, player_id, scene.islands.islands.len() as int),
            r.len() == k,
            forall|i: int|
                0 <= i < k ==> #[trigger] r[i] == facts_of(*scene, player_id, i),
        decreases order.len() - k,
    {
        let facts = examine_island(
            scene,
            player_id,
            &order,
            k,
            &properties,
            &units,
            &states,
            &operations,
            &cargoes,
            &types,
            &owned,
        );
        r.push(facts);
        k += 1;
    }
    assert(r@ =~= all_facts(*scene, player_id));
    r
}

fn examine_island(
    scene: &CampaignScene,
    player: PlayerId,
    order: &Vec<usize>,
    k: usize,
    properties: &Vec<PropertySnapshot>,
    units: &Vec<UnitSnapshot>,
    states: &Vec<(Entity, AssignedTransportState)>,
    operations: &Vec<ExistingCampaignOperation>,
    cargoes: &Vec<CargoAssignment>,
    types: &Vec<UnitType>,
    owned: &Vec<PropertySnapshot>,
) -> (r: IslandCampaignFacts)
    requires
        is_order(*scene, order@),
        k < order.len(),
        properties@ == scene.properties(),
        models(units@) == scene.units(),
        states@ == scene.states(player),
        operation_models(operations@) == scene.operations(player),
        cargo_models(cargoes@) == scene.cargoes(player),
        types@ == master_types(scene.registry),
        owned@ == own_sites_of(*scene, player, scene.islands.islands.len() as int),
    ensures
        r == facts_of(*scene, player, k as int),
{
    assert(scene.units().len() == units.len());
    assert(order[k as int] == scene.island_order()[k as int]);
    let island = &scene.islands.islands[order[k]];
    let mut facts = IslandCampaignFacts {
        island_id: island.id,
        capturable_properties: 0,
        strategic_production_sites: 0,
        roi_production_sites: 0,
        neutral_properties: 0,
        friendly_properties: 0,
        enemy_properties: 0,
        friendly_units: 0,
        enemy_units: 0,
        friendly_combat_value: 0,
        enemy_combat_value: 0,
        friendly_arrival_eta: None,
        enemy_arrival_eta: None,
        friendly_capture_eta: None,
        enemy_capture_eta: None,
        transport_eta: None,
        capture_turns: 0,
        island_income_per_turn: 0,
        missing_expansion_package_cost: 0,
        reachable: false,
        has_unowned_properties: false,
    };
    if holds_ledger(scene, order, k) {
        let sites = collect_island_sites(&scene.islands, properties, island.id);
        add_sites(&mut facts, &scene.registry, types, player, &sites);
        add_units(&mut facts, scene, player, order, island.id, &sites, units, cargoes);
        add_cargoes(&mut facts, scene, island.id, &sites, units, cargoes);
    }
    if facts.friendly_properties > 0 || facts.friendly_units > 0 {
        return IslandCampaignFacts { reachable: true, transport_eta: Some(0), ..facts };
    }
    let options = transport_options_for_island(
        &scene.map,
        &scene.registry,
        &scene.travel,
        player,
        island,
        units,
        states,
        owned,
    );
    let open: bool = facts.neutral_properties > 0 && facts.friendly_properties == 0
        && facts.enemy_properties == 0 && facts.friendly_units == 0 && facts.enemy_units == 0;
    let chosen = select_transport_option(&scene.registry, &options, open);
    let slot = find_operation(operations, island.id);
    let operation = match slot {
        Some(i) => {
            assert(operation_models(operations@)[i as int] == operations[i as int]@);
            Some(&operations[i])
        },
        None => None,
    };
    let missing: u32 = missing_expansion_package_cost(
        &scene.registry,
        chosen,
        operation,
        units,
    );
    let transport_eta: Option<u32> = match chosen {
        Some(option) => Some(option.eta),
        None => None,
    };
    IslandCampaignFacts {
        reachable: chosen.is_some(),
        transport_eta,
        missing_expansion_package_cost: missing,
        ..facts
    }
}

/// The units among the first `n` that stand on the map outside any transport.
pub open spec fn standing(map: GameMap, units: Seq<UnitModel>, n: int) -> Seq<UnitModel>
    decreases n,
{
    if n <= 0 {
        Seq::empty()
    } else if units[n - 1].transporting is None && map.contains(units[n - 1].position) {
        standing(map, units, n - 1).push(units[n - 1])
    } else {
        standing(map, units, n - 1)
    }
}

/// The occupant says of the unit what the movement rules ask.
pub open spec fn tells_of_unit(o: Occupant, unit: UnitModel) -> bool {
    &&& o.position == unit.position
    &&& o.player_id == unit.faction
    &&& o.is_transport == (unit.max_cargo > 0)
    &&& o.unit_type == unit.unit_type
    &&& o.loadable_types@ == unit.loadable
    &&& o.free_slots == unit.free_cargo_slots
}

/// The units that stand in the way when distances for a campaign are asked for.
pub fn campaign_occupants(scene: &CampaignScene) -> (r: Vec<Occupant>)
    ensures
        ({
            let units = standing(scene.map, scene.units(), scene.units().len() as int);
            r.len() == units.len() && forall|i: int|
                0 <= i < r.len() ==> tells_of_unit(#[trigger] r[i], units[i])
        }),
{
    let units = collect_scene_units(scene);
    let ghost all = scene.units();
    assert(all.len() == units.len());
    let mut r: Vec<Occupant> = Vec::new();
    let mut n: usize = 0;
    while n < units.len()
        invariant
            n <= units.len(),
            all == models(units@),
            r.len() == standing(scene.map, all, n as int).len(),
            forall|i: int|
                0 <= i < r.len() ==> tells_of_unit(
                    #[trigger] r[i],
                    standing(scene.map, all, n as int)[i],
                ),
        decreases units.len() - n,
    {
        let unit = &units[n];
        assert(all[n as int] == unit@);
        if unit.transporting.is_none() && unit.position.x < scene.map.width && unit.position.y
            < scene.map.height {
            let loadable_types = unit.stats.loadable_unit_types.clone();
            assert(loadable_types@ =~= unit.stats.loadable_unit_types@);
            r.push(
                Occupant {
                    position: unit.position,
                    player_id: unit.faction,
                    is_transport: unit.stats.max_cargo > 0,
                    unit_type: unit.stats.unit_type,
                    loadable_types,
                    free_slots: unit.free_cargo_slots,
                },
            );
        }
        n += 1;
    }
    r
}

proof fn lemma_sites_add_up(
    facts: IslandCampaignFacts,
    registry: MasterDataRegistry,
    player: PlayerId,
    sites: Seq<PropertySnapshot>,
    n: int,
)
    requires
        0 <= n < u32::MAX,
        facts.capturable_properties == 0,
        facts.neutral_properties == 0,
        facts.friendly_properties == 0,
        facts.enemy_properties == 0,
        !facts.has_unowned_properties,
    ensures
        ({
            let r = with_sites(facts, registry, player, sites, n);
            &&& r.capturable_properties <= n
            &&& r.neutral_properties + r.friendly_properties + r.enemy_properties
                == r.capturable_properties
            &&& r.has_unowned_properties <==> r.neutral_properties + r.enemy_properties > 0
        }),
    decreases n,
{
    if n > 0 {
        lemma_sites_add_up(facts, registry, player, sites, n - 1);
    }
}

/// Of the facts, those on buildings.
pub open spec fn same_property_counts(a: IslandCampaignFacts, b: IslandCampaignFacts) -> bool {
    &&& a.capturable_properties == b.capturable_properties
    &&& a.neutral_properties == b.neutral_properties
    &&& a.friendly_properties == b.friendly_properties
    &&& a.enemy_properties == b.enemy_properties
    &&& a.has_unowned_properties == b.has_unowned_properties
}

proof fn lemma_units_keep_counts(
    facts: IslandCampaignFacts,
    scene: CampaignScene,
    player: PlayerId,
    id: IslandId,
    sites: Seq<PropertySnapshot>,
    units: Seq<UnitModel>,
    cargoes: Seq<CargoModel>,
    n: int,
)
    ensures
        same_property_counts(
            facts,
            with_units(facts, scene, player, id, sites, units, cargoes, n),
        ),
        same_property_counts(facts, with_cargoes(facts, scene, id, sites, units, cargoes, n)),
    decreases n,
{
    if n > 0 {
        lemma_units_keep_counts(facts, scene, player, id, sites, units, cargoes, n - 1);
    }
}

/// Every building that can be captured is neutral, the player's or an enemy's, and is counted
/// once; there is something to win exactly where one is not the player's.
pub proof fn law_properties_add_up(scene: CampaignScene, player: PlayerId, k: int)
    requires
        sites_of(scene, scene.island_at(k).id).len() < u32::MAX,
    ensures
        ({
            let facts = facts_of(scene, player, k);
            &&& facts.neutral_properties + facts.friendly_properties + facts.enemy_properties
                == facts.capturable_properties
            &&& facts.has_unowned_properties <==> facts.neutral_properties + facts.enemy_properties
                > 0
        }),
{
    let id = scene.island_at(k).id;
    let sites = sites_of(scene, id);
    let units = scene.units();
    let cargoes = scene.cargoes(player);
    let n = units.len() as int;
    let a = with_sites(blank_facts(id), scene.registry, player, sites, sites.len() as int);
    let b = with_units(a, scene, player, id, sites, units, cargoes, n);
    lemma_sites_add_up(blank_facts(id), scene.registry, player, sites, sites.len() as int);
    lemma_units_keep_counts(a, scene, player, id, sites, units, cargoes, n);
    lemma_units_keep_counts(b, scene, player, id, sites, units, cargoes, n);
}

} // verus!
