//! The tables of the game's rules.
use crate::grid::Terrain;
use crate::units::{contains_type, MovementType, UnitStats, UnitType};
use vstd::prelude::*;

verus! {

/// What a kind of terrain gives.
#[derive(Clone, Debug)]
pub struct LandscapeRow {
    pub terrain: Terrain,
    pub income: u32,
    pub defense_bonus: u32,
    pub production_facility: bool,
    pub produces: Vec<UnitType>,
}

/// What entering a kind of terrain costs. Ninety-nine and more means that it cannot be entered.
#[derive(Clone, Copy, Debug)]
pub struct MovementRow {
    pub movement_type: MovementType,
    pub terrain: Terrain,
    pub cost: u32,
}

/// The place of a unit type when campaign orders would otherwise tie.
#[derive(Clone, Copy, Debug)]
pub struct RankRow {
    pub unit_type: UnitType,
    pub rank: u32,
}

/// All tables; `units` stands in the order of the master data.
#[derive(Clone, Debug)]
pub struct MasterDataRegistry {
    pub landscapes: Vec<LandscapeRow>,
    pub movement: Vec<MovementRow>,
    pub units: Vec<UnitStats>,
    pub ranks: Vec<RankRow>,
}

/// The first row from index `i` on for the terrain.
pub open spec fn landscape(rows: Seq<LandscapeRow>, terrain: Terrain, i: int) -> Option<LandscapeRow>
    decreases rows.len() - i,
{
    if i >= rows.len() {
        None
    } else if rows[i].terrain == terrain {
        Some(rows[i])
    } else {
        landscape(rows, terrain, i + 1)
    }
}

/// The cost in the first row from index `i` on for the terrain and the way of moving.
pub open spec fn movement_cost(
    rows: Seq<MovementRow>,
    movement_type: MovementType,
    terrain: Terrain,
    i: int,
) -> Option<u32>
    decreases rows.len() - i,
{
    if i >= rows.len() {
        None
    } else if rows[i].movement_type == movement_type && rows[i].terrain == terrain {
        Some(rows[i].cost)
    } else {
        movement_cost(rows, movement_type, terrain, i + 1)
    }
}

/// The first stats from index `i` on of the type.
pub open spec fn stats_of(rows: Seq<UnitStats>, unit_type: UnitType, i: int) -> Option<UnitStats>
    decreases rows.len() - i,
{
    if i >= rows.len() {
        None
    } else if rows[i].unit_type == unit_type {
        Some(rows[i])
    } else {
        stats_of(rows, unit_type, i + 1)
    }
}

/// The rank in the first row from index `i` on of the type; types without a row come last.
pub open spec fn rank_of(rows: Seq<RankRow>, unit_type: UnitType, i: int) -> u32
    decreases rows.len() - i,
{
    if i >= rows.len() {
        u32::MAX
    } else if rows[i].unit_type == unit_type {
        rows[i].rank
    } else {
        rank_of(rows, unit_type, i + 1)
    }
}

impl MasterDataRegistry {
    /// The row of a terrain.
    pub open spec fn landscape_row(self, terrain: Terrain) -> Option<LandscapeRow> {
        landscape(self.landscapes@, terrain, 0)
    }

    /// What a building on the terrain earns each turn; nothing where no row says so.
    pub open spec fn income(self, terrain: Terrain) -> u32 {
        match self.landscape_row(terrain) {
            Some(row) => row.income,
            None => 0,
        }
    }

    /// How well the terrain protects; not at all where no row says so.
    pub open spec fn defense_bonus(self, terrain: Terrain) -> u32 {
        match self.landscape_row(terrain) {
            Some(row) => row.defense_bonus,
            None => 0,
        }
    }

    /// Units can be built on the terrain.
    pub open spec fn builds(self, terrain: Terrain) -> bool {
        self.landscape_row(terrain) matches Some(row) && row.production_facility
    }

    /// Units of the type can be built on the terrain.
    pub open spec fn builds_type(self, terrain: Terrain, unit_type: UnitType) -> bool {
        self.landscape_row(terrain) matches Some(row) && row.produces@.contains(unit_type)
    }

    /// The cost of entering the terrain, if it can be entered.
    pub open spec fn entry_cost(self, movement_type: MovementType, terrain: Terrain) -> Option<u32> {
        match self.listed_cost(movement_type, terrain) {
            Some(cost) => if cost < 99 {
                Some(cost)
            } else {
                None
            },
            None => None,
        }
    }

    /// The cost of entering the terrain as the table has it, be it too high or not.
    pub open spec fn listed_cost(self, movement_type: MovementType, terrain: Terrain) -> Option<
        u32,
    > {
        movement_cost(self.movement@, movement_type, terrain, 0)
    }

    /// The stats of the type.
    pub open spec fn unit(self, unit_type: UnitType) -> Option<UnitStats> {
        stats_of(self.units@, unit_type, 0)
    }

    /// The place of the type when campaign orders would otherwise tie.
    pub open spec fn rank(self, unit_type: UnitType) -> u32 {
        rank_of(self.ranks@, unit_type, 0)
    }

    fn find_landscape(&self, terrain: Terrain) -> (r: Option<&LandscapeRow>)
        ensures
            match r {
                Some(row) => self.landscape_row(terrain) == Some(*row),
                None => self.landscape_row(terrain) is None,
            },
    {
        let mut i: usize = 0;
        while i < self.landscapes.len()
            invariant
                i <= self.landscapes.len(),
                landscape(self.landscapes@, terrain, 0) == landscape(
                    self.landscapes@,
                    terrain,
                    i as int,
                ),
            decreases self.landscapes.len() - i,
        {
            if self.landscapes[i].terrain == terrain {
                return Some(&self.landscapes[i]);
            }
            i += 1;
        }
        None
    }

    /// What a building on the terrain earns each turn.
    pub fn landscape_income(&self, terrain: Terrain) -> (r: u32)
        ensures
            r == self.income(terrain),
    {
        match self.find_landscape(terrain) {
            Some(row) => row.income,
            None => 0,
        }
    }

    /// How well the terrain protects.
    pub fn get_terrain_defense_bonus(&self, terrain: Terrain) -> (r: u32)
        ensures
            r == self.defense_bonus(terrain),
    {
        match self.find_landscape(terrain) {
            Some(row) => row.defense_bonus,
            None => 0,
        }
    }

    /// Whether units can be built on the terrain.
    pub fn is_production_facility(&self, terrain: Terrain) -> (r: bool)
        ensures
            r == self.builds(terrain),
    {
        match self.find_landscape(terrain) {
            Some(row) => row.production_facility,
            None => false,
        }
    }

    /// Whether units of the type can be built on the terrain.
    pub fn can_produce_unit(&self, terrain: Terrain, unit_type: UnitType) -> (r: bool)
        ensures
            r == self.builds_type(terrain, unit_type),
    {
        match self.find_landscape(terrain) {
            Some(row) => contains_type(&row.produces, unit_type),
            None => false,
        }
    }

    /// The cost of entering the terrain as the table has it, be it too high or not.
    pub fn get_movement_cost(&self, movement_type: MovementType, terrain: Terrain) -> (r: Option<
        u32,
    >)
        ensures
            r == self.listed_cost(movement_type, terrain),
    {
        let mut i: usize = 0;
        while i < self.movement.len()
            invariant
                i <= self.movement.len(),
                movement_cost(self.movement@, movement_type, terrain, 0) == movement_cost(
                    self.movement@,
                    movement_type,
                    terrain,
                    i as int,
                ),
            decreases self.movement.len() - i,
        {
            if self.movement[i].movement_type == movement_type && self.movement[i].terrain
                == terrain {
                return Some(self.movement[i].cost);
            }
            i += 1;
        }
        None
    }

    /// The cost of entering the terrain, if it can be entered.
    pub fn get_valid_movement_cost(&self, movement_type: MovementType, terrain: Terrain) -> (r: Option<
        u32,
    >)
        ensures
            r == self.entry_cost(movement_type, terrain),
    {
        match self.get_movement_cost(movement_type, terrain) {
            Some(cost) => if cost < 99 {
                Some(cost)
            } else {
                None
            },
            None => None,
        }
    }

    /// The stats of the type.
    pub fn unit_stats(&self, unit_type: UnitType) -> (r: Option<&UnitStats>)
        ensures
            match r {
                Some(stats) => self.unit(unit_type) == Some(*stats),
                None => self.unit(unit_type) is None,
            },
    {
        let mut i: usize = 0;
        while i < self.units.len()
            invariant
                i <= self.units.len(),
                stats_of(self.units@, unit_type, 0) == stats_of(self.units@, unit_type, i as int),
            decreases self.units.len() - i,
        {
            if self.units[i].unit_type == unit_type {
                return Some(&self.units[i]);
            }
            i += 1;
        }
        None
    }

    /// The place of the type when campaign orders would otherwise tie.
    pub fn campaign_unit_type_rank(&self, unit_type: UnitType) -> (r: u32)
        ensures
            r == self.rank(unit_type),
    {
        let mut i: usize = 0;
        while i < self.ranks.len()
            invariant
                i <= self.ranks.len(),
                rank_of(self.ranks@, unit_type, 0) == rank_of(self.ranks@, unit_type, i as int),
            decreases self.ranks.len() - i,
        {
            if self.ranks[i].unit_type == unit_type {
                return self.ranks[i].rank;
            }
            i += 1;
        }
        u32::MAX
    }
}

/// Index `k` is that of the first item for which the condition holds.
pub open spec fn is_first(holds: Seq<bool>, k: int) -> bool {
    0 <= k < holds.len() && holds[k] && forall|j: int| 0 <= j < k ==> !(#[trigger] holds[j])
}

/// What terrain gives is what the first row for it says: its income, its cover and what can be
/// built on it. Terrain without a row gives nothing.
pub proof fn law_terrain_gives_what_its_row_says(
    registry: MasterDataRegistry,
    terrain: Terrain,
    unit_type: UnitType,
    k: int,
)
    ensures
        ({
            let rows = registry.landscapes@;
            let found = Seq::new(rows.len(), |i: int| rows[i].terrain == terrain);
            &&& is_first(found, k) ==> {
                &&& registry.income(terrain) == rows[k].income
                &&& registry.defense_bonus(terrain) == rows[k].defense_bonus
                &&& registry.builds(terrain) == rows[k].production_facility
                &&& registry.builds_type(terrain, unit_type) == rows[k].produces@.contains(
                    unit_type,
                )
            }
            &&& (forall|i: int| 0 <= i < rows.len() ==> (#[trigger] rows[i]).terrain != terrain)
                ==> {
                &&& registry.income(terrain) == 0
                &&& registry.defense_bonus(terrain) == 0
                &&& !registry.builds(terrain)
                &&& !registry.builds_type(terrain, unit_type)
            }
        }),
{
    lemma_landscape_from(registry.landscapes@, terrain, k, 0);
}

proof fn lemma_landscape_from(rows: Seq<LandscapeRow>, terrain: Terrain, k: int, i: int)
    requires
        0 <= i,
    ensures
        ({
            let found = Seq::new(rows.len(), |j: int| rows[j].terrain == terrain);
            &&& is_first(found, k) && i <= k ==> landscape(rows, terrain, i) == Some(rows[k])
            &&& (forall|j: int| i <= j < rows.len() ==> (#[trigger] rows[j]).terrain != terrain)
                ==> landscape(rows, terrain, i) is None
        }),
    decreases rows.len() - i,
{
    let found = Seq::new(rows.len(), |j: int| rows[j].terrain == terrain);
    if i < rows.len() {
        if is_first(found, k) && i < k {
            assert(!found[i]);
        }
        if rows[i].terrain != terrain {
            lemma_landscape_from(rows, terrain, k, i + 1);
        }
    }
}

/// Entering terrain costs what the first row for it and for the way of moving says. It cannot be
/// entered where that is ninety-nine or more, or where no row speaks of it.
pub proof fn law_entry_costs_what_its_row_says(
    registry: MasterDataRegistry,
    movement_type: MovementType,
    terrain: Terrain,
    k: int,
)
    ensures
        ({
            let rows = registry.movement@;
            let found = Seq::new(
                rows.len(),
                |i: int| rows[i].movement_type == movement_type && rows[i].terrain == terrain,
            );
            &&& is_first(found, k) ==> registry.listed_cost(movement_type, terrain) == Some(
                rows[k].cost,
            )
            &&& is_first(found, k) && rows[k].cost < 99 ==> registry.entry_cost(
                movement_type,
                terrain,
            ) == Some(rows[k].cost)
            &&& is_first(found, k) && rows[k].cost >= 99 ==> registry.entry_cost(
                movement_type,
                terrain,
            ) is None
            &&& (forall|i: int|
                0 <= i < rows.len() ==> !((#[trigger] rows[i]).movement_type == movement_type
                    && rows[i].terrain == terrain)) ==> registry.entry_cost(movement_type, terrain) is None
                && registry.listed_cost(movement_type, terrain) is None
        }),
{
    lemma_cost_from(registry.movement@, movement_type, terrain, k, 0);
}

proof fn lemma_cost_from(
    rows: Seq<MovementRow>,
    movement_type: MovementType,
    terrain: Terrain,
    k: int,
    i: int,
)
    requires
        0 <= i,
    ensures
        ({
            let found = Seq::new(
                rows.len(),
                |j: int| rows[j].movement_type == movement_type && rows[j].terrain == terrain,
            );
            &&& is_first(found, k) && i <= k ==> movement_cost(rows, movement_type, terrain, i)
                == Some(rows[k].cost)
            &&& (forall|j: int|
                i <= j < rows.len() ==> !((#[trigger] rows[j]).movement_type == movement_type
                    && rows[j].terrain == terrain)) ==> movement_cost(
                rows,
                movement_type,
                terrain,
                i,
            ) is None
        }),
    decreases rows.len() - i,
{
    let found = Seq::new(
        rows.len(),
        |j: int| rows[j].movement_type == movement_type && rows[j].terrain == terrain,
    );
    if i < rows.len() {
        if is_first(found, k) && i < k {
            assert(!found[i]);
        }
        if !(rows[i].movement_type == movement_type && rows[i].terrain == terrain) {
            lemma_cost_from(rows, movement_type, terrain, k, i + 1);
        }
    }
}

/// The stats and the rank of a type are those of its first row. A type without a row has no stats
/// and comes last.
pub proof fn law_type_is_what_its_rows_say(
    registry: MasterDataRegistry,
    unit_type: UnitType,
    k: int,
)
    ensures
        is_first(
            Seq::new(registry.units.len() as nat, |i: int| registry.units[i].unit_type == unit_type),
            k,
        ) ==> registry.unit(unit_type) == Some(registry.units[k]),
        (forall|i: int|
            0 <= i < registry.units.len() ==> (#[trigger] registry.units[i]).unit_type != unit_type)
            ==> registry.unit(unit_type) is None,
        is_first(
            Seq::new(registry.ranks.len() as nat, |i: int| registry.ranks[i].unit_type == unit_type),
            k,
        ) ==> registry.rank(unit_type) == registry.ranks[k].rank,
        (forall|i: int|
            0 <= i < registry.ranks.len() ==> (#[trigger] registry.ranks[i]).unit_type != unit_type)
            ==> registry.rank(unit_type) == u32::MAX,
{
    lemma_stats_from(registry.units@, unit_type, k, 0);
    lemma_rank_from(registry.ranks@, unit_type, k, 0);
    assert(Seq::new(
        registry.units.len() as nat,
        |i: int| registry.units[i].unit_type == unit_type,
    ) =~= Seq::new(registry.units@.len(), |i: int| registry.units@[i].unit_type == unit_type));
    assert(Seq::new(
        registry.ranks.len() as nat,
        |i: int| registry.ranks[i].unit_type == unit_type,
    ) =~= Seq::new(registry.ranks@.len(), |i: int| registry.ranks@[i].unit_type == unit_type));
}

proof fn lemma_stats_from(rows: Seq<UnitStats>, unit_type: UnitType, k: int, i: int)
    requires
        0 <= i,
    ensures
        ({
            let found = Seq::new(rows.len(), |j: int| rows[j].unit_type == unit_type);
            &&& is_first(found, k) && i <= k ==> stats_of(rows, unit_type, i) == Some(rows[k])
            &&& (forall|j: int|
                i <= j < rows.len() ==> (#[trigger] rows[j]).unit_type != unit_type) ==> stats_of(
                rows,
                unit_type,
                i,
            ) is None
        }),
    decreases rows.len() - i,
{
    let found = Seq::new(rows.len(), |j: int| rows[j].unit_type == unit_type);
    if i < rows.len() {
        if is_first(found, k) && i < k {
            assert(!found[i]);
        }
        if rows[i].unit_type != unit_type {
            lemma_stats_from(rows, unit_type, k, i + 1);
        }
    }
}

proof fn lemma_rank_from(rows: Seq<RankRow>, unit_type: UnitType, k: int, i: int)
    requires
        0 <= i,
    ensures
        ({
            let found = Seq::new(rows.len(), |j: int| rows[j].unit_type == unit_type);
            &&& is_first(found, k) && i <= k ==> rank_of(rows, unit_type, i) == rows[k].rank
            &&& (forall|j: int|
                i <= j < rows.len() ==> (#[trigger] rows[j]).unit_type != unit_type) ==> rank_of(
                rows,
                unit_type,
                i,
            ) == u32::MAX
        }),
    decreases rows.len() - i,
{
    let found = Seq::new(rows.len(), |j: int| rows[j].unit_type == unit_type);
    if i < rows.len() {
        if is_first(found, k) && i < k {
            assert(!found[i]);
        }
        if rows[i].unit_type != unit_type {
            lemma_rank_from(rows, unit_type, k, i + 1);
        }
    }
}

} // verus!
