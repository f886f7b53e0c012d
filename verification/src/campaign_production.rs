//! What is built for island campaigns.
use crate::damage::DamageChart;
use crate::eta::{is_support_only, supports_only};
use crate::grid::{contains_position, read_before, reads_before, GridPosition, Terrain};
use crate::island_campaign::IslandCampaignDecision;
use crate::islands::IslandId;
use crate::master_data::MasterDataRegistry;
use crate::order::{
    first_least, gather, key_views, least_index, lemma_first_least, lemma_sort_prefix, sort_order,
    stable_order,
};
use crate::travel::TravelTable;
use crate::units::{MovementType, PlayerId, UnitStats, UnitType};
use vstd::prelude::*;

verus! {

/// What a campaign still lacks.
#[derive(Clone, Debug)]
pub struct IslandCampaignShortfall {
    pub island_id: IslandId,
    pub decision: IslandCampaignDecision,
    pub target_position: GridPosition,
    pub light_transport_slots: u32,
    pub heavy_transport_slots: u32,
    pub capture_units: u32,
    pub ground_combat_units: u32,
    pub combat_budget: u32,
    pub reserved_budget: u32,
    pub priority_rank: u32,
    pub priority_enemy_types: Vec<UnitType>,
}

/// The order to build a unit.
#[derive(Clone, Copy, Debug, PartialEq, Eq, Structural)]
pub struct ProduceUnitCommand {
    pub player_id: PlayerId,
    pub target_x: usize,
    pub target_y: usize,
    pub unit_type: UnitType,
}

/// One kind of thing that a campaign lacks.
#[derive(Clone, Copy, Debug, PartialEq, Eq, Structural)]
pub enum CampaignProductionRequirement {
    HeavyTransport,
    LightTransport,
    Capture,
    Combat,
}

/// What a campaign lacks at some point of the planning.
#[derive(Clone, Copy, Debug, PartialEq, Eq, Structural)]
pub struct OpenNeeds {
    pub heavy_transport_slots: u32,
    pub light_transport_slots: u32,
    pub capture_units: u32,
    pub combat_budget: u32,
    pub reserved_budget: u32,
}

/// What the planning comes to.
#[derive(Clone, Debug)]
pub struct CampaignProductionOutcome {
    pub commands: Vec<ProduceUnitCommand>,
    pub remaining_funds: u32,
    /// What may go to anything else once the reservations of all campaigns are set aside.
    pub generic_funds: u32,
    pub used_facilities: Vec<GridPosition>,
    pub completed_all_rows: bool,
}

/// What the campaign lacks.
pub open spec fn needs_of(row: IslandCampaignShortfall) -> OpenNeeds {
    OpenNeeds {
        heavy_transport_slots: row.heavy_transport_slots,
        light_transport_slots: row.light_transport_slots,
        capture_units: row.capture_units,
        combat_budget: row.combat_budget,
        reserved_budget: row.reserved_budget,
    }
}

/// A list of kinds with one more, where it is lacking.
pub open spec fn lacking(
    list: Seq<CampaignProductionRequirement>,
    amount: u32,
    requirement: CampaignProductionRequirement,
) -> Seq<CampaignProductionRequirement> {
    if amount > 0 {
        list.push(requirement)
    } else {
        list
    }
}

/// What is lacking, the most pressing first.
pub open spec fn requirements(needs: OpenNeeds) -> Seq<CampaignProductionRequirement> {
    let heavy = lacking(
        Seq::empty(),
        needs.heavy_transport_slots,
        CampaignProductionRequirement::HeavyTransport,
    );
    let light = lacking(
        heavy,
        needs.light_transport_slots,
        CampaignProductionRequirement::LightTransport,
    );
    let capture = lacking(light, needs.capture_units, CampaignProductionRequirement::Capture);
    lacking(capture, needs.combat_budget, CampaignProductionRequirement::Combat)
}

/// What is lacking, the most pressing first.
pub fn remaining_campaign_requirements(needs: &OpenNeeds) -> (r: Vec<CampaignProductionRequirement>)
    ensures
        r@ == requirements(*needs),
{
    let mut r: Vec<CampaignProductionRequirement> = Vec::new();
    if needs.heavy_transport_slots > 0 {
        r.push(CampaignProductionRequirement::HeavyTransport);
    }
    if needs.light_transport_slots > 0 {
        r.push(CampaignProductionRequirement::LightTransport);
    }
    if needs.capture_units > 0 {
        r.push(CampaignProductionRequirement::Capture);
    }
    if needs.combat_budget > 0 {
        r.push(CampaignProductionRequirement::Combat);
    }
    r
}

/// Units of the type meet the requirement. What could not reduce it does not count, so that the
/// planning always moves on.
pub open spec fn meets(
    requirement: CampaignProductionRequirement,
    unit_type: UnitType,
    stats: UnitStats,
) -> bool {
    match requirement {
        CampaignProductionRequirement::HeavyTransport => unit_type == UnitType::Lander
            && stats.max_cargo > 0,
        CampaignProductionRequirement::LightTransport => unit_type
            == UnitType::TransportHelicopter && stats.max_cargo > 0,
        CampaignProductionRequirement::Capture => stats.can_capture,
        CampaignProductionRequirement::Combat => stats.cost > 0 && !supports_only(unit_type),
    }
}

/// Whether units of the type meet the requirement.
pub fn campaign_candidate_matches(
    requirement: CampaignProductionRequirement,
    unit_type: UnitType,
    stats: &UnitStats,
) -> (r: bool)
    ensures
        r == meets(requirement, unit_type, *stats),
{
    match requirement {
        CampaignProductionRequirement::HeavyTransport => unit_type == UnitType::Lander
            && stats.max_cargo > 0,
        CampaignProductionRequirement::LightTransport => unit_type
            == UnitType::TransportHelicopter && stats.max_cargo > 0,
        CampaignProductionRequirement::Capture => stats.can_capture,
        CampaignProductionRequirement::Combat => stats.cost > 0 && !is_support_only(unit_type),
    }
}

/// What is lacking once such a unit is ordered.
pub open spec fn needs_after(
    needs: OpenNeeds,
    requirement: CampaignProductionRequirement,
    cost: u32,
    max_cargo: u32,
) -> OpenNeeds {
    let rest = needs.reserved_budget.saturating_sub(cost);
    match requirement {
        CampaignProductionRequirement::HeavyTransport => OpenNeeds {
            heavy_transport_slots: needs.heavy_transport_slots.saturating_sub(max_cargo),
            reserved_budget: rest,
            ..needs
        },
        CampaignProductionRequirement::LightTransport => OpenNeeds {
            light_transport_slots: needs.light_transport_slots.saturating_sub(max_cargo),
            reserved_budget: rest,
            ..needs
        },
        CampaignProductionRequirement::Capture => OpenNeeds {
            capture_units: needs.capture_units.saturating_sub(1),
            reserved_budget: rest,
            ..needs
        },
        CampaignProductionRequirement::Combat => OpenNeeds {
            combat_budget: needs.combat_budget.saturating_sub(cost),
            reserved_budget: rest,
            ..needs
        },
    }
}

/// Takes an ordered unit off what is lacking.
pub fn consume_campaign_candidate(
    needs: &mut OpenNeeds,
    requirement: CampaignProductionRequirement,
    cost: u32,
    max_cargo: u32,
)
    ensures
        *final(needs) == needs_after(*old(needs), requirement, cost, max_cargo),
{
    match requirement {
        CampaignProductionRequirement::HeavyTransport => {
            needs.heavy_transport_slots = needs.heavy_transport_slots.saturating_sub(max_cargo);
        },
        CampaignProductionRequirement::LightTransport => {
            needs.light_transport_slots = needs.light_transport_slots.saturating_sub(max_cargo);
        },
        CampaignProductionRequirement::Capture => {
            needs.capture_units = needs.capture_units.saturating_sub(1);
        },
        CampaignProductionRequirement::Combat => {
            needs.combat_budget = needs.combat_budget.saturating_sub(cost);
        },
    }
    needs.reserved_budget = needs.reserved_budget.saturating_sub(cost);
}

/// All that the planning looks at: the facilities and the types in their order.
pub struct ProductionSetting {
    pub player: PlayerId,
    pub facilities: Seq<(GridPosition, Terrain)>,
    pub types: Seq<(UnitType, UnitStats)>,
    pub travel: TravelTable,
    pub registry: MasterDataRegistry,
    pub chart: Option<DamageChart>,
}

/// The facility may build the type for the requirement: it can, the campaign can pay for it
/// without touching what more important campaigns keep, and a fighting unit gets to the target on
/// its own.
pub open spec fn may_build(
    setting: ProductionSetting,
    target: GridPosition,
    reserved: u32,
    free_funds: u32,
    requirement: CampaignProductionRequirement,
    facility: (GridPosition, Terrain),
    candidate: (UnitType, UnitStats),
) -> bool {
    &&& setting.registry.builds_type(facility.1, candidate.0)
    &&& meets(requirement, candidate.0, candidate.1)
    &&& (requirement == CampaignProductionRequirement::Combat ==> setting.travel.linked(
        candidate.1.movement_type,
        facility.0,
        target,
    ))
    &&& candidate.1.cost <= free_funds
    &&& candidate.1.cost <= reserved
}

/// How many of the first `n` enemy types the type can harm.
pub open spec fn harmed(
    chart: Option<DamageChart>,
    unit_type: UnitType,
    enemies: Seq<UnitType>,
    n: int,
) -> nat
    decreases n,
{
    if n <= 0 {
        0
    } else {
        harmed(chart, unit_type, enemies, n - 1) + (match chart {
            Some(c) => if c.best(unit_type, enemies[n - 1]) > 0 {
                1nat
            } else {
                0nat
            },
            None => 0nat,
        })
    }
}

/// The damage that the type does to the first `n` enemy types in sum.
pub open spec fn damage_sum(
    chart: Option<DamageChart>,
    unit_type: UnitType,
    enemies: Seq<UnitType>,
    n: int,
) -> u32
    decreases n,
{
    if n <= 0 {
        0
    } else {
        let rest = damage_sum(chart, unit_type, enemies, n - 1);
        match chart {
            Some(c) => rest.saturating_add(c.best(unit_type, enemies[n - 1])),
            None => rest,
        }
    }
}

/// The more enemy types are harmed the better, then the more damage is done, then the more of the
/// combat budget is used; then the cheaper, then by type and place.
pub open spec fn build_key(
    setting: ProductionSetting,
    enemies: Seq<UnitType>,
    combat_budget: u32,
    requirement: CampaignProductionRequirement,
    facility: (GridPosition, Terrain),
    candidate: (UnitType, UnitStats),
) -> Seq<u64> {
    let coverage = if requirement == CampaignProductionRequirement::Combat {
        if candidate.1.cost <= combat_budget {
            candidate.1.cost
        } else {
            combat_budget
        }
    } else {
        0
    };
    seq![
        (u64::MAX - harmed(setting.chart, candidate.0, enemies, enemies.len() as int)) as u64,
        (u64::MAX - damage_sum(setting.chart, candidate.0, enemies, enemies.len() as int)) as u64,
        (u64::MAX - coverage) as u64,
        candidate.1.cost as u64,
        setting.registry.rank(candidate.0) as u64,
        facility.0.y as u64,
        facility.0.x as u64,
    ]
}

/// What can be built at one facility for the requirement: the types among the first `m`.
pub open spec fn builds_at(
    setting: ProductionSetting,
    target: GridPosition,
    reserved: u32,
    free_funds: u32,
    requirement: CampaignProductionRequirement,
    f: int,
    m: int,
) -> Seq<(int, int)>
    decreases m,
{
    if m <= 0 {
        Seq::empty()
    } else {
        let rest = builds_at(setting, target, reserved, free_funds, requirement, f, m - 1);
        if may_build(
            setting,
            target,
            reserved,
            free_funds,
            requirement,
            setting.facilities[f],
            setting.types[m - 1],
        ) {
            rest.push((f, m - 1))
        } else {
            rest
        }
    }
}

/// What can be built for the requirement at those of the first `n` facilities that are not used
/// yet: pairs of a facility and a type.
pub open spec fn builds(
    setting: ProductionSetting,
    target: GridPosition,
    reserved: u32,
    free_funds: u32,
    requirement: CampaignProductionRequirement,
    used: Seq<GridPosition>,
    n: int,
) -> Seq<(int, int)>
    decreases n,
{
    if n <= 0 {
        Seq::empty()
    } else {
        let rest = builds(setting, target, reserved, free_funds, requirement, used, n - 1);
        if used.contains(setting.facilities[n - 1].0) {
            rest
        } else {
            rest + builds_at(
                setting,
                target,
                reserved,
                free_funds,
                requirement,
                n - 1,
                setting.types.len() as int,
            )
        }
    }
}

/// The keys of what can be built.
pub open spec fn build_keys(
    setting: ProductionSetting,
    enemies: Seq<UnitType>,
    combat_budget: u32,
    requirement: CampaignProductionRequirement,
    list: Seq<(int, int)>,
) -> Seq<Seq<u64>> {
    Seq::new(
        list.len(),
        |i: int|
            build_key(
                setting,
                enemies,
                combat_budget,
                requirement,
                setting.facilities[list[i].0],
                setting.types[list[i].1],
            ),
    )
}

/// The best that can be built for the requirement.
pub open spec fn best_build(
    setting: ProductionSetting,
    row: IslandCampaignShortfall,
    needs: OpenNeeds,
    free_funds: u32,
    requirement: CampaignProductionRequirement,
    used: Seq<GridPosition>,
) -> Option<(int, int)> {
    let list = builds(
        setting,
        row.target_position,
        needs.reserved_budget,
        free_funds,
        requirement,
        used,
        setting.facilities.len() as int,
    );
    if list.len() > 0 {
        let keys = build_keys(
            setting,
            row.priority_enemy_types@,
            needs.combat_budget,
            requirement,
            list,
        );
        Some(list[first_least(keys, list.len() as int)])
    } else {
        None
    }
}

/// The first requirement from index `i` on for which something can be built, and what.
pub open spec fn next_build(
    setting: ProductionSetting,
    row: IslandCampaignShortfall,
    needs: OpenNeeds,
    free_funds: u32,
    used: Seq<GridPosition>,
    i: int,
) -> Option<(int, (int, int))>
    decreases requirements(needs).len() - i,
{
    if i >= requirements(needs).len() {
        None
    } else {
        match best_build(setting, row, needs, free_funds, requirements(needs)[i], used) {
            Some(build) => Some((i, build)),
            None => next_build(setting, row, needs, free_funds, used, i + 1),
        }
    }
}

/// The state of the planning.
pub struct PlanState {
    pub commands: Seq<ProduceUnitCommand>,
    /// What each command costs.
    pub costs: Seq<u32>,
    pub remaining: u32,
    /// What more important campaigns keep for later turns.
    pub protected: u32,
    pub used: Seq<GridPosition>,
    pub completed: bool,
    /// Nothing more is planned this turn.
    pub stopped: bool,
    /// What each campaign lacks.
    pub needs: Seq<OpenNeeds>,
}

/// What may be spent now.
pub open spec fn free_funds(state: PlanState) -> u32 {
    state.remaining.saturating_sub(state.protected)
}

/// The state after a unit was ordered.
pub open spec fn ordered(
    setting: ProductionSetting,
    state: PlanState,
    k: int,
    requirement: CampaignProductionRequirement,
    build: (int, int),
) -> PlanState {
    let position = setting.facilities[build.0].0;
    let (unit_type, stats) = setting.types[build.1];
    PlanState {
        commands: state.commands.push(
            ProduceUnitCommand {
                player_id: setting.player,
                target_x: position.x,
                target_y: position.y,
                unit_type,
            },
        ),
        costs: state.costs.push(stats.cost),
        remaining: state.remaining.saturating_sub(stats.cost),
        used: state.used.push(position),
        needs: state.needs.update(
            k,
            needs_after(state.needs[k], requirement, stats.cost, stats.max_cargo),
        ),
        ..state
    }
}

/// The state after a campaign could not be completed: what it reserved is kept from those after
/// it, as far as there is money.
pub open spec fn put_off(state: PlanState, k: int) -> PlanState {
    let keep = if state.needs[k].reserved_budget <= free_funds(state) {
        state.needs[k].reserved_budget
    } else {
        free_funds(state)
    };
    PlanState {
        protected: state.protected.saturating_add(keep),
        completed: false,
        ..state
    }
}

/// How many of the first `n` facilities are not used yet.
pub open spec fn unused(
    facilities: Seq<(GridPosition, Terrain)>,
    used: Seq<GridPosition>,
    n: int,
) -> nat
    decreases n,
{
    if n <= 0 {
        0
    } else {
        unused(facilities, used, n - 1) + (if used.contains(facilities[n - 1].0) {
            0nat
        } else {
            1nat
        })
    }
}

/// Plans one campaign: the most pressing lack for which something can be built is met, again and
/// again. After something less pressing was built, or once an assault has its structure and only
/// fighting power is lacking, the planning of the turn ends.
pub open spec fn row_planned(
    setting: ProductionSetting,
    rows: Seq<IslandCampaignShortfall>,
    k: int,
    state: PlanState,
    structural: bool,
) -> PlanState
    decreases unused(setting.facilities, state.used, setting.facilities.len() as int),
{
    let row = rows[k];
    let needs = state.needs[k];
    let open = requirements(needs);
    if open.len() == 0 {
        state
    } else if row.decision == IslandCampaignDecision::Assault && structural && open
        == seq![CampaignProductionRequirement::Combat] {
        PlanState { completed: false, stopped: true, ..state }
    } else {
        match next_build(setting, row, needs, free_funds(state), state.used, 0) {
            None => put_off(state, k),
            Some((i, build)) => {
                let next = ordered(setting, state, k, open[i], build);
                if i > 0 {
                    PlanState { completed: false, stopped: true, ..next }
                } else {
                    proof {
                        lemma_next_build(setting, row, needs, free_funds(state), state.used, 0);
                        lemma_unused_drops(
                            setting.facilities,
                            state.used,
                            build.0,
                            setting.facilities.len() as int,
                        );
                    }
                    row_planned(
                        setting,
                        rows,
                        k,
                        next,
                        structural || (row.decision == IslandCampaignDecision::Assault && open[i]
                            != CampaignProductionRequirement::Combat),
                    )
                }
            },
        }
    }
}

/// Plans the first `n` campaigns.
pub open spec fn rows_planned(
    setting: ProductionSetting,
    rows: Seq<IslandCampaignShortfall>,
    start: PlanState,
    n: int,
) -> PlanState
    decreases n,
{
    if n <= 0 {
        start
    } else {
        let before = rows_planned(setting, rows, start, n - 1);
        if before.stopped {
            before
        } else {
            row_planned(setting, rows, n - 1, before, false)
        }
    }
}

/// The sum of what the first `n` campaigns still reserve.
pub open spec fn reserved_sum(needs: Seq<OpenNeeds>, n: int) -> u32
    decreases n,
{
    if n <= 0 {
        0
    } else {
        reserved_sum(needs, n - 1).saturating_add(needs[n - 1].reserved_budget)
    }
}

/// The start of the planning.
pub open spec fn plan_start(rows: Seq<IslandCampaignShortfall>, funds: u32) -> PlanState {
    PlanState {
        commands: Seq::empty(),
        costs: Seq::empty(),
        remaining: funds,
        protected: 0,
        used: Seq::empty(),
        completed: true,
        stopped: false,
        needs: Seq::new(rows.len(), |i: int| needs_of(rows[i])),
    }
}

proof fn lemma_builds_at(
    setting: ProductionSetting,
    target: GridPosition,
    reserved: u32,
    free: u32,
    requirement: CampaignProductionRequirement,
    f: int,
    m: int,
)
    requires
        0 <= m <= setting.types.len(),
    ensures
        forall|i: int|
            0 <= i < builds_at(setting, target, reserved, free, requirement, f, m).len() ==> {
                let pair = #[trigger] builds_at(
                    setting,
                    target,
                    reserved,
                    free,
                    requirement,
                    f,
                    m,
                )[i];
                pair.0 == f && 0 <= pair.1 < m && may_build(
                    setting,
                    target,
                    reserved,
                    free,
                    requirement,
                    setting.facilities[f],
                    setting.types[pair.1],
                )
            },
    decreases m,
{
    if m > 0 {
        lemma_builds_at(setting, target, reserved, free, requirement, f, m - 1);
        let rest = builds_at(setting, target, reserved, free, requirement, f, m - 1);
        let all = builds_at(setting, target, reserved, free, requirement, f, m);
        assert forall|i: int| 0 <= i < all.len() implies {
            let pair = #[trigger] all[i];
            pair.0 == f && 0 <= pair.1 < m && may_build(
                setting,
                target,
                reserved,
                free,
                requirement,
                setting.facilities[f],
                setting.types[pair.1],
            )
        } by {
            if i < rest.len() {
                assert(all[i] == rest[i]);
            }
        }
    }
}

/// A pair of what can be built is a facility that is not used yet and a type that it may build.
pub open spec fn is_build(
    setting: ProductionSetting,
    target: GridPosition,
    reserved: u32,
    free: u32,
    requirement: CampaignProductionRequirement,
    used: Seq<GridPosition>,
    pair: (int, int),
) -> bool {
    &&& 0 <= pair.0 < setting.facilities.len()
    &&& 0 <= pair.1 < setting.types.len()
    &&& !used.contains(setting.facilities[pair.0].0)
    &&& may_build(
        setting,
        target,
        reserved,
        free,
        requirement,
        setting.facilities[pair.0],
        setting.types[pair.1],
    )
}

proof fn lemma_builds(
    setting: ProductionSetting,
    target: GridPosition,
    reserved: u32,
    free: u32,
    requirement: CampaignProductionRequirement,
    used: Seq<GridPosition>,
    n: int,
)
    requires
        0 <= n <= setting.facilities.len(),
    ensures
        forall|i: int|
            0 <= i < builds(setting, target, reserved, free, requirement, used, n).len()
                ==> is_build(
                setting,
                target,
                reserved,
                free,
                requirement,
                used,
                #[trigger] builds(setting, target, reserved, free, requirement, used, n)[i],
            ),
    decreases n,
{
    if n > 0 {
        lemma_builds(setting, target, reserved, free, requirement, used, n - 1);
        let m = setting.types.len() as int;
        lemma_builds_at(setting, target, reserved, free, requirement, n - 1, m);
        let rest = builds(setting, target, reserved, free, requirement, used, n - 1);
        let more = builds_at(setting, target, reserved, free, requirement, n - 1, m);
        let all = builds(setting, target, reserved, free, requirement, used, n);
        assert forall|i: int| 0 <= i < all.len() implies is_build(
            setting,
            target,
            reserved,
            free,
            requirement,
            used,
            #[trigger] all[i],
        ) by {
            if i < rest.len() {
                assert(all[i] == rest[i]);
            } else {
                assert(all[i] == more[i - rest.len()]);
            }
        }
    }
}

/// What is built next can be built.
pub proof fn lemma_next_build(
    setting: ProductionSetting,
    row: IslandCampaignShortfall,
    needs: OpenNeeds,
    free: u32,
    used: Seq<GridPosition>,
    i: int,
)
    requires
        0 <= i,
    ensures
        next_build(setting, row, needs, free, used, i) matches Some((k, build)) ==> i <= k
            < requirements(needs).len() && is_build(
            setting,
            row.target_position,
            needs.reserved_budget,
            free,
            requirements(needs)[k],
            used,
            build,
        ),
    decreases requirements(needs).len() - i,
{
    if i < requirements(needs).len() {
        let requirement = requirements(needs)[i];
        let list = builds(
            setting,
            row.target_position,
            needs.reserved_budget,
            free,
            requirement,
            used,
            setting.facilities.len() as int,
        );
        lemma_builds(
            setting,
            row.target_position,
            needs.reserved_budget,
            free,
            requirement,
            used,
            setting.facilities.len() as int,
        );
        if list.len() > 0 {
            let keys = build_keys(
                setting,
                row.priority_enemy_types@,
                needs.combat_budget,
                requirement,
                list,
            );
            lemma_first_least(keys, list.len() as int);
        }
        lemma_next_build(setting, row, needs, free, used, i + 1);
    }
}

proof fn lemma_unused_monotone(
    facilities: Seq<(GridPosition, Terrain)>,
    used: Seq<GridPosition>,
    p: GridPosition,
    n: int,
)
    requires
        0 <= n <= facilities.len(),
    ensures
        unused(facilities, used.push(p), n) <= unused(facilities, used, n),
    decreases n,
{
    if n > 0 {
        lemma_unused_monotone(facilities, used, p, n - 1);
        let q = facilities[n - 1].0;
        if used.contains(q) {
            let i = choose|i: int| 0 <= i < used.len() && used[i] == q;
            assert(used.push(p)[i] == q);
        }
    }
}

/// Using a facility leaves fewer unused.
pub proof fn lemma_unused_drops(
    facilities: Seq<(GridPosition, Terrain)>,
    used: Seq<GridPosition>,
    f: int,
    n: int,
)
    requires
        0 <= n <= facilities.len(),
    ensures
        0 <= f < n && !used.contains(facilities[f].0) ==> unused(
            facilities,
            used.push(facilities[f].0),
            n,
        ) < unused(facilities, used, n),
    decreases n,
{
    if 0 <= f < n && !used.contains(facilities[f].0) {
        let p = facilities[f].0;
        if f == n - 1 {
            lemma_unused_monotone(facilities, used, p, n - 1);
            assert(used.push(p)[used.len() as int] == p);
        } else {
            lemma_unused_drops(facilities, used, f, n - 1);
            let q = facilities[n - 1].0;
            if used.contains(q) {
                let i = choose|i: int| 0 <= i < used.len() && used[i] == q;
                assert(used.push(p)[i] == q);
            }
        }
    }
}

/// What the campaigns are sorted by.
pub open spec fn row_keys(rows: Seq<IslandCampaignShortfall>) -> Seq<Seq<u64>> {
    Seq::new(
        rows.len(),
        |i: int| seq![rows[i].priority_rank as u64, rows[i].island_id.0 as u64],
    )
}

/// The campaigns, the most important first.
pub open spec fn ranked_rows(rows: Seq<IslandCampaignShortfall>) -> Seq<IslandCampaignShortfall> {
    gather(rows, sort_order(row_keys(rows)))
}

/// What the facilities are sorted by.
pub open spec fn facility_keys(facilities: Seq<(GridPosition, Terrain)>) -> Seq<Seq<u64>> {
    Seq::new(
        facilities.len(),
        |i: int| seq![facilities[i].0.y as u64, facilities[i].0.x as u64],
    )
}

/// What the types are sorted by.
pub open spec fn type_keys(
    registry: MasterDataRegistry,
    types: Seq<(UnitType, UnitStats)>,
) -> Seq<Seq<u64>> {
    Seq::new(
        types.len(),
        |i: int| seq![registry.rank(types[i].0) as u64, types[i].1.cost as u64],
    )
}

/// All that the planning looks at, in its order.
pub open spec fn production_setting(
    player: PlayerId,
    facilities: Seq<(GridPosition, Terrain)>,
    types: Seq<(UnitType, UnitStats)>,
    travel: TravelTable,
    registry: MasterDataRegistry,
    chart: Option<DamageChart>,
) -> ProductionSetting {
    ProductionSetting {
        player,
        facilities: gather(facilities, sort_order(facility_keys(facilities))),
        types: gather(types, sort_order(type_keys(registry, types))),
        travel,
        registry,
        chart,
    }
}

/// The end of the planning of all campaigns.
pub open spec fn planned(
    setting: ProductionSetting,
    shortfalls: Seq<IslandCampaignShortfall>,
    funds: u32,
) -> PlanState {
    let rows = ranked_rows(shortfalls);
    rows_planned(setting, rows, plan_start(rows, funds), rows.len() as int)
}

/// The planning comes to this.
pub open spec fn outcome_of(outcome: CampaignProductionOutcome, state: PlanState) -> bool {
    &&& outcome.commands@ == state.commands
    &&& outcome.remaining_funds == state.remaining
    &&& outcome.generic_funds == state.remaining.saturating_sub(
        reserved_sum(state.needs, state.needs.len() as int),
    )
    &&& outcome.used_facilities@ == state.used
    &&& outcome.completed_all_rows == state.completed
}

/// The chart behind the reference.
pub open spec fn chart_of(chart: Option<&DamageChart>) -> Option<DamageChart> {
    match chart {
        Some(c) => Some(*c),
        None => None,
    }
}

/// The setting as the planning holds it: the facilities in order, and an order for the types.
struct Workshop<'a> {
    player: PlayerId,
    facilities: Vec<(GridPosition, Terrain)>,
    types: &'a Vec<(UnitType, UnitStats)>,
    type_order: Vec<usize>,
    travel: &'a TravelTable,
    registry: &'a MasterDataRegistry,
    chart: Option<&'a DamageChart>,
}

/// The state of the planning as it is held.
struct Planning {
    commands: Vec<ProduceUnitCommand>,
    costs: Vec<u32>,
    remaining: u32,
    protected: u32,
    used: Vec<GridPosition>,
    completed: bool,
    stopped: bool,
    needs: Vec<OpenNeeds>,
}

impl View for Planning {
    type V = PlanState;

    closed spec fn view(&self) -> PlanState {
        PlanState {
            commands: self.commands@,
            costs: self.costs@,
            remaining: self.remaining,
            protected: self.protected,
            used: self.used@,
            completed: self.completed,
            stopped: self.stopped,
            needs: self.needs@,
        }
    }
}

fn count_harmed(
    chart: Option<&DamageChart>,
    unit_type: UnitType,
    enemies: &Vec<UnitType>,
) -> (r: u64)
    ensures
        r == harmed(chart_of(chart), unit_type, enemies@, enemies.len() as int),
        r <= enemies.len(),
{
    let mut n: usize = 0;
    let mut r: u64 = 0;
    while n < enemies.len()
        invariant
            n <= enemies.len(),
            r <= n,
            r == harmed(chart_of(chart), unit_type, enemies@, n as int),
        decreases enemies.len() - n,
    {
        if let Some(c) = chart {
            if c.best_damage(unit_type, enemies[n]) > 0 {
                r += 1;
            }
        }
        n += 1;
    }
    r
}

fn sum_damage(chart: Option<&DamageChart>, unit_type: UnitType, enemies: &Vec<UnitType>) -> (r: u32)
    ensures
        r == damage_sum(chart_of(chart), unit_type, enemies@, enemies.len() as int),
{
    let mut n: usize = 0;
    let mut r: u32 = 0;
    while n < enemies.len()
        invariant
            n <= enemies.len(),
            r == damage_sum(chart_of(chart), unit_type, enemies@, n as int),
        decreases enemies.len() - n,
    {
        if let Some(c) = chart {
            r = r.saturating_add(c.best_damage(unit_type, enemies[n]));
        }
        n += 1;
    }
    r
}

impl<'a> Workshop<'a> {
    /// Every place in the order of the types is a type.
    closed spec fn wf(self) -> bool {
        forall|i: int|
            0 <= i < self.type_order.len() ==> #[trigger] self.type_order[i] < self.types.len()
    }

    closed spec fn setting(self) -> ProductionSetting {
        ProductionSetting {
            player: self.player,
            facilities: self.facilities@,
            types: Seq::new(
                self.type_order@.len(),
                |i: int| self.types@[self.type_order@[i] as int],
            ),
            travel: *self.travel,
            registry: *self.registry,
            chart: chart_of(self.chart),
        }
    }

    fn can_build(
        &self,
        target: GridPosition,
        reserved: u32,
        free: u32,
        requirement: CampaignProductionRequirement,
        f: usize,
        t: usize,
    ) -> (r: bool)
        requires
            self.wf(),
            f < self.facilities.len(),
            t < self.type_order.len(),
        ensures
            r == may_build(
                self.setting(),
                target,
                reserved,
                free,
                requirement,
                self.setting().facilities[f as int],
                self.setting().types[t as int],
            ),
    {
        let facility = self.facilities[f];
        let unit_type = self.types[self.type_order[t]].0;
        let stats = &self.types[self.type_order[t]].1;
        self.registry.can_produce_unit(facility.1, unit_type) && campaign_candidate_matches(
            requirement,
            unit_type,
            stats,
        ) && (requirement != CampaignProductionRequirement::Combat
            || self.travel.is_terrain_reachable(stats.movement_type, facility.0, target))
            && stats.cost <= free && stats.cost <= reserved
    }

    fn key(
        &self,
        enemies: &Vec<UnitType>,
        combat_budget: u32,
        requirement: CampaignProductionRequirement,
        f: usize,
        t: usize,
    ) -> (r: Vec<u64>)
        requires
            self.wf(),
            f < self.facilities.len(),
            t < self.type_order.len(),
        ensures
            r@ == build_key(
                self.setting(),
                enemies@,
                combat_budget,
                requirement,
                self.setting().facilities[f as int],
                self.setting().types[t as int],
            ),
    {
        let position = self.facilities[f].0;
        let unit_type = self.types[self.type_order[t]].0;
        let cost: u32 = self.types[self.type_order[t]].1.cost;
        let coverage: u32 = if requirement == CampaignProductionRequirement::Combat {
            if cost <= combat_budget {
                cost
            } else {
                combat_budget
            }
        } else {
            0
        };
        let count: u64 = count_harmed(self.chart, unit_type, enemies);
        let damage: u32 = sum_damage(self.chart, unit_type, enemies);
        let rank: u32 = self.registry.campaign_unit_type_rank(unit_type);
        let mut r: Vec<u64> = Vec::new();
        r.push(u64::MAX - count);
        r.push(u64::MAX - damage as u64);
        r.push(u64::MAX - coverage as u64);
        r.push(cost as u64);
        r.push(rank as u64);
        r.push(position.y as u64);
        r.push(position.x as u64);
        r
    }

    fn list_builds_at(
        &self,
        target: GridPosition,
        reserved: u32,
        free: u32,
        requirement: CampaignProductionRequirement,
        f: usize,
        list: &mut Vec<(usize, usize)>,
    )
        requires
            self.wf(),
            f < self.facilities.len(),
        ensures
            pairs(final(list)@) == pairs(old(list)@) + builds_at(
                self.setting(),
                target,
                reserved,
                free,
                requirement,
                f as int,
                self.setting().types.len() as int,
            ),
    {
        let ghost start = pairs(list@);
        let mut m: usize = 0;
        assert(pairs(list@) =~= start + builds_at(
            self.setting(),
            target,
            reserved,
            free,
            requirement,
            f as int,
            0,
        ));
        while m < self.type_order.len()
            invariant
                self.wf(),
                f < self.facilities.len(),
                m <= self.type_order.len(),
                pairs(list@) == start + builds_at(
                    self.setting(),
                    target,
                    reserved,
                    free,
                    requirement,
                    f as int,
                    m as int,
                ),
            decreases self.type_order.len() - m,
        {
            if self.can_build(target, reserved, free, requirement, f, m) {
                let ghost before = list@;
                list.push((f, m));
                assert(pairs(list@) =~= pairs(before).push((f as int, m as int)));
                assert(pairs(list@) =~= start + builds_at(
                    self.setting(),
                    target,
                    reserved,
                    free,
                    requirement,
                    f as int,
                    m + 1,
                ));
            }
            m += 1;
        }
    }

    fn list_builds(
        &self,
        target: GridPosition,
        reserved: u32,
        free: u32,
        requirement: CampaignProductionRequirement,
        used: &Vec<GridPosition>,
    ) -> (r: Vec<(usize, usize)>)
        requires
            self.wf(),
        ensures
            pairs(r@) == builds(
                self.setting(),
                target,
                reserved,
                free,
                requirement,
                used@,
                self.setting().facilities.len() as int,
            ),
    {
        let mut r: Vec<(usize, usize)> = Vec::new();
        let mut n: usize = 0;
        assert(pairs(r@) =~= Seq::<(int, int)>::empty());
        while n < self.facilities.len()
            invariant
                self.wf(),
                n <= self.facilities.len(),
                pairs(r@) == builds(
                    self.setting(),
                    target,
                    reserved,
                    free,
                    requirement,
                    used@,
                    n as int,
                ),
            decreases self.facilities.len() - n,
        {
            if !contains_position(used, self.facilities[n].0) {
                self.list_builds_at(target, reserved, free, requirement, n, &mut r);
            }
            n += 1;
        }
        r
    }

    fn find_best_build(
        &self,
        row: &IslandCampaignShortfall,
        needs: OpenNeeds,
        free: u32,
        requirement: CampaignProductionRequirement,
        used: &Vec<GridPosition>,
    ) -> (r: Option<(usize, usize)>)
        requires
            self.wf(),
        ensures
            match r {
                Some((f, t)) => f < self.facilities.len() && t < self.type_order.len()
                    && best_build(self.setting(), *row, needs, free, requirement, used@) == Some(
                    (f as int, t as int),
                ),
                None => best_build(self.setting(), *row, needs, free, requirement, used@) is None,
            },
    {
        let ghost setting = self.setting();
        let list = self.list_builds(
            row.target_position,
            needs.reserved_budget,
            free,
            requirement,
            used,
        );
        proof {
            lemma_builds(
                setting,
                row.target_position,
                needs.reserved_budget,
                free,
                requirement,
                used@,
                setting.facilities.len() as int,
            );
            assert forall|i: int| 0 <= i < list.len() implies (#[trigger] list[i]).0
                < self.facilities.len() && list[i].1 < self.type_order.len() by {
                let pair = pairs(list@)[i];
                assert(is_build(
                    setting,
                    row.target_position,
                    needs.reserved_budget,
                    free,
                    requirement,
                    used@,
                    pair,
                ));
            }
        }
        let mut keys: Vec<Vec<u64>> = Vec::new();
        let ghost goal = build_keys(
            setting,
            row.priority_enemy_types@,
            needs.combat_budget,
            requirement,
            pairs(list@),
        );
        let mut n: usize = 0;
        while n < list.len()
            invariant
                self.wf(),
                setting == self.setting(),
                n <= list.len(),
                keys.len() == n,
                forall|i: int|
                    0 <= i < list.len() ==> (#[trigger] list[i]).0 < self.facilities.len()
                        && list[i].1 < self.type_order.len(),
                goal == build_keys(
                    setting,
                    row.priority_enemy_types@,
                    needs.combat_budget,
                    requirement,
                    pairs(list@),
                ),
                forall|i: int| 0 <= i < n ==> #[trigger] keys[i]@ == goal[i],
            decreases list.len() - n,
        {
            let (f, t) = list[n];
            let key = self.key(
                &row.priority_enemy_types,
                needs.combat_budget,
                requirement,
                f,
                t,
            );
            assert(pairs(list@)[n as int] == (f as int, t as int));
            keys.push(key);
            n += 1;
        }
        assert(key_views(keys@) =~= goal);
        match least_index(&keys) {
            Some(i) => {
                assert(pairs(list@)[i as int] == (list[i as int].0 as int, list[i as int].1 as int));
                Some(list[i])
            },
            None => None,
        }
    }

    fn find_next_build(
        &self,
        row: &IslandCampaignShortfall,
        needs: OpenNeeds,
        free: u32,
        open: &Vec<CampaignProductionRequirement>,
        used: &Vec<GridPosition>,
    ) -> (r: Option<(usize, (usize, usize))>)
        requires
            self.wf(),
            open@ == requirements(needs),
        ensures
            match r {
                Some((i, (f, t))) => i < open.len() && f < self.facilities.len() && t
                    < self.type_order.len() && next_build(
                    self.setting(),
                    *row,
                    needs,
                    free,
                    used@,
                    0,
                ) == Some((i as int, (f as int, t as int))),
                None => next_build(self.setting(), *row, needs, free, used@, 0) is None,
            },
    {
        let mut i: usize = 0;
        while i < open.len()
            invariant
                self.wf(),
                i <= open.len(),
                open@ == requirements(needs),
                next_build(self.setting(), *row, needs, free, used@, 0) == next_build(
                    self.setting(),
                    *row,
                    needs,
                    free,
                    used@,
                    i as int,
                ),
            decreases open.len() - i,
        {
            if let Some(build) = self.find_best_build(row, needs, free, open[i], used) {
                return Some((i, build));
            }
            i += 1;
        }
        None
    }

    fn order(
        &self,
        state: &mut Planning,
        k: usize,
        requirement: CampaignProductionRequirement,
        f: usize,
        t: usize,
    )
        requires
            self.wf(),
            k < old(state).needs.len(),
            f < self.facilities.len(),
            t < self.type_order.len(),
        ensures
            final(state)@ == ordered(
                self.setting(),
                old(state)@,
                k as int,
                requirement,
                (f as int, t as int),
            ),
            final(state).needs.len() == old(state).needs.len(),
    {
        let position = self.facilities[f].0;
        let unit_type = self.types[self.type_order[t]].0;
        let cost: u32 = self.types[self.type_order[t]].1.cost;
        let max_cargo: u32 = self.types[self.type_order[t]].1.max_cargo;
        state.commands.push(
            ProduceUnitCommand {
                player_id: self.player,
                target_x: position.x,
                target_y: position.y,
                unit_type,
            },
        );
        state.costs.push(cost);
        state.remaining = state.remaining.saturating_sub(cost);
        state.used.push(position);
        let mut needs = state.needs[k];
        consume_campaign_candidate(&mut needs, requirement, cost, max_cargo);
        state.needs.set(k, needs);
    }

    fn plan_row(
        &self,
        rows: &Vec<IslandCampaignShortfall>,
        row_order: &Vec<usize>,
        state: &mut Planning,
        k: usize,
    )
        requires
            self.wf(),
            k < row_order.len(),
            row_order[k as int] < rows.len(),
            old(state).needs.len() == row_order.len(),
        ensures
            final(state)@ == row_planned(
                self.setting(),
                ordered_rows(rows@, row_order@),
                k as int,
                old(state)@,
                false,
            ),
            final(state).needs.len() == row_order.len(),
    {
        let row = &rows[row_order[k]];
        let ghost all = ordered_rows(rows@, row_order@);
        let ghost goal = row_planned(self.setting(), all, k as int, state@, false);
        let mut structural: bool = false;
        loop
            invariant_except_break
                goal == row_planned(self.setting(), all, k as int, state@, structural),
            invariant
                self.wf(),
                k < row_order.len(),
                row == all[k as int],
                state.needs.len() == row_order.len(),
            ensures
                state@ == goal,
            decreases
                    unused(
                        self.setting().facilities,
                        state@.used,
                        self.setting().facilities.len() as int,
                    ),
        {
            let needs = state.needs[k];
            let open = remaining_campaign_requirements(&needs);
            if open.len() == 0 {
                break;
            }
            let assault: bool = row.decision == IslandCampaignDecision::Assault;
            if assault && structural && open.len() == 1 && open[0]
                == CampaignProductionRequirement::Combat {
                assert(open@ =~= seq![CampaignProductionRequirement::Combat]);
                state.completed = false;
                state.stopped = true;
                break;
            }
            assert(open@ == seq![CampaignProductionRequirement::Combat] ==> open.len() == 1
                && open[0] == CampaignProductionRequirement::Combat);
            let free: u32 = state.remaining.saturating_sub(state.protected);
            match self.find_next_build(row, needs, free, &open, &state.used) {
                None => {
                    let keep: u32 = if needs.reserved_budget <= free {
                        needs.reserved_budget
                    } else {
                        free
                    };
                    state.protected = state.protected.saturating_add(keep);
                    state.completed = false;
                    break;
                },
                Some((i, (f, t))) => {
                    proof {
                        lemma_next_build(self.setting(), *row, needs, free, state@.used, 0);
                        lemma_unused_drops(
                            self.setting().facilities,
                            state@.used,
                            f as int,
                            self.setting().facilities.len() as int,
                        );
                    }
                    self.order(state, k, open[i], f, t);
                    if assault && open[i] != CampaignProductionRequirement::Combat {
                        structural = true;
                    }
                    if i > 0 {
                        state.completed = false;
                        state.stopped = true;
                        break;
                    }
                },
            }
        }
    }
}

/// Pairs of indices as plain numbers.
pub open spec fn pairs(list: Seq<(usize, usize)>) -> Seq<(int, int)> {
    Seq::new(list.len(), |i: int| (list[i].0 as int, list[i].1 as int))
}

/// The campaigns in the given order.
pub open spec fn ordered_rows(
    rows: Seq<IslandCampaignShortfall>,
    order: Seq<usize>,
) -> Seq<IslandCampaignShortfall> {
    Seq::new(order.len(), |i: int| rows[order[i] as int])
}

fn rank_rows(rows: &Vec<IslandCampaignShortfall>) -> (r: Vec<usize>)
    ensures
        ordered_rows(rows@, r@) == ranked_rows(rows@),
        forall|i: int| 0 <= i < r.len() ==> #[trigger] r[i] < rows.len(),
{
    let mut keys: Vec<Vec<u64>> = Vec::new();
    let mut n: usize = 0;
    while n < rows.len()
        invariant
            n <= rows.len(),
            keys.len() == n,
            forall|i: int| 0 <= i < n ==> #[trigger] keys[i]@ == row_keys(rows@)[i],
        decreases rows.len() - n,
    {
        let mut key: Vec<u64> = Vec::new();
        key.push(rows[n].priority_rank as u64);
        key.push(rows[n].island_id.0 as u64);
        assert(key@ =~= row_keys(rows@)[n as int]);
        keys.push(key);
        n += 1;
    }
    let r = stable_order(&keys);
    assert(key_views(keys@) =~= row_keys(rows@));
    proof {
        lemma_sort_prefix(row_keys(rows@), rows.len() as int);
    }
    assert(ordered_rows(rows@, r@) =~= ranked_rows(rows@));
    r
}

fn sort_facilities(facilities: &Vec<(GridPosition, Terrain)>) -> (r: Vec<(GridPosition, Terrain)>)
    ensures
        r@ == gather(facilities@, sort_order(facility_keys(facilities@))),
{
    let ghost goal = facility_keys(facilities@);
    let mut keys: Vec<Vec<u64>> = Vec::new();
    let mut n: usize = 0;
    while n < facilities.len()
        invariant
            n <= facilities.len(),
            goal == facility_keys(facilities@),
            keys.len() == n,
            forall|i: int| 0 <= i < n ==> #[trigger] keys[i]@ == goal[i],
        decreases facilities.len() - n,
    {
        let mut key: Vec<u64> = Vec::new();
        key.push(facilities[n].0.y as u64);
        key.push(facilities[n].0.x as u64);
        assert(key@ =~= goal[n as int]);
        keys.push(key);
        n += 1;
    }
    let order = stable_order(&keys);
    assert(key_views(keys@) =~= goal);
    proof {
        lemma_sort_prefix(goal, facilities.len() as int);
    }
    let mut r: Vec<(GridPosition, Terrain)> = Vec::new();
    let mut i: usize = 0;
    while i < order.len()
        invariant
            i <= order.len(),
            order.len() == facilities.len(),
            forall|j: int| 0 <= j < order.len() ==> #[trigger] order[j] < facilities.len(),
            forall|j: int| 0 <= j < order.len() ==> #[trigger] order[j] == sort_order(goal)[j],
            r.len() == i,
            forall|j: int|
                0 <= j < i ==> #[trigger] r[j] == gather(facilities@, sort_order(goal))[j],
            sort_order(goal).len() == facilities.len(),
        decreases order.len() - i,
    {
        r.push(facilities[order[i]]);
        i += 1;
    }
    assert(r@ =~= gather(facilities@, sort_order(goal)));
    r
}

fn sort_types(registry: &MasterDataRegistry, types: &Vec<(UnitType, UnitStats)>) -> (r: Vec<usize>)
    ensures
        r.len() == types.len(),
        forall|i: int|
            0 <= i < r.len() ==> #[trigger] r[i] == sort_order(type_keys(*registry, types@))[i],
        forall|i: int| 0 <= i < r.len() ==> #[trigger] r[i] < types.len(),
        sort_order(type_keys(*registry, types@)).len() == types.len(),
{
    let ghost goal = type_keys(*registry, types@);
    let mut keys: Vec<Vec<u64>> = Vec::new();
    let mut n: usize = 0;
    while n < types.len()
        invariant
            n <= types.len(),
            goal == type_keys(*registry, types@),
            keys.len() == n,
            forall|i: int| 0 <= i < n ==> #[trigger] keys[i]@ == goal[i],
        decreases types.len() - n,
    {
        let mut key: Vec<u64> = Vec::new();
        key.push(registry.campaign_unit_type_rank(types[n].0) as u64);
        key.push(types[n].1.cost as u64);
        assert(key@ =~= goal[n as int]);
        keys.push(key);
        n += 1;
    }
    let r = stable_order(&keys);
    assert(key_views(keys@) =~= goal);
    proof {
        lemma_sort_prefix(goal, types.len() as int);
    }
    r
}

fn sum_reserved(needs: &Vec<OpenNeeds>) -> (r: u32)
    ensures
        r == reserved_sum(needs@, needs.len() as int),
{
    let mut n: usize = 0;
    let mut r: u32 = 0;
    while n < needs.len()
        invariant
            n <= needs.len(),
            r == reserved_sum(needs@, n as int),
        decreases needs.len() - n,
    {
        r = r.saturating_add(needs[n].reserved_budget);
        n += 1;
    }
    r
}

fn first_needs(rows: &Vec<IslandCampaignShortfall>, row_order: &Vec<usize>) -> (r: Vec<OpenNeeds>)
    requires
        forall|i: int| 0 <= i < row_order.len() ==> #[trigger] row_order[i] < rows.len(),
    ensures
        r@ == plan_start(ordered_rows(rows@, row_order@), 0).needs,
{
    let ghost goal = plan_start(ordered_rows(rows@, row_order@), 0).needs;
    let mut r: Vec<OpenNeeds> = Vec::new();
    let mut n: usize = 0;
    while n < row_order.len()
        invariant
            n <= row_order.len(),
            forall|i: int| 0 <= i < row_order.len() ==> #[trigger] row_order[i] < rows.len(),
            goal == plan_start(ordered_rows(rows@, row_order@), 0).needs,
            r.len() == n,
            forall|i: int| 0 <= i < n ==> #[trigger] r[i] == goal[i],
        decreases row_order.len() - n,
    {
        let row = &rows[row_order[n]];
        r.push(
            OpenNeeds {
                heavy_transport_slots: row.heavy_transport_slots,
                light_transport_slots: row.light_transport_slots,
                capture_units: row.capture_units,
                combat_budget: row.combat_budget,
                reserved_budget: row.reserved_budget,
            },
        );
        n += 1;
    }
    assert(r@ =~= goal);
    r
}

/// Plans what to build for the campaigns, the most important campaign first. With a chart, what
/// harms the enemy types that matter to a campaign goes first.
pub fn plan_campaign_shortfall_production_with_damage(
    player_id: PlayerId,
    shortfalls: &Vec<IslandCampaignShortfall>,
    facilities: &Vec<(GridPosition, Terrain)>,
    available_types: &Vec<(UnitType, UnitStats)>,
    travel: &TravelTable,
    master_data: &MasterDataRegistry,
    available_funds: u32,
    damage_chart: Option<&DamageChart>,
) -> (r: CampaignProductionOutcome)
    ensures
        outcome_of(
            r,
            planned(
                production_setting(
                    player_id,
                    facilities@,
                    available_types@,
                    *travel,
                    *master_data,
                    chart_of(damage_chart),
                ),
                shortfalls@,
                available_funds,
            ),
        ),
{
    let row_order = rank_rows(shortfalls);
    let shop = Workshop {
        player: player_id,
        facilities: sort_facilities(facilities),
        types: available_types,
        type_order: sort_types(master_data, available_types),
        travel,
        registry: master_data,
        chart: damage_chart,
    };
    let ghost setting = production_setting(
        player_id,
        facilities@,
        available_types@,
        *travel,
        *master_data,
        chart_of(damage_chart),
    );
    let ghost rows = ranked_rows(shortfalls@);
    let ghost start = plan_start(rows, available_funds);
    assert(shop.setting().types =~= setting.types);
    assert(shop.setting() == setting);
    let mut state = Planning {
        commands: Vec::new(),
        costs: Vec::new(),
        remaining: available_funds,
        protected: 0,
        used: Vec::new(),
        completed: true,
        stopped: false,
        needs: first_needs(shortfalls, &row_order),
    };
    assert(state.commands@ =~= start.commands);
    assert(state.costs@ =~= start.costs);
    assert(state.used@ =~= start.used);
    assert(state@ == start);
    let mut n: usize = 0;
    while n < row_order.len()
        invariant
            n <= row_order.len(),
            shop.wf(),
            shop.setting() == setting,
            rows == ordered_rows(shortfalls@, row_order@),
            forall|i: int| 0 <= i < row_order.len() ==> #[trigger] row_order[i] < shortfalls.len(),
            state.needs.len() == row_order.len(),
            state@ == rows_planned(setting, rows, start, n as int),
        decreases row_order.len() - n,
    {
        if !state.stopped {
            shop.plan_row(shortfalls, &row_order, &mut state, n);
        }
        n += 1;
    }
    let reserved: u32 = sum_reserved(&state.needs);
    CampaignProductionOutcome {
        generic_funds: state.remaining.saturating_sub(reserved),
        commands: state.commands,
        remaining_funds: state.remaining,
        used_facilities: state.used,
        completed_all_rows: state.completed,
    }
}

/// Plans what to build for the campaigns without regard to what harms whom.
pub fn plan_campaign_shortfall_production(
    player_id: PlayerId,
    shortfalls: &Vec<IslandCampaignShortfall>,
    facilities: &Vec<(GridPosition, Terrain)>,
    available_types: &Vec<(UnitType, UnitStats)>,
    travel: &TravelTable,
    master_data: &MasterDataRegistry,
    available_funds: u32,
) -> (r: CampaignProductionOutcome)
    ensures
        outcome_of(
            r,
            planned(
                production_setting(
                    player_id,
                    facilities@,
                    available_types@,
                    *travel,
                    *master_data,
                    None,
                ),
                shortfalls@,
                available_funds,
            ),
        ),
{
    plan_campaign_shortfall_production_with_damage(
        player_id,
        shortfalls,
        facilities,
        available_types,
        travel,
        master_data,
        available_funds,
        None,
    )
}

/// The unit can take or hold ground: it walks or drives, captures, or carries others.
pub open spec fn controls_territory(stats: UnitStats) -> bool {
    (stats.movement_type != MovementType::Air && stats.movement_type != MovementType::Ship)
        || stats.can_capture || stats.max_cargo > 0
}

/// The type harms some enemy that can take or hold ground.
pub open spec fn harms_expansion(
    chart: DamageChart,
    unit_type: UnitType,
    enemies: Seq<UnitStats>,
) -> bool {
    exists|e: int|
        0 <= e < enemies.len() && controls_territory(#[trigger] enemies[e]) && chart.best(
            unit_type,
            enemies[e].unit_type,
        ) > 0
}

/// Units of the type can be built at an airport now to fight an enemy that takes ground.
pub open spec fn denies_expansion(
    candidate: (UnitType, UnitStats),
    enemies: Seq<UnitStats>,
    chart: DamageChart,
    registry: MasterDataRegistry,
    funds: u32,
) -> bool {
    &&& candidate.1.movement_type == MovementType::Air
    &&& !candidate.1.can_capture
    &&& candidate.1.max_cargo == 0
    &&& 0 < candidate.1.cost <= funds
    &&& registry.builds_type(Terrain::Airport, candidate.0)
    &&& harms_expansion(chart, candidate.0, enemies)
}

/// The airport among the first `n` facilities that comes last in reading order.
pub open spec fn last_airport(
    facilities: Seq<(GridPosition, Terrain)>,
    n: int,
) -> Option<GridPosition>
    decreases n,
{
    if n <= 0 {
        None
    } else {
        let best = last_airport(facilities, n - 1);
        let (position, terrain) = facilities[n - 1];
        if terrain != Terrain::Airport {
            best
        } else {
            match best {
                Some(p) => if read_before(p, position) {
                    Some(position)
                } else {
                    best
                },
                None => Some(position),
            }
        }
    }
}

/// The airport to keep free for fighting aircraft: the last one, where more than one is owned and
/// an effective type can be paid for.
pub open spec fn denial_airport(
    facilities: Seq<(GridPosition, Terrain)>,
    owned_airport_count: u32,
    types: Seq<(UnitType, UnitStats)>,
    enemies: Seq<UnitStats>,
    chart: DamageChart,
    registry: MasterDataRegistry,
    funds: u32,
) -> Option<GridPosition> {
    if owned_airport_count >= 2 && exists|t: int|
        0 <= t < types.len() && denies_expansion(
            #[trigger] types[t],
            enemies,
            chart,
            registry,
            funds,
        ) {
        last_airport(facilities, facilities.len() as int)
    } else {
        None
    }
}

fn is_territorial(stats: &UnitStats) -> (r: bool)
    ensures
        r == controls_territory(*stats),
{
    (stats.movement_type != MovementType::Air && stats.movement_type != MovementType::Ship)
        || stats.can_capture || stats.max_cargo > 0
}

fn finds_expansion_target(
    chart: &DamageChart,
    unit_type: UnitType,
    enemies: &Vec<UnitStats>,
) -> (r: bool)
    ensures
        r == harms_expansion(*chart, unit_type, enemies@),
{
    let mut e: usize = 0;
    while e < enemies.len()
        invariant
            e <= enemies.len(),
            forall|i: int|
                0 <= i < e ==> !(controls_territory(#[trigger] enemies@[i]) && chart.best(
                    unit_type,
                    enemies@[i].unit_type,
                ) > 0),
        decreases enemies.len() - e,
    {
        if is_territorial(&enemies[e]) && chart.best_damage(unit_type, enemies[e].unit_type) > 0 {
            assert(controls_territory(enemies@[e as int]));
            return true;
        }
        e += 1;
    }
    false
}

fn can_deny_expansion(
    types: &Vec<(UnitType, UnitStats)>,
    enemies: &Vec<UnitStats>,
    chart: &DamageChart,
    registry: &MasterDataRegistry,
    funds: u32,
) -> (r: bool)
    ensures
        r == exists|t: int|
            0 <= t < types.len() && denies_expansion(
                #[trigger] types@[t],
                enemies@,
                *chart,
                *registry,
                funds,
            ),
{
    let mut t: usize = 0;
    while t < types.len()
        invariant
            t <= types.len(),
            forall|i: int|
                0 <= i < t ==> !denies_expansion(
                    #[trigger] types@[i],
                    enemies@,
                    *chart,
                    *registry,
                    funds,
                ),
        decreases types.len() - t,
    {
        let unit_type = types[t].0;
        let stats = &types[t].1;
        if stats.movement_type == MovementType::Air && !stats.can_capture && stats.max_cargo == 0
            && stats.cost > 0 && stats.cost <= funds && registry.can_produce_unit(
            Terrain::Airport,
            unit_type,
        ) && finds_expansion_target(chart, unit_type, enemies) {
            assert(denies_expansion(types@[t as int], enemies@, *chart, *registry, funds));
            return true;
        }
        t += 1;
    }
    false
}

/// The airport to keep free for fighting aircraft while the campaigns build transports.
pub fn select_expansion_denial_airport(
    facilities: &Vec<(GridPosition, Terrain)>,
    owned_airport_count: u32,
    available_types: &Vec<(UnitType, UnitStats)>,
    enemy_units: &Vec<UnitStats>,
    damage_chart: &DamageChart,
    master_data: &MasterDataRegistry,
    generic_funds: u32,
) -> (r: Option<GridPosition>)
    ensures
        r == denial_airport(
            facilities@,
            owned_airport_count,
            available_types@,
            enemy_units@,
            *damage_chart,
            *master_data,
            generic_funds,
        ),
{
    if owned_airport_count < 2 || !can_deny_expansion(
        available_types,
        enemy_units,
        damage_chart,
        master_data,
        generic_funds,
    ) {
        return None;
    }
    let mut best: Option<GridPosition> = None;
    let mut n: usize = 0;
    while n < facilities.len()
        invariant
            n <= facilities.len(),
            best == last_airport(facilities@, n as int),
        decreases facilities.len() - n,
    {
        let (position, terrain) = facilities[n];
        if terrain == Terrain::Airport {
            best =
            match best {
                Some(p) => if reads_before(p, position) {
                    Some(position)
                } else {
                    best
                },
                None => Some(position),
            };
        }
        n += 1;
    }
    best
}

/// The first `n` facilities without the one at the position.
pub open spec fn facilities_but(
    facilities: Seq<(GridPosition, Terrain)>,
    position: GridPosition,
    n: int,
) -> Seq<(GridPosition, Terrain)>
    decreases n,
{
    if n <= 0 {
        Seq::empty()
    } else if facilities[n - 1].0 == position {
        facilities_but(facilities, position, n - 1)
    } else {
        facilities_but(facilities, position, n - 1).push(facilities[n - 1])
    }
}

/// The end of planning for the campaigns, and what is left for anything else. Where what is left
/// over pays for aircraft that stop the enemy from spreading, the planning goes without one
/// airport, and all that is left over is free.
pub open spec fn planned_with_reserve(
    player: PlayerId,
    shortfalls: Seq<IslandCampaignShortfall>,
    facilities: Seq<(GridPosition, Terrain)>,
    owned_airport_count: u32,
    types: Seq<(UnitType, UnitStats)>,
    enemies: Seq<UnitStats>,
    chart: DamageChart,
    travel: TravelTable,
    registry: MasterDataRegistry,
    funds: u32,
) -> (PlanState, u32) {
    let first = planned(
        production_setting(player, facilities, types, travel, registry, Some(chart)),
        shortfalls,
        funds,
    );
    match denial_airport(
        facilities,
        owned_airport_count,
        types,
        enemies,
        chart,
        registry,
        first.remaining,
    ) {
        None => (
            first,
            first.remaining.saturating_sub(reserved_sum(first.needs, first.needs.len() as int)),
        ),
        Some(airport) => {
            let second = planned(
                production_setting(
                    player,
                    facilities_but(facilities, airport, facilities.len() as int),
                    types,
                    travel,
                    registry,
                    Some(chart),
                ),
                shortfalls,
                funds,
            );
            (second, second.remaining)
        },
    }
}

/// Plans for the campaigns, and once more without one airport where what is left over pays for
/// aircraft that stop the enemy from spreading. In that case all that is left over is free for it.
pub fn plan_campaign_with_expansion_denial_reserve(
    player_id: PlayerId,
    shortfalls: &Vec<IslandCampaignShortfall>,
    facilities: &Vec<(GridPosition, Terrain)>,
    owned_airport_count: u32,
    available_types: &Vec<(UnitType, UnitStats)>,
    enemy_units: &Vec<UnitStats>,
    damage_chart: &DamageChart,
    travel: &TravelTable,
    master_data: &MasterDataRegistry,
    available_funds: u32,
) -> (r: CampaignProductionOutcome)
    ensures
        ({
            let (end, generic_funds) = planned_with_reserve(
                player_id,
                shortfalls@,
                facilities@,
                owned_airport_count,
                available_types@,
                enemy_units@,
                *damage_chart,
                *travel,
                *master_data,
                available_funds,
            );
            &&& r.commands@ == end.commands
            &&& r.remaining_funds == end.remaining
            &&& r.generic_funds == generic_funds
            &&& r.used_facilities@ == end.used
            &&& r.completed_all_rows == end.completed
        }),
{
    let outcome = plan_campaign_shortfall_production_with_damage(
        player_id,
        shortfalls,
        facilities,
        available_types,
        travel,
        master_data,
        available_funds,
        Some(damage_chart),
    );
    let reserved = select_expansion_denial_airport(
        facilities,
        owned_airport_count,
        available_types,
        enemy_units,
        damage_chart,
        master_data,
        outcome.remaining_funds,
    );
    match reserved {
        None => outcome,
        Some(airport) => {
            let mut others: Vec<(GridPosition, Terrain)> = Vec::new();
            let mut n: usize = 0;
            while n < facilities.len()
                invariant
                    n <= facilities.len(),
                    others@ == facilities_but(facilities@, airport, n as int),
                decreases facilities.len() - n,
            {
                if facilities[n].0 != airport {
                    others.push(facilities[n]);
                }
                n += 1;
            }
            let mut second = plan_campaign_shortfall_production_with_damage(
                player_id,
                shortfalls,
                &others,
                available_types,
                travel,
                master_data,
                available_funds,
                Some(damage_chart),
            );
            second.generic_funds = second.remaining_funds;
            second
        },
    }
}

/// The sum of the first `n` costs.
pub open spec fn spent(costs: Seq<u32>, n: int) -> nat
    decreases n,
{
    if n <= 0 {
        0
    } else {
        spent(costs, n - 1) + costs[n - 1] as nat
    }
}

/// All that the first `n` campaigns reserve.
pub open spec fn all_reserved(needs: Seq<OpenNeeds>, n: int) -> nat
    decreases n,
{
    if n <= 0 {
        0
    } else {
        all_reserved(needs, n - 1) + needs[n - 1].reserved_budget as nat
    }
}

/// The command builds something that a facility of the setting builds, and costs that much.
pub open spec fn is_real(
    setting: ProductionSetting,
    command: ProduceUnitCommand,
    position: GridPosition,
    cost: u32,
) -> bool {
    exists|f: int, t: int|
        0 <= f < setting.facilities.len() && 0 <= t < setting.types.len() && (
        #[trigger] setting.facilities[f]).0 == position && (#[trigger] setting.types[t]).0
            == command.unit_type && setting.types[t].1.cost == cost
            && setting.registry.builds_type(setting.facilities[f].1, command.unit_type)
}

/// What holds at every point of the planning: the money adds up, what is kept for more important
/// campaigns is still there, and every command has a facility of its own.
pub open spec fn plan_sound(
    setting: ProductionSetting,
    start: PlanState,
    state: PlanState,
) -> bool {
    &&& state.remaining + spent(state.costs, state.costs.len() as int) == start.remaining
    &&& state.protected <= state.remaining
    &&& state.commands.len() == state.costs.len()
    &&& state.commands.len() == state.used.len()
    &&& state.needs.len() == start.needs.len()
    &&& all_reserved(state.needs, state.needs.len() as int) + spent(
        state.costs,
        state.costs.len() as int,
    ) == all_reserved(start.needs, start.needs.len() as int)
    &&& forall|i: int, j: int|
        0 <= i < j < state.used.len() ==> #[trigger] state.used[i] != #[trigger] state.used[j]
    &&& forall|i: int|
        0 <= i < state.commands.len() ==> {
            &&& (#[trigger] state.commands[i]).player_id == setting.player
            &&& state.commands[i].target_x == state.used[i].x
            &&& state.commands[i].target_y == state.used[i].y
            &&& is_real(setting, state.commands[i], state.used[i], state.costs[i])
        }
}

proof fn lemma_spent_prefix(a: Seq<u32>, b: Seq<u32>, n: int)
    requires
        n <= a.len(),
        n <= b.len(),
        forall|i: int| 0 <= i < n ==> a[i] == b[i],
    ensures
        spent(a, n) == spent(b, n),
    decreases n,
{
    if n > 0 {
        lemma_spent_prefix(a, b, n - 1);
    }
}

proof fn lemma_reserved_update(needs: Seq<OpenNeeds>, k: int, new: OpenNeeds, n: int)
    requires
        0 <= k < needs.len(),
        0 <= n <= needs.len(),
    ensures
        all_reserved(needs.update(k, new), n) == all_reserved(needs, n) + (if k < n {
            new.reserved_budget - needs[k].reserved_budget
        } else {
            0
        }),
    decreases n,
{
    if n > 0 {
        lemma_reserved_update(needs, k, new, n - 1);
    }
}

proof fn lemma_ordered_sound(
    setting: ProductionSetting,
    start: PlanState,
    state: PlanState,
    k: int,
    target: GridPosition,
    requirement: CampaignProductionRequirement,
    build: (int, int),
)
    requires
        plan_sound(setting, start, state),
        0 <= k < state.needs.len(),
        is_build(
            setting,
            target,
            state.needs[k].reserved_budget,
            free_funds(state),
            requirement,
            state.used,
            build,
        ),
    ensures
        plan_sound(setting, start, ordered(setting, state, k, requirement, build)),
{
    let next = ordered(setting, state, k, requirement, build);
    let cost = setting.types[build.1].1.cost;
    let new = needs_after(
        state.needs[k],
        requirement,
        cost,
        setting.types[build.1].1.max_cargo,
    );
    lemma_spent_prefix(next.costs, state.costs, state.costs.len() as int);
    lemma_reserved_update(state.needs, k, new, state.needs.len() as int);
    assert forall|i: int, j: int| 0 <= i < j < next.used.len() implies #[trigger] next.used[i]
        != #[trigger] next.used[j] by {
        if j == state.used.len() {
            assert(next.used[i] == state.used[i]);
            assert(state.used.contains(state.used[i]));
        } else {
            assert(next.used[i] == state.used[i]);
            assert(next.used[j] == state.used[j]);
        }
    }
    assert forall|i: int| 0 <= i < next.commands.len() implies {
        &&& (#[trigger] next.commands[i]).player_id == setting.player
        &&& next.commands[i].target_x == next.used[i].x
        &&& next.commands[i].target_y == next.used[i].y
        &&& is_real(setting, next.commands[i], next.used[i], next.costs[i])
    } by {
        if i < state.commands.len() {
            assert(next.commands[i] == state.commands[i]);
        } else {
            assert(setting.facilities[build.0].0 == next.used[i]);
            assert(setting.types[build.1].0 == next.commands[i].unit_type);
        }
    }
}

/// Planning a campaign keeps what holds, touches the needs of no other campaign, and counts as
/// complete exactly if the campaign lacks nothing any more.
proof fn lemma_row_sound(
    setting: ProductionSetting,
    rows: Seq<IslandCampaignShortfall>,
    k: int,
    start: PlanState,
    state: PlanState,
    structural: bool,
)
    requires
        plan_sound(setting, start, state),
        0 <= k < state.needs.len(),
        !state.stopped,
    ensures
        ({
            let end = row_planned(setting, rows, k, state, structural);
            &&& plan_sound(setting, start, end)
            &&& forall|j: int|
                0 <= j < state.needs.len() && j != k ==> #[trigger] end.needs[j] == state.needs[j]
            &&& end.completed == (state.completed && requirements(end.needs[k]).len() == 0)
            &&& end.stopped ==> !end.completed
        }),
    decreases unused(setting.facilities, state.used, setting.facilities.len() as int),
{
    let row = rows[k];
    let needs = state.needs[k];
    let open = requirements(needs);
    if open.len() != 0 && !(row.decision == IslandCampaignDecision::Assault && structural && open
        == seq![CampaignProductionRequirement::Combat]) {
        lemma_next_build(setting, row, needs, free_funds(state), state.used, 0);
        if let Some((i, build)) = next_build(
            setting,
            row,
            needs,
            free_funds(state),
            state.used,
            0,
        ) {
            let next = ordered(setting, state, k, open[i], build);
            lemma_ordered_sound(setting, start, state, k, row.target_position, open[i], build);
            if i > 0 {
                assert(open[0] != open[i]);
                assert(requirements(next.needs[k]).len() > 0);
            } else {
                lemma_unused_drops(
                    setting.facilities,
                    state.used,
                    build.0,
                    setting.facilities.len() as int,
                );
                lemma_row_sound(
                    setting,
                    rows,
                    k,
                    start,
                    next,
                    structural || (row.decision == IslandCampaignDecision::Assault && open[i]
                        != CampaignProductionRequirement::Combat),
                );
            }
        }
    }
}

proof fn lemma_rows_sound(
    setting: ProductionSetting,
    rows: Seq<IslandCampaignShortfall>,
    funds: u32,
    n: int,
)
    requires
        0 <= n <= rows.len(),
    ensures
        ({
            let start = plan_start(rows, funds);
            let end = rows_planned(setting, rows, start, n);
            &&& plan_sound(setting, start, end)
            &&& end.stopped ==> !end.completed
            &&& end.completed <==> forall|j: int|
                0 <= j < n ==> requirements(#[trigger] end.needs[j]).len() == 0
        }),
    decreases n,
{
    let start = plan_start(rows, funds);
    if n > 0 {
        lemma_rows_sound(setting, rows, funds, n - 1);
        let before = rows_planned(setting, rows, start, n - 1);
        if !before.stopped {
            lemma_row_sound(setting, rows, n - 1, start, before, false);
            let end = rows_planned(setting, rows, start, n);
            if !before.completed {
                let j = choose|j: int|
                    0 <= j < n - 1 && requirements(#[trigger] before.needs[j]).len() != 0;
                assert(end.needs[j] == before.needs[j]);
            } else {
                assert forall|j: int| 0 <= j < n - 1 implies requirements(
                    #[trigger] end.needs[j],
                ).len() == 0 by {
                    assert(end.needs[j] == before.needs[j]);
                }
            }
        }
    }
}

/// The money that is left and the money that the commands cost are together what there was, what
/// is kept for more important campaigns is never spent, and the campaigns spend nothing beyond
/// what they reserved.
pub proof fn law_campaign_money_adds_up(
    setting: ProductionSetting,
    shortfalls: Seq<IslandCampaignShortfall>,
    funds: u32,
)
    ensures
        ({
            let end = planned(setting, shortfalls, funds);
            let start = plan_start(ranked_rows(shortfalls), funds);
            let cost = spent(end.costs, end.costs.len() as int);
            &&& end.costs.len() == end.commands.len()
            &&& end.remaining + cost == funds
            &&& end.protected <= end.remaining
            &&& all_reserved(end.needs, end.needs.len() as int) + cost == all_reserved(
                start.needs,
                start.needs.len() as int,
            )
        }),
{
    let rows = ranked_rows(shortfalls);
    lemma_rows_sound(setting, rows, funds, rows.len() as int);
}

/// Every command goes to a facility of its own that builds the ordered type, and costs what that
/// type costs.
pub proof fn law_facility_builds_once(
    setting: ProductionSetting,
    shortfalls: Seq<IslandCampaignShortfall>,
    funds: u32,
)
    ensures
        ({
            let end = planned(setting, shortfalls, funds);
            &&& end.used.len() == end.commands.len()
            &&& forall|i: int, j: int|
                0 <= i < j < end.used.len() ==> #[trigger] end.used[i] != #[trigger] end.used[j]
            &&& forall|i: int|
                0 <= i < end.commands.len() ==> {
                    &&& (#[trigger] end.commands[i]).player_id == setting.player
                    &&& end.commands[i].target_x == end.used[i].x
                    &&& end.commands[i].target_y == end.used[i].y
                    &&& is_real(setting, end.commands[i], end.used[i], end.costs[i])
                }
        }),
{
    let rows = ranked_rows(shortfalls);
    lemma_rows_sound(setting, rows, funds, rows.len() as int);
}

/// The planning counts as complete if and only if no campaign lacks anything any more.
pub proof fn law_complete_plan_lacks_nothing(
    setting: ProductionSetting,
    shortfalls: Seq<IslandCampaignShortfall>,
    funds: u32,
)
    ensures
        ({
            let end = planned(setting, shortfalls, funds);
            &&& end.needs.len() == ranked_rows(shortfalls).len()
            &&& end.completed <==> forall|j: int|
                0 <= j < end.needs.len() ==> requirements(#[trigger] end.needs[j]).len() == 0
        }),
{
    let rows = ranked_rows(shortfalls);
    lemma_rows_sound(setting, rows, funds, rows.len() as int);
}

proof fn lemma_facilities_but(
    facilities: Seq<(GridPosition, Terrain)>,
    position: GridPosition,
    n: int,
)
    requires
        n <= facilities.len(),
    ensures
        forall|i: int|
            0 <= i < facilities_but(facilities, position, n).len() ==> (#[trigger] facilities_but(
                facilities,
                position,
                n,
            )[i]).0 != position,
    decreases n,
{
    if n > 0 {
        lemma_facilities_but(facilities, position, n - 1);
        let rest = facilities_but(facilities, position, n - 1);
        assert(forall|i: int| 0 <= i < rest.len() ==> (#[trigger] rest[i]).0 != position);
    }
}

/// Where an airport is kept free for fighting aircraft, no campaign builds there, and whatever the
/// campaigns do not spend this turn is free for them.
pub proof fn law_reserved_airport_stays_free(
    player: PlayerId,
    shortfalls: Seq<IslandCampaignShortfall>,
    facilities: Seq<(GridPosition, Terrain)>,
    owned_airport_count: u32,
    types: Seq<(UnitType, UnitStats)>,
    enemies: Seq<UnitStats>,
    chart: DamageChart,
    travel: TravelTable,
    registry: MasterDataRegistry,
    funds: u32,
)
    ensures
        ({
            let first = planned(
                production_setting(player, facilities, types, travel, registry, Some(chart)),
                shortfalls,
                funds,
            );
            let (end, generic_funds) = planned_with_reserve(
                player,
                shortfalls,
                facilities,
                owned_airport_count,
                types,
                enemies,
                chart,
                travel,
                registry,
                funds,
            );
            denial_airport(
                facilities,
                owned_airport_count,
                types,
                enemies,
                chart,
                registry,
                first.remaining,
            ) matches Some(airport) ==> generic_funds == end.remaining && forall|i: int|
                0 <= i < end.commands.len() ==> (#[trigger] end.commands[i]).target_x != airport.x
                    || end.commands[i].target_y != airport.y
        }),
{
    let first = planned(
        production_setting(player, facilities, types, travel, registry, Some(chart)),
        shortfalls,
        funds,
    );
    if let Some(airport) = denial_airport(
        facilities,
        owned_airport_count,
        types,
        enemies,
        chart,
        registry,
        first.remaining,
    ) {
        let others = facilities_but(facilities, airport, facilities.len() as int);
        let setting = production_setting(player, others, types, travel, registry, Some(chart));
        let end = planned(setting, shortfalls, funds);
        lemma_facilities_but(facilities, airport, facilities.len() as int);
        lemma_sort_prefix(facility_keys(others), others.len() as int);
        law_facility_builds_once(setting, shortfalls, funds);
        assert forall|i: int| 0 <= i < end.commands.len() implies (
        #[trigger] end.commands[i]).target_x != airport.x || end.commands[i].target_y
            != airport.y by {
            assert(is_real(setting, end.commands[i], end.used[i], end.costs[i]));
            let (f, t) = choose|f: int, t: int|
                0 <= f < setting.facilities.len() && 0 <= t < setting.types.len() && (
                #[trigger] setting.facilities[f]).0 == end.used[i] && (
                #[trigger] setting.types[t]).0 == end.commands[i].unit_type
                    && setting.types[t].1.cost == end.costs[i] && setting.registry.builds_type(
                    setting.facilities[f].1,
                    end.commands[i].unit_type,
                );
            let k = sort_order(facility_keys(others))[f];
            assert(setting.facilities[f] == others[k]);
        }
    }
}

/// The airport to keep free is an airport after which no other comes in reading order; there is
/// none exactly if there is no airport.
pub proof fn law_last_airport_is_last(facilities: Seq<(GridPosition, Terrain)>, n: int)
    requires
        0 <= n <= facilities.len(),
    ensures
        match last_airport(facilities, n) {
            Some(p) => {
                &&& exists|i: int|
                    0 <= i < n && (#[trigger] facilities[i]).1 == Terrain::Airport
                        && facilities[i].0 == p
                &&& forall|i: int|
                    0 <= i < n && (#[trigger] facilities[i]).1 == Terrain::Airport ==> !read_before(
                        p,
                        facilities[i].0,
                    )
            },
            None => forall|i: int|
                0 <= i < n ==> (#[trigger] facilities[i]).1 != Terrain::Airport,
        },
    decreases n,
{
    if n > 0 {
        law_last_airport_is_last(facilities, n - 1);
        if let Some(p) = last_airport(facilities, n - 1) {
            let i = choose|i: int|
                0 <= i < n - 1 && (#[trigger] facilities[i]).1 == Terrain::Airport
                    && facilities[i].0 == p;
            assert(0 <= i < n && facilities[i].0 == p);
        }
    }
}

} // verus!
