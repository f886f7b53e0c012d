//! What holds of building for island campaigns.
use crate::campaign_production::{
    all_reserved, best_build, build_key, build_keys, builds, builds_at, damage_sum, denial_airport,
    facilities_but, facility_keys, free_funds, harmed, last_airport, law_last_airport_is_last,
    lemma_next_build, lemma_unused_drops, may_build, needs_after, next_build, outcome_of, planned,
    planned_with_reserve, production_setting, ranked_rows, requirements, reserved_sum, row_keys,
    row_planned, type_keys, CampaignProductionOutcome, CampaignProductionRequirement,
    IslandCampaignShortfall, OpenNeeds, PlanState, ProductionSetting,
};
use crate::damage::DamageChart;
use crate::grid::{read_before, GridPosition, Terrain};
use crate::island_campaign::IslandCampaignDecision;
use crate::master_data::MasterDataRegistry;
use crate::order::{
    first_least, keys_index, lemma_first_least, lemma_gathered, lemma_lex_by, lemma_lex_irreflexive,
    lemma_never_before, lemma_sort_prefix, sort_order, stands_before,
};
use crate::travel::TravelTable;
use crate::units::{MovementType, PlayerId, UnitStats, UnitType};
use vstd::prelude::*;

verus! {

/// How much of the kind is lacking.
pub open spec fn lack_of(needs: OpenNeeds, kind: CampaignProductionRequirement) -> u32 {
    match kind {
        CampaignProductionRequirement::HeavyTransport => needs.heavy_transport_slots,
        CampaignProductionRequirement::LightTransport => needs.light_transport_slots,
        CampaignProductionRequirement::Capture => needs.capture_units,
        CampaignProductionRequirement::Combat => needs.combat_budget,
    }
}

/// Heavy transports are the most pressing, then light ones, then captors, then fighters.
pub open spec fn pressing(kind: CampaignProductionRequirement) -> int {
    match kind {
        CampaignProductionRequirement::HeavyTransport => 0,
        CampaignProductionRequirement::LightTransport => 1,
        CampaignProductionRequirement::Capture => 2,
        CampaignProductionRequirement::Combat => 3,
    }
}

/// Exactly what is lacking is asked for, the most pressing first.
pub proof fn law_most_pressing_lack_is_first(needs: OpenNeeds)
    ensures
        ({
            let list = requirements(needs);
            &&& forall|kind: CampaignProductionRequirement| #[trigger]
                list.contains(kind) <==> lack_of(needs, kind) > 0
            &&& forall|i: int, j: int|
                0 <= i < j < list.len() ==> pressing(#[trigger] list[i]) < pressing(
                    #[trigger] list[j],
                )
        }),
{
    let list = requirements(needs);
    let h = if needs.heavy_transport_slots > 0 {
        1int
    } else {
        0
    };
    let l = h + if needs.light_transport_slots > 0 {
        1int
    } else {
        0
    };
    let c = l + if needs.capture_units > 0 {
        1int
    } else {
        0
    };
    assert forall|kind: CampaignProductionRequirement| lack_of(needs, kind)
        > 0 implies #[trigger] list.contains(kind) by {
        match kind {
            CampaignProductionRequirement::HeavyTransport => {
                assert(list[0] == kind);
            },
            CampaignProductionRequirement::LightTransport => {
                assert(list[h] == kind);
            },
            CampaignProductionRequirement::Capture => {
                assert(list[l] == kind);
            },
            CampaignProductionRequirement::Combat => {
                assert(list[c] == kind);
            },
        }
    }
}

/// The type serves the kind of need: landers and helicopters that carry something for transport,
/// captors for capturing, and for fighting what has a price and does not merely support others.
pub open spec fn fits(
    kind: CampaignProductionRequirement,
    unit_type: UnitType,
    stats: UnitStats,
) -> bool {
    match kind {
        CampaignProductionRequirement::HeavyTransport => unit_type == UnitType::Lander
            && stats.max_cargo >= 1,
        CampaignProductionRequirement::LightTransport => unit_type == UnitType::TransportHelicopter
            && stats.max_cargo >= 1,
        CampaignProductionRequirement::Capture => stats.can_capture,
        CampaignProductionRequirement::Combat => stats.cost >= 1 && unit_type != UnitType::Lander
            && unit_type != UnitType::TransportHelicopter && unit_type != UnitType::SupplyTruck,
    }
}

/// The pair is a facility where nothing was ordered yet and a type that it can build for the need:
/// the campaign has the money, and a fighter gets to the target from there.
pub open spec fn is_order(
    setting: ProductionSetting,
    target: GridPosition,
    reserved: u32,
    free: u32,
    kind: CampaignProductionRequirement,
    used: Seq<GridPosition>,
    pair: (int, int),
) -> bool {
    let facility = setting.facilities[pair.0];
    let (unit_type, stats) = setting.types[pair.1];
    &&& 0 <= pair.0 < setting.facilities.len()
    &&& 0 <= pair.1 < setting.types.len()
    &&& forall|i: int| 0 <= i < used.len() ==> #[trigger] used[i] != facility.0
    &&& setting.registry.builds_type(facility.1, unit_type)
    &&& fits(kind, unit_type, stats)
    &&& stats.cost <= reserved && stats.cost <= free
    &&& kind != CampaignProductionRequirement::Combat || setting.travel.linked(
        stats.movement_type,
        facility.0,
        target,
    )
}

proof fn lemma_builds_at_all(
    setting: ProductionSetting,
    target: GridPosition,
    reserved: u32,
    free: u32,
    kind: CampaignProductionRequirement,
    f: int,
    m: int,
    pair: (int, int),
)
    requires
        0 <= m <= setting.types.len(),
    ensures
        builds_at(setting, target, reserved, free, kind, f, m).contains(pair) <==> pair.0 == f && 0
            <= pair.1 < m && may_build(
            setting,
            target,
            reserved,
            free,
            kind,
            setting.facilities[f],
            setting.types[pair.1],
        ),
    decreases m,
{
    let all = builds_at(setting, target, reserved, free, kind, f, m);
    if m > 0 {
        lemma_builds_at_all(setting, target, reserved, free, kind, f, m - 1, pair);
        let rest = builds_at(setting, target, reserved, free, kind, f, m - 1);
        if all.len() > rest.len() {
            assert(all[rest.len() as int] == (f, m - 1));
            if rest.contains(pair) {
                let i = choose|i: int| 0 <= i < rest.len() && rest[i] == pair;
                assert(all[i] == pair);
            }
            if all.contains(pair) {
                let i = choose|i: int| 0 <= i < all.len() && all[i] == pair;
                if i < rest.len() {
                    assert(rest[i] == pair);
                }
            }
        }
    }
}

proof fn lemma_builds_all(
    setting: ProductionSetting,
    target: GridPosition,
    reserved: u32,
    free: u32,
    kind: CampaignProductionRequirement,
    used: Seq<GridPosition>,
    n: int,
    pair: (int, int),
)
    requires
        0 <= n <= setting.facilities.len(),
    ensures
        builds(setting, target, reserved, free, kind, used, n).contains(pair) <==> pair.0 < n
            && is_order(setting, target, reserved, free, kind, used, pair),
    decreases n,
{
    let all = builds(setting, target, reserved, free, kind, used, n);
    if n > 0 {
        lemma_builds_all(setting, target, reserved, free, kind, used, n - 1, pair);
        let rest = builds(setting, target, reserved, free, kind, used, n - 1);
        let p = setting.facilities[n - 1].0;
        assert(used.contains(p) <==> !(forall|i: int| 0 <= i < used.len() ==> #[trigger] used[i]
            != p));
        if !used.contains(p) {
            let m = setting.types.len() as int;
            let more = builds_at(setting, target, reserved, free, kind, n - 1, m);
            lemma_builds_at_all(setting, target, reserved, free, kind, n - 1, m, pair);
            assert(all == rest + more);
            if rest.contains(pair) {
                let i = choose|i: int| 0 <= i < rest.len() && rest[i] == pair;
                assert(all[i] == pair);
            }
            if more.contains(pair) {
                let i = choose|i: int| 0 <= i < more.len() && more[i] == pair;
                assert(all[rest.len() + i] == pair);
            }
            if all.contains(pair) {
                let i = choose|i: int| 0 <= i < all.len() && all[i] == pair;
                if i < rest.len() {
                    assert(rest[i] == pair);
                } else {
                    assert(more[i - rest.len()] == pair);
                }
            }
        }
    }
}

/// One more enemy type counts if the type harms it, and its damage is added.
pub proof fn law_harm_is_counted_by_enemy(
    chart: DamageChart,
    unit_type: UnitType,
    enemies: Seq<UnitType>,
    more: UnitType,
)
    ensures
        ({
            let n = enemies.len() as int;
            let hit = chart.best(unit_type, more) as int;
            let before = damage_sum(Some(chart), unit_type, enemies, n);
            let sum = before + hit;
            &&& harmed(Some(chart), unit_type, enemies, 0) == 0
            &&& damage_sum(Some(chart), unit_type, enemies, 0) == 0
            &&& harmed(Some(chart), unit_type, enemies.push(more), n + 1) == harmed(
                Some(chart),
                unit_type,
                enemies,
                n,
            ) + (if hit > 0 {
                1int
            } else {
                0
            })
            &&& damage_sum(Some(chart), unit_type, enemies.push(more), n + 1) == (if sum
                > u32::MAX {
                u32::MAX as int
            } else {
                sum
            })
        }),
{
    lemma_harm_prefix(chart, unit_type, enemies, more, enemies.len() as int);
}

proof fn lemma_harm_prefix(
    chart: DamageChart,
    unit_type: UnitType,
    enemies: Seq<UnitType>,
    more: UnitType,
    n: int,
)
    requires
        0 <= n <= enemies.len(),
    ensures
        harmed(Some(chart), unit_type, enemies.push(more), n) == harmed(
            Some(chart),
            unit_type,
            enemies,
            n,
        ),
        damage_sum(Some(chart), unit_type, enemies.push(more), n) == damage_sum(
            Some(chart),
            unit_type,
            enemies,
            n,
        ),
    decreases n,
{
    if n > 0 {
        lemma_harm_prefix(chart, unit_type, enemies, more, n - 1);
    }
}

proof fn lemma_harmed_bound(
    chart: Option<DamageChart>,
    unit_type: UnitType,
    enemies: Seq<UnitType>,
    n: int,
)
    requires
        0 <= n,
    ensures
        harmed(chart, unit_type, enemies, n) <= n,
    decreases n,
{
    if n > 0 {
        lemma_harmed_bound(chart, unit_type, enemies, n - 1);
    }
}

/// Of the combat budget the price uses this much.
pub open spec fn budget_used(
    kind: CampaignProductionRequirement,
    needs: OpenNeeds,
    stats: UnitStats,
) -> int {
    if kind != CampaignProductionRequirement::Combat {
        0
    } else if stats.cost < needs.combat_budget {
        stats.cost as int
    } else {
        needs.combat_budget as int
    }
}

/// The first order is better: it harms more of the enemy's types, else does them more damage, else
/// uses more of the combat budget, else is cheaper, else its type or its place comes first.
pub open spec fn is_better_order(
    setting: ProductionSetting,
    row: IslandCampaignShortfall,
    needs: OpenNeeds,
    kind: CampaignProductionRequirement,
    a: (int, int),
    b: (int, int),
) -> bool {
    let enemies = row.priority_enemy_types@;
    let n = enemies.len() as int;
    let (ta, sa) = setting.types[a.1];
    let (tb, sb) = setting.types[b.1];
    let ha = harmed(setting.chart, ta, enemies, n);
    let hb = harmed(setting.chart, tb, enemies, n);
    let da = damage_sum(setting.chart, ta, enemies, n);
    let db = damage_sum(setting.chart, tb, enemies, n);
    let ua = budget_used(kind, needs, sa);
    let ub = budget_used(kind, needs, sb);
    if ha != hb {
        ha > hb
    } else if da != db {
        da > db
    } else if ua != ub {
        ua > ub
    } else if sa.cost != sb.cost {
        sa.cost < sb.cost
    } else if setting.registry.rank(ta) != setting.registry.rank(tb) {
        setting.registry.rank(ta) < setting.registry.rank(tb)
    } else {
        read_before(setting.facilities[a.0].0, setting.facilities[b.0].0)
    }
}

/// What is built for a need is something that can be built for it, and nothing better can. Nothing
/// is built only where nothing can be.
#[verifier::rlimit(50)]
pub proof fn law_best_order_is_chosen(
    setting: ProductionSetting,
    row: IslandCampaignShortfall,
    needs: OpenNeeds,
    free: u32,
    kind: CampaignProductionRequirement,
    used: Seq<GridPosition>,
    other: (int, int),
)
    ensures
        ({
            let r = best_build(setting, row, needs, free, kind, used);
            let target = row.target_position;
            let reserved = needs.reserved_budget;
            &&& r is Some ==> is_order(setting, target, reserved, free, kind, used, r->0)
            &&& is_order(setting, target, reserved, free, kind, used, other) ==> r is Some
                && !is_better_order(setting, row, needs, kind, other, r->0)
        }),
{
    let target = row.target_position;
    let reserved = needs.reserved_budget;
    let n = setting.facilities.len() as int;
    let list = builds(setting, target, reserved, free, kind, used, n);
    let enemies = row.priority_enemy_types@;
    lemma_builds_all(setting, target, reserved, free, kind, used, n, other);
    if list.len() > 0 {
        let keys = build_keys(setting, enemies, needs.combat_budget, kind, list);
        lemma_first_least(keys, list.len() as int);
        let b = first_least(keys, list.len() as int);
        assert(list.contains(list[b]));
        lemma_builds_all(setting, target, reserved, free, kind, used, n, list[b]);
        if is_order(setting, target, reserved, free, kind, used, other) && is_better_order(
            setting,
            row,
            needs,
            kind,
            other,
            list[b],
        ) {
            let j = choose|j: int| 0 <= j < list.len() && list[j] == other;
            let (tx, ty) = (setting.types[other.1].0, setting.types[list[b].1].0);
            let m = enemies.len() as int;
            lemma_harmed_bound(setting.chart, tx, enemies, m);
            lemma_harmed_bound(setting.chart, ty, enemies, m);
            assert(m == row.priority_enemy_types.len());
            let x = build_key(
                setting,
                enemies,
                needs.combat_budget,
                kind,
                setting.facilities[other.0],
                setting.types[other.1],
            );
            let y = build_key(
                setting,
                enemies,
                needs.combat_budget,
                kind,
                setting.facilities[list[b].0],
                setting.types[list[b].1],
            );
            lemma_lex_by(
                x,
                y,
                if x[0] != y[0] {
                    0
                } else if x[1] != y[1] {
                    1
                } else if x[2] != y[2] {
                    2
                } else if x[3] != y[3] {
                    3
                } else if x[4] != y[4] {
                    4
                } else if x[5] != y[5] {
                    5
                } else {
                    6
                },
            );
            assert(keys[j] == x && keys[b] == y);
            lemma_lex_irreflexive(y);
            if j != b {
                assert(stands_before(keys, b, keys_index(j)));
                lemma_never_before(keys, b, j);
            }
        }
    }
}

/// The need that is met is the most pressing one that anything can be built for.
pub proof fn law_pressing_needs_are_met_first(
    setting: ProductionSetting,
    row: IslandCampaignShortfall,
    needs: OpenNeeds,
    free: u32,
    used: Seq<GridPosition>,
)
    ensures
        ({
            let list = requirements(needs);
            let r = next_build(setting, row, needs, free, used, 0);
            &&& r is Some ==> 0 <= (r->0).0 < list.len() && best_build(
                setting,
                row,
                needs,
                free,
                list[(r->0).0],
                used,
            ) == Some((r->0).1)
            &&& forall|j: int|
                0 <= j < list.len() && (r is None || j < (r->0).0) ==> best_build(
                    setting,
                    row,
                    needs,
                    free,
                    #[trigger] list[j],
                    used,
                ) is None
        }),
{
    lemma_next_from(setting, row, needs, free, used, 0);
}

proof fn lemma_next_from(
    setting: ProductionSetting,
    row: IslandCampaignShortfall,
    needs: OpenNeeds,
    free: u32,
    used: Seq<GridPosition>,
    i: int,
)
    requires
        0 <= i,
    ensures
        ({
            let list = requirements(needs);
            let r = next_build(setting, row, needs, free, used, i);
            &&& r is Some ==> i <= (r->0).0 < list.len() && best_build(
                setting,
                row,
                needs,
                free,
                list[(r->0).0],
                used,
            ) == Some((r->0).1)
            &&& forall|j: int|
                i <= j < list.len() && (r is None || j < (r->0).0) ==> best_build(
                    setting,
                    row,
                    needs,
                    free,
                    #[trigger] list[j],
                    used,
                ) is None
        }),
    decreases requirements(needs).len() - i,
{
    if i < requirements(needs).len() {
        lemma_next_from(setting, row, needs, free, used, i + 1);
    }
}

/// The difference, but not below zero.
pub open spec fn less(v: u32, by: int) -> int {
    if v >= by {
        v - by
    } else {
        0
    }
}

/// An order lessens the need that it is for, by its room, by one captor or by its price, and what
/// the campaign keeps by its price. Nothing else that is lacking changes.
pub proof fn law_order_lessens_its_need(
    needs: OpenNeeds,
    kind: CampaignProductionRequirement,
    other: CampaignProductionRequirement,
    cost: u32,
    max_cargo: u32,
)
    ensures
        ({
            let next = needs_after(needs, kind, cost, max_cargo);
            let by = match kind {
                CampaignProductionRequirement::HeavyTransport => max_cargo as int,
                CampaignProductionRequirement::LightTransport => max_cargo as int,
                CampaignProductionRequirement::Capture => 1,
                CampaignProductionRequirement::Combat => cost as int,
            };
            &&& lack_of(next, kind) == less(lack_of(needs, kind), by)
            &&& other != kind ==> lack_of(next, other) == lack_of(needs, other)
            &&& next.reserved_budget == less(needs.reserved_budget, cost as int)
        }),
{
}

/// One step of planning a campaign that lacks something.
///
/// - If nothing can be built, what the campaign keeps is held back from the campaigns after it, as
///   far as the money goes, and the plan is not complete.
/// - If the most pressing need cannot be met but another can, that is ordered and the turn's
///   planning ends.
/// - Otherwise the order is given and the planning of the campaign goes on.
///
/// An assault that got its transports or captors this turn does not go on to buy fighters.
#[verifier::rlimit(50)]
pub proof fn law_campaign_is_planned_step_by_step(
    setting: ProductionSetting,
    rows: Seq<IslandCampaignShortfall>,
    k: int,
    state: PlanState,
    structural: bool,
)
    requires
        0 <= k < state.needs.len(),
    ensures
        ({
            let end = row_planned(setting, rows, k, state, structural);
            let needs = state.needs[k];
            let open = requirements(needs);
            let free = if state.remaining >= state.protected {
                state.remaining - state.protected
            } else {
                0
            };
            let assault = rows[k].decision == IslandCampaignDecision::Assault;
            let halts = assault && structural && needs.heavy_transport_slots == 0
                && needs.light_transport_slots == 0 && needs.capture_units == 0
                && needs.combat_budget > 0;
            let r = next_build(setting, rows[k], needs, free as u32, state.used, 0);
            &&& open.len() == 0 ==> end == state
            &&& halts ==> end == (PlanState { completed: false, stopped: true, ..state })
            &&& open.len() > 0 && !halts && r is None ==> {
                &&& !end.completed
                &&& end.protected == (if state.protected + (if needs.reserved_budget <= free {
                    needs.reserved_budget as int
                } else {
                    free
                }) > u32::MAX {
                    u32::MAX as int
                } else {
                    state.protected + (if needs.reserved_budget <= free {
                        needs.reserved_budget as int
                    } else {
                        free
                    })
                })
                &&& end == (PlanState { protected: end.protected, completed: false, ..state })
            }
            &&& open.len() > 0 && !halts && r is Some ==> {
                let kind = open[(r->0).0];
                let place = setting.facilities[((r->0).1).0].0;
                let (unit_type, stats) = setting.types[((r->0).1).1];
                let next = PlanState {
                    commands: state.commands.push(
                        crate::campaign_production::ProduceUnitCommand {
                            player_id: setting.player,
                            target_x: place.x,
                            target_y: place.y,
                            unit_type,
                        },
                    ),
                    costs: state.costs.push(stats.cost),
                    remaining: less(state.remaining, stats.cost as int) as u32,
                    used: state.used.push(place),
                    needs: state.needs.update(
                        k,
                        needs_after(needs, kind, stats.cost, stats.max_cargo),
                    ),
                    ..state
                };
                &&& (r->0).0 > 0 ==> end == (PlanState { completed: false, stopped: true, ..next })
                &&& (r->0).0 == 0 ==> end == row_planned(
                    setting,
                    rows,
                    k,
                    next,
                    structural || (assault && kind != CampaignProductionRequirement::Combat),
                )
            }
        }),
{
    let needs = state.needs[k];
    let open = requirements(needs);
    let combat = seq![CampaignProductionRequirement::Combat];
    let only_combat = needs.heavy_transport_slots == 0 && needs.light_transport_slots == 0
        && needs.capture_units == 0 && needs.combat_budget > 0;
    assert(open == combat <==> only_combat) by {
        law_most_pressing_lack_is_first(needs);
        if only_combat {
            assert(open =~= combat);
        }
        if open == combat {
            assert(open[0] == CampaignProductionRequirement::Combat);
            assert(open.contains(CampaignProductionRequirement::Combat));
            assert(!open.contains(CampaignProductionRequirement::HeavyTransport));
            assert(!open.contains(CampaignProductionRequirement::LightTransport));
            assert(!open.contains(CampaignProductionRequirement::Capture));
        }
    }
    let free = free_funds(state);
    if open.len() > 0 && !(rows[k].decision == IslandCampaignDecision::Assault && structural
        && only_combat) {
        lemma_next_build(setting, rows[k], needs, free, state.used, 0);
        let r = next_build(setting, rows[k], needs, free, state.used, 0);
        if r is Some {
            lemma_unused_drops(
                setting.facilities,
                state.used,
                ((r->0).1).0,
                setting.facilities.len() as int,
            );
        }
    }
}

/// The campaign comes first: it has the lesser rank, or of equal rank the lesser island.
pub open spec fn ranks_first(a: IslandCampaignShortfall, b: IslandCampaignShortfall) -> bool {
    a.priority_rank < b.priority_rank || (a.priority_rank == b.priority_rank && a.island_id.0
        < b.island_id.0)
}

/// The campaigns are planned the most important first, and all of them are.
pub proof fn law_important_campaigns_are_planned_first(
    rows: Seq<IslandCampaignShortfall>,
    row: IslandCampaignShortfall,
)
    ensures
        ({
            let list = ranked_rows(rows);
            &&& list.len() == rows.len()
            &&& list.contains(row) <==> rows.contains(row)
            &&& forall|i: int, j: int|
                0 <= i < j < list.len() ==> !ranks_first(#[trigger] list[j], #[trigger] list[i])
        }),
{
    let keys = row_keys(rows);
    let list = ranked_rows(rows);
    let order = sort_order(keys);
    lemma_gathered(rows, keys, row);
    lemma_sort_prefix(keys, keys.len() as int);
    assert forall|i: int, j: int| 0 <= i < j < list.len() implies !ranks_first(
        #[trigger] list[j],
        #[trigger] list[i],
    ) by {
        assert(stands_before(keys, order[i], order[j]));
        lemma_never_before(keys, order[i], order[j]);
        let x = keys[order[j]];
        let y = keys[order[i]];
        if ranks_first(list[j], list[i]) {
            lemma_lex_by(
                x,
                y,
                if x[0] != y[0] {
                    0
                } else {
                    1
                },
            );
        }
    }
}

/// The planning looks at all facilities in reading order and at all types by rank and price.
pub proof fn law_facilities_and_types_are_in_order(
    player: PlayerId,
    facilities: Seq<(GridPosition, Terrain)>,
    types: Seq<(UnitType, UnitStats)>,
    travel: TravelTable,
    registry: MasterDataRegistry,
    chart: Option<DamageChart>,
    facility: (GridPosition, Terrain),
    unit: (UnitType, UnitStats),
)
    ensures
        ({
            let s = production_setting(player, facilities, types, travel, registry, chart);
            &&& s.player == player && s.travel == travel && s.registry == registry && s.chart
                == chart
            &&& s.facilities.len() == facilities.len() && s.types.len() == types.len()
            &&& s.facilities.contains(facility) <==> facilities.contains(facility)
            &&& s.types.contains(unit) <==> types.contains(unit)
            &&& forall|i: int, j: int|
                0 <= i < j < s.facilities.len() ==> !read_before(
                    (#[trigger] s.facilities[j]).0,
                    (#[trigger] s.facilities[i]).0,
                )
            &&& forall|i: int, j: int|
                0 <= i < j < s.types.len() ==> registry.rank((#[trigger] s.types[i]).0)
                    < registry.rank((#[trigger] s.types[j]).0) || (registry.rank(s.types[i].0)
                    == registry.rank(s.types[j].0) && s.types[i].1.cost <= s.types[j].1.cost)
        }),
{
    let s = production_setting(player, facilities, types, travel, registry, chart);
    let fk = facility_keys(facilities);
    let tk = type_keys(registry, types);
    lemma_gathered(facilities, fk, facility);
    lemma_gathered(types, tk, unit);
    lemma_sort_prefix(fk, fk.len() as int);
    lemma_sort_prefix(tk, tk.len() as int);
    let fo = sort_order(fk);
    let to = sort_order(tk);
    assert forall|i: int, j: int| 0 <= i < j < s.facilities.len() implies !read_before(
        (#[trigger] s.facilities[j]).0,
        (#[trigger] s.facilities[i]).0,
    ) by {
        assert(stands_before(fk, fo[i], fo[j]));
        lemma_never_before(fk, fo[i], fo[j]);
        let x = fk[fo[j]];
        let y = fk[fo[i]];
        if read_before(s.facilities[j].0, s.facilities[i].0) {
            lemma_lex_by(
                x,
                y,
                if x[0] != y[0] {
                    0
                } else {
                    1
                },
            );
        }
    }
    assert forall|i: int, j: int| 0 <= i < j < s.types.len() implies registry.rank(
        (#[trigger] s.types[i]).0,
    ) < registry.rank((#[trigger] s.types[j]).0) || (registry.rank(s.types[i].0) == registry.rank(
        s.types[j].0,
    ) && s.types[i].1.cost <= s.types[j].1.cost) by {
        assert(stands_before(tk, to[i], to[j]));
        lemma_never_before(tk, to[i], to[j]);
        let x = tk[to[j]];
        let y = tk[to[i]];
        if x[0] < y[0] {
            lemma_lex_by(x, y, 0);
        } else if x[0] == y[0] && x[1] < y[1] {
            lemma_lex_by(x, y, 1);
        }
    }
}

/// The enemy can take or hold ground.
pub open spec fn takes_ground(stats: UnitStats) -> bool {
    stats.can_capture || stats.max_cargo >= 1 || !(stats.movement_type == MovementType::Air
        || stats.movement_type == MovementType::Ship)
}

/// The type is an aircraft for fighting that an airport builds, that can be paid for and that harms
/// an enemy that takes ground.
pub open spec fn stops_expansion(
    unit: (UnitType, UnitStats),
    enemies: Seq<UnitStats>,
    chart: DamageChart,
    registry: MasterDataRegistry,
    funds: u32,
) -> bool {
    &&& unit.1.movement_type == MovementType::Air && !unit.1.can_capture && unit.1.max_cargo == 0
    &&& 1 <= unit.1.cost <= funds
    &&& registry.builds_type(Terrain::Airport, unit.0)
    &&& exists|e: int|
        0 <= e < enemies.len() && takes_ground(#[trigger] enemies[e]) && chart.best(
            unit.0,
            enemies[e].unit_type,
        ) > 0
}

/// An airport is kept for fighting aircraft exactly if the player owns two or more, one of the
/// facilities is one, and some aircraft stops the enemy's expansion.
#[verifier::rlimit(50)]
pub proof fn law_airport_is_kept_for_fighting_aircraft(
    facilities: Seq<(GridPosition, Terrain)>,
    owned_airport_count: u32,
    types: Seq<(UnitType, UnitStats)>,
    enemies: Seq<UnitStats>,
    chart: DamageChart,
    registry: MasterDataRegistry,
    funds: u32,
)
    ensures
        ({
            let r = denial_airport(
                facilities,
                owned_airport_count,
                types,
                enemies,
                chart,
                registry,
                funds,
            );
            &&& r is Some <==> owned_airport_count > 1 && (exists|i: int|
                0 <= i < facilities.len() && (#[trigger] facilities[i]).1 == Terrain::Airport)
                && (exists|t: int|
                0 <= t < types.len() && stops_expansion(
                    #[trigger] types[t],
                    enemies,
                    chart,
                    registry,
                    funds,
                ))
            &&& r is Some ==> r == last_airport(facilities, facilities.len() as int)
        }),
{
    law_last_airport_is_last(facilities, facilities.len() as int);
    assert forall|t: int| 0 <= t < types.len() implies stops_expansion(
        #[trigger] types[t],
        enemies,
        chart,
        registry,
        funds,
    ) == crate::campaign_production::denies_expansion(types[t], enemies, chart, registry, funds) by {
        let u = types[t].0;
        if stops_expansion(types[t], enemies, chart, registry, funds) {
            let e = choose|e: int|
                0 <= e < enemies.len() && takes_ground(#[trigger] enemies[e]) && chart.best(
                    u,
                    enemies[e].unit_type,
                ) > 0;
            assert(crate::campaign_production::controls_territory(enemies[e]));
        }
        if crate::campaign_production::harms_expansion(chart, u, enemies) {
            let e = choose|e: int|
                0 <= e < enemies.len() && crate::campaign_production::controls_territory(
                    #[trigger] enemies[e],
                ) && chart.best(u, enemies[e].unit_type) > 0;
            assert(takes_ground(enemies[e]));
        }
    }
    if exists|t: int|
        0 <= t < types.len() && stops_expansion(
            #[trigger] types[t],
            enemies,
            chart,
            registry,
            funds,
        ) {
        let t = choose|t: int|
            0 <= t < types.len() && stops_expansion(
                #[trigger] types[t],
                enemies,
                chart,
                registry,
                funds,
            );
        assert(crate::campaign_production::denies_expansion(
            types[t],
            enemies,
            chart,
            registry,
            funds,
        ));
    }
    if exists|t: int|
        0 <= t < types.len() && crate::campaign_production::denies_expansion(
            #[trigger] types[t],
            enemies,
            chart,
            registry,
            funds,
        ) {
        let t = choose|t: int|
            0 <= t < types.len() && crate::campaign_production::denies_expansion(
                #[trigger] types[t],
                enemies,
                chart,
                registry,
                funds,
            );
        assert(stops_expansion(types[t], enemies, chart, registry, funds));
    }
}

/// The facilities without the one at a position are all others.
pub proof fn law_only_that_facility_is_left_out(
    facilities: Seq<(GridPosition, Terrain)>,
    position: GridPosition,
    n: int,
    facility: (GridPosition, Terrain),
)
    requires
        0 <= n <= facilities.len(),
    ensures
        facilities_but(facilities, position, n).contains(facility) <==> facility.0 != position
            && exists|i: int| 0 <= i < n && #[trigger] facilities[i] == facility,
    decreases n,
{
    let all = facilities_but(facilities, position, n);
    if n > 0 {
        law_only_that_facility_is_left_out(facilities, position, n - 1, facility);
        let rest = facilities_but(facilities, position, n - 1);
        let last = facilities[n - 1];
        if last.0 != position {
            assert(all[rest.len() as int] == last);
            if rest.contains(facility) {
                let i = choose|i: int| 0 <= i < rest.len() && rest[i] == facility;
                assert(all[i] == facility);
            }
            if all.contains(facility) {
                let i = choose|i: int| 0 <= i < all.len() && all[i] == facility;
                if i < rest.len() {
                    assert(rest[i] == facility);
                }
            }
        }
    }
}

/// What the campaigns keep together is the sum of what each keeps, as far as a number can hold it.
pub proof fn law_kept_money_adds_up(needs: Seq<OpenNeeds>, n: int)
    requires
        0 <= n <= needs.len(),
    ensures
        ({
            let all = all_reserved(needs, n);
            reserved_sum(needs, n) == (if all > u32::MAX {
                u32::MAX as int
            } else {
                all as int
            })
        }),
    decreases n,
{
    if n > 0 {
        law_kept_money_adds_up(needs, n - 1);
    }
}

/// Without an airport to keep, what is free for anything else is what is left after all that the
/// campaigns still keep; with one the planning goes without that airport, and all that is left is
/// free.
pub proof fn law_what_is_left_is_free(
    player: PlayerId,
    shortfalls: Seq<IslandCampaignShortfall>,
    facilities: Seq<(GridPosition, Terrain)>,
    owned_airport_count: u32,
    types: Seq<(UnitType, UnitStats)>,
    enemies: Seq<UnitStats>,
    chart: DamageChart,
    travel: TravelTable,
    registry: MasterDataRegistry,
    funds: u32,
)
    ensures
        ({
            let setting = production_setting(
                player,
                facilities,
                types,
                travel,
                registry,
                Some(chart),
            );
            let first = planned(setting, shortfalls, funds);
            let airport = denial_airport(
                facilities,
                owned_airport_count,
                types,
                enemies,
                chart,
                registry,
                first.remaining,
            );
            let (end, free) = planned_with_reserve(
                player,
                shortfalls,
                facilities,
                owned_airport_count,
                types,
                enemies,
                chart,
                travel,
                registry,
                funds,
            );
            let kept = all_reserved(first.needs, first.needs.len() as int);
            &&& airport is None ==> end == first && free == (if first.remaining >= kept {
                first.remaining - kept
            } else {
                0
            })
            &&& airport is Some ==> free == end.remaining && end == planned(
                production_setting(
                    player,
                    facilities_but(facilities, airport->0, facilities.len() as int),
                    types,
                    travel,
                    registry,
                    Some(chart),
                ),
                shortfalls,
                funds,
            )
        }),
{
    let first = planned(
        production_setting(player, facilities, types, travel, registry, Some(chart)),
        shortfalls,
        funds,
    );
    law_kept_money_adds_up(first.needs, first.needs.len() as int);
}

/// What the planning hands on is what it came to: its orders and facilities, the money that is
/// left, and of that what no campaign keeps.
pub proof fn law_outcome_is_what_was_planned(outcome: CampaignProductionOutcome, state: PlanState)
    requires
        outcome_of(outcome, state),
    ensures
        outcome.commands@ == state.commands,
        outcome.used_facilities@ == state.used,
        outcome.remaining_funds == state.remaining,
        outcome.completed_all_rows == state.completed,
        ({
            let kept = all_reserved(state.needs, state.needs.len() as int);
            &&& kept <= state.remaining ==> outcome.generic_funds + kept == state.remaining
            &&& kept > state.remaining ==> outcome.generic_funds == 0
        }),
{
    law_kept_money_adds_up(state.needs, state.needs.len() as int);
}

} // verus!
