//! Pruning of bad choices: merges that waste health and attacks that cost more than they gain.
use crate::arith::{least, saturating_mul, saturating_product};
use crate::board::{lemma_row_of, row_of, rows_distinct, Board, BoardRow};
use crate::entity::Entity;
use crate::grid::{GameMap, GridPosition, Terrain};
use crate::master_data::MasterDataRegistry;
use crate::units::{Ammo, Health, UnitType};
use vstd::prelude::*;

verus! {

/// Whether a merge would push the health beyond its limit. Surplus health is not refunded, so
/// such merges are dropped before they are rated.
pub fn is_overflow_merge_without_refund(source_current: u32, target: Health) -> (r: bool)
    ensures
        target.max < u32::MAX ==> r == (source_current + target.current > target.max),
        target.max == u32::MAX ==> !r,
{
    source_current.saturating_add(target.current) > target.max
}

/// What one exchange of blows is expected to do, from the position that the attacker moves to.
/// The values in money are for accounts; how well two types match goes by the share of full
/// health that each side loses, in hundredths of a percent.
#[derive(Clone, Copy, Debug, PartialEq, Eq, Structural)]
pub struct AttackExchange {
    pub expected_damage: u32,
    pub expected_counter_damage: u32,
    pub damage_value_dealt: u32,
    pub counter_value_received: u32,
    pub enemy_loss_permyriad: u32,
    pub friendly_loss_permyriad: u32,
}

/// The number read as a signed one of the same width.
pub open spec fn reinterpreted(v: u32) -> int {
    if v <= i32::MAX {
        v as int
    } else {
        v - 0x1_0000_0000
    }
}

fn reinterpret(v: u32) -> (r: i32)
    ensures
        r == reinterpreted(v),
{
    if v <= 0x7fff_ffff {
        v as i32
    } else {
        (v as i64 - 0x1_0000_0000) as i32
    }
}

impl AttackExchange {
    /// The match is not bad where the target loses at least the share that the attacker loses.
    pub fn is_favorable_matchup(self) -> (r: bool)
        ensures
            r == (self.enemy_loss_permyriad >= self.friendly_loss_permyriad),
    {
        self.enemy_loss_permyriad >= self.friendly_loss_permyriad
    }

    /// By how much the target's share exceeds the attacker's.
    pub fn matchup_margin(self) -> (r: i32)
        requires
            i32::MIN <= reinterpreted(self.enemy_loss_permyriad) - reinterpreted(
                self.friendly_loss_permyriad,
            ) <= i32::MAX,
        ensures
            r == reinterpreted(self.enemy_loss_permyriad) - reinterpreted(
                self.friendly_loss_permyriad,
            ),
    {
        reinterpret(self.enemy_loss_permyriad) - reinterpret(self.friendly_loss_permyriad)
    }

    /// Whether the attacker loses more value than it destroys.
    pub fn loses_more_value_than_it_deals(self) -> (r: bool)
        ensures
            r == (self.counter_value_received > self.damage_value_dealt),
    {
        self.counter_value_received > self.damage_value_dealt
    }
}

/// What the combat rules forecast for one blow: the damage, and whether it is struck from afar.
#[derive(Clone, Copy, Debug, PartialEq, Eq, Structural)]
pub struct Strike {
    pub damage: u32,
    pub indirect: bool,
}

/// One question to the combat rules and its answer.
#[derive(Clone, Copy, Debug, PartialEq, Eq, Structural)]
pub struct ForecastRow {
    pub striker: UnitType,
    pub striker_health: u32,
    pub ammo: Ammo,
    pub target: UnitType,
    pub defense_bonus: u32,
    pub distance: u32,
    pub is_counter: bool,
    pub strike: Strike,
}

/// The answers of the combat rules. A blow without a row cannot be struck.
#[derive(Clone, Debug)]
pub struct CombatForecast {
    pub rows: Vec<ForecastRow>,
}

/// A question to the combat rules.
#[derive(Clone, Copy, Debug, PartialEq, Eq, Structural)]
pub struct ForecastQuery {
    pub striker: UnitType,
    pub striker_health: u32,
    pub ammo: Ammo,
    pub target: UnitType,
    pub defense_bonus: u32,
    pub distance: u128,
    pub is_counter: bool,
}

/// The row answers the question.
pub open spec fn answers(row: ForecastRow, q: ForecastQuery) -> bool {
    &&& row.striker == q.striker
    &&& row.striker_health == q.striker_health
    &&& row.ammo == q.ammo
    &&& row.target == q.target
    &&& row.defense_bonus == q.defense_bonus
    &&& row.distance == q.distance
    &&& row.is_counter == q.is_counter
}

/// The first answer from index `i` on.
pub open spec fn forecast(rows: Seq<ForecastRow>, q: ForecastQuery, i: int) -> Option<Strike>
    decreases rows.len() - i,
{
    if i >= rows.len() {
        None
    } else if answers(rows[i], q) {
        Some(rows[i].strike)
    } else {
        forecast(rows, q, i + 1)
    }
}

impl CombatForecast {
    /// The answer to a question.
    pub fn find(&self, q: ForecastQuery) -> (r: Option<Strike>)
        ensures
            r == forecast(self.rows@, q, 0),
    {
        let mut i: usize = 0;
        while i < self.rows.len()
            invariant
                i <= self.rows.len(),
                forecast(self.rows@, q, 0) == forecast(self.rows@, q, i as int),
            decreases self.rows.len() - i,
        {
            let row = self.rows[i];
            if row.striker == q.striker && row.striker_health == q.striker_health && row.ammo
                == q.ammo && row.target == q.target && row.defense_bonus == q.defense_bonus
                && row.distance as u128 == q.distance && row.is_counter == q.is_counter {
                return Some(row.strike);
            }
            i += 1;
        }
        None
    }
}

/// One side of an exchange.
#[derive(Clone, Copy, Debug, PartialEq, Eq, Structural)]
pub struct Combatant {
    pub unit_type: UnitType,
    pub cost: u32,
    pub health: Health,
    pub ammo: Ammo,
}

/// The combatant that an entity is: it needs health and stats; without ammunition of its own it
/// never runs out.
pub open spec fn combatant(board: Board, e: Entity) -> Option<Combatant> {
    match row_of(board.rows@, e, 0) {
        Some(i) => {
            let row = board.rows[i];
            match (row.health, row.stats) {
                (Some(health), Some(stats)) => Some(
                    Combatant {
                        unit_type: stats.unit_type,
                        cost: stats.cost,
                        health,
                        ammo: match row.ammo {
                            Some(ammo) => ammo,
                            None => Ammo { ammo1: 99, ammo2: 99 },
                        },
                    },
                ),
                _ => None,
            }
        },
        None => None,
    }
}

/// Where an entity stands.
pub open spec fn place_of(board: Board, e: Entity) -> Option<GridPosition> {
    match row_of(board.rows@, e, 0) {
        Some(i) => board.rows[i].position,
        None => None,
    }
}

/// Damage that a forecast blow does: five more than forecast, for luck, but no more health than
/// there is. No blow does no damage.
pub open spec fn damage_done(strike: Option<Strike>, health: u32) -> u32 {
    match strike {
        Some(s) => least(s.damage + 5, health as int) as u32,
        None => 0,
    }
}

/// What share of `cost` or of the whole the damage is worth.
pub open spec fn share(damage: u32, whole: u32, max: u32) -> u32 {
    saturating_product(damage, whole) / max
}

/// The exchange between two combatants for a forecast blow and a forecast answer to it. The
/// answer comes only if the blow is struck from near.
pub open spec fn exchange_of(
    attacker: Combatant,
    defender: Combatant,
    strike: Option<Strike>,
    counter: Option<Strike>,
) -> AttackExchange {
    let damage = damage_done(strike, defender.health.current);
    let answered = strike matches Some(s) && !s.indirect && counter is Some;
    let back = if answered {
        damage_done(counter, attacker.health.current)
    } else {
        0
    };
    AttackExchange {
        expected_damage: damage,
        expected_counter_damage: back,
        damage_value_dealt: share(damage, defender.cost, defender.health.max),
        counter_value_received: if answered {
            share(back, attacker.cost, attacker.health.max)
        } else {
            0
        },
        enemy_loss_permyriad: share(damage, 10_000, defender.health.max),
        friendly_loss_permyriad: if answered {
            share(back, 10_000, attacker.health.max)
        } else {
            0
        },
    }
}

/// The terrain at a position; plains off the map.
pub open spec fn footing(map: GameMap, p: GridPosition) -> Terrain {
    match map.terrain_at(p) {
        Some(t) => t,
        None => Terrain::Plains,
    }
}

/// What is asked of the combat rules about the blow.
pub open spec fn strike_query(
    map: GameMap,
    registry: MasterDataRegistry,
    attacker: Combatant,
    defender: Combatant,
    from: GridPosition,
    to: GridPosition,
) -> ForecastQuery {
    ForecastQuery {
        striker: attacker.unit_type,
        striker_health: attacker.health.current,
        ammo: attacker.ammo,
        target: defender.unit_type,
        defense_bonus: registry.defense_bonus(footing(map, to)),
        distance: map.steps(from, to) as u128,
        is_counter: false,
    }
}

/// What is asked of the combat rules about the answer to the blow.
pub open spec fn counter_query(
    map: GameMap,
    registry: MasterDataRegistry,
    attacker: Combatant,
    defender: Combatant,
    from: GridPosition,
    to: GridPosition,
) -> ForecastQuery {
    ForecastQuery {
        striker: defender.unit_type,
        striker_health: defender.health.current,
        ammo: defender.ammo,
        target: attacker.unit_type,
        defense_bonus: registry.defense_bonus(footing(map, from)),
        distance: map.steps(from, to) as u128,
        is_counter: true,
    }
}

/// The exchange when `attacker` strikes `defender` from the position `from`. There is none where
/// a side lacks what fighting takes, or has no health limit.
pub open spec fn attack_exchange(
    board: Board,
    map: GameMap,
    registry: MasterDataRegistry,
    rules: CombatForecast,
    attacker: Entity,
    defender: Entity,
    from: GridPosition,
) -> Option<AttackExchange> {
    match (combatant(board, attacker), combatant(board, defender), place_of(board, defender)) {
        (Some(a), Some(d), Some(to)) => if d.health.max == 0 || a.health.max == 0 {
            None
        } else {
            Some(
                exchange_of(
                    a,
                    d,
                    forecast(rules.rows@, strike_query(map, registry, a, d, from, to), 0),
                    forecast(rules.rows@, counter_query(map, registry, a, d, from, to), 0),
                ),
            )
        },
        _ => None,
    }
}

/// Where neither side has more health than its limit, the losses are shares of the whole and the
/// margin between them stays within ten thousand either way.
pub proof fn law_margin_is_bounded(
    attacker: Combatant,
    defender: Combatant,
    strike: Option<Strike>,
    counter: Option<Strike>,
)
    requires
        0 < attacker.health.max,
        0 < defender.health.max,
        attacker.health.current <= attacker.health.max,
        defender.health.current <= defender.health.max,
    ensures
        exchange_of(attacker, defender, strike, counter).enemy_loss_permyriad <= 10_000,
        exchange_of(attacker, defender, strike, counter).friendly_loss_permyriad <= 10_000,
        -10_000 <= reinterpreted(
            exchange_of(attacker, defender, strike, counter).enemy_loss_permyriad,
        ) - reinterpreted(
            exchange_of(attacker, defender, strike, counter).friendly_loss_permyriad,
        ) <= 10_000,
{
    lemma_share_bounded(
        damage_done(strike, defender.health.current),
        defender.health.max,
    );
    lemma_share_bounded(
        damage_done(counter, attacker.health.current),
        attacker.health.max,
    );
    lemma_share_bounded(0, attacker.health.max);
}

proof fn lemma_share_bounded(damage: u32, max: u32)
    requires
        damage <= max,
        0 < max,
    ensures
        share(damage, 10_000, max) <= 10_000,
{
    let product = saturating_product(damage, 10_000) as int;
    let m = max as int;
    assert(product <= 10_000 * m);
    assert(product / m <= 10_000) by (nonlinear_arith)
        requires
            0 <= product <= 10_000 * m,
            0 < m,
    ;
}

/// The combatant that an entity is.
fn find_combatant(board: &Board, e: Entity) -> (r: Option<Combatant>)
    ensures
        r == combatant(*board, e),
{
    match board.find(e) {
        Some(i) => {
            let health = match board.rows[i].health {
                Some(health) => health,
                None => {
                    return None;
                },
            };
            let ammo = match board.rows[i].ammo {
                Some(ammo) => ammo,
                None => Ammo { ammo1: 99, ammo2: 99 },
            };
            match &board.rows[i].stats {
                Some(stats) => Some(
                    Combatant { unit_type: stats.unit_type, cost: stats.cost, health, ammo },
                ),
                None => None,
            }
        },
        None => None,
    }
}

fn damage_from(strike: Option<Strike>, health: u32) -> (r: u32)
    ensures
        r == damage_done(strike, health),
{
    match strike {
        Some(s) => if s.damage as u64 + 5 <= health as u64 {
            s.damage + 5
        } else {
            health
        },
        None => 0,
    }
}

/// The exchange between two combatants, once the combat rules have been asked.
pub fn resolve_exchange(
    attacker: Combatant,
    defender: Combatant,
    strike: Option<Strike>,
    counter: Option<Strike>,
) -> (r: AttackExchange)
    requires
        0 < attacker.health.max,
        0 < defender.health.max,
    ensures
        r == exchange_of(attacker, defender, strike, counter),
{
    let damage: u32 = damage_from(strike, defender.health.current);
    let near: bool = match strike {
        Some(s) => !s.indirect,
        None => false,
    };
    let answered: bool = near && counter.is_some();
    let back: u32 = if answered {
        damage_from(counter, attacker.health.current)
    } else {
        0
    };
    let received: u32 = if answered {
        saturating_mul(back, attacker.cost) / attacker.health.max
    } else {
        0
    };
    let loss: u32 = if answered {
        saturating_mul(back, 10_000) / attacker.health.max
    } else {
        0
    };
    AttackExchange {
        expected_damage: damage,
        expected_counter_damage: back,
        damage_value_dealt: saturating_mul(damage, defender.cost) / defender.health.max,
        counter_value_received: received,
        enemy_loss_permyriad: saturating_mul(damage, 10_000) / defender.health.max,
        friendly_loss_permyriad: loss,
    }
}

/// Rates an attack from the position that the attacker would move to; where it stands now does
/// not matter.
pub fn evaluate_attack_exchange(
    board: &Board,
    map: &GameMap,
    registry: &MasterDataRegistry,
    rules: &CombatForecast,
    attacker_entity: Entity,
    defender_entity: Entity,
    attacker_position: GridPosition,
) -> (r: Option<AttackExchange>)
    ensures
        r == attack_exchange(
            *board,
            *map,
            *registry,
            *rules,
            attacker_entity,
            defender_entity,
            attacker_position,
        ),
{
    let attacker = match find_combatant(board, attacker_entity) {
        Some(a) => a,
        None => {
            return None;
        },
    };
    let defender = match find_combatant(board, defender_entity) {
        Some(d) => d,
        None => {
            return None;
        },
    };
    let place = match board.find(defender_entity) {
        Some(i) => board.rows[i].position,
        None => None,
    };
    let to = match place {
        Some(p) => p,
        None => {
            return None;
        },
    };
    if defender.health.max == 0 || attacker.health.max == 0 {
        return None;
    }
    let under_defender = match map.get_terrain(to.x, to.y) {
        Some(t) => t,
        None => Terrain::Plains,
    };
    let under_attacker = match map.get_terrain(attacker_position.x, attacker_position.y) {
        Some(t) => t,
        None => Terrain::Plains,
    };
    assert(to == (GridPosition { x: to.x, y: to.y }));
    assert(attacker_position == (GridPosition { x: attacker_position.x, y: attacker_position.y }));
    let distance: u128 = map.distance(attacker_position, to);
    let strike = rules.find(
        ForecastQuery {
            striker: attacker.unit_type,
            striker_health: attacker.health.current,
            ammo: attacker.ammo,
            target: defender.unit_type,
            defense_bonus: registry.get_terrain_defense_bonus(under_defender),
            distance,
            is_counter: false,
        },
    );
    let counter = rules.find(
        ForecastQuery {
            striker: defender.unit_type,
            striker_health: defender.health.current,
            ammo: defender.ammo,
            target: attacker.unit_type,
            defense_bonus: registry.get_terrain_defense_bonus(under_attacker),
            distance,
            is_counter: true,
        },
    );
    Some(resolve_exchange(attacker, defender, strike, counter))
}

/// Whether the attack would cost the attacker more value than it destroys. An attack that cannot
/// be rated is not called suicidal.
pub fn is_suicidal_attack_at(
    board: &Board,
    map: &GameMap,
    registry: &MasterDataRegistry,
    rules: &CombatForecast,
    attacker_entity: Entity,
    defender_entity: Entity,
    attacker_position: GridPosition,
) -> (r: bool)
    ensures
        r == (attack_exchange(
            *board,
            *map,
            *registry,
            *rules,
            attacker_entity,
            defender_entity,
            attacker_position,
        ) matches Some(x) && x.counter_value_received > x.damage_value_dealt),
{
    match evaluate_attack_exchange(
        board,
        map,
        registry,
        rules,
        attacker_entity,
        defender_entity,
        attacker_position,
    ) {
        Some(exchange) => exchange.loses_more_value_than_it_deals(),
        None => false,
    }
}

/// The two boards are the same but for where the entity stands.
pub open spec fn same_but_place(a: Board, b: Board, e: Entity) -> bool {
    &&& a.rows.len() == b.rows.len()
    &&& forall|i: int|
        0 <= i < a.rows.len() ==> {
            let (x, y) = (#[trigger] a.rows[i], b.rows[i]);
            y == (BoardRow { position: y.position, ..x }) && (x.entity != e ==> y.position
                == x.position)
        }
}

proof fn lemma_same_rows(a: Board, b: Board, e: Entity, other: Entity, i: int)
    requires
        same_but_place(a, b, e),
        0 <= i <= a.rows.len(),
    ensures
        row_of(a.rows@, other, i) == row_of(b.rows@, other, i),
        row_of(a.rows@, other, i) matches Some(k) ==> i <= k < a.rows.len() && a.rows[k].entity
            == other,
    decreases a.rows.len() - i,
{
    if i < a.rows.len() {
        assert(b.rows[i].entity == a.rows[i].entity);
        lemma_same_rows(a, b, e, other, i + 1);
    }
}

/// The exchange goes by the tile that the attacker strikes from. Where the attacker stands before
/// it moves there makes no difference.
pub proof fn law_exchange_ignores_where_attacker_stands(
    a: Board,
    b: Board,
    map: GameMap,
    registry: MasterDataRegistry,
    rules: CombatForecast,
    attacker: Entity,
    defender: Entity,
    from: GridPosition,
)
    requires
        attacker != defender,
        same_but_place(a, b, attacker),
    ensures
        attack_exchange(a, map, registry, rules, attacker, defender, from) == attack_exchange(
            b,
            map,
            registry,
            rules,
            attacker,
            defender,
            from,
        ),
{
    lemma_same_rows(a, b, attacker, attacker, 0);
    lemma_same_rows(a, b, attacker, defender, 0);
}

/// The row speaks of such a blow.
pub open spec fn speaks_of(
    row: ForecastRow,
    striker: Combatant,
    target: Combatant,
    cover: u32,
    distance: nat,
    is_counter: bool,
) -> bool {
    &&& row.striker == striker.unit_type
    &&& row.striker_health == striker.health.current
    &&& row.ammo.ammo1 == striker.ammo.ammo1
    &&& row.ammo.ammo2 == striker.ammo.ammo2
    &&& row.target == target.unit_type
    &&& row.defense_bonus == cover
    &&& row.distance == distance
    &&& row.is_counter == is_counter
}

/// The blow is the one of the first row that speaks of it; there is none if no row does.
pub open spec fn is_forecast(
    rows: Seq<ForecastRow>,
    striker: Combatant,
    target: Combatant,
    cover: u32,
    distance: nat,
    is_counter: bool,
    strike: Option<Strike>,
) -> bool {
    match strike {
        Some(s) => exists|k: int|
            0 <= k < rows.len() && speaks_of(
                #[trigger] rows[k],
                striker,
                target,
                cover,
                distance,
                is_counter,
            ) && rows[k].strike == s && forall|j: int|
                0 <= j < k ==> !speaks_of(
                    #[trigger] rows[j],
                    striker,
                    target,
                    cover,
                    distance,
                    is_counter,
                ),
        None => forall|k: int|
            0 <= k < rows.len() ==> !speaks_of(
                #[trigger] rows[k],
                striker,
                target,
                cover,
                distance,
                is_counter,
            ),
    }
}

proof fn lemma_forecast(
    rows: Seq<ForecastRow>,
    striker: Combatant,
    target: Combatant,
    q: ForecastQuery,
    i: int,
)
    requires
        0 <= i <= rows.len(),
        q.striker == striker.unit_type,
        q.striker_health == striker.health.current,
        q.ammo == striker.ammo,
        q.target == target.unit_type,
        forall|j: int|
            0 <= j < i ==> !speaks_of(
                #[trigger] rows[j],
                striker,
                target,
                q.defense_bonus,
                q.distance as nat,
                q.is_counter,
            ),
    ensures
        is_forecast(
            rows,
            striker,
            target,
            q.defense_bonus,
            q.distance as nat,
            q.is_counter,
            forecast(rows, q, i),
        ),
    decreases rows.len() - i,
{
    if i < rows.len() {
        assert(answers(rows[i], q) <==> speaks_of(
            rows[i],
            striker,
            target,
            q.defense_bonus,
            q.distance as nat,
            q.is_counter,
        ));
        if !answers(rows[i], q) {
            lemma_forecast(rows, striker, target, q, i + 1);
        }
    }
}

/// How well a tile protects who stands on it: as its terrain does; off the map as plains do.
pub open spec fn cover_at(map: GameMap, registry: MasterDataRegistry, p: GridPosition) -> u32 {
    registry.defense_bonus(
        match map.terrain_at(p) {
            Some(terrain) => terrain,
            None => Terrain::Plains,
        },
    )
}

/// The row is a unit that can fight, as the combatant says.
pub open spec fn is_combatant(row: BoardRow, c: Combatant) -> bool {
    &&& row.health == Some(c.health)
    &&& row.stats matches Some(stats) && stats.unit_type == c.unit_type && stats.cost == c.cost
    &&& match row.ammo {
        Some(ammo) => c.ammo == ammo,
        None => c.ammo.ammo1 == 99 && c.ammo.ammo2 == 99,
    }
}

proof fn lemma_only_row(rows: Seq<BoardRow>, i: int)
    requires
        rows_distinct(rows),
        0 <= i < rows.len(),
    ensures
        row_of(rows, rows[i].entity, 0) == Some(i),
{
    lemma_row_of(rows, rows[i].entity, 0);
    if let Some(k) = row_of(rows, rows[i].entity, 0) {
        if k < i {
            assert(rows[k].entity != rows[i].entity);
        }
    }
}

/// The steps between two tiles are far fewer than the widest number counts.
proof fn lemma_steps_fit(map: GameMap, p: GridPosition, q: GridPosition)
    ensures
        map.steps(p, q) as u128 == map.steps(p, q),
{
}

/// What an attack comes to. The blow is the one that the rules forecast for the attacker against
/// the cover of the tile under the defender, and it takes five more than forecast, but no more than
/// the defender has. The defender strikes back only at a blow from near, with the blow that the
/// rules forecast against the cover of the tile that the attacker strikes from. Both sides' losses
/// are weighed by their price and by their full health. There is an exchange exactly if both sides
/// can lose health and the defender stands somewhere.
pub proof fn law_exchange_follows_the_rules(
    board: Board,
    map: GameMap,
    registry: MasterDataRegistry,
    rules: CombatForecast,
    i: int,
    j: int,
    a: Combatant,
    d: Combatant,
    from: GridPosition,
)
    requires
        rows_distinct(board.rows@),
        0 <= i < board.rows.len(),
        0 <= j < board.rows.len(),
        is_combatant(board.rows[i], a),
        is_combatant(board.rows[j], d),
    ensures
        ({
            let r = attack_exchange(
                board,
                map,
                registry,
                rules,
                board.rows[i].entity,
                board.rows[j].entity,
                from,
            );
            match board.rows[j].position {
                Some(to) => if a.health.max > 0 && d.health.max > 0 {
                    r matches Some(x) && exists|strike: Option<Strike>, counter: Option<Strike>|
                        {
                            &&& #[trigger] is_forecast(
                                rules.rows@,
                                a,
                                d,
                                cover_at(map, registry, to),
                                map.steps(from, to),
                                false,
                                strike,
                            )
                            &&& #[trigger] is_forecast(
                                rules.rows@,
                                d,
                                a,
                                cover_at(map, registry, from),
                                map.steps(from, to),
                                true,
                                counter,
                            )
                            &&& x.expected_damage == (match strike {
                                Some(s) => if s.damage + 5 <= d.health.current {
                                    s.damage + 5
                                } else {
                                    d.health.current as int
                                },
                                None => 0,
                            })
                            &&& x.expected_counter_damage == (match (strike, counter) {
                                (Some(s), Some(c)) => if s.indirect {
                                    0
                                } else if c.damage + 5 <= a.health.current {
                                    c.damage + 5
                                } else {
                                    a.health.current as int
                                },
                                _ => 0,
                            })
                        }
                } else {
                    r is None
                },
                None => r is None,
            }
        }),
{
    let rows = board.rows@;
    lemma_only_row(rows, i);
    lemma_only_row(rows, j);
    assert(combatant(board, rows[i].entity) == Some(a));
    assert(combatant(board, rows[j].entity) == Some(d));
    if let Some(to) = board.rows[j].position {
        if a.health.max > 0 && d.health.max > 0 {
            let p = strike_query(map, registry, a, d, from, to);
            let q = counter_query(map, registry, a, d, from, to);
            lemma_steps_fit(map, from, to);
            lemma_forecast(rules.rows@, a, d, p, 0);
            lemma_forecast(rules.rows@, d, a, q, 0);
            assert(is_forecast(
                rules.rows@,
                a,
                d,
                cover_at(map, registry, to),
                map.steps(from, to),
                false,
                forecast(rules.rows@, p, 0),
            ));
            assert(is_forecast(
                rules.rows@,
                d,
                a,
                cover_at(map, registry, from),
                map.steps(from, to),
                true,
                forecast(rules.rows@, q, 0),
            ));
        }
    }
}

/// What an exchange is worth: each side's loss in money is the damage's share of its price, and
/// its loss in hundredths of a percent the damage's share of its full health.
pub proof fn law_exchange_is_weighed_by_price_and_health(
    board: Board,
    map: GameMap,
    registry: MasterDataRegistry,
    rules: CombatForecast,
    i: int,
    j: int,
    a: Combatant,
    d: Combatant,
    from: GridPosition,
)
    requires
        rows_distinct(board.rows@),
        0 <= i < board.rows.len(),
        0 <= j < board.rows.len(),
        is_combatant(board.rows[i], a),
        is_combatant(board.rows[j], d),
    ensures
        attack_exchange(
            board,
            map,
            registry,
            rules,
            board.rows[i].entity,
            board.rows[j].entity,
            from,
        ) matches Some(x) ==> {
            &&& x.expected_damage <= d.health.current
            &&& x.expected_counter_damage <= a.health.current
            &&& is_share(x.damage_value_dealt, x.expected_damage, d.cost, d.health.max)
            &&& is_share(x.counter_value_received, x.expected_counter_damage, a.cost, a.health.max)
            &&& is_share(x.enemy_loss_permyriad, x.expected_damage, 10_000, d.health.max)
            &&& is_share(x.friendly_loss_permyriad, x.expected_counter_damage, 10_000, a.health.max)
        },
{
    let rows = board.rows@;
    lemma_only_row(rows, i);
    lemma_only_row(rows, j);
    assert(combatant(board, rows[i].entity) == Some(a));
    assert(combatant(board, rows[j].entity) == Some(d));
    if let Some(x) = attack_exchange(
        board,
        map,
        registry,
        rules,
        rows[i].entity,
        rows[j].entity,
        from,
    ) {
        lemma_share(x.expected_damage, d.cost, d.health.max);
        lemma_share(x.expected_counter_damage, a.cost, a.health.max);
        lemma_share(x.expected_damage, 10_000, d.health.max);
        lemma_share(x.expected_counter_damage, 10_000, a.health.max);
        lemma_share(0, a.cost, a.health.max);
        lemma_share(0, 10_000, a.health.max);
    }
}

/// The value is what `part` of `max` is worth if `max` is worth `whole`, rounded down; a product
/// of the two that is too great counts as the greatest number there is.
pub open spec fn is_share(value: u32, part: u32, whole: u32, max: u32) -> bool {
    if part * whole <= u32::MAX {
        value * max <= part * whole && part * whole < (value + 1) * max
    } else {
        value * max <= u32::MAX && u32::MAX < (value + 1) * max
    }
}

proof fn lemma_share(part: u32, whole: u32, max: u32)
    requires
        0 < max,
    ensures
        is_share(share(part, whole, max), part, whole, max),
        part == 0 ==> share(part, whole, max) == 0,
{
    let product = saturating_product(part, whole) as int;
    let m = max as int;
    let q = product / m;
    assert(q * m <= product && product < (q + 1) * m) by (nonlinear_arith)
        requires
            q == product / m,
            0 < m,
    ;
    if part == 0 {
        assert(part * whole == 0) by (nonlinear_arith)
            requires
                part == 0,
        ;
        assert(product == 0);
        assert(0int / m == 0) by (nonlinear_arith)
            requires
                0 < m,
        ;
    } else {
        assert(part * whole >= 0) by (nonlinear_arith)
            requires
                part >= 0,
                whole >= 0,
        ;
    }
}

/// Cover protects who stands in it. Whatever lies under the tile that the attacker strikes from,
/// the damage to the defender is the same, as long as the ground under the defender and the
/// distance are. Likewise the damage that comes back does not depend on the ground under the
/// defender, as long as the blow comes from equally near or far.
pub proof fn law_cover_protects_who_stands_in_it(
    board: Board,
    one: GameMap,
    other: GameMap,
    registry: MasterDataRegistry,
    rules: CombatForecast,
    attacker: Entity,
    defender: Entity,
    from: GridPosition,
    j: int,
    to: GridPosition,
)
    requires
        rows_distinct(board.rows@),
        0 <= j < board.rows.len(),
        board.rows[j].entity == defender,
        board.rows[j].position == Some(to),
        one.steps(from, to) == other.steps(from, to),
    ensures
        ({
            let x = attack_exchange(board, one, registry, rules, attacker, defender, from);
            let y = attack_exchange(board, other, registry, rules, attacker, defender, from);
            &&& x is Some <==> y is Some
            &&& x is Some && one.terrain_at(to) == other.terrain_at(to) ==> {
                &&& x->0.expected_damage == y->0.expected_damage
                &&& x->0.damage_value_dealt == y->0.damage_value_dealt
                &&& x->0.enemy_loss_permyriad == y->0.enemy_loss_permyriad
            }
            &&& x is Some && one.terrain_at(from) == other.terrain_at(from)
                && x->0.expected_counter_damage > 0 && y->0.expected_counter_damage > 0 ==> {
                &&& x->0.expected_counter_damage == y->0.expected_counter_damage
                &&& x->0.counter_value_received == y->0.counter_value_received
                &&& x->0.friendly_loss_permyriad == y->0.friendly_loss_permyriad
            }
        }),
{
    lemma_only_row(board.rows@, j);
}

} // verus!
