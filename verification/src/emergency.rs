//! Building against aircraft in an emergency.
use crate::eta::{ceil_div, law_quotient_up_is_least_cover, quotient_up};
use crate::grid::{GridPosition, Terrain};
use crate::master_data::MasterDataRegistry;
use crate::order::{
    first_least, key_views, keys_index, least_index, lemma_first_least, lemma_lex_by,
    lemma_lex_irreflexive, lemma_never_before, lex_less, stands_before,
};
use crate::units::{UnitStats, UnitType};
use vstd::prelude::*;

verus! {

/// What a new unit would do against the aircraft that threaten, as it is weighed outside. The two
/// values are numbers that order as the weighed values do.
#[derive(Clone, Copy, Debug, PartialEq, Eq, Structural)]
pub struct AirResponse {
    pub facility_position: GridPosition,
    pub unit_type: UnitType,
    /// The unit contains the threat and is worth its price.
    pub justified: bool,
    pub coverage: i32,
    pub protected_asset_value: i32,
    /// The unit strikes before the threat does.
    pub meets_deadline: bool,
    /// Where the name of the type stands among all names.
    pub name_rank: u32,
}

/// Whether a unit that is built only after a delay would still contain the threat and be worth
/// its price.
#[derive(Clone, Copy, Debug, PartialEq, Eq, Structural)]
pub struct DelayedResponse {
    pub facility_position: GridPosition,
    pub unit_type: UnitType,
    pub delay: u32,
    pub justified: bool,
}

/// A unit that could be built against the aircraft.
#[derive(Clone, Copy, Debug, PartialEq, Eq, Structural)]
pub struct EmergencyAntiAirCandidate {
    pub facility_position: GridPosition,
    pub unit_type: UnitType,
    pub cost: u32,
    pub coverage: i32,
    pub protected_asset_value: i32,
    pub meets_deadline: bool,
    pub name_rank: u32,
}

/// The first response from index `i` on of the type at the place.
pub open spec fn response_for(
    responses: Seq<AirResponse>,
    position: GridPosition,
    unit_type: UnitType,
    i: int,
) -> Option<AirResponse>
    decreases responses.len() - i,
{
    if i >= responses.len() {
        None
    } else if responses[i].facility_position == position && responses[i].unit_type == unit_type {
        Some(responses[i])
    } else {
        response_for(responses, position, unit_type, i + 1)
    }
}

fn find_response(responses: &Vec<AirResponse>, position: GridPosition, unit_type: UnitType) -> (r:
    Option<AirResponse>)
    ensures
        r == response_for(responses@, position, unit_type, 0),
{
    let mut i: usize = 0;
    while i < responses.len()
        invariant
            i <= responses.len(),
            response_for(responses@, position, unit_type, 0) == response_for(
                responses@,
                position,
                unit_type,
                i as int,
            ),
        decreases responses.len() - i,
    {
        if responses[i].facility_position == position && responses[i].unit_type == unit_type {
            return Some(responses[i]);
        }
        i += 1;
    }
    None
}

/// The candidate that the type makes at the facility: something that costs, can be built there,
/// contains the threat and is worth its price.
pub open spec fn emergency_candidate(
    registry: MasterDataRegistry,
    responses: Seq<AirResponse>,
    facility: (GridPosition, Terrain),
    kind: (UnitType, UnitStats),
) -> Option<EmergencyAntiAirCandidate> {
    if kind.1.cost == 0 || !registry.builds_type(facility.1, kind.0) {
        None
    } else {
        match response_for(responses, facility.0, kind.0, 0) {
            Some(response) => if response.justified {
                Some(
                    EmergencyAntiAirCandidate {
                        facility_position: facility.0,
                        unit_type: kind.0,
                        cost: kind.1.cost,
                        coverage: response.coverage,
                        protected_asset_value: response.protected_asset_value,
                        meets_deadline: response.meets_deadline,
                        name_rank: response.name_rank,
                    },
                )
            } else {
                None
            },
            None => None,
        }
    }
}

/// The candidates of the first `m` types at one facility.
pub open spec fn emergencies_at(
    registry: MasterDataRegistry,
    responses: Seq<AirResponse>,
    facility: (GridPosition, Terrain),
    types: Seq<(UnitType, UnitStats)>,
    m: int,
) -> Seq<EmergencyAntiAirCandidate>
    decreases m,
{
    if m <= 0 {
        Seq::empty()
    } else {
        let rest = emergencies_at(registry, responses, facility, types, m - 1);
        match emergency_candidate(registry, responses, facility, types[m - 1]) {
            Some(c) => rest.push(c),
            None => rest,
        }
    }
}

/// The candidates at the first `n` facilities.
pub open spec fn emergencies(
    registry: MasterDataRegistry,
    responses: Seq<AirResponse>,
    facilities: Seq<(GridPosition, Terrain)>,
    types: Seq<(UnitType, UnitStats)>,
    n: int,
) -> Seq<EmergencyAntiAirCandidate>
    decreases n,
{
    if n <= 0 {
        Seq::empty()
    } else {
        emergencies(registry, responses, facilities, types, n - 1) + emergencies_at(
            registry,
            responses,
            facilities[n - 1],
            types,
            types.len() as int,
        )
    }
}

/// The number, moved so that it is not negative.
pub open spec fn lifted(v: i32) -> u64 {
    (v + 0x8000_0000) as u64
}

/// The place for higher numbers first.
pub open spec fn descending(v: i32) -> u64 {
    (u64::MAX - lifted(v)) as u64
}

/// The place of the candidate: what can be paid for first. Of what can be paid for: what strikes
/// in time, then what protects most, covers most, costs least. Of what cannot: what costs least,
/// then what strikes in time, then what protects most. Then by place and name.
pub open spec fn emergency_key(c: EmergencyAntiAirCandidate, funds: u32) -> Seq<u64> {
    let late = if c.meets_deadline {
        0u64
    } else {
        1u64
    };
    let (y, x) = (c.facility_position.y as u64, c.facility_position.x as u64);
    if c.cost <= funds {
        seq![
            0u64,
            late,
            descending(c.protected_asset_value),
            descending(c.coverage),
            c.cost as u64,
            y,
            x,
            c.name_rank as u64,
        ]
    } else {
        seq![
            1u64,
            c.cost as u64,
            late,
            descending(c.protected_asset_value),
            y,
            x,
            c.name_rank as u64,
        ]
    }
}

/// The places of the candidates.
pub open spec fn emergency_keys(list: Seq<EmergencyAntiAirCandidate>, funds: u32) -> Seq<Seq<u64>> {
    Seq::new(list.len(), |i: int| emergency_key(list[i], funds))
}

/// The candidate at the first place.
pub open spec fn emergency_choice(
    registry: MasterDataRegistry,
    responses: Seq<AirResponse>,
    facilities: Seq<(GridPosition, Terrain)>,
    types: Seq<(UnitType, UnitStats)>,
    funds: u32,
) -> Option<EmergencyAntiAirCandidate> {
    let list = emergencies(registry, responses, facilities, types, facilities.len() as int);
    if list.len() == 0 {
        None
    } else {
        Some(list[first_least(emergency_keys(list, funds), list.len() as int)])
    }
}

fn find_descending(v: i32) -> (r: u64)
    ensures
        r == descending(v),
{
    u64::MAX - (v as i64 + 0x8000_0000) as u64
}

fn key_of(c: &EmergencyAntiAirCandidate, funds: u32) -> (r: Vec<u64>)
    ensures
        r@ == emergency_key(*c, funds),
{
    let late: u64 = if c.meets_deadline {
        0
    } else {
        1
    };
    let mut r: Vec<u64> = Vec::new();
    if c.cost <= funds {
        r.push(0);
        r.push(late);
        r.push(find_descending(c.protected_asset_value));
        r.push(find_descending(c.coverage));
        r.push(c.cost as u64);
    } else {
        r.push(1);
        r.push(c.cost as u64);
        r.push(late);
        r.push(find_descending(c.protected_asset_value));
    }
    r.push(c.facility_position.y as u64);
    r.push(c.facility_position.x as u64);
    r.push(c.name_rank as u64);
    r
}

fn find_candidate(
    registry: &MasterDataRegistry,
    responses: &Vec<AirResponse>,
    facility: (GridPosition, Terrain),
    kind: &(UnitType, UnitStats),
) -> (r: Option<EmergencyAntiAirCandidate>)
    ensures
        r == emergency_candidate(*registry, responses@, facility, *kind),
{
    if kind.1.cost == 0 || !registry.can_produce_unit(facility.1, kind.0) {
        return None;
    }
    match find_response(responses, facility.0, kind.0) {
        Some(response) => if response.justified {
            Some(
                EmergencyAntiAirCandidate {
                    facility_position: facility.0,
                    unit_type: kind.0,
                    cost: kind.1.cost,
                    coverage: response.coverage,
                    protected_asset_value: response.protected_asset_value,
                    meets_deadline: response.meets_deadline,
                    name_rank: response.name_rank,
                },
            )
        } else {
            None
        },
        None => None,
    }
}

fn list_candidates_at(
    registry: &MasterDataRegistry,
    responses: &Vec<AirResponse>,
    facility: (GridPosition, Terrain),
    types: &Vec<(UnitType, UnitStats)>,
    list: &mut Vec<EmergencyAntiAirCandidate>,
)
    ensures
        final(list)@ == old(list)@ + emergencies_at(
            *registry,
            responses@,
            facility,
            types@,
            types.len() as int,
        ),
{
    let ghost start = list@;
    let mut m: usize = 0;
    assert(list@ =~= start + emergencies_at(*registry, responses@, facility, types@, 0));
    while m < types.len()
        invariant
            m <= types.len(),
            list@ == start + emergencies_at(*registry, responses@, facility, types@, m as int),
        decreases types.len() - m,
    {
        if let Some(c) = find_candidate(registry, responses, facility, &types[m]) {
            list.push(c);
            assert(list@ =~= start + emergencies_at(
                *registry,
                responses@,
                facility,
                types@,
                m + 1,
            ));
        }
        m += 1;
    }
}

/// What to build against the aircraft that threaten.
pub fn select_emergency_anti_air_candidate_with_existing(
    facilities: &Vec<(GridPosition, Terrain)>,
    available_types: &Vec<(UnitType, UnitStats)>,
    responses: &Vec<AirResponse>,
    master_data: &MasterDataRegistry,
    current_funds: u32,
) -> (r: Option<EmergencyAntiAirCandidate>)
    ensures
        r == emergency_choice(
            *master_data,
            responses@,
            facilities@,
            available_types@,
            current_funds,
        ),
{
    let mut list: Vec<EmergencyAntiAirCandidate> = Vec::new();
    let mut n: usize = 0;
    while n < facilities.len()
        invariant
            n <= facilities.len(),
            list@ == emergencies(
                *master_data,
                responses@,
                facilities@,
                available_types@,
                n as int,
            ),
        decreases facilities.len() - n,
    {
        list_candidates_at(master_data, responses, facilities[n], available_types, &mut list);
        n += 1;
    }
    let mut keys: Vec<Vec<u64>> = Vec::new();
    let mut i: usize = 0;
    while i < list.len()
        invariant
            i <= list.len(),
            keys.len() == i,
            forall|k: int|
                0 <= k < i ==> #[trigger] keys[k]@ == emergency_keys(list@, current_funds)[k],
        decreases list.len() - i,
    {
        keys.push(key_of(&list[i], current_funds));
        i += 1;
    }
    assert(key_views(keys@) =~= emergency_keys(list@, current_funds));
    match least_index(&keys) {
        Some(k) => Some(list[k]),
        None => None,
    }
}

/// How many turns of income it takes until the price can be paid; none where nothing comes in.
pub open spec fn saving_turns(cost: u32, funds: u32, income: u32) -> Option<int> {
    if income == 0 {
        None
    } else {
        Some(quotient_up(cost.saturating_sub(funds), income))
    }
}

/// How many turns of income it takes until the price can be paid; none where nothing comes in.
pub fn turns_to_afford(cost: u32, funds: u32, income: u32) -> (r: Option<u32>)
    ensures
        match r {
            Some(turns) => saving_turns(cost, funds, income) == Some(turns as int),
            None => saving_turns(cost, funds, income) is None,
        },
{
    if income == 0 {
        None
    } else {
        Some(ceil_div(cost.saturating_sub(funds), income))
    }
}

/// The first delayed response from index `i` on says that the unit still serves.
pub open spec fn still_serves(
    delayed: Seq<DelayedResponse>,
    position: GridPosition,
    unit_type: UnitType,
    delay: u32,
    i: int,
) -> bool
    decreases delayed.len() - i,
{
    if i >= delayed.len() {
        false
    } else if delayed[i].facility_position == position && delayed[i].unit_type == unit_type
        && delayed[i].delay == delay {
        delayed[i].justified
    } else {
        still_serves(delayed, position, unit_type, delay, i + 1)
    }
}

fn find_still_serves(
    delayed: &Vec<DelayedResponse>,
    position: GridPosition,
    unit_type: UnitType,
    delay: u32,
) -> (r: bool)
    ensures
        r == still_serves(delayed@, position, unit_type, delay, 0),
{
    let mut i: usize = 0;
    while i < delayed.len()
        invariant
            i <= delayed.len(),
            still_serves(delayed@, position, unit_type, delay, 0) == still_serves(
                delayed@,
                position,
                unit_type,
                delay,
                i as int,
            ),
        decreases delayed.len() - i,
    {
        if delayed[i].facility_position == position && delayed[i].unit_type == unit_type
            && delayed[i].delay == delay {
            return delayed[i].justified;
        }
        i += 1;
    }
    false
}

/// What becomes of the emergency.
#[derive(Clone, Copy, Debug, PartialEq, Eq, Structural)]
pub enum EmergencyStep {
    /// The unit is built now.
    Build(EmergencyAntiAirCandidate),
    /// Nothing is built: the money is kept for the unit.
    Save(EmergencyAntiAirCandidate),
    /// There is nothing to do about it.
    Pass,
}

/// What becomes of the emergency: the chosen unit is built where it can be paid for, and saved for
/// where it would still serve when it can be.
pub open spec fn emergency_step(
    choice: Option<EmergencyAntiAirCandidate>,
    delayed: Seq<DelayedResponse>,
    funds: u32,
    income: u32,
) -> EmergencyStep {
    match choice {
        None => EmergencyStep::Pass,
        Some(c) => if c.cost <= funds {
            EmergencyStep::Build(c)
        } else {
            match saving_turns(c.cost, funds, income) {
                Some(turns) => if still_serves(
                    delayed,
                    c.facility_position,
                    c.unit_type,
                    1u32.saturating_add(turns as u32),
                    0,
                ) {
                    EmergencyStep::Save(c)
                } else {
                    EmergencyStep::Pass
                },
                None => EmergencyStep::Pass,
            }
        },
    }
}

/// Decides what becomes of the emergency.
pub fn decide_emergency(
    choice: Option<EmergencyAntiAirCandidate>,
    delayed: &Vec<DelayedResponse>,
    funds: u32,
    income: u32,
) -> (r: EmergencyStep)
    ensures
        r == emergency_step(choice, delayed@, funds, income),
{
    match choice {
        None => EmergencyStep::Pass,
        Some(c) => {
            if c.cost <= funds {
                return EmergencyStep::Build(c);
            }
            match turns_to_afford(c.cost, funds, income) {
                Some(turns) => {
                    let delay: u32 = 1u32.saturating_add(turns);
                    if find_still_serves(delayed, c.facility_position, c.unit_type, delay) {
                        EmergencyStep::Save(c)
                    } else {
                        EmergencyStep::Pass
                    }
                },
                None => EmergencyStep::Pass,
            }
        },
    }
}

/// Where anything that helps can be paid for, the choice can be paid for.
pub proof fn law_emergency_prefers_what_can_be_paid(
    registry: MasterDataRegistry,
    responses: Seq<AirResponse>,
    facilities: Seq<(GridPosition, Terrain)>,
    types: Seq<(UnitType, UnitStats)>,
    funds: u32,
)
    ensures
        ({
            let list = emergencies(
                registry,
                responses,
                facilities,
                types,
                facilities.len() as int,
            );
            (exists|i: int| 0 <= i < list.len() && (#[trigger] list[i]).cost <= funds) ==> (
            emergency_choice(registry, responses, facilities, types, funds) matches Some(c)
                && c.cost <= funds)
        }),
{
    let list = emergencies(registry, responses, facilities, types, facilities.len() as int);
    if exists|i: int| 0 <= i < list.len() && (#[trigger] list[i]).cost <= funds {
        let i = choose|i: int| 0 <= i < list.len() && (#[trigger] list[i]).cost <= funds;
        let keys = emergency_keys(list, funds);
        lemma_first_least(keys, list.len() as int);
        let b = first_least(keys, list.len() as int);
        if b != i {
            assert(stands_before(keys, b, keys_index(i)));
            assert(keys[i][0] == 0u64);
            if list[b].cost > funds {
                assert(keys[b][0] == 1u64);
                assert(keys[b] != keys[i]);
                assert(!lex_less(keys[b], keys[i]));
            }
        }
    }
}

/// The unit can be built at one of the facilities, costs something, and its first response there
/// says that it contains the threat and is worth its price.
pub open spec fn is_remedy(
    registry: MasterDataRegistry,
    responses: Seq<AirResponse>,
    facilities: Seq<(GridPosition, Terrain)>,
    types: Seq<(UnitType, UnitStats)>,
    c: EmergencyAntiAirCandidate,
) -> bool {
    exists|f: int, t: int, r: int|
        #![trigger facilities[f], types[t], responses[r]]
        {
            &&& 0 <= f < facilities.len()
            &&& 0 <= t < types.len()
            &&& 0 <= r < responses.len()
            &&& types[t].1.cost > 0
            &&& registry.builds_type(facilities[f].1, types[t].0)
            &&& c.facility_position == facilities[f].0
            &&& c.unit_type == types[t].0
            &&& c.cost == types[t].1.cost
            &&& is_response_to(responses, r, c.facility_position, c.unit_type)
            &&& responses[r].justified
            &&& c.coverage == responses[r].coverage
            &&& c.protected_asset_value == responses[r].protected_asset_value
            &&& c.meets_deadline == responses[r].meets_deadline
            &&& c.name_rank == responses[r].name_rank
        }
}

/// The response is the first one of the type at the place.
pub open spec fn is_response_to(
    responses: Seq<AirResponse>,
    r: int,
    position: GridPosition,
    unit_type: UnitType,
) -> bool {
    &&& 0 <= r < responses.len()
    &&& responses[r].facility_position == position
    &&& responses[r].unit_type == unit_type
    &&& forall|j: int|
        0 <= j < r ==> !((#[trigger] responses[j]).facility_position == position
            && responses[j].unit_type == unit_type)
}

proof fn lemma_response_from(
    responses: Seq<AirResponse>,
    position: GridPosition,
    unit_type: UnitType,
    i: int,
)
    requires
        0 <= i <= responses.len(),
        forall|j: int|
            0 <= j < i ==> !((#[trigger] responses[j]).facility_position == position
                && responses[j].unit_type == unit_type),
    ensures
        forall|r: int| #[trigger]
            is_response_to(responses, r, position, unit_type) ==> response_for(
                responses,
                position,
                unit_type,
                i,
            ) == Some(responses[r]),
        response_for(responses, position, unit_type, i) matches Some(x) ==> exists|r: int|
            is_response_to(responses, r, position, unit_type) && #[trigger] responses[r] == x,
    decreases responses.len() - i,
{
    if i < responses.len() {
        if responses[i].facility_position == position && responses[i].unit_type == unit_type {
            assert(is_response_to(responses, i, position, unit_type));
            assert forall|r: int| #[trigger]
                is_response_to(responses, r, position, unit_type) implies r == i by {
                if i < r {
                    assert(!(responses[i].facility_position == position && responses[i].unit_type
                        == unit_type));
                }
            }
        } else {
            lemma_response_from(responses, position, unit_type, i + 1);
        }
    }
}

proof fn lemma_remedies_at(
    registry: MasterDataRegistry,
    responses: Seq<AirResponse>,
    facility: (GridPosition, Terrain),
    types: Seq<(UnitType, UnitStats)>,
    m: int,
    c: EmergencyAntiAirCandidate,
)
    requires
        0 <= m <= types.len(),
    ensures
        emergencies_at(registry, responses, facility, types, m).contains(c) <==> exists|t: int|
            0 <= t < m && emergency_candidate(registry, responses, facility, #[trigger] types[t])
                == Some(c),
    decreases m,
{
    if m > 0 {
        lemma_remedies_at(registry, responses, facility, types, m - 1, c);
        let rest = emergencies_at(registry, responses, facility, types, m - 1);
        let all = emergencies_at(registry, responses, facility, types, m);
        let last = emergency_candidate(registry, responses, facility, types[m - 1]);
        if rest.contains(c) {
            let i = choose|i: int| 0 <= i < rest.len() && rest[i] == c;
            assert(all[i] == c);
        }
        if let Some(d) = last {
            assert(all[rest.len() as int] == d);
        }
        if all.contains(c) {
            let i = choose|i: int| 0 <= i < all.len() && all[i] == c;
            if i < rest.len() {
                assert(rest[i] == c);
            } else {
                assert(last == Some(c));
            }
        }
    }
}

proof fn lemma_remedies(
    registry: MasterDataRegistry,
    responses: Seq<AirResponse>,
    facilities: Seq<(GridPosition, Terrain)>,
    types: Seq<(UnitType, UnitStats)>,
    n: int,
    c: EmergencyAntiAirCandidate,
)
    requires
        0 <= n <= facilities.len(),
    ensures
        emergencies(registry, responses, facilities, types, n).contains(c) <==> exists|f: int, t: int|
            0 <= f < n && 0 <= t < types.len() && emergency_candidate(
                registry,
                responses,
                #[trigger] facilities[f],
                #[trigger] types[t],
            ) == Some(c),
    decreases n,
{
    if n > 0 {
        lemma_remedies(registry, responses, facilities, types, n - 1, c);
        let m = types.len() as int;
        lemma_remedies_at(registry, responses, facilities[n - 1], types, m, c);
        let rest = emergencies(registry, responses, facilities, types, n - 1);
        let more = emergencies_at(registry, responses, facilities[n - 1], types, m);
        let all = rest + more;
        if rest.contains(c) {
            let i = choose|i: int| 0 <= i < rest.len() && rest[i] == c;
            assert(all[i] == c);
        }
        if more.contains(c) {
            let i = choose|i: int| 0 <= i < more.len() && more[i] == c;
            assert(all[rest.len() + i] == c);
            let t = choose|t: int|
                0 <= t < m && emergency_candidate(
                    registry,
                    responses,
                    facilities[n - 1],
                    #[trigger] types[t],
                ) == Some(c);
            assert(emergency_candidate(registry, responses, facilities[n - 1], types[t]) == Some(c));
        }
        if all.contains(c) {
            let i = choose|i: int| 0 <= i < all.len() && all[i] == c;
            if i < rest.len() {
                assert(rest[i] == c);
            } else {
                assert(more[i - rest.len()] == c);
            }
        }
    }
}

proof fn lemma_all_remedies(
    registry: MasterDataRegistry,
    responses: Seq<AirResponse>,
    facilities: Seq<(GridPosition, Terrain)>,
    types: Seq<(UnitType, UnitStats)>,
    c: EmergencyAntiAirCandidate,
)
    ensures
        emergencies(registry, responses, facilities, types, facilities.len() as int).contains(c)
            <==> is_remedy(registry, responses, facilities, types, c),
{
    let n = facilities.len() as int;
    lemma_remedies(registry, responses, facilities, types, n, c);
    lemma_response_from(responses, c.facility_position, c.unit_type, 0);
    if emergencies(registry, responses, facilities, types, n).contains(c) {
        let (f, t) = choose|f: int, t: int|
            0 <= f < n && 0 <= t < types.len() && emergency_candidate(
                registry,
                responses,
                #[trigger] facilities[f],
                #[trigger] types[t],
            ) == Some(c);
        let x = response_for(responses, c.facility_position, c.unit_type, 0)->0;
        let r = choose|r: int|
            is_response_to(responses, r, c.facility_position, c.unit_type)
                && #[trigger] responses[r] == x;
        assert(facilities[f].0 == c.facility_position && types[t].0 == c.unit_type && responses[r]
            == x);
    }
    if is_remedy(registry, responses, facilities, types, c) {
        let (f, t, r) = choose|f: int, t: int, r: int|
            #![trigger facilities[f], types[t], responses[r]]
            {
                &&& 0 <= f < facilities.len()
                &&& 0 <= t < types.len()
                &&& 0 <= r < responses.len()
                &&& types[t].1.cost > 0
                &&& registry.builds_type(facilities[f].1, types[t].0)
                &&& c.facility_position == facilities[f].0
                &&& c.unit_type == types[t].0
                &&& c.cost == types[t].1.cost
                &&& is_response_to(responses, r, c.facility_position, c.unit_type)
                &&& responses[r].justified
                &&& c.coverage == responses[r].coverage
                &&& c.protected_asset_value == responses[r].protected_asset_value
                &&& c.meets_deadline == responses[r].meets_deadline
                &&& c.name_rank == responses[r].name_rank
            };
        assert(emergency_candidate(registry, responses, facilities[f], types[t]) == Some(c));
    }
}

/// The first unit helps better: it can be paid for and the other cannot. Of two that can be paid
/// for, it strikes in time and the other does not; else it protects more, else covers more, else
/// costs less. Of two that cannot, it costs less, else strikes in time, else protects more.
pub open spec fn helps_better(
    a: EmergencyAntiAirCandidate,
    b: EmergencyAntiAirCandidate,
    funds: u32,
) -> bool {
    if a.cost <= funds && b.cost <= funds {
        if a.meets_deadline != b.meets_deadline {
            a.meets_deadline
        } else if a.protected_asset_value != b.protected_asset_value {
            a.protected_asset_value > b.protected_asset_value
        } else if a.coverage != b.coverage {
            a.coverage > b.coverage
        } else {
            a.cost < b.cost
        }
    } else if a.cost > funds && b.cost > funds {
        if a.cost != b.cost {
            a.cost < b.cost
        } else if a.meets_deadline != b.meets_deadline {
            a.meets_deadline
        } else {
            a.protected_asset_value > b.protected_asset_value
        }
    } else {
        a.cost <= funds
    }
}

proof fn lemma_better_key(a: EmergencyAntiAirCandidate, b: EmergencyAntiAirCandidate, funds: u32)
    requires
        helps_better(a, b, funds),
    ensures
        lex_less(emergency_key(a, funds), emergency_key(b, funds)),
{
    let x = emergency_key(a, funds);
    let y = emergency_key(b, funds);
    if x[0] != y[0] {
        lemma_lex_by(x, y, 0);
    } else if x[1] != y[1] {
        lemma_lex_by(x, y, 1);
    } else if x[2] != y[2] {
        lemma_lex_by(x, y, 2);
    } else if x[3] != y[3] {
        lemma_lex_by(x, y, 3);
    } else {
        lemma_lex_by(x, y, 4);
    }
}

/// What is built against aircraft is a remedy, and no remedy helps better. Something is built
/// against them whenever there is a remedy.
pub proof fn law_no_remedy_helps_better(
    registry: MasterDataRegistry,
    responses: Seq<AirResponse>,
    facilities: Seq<(GridPosition, Terrain)>,
    types: Seq<(UnitType, UnitStats)>,
    funds: u32,
)
    ensures
        match emergency_choice(registry, responses, facilities, types, funds) {
            Some(c) => is_remedy(registry, responses, facilities, types, c) && forall|
                d: EmergencyAntiAirCandidate,
            | #[trigger]
                is_remedy(registry, responses, facilities, types, d) ==> !helps_better(d, c, funds),
            None => forall|d: EmergencyAntiAirCandidate|
                !#[trigger] is_remedy(registry, responses, facilities, types, d),
        },
{
    let list = emergencies(registry, responses, facilities, types, facilities.len() as int);
    let keys = emergency_keys(list, funds);
    assert forall|d: EmergencyAntiAirCandidate| #[trigger]
        is_remedy(registry, responses, facilities, types, d) implies list.contains(d) by {
        lemma_all_remedies(registry, responses, facilities, types, d);
    }
    if list.len() > 0 {
        lemma_first_least(keys, list.len() as int);
        let b = first_least(keys, list.len() as int);
        let c = list[b];
        assert(list.contains(c));
        lemma_all_remedies(registry, responses, facilities, types, c);
        assert forall|d: EmergencyAntiAirCandidate| #[trigger]
            is_remedy(registry, responses, facilities, types, d) implies !helps_better(
            d,
            c,
            funds,
        ) by {
            let i = choose|i: int| 0 <= i < list.len() && list[i] == d;
            if helps_better(d, c, funds) {
                lemma_better_key(d, c, funds);
                if i == b {
                    lemma_lex_irreflexive(keys[b]);
                } else {
                    assert(stands_before(keys, b, keys_index(i)));
                    lemma_never_before(keys, b, i);
                }
            }
        }
    }
}

/// Saving lasts the fewest turns after which the price can be paid.
pub proof fn law_saving_lasts_until_the_price_is_there(cost: u32, funds: u32, income: u32)
    ensures
        income == 0 ==> saving_turns(cost, funds, income) is None,
        income > 0 ==> (saving_turns(cost, funds, income) matches Some(turns) && 0 <= turns && funds
            + turns * income >= cost && (turns > 0 ==> funds + (turns - 1) * income < cost)),
{
    if income > 0 {
        let lack = cost.saturating_sub(funds) as int;
        let i = income as int;
        let q = quotient_up(cost.saturating_sub(funds), income);
        law_quotient_up_is_least_cover(cost.saturating_sub(funds), income);
        assert(q * i == i * q) by (nonlinear_arith);
        assert((q - 1) * i == q * i - i) by (nonlinear_arith);
    }
}

/// When a unit stands there that has to be saved for: one turn after its price can be paid, as far
/// as turns are counted.
pub open spec fn time_until_built(cost: u32, funds: u32, income: u32) -> int {
    match saving_turns(cost, funds, income) {
        Some(turns) => if turns + 1 > u32::MAX {
            u32::MAX as int
        } else {
            turns + 1
        },
        None => u32::MAX as int,
    }
}

/// What becomes of an emergency. The choice is built exactly if it can be paid for. It is saved for
/// exactly if it cannot, something comes in, and the first answer for the time when it stands there
/// says that it still serves. Otherwise nothing is done.
pub proof fn law_emergency_is_met_or_saved_for(
    choice: Option<EmergencyAntiAirCandidate>,
    delayed: Seq<DelayedResponse>,
    funds: u32,
    income: u32,
)
    ensures
        match emergency_step(choice, delayed, funds, income) {
            EmergencyStep::Build(c) => choice == Some(c) && c.cost <= funds,
            EmergencyStep::Save(c) => choice == Some(c) && c.cost > funds && income > 0,
            EmergencyStep::Pass => choice is None || choice->0.cost > funds,
        },
        choice is Some && choice->0.cost > funds && income > 0 ==> {
            let c = choice->0;
            let delay = time_until_built(c.cost, funds, income);
            &&& forall|k: int| #[trigger]
                is_answer(delayed, k, c, delay) && delayed[k].justified ==> emergency_step(
                    choice,
                    delayed,
                    funds,
                    income,
                ) == EmergencyStep::Save(c)
            &&& forall|k: int| #[trigger]
                is_answer(delayed, k, c, delay) && !delayed[k].justified ==> emergency_step(
                    choice,
                    delayed,
                    funds,
                    income,
                ) == EmergencyStep::Pass
            &&& (forall|k: int| !#[trigger] is_answer(delayed, k, c, delay)) ==> emergency_step(
                choice,
                delayed,
                funds,
                income,
            ) == EmergencyStep::Pass
        },
{
    if choice is Some && choice->0.cost > funds && income > 0 {
        let c = choice->0;
        let turns = saving_turns(c.cost, funds, income)->0;
        law_saving_lasts_until_the_price_is_there(c.cost, funds, income);
        assert(turns <= u32::MAX) by {
            if turns > u32::MAX {
                let i = income as int;
                assert((turns - 1) * i >= turns - 1) by (nonlinear_arith)
                    requires
                        i >= 1,
                        turns >= 1,
                ;
            }
        }
        let delay = time_until_built(c.cost, funds, income);
        assert(1u32.saturating_add(turns as u32) == delay);
        lemma_answer_from(delayed, c, delay as u32, 0);
    }
}

/// The answer is the first one for the unit at its place after the delay.
pub open spec fn is_answer(
    delayed: Seq<DelayedResponse>,
    k: int,
    c: EmergencyAntiAirCandidate,
    delay: int,
) -> bool {
    &&& 0 <= k < delayed.len()
    &&& speaks_to(delayed[k], c, delay)
    &&& forall|j: int| 0 <= j < k ==> !speaks_to(#[trigger] delayed[j], c, delay)
}

/// The answer is for the unit at its place after the delay.
pub open spec fn speaks_to(
    answer: DelayedResponse,
    c: EmergencyAntiAirCandidate,
    delay: int,
) -> bool {
    answer.facility_position == c.facility_position && answer.unit_type == c.unit_type
        && answer.delay == delay
}

proof fn lemma_answer_from(
    delayed: Seq<DelayedResponse>,
    c: EmergencyAntiAirCandidate,
    delay: u32,
    i: int,
)
    requires
        0 <= i <= delayed.len(),
        forall|j: int| 0 <= j < i ==> !speaks_to(#[trigger] delayed[j], c, delay as int),
    ensures
        forall|k: int| #[trigger]
            is_answer(delayed, k, c, delay as int) ==> still_serves(
                delayed,
                c.facility_position,
                c.unit_type,
                delay,
                i,
            ) == delayed[k].justified,
        (forall|k: int| !#[trigger] is_answer(delayed, k, c, delay as int)) ==> !still_serves(
            delayed,
            c.facility_position,
            c.unit_type,
            delay,
            i,
        ),
    decreases delayed.len() - i,
{
    if i < delayed.len() {
        if speaks_to(delayed[i], c, delay as int) {
            assert(is_answer(delayed, i, c, delay as int));
            assert forall|k: int| #[trigger]
                is_answer(delayed, k, c, delay as int) implies k == i by {
                if i < k {
                    assert(!speaks_to(delayed[i], c, delay as int));
                }
            }
        } else {
            lemma_answer_from(delayed, c, delay, i + 1);
        }
    } else {
        assert forall|k: int| !#[trigger] is_answer(delayed, k, c, delay as int) by {}
    }
}

} // verus!
