//! Agents: their kinds, genes and the per-tick energy rules.
use vstd::prelude::*;
use crate::geometry::{dist_sq, distance_sq, UNIT};
use crate::terrain::{Cell, MAX_GRID};

verus! {

/// Largest coordinate any world can hold, in position units.
pub const MAX_COORD: i64 = 524_287_000;
/// Largest coordinate of the centre of a cell of any world.
pub const MAX_CENTRE: i64 = 524_287_500;
/// Bound on the squared distance between two points of any world.
pub const MAX_DIST_SQ: i64 = 549_753_716_738_000_000;
/// Two agents closer than this can mate, or infect one another.
pub const MATING_DISTANCE: i64 = 1200;
/// Ticks an agent waits after mating before it may mate again.
pub const COOLDOWN_TIME: u64 = 150;
/// Energy an agent must exceed to mate.
pub const REPRODUCTION_THRESHOLD: i64 = 90_000;
/// Energy each parent gives up when mating.
pub const MATING_COST: i64 = 50_000;
/// Energy of a newborn.
pub const BIRTH_ENERGY: i64 = 60_000;
/// Energy of a predator, which never spends it.
pub const PREDATOR_ENERGY: i64 = 10_000_000;
/// Prey below this energy eat when standing on food.
pub const SATIETY: i64 = 100_000;
/// Most food eaten in one tick.
pub const BITE: u64 = 20_000;
/// Prey below this energy are desperate enough to cross desert.
pub const DIRE_ENERGY: i64 = 40_000;
/// Lowest speed gene, in thousandths of a cell per tick.
pub const SPEED_MIN: i64 = 80;
/// Highest speed gene, in thousandths of a cell per tick.
pub const SPEED_MAX: i64 = 300;
/// Lowest vision gene, in thousandths of a cell.
pub const VISION_MIN: i64 = 8000;
/// Highest vision gene, in thousandths of a cell.
pub const VISION_MAX: i64 = 30000;
/// Upper bound of the dormant health and damage traits.
pub const TRAIT_MAX: i64 = 1_000_000_000;

/// The two kinds of agent. Prey can turn into predators, never back.
#[derive(Clone, Copy, Debug, PartialEq, Eq, Structural)]
pub enum Kind {
    Prey,
    Predator,
}

/// One living agent. Coordinates, energy and genes are in thousandths.
#[derive(Clone, Copy, Debug, PartialEq, Eq, Structural)]
pub struct Agent {
    pub id: u64,
    pub x: i64,
    pub y: i64,
    pub energy: i64,
    pub cooldown: u64,
    pub speed_gene: i64,
    pub vision_gene: i64,
    pub kind: Kind,
    pub health: i64,
    pub damage: i64,
}

/// Largest coordinate in a world of side `size`.
pub open spec fn max_coord(size: int) -> int {
    (size - 1) * UNIT
}

/// The genes and dormant traits lie in their valid ranges.
pub open spec fn traits_valid(a: Agent) -> bool {
    &&& SPEED_MIN <= a.speed_gene <= SPEED_MAX
    &&& VISION_MIN <= a.vision_gene <= VISION_MAX
    &&& 0 <= a.health <= TRAIT_MAX
    &&& 0 <= a.damage <= TRAIT_MAX
}

/// The agent's position lies in a world of side `size`.
pub open spec fn in_bounds(a: Agent, size: int) -> bool {
    0 <= a.x <= max_coord(size) && 0 <= a.y <= max_coord(size)
}

/// An agent as it stands between two ticks of a world of side `size`.
pub open spec fn agent_valid(a: Agent, size: int) -> bool {
    &&& in_bounds(a, size)
    &&& 0 < a.energy <= PREDATOR_ENERGY
    &&& a.cooldown <= COOLDOWN_TIME
    &&& traits_valid(a)
}

/// An agent during a tick: its energy may have dropped below zero.
pub open spec fn agent_live(a: Agent, size: int) -> bool {
    &&& in_bounds(a, size)
    &&& -1000 < a.energy <= PREDATOR_ENERGY
    &&& a.cooldown <= COOLDOWN_TIME
    &&& traits_valid(a)
}

/// Prey with energy above the threshold and no cooldown left.
pub open spec fn ready_to_mate(a: Agent) -> bool {
    a.kind == Kind::Prey && a.energy > REPRODUCTION_THRESHOLD && a.cooldown == 0
}

/// Energy a prey spends in one tick: a base cost plus linear terms in its
/// vision and speed.
pub open spec fn upkeep(a: Agent) -> int {
    100 + (a.vision_gene * 6) / 1000 + (a.speed_gene * 450) / 1000
}

/// Squared distance between two agents.
pub open spec fn gap(a: Agent, b: Agent) -> int {
    dist_sq(a.x as int, a.y as int, b.x as int, b.y as int)
}

/// Squared distance between two agents of one world.
pub fn agent_gap(a: &Agent, b: &Agent) -> (r: i64)
    requires
        in_bounds(*a, MAX_GRID as int),
        in_bounds(*b, MAX_GRID as int),
    ensures
        r == gap(*a, *b),
        0 <= r <= MAX_DIST_SQ,
{
    let r = distance_sq(a.x, a.y, b.x, b.y);
    assert(r <= MAX_DIST_SQ) by (nonlinear_arith)
        requires
            r == (a.x - b.x) * (a.x - b.x) + (a.y - b.y) * (a.y - b.y),
            0 <= a.x <= MAX_COORD,
            0 <= b.x <= MAX_COORD,
            0 <= a.y <= MAX_COORD,
            0 <= b.y <= MAX_COORD,
    ;
    r
}

/// Whether `a` may mate now.
pub fn is_ready_to_mate(a: &Agent) -> (r: bool)
    ensures
        r == ready_to_mate(*a),
{
    a.kind == Kind::Prey && a.energy > REPRODUCTION_THRESHOLD && a.cooldown == 0
}

/// Prey off cooldown whose energy is not below the threshold: it may start
/// a pairing as the first parent.
pub open spec fn may_start_pairing(a: Agent) -> bool {
    a.kind == Kind::Prey && a.energy >= REPRODUCTION_THRESHOLD && a.cooldown == 0
}

/// Whether `a` may start a pairing as the first parent.
pub fn can_start_pairing(a: &Agent) -> (r: bool)
    ensures
        r == may_start_pairing(*a),
{
    a.kind == Kind::Prey && a.energy >= REPRODUCTION_THRESHOLD && a.cooldown == 0
}

/// Energy that `a` spends in one tick.
pub fn upkeep_of(a: &Agent) -> (r: i64)
    requires
        traits_valid(*a),
    ensures
        r == upkeep(*a),
        100 <= r <= 415,
{
    100 + (a.vision_gene * 6) / 1000 + (a.speed_gene * 450) / 1000
}

/// Agent `a` after one tick's metabolism on cell `c`, and the cell after it:
/// prey pay their upkeep and, when below satiety on food, eat up to one bite,
/// gaining one and a half times what they eat. Predators neither pay nor eat.
pub open spec fn fed(a: Agent, c: Cell) -> (Agent, Cell) {
    if a.kind == Kind::Predator {
        (a, c)
    } else {
        let e = a.energy - upkeep(a);
        if c.food > 0 && e < SATIETY {
            let eat = if BITE <= c.food { BITE as int } else { c.food as int };
            (Agent { energy: (e + (eat * 3) / 2) as i64, ..a }, Cell { food: (c.food - eat) as u64, ..c })
        } else {
            (Agent { energy: e as i64, ..a }, c)
        }
    }
}

/// Runs one tick of metabolism and feeding for agent `a` standing on `c`.
pub fn metabolize(a: &mut Agent, c: &mut Cell)
    requires
        traits_valid(*old(a)),
        0 < old(a).energy <= PREDATOR_ENERGY,
    ensures
        (*final(a), *final(c)) == fed(*old(a), *old(c)),
        -1000 < final(a).energy <= PREDATOR_ENERGY,
{
    if a.kind == Kind::Predator {
        return;
    }
    let cost = upkeep_of(a);
    a.energy = a.energy - cost;
    if c.food > 0 && a.energy < SATIETY {
        let eat = c.consume(BITE);
        a.energy = a.energy + (eat as i64 * 3) / 2;
    }
}

} // verus!
