//! Offspring: blending and mutating the parents' genes.
use vstd::prelude::*;
use crate::agent::{
    agent_gap, gap, in_bounds, is_ready_to_mate, may_start_pairing, ready_to_mate, traits_valid,
    Agent, Kind,
    BIRTH_ENERGY, COOLDOWN_TIME, MATING_COST, MATING_DISTANCE, SPEED_MAX,
    SPEED_MIN, TRAIT_MAX, VISION_MAX, VISION_MIN,
};
use crate::terrain::MAX_GRID;

verus! {

/// Lowest mutation factor, in thousandths.
pub const MUTATION_LOW: i64 = 900;
/// Highest mutation factor, in thousandths.
pub const MUTATION_HIGH: i64 = 1100;
/// Chance, in thousandths, that an offspring mutates.
pub const MUTATION_CHANCE: u64 = 100;

/// Whether an offspring mutates, and if so the factor, in thousandths, that
/// scales each of its traits.
#[derive(Clone, Copy, Debug, PartialEq, Eq, Structural)]
pub struct Mutation {
    pub active: bool,
    pub speed: i64,
    pub vision: i64,
    pub health: i64,
    pub damage: i64,
}

/// Every factor lies in the mutation range.
pub open spec fn mutation_ok(m: Mutation) -> bool {
    &&& MUTATION_LOW <= m.speed <= MUTATION_HIGH
    &&& MUTATION_LOW <= m.vision <= MUTATION_HIGH
    &&& MUTATION_LOW <= m.health <= MUTATION_HIGH
    &&& MUTATION_LOW <= m.damage <= MUTATION_HIGH
}

/// `v` clamped into `[lo, hi]`.
pub open spec fn clamp_int(v: int, lo: int, hi: int) -> int {
    if v < lo {
        lo
    } else if v > hi {
        hi
    } else {
        v
    }
}

/// A trait of the offspring: the mean of the parents' values, scaled by the
/// factor `f` (in thousandths) when it mutates, clamped into `[lo, hi]`.
pub open spec fn blended(a: int, b: int, active: bool, f: int, lo: int, hi: int) -> int {
    let mean = (a + b) / 2;
    let v = if active {
        (mean * f) / 1000
    } else {
        mean
    };
    clamp_int(v, lo, hi)
}

/// The offspring of parents `a` and `b`: born at `a`'s position with the
/// birth energy and a full cooldown, a prey whose traits blend its parents'.
pub open spec fn child_of(a: Agent, b: Agent, m: Mutation, id: u64) -> Agent {
    Agent {
        id,
        x: a.x,
        y: a.y,
        energy: BIRTH_ENERGY,
        cooldown: COOLDOWN_TIME,
        speed_gene: blended(
            a.speed_gene as int,
            b.speed_gene as int,
            m.active,
            m.speed as int,
            SPEED_MIN as int,
            SPEED_MAX as int,
        ) as i64,
        vision_gene: blended(
            a.vision_gene as int,
            b.vision_gene as int,
            m.active,
            m.vision as int,
            VISION_MIN as int,
            VISION_MAX as int,
        ) as i64,
        kind: Kind::Prey,
        health: blended(a.health as int, b.health as int, m.active, m.health as int, 0, TRAIT_MAX as int) as i64,
        damage: blended(a.damage as int, b.damage as int, m.active, m.damage as int, 0, TRAIT_MAX as int) as i64,
    }
}

/// A parent after mating: it has given up the mating cost and starts its
/// cooldown.
pub open spec fn paid(a: Agent) -> Agent {
    Agent { energy: (a.energy - MATING_COST) as i64, cooldown: COOLDOWN_TIME, ..a }
}

/// One trait of an offspring.
fn blend(a: i64, b: i64, active: bool, f: i64, lo: i64, hi: i64) -> (r: i64)
    requires
        0 <= a <= TRAIT_MAX,
        0 <= b <= TRAIT_MAX,
        MUTATION_LOW <= f <= MUTATION_HIGH,
        lo <= hi,
    ensures
        r == blended(a as int, b as int, active, f as int, lo as int, hi as int),
        lo <= r <= hi,
{
    let mean = (a + b) / 2;
    let v = if active {
        assert(0 <= mean * f <= TRAIT_MAX * MUTATION_HIGH) by (nonlinear_arith)
            requires
                0 <= mean <= TRAIT_MAX,
                0 <= f <= MUTATION_HIGH,
        ;
        (mean * f) / 1000
    } else {
        mean
    };
    if v < lo {
        lo
    } else if v > hi {
        hi
    } else {
        v
    }
}

/// The offspring of parents `a` and `b`, with identifier `id`.
pub fn offspring(a: &Agent, b: &Agent, m: &Mutation, id: u64) -> (c: Agent)
    requires
        traits_valid(*a),
        traits_valid(*b),
        mutation_ok(*m),
    ensures
        c == child_of(*a, *b, *m, id),
        traits_valid(c),
{
    Agent {
        id,
        x: a.x,
        y: a.y,
        energy: BIRTH_ENERGY,
        cooldown: COOLDOWN_TIME,
        speed_gene: blend(a.speed_gene, b.speed_gene, m.active, m.speed, SPEED_MIN, SPEED_MAX),
        vision_gene: blend(a.vision_gene, b.vision_gene, m.active, m.vision, VISION_MIN, VISION_MAX),
        kind: Kind::Prey,
        health: blend(a.health, b.health, m.active, m.health, 0, TRAIT_MAX),
        damage: blend(a.damage, b.damage, m.active, m.damage, 0, TRAIT_MAX),
    }
}

/// Mates `a` with `b`: each parent gives up the mating cost and starts its
/// cooldown, and exactly one offspring is returned.
pub fn mate(a: &mut Agent, b: &mut Agent, m: &Mutation, id: u64) -> (c: Agent)
    requires
        traits_valid(*old(a)),
        traits_valid(*old(b)),
        mutation_ok(*m),
        may_start_pairing(*old(a)),
        ready_to_mate(*old(b)),
    ensures
        *final(a) == paid(*old(a)),
        *final(b) == paid(*old(b)),
        c == child_of(*old(a), *old(b), *m, id),
        traits_valid(c),
        c.kind == Kind::Prey,
{
    let c = offspring(a, b, m, id);
    a.energy = a.energy - MATING_COST;
    a.cooldown = COOLDOWN_TIME;
    b.energy = b.energy - MATING_COST;
    b.cooldown = COOLDOWN_TIME;
    c
}

/// Agent `j` comes after agent `i` in the registry, is ready to mate, and
/// stands closer to `i` than the mating distance.
pub open spec fn can_pair(agents: Seq<Agent>, i: int, j: int) -> bool {
    &&& i < j < agents.len()
    &&& ready_to_mate(agents[j])
    &&& gap(agents[i], agents[j]) < MATING_DISTANCE * MATING_DISTANCE
}

/// Agent `j` is the partner of agent `i`: the nearest agent it can pair
/// with, the first in registry order among equally near ones.
pub open spec fn is_partner(agents: Seq<Agent>, i: int, j: int) -> bool {
    &&& can_pair(agents, i, j)
    &&& forall|k: int| #[trigger]
        can_pair(agents, i, k) ==> gap(agents[i], agents[j]) <= gap(agents[i], agents[k])
    &&& forall|k: int| #[trigger]
        can_pair(agents, i, k) && k < j ==> gap(agents[i], agents[j]) < gap(agents[i], agents[k])
}

/// The partner of agent `i`, if it has one.
pub open spec fn partner_of(agents: Seq<Agent>, i: int) -> Option<int> {
    if exists|j: int| is_partner(agents, i, j) {
        Some(choose|j: int| is_partner(agents, i, j))
    } else {
        None
    }
}

/// The partner of an agent is the one agent that is its partner.
pub proof fn lemma_partner_is(agents: Seq<Agent>, i: int, j: int)
    requires
        is_partner(agents, i, j),
    ensures
        partner_of(agents, i) == Some(j),
{
    let c = choose|c: int| is_partner(agents, i, c);
    assert(can_pair(agents, i, j));
    assert(can_pair(agents, i, c));
}

/// The partner of agent `i`, if it has one.
pub fn find_partner(agents: &Vec<Agent>, i: usize) -> (r: Option<usize>)
    requires
        i < agents.len(),
        forall|k: int| 0 <= k < agents.len() ==> in_bounds(#[trigger] agents[k], MAX_GRID as int),
    ensures
        r == match partner_of(agents@, i as int) {
            Some(j) => Some(j as usize),
            None => None::<usize>,
        },
{
    let mut best: Option<usize> = None;
    let mut best_d: i64 = 0;
    let mut j: usize = i + 1;
    while j < agents.len()
        invariant
            i < j <= agents.len(),
            forall|k: int| 0 <= k < agents.len() ==> in_bounds(#[trigger] agents[k], MAX_GRID as int),
            best.is_none() ==> forall|k: int| #[trigger] can_pair(agents@, i as int, k) ==> k >= j,
            best.is_some() ==> {
                let b = best.unwrap() as int;
                &&& b < j
                &&& can_pair(agents@, i as int, b)
                &&& best_d == gap(agents[i as int], agents[b])
                &&& forall|k: int| #[trigger]
                    can_pair(agents@, i as int, k) && k < j ==> best_d <= gap(agents[i as int], agents[k])
                &&& forall|k: int| #[trigger]
                    can_pair(agents@, i as int, k) && k < b ==> best_d < gap(agents[i as int], agents[k])
            },
        decreases agents.len() - j,
    {
        let d = agent_gap(&agents[i], &agents[j]);
        if is_ready_to_mate(&agents[j]) && d < MATING_DISTANCE * MATING_DISTANCE {
            let closer = match best {
                None => true,
                Some(_) => d < best_d,
            };
            if closer {
                best = Some(j);
                best_d = d;
            }
        }
        j = j + 1;
    }
    proof {
        match best {
            Some(b) => {
                lemma_partner_is(agents@, i as int, b as int);
            },
            None => {
                assert(!exists|c: int| is_partner(agents@, i as int, c));
            },
        }
    }
    best
}

} // verus!
