//! One tick of the world, phase by phase: food regrows, every agent acts in
//! registry order, infections take hold, prey pair up, and the dead are
//! removed. Each phase is stated as a spec function and implemented to match.
use vstd::prelude::*;
use crate::agent::{
    agent_live, agent_valid, fed, gap, in_bounds, may_start_pairing, metabolize, ready_to_mate,
    traits_valid, Agent,
    Kind, MATING_COST, MATING_DISTANCE, PREDATOR_ENERGY,
};
use crate::behavior::{all_in_bounds, decide, intent_of, Intent};
use crate::movement::{desired, desired_move, resolve_move, resolved, WANDER_SPAN};
use crate::reproduction::{
    child_of, find_partner, is_partner, mate, mutation_ok, paid, partner_of, Mutation,
};
use crate::terrain::{
    cell_at, cell_coord, cell_index, fertility_of, fertility_permille, grid_ok, line_of, Cell,
    FOOD_SPAWN, MAX_GRID,
};

verus! {

/// Chance, in thousandths, that a spawn attempt is made at all.
pub const SPAWN_CHANCE: u64 = 800;
/// Spawn attempts per tick.
pub const SPAWN_ATTEMPTS: usize = 3;

/// The random values of one food spawn attempt: whether it is made (`roll`
/// below the spawn chance), the cell, and whether food appears there
/// (`chance` below the cell's fertility). Rolls are in thousandths.
#[derive(Clone, Copy, Debug, PartialEq, Eq, Structural)]
pub struct SpawnDraw {
    pub roll: u64,
    pub x: usize,
    pub y: usize,
    pub chance: u64,
}

/// All random values one tick uses: the spawn attempts, one wandering
/// direction per agent, and one mutation per agent (used when that agent is
/// the first parent of a pair).
#[derive(Debug)]
pub struct TickDraws {
    pub spawns: Vec<SpawnDraw>,
    pub wander: Vec<(i64, i64)>,
    pub mutations: Vec<Mutation>,
}

/// The draws fit a tick of a world of side `size` holding `n` agents:
/// a fixed number of spawn attempts, each with rolls in thousandths and a
/// cell inside the grid, and one wander direction and one mutation per agent.
pub open spec fn draws_ok(d: TickDraws, n: int, size: int) -> bool {
    &&& d.spawns@.len() == SPAWN_ATTEMPTS
    &&& forall|k: int|
        0 <= k < d.spawns@.len() ==> (#[trigger] d.spawns@[k]).roll < 1000 && d.spawns@[k].chance
            < 1000 && d.spawns@[k].x < size && d.spawns@[k].y < size
    &&& d.wander@.len() == n
    &&& d.mutations@.len() == n
    &&& forall|k: int|
        0 <= k < n ==> -WANDER_SPAN <= (#[trigger] d.wander@[k]).0 <= WANDER_SPAN && -WANDER_SPAN
            <= d.wander@[k].1 <= WANDER_SPAN
    &&& forall|k: int| 0 <= k < n ==> mutation_ok(#[trigger] d.mutations@[k])
}

/// A cell after one successful spawn: food grows by a fixed amount,
/// saturating.
pub open spec fn sprouted(c: Cell) -> Cell {
    Cell {
        food: if c.food + FOOD_SPAWN <= u64::MAX {
            (c.food + FOOD_SPAWN) as u64
        } else {
            u64::MAX
        },
        ..c
    }
}

/// The grid after spawn attempt `s`.
pub open spec fn spawn_once(cells: Seq<Cell>, size: int, s: SpawnDraw) -> Seq<Cell> {
    if s.roll < SPAWN_CHANCE && s.x < size && s.y < size && s.chance < fertility_of(
        cell_at(cells, size, s.x as int, s.y as int).terrain,
    ) {
        cells.update(s.x * size + s.y, sprouted(cell_at(cells, size, s.x as int, s.y as int)))
    } else {
        cells
    }
}

/// The grid after the spawn attempts `spawns`, in order.
pub open spec fn regrown(cells: Seq<Cell>, size: int, spawns: Seq<SpawnDraw>) -> Seq<Cell>
    decreases spawns.len(),
{
    if spawns.len() == 0 {
        cells
    } else {
        spawn_once(regrown(cells, size, spawns.drop_last()), size, spawns.last())
    }
}

/// Runs the spawn attempts of one tick.
pub fn regenerate(cells: &mut Vec<Cell>, size: usize, spawns: &Vec<SpawnDraw>)
    requires
        grid_ok(old(cells)@, size as int),
    ensures
        final(cells)@ == regrown(old(cells)@, size as int, spawns@),
        grid_ok(final(cells)@, size as int),
{
    let ghost start = cells@;
    let mut k: usize = 0;
    while k < spawns.len()
        invariant
            k <= spawns.len(),
            grid_ok(cells@, size as int),
            cells@ == regrown(start, size as int, spawns@.take(k as int)),
        decreases spawns.len() - k,
    {
        let s = spawns[k];
        proof {
            assert(spawns@.take(k + 1).drop_last() =~= spawns@.take(k as int));
        }
        if s.roll < SPAWN_CHANCE && s.x < size && s.y < size {
            let idx = cell_index(cells, size, s.x, s.y);
            if s.chance < fertility_permille(cells[idx].terrain) {
                let mut c = cells[idx];
                c.add_food();
                cells.set(idx, c);
            }
        }
        k = k + 1;
    }
    proof {
        assert(spawns@.take(spawns@.len() as int) =~= spawns@);
    }
}

/// Agent `a` one tick closer to the end of its cooldown.
pub open spec fn rested(a: Agent) -> Agent {
    if a.cooldown > 0 {
        Agent { cooldown: (a.cooldown - 1) as u64, ..a }
    } else {
        a
    }
}

/// Predator `i` infects agent `j`: a prey closer than the mating distance,
/// and off cooldown when `needs_rest` asks for it.
pub open spec fn infects(agents: Seq<Agent>, i: int, j: int, needs_rest: bool) -> bool {
    &&& agents[j].kind == Kind::Prey
    &&& gap(agents[i], agents[j]) < MATING_DISTANCE * MATING_DISTANCE
    &&& (!needs_rest || agents[j].cooldown == 0)
}

/// The infection marks after agent `i` has looked around.
pub open spec fn tagged(agents: Seq<Agent>, marked: Seq<bool>, i: int, needs_rest: bool) -> Seq<
    bool,
> {
    if agents[i].kind == Kind::Predator {
        Seq::new(marked.len(), |j: int| marked[j] || infects(agents, i, j, needs_rest))
    } else {
        marked
    }
}

/// The state of a tick in progress: agents, cells and infection marks.
pub type Scene = (Seq<Agent>, Seq<Cell>, Seq<bool>);

/// The scene after agent `i` takes its turn, wandering along `w` if it has
/// no target: its cooldown ticks down, it decides, marks the prey it infects
/// if it is a predator, moves, and then pays its upkeep and eats.
pub open spec fn acted(s: Scene, size: int, i: int, w: (i64, i64), needs_rest: bool) -> Scene {
    let agents = s.0.update(i, rested(s.0[i]));
    let cells = s.1;
    let a = agents[i];
    let t = intent_of(agents, cells, size, i);
    let marked = tagged(agents, s.2, i, needs_rest);
    let d = desired(t, a, cells, size, w.0 as int, w.1 as int);
    let p = resolved(cells, size, a, t is Flee, d.0, d.1);
    let moved = Agent { x: p.0 as i64, y: p.1 as i64, ..a };
    let k = cell_coord(p.0, size) * size + cell_coord(p.1, size);
    let after = fed(moved, cells[k]);
    (agents.update(i, after.0), cells.update(k, after.1), marked)
}

/// The scene after the first `n` agents have taken their turns.
pub open spec fn behaved(
    s: Scene,
    size: int,
    wander: Seq<(i64, i64)>,
    needs_rest: bool,
    n: nat,
) -> Scene
    decreases n,
{
    if n == 0 {
        s
    } else {
        acted(
            behaved(s, size, wander, needs_rest, (n - 1) as nat),
            size,
            n - 1,
            wander[n - 1],
            needs_rest,
        )
    }
}

/// Marks the prey that predator `i` infects.
fn tag_infections(agents: &Vec<Agent>, marked: &mut Vec<bool>, i: usize, needs_rest: bool)
    requires
        i < agents.len(),
        old(marked).len() == agents.len(),
        all_in_bounds(agents@, MAX_GRID as int),
    ensures
        final(marked)@ == tagged(agents@, old(marked)@, i as int, needs_rest),
        forall|k: int|
            0 <= k < final(marked).len() && #[trigger] final(marked)[k] ==> old(marked)[k]
                || agents[k].kind == Kind::Prey,
{
    if agents[i].kind != Kind::Predator {
        return;
    }
    let ghost start = marked@;
    let mut j: usize = 0;
    while j < agents.len()
        invariant
            i < agents.len(),
            j <= agents.len(),
            marked.len() == agents.len(),
            start.len() == agents.len(),
            agents[i as int].kind == Kind::Predator,
            all_in_bounds(agents@, MAX_GRID as int),
            forall|k: int|
                0 <= k < j ==> #[trigger] marked@[k] == (start[k] || infects(
                    agents@,
                    i as int,
                    k,
                    needs_rest,
                )),
            forall|k: int| j <= k < agents.len() ==> #[trigger] marked@[k] == start[k],
        decreases agents.len() - j,
    {
        let b = agents[j];
        if b.kind == Kind::Prey && (!needs_rest || b.cooldown == 0) {
            let d = crate::agent::agent_gap(&agents[i], &b);
            if d < MATING_DISTANCE * MATING_DISTANCE {
                marked.set(j, true);
            }
        }
        j = j + 1;
    }
    proof {
        assert(marked@ =~= tagged(agents@, start, i as int, needs_rest));
    }
}

/// Agent `i` takes its turn.
pub fn act(
    agents: &mut Vec<Agent>,
    cells: &mut Vec<Cell>,
    marked: &mut Vec<bool>,
    size: usize,
    i: usize,
    w: (i64, i64),
    needs_rest: bool,
)
    requires
        i < old(agents).len(),
        old(marked).len() == old(agents).len(),
        grid_ok(old(cells)@, size as int),
        all_in_bounds(old(agents)@, size as int),
        agent_valid(old(agents)[i as int], size as int),
        forall|k: int| 0 <= k < old(agents).len() ==> traits_valid(#[trigger] old(agents)[k]),
        -WANDER_SPAN <= w.0 <= WANDER_SPAN,
        -WANDER_SPAN <= w.1 <= WANDER_SPAN,
    ensures
        (final(agents)@, final(cells)@, final(marked)@) == acted(
            (old(agents)@, old(cells)@, old(marked)@),
            size as int,
            i as int,
            w,
            needs_rest,
        ),
        final(agents).len() == old(agents).len(),
        final(marked).len() == old(marked).len(),
        grid_ok(final(cells)@, size as int),
        agent_live(final(agents)[i as int], size as int),
        old(agents)[i as int].kind == Kind::Predator ==> final(agents)[i as int].energy == old(
            agents,
        )[i as int].energy,
        forall|k: int|
            0 <= k < final(marked).len() && #[trigger] final(marked)[k] ==> old(marked)[k] || old(
                agents,
            )[k].kind == Kind::Prey,
{
    let ghost s0 = (agents@, cells@, marked@);
    let mut a = agents[i];
    if a.cooldown > 0 {
        a.cooldown = a.cooldown - 1;
    }
    agents.set(i, a);
    proof {
        assert forall|k: int| 0 <= k < agents.len() implies in_bounds(
            #[trigger] agents@[k],
            MAX_GRID as int,
        ) by {
            assert(in_bounds(agents@[k], size as int));
        }
    }
    let t = decide(agents, cells, size, i);
    tag_infections(agents, marked, i, needs_rest);
    let fleeing = match t {
        Intent::Flee { .. } => true,
        _ => false,
    };
    let (dx, dy) = desired_move(t, &a, cells, size, w.0, w.1);
    let (nx, ny) = resolve_move(cells, size, &a, fleeing, dx, dy);
    a.x = nx;
    a.y = ny;
    let idx = cell_index(cells, size, line_of(nx, size), line_of(ny, size));
    let mut c = cells[idx];
    metabolize(&mut a, &mut c);
    agents.set(i, a);
    cells.set(idx, c);
}

/// Every agent takes its turn, in registry order; each sees the positions
/// of those before it as already updated.
pub fn behave(
    agents: &mut Vec<Agent>,
    cells: &mut Vec<Cell>,
    marked: &mut Vec<bool>,
    size: usize,
    wander: &Vec<(i64, i64)>,
    needs_rest: bool,
)
    requires
        old(marked).len() == old(agents).len(),
        wander.len() == old(agents).len(),
        grid_ok(old(cells)@, size as int),
        forall|k: int| 0 <= k < old(agents).len() ==> agent_valid(#[trigger] old(agents)[k], size as int),
        forall|k: int|
            0 <= k < wander.len() ==> -WANDER_SPAN <= (#[trigger] wander@[k]).0 <= WANDER_SPAN
                && -WANDER_SPAN <= wander@[k].1 <= WANDER_SPAN,
    ensures
        (final(agents)@, final(cells)@, final(marked)@) == behaved(
            (old(agents)@, old(cells)@, old(marked)@),
            size as int,
            wander@,
            needs_rest,
            old(agents).len() as nat,
        ),
        final(agents).len() == old(agents).len(),
        final(marked).len() == old(agents).len(),
        grid_ok(final(cells)@, size as int),
        forall|k: int| 0 <= k < final(agents).len() ==> agent_live(#[trigger] final(agents)[k], size as int),
        forall|k: int|
            0 <= k < final(agents).len() ==> (#[trigger] final(agents)[k]).id == old(agents)[k].id
                && final(agents)[k].kind == old(agents)[k].kind,
        forall|k: int|
            0 <= k < final(agents).len() && old(agents)[k].kind == Kind::Predator ==> (
            #[trigger] final(agents)[k]).energy == old(agents)[k].energy,
        forall|k: int|
            0 <= k < final(marked).len() && #[trigger] final(marked)[k] ==> old(marked)[k] || old(
                agents,
            )[k].kind == Kind::Prey,
{
    let ghost m0 = marked@;
    let ghost s0 = (agents@, cells@, marked@);
    let ghost a0 = agents@;
    let n = agents.len();
    let mut i: usize = 0;
    while i < n
        invariant
            n == agents.len(),
            n == a0.len(),
            i <= n,
            marked.len() == n,
            wander.len() == n,
            grid_ok(cells@, size as int),
            (agents@, cells@, marked@) == behaved(s0, size as int, wander@, needs_rest, i as nat),
            forall|k: int| 0 <= k < i ==> agent_live(#[trigger] agents[k], size as int),
            forall|k: int| i <= k < n ==> #[trigger] agents[k] == a0[k],
            forall|k: int| 0 <= k < n ==> agent_valid(#[trigger] a0[k], size as int),
            forall|k: int|
                0 <= k < n ==> (#[trigger] agents[k]).id == a0[k].id && agents[k].kind == a0[k].kind,
            forall|k: int|
                0 <= k < n && a0[k].kind == Kind::Predator ==> (#[trigger] agents[k]).energy
                    == a0[k].energy,
            m0.len() == n,
            forall|k: int| 0 <= k < n && #[trigger] marked@[k] ==> m0[k] || a0[k].kind == Kind::Prey,
            forall|k: int|
                0 <= k < wander.len() ==> -WANDER_SPAN <= (#[trigger] wander@[k]).0 <= WANDER_SPAN
                    && -WANDER_SPAN <= wander@[k].1 <= WANDER_SPAN,
        decreases n - i,
    {
        proof {
            assert forall|k: int| 0 <= k < n implies in_bounds(#[trigger] agents@[k], size as int)
                && traits_valid(agents@[k]) by {
                if k < i {
                    assert(agent_live(agents[k], size as int));
                } else {
                    assert(agent_valid(a0[k], size as int));
                }
            }
            assert(agent_valid(a0[i as int], size as int));
        }
        let ghost before = agents@;
        let ghost mbefore = marked@;
        act(agents, cells, marked, size, i, wander[i], needs_rest);
        proof {
            assert forall|k: int| 0 <= k < n && k != i implies #[trigger] agents[k] == before[k] by {}
            assert forall|k: int| 0 <= k < n && #[trigger] marked@[k] implies m0[k] || a0[k].kind
                == Kind::Prey by {
                if mbefore[k] {
                } else {
                    assert(before[k].kind == a0[k].kind);
                }
            }
        }
        i = i + 1;
    }
}

/// Agents after the marked ones turn into predators with predator energy.
pub open spec fn infected(agents: Seq<Agent>, marked: Seq<bool>) -> Seq<Agent> {
    Seq::new(
        agents.len(),
        |k: int|
            if marked[k] {
                Agent { kind: Kind::Predator, energy: PREDATOR_ENERGY, ..agents[k] }
            } else {
                agents[k]
            },
    )
}

/// Turns every marked agent into a predator, once however often it was
/// marked.
pub fn infect(agents: &mut Vec<Agent>, marked: &Vec<bool>)
    requires
        marked.len() == old(agents).len(),
    ensures
        final(agents)@ == infected(old(agents)@, marked@),
{
    let ghost a0 = agents@;
    let mut k: usize = 0;
    while k < agents.len()
        invariant
            k <= agents.len(),
            marked.len() == agents.len(),
            a0.len() == agents.len(),
            forall|q: int| 0 <= q < k ==> #[trigger] agents[q] == infected(a0, marked@)[q],
            forall|q: int| k <= q < agents.len() ==> #[trigger] agents[q] == a0[q],
        decreases agents.len() - k,
    {
        if marked[k] {
            let mut a = agents[k];
            a.kind = Kind::Predator;
            a.energy = PREDATOR_ENERGY;
            agents.set(k, a);
        }
        k = k + 1;
    }
    proof {
        assert(agents@ =~= infected(a0, marked@));
    }
}

/// The state of the pairing phase: agents, newborns so far, and the next
/// free identifier.
pub type Brood = (Seq<Agent>, Seq<Agent>, u64);

/// The brood after agent `i` looks for a partner: when it is a prey off
/// cooldown whose energy is not below the threshold,
/// has a partner and an identifier is left, both parents pay and one
/// offspring is born, mutated by `m`.
pub open spec fn pair_step(b: Brood, i: int, m: Mutation) -> Brood {
    let agents = b.0;
    if may_start_pairing(agents[i]) && b.2 < u64::MAX {
        match partner_of(agents, i) {
            Some(j) => (
                agents.update(i, paid(agents[i])).update(j, paid(agents[j])),
                b.1.push(child_of(agents[i], agents[j], m, b.2)),
                (b.2 + 1) as u64,
            ),
            None => b,
        }
    } else {
        b
    }
}

/// The brood after the first `n` agents have looked for partners.
pub open spec fn paired(b: Brood, mutations: Seq<Mutation>, n: nat) -> Brood
    decreases n,
{
    if n == 0 {
        b
    } else {
        pair_step(paired(b, mutations, (n - 1) as nat), n - 1, mutations[n - 1])
    }
}

/// A pairing step either changes nothing, or agent `i` mates with its
/// partner `j`: each pays exactly the mating cost, and exactly one offspring
/// is born, a prey whose traits are the clamped (and possibly mutated) means
/// of its parents' and lie in their valid ranges.
pub proof fn lemma_mating_conserves(b: Brood, i: int, m: Mutation)
    requires
        0 <= i < b.0.len(),
        mutation_ok(m),
        forall|k: int| 0 <= k < b.0.len() ==> traits_valid(#[trigger] b.0[k]),
    ensures
        pair_step(b, i, m) == b || ({
            let r = pair_step(b, i, m);
            let j = partner_of(b.0, i).unwrap();
            &&& partner_of(b.0, i).is_some()
            &&& i < j < b.0.len()
            &&& r.0.len() == b.0.len()
            &&& r.0[i].energy == b.0[i].energy - MATING_COST
            &&& r.0[j].energy == b.0[j].energy - MATING_COST
            &&& r.1.len() == b.1.len() + 1
            &&& r.1.last() == child_of(b.0[i], b.0[j], m, b.2)
            &&& r.1.last().kind == Kind::Prey
            &&& traits_valid(r.1.last())
            &&& forall|k: int| 0 <= k < b.0.len() && k != i && k != j ==> #[trigger] r.0[k] == b.0[k]
        }),
{
    if may_start_pairing(b.0[i]) && b.2 < u64::MAX {
        if let Some(j) = partner_of(b.0, i) {
            let c = choose|c: int| is_partner(b.0, i, c);
            assert(is_partner(b.0, i, c));
            assert(j == c);
            let r = pair_step(b, i, m);
            assert(r.1.last() == child_of(b.0[i], b.0[j], m, b.2));
            assert(traits_valid(b.0[j]));
        }
    }
}

/// Pairs up the prey, in registry order, and returns the newborns with the
/// next free identifier.
pub fn pair_up(agents: &mut Vec<Agent>, mutations: &Vec<Mutation>, next_id: u64, size: usize) -> (r: (
    Vec<Agent>,
    u64,
))
    requires
        1 <= size <= MAX_GRID,
        mutations.len() == old(agents).len(),
        forall|k: int| 0 <= k < mutations.len() ==> mutation_ok(#[trigger] mutations@[k]),
        forall|k: int| 0 <= k < old(agents).len() ==> agent_live(#[trigger] old(agents)[k], size as int),
    ensures
        (final(agents)@, r.0@, r.1) == paired((old(agents)@, seq![], next_id), mutations@, old(agents).len() as nat),
        final(agents).len() == old(agents).len(),
        forall|k: int| 0 <= k < final(agents).len() ==> agent_live(#[trigger] final(agents)[k], size as int),
        forall|k: int|
            0 <= k < final(agents).len() ==> (#[trigger] final(agents)[k]).id == old(agents)[k].id
                && final(agents)[k].kind == old(agents)[k].kind,
        forall|k: int|
            0 <= k < final(agents).len() && old(agents)[k].kind == Kind::Predator ==> (
            #[trigger] final(agents)[k]).energy == old(agents)[k].energy,
        r.1 == next_id + r.0.len(),
        forall|q: int|
            0 <= q < r.0.len() ==> agent_valid(#[trigger] r.0[q], size as int) && r.0[q].kind
                == Kind::Prey && r.0[q].id == next_id + q,
{
    let ghost a0 = agents@;
    let n = agents.len();
    let mut born: Vec<Agent> = Vec::new();
    let mut id = next_id;
    let mut i: usize = 0;
    while i < n
        invariant
            n == agents.len(),
            n == a0.len(),
            n == mutations.len(),
            i <= n,
            1 <= size <= MAX_GRID,
            forall|k: int| 0 <= k < mutations.len() ==> mutation_ok(#[trigger] mutations@[k]),
            (agents@, born@, id) == paired((a0, seq![], next_id), mutations@, i as nat),
            forall|k: int| 0 <= k < n ==> agent_live(#[trigger] agents[k], size as int),
            forall|k: int|
                0 <= k < n ==> (#[trigger] agents[k]).id == a0[k].id && agents[k].kind == a0[k].kind,
            id == next_id + born.len(),
            forall|q: int|
                0 <= q < born.len() ==> agent_valid(#[trigger] born[q], size as int) && born[q].kind
                    == Kind::Prey && born[q].id == next_id + q,
            forall|k: int|
                0 <= k < n && a0[k].kind == Kind::Predator ==> (#[trigger] agents[k]).energy
                    == a0[k].energy,
        decreases n - i,
    {
        let ghost before = (agents@, born@, id);
        proof {
            assert forall|k: int| 0 <= k < n implies in_bounds(#[trigger] agents@[k], MAX_GRID as int) by {
                assert(agent_live(agents[k], size as int));
            }
        }
        if crate::agent::can_start_pairing(&agents[i]) && id < u64::MAX {
            match find_partner(agents, i) {
                Some(j) => {
                    let mut a = agents[i];
                    let mut b = agents[j];
                    proof {
                        assert(crate::reproduction::can_pair(agents@, i as int, j as int));
                        assert(agent_live(a, size as int));
                        assert(agent_live(b, size as int));
                    }
                    let child = mate(&mut a, &mut b, &mutations[i], id);
                    agents.set(i, a);
                    agents.set(j, b);
                    born.push(child);
                    id = id + 1;
                },
                None => {},
            }
        }
        proof {
            assert((agents@, born@, id) == pair_step(before, i as int, mutations@[i as int]));
        }
        i = i + 1;
    }
    (born, id)
}

/// The agents of `s` that still have energy, in order.
pub open spec fn survivors_of(s: Seq<Agent>) -> Seq<Agent> {
    s.filter(|a: Agent| a.energy > 0)
}

/// Identifiers strictly increase along `s`.
pub open spec fn ids_increasing(s: Seq<Agent>) -> bool {
    forall|p: int, q: int| 0 <= p < q < s.len() ==> (#[trigger] s[p]).id < (#[trigger] s[q]).id
}

/// Keeps the agents of `all` that still have energy, in order.
pub fn survivors(all: Vec<Agent>) -> (r: Vec<Agent>)
    ensures
        r@ == survivors_of(all@),
        forall|q: int| 0 <= q < r.len() ==> (#[trigger] r[q]).energy > 0,
        forall|q: int| 0 <= q < r.len() ==> all@.contains(#[trigger] r@[q]),
        forall|m: int| 0 <= m < all.len() && (#[trigger] all@[m]).energy > 0 ==> r@.contains(all@[m]),
        ids_increasing(all@) ==> ids_increasing(r@),
{
    let mut r: Vec<Agent> = Vec::new();
    let ghost mut src: Seq<int> = seq![];
    let mut k: usize = 0;
    while k < all.len()
        invariant
            k <= all.len(),
            r@ == survivors_of(all@.take(k as int)),
            src.len() == r.len(),
            forall|q: int| 0 <= q < r.len() ==> 0 <= #[trigger] src[q] < k && all[src[q]] == r[q],
            forall|p: int, q: int| 0 <= p < q < r.len() ==> #[trigger] src[p] < #[trigger] src[q],
            forall|q: int| 0 <= q < r.len() ==> (#[trigger] r[q]).energy > 0,
            forall|m: int| 0 <= m < k && (#[trigger] all@[m]).energy > 0 ==> r@.contains(all@[m]),
        decreases all.len() - k,
    {
        proof {
            reveal_with_fuel(Seq::filter, 1);
            assert(all@.take(k + 1).drop_last() =~= all@.take(k as int));
        }
        let ghost rb = r@;
        if all[k].energy > 0 {
            r.push(all[k]);
            proof {
                src = src.push(k as int);
                assert(r@[r@.len() - 1] == all@[k as int]);
            }
        }
        proof {
            assert forall|m: int| 0 <= m < k + 1 && (#[trigger] all@[m]).energy > 0 implies r@.contains(
                all@[m],
            ) by {
                if m < k {
                    let q = choose|q: int| 0 <= q < rb.len() && rb[q] == all@[m];
                    assert(r@[q] == all@[m]);
                }
            }
        }
        k = k + 1;
    }
    proof {
        assert(all@.take(all.len() as int) =~= all@);
        assert forall|q: int| 0 <= q < r.len() implies all@.contains(#[trigger] r@[q]) by {
            assert(all@[src[q]] == r@[q]);
        }
        if ids_increasing(all@) {
            assert forall|p: int, q: int| 0 <= p < q < r.len() implies (#[trigger] r@[p]).id < (
            #[trigger] r@[q]).id by {
                assert(src[p] < src[q]);
                assert(all@[src[p]] == r@[p]);
                assert(all@[src[q]] == r@[q]);
            }
        }
    }
    r
}

} // verus!
