//! The world: a terrain grid, the agent registry, and the generator that
//! drives every random choice. One `step` advances it by one tick.
use vstd::prelude::*;
use rand::rngs::StdRng;
use crate::agent::{
    agent_live, agent_valid, in_bounds, Agent, Kind, COOLDOWN_TIME, PREDATOR_ENERGY, SPEED_MAX,
    SPEED_MIN, TRAIT_MAX, VISION_MAX, VISION_MIN,
};
use crate::geometry::UNIT;
use crate::random::{draw_below, seeded};
use crate::reproduction::{Mutation, MUTATION_CHANCE, MUTATION_HIGH, MUTATION_LOW};
use crate::terrain::{cell_index, classify, grid_ok, terrain_of_noise, Cell, Terrain, MAX_GRID};
use crate::tick::{
    behave, behaved, draws_ok, ids_increasing, infect, infected, pair_up, paired, regenerate,
    regrown, survivors, survivors_of, SpawnDraw, TickDraws, SPAWN_ATTEMPTS,
};
use crate::movement::WANDER_SPAN;

verus! {

/// What a world holds, as seen by contracts.
pub struct WorldState {
    pub size: int,
    pub cells: Seq<Cell>,
    pub agents: Seq<Agent>,
    pub next_id: u64,
    pub needs_rest: bool,
}

/// A world of `size` by `size` cells and the agents living in it.
pub struct World {
    size: usize,
    cells: Vec<Cell>,
    agents: Vec<Agent>,
    next_id: u64,
    needs_rest: bool,
    rng: StdRng,
}

/// A read-only copy of a world, for display.
#[derive(Debug)]
pub struct Snapshot {
    pub size: usize,
    pub cells: Vec<Cell>,
    pub agents: Vec<Agent>,
}

/// Energy of a prey placed at the start.
pub const START_ENERGY: i64 = 100_000;
/// Lowest speed gene of a prey placed at the start.
pub const START_SPEED_LOW: i64 = 120;
/// Bound (excluded) on the speed gene of a prey placed at the start.
pub const START_SPEED_HIGH: i64 = 220;
/// Lowest vision gene of a prey placed at the start.
pub const START_VISION_LOW: i64 = 10_000;
/// Bound (excluded) on the vision gene of a prey placed at the start.
pub const START_VISION_HIGH: i64 = 20_000;

/// Health of a prey placed at the start.
pub const START_HEALTH: i64 = 100_000;
/// Damage of a prey placed at the start.
pub const START_DAMAGE: i64 = 10_000;
/// Speed gene of a predator placed at the start.
pub const HUNTER_SPEED: i64 = 150;
/// Vision gene of a predator placed at the start.
pub const HUNTER_VISION: i64 = 15_000;
/// Health of a predator placed at the start.
pub const HUNTER_HEALTH: i64 = 300_000;
/// Damage of a predator placed at the start.
pub const HUNTER_DAMAGE: i64 = 20_000;

/// Agent `a` stands on ground other than ocean.
pub open spec fn on_land(cells: Seq<Cell>, size: int, a: Agent) -> bool {
    crate::movement::ground_of(cells, size, a) != Terrain::Ocean
}

/// The invariant of a world between ticks: a square grid, every agent alive,
/// in bounds and with valid traits, and identifiers strictly increasing and
/// below the next one to hand out.
pub open spec fn world_ok(w: WorldState) -> bool {
    &&& grid_ok(w.cells, w.size)
    &&& forall|k: int| 0 <= k < w.agents.len() ==> agent_valid(#[trigger] w.agents[k], w.size)
    &&& ids_increasing(w.agents)
    &&& forall|k: int| 0 <= k < w.agents.len() ==> (#[trigger] w.agents[k]).id < w.next_id
}

/// The world after one tick driven by the draws `d`.
pub open spec fn ticked(w: WorldState, d: TickDraws) -> WorldState {
    let n = w.agents.len();
    let cells = regrown(w.cells, w.size, d.spawns@);
    let s = behaved(
        (w.agents, cells, Seq::new(n, |k: int| false)),
        w.size,
        d.wander@,
        w.needs_rest,
        n,
    );
    let b = paired((infected(s.0, s.2), seq![], w.next_id), d.mutations@, n);
    WorldState {
        size: w.size,
        cells: s.1,
        agents: survivors_of(b.0 + b.1),
        next_id: b.2,
        needs_rest: w.needs_rest,
    }
}

impl View for World {
    type V = WorldState;

    closed spec fn view(&self) -> WorldState {
        WorldState {
            size: self.size as int,
            cells: self.cells@,
            agents: self.agents@,
            next_id: self.next_id,
            needs_rest: self.needs_rest,
        }
    }
}

impl World {
    /// The world's invariant holds.
    pub open spec fn wf(&self) -> bool {
        world_ok(self@)
    }

    /// An empty world of side `size` whose terrain comes from `noise`, one
    /// sample in thousandths per cell, row by row along x. Infection spares
    /// prey on cooldown when `needs_rest` is set. `None` when the size is
    /// zero or too large, or the samples do not fill the grid.
    pub fn from_noise(seed: u64, size: usize, noise: &Vec<i64>, needs_rest: bool) -> (r: Option<World>)
        ensures
            r.is_some() <==> 1 <= size <= MAX_GRID && noise.len() == size * size,
            r.is_some() ==> {
                let w = r.unwrap();
                &&& w.wf()
                &&& w@.size == size
                &&& w@.agents.len() == 0
                &&& w@.next_id == 0
                &&& w@.needs_rest == needs_rest
                &&& forall|k: int|
                    0 <= k < w@.cells.len() ==> #[trigger] w@.cells[k] == (Cell {
                        terrain: terrain_of_noise(noise@[k] as int),
                        food: 0,
                    })
            },
    {
        if size == 0 || size > MAX_GRID {
            return None;
        }
        assert((size as u64) * (size as u64) <= (MAX_GRID as u64) * (MAX_GRID as u64)) by (nonlinear_arith)
            requires
                size <= MAX_GRID,
        ;
        if noise.len() as u64 != (size as u64) * (size as u64) {
            return None;
        }
        let mut cells: Vec<Cell> = Vec::new();
        let mut k: usize = 0;
        while k < noise.len()
            invariant
                k <= noise.len(),
                cells.len() == k,
                forall|q: int|
                    0 <= q < k ==> #[trigger] cells@[q] == (Cell {
                        terrain: terrain_of_noise(noise@[q] as int),
                        food: 0,
                    }),
            decreases noise.len() - k,
        {
            cells.push(Cell { terrain: classify(noise[k]), food: 0 });
            k = k + 1;
        }
        Some(World { size, cells, agents: Vec::new(), next_id: 0, needs_rest, rng: seeded(seed) })
    }

    /// Side length of the grid.
    pub fn size(&self) -> (r: usize)
        ensures
            r == self@.size,
    {
        self.size
    }

    /// Number of living agents.
    pub fn agent_count(&self) -> (r: usize)
        ensures
            r == self@.agents.len(),
    {
        self.agents.len()
    }

    /// The agent at registry position `i`.
    pub fn agent(&self, i: usize) -> (r: Option<Agent>)
        ensures
            r == if i < self@.agents.len() {
                Some(self@.agents[i as int])
            } else {
                None::<Agent>
            },
    {
        if i < self.agents.len() {
            Some(self.agents[i])
        } else {
            None
        }
    }

    /// The cell at column `x` and row `y`.
    pub fn cell(&self, x: usize, y: usize) -> (r: Option<Cell>)
        requires
            self.wf(),
        ensures
            r == if x < self@.size && y < self@.size {
                Some(self@.cells[x * self@.size + y])
            } else {
                None::<Cell>
            },
    {
        if x < self.size && y < self.size {
            Some(self.cells[cell_index(&self.cells, self.size, x, y)])
        } else {
            None
        }
    }

    /// Sets the food on the cell at column `x` and row `y`; `false` when the
    /// cell lies outside the grid.
    pub fn set_food(&mut self, x: usize, y: usize, amount: u64) -> (r: bool)
        requires
            old(self).wf(),
        ensures
            final(self).wf(),
            r == (x < old(self)@.size && y < old(self)@.size),
            final(self)@ == (if r {
                WorldState {
                    cells: old(self)@.cells.update(
                        x * old(self)@.size + y,
                        Cell { food: amount, ..old(self)@.cells[x * old(self)@.size + y] },
                    ),
                    ..old(self)@
                }
            } else {
                old(self)@
            }),
    {
        if x < self.size && y < self.size {
            let idx = cell_index(&self.cells, self.size, x, y);
            let mut c = self.cells[idx];
            c.food = amount;
            self.cells.set(idx, c);
            true
        } else {
            false
        }
    }

    /// Adds `a` to the registry under the next free identifier, which it
    /// returns. `None`, and no change, when `a` would not be a valid agent of
    /// this world or no identifier is left.
    pub fn add_agent(&mut self, a: Agent) -> (r: Option<u64>)
        requires
            old(self).wf(),
        ensures
            final(self).wf(),
            r.is_some() <==> agent_valid((Agent { id: old(self)@.next_id, ..a }), old(self)@.size)
                && old(self)@.next_id < u64::MAX,
            r.is_some() ==> r.unwrap() == old(self)@.next_id && final(self)@ == (WorldState {
                agents: old(self)@.agents.push(Agent { id: old(self)@.next_id, ..a }),
                next_id: (old(self)@.next_id + 1) as u64,
                ..old(self)@
            }),
            r.is_none() ==> final(self)@ == old(self)@,
    {
        let top: i64 = (self.size as i64 - 1) * UNIT;
        let placed_ok = 0 <= a.x && a.x <= top && 0 <= a.y && a.y <= top;
        let energy_ok = 0 < a.energy && a.energy <= PREDATOR_ENERGY && a.cooldown <= COOLDOWN_TIME;
        let genes_ok = SPEED_MIN <= a.speed_gene && a.speed_gene <= SPEED_MAX && VISION_MIN
            <= a.vision_gene && a.vision_gene <= VISION_MAX;
        let dormant_ok = 0 <= a.health && a.health <= TRAIT_MAX && 0 <= a.damage && a.damage
            <= TRAIT_MAX;
        let ok = placed_ok && energy_ok && genes_ok && dormant_ok;
        if !ok || self.next_id == u64::MAX {
            return None;
        }
        let id = self.next_id;
        self.agents.push(Agent { id, ..a });
        self.next_id = id + 1;
        Some(id)
    }

    /// A read-only copy of the grid and the agents.
    pub fn snapshot(&self) -> (r: Snapshot)
        ensures
            r.size == self@.size,
            r.cells@ == self@.cells,
            r.agents@ == self@.agents,
    {
        let mut cells: Vec<Cell> = Vec::new();
        let mut k: usize = 0;
        while k < self.cells.len()
            invariant
                k <= self.cells.len(),
                cells@ == self.cells@.take(k as int),
            decreases self.cells.len() - k,
        {
            cells.push(self.cells[k]);
            k = k + 1;
            proof {
                assert(cells@ =~= self.cells@.take(k as int));
            }
        }
        let mut agents: Vec<Agent> = Vec::new();
        let mut k: usize = 0;
        while k < self.agents.len()
            invariant
                k <= self.agents.len(),
                agents@ == self.agents@.take(k as int),
            decreases self.agents.len() - k,
        {
            agents.push(self.agents[k]);
            k = k + 1;
            proof {
                assert(agents@ =~= self.agents@.take(k as int));
            }
        }
        proof {
            assert(cells@ =~= self.cells@);
            assert(agents@ =~= self.agents@);
        }
        Snapshot { size: self.size, cells, agents }
    }

    /// Advances the world by one tick driven by the draws `d`: the result is
    /// exactly `ticked`. Every agent left stands inside the grid and has
    /// energy above zero, food never drops below zero, and an agent that was
    /// a predator is a predator still.
    pub fn advance(&mut self, d: &TickDraws)
        requires
            old(self).wf(),
            draws_ok(*d, old(self)@.agents.len() as int, old(self)@.size),
        ensures
            final(self).wf(),
            final(self)@ == ticked(old(self)@, *d),
            forall|k: int|
                0 <= k < final(self)@.agents.len() ==> in_bounds(
                    #[trigger] final(self)@.agents[k],
                    final(self)@.size,
                ),
            forall|k: int|
                0 <= k < final(self)@.agents.len() ==> (#[trigger] final(self)@.agents[k]).energy > 0,
            forall|i: int, j: int|
                0 <= i < old(self)@.agents.len() && 0 <= j < final(self)@.agents.len() && (
                #[trigger] old(self)@.agents[i]).id == (#[trigger] final(self)@.agents[j]).id
                    && old(self)@.agents[i].kind == Kind::Predator ==> final(self)@.agents[j].kind
                    == Kind::Predator,
            forall|i: int|
                0 <= i < old(self)@.agents.len() && (#[trigger] old(self)@.agents[i]).kind
                    == Kind::Predator ==> exists|j: int|
                    0 <= j < final(self)@.agents.len() && (#[trigger] final(self)@.agents[j]).id
                        == old(self)@.agents[i].id && final(self)@.agents[j].kind == Kind::Predator
                        && final(self)@.agents[j].energy == old(self)@.agents[i].energy,
    {
        let ghost w0 = self@;
        let n = self.agents.len();
        regenerate(&mut self.cells, self.size, &d.spawns);
        let mut marked: Vec<bool> = Vec::new();
        let mut k: usize = 0;
        while k < n
            invariant
                k <= n,
                marked@ == Seq::new(k as nat, |q: int| false),
            decreases n - k,
        {
            marked.push(false);
            k = k + 1;
            proof {
                assert(marked@ =~= Seq::new(k as nat, |q: int| false));
            }
        }
        let ghost a0 = self.agents@;
        behave(&mut self.agents, &mut self.cells, &mut marked, self.size, &d.wander, self.needs_rest);
        let ghost a1 = self.agents@;
        infect(&mut self.agents, &marked);
        let ghost a2 = self.agents@;
        proof {
            assert forall|k: int| 0 <= k < n implies agent_live(#[trigger] self.agents@[k], self.size as int)
                && self.agents@[k].id == a0[k].id && (a0[k].kind == Kind::Predator
                ==> self.agents@[k].kind == Kind::Predator && self.agents@[k].energy == a0[k].energy) by {
                assert(agent_live(a1[k], self.size as int));
                if a0[k].kind == Kind::Predator {
                    assert(!marked@[k]);
                }
            }
        }
        let (born, next) = pair_up(&mut self.agents, &d.mutations, self.next_id, self.size);
        let ghost a3 = self.agents@;
        let mut all = self.agents.clone();
        proof {
            assert(all@ =~= a3);
        }
        let mut born = born;
        all.append(&mut born);
        let ghost pre = all@;
        proof {
            assert forall|p: int, q: int| 0 <= p < q < pre.len() implies (#[trigger] pre[p]).id < (
            #[trigger] pre[q]).id by {
                if q < n {
                    assert(w0.agents[p].id < w0.agents[q].id);
                } else if p < n {
                    assert(w0.agents[p].id < w0.next_id);
                }
            }
        }
        let kept = survivors(all);
        self.agents = kept;
        self.next_id = next;
        proof {
            assert(self@.agents == survivors_of(pre));
            assert forall|k: int| 0 <= k < self@.agents.len() implies agent_valid(
                #[trigger] self@.agents[k],
                self.size as int,
            ) && self@.agents[k].id < self.next_id by {
                assert(pre.contains(self@.agents[k]));
                let m = choose|m: int| 0 <= m < pre.len() && pre[m] == self@.agents[k];
                if m < n {
                    assert(agent_live(a3[m], self.size as int));
                    assert(w0.agents[m].id < w0.next_id);
                }
            }
            assert forall|i: int|
                0 <= i < w0.agents.len() && (#[trigger] w0.agents[i]).kind == Kind::Predator
                implies exists|j: int|
                0 <= j < self@.agents.len() && (#[trigger] self@.agents[j]).id == w0.agents[i].id
                    && self@.agents[j].kind == Kind::Predator && self@.agents[j].energy
                    == w0.agents[i].energy by {
                assert(pre[i] == a3[i]);
                assert(agent_valid(w0.agents[i], w0.size));
                assert(pre[i].energy > 0);
                assert(self@.agents.contains(pre[i]));
            }
            assert forall|i: int, j: int|
                0 <= i < w0.agents.len() && 0 <= j < self@.agents.len() && (
                #[trigger] w0.agents[i]).id == (#[trigger] self@.agents[j]).id
                    && w0.agents[i].kind == Kind::Predator implies self@.agents[j].kind
                == Kind::Predator by {
                assert(pre.contains(self@.agents[j]));
                let m = choose|m: int| 0 <= m < pre.len() && pre[m] == self@.agents[j];
                if m >= n {
                    assert(w0.agents[i].id < w0.next_id);
                } else if m < i {
                    assert(w0.agents[m].id < w0.agents[i].id);
                } else if m > i {
                    assert(w0.agents[i].id < w0.agents[m].id);
                }
            }
        }
    }

    /// Draws the random values of one tick from the world's generator.
    pub fn draw_tick(&mut self) -> (d: TickDraws)
        requires
            old(self).wf(),
        ensures
            final(self)@ == old(self)@,
            final(self).wf(),
            draws_ok(d, old(self)@.agents.len() as int, old(self)@.size),
    {
        let ghost w0 = self@;
        let mut spawns: Vec<SpawnDraw> = Vec::new();
        let mut k: usize = 0;
        while k < SPAWN_ATTEMPTS
            invariant
                1 <= self.size,
                self@ == w0,
                k <= SPAWN_ATTEMPTS,
                spawns.len() == k,
                forall|q: int|
                    0 <= q < k ==> (#[trigger] spawns@[q]).roll < 1000 && spawns@[q].chance < 1000
                        && spawns@[q].x < self.size && spawns@[q].y < self.size,
            decreases SPAWN_ATTEMPTS - k,
        {
            let roll = draw_below(&mut self.rng, 1000);
            let x = draw_below(&mut self.rng, self.size as u64) as usize;
            let y = draw_below(&mut self.rng, self.size as u64) as usize;
            let chance = draw_below(&mut self.rng, 1000);
            spawns.push(SpawnDraw { roll, x, y, chance });
            k = k + 1;
        }
        let n = self.agents.len();
        let mut wander: Vec<(i64, i64)> = Vec::new();
        let mut mutations: Vec<Mutation> = Vec::new();
        let mut k: usize = 0;
        while k < n
            invariant
                self@ == w0,
                k <= n,
                wander.len() == k,
                mutations.len() == k,
                forall|q: int|
                    0 <= q < k ==> -WANDER_SPAN <= (#[trigger] wander@[q]).0 <= WANDER_SPAN
                        && -WANDER_SPAN <= wander@[q].1 <= WANDER_SPAN,
                forall|q: int| 0 <= q < k ==> crate::reproduction::mutation_ok(#[trigger] mutations@[q]),
            decreases n - k,
        {
            let wx = draw_below(&mut self.rng, 2001) as i64 - WANDER_SPAN;
            let wy = draw_below(&mut self.rng, 2001) as i64 - WANDER_SPAN;
            wander.push((wx, wy));
            let active = draw_below(&mut self.rng, 1000) < MUTATION_CHANCE;
            let span = (MUTATION_HIGH - MUTATION_LOW) as u64;
            let speed = MUTATION_LOW + draw_below(&mut self.rng, span) as i64;
            let vision = MUTATION_LOW + draw_below(&mut self.rng, span) as i64;
            let health = MUTATION_LOW + draw_below(&mut self.rng, span) as i64;
            let damage = MUTATION_LOW + draw_below(&mut self.rng, span) as i64;
            mutations.push(Mutation { active, speed, vision, health, damage });
            k = k + 1;
        }
        TickDraws { spawns, wander, mutations }
    }

    /// Advances the world by one tick, drawing its random values from the
    /// world's generator. Whatever was drawn, the tick is `ticked` for some
    /// valid draws, every agent left stands inside the grid with energy above
    /// zero, and an agent that was a predator is a predator still.
    pub fn step(&mut self)
        requires
            old(self).wf(),
        ensures
            final(self).wf(),
            exists|d: TickDraws|
                draws_ok(d, old(self)@.agents.len() as int, old(self)@.size) && final(self)@ == ticked(old(self)@, d),
            forall|k: int|
                0 <= k < final(self)@.agents.len() ==> in_bounds(
                    #[trigger] final(self)@.agents[k],
                    final(self)@.size,
                ),
            forall|k: int|
                0 <= k < final(self)@.agents.len() ==> (#[trigger] final(self)@.agents[k]).energy > 0,
            forall|i: int, j: int|
                0 <= i < old(self)@.agents.len() && 0 <= j < final(self)@.agents.len() && (
                #[trigger] old(self)@.agents[i]).id == (#[trigger] final(self)@.agents[j]).id
                    && old(self)@.agents[i].kind == Kind::Predator ==> final(self)@.agents[j].kind
                    == Kind::Predator,
            forall|i: int|
                0 <= i < old(self)@.agents.len() && (#[trigger] old(self)@.agents[i]).kind
                    == Kind::Predator ==> exists|j: int|
                    0 <= j < final(self)@.agents.len() && (#[trigger] final(self)@.agents[j]).id
                        == old(self)@.agents[i].id && final(self)@.agents[j].kind == Kind::Predator
                        && final(self)@.agents[j].energy == old(self)@.agents[i].energy,
    {
        let d = self.draw_tick();
        self.advance(&d);
    }

    /// Cells that are not ocean, by their grid position.
    fn land_cells(&self) -> (r: Vec<usize>)
        requires
            self.wf(),
        ensures
            forall|q: int|
                0 <= q < r.len() ==> #[trigger] r@[q] < self@.cells.len()
                    && self@.cells[r@[q] as int].terrain != Terrain::Ocean,
            forall|k: int|
                0 <= k < self@.cells.len() && (#[trigger] self@.cells[k]).terrain != Terrain::Ocean
                    ==> r@.contains(k as usize),
    {
        let mut r: Vec<usize> = Vec::new();
        let mut k: usize = 0;
        while k < self.cells.len()
            invariant
                k <= self.cells.len(),
                forall|q: int|
                    0 <= q < r.len() ==> #[trigger] r@[q] < self.cells.len()
                        && self.cells@[r@[q] as int].terrain != Terrain::Ocean,
                forall|c: int|
                    0 <= c < k && (#[trigger] self.cells@[c]).terrain != Terrain::Ocean
                        ==> r@.contains(c as usize),
            decreases self.cells.len() - k,
        {
            let ghost before = r@;
            if self.cells[k].terrain != Terrain::Ocean {
                r.push(k);
                proof {
                    assert(r@[r@.len() - 1] == k);
                }
            }
            proof {
                assert forall|c: int|
                    0 <= c < k + 1 && (#[trigger] self.cells@[c]).terrain != Terrain::Ocean
                        implies r@.contains(c as usize) by {
                    if c < k {
                        let q = choose|q: int| 0 <= q < before.len() && before[q] == c as usize;
                        assert(r@[q] == c as usize);
                    }
                }
            }
            k = k + 1;
        }
        r
    }

    /// Places `prey` prey and then `predators` predators at random points of
    /// ground other than ocean, and returns how many were placed. Prey get
    /// random genes in their starting ranges; predators fixed ones. All are
    /// placed unless the grid is all ocean or identifiers run out.
    pub fn populate(&mut self, prey: usize, predators: usize) -> (placed: usize)
        requires
            old(self).wf(),
        ensures
            final(self).wf(),
            final(self)@.size == old(self)@.size,
            final(self)@.cells == old(self)@.cells,
            final(self)@.needs_rest == old(self)@.needs_rest,
            final(self)@.agents.len() == old(self)@.agents.len() + placed,
            placed <= prey + predators,
            (exists|k: int| 0 <= k < old(self)@.cells.len() && (#[trigger] old(self)@.cells[k]).terrain != Terrain::Ocean)
                && old(self)@.next_id + prey + predators < u64::MAX && prey + predators <= usize::MAX
                ==> placed == prey + predators,
            forall|k: int|
                0 <= k < old(self)@.agents.len() ==> #[trigger] final(self)@.agents[k] == old(self)@.agents[k],
            forall|q: int|
                old(self)@.agents.len() <= q < final(self)@.agents.len() ==> {
                    let a = #[trigger] final(self)@.agents[q];
                    &&& on_land(final(self)@.cells, final(self)@.size, a)
                    &&& a.cooldown == 0
                    &&& (q < old(self)@.agents.len() + prey ==> a.kind == Kind::Prey && a.energy == START_ENERGY
                        && START_SPEED_LOW <= a.speed_gene < START_SPEED_HIGH
                        && START_VISION_LOW <= a.vision_gene < START_VISION_HIGH
                        && a.health == START_HEALTH && a.damage == START_DAMAGE)
                    &&& (q >= old(self)@.agents.len() + prey ==> a.kind == Kind::Predator && a.energy
                        == PREDATOR_ENERGY && a.speed_gene == HUNTER_SPEED && a.vision_gene
                        == HUNTER_VISION && a.health == HUNTER_HEALTH && a.damage == HUNTER_DAMAGE)
                },
    {
        let land = self.land_cells();
        if land.len() == 0 {
            proof {
                assert forall|k: int| 0 <= k < self@.cells.len() implies (#[trigger] self@.cells[k]).terrain == Terrain::Ocean by {
                    if self@.cells[k].terrain != Terrain::Ocean {
                        assert(land@.contains(k as usize));
                    }
                }
            }
            return 0;
        }
        let ghost w0 = self@;
        let total = if prey <= usize::MAX - predators { prey + predators } else { usize::MAX };
        let mut placed: usize = 0;
        while placed < total && self.next_id < u64::MAX
            invariant
                self.wf(),
                placed <= total,
                total == prey + predators || (total == usize::MAX && prey + predators > usize::MAX),
                self@.size == w0.size,
                self@.cells == w0.cells,
                self@.needs_rest == w0.needs_rest,
                self@.agents.len() == w0.agents.len() + placed,
                self@.next_id == w0.next_id + placed,
                forall|q: int|
                    0 <= q < land.len() ==> #[trigger] land@[q] < self@.cells.len()
                        && self@.cells[land@[q] as int].terrain != Terrain::Ocean,
                land.len() > 0,
                forall|k: int| 0 <= k < w0.agents.len() ==> #[trigger] self@.agents[k] == w0.agents[k],
                forall|q: int|
                    w0.agents.len() <= q < self@.agents.len() ==> {
                        let a = #[trigger] self@.agents[q];
                        &&& on_land(self@.cells, self@.size, a)
                        &&& a.cooldown == 0
                        &&& (q < w0.agents.len() + prey ==> a.kind == Kind::Prey && a.energy == START_ENERGY
                            && START_SPEED_LOW <= a.speed_gene < START_SPEED_HIGH
                            && START_VISION_LOW <= a.vision_gene < START_VISION_HIGH
                            && a.health == START_HEALTH && a.damage == START_DAMAGE)
                        &&& (q >= w0.agents.len() + prey ==> a.kind == Kind::Predator && a.energy
                            == PREDATOR_ENERGY && a.speed_gene == HUNTER_SPEED && a.vision_gene
                            == HUNTER_VISION && a.health == HUNTER_HEALTH && a.damage == HUNTER_DAMAGE)
                    },
            decreases total - placed,
        {
            let pick = draw_below(&mut self.rng, land.len() as u64) as usize;
            let idx = land[pick];
            let cx = idx / self.size;
            let cy = idx % self.size;
            proof {
                let sz = self.size as int;
                assert(0 <= cx < sz && 0 <= cy < sz && idx == cx * sz + cy) by (nonlinear_arith)
                    requires
                        idx < sz * sz,
                        cx == idx as int / sz,
                        cy == idx as int % sz,
                        sz >= 1,
                ;
            }
            let top: i64 = (self.size as i64 - 1) * UNIT;
            let mut x = cx as i64 * UNIT + draw_below(&mut self.rng, 1000) as i64;
            let mut y = cy as i64 * UNIT + draw_below(&mut self.rng, 1000) as i64;
            if x > top {
                x = top;
            }
            if y > top {
                y = top;
            }
            proof {
                assert(x / 1000 == cx);
                assert(y / 1000 == cy);
            }
            let a = if placed < prey {
                let speed = START_SPEED_LOW + draw_below(&mut self.rng, (START_SPEED_HIGH - START_SPEED_LOW) as u64) as i64;
                let vision = START_VISION_LOW + draw_below(&mut self.rng, (START_VISION_HIGH - START_VISION_LOW) as u64) as i64;
                Agent {
                    id: self.next_id,
                    x,
                    y,
                    energy: START_ENERGY,
                    cooldown: 0,
                    speed_gene: speed,
                    vision_gene: vision,
                    kind: Kind::Prey,
                    health: START_HEALTH,
                    damage: START_DAMAGE,
                }
            } else {
                Agent {
                    id: self.next_id,
                    x,
                    y,
                    energy: PREDATOR_ENERGY,
                    cooldown: 0,
                    speed_gene: HUNTER_SPEED,
                    vision_gene: HUNTER_VISION,
                    kind: Kind::Predator,
                    health: HUNTER_HEALTH,
                    damage: HUNTER_DAMAGE,
                }
            };
            self.agents.push(a);
            self.next_id = self.next_id + 1;
            placed = placed + 1;
        }
        placed
    }
}

} // verus!
