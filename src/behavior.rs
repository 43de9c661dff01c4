//! Choosing what an agent wants this tick: flee a threat, reach a mate, reach
//! food, or wander.
use vstd::prelude::*;
use crate::agent::{
    agent_gap, gap, in_bounds, is_ready_to_mate, ready_to_mate, traits_valid, Agent, Kind,
    MAX_CENTRE, MAX_DIST_SQ, VISION_MAX,
};
use crate::geometry::{dist_sq, distance_sq, UNIT};
use crate::terrain::{cell_at, cell_index, grid_ok, Cell, Terrain, MAX_GRID};

verus! {

/// What an agent looks for among the other agents.
#[derive(Clone, Copy, Debug, PartialEq, Eq, Structural)]
pub enum Role {
    /// A predator within eight tenths of the looker's vision.
    Threat,
    /// A prey within the looker's vision.
    Quarry,
    /// Another prey ready to mate within one and a half times the looker's
    /// vision.
    Mate,
}

/// What an agent intends to do this tick.
#[derive(Clone, Copy, Debug, PartialEq, Eq, Structural)]
pub enum Intent {
    /// Run along `(dx, dy)`, away from the nearest threat.
    Flee { dx: i64, dy: i64 },
    /// Head for the point `(tx, ty)`.
    Seek { tx: i64, ty: i64 },
    /// Drift in a random direction.
    Wander,
}

/// Agent `j` is what agent `i` looks for in role `role`.
pub open spec fn candidate(agents: Seq<Agent>, i: int, j: int, role: Role) -> bool {
    let a = agents[i];
    let b = agents[j];
    let d = gap(a, b);
    let v = a.vision_gene as int;
    match role {
        Role::Threat => b.kind == Kind::Predator && 25 * d < 16 * (v * v),
        Role::Quarry => b.kind == Kind::Prey && d < v * v,
        Role::Mate => j != i && ready_to_mate(b) && 4 * d < 9 * (v * v),
    }
}

/// Agent `j` is the nearest candidate of agent `i`, the first in registry
/// order among equally near ones.
pub open spec fn is_nearest(agents: Seq<Agent>, i: int, role: Role, j: int) -> bool {
    &&& 0 <= j < agents.len()
    &&& candidate(agents, i, j, role)
    &&& forall|k: int|
        0 <= k < agents.len() && #[trigger] candidate(agents, i, k, role) ==> gap(agents[i], agents[j])
            <= gap(agents[i], agents[k])
    &&& forall|k: int|
        0 <= k < j && #[trigger] candidate(agents, i, k, role) ==> gap(agents[i], agents[j]) < gap(
            agents[i],
            agents[k],
        )
}

/// The nearest candidate of agent `i`, if there is any.
pub open spec fn nearest_of(agents: Seq<Agent>, i: int, role: Role) -> Option<int> {
    if exists|j: int| is_nearest(agents, i, role, j) {
        Some(choose|j: int| is_nearest(agents, i, role, j))
    } else {
        None
    }
}

/// Every agent of `agents` stands in a world of side `size`.
pub open spec fn all_in_bounds(agents: Seq<Agent>, size: int) -> bool {
    forall|k: int| 0 <= k < agents.len() ==> in_bounds(#[trigger] agents[k], size)
}

proof fn lemma_nearest_unique(agents: Seq<Agent>, i: int, role: Role, j: int, k: int)
    requires
        is_nearest(agents, i, role, j),
        is_nearest(agents, i, role, k),
    ensures
        j == k,
{
    if j < k {
        assert(candidate(agents, i, j, role));
    }
    if k < j {
        assert(candidate(agents, i, k, role));
    }
}

/// The nearest candidate is the one agent that is nearest.
pub proof fn lemma_nearest_is(agents: Seq<Agent>, i: int, role: Role, j: int)
    requires
        is_nearest(agents, i, role, j),
    ensures
        nearest_of(agents, i, role) == Some(j),
{
    let c = choose|j: int| is_nearest(agents, i, role, j);
    lemma_nearest_unique(agents, i, role, j, c);
}

/// Whether agent `j` is a candidate of agent `i` in `role`, given their
/// squared distance `d`.
fn is_candidate(agents: &Vec<Agent>, i: usize, j: usize, role: Role, d: i64) -> (r: bool)
    requires
        i < agents.len(),
        j < agents.len(),
        traits_valid(agents[i as int]),
        0 <= d <= MAX_DIST_SQ,
        d == gap(agents[i as int], agents[j as int]),
    ensures
        r == candidate(agents@, i as int, j as int, role),
{
    let v = agents[i].vision_gene;
    assert(0 <= v * v <= 900_000_000) by (nonlinear_arith)
        requires
            0 <= v <= VISION_MAX,
    ;
    let vv = v * v;
    match role {
        Role::Threat => agents[j].kind == Kind::Predator && d < vv && 25 * d < 16 * vv,
        Role::Quarry => agents[j].kind == Kind::Prey && d < vv,
        Role::Mate => j != i && is_ready_to_mate(&agents[j]) && d < 3 * vv && 4 * d < 9 * vv,
    }
}

/// The nearest agent that agent `i` looks for in `role`, the first in
/// registry order among equally near ones; `None` when there is none.
pub fn nearest(agents: &Vec<Agent>, i: usize, role: Role) -> (r: Option<usize>)
    requires
        i < agents.len(),
        all_in_bounds(agents@, MAX_GRID as int),
        traits_valid(agents[i as int]),
    ensures
        r == match nearest_of(agents@, i as int, role) {
            Some(j) => Some(j as usize),
            None => None::<usize>,
        },
        r.is_none() <==> forall|k: int|
            0 <= k < agents.len() ==> !#[trigger] candidate(agents@, i as int, k, role),
{
    let mut best: Option<usize> = None;
    let mut best_d: i64 = 0;
    let mut j: usize = 0;
    while j < agents.len()
        invariant
            i < agents.len(),
            j <= agents.len(),
            all_in_bounds(agents@, MAX_GRID as int),
            traits_valid(agents[i as int]),
            best.is_none() ==> forall|k: int|
                0 <= k < j ==> !#[trigger] candidate(agents@, i as int, k, role),
            best.is_some() ==> {
                let b = best.unwrap() as int;
                &&& b < j
                &&& candidate(agents@, i as int, b, role)
                &&& best_d == gap(agents[i as int], agents[b])
                &&& forall|k: int|
                    0 <= k < j && #[trigger] candidate(agents@, i as int, k, role) ==> best_d
                        <= gap(agents[i as int], agents[k])
                &&& forall|k: int|
                    0 <= k < b && #[trigger] candidate(agents@, i as int, k, role) ==> best_d
                        < gap(agents[i as int], agents[k])
            },
        decreases agents.len() - j,
    {
        let d = agent_gap(&agents[i], &agents[j]);
        if is_candidate(agents, i, j, role, d) {
            let closer = match best {
                None => true,
                Some(_) => d < best_d,
            };
            if closer {
                best = Some(j);
                best_d = d;
            }
        }
        j = j + 1;
    }
    proof {
        match best {
            Some(b) => {
                lemma_nearest_is(agents@, i as int, role, b as int);
            },
            None => {
                assert(!exists|c: int| is_nearest(agents@, i as int, role, c));
            },
        }
    }
    best
}

/// Coordinate of the centre of grid line `c`.
pub open spec fn centre(c: int) -> int {
    c * UNIT + 500
}

/// Cell `(cx, cy)` lies in the grid and within the square of cells that
/// agent `a` can see: as many whole cells each way as its vision spans.
pub open spec fn in_sight(a: Agent, size: int, cx: int, cy: int) -> bool {
    let fx = a.x as int / (UNIT as int);
    let fy = a.y as int / (UNIT as int);
    let v = a.vision_gene as int / (UNIT as int);
    &&& 0 <= cx < size
    &&& 0 <= cy < size
    &&& fx - v <= cx <= fx + v
    &&& fy - v <= cy <= fy + v
}

/// Cell `(cx, cy)` is food that agent `a` would walk to: in sight, holding
/// food, and not impassable.
pub open spec fn food_candidate(a: Agent, cells: Seq<Cell>, size: int, cx: int, cy: int) -> bool {
    &&& in_sight(a, size, cx, cy)
    &&& cell_at(cells, size, cx, cy).food > 0
    &&& cell_at(cells, size, cx, cy).terrain != Terrain::Ocean
}

/// How far food at `(cx, cy)` seems to agent `a`, squared: the distance to
/// the cell's centre, tripled on desert.
pub open spec fn food_score(a: Agent, cells: Seq<Cell>, size: int, cx: int, cy: int) -> int {
    let d = dist_sq(a.x as int, a.y as int, centre(cx), centre(cy));
    if cell_at(cells, size, cx, cy).terrain == Terrain::Desert {
        9 * d
    } else {
        d
    }
}

/// Cell `(ex, ey)` comes before cell `(cx, cy)` in scanning order.
pub open spec fn scanned_before(ex: int, ey: int, cx: int, cy: int) -> bool {
    ex < cx || (ex == cx && ey < cy)
}

/// Cell `(cx, cy)` is the food that agent `a` prefers: no other candidate
/// scores lower, and every earlier one scores higher.
pub open spec fn is_best_food(a: Agent, cells: Seq<Cell>, size: int, cx: int, cy: int) -> bool {
    &&& food_candidate(a, cells, size, cx, cy)
    &&& forall|ex: int, ey: int| #[trigger]
        food_candidate(a, cells, size, ex, ey) ==> food_score(a, cells, size, cx, cy) <= food_score(
            a,
            cells,
            size,
            ex,
            ey,
        )
    &&& forall|ex: int, ey: int| #[trigger]
        food_candidate(a, cells, size, ex, ey) && scanned_before(ex, ey, cx, cy) ==> food_score(
            a,
            cells,
            size,
            cx,
            cy,
        ) < food_score(a, cells, size, ex, ey)
}

/// The food cell that agent `a` prefers, if it sees any.
pub open spec fn best_food(a: Agent, cells: Seq<Cell>, size: int) -> Option<(int, int)> {
    if exists|cx: int, cy: int| is_best_food(a, cells, size, cx, cy) {
        let (cx, cy) = choose|cx: int, cy: int| is_best_food(a, cells, size, cx, cy);
        Some((cx, cy))
    } else {
        None
    }
}

/// The preferred food is the one cell that is preferred.
pub proof fn lemma_best_food_is(a: Agent, cells: Seq<Cell>, size: int, cx: int, cy: int)
    requires
        is_best_food(a, cells, size, cx, cy),
    ensures
        best_food(a, cells, size) == Some((cx, cy)),
{
    let (ex, ey) = choose|ex: int, ey: int| is_best_food(a, cells, size, ex, ey);
    assert(is_best_food(a, cells, size, ex, ey));
    assert(food_candidate(a, cells, size, cx, cy));
    assert(food_candidate(a, cells, size, ex, ey));
    if scanned_before(ex, ey, cx, cy) {
        assert(false);
    }
    if scanned_before(cx, cy, ex, ey) {
        assert(false);
    }
}

/// Of two food cells in sight at the same distance, one on desert and one
/// not, the desert one is never the preferred food.
pub proof fn lemma_desert_penalty(
    a: Agent,
    cells: Seq<Cell>,
    size: int,
    dx: int,
    dy: int,
    px: int,
    py: int,
)
    requires
        food_candidate(a, cells, size, dx, dy),
        food_candidate(a, cells, size, px, py),
        cell_at(cells, size, dx, dy).terrain == Terrain::Desert,
        cell_at(cells, size, px, py).terrain != Terrain::Desert,
        dist_sq(a.x as int, a.y as int, centre(dx), centre(dy)) == dist_sq(
            a.x as int,
            a.y as int,
            centre(px),
            centre(py),
        ),
    ensures
        best_food(a, cells, size) != Some((dx, dy)),
{
    let d = dist_sq(a.x as int, a.y as int, centre(dx), centre(dy));
    if best_food(a, cells, size) == Some((dx, dy)) {
        let (cx, cy) = choose|cx: int, cy: int| is_best_food(a, cells, size, cx, cy);
        assert(is_best_food(a, cells, size, dx, dy));
        assert(food_score(a, cells, size, dx, dy) <= food_score(a, cells, size, px, py));
        if d == 0 {
            let ex = a.x - centre(dx);
            let ey = a.y - centre(dy);
            let fx = a.x - centre(px);
            let fy = a.y - centre(py);
            assert(ex == 0 && ey == 0 && fx == 0 && fy == 0) by (nonlinear_arith)
                requires
                    ex * ex + ey * ey == 0,
                    fx * fx + fy * fy == 0,
            ;
            assert(dx == px && dy == py);
        }
        assert(d >= 0) by (nonlinear_arith)
            requires
                d == (a.x - centre(dx)) * (a.x - centre(dx)) + (a.y - centre(dy)) * (a.y - centre(
                    dy,
                )),
        ;
    }
}

proof fn lemma_dist_bound(ax: int, ay: int, bx: int, by: int, m: int)
    requires
        0 <= ax <= m,
        0 <= ay <= m,
        0 <= bx <= m,
        0 <= by <= m,
    ensures
        0 <= dist_sq(ax, ay, bx, by) <= 2 * (m * m),
{
    assert(0 <= dist_sq(ax, ay, bx, by) <= 2 * (m * m)) by (nonlinear_arith)
        requires
            0 <= ax <= m,
            0 <= ay <= m,
            0 <= bx <= m,
            0 <= by <= m,
    ;
}

/// Scores food at `(cx, cy)` for agent `a`.
fn score_food(cells: &Vec<Cell>, size: usize, a: &Agent, cx: usize, cy: usize, terrain: Terrain) -> (r: i64)
    requires
        grid_ok(cells@, size as int),
        cx < size,
        cy < size,
        in_bounds(*a, size as int),
        terrain == cell_at(cells@, size as int, cx as int, cy as int).terrain,
    ensures
        r == food_score(*a, cells@, size as int, cx as int, cy as int),
        0 <= r <= 9 * (2 * (MAX_CENTRE * MAX_CENTRE)),
{
    let px: i64 = cx as i64 * UNIT + 500;
    let py: i64 = cy as i64 * UNIT + 500;
    let d = distance_sq(a.x, a.y, px, py);
    proof {
        lemma_dist_bound(a.x as int, a.y as int, px as int, py as int, MAX_CENTRE as int);
    }
    match terrain {
        Terrain::Desert => 9 * d,
        _ => d,
    }
}

/// The food cell that agent `a` prefers: among the cells in sight that hold
/// food and are not ocean, the one whose centre is nearest, with desert
/// counted three times as far; the first in scanning order among equals.
pub fn find_food(cells: &Vec<Cell>, size: usize, a: &Agent) -> (r: Option<(usize, usize)>)
    requires
        grid_ok(cells@, size as int),
        in_bounds(*a, size as int),
        traits_valid(*a),
    ensures
        r == match best_food(*a, cells@, size as int) {
            Some((cx, cy)) => Some((cx as usize, cy as usize)),
            None => None::<(usize, usize)>,
        },
{
    let fx: usize = (a.x / UNIT) as usize;
    let fy: usize = (a.y / UNIT) as usize;
    let v: usize = (a.vision_gene / UNIT) as usize;
    let x_lo: usize = if fx >= v { fx - v } else { 0 };
    let x_hi: usize = if fx + v < size { fx + v } else { size - 1 };
    let y_lo: usize = if fy >= v { fy - v } else { 0 };
    let y_hi: usize = if fy + v < size { fy + v } else { size - 1 };
    let ghost sa = *a;
    let ghost sz = size as int;
    let mut best: Option<(usize, usize)> = None;
    let mut best_s: i64 = 0;
    let mut cx: usize = x_lo;
    while cx <= x_hi
        invariant
            grid_ok(cells@, sz),
            sz == size,
            sa == *a,
            in_bounds(sa, sz),
            x_lo <= cx <= x_hi + 1,
            x_hi < size,
            y_lo <= y_hi < size,
            forall|ex: int, ey: int| #[trigger]
                food_candidate(sa, cells@, sz, ex, ey) ==> x_lo <= ex <= x_hi && y_lo <= ey <= y_hi,
            forall|ex: int, ey: int|
                x_lo <= ex <= x_hi && y_lo <= ey <= y_hi ==> #[trigger] in_sight(sa, sz, ex, ey),
            best.is_none() ==> forall|ex: int, ey: int| #[trigger]
                food_candidate(sa, cells@, sz, ex, ey) ==> !(ex < cx),
            best.is_some() ==> {
                let (bx, by) = best.unwrap();
                &&& bx < cx
                &&& food_candidate(sa, cells@, sz, bx as int, by as int)
                &&& best_s == food_score(sa, cells@, sz, bx as int, by as int)
                &&& forall|ex: int, ey: int| #[trigger]
                    food_candidate(sa, cells@, sz, ex, ey) && ex < cx ==> best_s <= food_score(
                        sa,
                        cells@,
                        sz,
                        ex,
                        ey,
                    )
                &&& forall|ex: int, ey: int| #[trigger]
                    food_candidate(sa, cells@, sz, ex, ey) && scanned_before(
                        ex,
                        ey,
                        bx as int,
                        by as int,
                    ) ==> best_s < food_score(sa, cells@, sz, ex, ey)
            },
        decreases x_hi + 1 - cx,
    {
        let mut cy: usize = y_lo;
        while cy <= y_hi
            invariant
                grid_ok(cells@, sz),
                sz == size,
                sa == *a,
                in_bounds(sa, sz),
                x_lo <= cx <= x_hi,
                x_hi < size,
                y_lo <= cy <= y_hi + 1,
                y_hi < size,
                forall|ex: int, ey: int| #[trigger]
                    food_candidate(sa, cells@, sz, ex, ey) ==> x_lo <= ex <= x_hi && y_lo <= ey
                        <= y_hi,
                forall|ex: int, ey: int|
                    x_lo <= ex <= x_hi && y_lo <= ey <= y_hi ==> #[trigger] in_sight(sa, sz, ex, ey),
                best.is_none() ==> forall|ex: int, ey: int| #[trigger]
                    food_candidate(sa, cells@, sz, ex, ey) ==> !scanned_before(
                        ex,
                        ey,
                        cx as int,
                        cy as int,
                    ),
                best.is_some() ==> {
                    let (bx, by) = best.unwrap();
                    &&& scanned_before(bx as int, by as int, cx as int, cy as int)
                    &&& food_candidate(sa, cells@, sz, bx as int, by as int)
                    &&& best_s == food_score(sa, cells@, sz, bx as int, by as int)
                    &&& forall|ex: int, ey: int| #[trigger]
                        food_candidate(sa, cells@, sz, ex, ey) && scanned_before(
                            ex,
                            ey,
                            cx as int,
                            cy as int,
                        ) ==> best_s <= food_score(sa, cells@, sz, ex, ey)
                    &&& forall|ex: int, ey: int| #[trigger]
                        food_candidate(sa, cells@, sz, ex, ey) && scanned_before(
                            ex,
                            ey,
                            bx as int,
                            by as int,
                        ) ==> best_s < food_score(sa, cells@, sz, ex, ey)
                },
            decreases y_hi + 1 - cy,
        {
            let cell = cells[cell_index(cells, size, cx, cy)];
            if cell.food > 0 && cell.terrain != Terrain::Ocean {
                let s = score_food(cells, size, a, cx, cy, cell.terrain);
                let better = match best {
                    None => true,
                    Some(_) => s < best_s,
                };
                if better {
                    best = Some((cx, cy));
                    best_s = s;
                }
            }
            proof {
                assert(in_sight(sa, sz, cx as int, cy as int));
            }
            cy = cy + 1;
        }
        cx = cx + 1;
    }
    proof {
        match best {
            Some((bx, by)) => {
                lemma_best_food_is(sa, cells@, sz, bx as int, by as int);
            },
            None => {
                assert(!exists|ex: int, ey: int| is_best_food(sa, cells@, sz, ex, ey));
            },
        }
    }
    best
}

/// What agent `i` intends, in strict priority: a predator chases the nearest
/// prey in sight; a prey flees the nearest threat, else heads for the
/// nearest mate when ready to mate, else for its preferred food; with no
/// target an agent wanders.
pub open spec fn intent_of(agents: Seq<Agent>, cells: Seq<Cell>, size: int, i: int) -> Intent {
    let a = agents[i];
    if a.kind == Kind::Predator {
        match nearest_of(agents, i, Role::Quarry) {
            Some(j) => Intent::Seek { tx: agents[j].x, ty: agents[j].y },
            None => Intent::Wander,
        }
    } else {
        match nearest_of(agents, i, Role::Threat) {
            Some(j) => Intent::Flee { dx: (a.x - agents[j].x) as i64, dy: (a.y - agents[j].y) as i64 },
            None => {
                let mate = if ready_to_mate(a) {
                    nearest_of(agents, i, Role::Mate)
                } else {
                    None
                };
                match mate {
                    Some(j) => Intent::Seek { tx: agents[j].x, ty: agents[j].y },
                    None => match best_food(a, cells, size) {
                        Some((cx, cy)) => Intent::Seek { tx: centre(cx) as i64, ty: centre(cy) as i64 },
                        None => Intent::Wander,
                    },
                }
            },
        }
    }
}

/// The intent's vector or target lies within the reach of a world.
pub open spec fn intent_ok(t: Intent) -> bool {
    match t {
        Intent::Flee { dx, dy } => -MAX_CENTRE <= dx <= MAX_CENTRE && -MAX_CENTRE <= dy <= MAX_CENTRE,
        Intent::Seek { tx, ty } => 0 <= tx <= MAX_CENTRE && 0 <= ty <= MAX_CENTRE,
        Intent::Wander => true,
    }
}

/// Decides what agent `i` intends this tick.
pub fn decide(agents: &Vec<Agent>, cells: &Vec<Cell>, size: usize, i: usize) -> (r: Intent)
    requires
        i < agents.len(),
        grid_ok(cells@, size as int),
        all_in_bounds(agents@, size as int),
        traits_valid(agents[i as int]),
    ensures
        r == intent_of(agents@, cells@, size as int, i as int),
        intent_ok(r),
{
    proof {
        assert forall|k: int| 0 <= k < agents.len() implies in_bounds(
            #[trigger] agents@[k],
            MAX_GRID as int,
        ) by {
            assert(in_bounds(agents@[k], size as int));
        }
    }
    let a = agents[i];
    if a.kind == Kind::Predator {
        match nearest(agents, i, Role::Quarry) {
            Some(j) => Intent::Seek { tx: agents[j].x, ty: agents[j].y },
            None => Intent::Wander,
        }
    } else {
        match nearest(agents, i, Role::Threat) {
            Some(j) => Intent::Flee { dx: a.x - agents[j].x, dy: a.y - agents[j].y },
            None => {
                let mate = if is_ready_to_mate(&a) {
                    nearest(agents, i, Role::Mate)
                } else {
                    None
                };
                match mate {
                    Some(j) => Intent::Seek { tx: agents[j].x, ty: agents[j].y },
                    None => match find_food(cells, size, &a) {
                        Some((cx, cy)) => Intent::Seek {
                            tx: cx as i64 * UNIT + 500,
                            ty: cy as i64 * UNIT + 500,
                        },
                        None => Intent::Wander,
                    },
                }
            },
        }
    }
}

} // verus!
