//! Turning an intent into a displacement, and a displacement into a new
//! position that respects impassable ground.
use vstd::prelude::*;
use crate::agent::{in_bounds, traits_valid, Agent, Kind, DIRE_ENERGY, MAX_CENTRE, SPEED_MAX};
use crate::behavior::{all_in_bounds, intent_of, intent_ok, nearest_of, Intent, Role};
use crate::geometry::{scale_to, scaled, scaled_component, UNIT};
use crate::terrain::{
    cell_at, cell_coord, cell_index, clamp_coord, clamp_to_world, grid_ok, line_of, speed_of,
    speed_permille, Cell, Terrain,
};

verus! {

/// Largest magnitude of each component of a wandering direction.
pub const WANDER_SPAN: i64 = 1000;

/// Agent `a` may stand at `(px, py)`: ocean stops everyone, and desert stops
/// prey unless they are fleeing or low on energy.
pub open spec fn can_stand(
    cells: Seq<Cell>,
    size: int,
    px: int,
    py: int,
    a: Agent,
    fleeing: bool,
) -> bool {
    let t = cell_at(cells, size, cell_coord(px, size), cell_coord(py, size)).terrain;
    &&& t != Terrain::Ocean
    &&& !(a.kind == Kind::Prey && t == Terrain::Desert && !(a.energy < DIRE_ENERGY || fleeing))
}

/// The terrain under agent `a`.
pub open spec fn ground_of(cells: Seq<Cell>, size: int, a: Agent) -> Terrain {
    cell_at(cells, size, cell_coord(a.x as int, size), cell_coord(a.y as int, size)).terrain
}

/// How far agent `a` travels in one tick on its current ground.
pub open spec fn cruise(cells: Seq<Cell>, size: int, a: Agent) -> int {
    (a.speed_gene * speed_of(ground_of(cells, size, a))) / 1000
}

/// The displacement agent `a` wants for intent `t`: fleeing runs at 1.3 times
/// its speed, seeking goes at its speed unless the target is within a tenth
/// of a cell, and wandering drifts along `(wx, wy)` at half its speed.
pub open spec fn desired(
    t: Intent,
    a: Agent,
    cells: Seq<Cell>,
    size: int,
    wx: int,
    wy: int,
) -> (int, int) {
    let s = cruise(cells, size, a);
    match t {
        Intent::Flee { dx, dy } => scaled(dx as int, dy as int, (s * 13) / 10),
        Intent::Seek { tx, ty } => {
            let dx = tx - a.x;
            let dy = ty - a.y;
            if dx * dx + dy * dy > 10_000 {
                scaled(dx, dy, s)
            } else {
                (0, 0)
            }
        },
        Intent::Wander => scaled(wx, wy, s / 2),
    }
}

/// Where agent `a` ends up when it tries to move by `(dx, dy)`: the full step
/// if allowed, else the step along x alone, else along y alone, else nowhere;
/// clamped to the world.
pub open spec fn resolved(
    cells: Seq<Cell>,
    size: int,
    a: Agent,
    fleeing: bool,
    dx: int,
    dy: int,
) -> (int, int) {
    let (nx, ny) = if dx == 0 && dy == 0 {
        (a.x as int, a.y as int)
    } else if can_stand(cells, size, a.x + dx, a.y + dy, a, fleeing) {
        (a.x + dx, a.y + dy)
    } else if can_stand(cells, size, a.x + dx, a.y as int, a, fleeing) {
        (a.x + dx, a.y as int)
    } else if can_stand(cells, size, a.x as int, a.y + dy, a, fleeing) {
        (a.x as int, a.y + dy)
    } else {
        (a.x as int, a.y as int)
    };
    (clamp_coord(nx, size), clamp_coord(ny, size))
}

/// Whether agent `a` may stand at `(px, py)`.
pub fn can_stand_at(
    cells: &Vec<Cell>,
    size: usize,
    px: i64,
    py: i64,
    a: &Agent,
    fleeing: bool,
) -> (r: bool)
    requires
        grid_ok(cells@, size as int),
    ensures
        r == can_stand(cells@, size as int, px as int, py as int, *a, fleeing),
{
    let cx = line_of(px, size);
    let cy = line_of(py, size);
    let t = cells[cell_index(cells, size, cx, cy)].terrain;
    if t == Terrain::Ocean {
        return false;
    }
    !(a.kind == Kind::Prey && t == Terrain::Desert && !(a.energy < DIRE_ENERGY || fleeing))
}

/// The displacement agent `a` wants for intent `t`, with `(wx, wy)` the
/// direction it wanders in when it has no target.
pub fn desired_move(
    t: Intent,
    a: &Agent,
    cells: &Vec<Cell>,
    size: usize,
    wx: i64,
    wy: i64,
) -> (r: (i64, i64))
    requires
        grid_ok(cells@, size as int),
        in_bounds(*a, size as int),
        traits_valid(*a),
        intent_ok(t),
        -WANDER_SPAN <= wx <= WANDER_SPAN,
        -WANDER_SPAN <= wy <= WANDER_SPAN,
    ensures
        (r.0 as int, r.1 as int) == desired(t, *a, cells@, size as int, wx as int, wy as int),
        -400 <= r.0 <= 400,
        -400 <= r.1 <= 400,
{
    let cx = line_of(a.x, size);
    let cy = line_of(a.y, size);
    let ground = cells[cell_index(cells, size, cx, cy)].terrain;
    let m = speed_permille(ground);
    assert(0 <= a.speed_gene * m <= 300 * 1000) by (nonlinear_arith)
        requires
            0 <= a.speed_gene <= SPEED_MAX,
            0 <= m <= 1000,
    ;
    let s: i64 = (a.speed_gene * m) / 1000;
    match t {
        Intent::Flee { dx, dy } => scale_to(dx, dy, (s * 13) / 10),
        Intent::Seek { tx, ty } => {
            let dx = tx - a.x;
            let dy = ty - a.y;
            assert(0 <= dx * dx <= MAX_CENTRE * MAX_CENTRE) by (nonlinear_arith)
                requires
                    -MAX_CENTRE <= dx <= MAX_CENTRE,
            ;
            assert(0 <= dy * dy <= MAX_CENTRE * MAX_CENTRE) by (nonlinear_arith)
                requires
                    -MAX_CENTRE <= dy <= MAX_CENTRE,
            ;
            if dx * dx + dy * dy > 10_000 {
                scale_to(dx, dy, s)
            } else {
                (0, 0)
            }
        },
        Intent::Wander => scale_to(wx, wy, s / 2),
    }
}

/// Moves agent `a` by `(dx, dy)` as far as the ground allows: the full step,
/// else sliding along one axis, else staying put; the result is clamped to
/// the world.
pub fn resolve_move(
    cells: &Vec<Cell>,
    size: usize,
    a: &Agent,
    fleeing: bool,
    dx: i64,
    dy: i64,
) -> (r: (i64, i64))
    requires
        grid_ok(cells@, size as int),
        in_bounds(*a, size as int),
        -0x4000_0000 < dx < 0x4000_0000,
        -0x4000_0000 < dy < 0x4000_0000,
    ensures
        (r.0 as int, r.1 as int) == resolved(cells@, size as int, *a, fleeing, dx as int, dy as int),
        0 <= r.0 <= (size - 1) * UNIT,
        0 <= r.1 <= (size - 1) * UNIT,
{
    let (nx, ny) = if dx == 0 && dy == 0 {
        (a.x, a.y)
    } else if can_stand_at(cells, size, a.x + dx, a.y + dy, a, fleeing) {
        (a.x + dx, a.y + dy)
    } else if can_stand_at(cells, size, a.x + dx, a.y, a, fleeing) {
        (a.x + dx, a.y)
    } else if can_stand_at(cells, size, a.x, a.y + dy, a, fleeing) {
        (a.x, a.y + dy)
    } else {
        (a.x, a.y)
    };
    (clamp_to_world(nx, size), clamp_to_world(ny, size))
}

/// When the full step is blocked, an agent slides along x if it may stand
/// there, else along y if it may stand there, and stays put only when both
/// are blocked; the result is clamped to the world.
pub proof fn lemma_sliding(cells: Seq<Cell>, size: int, a: Agent, fleeing: bool, dx: int, dy: int)
    requires
        dx != 0 || dy != 0,
        !can_stand(cells, size, a.x + dx, a.y + dy, a, fleeing),
    ensures
        can_stand(cells, size, a.x + dx, a.y as int, a, fleeing) ==> resolved(
            cells,
            size,
            a,
            fleeing,
            dx,
            dy,
        ) == (clamp_coord(a.x + dx, size), clamp_coord(a.y as int, size)),
        !can_stand(cells, size, a.x + dx, a.y as int, a, fleeing) && can_stand(
            cells,
            size,
            a.x as int,
            a.y + dy,
            a,
            fleeing,
        ) ==> resolved(cells, size, a, fleeing, dx, dy) == (
            clamp_coord(a.x as int, size),
            clamp_coord(a.y + dy, size),
        ),
        !can_stand(cells, size, a.x + dx, a.y as int, a, fleeing) && !can_stand(
            cells,
            size,
            a.x as int,
            a.y + dy,
            a,
            fleeing,
        ) ==> resolved(cells, size, a, fleeing, dx, dy) == (
            clamp_coord(a.x as int, size),
            clamp_coord(a.y as int, size),
        ),
{
}

proof fn lemma_component_sign(d: int, s: int, len: int)
    requires
        0 <= s,
        0 < len,
    ensures
        d >= 0 ==> scaled_component(d, s, len) >= 0,
        d <= 0 ==> scaled_component(d, s, len) <= 0,
{
    let m = if d >= 0 { d } else { -d };
    assert((m * s) / len >= 0) by (nonlinear_arith)
        requires
            0 <= m,
            0 <= s,
            0 < len,
    ;
    if d < 0 {
        assert((-d) * s == m * s);
    } else {
        assert(d * s == m * s);
        if d == 0 {
            assert((d * s) / len == 0) by (nonlinear_arith)
                requires
                    d == 0,
                    0 < len,
            ;
        }
    }
}

proof fn lemma_scaled_signs(dx: int, dy: int, s: int)
    requires
        0 <= s,
    ensures
        dx >= 0 ==> scaled(dx, dy, s).0 >= 0,
        dx <= 0 ==> scaled(dx, dy, s).0 <= 0,
        dy >= 0 ==> scaled(dx, dy, s).1 >= 0,
        dy <= 0 ==> scaled(dx, dy, s).1 <= 0,
{
    let len = crate::geometry::root(dx * dx + dy * dy);
    assert(dx * dx + dy * dy >= 0) by (nonlinear_arith);
    crate::geometry::lemma_root_exists(dx * dx + dy * dy);
    if len > 0 {
        lemma_component_sign(dx, s, len);
        lemma_component_sign(dy, s, len);
    }
}

/// A prey with a threat in range flees from the nearest one, whatever mates
/// or food it could see: it intends to run along its own position minus the
/// threat's, and the displacement it wants points away from the threat on
/// each axis.
pub proof fn lemma_flee_overrides_mating(
    agents: Seq<Agent>,
    cells: Seq<Cell>,
    size: int,
    i: int,
    j: int,
    wx: int,
    wy: int,
)
    requires
        0 <= i < agents.len(),
        all_in_bounds(agents, size),
        size <= crate::terrain::MAX_GRID,
        traits_valid(agents[i]),
        agents[i].kind == Kind::Prey,
        nearest_of(agents, i, Role::Threat) == Some(j),
    ensures
        intent_of(agents, cells, size, i) == (Intent::Flee {
            dx: (agents[i].x - agents[j].x) as i64,
            dy: (agents[i].y - agents[j].y) as i64,
        }),
        agents[i].x >= agents[j].x ==> desired(
            intent_of(agents, cells, size, i),
            agents[i],
            cells,
            size,
            wx,
            wy,
        ).0 >= 0,
        agents[i].x <= agents[j].x ==> desired(
            intent_of(agents, cells, size, i),
            agents[i],
            cells,
            size,
            wx,
            wy,
        ).0 <= 0,
        agents[i].y >= agents[j].y ==> desired(
            intent_of(agents, cells, size, i),
            agents[i],
            cells,
            size,
            wx,
            wy,
        ).1 >= 0,
        agents[i].y <= agents[j].y ==> desired(
            intent_of(agents, cells, size, i),
            agents[i],
            cells,
            size,
            wx,
            wy,
        ).1 <= 0,
{
    assert(crate::behavior::is_nearest(agents, i, Role::Threat, j));
    assert(in_bounds(agents[j], size));
    assert(in_bounds(agents[i], size));
    let a = agents[i];
    let s = cruise(cells, size, a);
    assert(0 <= a.speed_gene * speed_of(ground_of(cells, size, a))) by (nonlinear_arith)
        requires
            0 <= a.speed_gene,
            0 <= speed_of(ground_of(cells, size, a)),
    ;
    assert(s >= 0);
    lemma_scaled_signs(a.x - agents[j].x, a.y - agents[j].y, (s * 13) / 10);
}

} // verus!
