use valkarai::agent::{Agent, Kind, COOLDOWN_TIME, MATING_COST, PREDATOR_ENERGY};
use valkarai::behavior::{decide, find_food, nearest, Intent, Role};
use valkarai::geometry::{isqrt, scale_to};
use valkarai::movement::{can_stand_at, desired_move, resolve_move};
use valkarai::reproduction::{mate, offspring, Mutation};
use valkarai::terrain::{classify, fertility_permille, speed_permille, Cell, Terrain};
use valkarai::tick::{pair_up, SpawnDraw, TickDraws};
use valkarai::world::World;

const PLAINS: i64 = 0;
const DESERT: i64 = -200;
const OCEAN: i64 = -500;

fn prey(x: i64, y: i64, energy: i64) -> Agent {
    Agent {
        id: 0,
        x,
        y,
        energy,
        cooldown: 0,
        speed_gene: 150,
        vision_gene: 15_000,
        kind: Kind::Prey,
        health: 100_000,
        damage: 10_000,
    }
}

fn predator(x: i64, y: i64) -> Agent {
    Agent { kind: Kind::Predator, energy: PREDATOR_ENERGY, ..prey(x, y, PREDATOR_ENERGY) }
}

fn grid(size: usize, fill: i64, special: &[(usize, usize, i64)]) -> Vec<i64> {
    let mut noise = vec![fill; size * size];
    for &(x, y, v) in special {
        noise[x * size + y] = v;
    }
    noise
}

fn cells_of(size: usize, fill: i64, special: &[(usize, usize, i64)]) -> Vec<Cell> {
    grid(size, fill, special).into_iter().map(|v| Cell { terrain: classify(v), food: 0 }).collect()
}

fn still_draws(n: usize) -> TickDraws {
    let calm = Mutation { active: false, speed: 1000, vision: 1000, health: 1000, damage: 1000 };
    let idle = SpawnDraw { roll: 999, x: 0, y: 0, chance: 999 };
    TickDraws { spawns: vec![idle; 3], wander: vec![(0, 0); n], mutations: vec![calm; n] }
}

fn find(world: &World, id: u64) -> Option<Agent> {
    (0..world.agent_count()).filter_map(|i| world.agent(i)).find(|a| a.id == id)
}

#[test]
fn integer_square_roots() {
    assert_eq!(isqrt(0), 0);
    assert_eq!(isqrt(1), 1);
    assert_eq!(isqrt(15), 3);
    assert_eq!(isqrt(16), 4);
    assert_eq!(isqrt(25_000_000), 5000);
    assert_eq!(isqrt(0x3fff_ffff_ffff_ffff), 0x7fff_ffff);
}

#[test]
fn scaling_a_direction() {
    assert_eq!(scale_to(3000, 4000, 100), (60, 80));
    assert_eq!(scale_to(-3000, 4000, 100), (-60, 80));
    assert_eq!(scale_to(0, -7, 150), (0, -150));
    assert_eq!(scale_to(0, 0, 150), (0, 0));
}

#[test]
fn noise_bands() {
    assert_eq!(classify(900), Terrain::Mountain);
    assert_eq!(classify(500), Terrain::Forest);
    assert_eq!(classify(201), Terrain::Forest);
    assert_eq!(classify(200), Terrain::Plains);
    assert_eq!(classify(-99), Terrain::Plains);
    assert_eq!(classify(-100), Terrain::Desert);
    assert_eq!(classify(-299), Terrain::Desert);
    assert_eq!(classify(-300), Terrain::Ocean);
    assert_eq!(speed_permille(Terrain::Plains), 1000);
    assert_eq!(speed_permille(Terrain::Mountain), 200);
    assert_eq!(fertility_permille(Terrain::Forest), 600);
    assert_eq!(fertility_permille(Terrain::Ocean), 0);
}

#[test]
fn consuming_food_stops_at_zero() {
    let mut c = Cell { terrain: Terrain::Plains, food: 15_000 };
    assert_eq!(c.consume(20_000), 15_000);
    assert_eq!(c.food, 0);
    assert_eq!(c.consume(20_000), 0);
    assert_eq!(c.food, 0);
    let mut d = Cell { terrain: Terrain::Plains, food: 80_000 };
    assert_eq!(d.consume(20_000), 20_000);
    assert_eq!(d.food, 60_000);
    let mut e = Cell { terrain: Terrain::Plains, food: u64::MAX - 5 };
    e.add_food();
    assert_eq!(e.food, u64::MAX);
}

#[test]
fn nearest_threat_and_mate() {
    let agents = vec![prey(10_000, 10_000, 95_000), predator(20_000, 10_000), predator(14_000, 10_000), prey(11_000, 10_000, 95_000)];
    assert_eq!(nearest(&agents, 0, Role::Threat), Some(2));
    assert_eq!(nearest(&agents, 0, Role::Mate), Some(3));
    assert_eq!(nearest(&agents, 1, Role::Quarry), Some(3));
    let far = vec![prey(10_000, 10_000, 95_000), predator(40_000, 10_000)];
    assert_eq!(nearest(&far, 0, Role::Threat), None);
}

#[test]
fn desert_food_counts_three_times_as_far() {
    let size = 30;
    let mut cells = cells_of(size, PLAINS, &[(10, 14, DESERT)]);
    cells[10 * size + 14].food = 50_000;
    cells[10 * size + 6].food = 50_000;
    let a = Agent { vision_gene: 8_000, ..prey(10_500, 10_500, 50_000) };
    assert_eq!(find_food(&cells, size, &a), Some((10, 6)));
    // Without the plains food the desert cell is still chosen.
    cells[10 * size + 6].food = 0;
    assert_eq!(find_food(&cells, size, &a), Some((10, 14)));
    // Food on the ocean is never considered.
    let mut wet = cells_of(size, PLAINS, &[(12, 10, OCEAN)]);
    wet[12 * size + 10].food = 50_000;
    assert_eq!(find_food(&wet, size, &a), None);
}

#[test]
fn scenario_desert_penalty() {
    let size = 30;
    let noise = grid(size, PLAINS, &[(10, 14, DESERT)]);
    let mut world = World::from_noise(1, size, &noise, false).unwrap();
    assert!(world.set_food(10, 14, 50_000));
    assert!(world.set_food(10, 6, 50_000));
    let id = world.add_agent(Agent { vision_gene: 8_000, ..prey(10_500, 10_500, 50_000) }).unwrap();
    world.advance(&still_draws(1));
    let a = find(&world, id).unwrap();
    assert_eq!(a.x, 10_500);
    assert_eq!(a.y, 10_500 - 150);
}

#[test]
fn scenario_flee_overrides_mating() {
    let size = 40;
    let noise = grid(size, PLAINS, &[]);
    let mut world = World::from_noise(2, size, &noise, false).unwrap();
    let first = world.add_agent(prey(10_000, 10_000, 95_000)).unwrap();
    world.add_agent(prey(10_500, 10_000, 95_000)).unwrap();
    world.add_agent(predator(16_000, 10_000)).unwrap();
    world.advance(&still_draws(3));
    let a = find(&world, first).unwrap();
    // Away from the predator (towards -x) at 1.3 times its speed, not towards
    // the mate at +x.
    assert_eq!(a.x, 10_000 - 195);
    assert_eq!(a.y, 10_000);
}

#[test]
fn without_a_threat_prey_seek_their_mate() {
    let size = 40;
    let noise = grid(size, PLAINS, &[]);
    let mut world = World::from_noise(2, size, &noise, false).unwrap();
    let first = world.add_agent(prey(10_000, 10_000, 95_000)).unwrap();
    world.add_agent(prey(13_000, 10_000, 95_000)).unwrap();
    world.advance(&still_draws(2));
    let a = find(&world, first).unwrap();
    assert_eq!(a.x, 10_150);
}

#[test]
fn scenario_sliding_collision() {
    let size = 30;
    let a = prey(10_900, 10_900, 50_000);
    // Diagonal cell is ocean: slide along x.
    let cells = cells_of(size, PLAINS, &[(11, 11, OCEAN)]);
    assert_eq!(resolve_move(&cells, size, &a, false, 200, 200), (11_100, 10_900));
    // x is blocked as well: slide along y.
    let cells = cells_of(size, PLAINS, &[(11, 11, OCEAN), (11, 10, OCEAN)]);
    assert_eq!(resolve_move(&cells, size, &a, false, 200, 200), (10_900, 11_100));
    // Everything is blocked: stay.
    let cells = cells_of(size, PLAINS, &[(11, 11, OCEAN), (11, 10, OCEAN), (10, 11, OCEAN)]);
    assert_eq!(resolve_move(&cells, size, &a, false, 200, 200), (10_900, 10_900));
    // Open ground: the full step.
    let cells = cells_of(size, PLAINS, &[]);
    assert_eq!(resolve_move(&cells, size, &a, false, 200, 200), (11_100, 11_100));
}

#[test]
fn desert_stops_only_well_fed_prey() {
    let size = 30;
    let cells = cells_of(size, PLAINS, &[(11, 10, DESERT)]);
    let fed = prey(10_900, 10_500, 50_000);
    assert!(!can_stand_at(&cells, size, 11_100, 10_500, &fed, false));
    assert!(can_stand_at(&cells, size, 11_100, 10_500, &fed, true));
    let hungry = prey(10_900, 10_500, 30_000);
    assert!(can_stand_at(&cells, size, 11_100, 10_500, &hungry, false));
    let hunter = predator(10_900, 10_500);
    assert!(can_stand_at(&cells, size, 11_100, 10_500, &hunter, false));
    assert_eq!(resolve_move(&cells, size, &fed, false, 200, 0), (10_900, 10_500));
}

#[test]
fn positions_are_clamped_to_the_grid() {
    let size = 10;
    let cells = cells_of(size, PLAINS, &[]);
    let a = prey(8_950, 50, 50_000);
    assert_eq!(resolve_move(&cells, size, &a, false, 200, -200), (9_000, 0));
}

#[test]
fn desired_moves_by_intent() {
    let size = 30;
    let cells = cells_of(size, PLAINS, &[(10, 10, 600)]);
    // Mountain under the agent: 150 * 0.2 = 30 per tick.
    let a = prey(10_500, 10_500, 50_000);
    assert_eq!(desired_move(Intent::Seek { tx: 20_500, ty: 10_500 }, &a, &cells, size, 0, 0), (30, 0));
    assert_eq!(desired_move(Intent::Flee { dx: 0, dy: -10 }, &a, &cells, size, 0, 0), (0, -39));
    assert_eq!(desired_move(Intent::Seek { tx: 10_550, ty: 10_500 }, &a, &cells, size, 0, 0), (0, 0));
    assert_eq!(desired_move(Intent::Wander, &a, &cells, size, 1000, 0), (15, 0));
}

#[test]
fn decisions_follow_priority() {
    let size = 30;
    let mut cells = cells_of(size, PLAINS, &[]);
    cells[5 * size + 5].food = 10_000;
    let agents = vec![prey(5_500, 9_500, 95_000), prey(5_500, 9_000, 95_000)];
    assert_eq!(decide(&agents, &cells, size, 0), Intent::Seek { tx: 5_500, ty: 9_000 });
    let hungry = vec![prey(5_500, 9_500, 50_000)];
    assert_eq!(decide(&hungry, &cells, size, 0), Intent::Seek { tx: 5_500, ty: 5_500 });
    let lonely = vec![prey(25_500, 25_500, 50_000)];
    assert_eq!(decide(&lonely, &cells, size, 0), Intent::Wander);
    let chased = vec![prey(5_500, 9_500, 95_000), predator(5_500, 12_500)];
    assert_eq!(decide(&chased, &cells, size, 0), Intent::Flee { dx: 0, dy: -3_000 });
    assert_eq!(decide(&chased, &cells, size, 1), Intent::Seek { tx: 5_500, ty: 9_500 });
}

#[test]
fn mating_costs_both_parents_and_yields_one_child() {
    let mut a = Agent { speed_gene: 100, vision_gene: 10_000, ..prey(4_000, 4_000, 95_000) };
    let mut b = Agent { speed_gene: 201, vision_gene: 20_000, ..prey(4_500, 4_000, 99_000) };
    let calm = Mutation { active: false, speed: 1000, vision: 1000, health: 1000, damage: 1000 };
    let child = mate(&mut a, &mut b, &calm, 77);
    assert_eq!(a.energy, 95_000 - MATING_COST);
    assert_eq!(b.energy, 99_000 - MATING_COST);
    assert_eq!(a.cooldown, COOLDOWN_TIME);
    assert_eq!(b.cooldown, COOLDOWN_TIME);
    assert_eq!(child.id, 77);
    assert_eq!((child.x, child.y), (4_000, 4_000));
    assert_eq!(child.energy, 60_000);
    assert_eq!(child.cooldown, COOLDOWN_TIME);
    assert_eq!(child.speed_gene, 150);
    assert_eq!(child.vision_gene, 15_000);
    assert_eq!(child.kind, Kind::Prey);
}

#[test]
fn mutation_scales_and_clamps_traits() {
    let a = Agent { speed_gene: 290, vision_gene: 29_000, ..prey(0, 0, 95_000) };
    let b = Agent { speed_gene: 300, vision_gene: 30_000, ..prey(0, 0, 95_000) };
    let up = Mutation { active: true, speed: 1099, vision: 900, health: 1050, damage: 1000 };
    let c = offspring(&a, &b, &up, 1);
    assert_eq!(c.speed_gene, 300);
    assert_eq!(c.vision_gene, 26_550);
    assert_eq!(c.health, 105_000);
    assert_eq!(c.damage, 10_000);
    let low = Agent { speed_gene: 80, vision_gene: 8_000, ..prey(0, 0, 95_000) };
    let down = Mutation { active: true, speed: 900, vision: 900, health: 1000, damage: 1000 };
    let d = offspring(&low, &low, &down, 2);
    assert_eq!(d.speed_gene, 80);
    assert_eq!(d.vision_gene, 8_000);
}

#[test]
fn reproduction_in_a_tick() {
    let size = 20;
    let noise = grid(size, PLAINS, &[]);
    let mut world = World::from_noise(3, size, &noise, false).unwrap();
    let a = world.add_agent(prey(5_000, 5_000, 95_000)).unwrap();
    let b = world.add_agent(prey(5_500, 5_000, 95_000)).unwrap();
    world.advance(&still_draws(2));
    assert_eq!(world.agent_count(), 3);
    let pa = find(&world, a).unwrap();
    let pb = find(&world, b).unwrap();
    assert!(pa.energy < 50_000 && pb.energy < 50_000);
    assert_eq!(pa.cooldown, COOLDOWN_TIME);
    let child = world.agent(2).unwrap();
    assert_eq!(child.id, 2);
    assert_eq!(child.energy, 60_000);
    assert_eq!((child.x, child.y), (pa.x, pa.y));
    // Both parents are on cooldown: no second child on the next tick.
    world.advance(&still_draws(3));
    assert_eq!(world.agent_count(), 3);
}

#[test]
fn exhausted_agents_are_removed() {
    let size = 20;
    let noise = grid(size, PLAINS, &[]);
    let mut world = World::from_noise(4, size, &noise, false).unwrap();
    world.add_agent(prey(5_000, 5_000, 100)).unwrap();
    let keep = world.add_agent(prey(15_000, 15_000, 50_000)).unwrap();
    world.advance(&still_draws(2));
    assert_eq!(world.agent_count(), 1);
    assert_eq!(world.agent(0).unwrap().id, keep);
    assert!(world.agent(0).unwrap().energy > 0);
}

#[test]
fn infection_is_permanent() {
    let size = 20;
    let noise = grid(size, PLAINS, &[]);
    let mut world = World::from_noise(5, size, &noise, false).unwrap();
    let victim = world.add_agent(prey(5_000, 5_000, 50_000)).unwrap();
    let hunter = world.add_agent(Agent { energy: 1_234, ..predator(5_500, 5_000) }).unwrap();
    world.advance(&still_draws(2));
    assert_eq!(find(&world, hunter).unwrap().energy, 1_234);
    let v = find(&world, victim).unwrap();
    assert_eq!(v.kind, Kind::Predator);
    assert_eq!(v.energy, PREDATOR_ENERGY);
    for _ in 0..50 {
        world.step();
        assert_eq!(find(&world, victim).unwrap().kind, Kind::Predator);
    }
}

#[test]
fn infection_can_spare_prey_on_cooldown() {
    let size = 20;
    let noise = grid(size, PLAINS, &[]);
    let mut world = World::from_noise(5, size, &noise, true).unwrap();
    let resting = world.add_agent(Agent { cooldown: 10, ..prey(5_000, 5_000, 50_000) }).unwrap();
    world.add_agent(predator(5_500, 5_000)).unwrap();
    world.advance(&still_draws(2));
    assert_eq!(find(&world, resting).unwrap().kind, Kind::Prey);
}

#[test]
fn food_regrows_by_spawn_draws() {
    let size = 10;
    let noise = grid(size, PLAINS, &[(1, 1, OCEAN)]);
    let mut world = World::from_noise(6, size, &noise, false).unwrap();
    let first = vec![
        SpawnDraw { roll: 100, x: 3, y: 4, chance: 399 },
        SpawnDraw { roll: 100, x: 3, y: 4, chance: 399 },
        SpawnDraw { roll: 800, x: 5, y: 5, chance: 0 },
    ];
    world.advance(&TickDraws { spawns: first, wander: Vec::new(), mutations: Vec::new() });
    let second = vec![
        SpawnDraw { roll: 0, x: 6, y: 6, chance: 400 },
        SpawnDraw { roll: 0, x: 1, y: 1, chance: 0 },
        SpawnDraw { roll: 799, x: 7, y: 2, chance: 0 },
    ];
    world.advance(&TickDraws { spawns: second, wander: Vec::new(), mutations: Vec::new() });
    assert_eq!(world.cell(7, 2).unwrap().food, 80_000);
    assert_eq!(world.cell(3, 4).unwrap().food, 160_000);
    assert_eq!(world.cell(5, 5).unwrap().food, 0);
    assert_eq!(world.cell(6, 6).unwrap().food, 0);
    assert_eq!(world.cell(1, 1).unwrap().food, 0);
}

#[test]
fn eating_turns_food_into_energy() {
    let size = 10;
    let noise = grid(size, PLAINS, &[]);
    let mut world = World::from_noise(7, size, &noise, false).unwrap();
    world.set_food(2, 2, 15_000);
    let id = world.add_agent(prey(2_500, 2_500, 50_000)).unwrap();
    world.advance(&still_draws(1));
    let a = find(&world, id).unwrap();
    // Upkeep 100 + 90 + 67 = 257, then 15 000 eaten for 22 500.
    assert_eq!(a.energy, 50_000 - 257 + 22_500);
    assert_eq!(world.cell(2, 2).unwrap().food, 0);
}

#[test]
fn malformed_worlds_are_rejected() {
    assert!(World::from_noise(0, 0, &Vec::new(), false).is_none());
    assert!(World::from_noise(0, 3, &vec![0; 8], false).is_none());
    assert!(World::from_noise(0, 600_000, &vec![0; 4], false).is_none());
    let mut w = World::from_noise(0, 3, &vec![0; 9], false).unwrap();
    assert!(w.add_agent(prey(2_001, 0, 50_000)).is_none());
    assert!(w.add_agent(prey(0, 0, 0)).is_none());
    assert!(w.add_agent(Agent { speed_gene: 301, ..prey(0, 0, 50_000) }).is_none());
    assert!(!w.set_food(3, 0, 1));
    assert_eq!(w.agent_count(), 0);
}

#[test]
fn population_lands_on_ground_with_starting_genes() {
    let size = 30;
    let noise: Vec<i64> = (0..size * size).map(|k| if (k / size) < 15 { OCEAN } else { PLAINS }).collect();
    let mut world = World::from_noise(8, size, &noise, false).unwrap();
    assert_eq!(world.populate(40, 1), 41);
    let snap = world.snapshot();
    assert_eq!(snap.agents.len(), 41);
    for (q, a) in snap.agents.iter().enumerate() {
        assert!(a.x >= 15_000 && a.x <= 29_000 && a.y >= 0 && a.y <= 29_000);
        if q < 40 {
            assert_eq!(a.kind, Kind::Prey);
            assert_eq!((a.energy, a.cooldown, a.health, a.damage), (100_000, 0, 100_000, 10_000));
            assert!(a.speed_gene >= 120 && a.speed_gene < 220);
            assert!(a.vision_gene >= 10_000 && a.vision_gene < 20_000);
        } else {
            assert_eq!(a.kind, Kind::Predator);
            assert_eq!((a.energy, a.speed_gene, a.vision_gene, a.health, a.damage), (PREDATOR_ENERGY, 150, 15_000, 300_000, 20_000));
        }
    }
    let ids: Vec<u64> = snap.agents.iter().map(|a| a.id).collect();
    assert_eq!(ids, (0..41).collect::<Vec<u64>>());
    let mut sea = World::from_noise(8, 4, &vec![OCEAN; 16], false).unwrap();
    assert_eq!(sea.populate(5, 1), 0);
}

#[test]
fn agents_stay_in_bounds_over_many_ticks() {
    let size = 40;
    let noise: Vec<i64> = (0..size * size).map(|k| ((k * 37) % 1000) as i64 - 450).collect();
    let mut world = World::from_noise(9, size, &noise, false).unwrap();
    world.populate(40, 2);
    for _ in 0..300 {
        world.step();
        let snap = world.snapshot();
        for a in &snap.agents {
            assert!(a.x >= 0 && a.x <= 39_000 && a.y >= 0 && a.y <= 39_000);
            assert!(a.energy > 0);
        }
        for w in snap.agents.windows(2) {
            assert!(w[0].id < w[1].id);
        }
    }
}

#[test]
fn first_parent_at_the_threshold_may_pair() {
    let calm = Mutation { active: false, speed: 1000, vision: 1000, health: 1000, damage: 1000 };
    let mut agents = vec![prey(5_000, 5_000, 90_000), prey(5_500, 5_000, 95_000)];
    let (born, next) = pair_up(&mut agents, &vec![calm; 2], 10, 20);
    assert_eq!(born.len(), 1);
    assert_eq!(next, 11);
    assert_eq!(born[0].id, 10);
    assert_eq!(agents[0].energy, 40_000);
    assert_eq!(agents[1].energy, 45_000);
    // A partner must exceed the threshold.
    let mut level = vec![prey(5_000, 5_000, 95_000), prey(5_500, 5_000, 90_000)];
    let (none, same) = pair_up(&mut level, &vec![calm; 2], 10, 20);
    assert!(none.is_empty());
    assert_eq!(same, 10);
}

#[test]
fn a_grid_larger_than_four_thousand_cells_a_side_is_accepted() {
    let size = 4_100;
    let world = World::from_noise(0, size, &vec![0; size * size], false).unwrap();
    assert_eq!(world.size(), size);
    assert_eq!(world.cell(4_099, 4_099).unwrap().terrain, Terrain::Plains);
}
