use falling_everything_core::cell64::Cell;
use falling_everything_core::explosion::{apply_with_endpoints, scanline_circle_outline};
use falling_everything_core::render::copy_palette_indices_for_region;
use falling_everything_core::sim::engines::granular::accelerated;
use falling_everything_core::sim::engines::liquid::{liquid_prefer_left_first, scan_lateral_target};
use falling_everything_core::sim::frame::deposit_cell_on_path;
use falling_everything_core::sim::step_pixel::step_pixel;
use falling_everything_core::sim::engines::influence::try_adjacent_influence_on_neighbor;
use falling_everything_core::sim::engines::burn::spread_burn_to_neighbors;
use falling_everything_core::world::props::{AdjacentInfluenceRule, InfluenceVictimLifetime};
use falling_everything_core::sim::thermal::{check_phase_transition, step_temperature};
use falling_everything_core::sim::{
    can_displace, deterministic_hash, displace_verdict, is_burning, place_flame_spawns,
    resolve_particle_deposit_cell,
    try_displace, vertical_down_allows_density_swap, FlameSpawn, MoveIntent, Scheduler,
    SchedulerMode, Verdict,
};
use falling_everything_core::world::cell_flags;
use falling_everything_core::world::{
    material, AdjacentTransformRule, MaterialId, MaterialMotion, MaterialProps, NeighborSpawnRule,
    Phase, ReactionOutcome, RectI, Vec2i, World, CHUNK_SIZE,
};
use falling_everything_core::ExplosionParams;
use rand::rngs::SmallRng;
use rand::SeedableRng;
use std::collections::HashSet;

struct Sim {
    world: World,
    scheduler: Scheduler,
    rng: SmallRng,
}

fn new_sim_with(full_pass: bool) -> Sim {
    let mut scheduler = Scheduler::new(SchedulerMode::SingleThreadSeeded, 1);
    scheduler.set_debug_full_world_single_pass(full_pass);
    let mut world = World::new(CHUNK_SIZE, 512);
    world.set_ambient_temperature_k(293);
    Sim { world, scheduler, rng: SmallRng::seed_from_u64(1) }
}

fn new_sim() -> Sim {
    new_sim_with(false)
}

fn chord_endpoints(center: Vec2i, r: i32) -> Vec<Vec2i> {
    let mut set: HashSet<Vec2i> = HashSet::new();
    if r <= 0 {
        set.insert(center);
        return set.into_iter().collect();
    }
    for p in scanline_circle_outline(center, r) {
        set.insert(p);
    }
    let n = (8 * r).max(32);
    let cx = center.x as f64;
    let cy = center.y as f64;
    let rf = r as f64;
    for i in 0..n {
        let t = std::f64::consts::TAU * (i as f64) / (n as f64);
        let bx = (cx + t.cos() * rf).round() as i32;
        let by = (cy + t.sin() * rf).round() as i32;
        set.insert(Vec2i::new(bx, by));
    }
    set.into_iter().collect()
}

fn step(sim: &mut Sim) {
    sim.scheduler.step_world(&mut sim.world, &mut sim.rng);
    for (c, r) in sim.scheduler.take_pending_grid_explosions() {
        let params = ExplosionParams::gameplay_incendiary(c, r);
        let ends = chord_endpoints(c, r);
        apply_with_endpoints(&mut sim.world, &mut sim.rng, params, ends);
    }
    let spawns = sim.scheduler.take_flame_spawns();
    place_flame_spawns(&mut sim.world, &spawns, &mut sim.rng);
    sim.world.prune_rigid_ids_for_empty_cells();
    let _ = sim.world.take_physics_dirty_chunks();
    let _ = sim.world.finish_frame();
}

fn count_material(sim: &Sim, rect: RectI, id: u16) -> usize {
    copy_palette_indices_for_region(&sim.world, rect).into_iter().filter(|m| *m == id).count()
}

fn average_y_for_material(sim: &Sim, rect: RectI, id: u16) -> Option<f32> {
    let palette = copy_palette_indices_for_region(&sim.world, rect);
    let mut total_y = 0usize;
    let mut total = 0usize;
    let mut i = 0usize;
    for y in rect.min.y..=rect.max.y {
        for _x in rect.min.x..=rect.max.x {
            if palette[i] == id {
                total_y += y as usize;
                total += 1;
            }
            i += 1;
        }
    }
    if total > 0 { Some(total_y as f32 / total as f32) } else { None }
}

fn paint_cell(sim: &mut Sim, p: Vec2i, mat: MaterialId) {
    sim.world.paint_circle(p, 0, mat);
}

fn builtin_props(id: MaterialId) -> MaterialProps {
    falling_everything_core::materials::builtin_def_props(id).unwrap()
}

const CHAMBER: [(i32, i32); 10] = [(9, 9), (10, 9), (11, 9), (12, 9), (9, 10), (12, 10), (9, 11), (10, 11), (11, 11), (12, 11)];

#[test]
fn sand_falls_downward() {
    let mut sim = new_sim();
    sim.world.paint_circle(Vec2i::new(10, 10), 1, material::SAND);
    for _ in 0..3 {
        step(&mut sim);
    }
    let lower = copy_palette_indices_for_region(&sim.world, RectI::new(Vec2i::new(6, 12), Vec2i::new(14, 40)));
    assert!(lower.iter().any(|m| *m == material::SAND));
}

#[test]
fn deterministic_seeded_mode_is_repeatable() {
    let mut a = new_sim();
    let mut b = new_sim();
    a.world.paint_circle(Vec2i::new(20, 20), 4, material::LIQUID);
    b.world.paint_circle(Vec2i::new(20, 20), 4, material::LIQUID);
    for _ in 0..30 {
        step(&mut a);
        step(&mut b);
    }
    assert_eq!(deterministic_hash(&a.world), deterministic_hash(&b.world));
}

#[test]
fn pixels_do_not_disappear_near_bounds() {
    let mut sim = new_sim();
    let bounds = RectI::new(Vec2i::new(0, 0), Vec2i::new(31, 31));
    sim.world.set_solid_bounds(bounds);
    sim.world.paint_circle(Vec2i::new(2, 2), 2, material::SAND);
    let initial = count_material(&sim, bounds, material::SAND);
    for _ in 0..120 {
        step(&mut sim);
    }
    assert_eq!(initial, count_material(&sim, bounds, material::SAND));
}

#[test]
fn sand_sinks_through_liquid() {
    let mut sim = new_sim();
    let bounds = RectI::new(Vec2i::new(0, 0), Vec2i::new(47, 47));
    sim.world.set_solid_bounds(bounds);
    sim.world.paint_circle(Vec2i::new(24, 30), 10, material::LIQUID);
    sim.world.paint_circle(Vec2i::new(24, 10), 4, material::SAND);
    let sand_before = count_material(&sim, bounds, material::SAND);
    for _ in 0..200 {
        step(&mut sim);
    }
    let sand_below = count_material(&sim, RectI::new(Vec2i::new(0, 26), Vec2i::new(47, 47)), material::SAND);
    assert_eq!(sand_before, count_material(&sim, bounds, material::SAND));
    assert!(sand_below > sand_before / 2);
}

#[test]
fn gas_rises_through_liquid() {
    let mut sim = new_sim();
    let bounds = RectI::new(Vec2i::new(0, 0), Vec2i::new(47, 47));
    sim.world.set_solid_bounds(bounds);
    sim.world.paint_circle(Vec2i::new(24, 22), 12, material::LIQUID);
    sim.world.paint_circle(Vec2i::new(24, 34), 4, material::GAS);
    let initial = count_material(&sim, bounds, material::GAS);
    for _ in 0..240 {
        step(&mut sim);
    }
    let upper_gas = count_material(&sim, RectI::new(Vec2i::new(0, 0), Vec2i::new(47, 18)), material::GAS);
    assert_eq!(initial, count_material(&sim, bounds, material::GAS));
    assert!(upper_gas > 0);
}

#[test]
fn lighter_liquid_floats_on_heavier_liquid() {
    let mut sim = new_sim();
    let bounds = RectI::new(Vec2i::new(0, 0), Vec2i::new(47, 47));
    sim.world.set_solid_bounds(bounds);
    sim.world.paint_circle(Vec2i::new(24, 30), 10, material::HEAVY_LIQUID);
    sim.world.paint_circle(Vec2i::new(24, 12), 7, material::LIGHT_LIQUID);
    for _ in 0..260 {
        step(&mut sim);
    }
    let light_y = average_y_for_material(&sim, bounds, material::LIGHT_LIQUID).unwrap();
    let heavy_y = average_y_for_material(&sim, bounds, material::HEAVY_LIQUID).unwrap();
    assert!(light_y < heavy_y);
}

#[test]
fn static_blocks_all_displacement() {
    let mut sim = new_sim();
    let bounds = RectI::new(Vec2i::new(0, 0), Vec2i::new(31, 31));
    sim.world.set_solid_bounds(bounds);
    sim.world.paint_circle(Vec2i::new(16, 16), 4, material::STONE);
    sim.world.paint_circle(Vec2i::new(16, 2), 3, material::SAND);
    let stone_before = count_material(&sim, bounds, material::STONE);
    for _ in 0..180 {
        step(&mut sim);
    }
    assert_eq!(stone_before, count_material(&sim, bounds, material::STONE));
}

#[test]
fn material_count_conserved_in_closed_box() {
    let mut sim = new_sim();
    let bounds = RectI::new(Vec2i::new(0, 0), Vec2i::new(63, 63));
    sim.world.set_solid_bounds(bounds);
    sim.world.paint_circle(Vec2i::new(20, 20), 6, material::SAND);
    sim.world.paint_circle(Vec2i::new(40, 25), 7, material::LIQUID);
    sim.world.paint_circle(Vec2i::new(30, 50), 5, material::GAS);
    let before_sand = count_material(&sim, bounds, material::SAND);
    let before_liquid = count_material(&sim, bounds, material::LIQUID);
    let before_gas = count_material(&sim, bounds, material::GAS);
    for _ in 0..300 {
        step(&mut sim);
    }
    assert_eq!(before_sand, count_material(&sim, bounds, material::SAND));
    assert!(count_material(&sim, bounds, material::LIQUID) <= before_liquid);
    assert_eq!(before_gas, count_material(&sim, bounds, material::GAS));
}

#[test]
fn material_props_can_be_overridden() {
    let mut sim = new_sim();
    let bounds = RectI::new(Vec2i::new(0, 0), Vec2i::new(31, 31));
    sim.world.set_solid_bounds(bounds);
    let mut props = MaterialProps::default_const();
    props.density = 5;
    props.motion = MaterialMotion::Gas { viscosity: 0, max_speed: 4, acceleration: 1 };
    sim.world.set_material_props(material::SAND, props);
    sim.world.paint_circle(Vec2i::new(12, 12), 2, material::SAND);
    for _ in 0..30 {
        step(&mut sim);
    }
    let upper = count_material(&sim, RectI::new(Vec2i::new(0, 0), Vec2i::new(31, 10)), material::SAND);
    assert!(upper > 0);
}

#[test]
fn adjacent_liquid_wets_dry_sand() {
    let mut sim = new_sim();
    sim.world.set_solid_bounds(RectI::new(Vec2i::new(0, 0), Vec2i::new(31, 31)));
    for &(x, y) in &[(9, 9), (10, 9), (11, 9), (9, 10), (11, 10), (9, 11), (11, 11), (9, 12), (10, 12), (11, 12)] {
        paint_cell(&mut sim, Vec2i::new(x, y), material::STONE);
    }
    paint_cell(&mut sim, Vec2i::new(10, 10), material::LIQUID);
    paint_cell(&mut sim, Vec2i::new(10, 11), material::SAND);
    for _ in 0..240 {
        step(&mut sim);
        let c = sim.world.get_cell(Vec2i::new(10, 11));
        if c.material() == material::SAND && (c.flags() & cell_flags::WET) != 0 {
            return;
        }
    }
    panic!("expected WET on sand from adjacent water influence");
}

#[test]
fn plant_converts_adjacent_water() {
    let mut sim = new_sim();
    sim.world.set_solid_bounds(RectI::new(Vec2i::new(0, 0), Vec2i::new(31, 31)));
    for &(x, y) in &CHAMBER {
        paint_cell(&mut sim, Vec2i::new(x, y), material::STONE);
    }
    paint_cell(&mut sim, Vec2i::new(10, 10), material::PLANT);
    paint_cell(&mut sim, Vec2i::new(11, 10), material::LIQUID);
    let probe = RectI::new(Vec2i::new(9, 9), Vec2i::new(12, 11));
    assert_eq!(count_material(&sim, probe, material::PLANT), 1);
    assert_eq!(count_material(&sim, probe, material::LIQUID), 1);
    for _ in 0..64 {
        step(&mut sim);
        if count_material(&sim, probe, material::LIQUID) == 0 {
            break;
        }
    }
    assert_eq!(count_material(&sim, probe, material::LIQUID), 0);
    assert_eq!(count_material(&sim, probe, material::PLANT), 2);
}

#[test]
fn wood_converts_adjacent_water_to_plant() {
    let mut sim = new_sim();
    sim.world.set_solid_bounds(RectI::new(Vec2i::new(0, 0), Vec2i::new(31, 31)));
    for &(x, y) in &CHAMBER {
        paint_cell(&mut sim, Vec2i::new(x, y), material::STONE);
    }
    paint_cell(&mut sim, Vec2i::new(10, 10), material::WOOD);
    paint_cell(&mut sim, Vec2i::new(11, 10), material::LIQUID);
    let probe = RectI::new(Vec2i::new(9, 9), Vec2i::new(12, 11));
    assert_eq!(count_material(&sim, probe, material::WOOD), 1);
    assert_eq!(count_material(&sim, probe, material::LIQUID), 1);
    assert_eq!(count_material(&sim, probe, material::PLANT), 0);
    for _ in 0..64 {
        step(&mut sim);
        if count_material(&sim, probe, material::LIQUID) == 0 {
            break;
        }
    }
    assert_eq!(count_material(&sim, probe, material::LIQUID), 0);
    assert_eq!(count_material(&sim, probe, material::PLANT), 1);
    assert_eq!(count_material(&sim, probe, material::WOOD), 1);
}

#[test]
fn phase_transition_clears_rigid_flags_on_melt() {
    let mut sim = new_sim_with(true);
    sim.world.set_solid_bounds(RectI::new(Vec2i::new(0, 0), Vec2i::new(31, 31)));
    let p = Vec2i::new(10, 10);
    sim.world.set_cell(p, Cell::new().with_material(material::ICE).with_temperature(280).with_flags(cell_flags::RIGID_PIXEL));
    step(&mut sim);
    let mut found = false;
    for y in 8..=12 {
        for x in 8..=12 {
            let c = sim.world.get_cell(Vec2i::new(x, y));
            if c.material() == material::LIQUID && !c.has_flag(cell_flags::RIGID_PIXEL) {
                assert_eq!(c.rigid_source_material(), 0);
                found = true;
            }
        }
    }
    assert!(found, "expected melted ice (LIQUID) without RIGID_PIXEL in probe");
}

#[test]
fn adjacent_transform_uses_material_props_rules() {
    let mut sim = new_sim();
    sim.world.set_solid_bounds(RectI::new(Vec2i::new(0, 0), Vec2i::new(31, 31)));
    let mut plant_props = builtin_props(material::PLANT);
    plant_props.adjacent_transforms = [
        AdjacentTransformRule { from: material::SAND, to: material::LIQUID, chance_percent: 100, cardinal_neighbors_only: true, actor_lifetime_delta: 0 },
        AdjacentTransformRule::inactive(),
        AdjacentTransformRule::inactive(),
        AdjacentTransformRule::inactive(),
    ];
    sim.world.set_material_props(material::PLANT, plant_props);
    for &(x, y) in &CHAMBER {
        paint_cell(&mut sim, Vec2i::new(x, y), material::STONE);
    }
    paint_cell(&mut sim, Vec2i::new(10, 10), material::SAND);
    paint_cell(&mut sim, Vec2i::new(11, 10), material::PLANT);
    let probe = RectI::new(Vec2i::new(9, 9), Vec2i::new(12, 11));
    assert_eq!(count_material(&sim, probe, material::SAND), 1);
    assert_eq!(count_material(&sim, probe, material::LIQUID), 0);
    for _ in 0..30 {
        step(&mut sim);
        if count_material(&sim, probe, material::SAND) == 0 {
            break;
        }
    }
    assert_eq!(count_material(&sim, probe, material::SAND), 0);
    assert!(count_material(&sim, probe, material::LIQUID) >= 1);
    assert_eq!(count_material(&sim, probe, material::PLANT), 1);
}

#[test]
fn smoldering_wood_burns_away_eventually() {
    let mut sim = new_sim();
    let bounds = RectI::new(Vec2i::new(0, 0), Vec2i::new(31, 31));
    sim.world.set_solid_bounds(bounds);
    let mut fast_burn = builtin_props(material::WOOD);
    fast_burn.fuel_mass = 24;
    fast_burn.consumption_rate = 200;
    fast_burn.neighbor_spawns = [NeighborSpawnRule::inactive(); 4];
    sim.world.set_material_props(material::WOOD, fast_burn);
    for &(x, y) in &[(9, 20), (12, 20), (9, 19), (10, 19), (11, 19), (12, 19), (9, 21), (10, 21), (11, 21), (12, 21)] {
        paint_cell(&mut sim, Vec2i::new(x, y), material::STONE);
    }
    paint_cell(&mut sim, Vec2i::new(10, 20), material::WOOD);
    paint_cell(&mut sim, Vec2i::new(11, 20), material::FIRE);
    let start_wood = count_material(&sim, bounds, material::WOOD);
    assert!(start_wood > 0);
    for _ in 0..400 {
        step(&mut sim);
    }
    assert!(count_material(&sim, bounds, material::WOOD) < start_wood);
}

#[test]
fn fire_spread_does_not_replace_wood_with_fire_gas() {
    let mut sim = new_sim_with(true);
    sim.world.set_solid_bounds(RectI::new(Vec2i::new(0, 0), Vec2i::new(31, 31)));
    let mut wp = sim.world.material_props(material::WOOD);
    wp.fuel_mass = 0;
    wp.ignitability = 255;
    sim.world.set_material_props(material::WOOD, wp);
    paint_cell(&mut sim, Vec2i::new(10, 10), material::WOOD);
    paint_cell(&mut sim, Vec2i::new(10, 11), material::FIRE);
    for _ in 0..300 {
        step(&mut sim);
    }
    assert_eq!(sim.world.get_cell(Vec2i::new(10, 10)).material(), material::WOOD);
}

#[test]
fn fire_spread_does_not_instant_gas_when_wood_autoignition_cleared() {
    let mut sim = new_sim_with(true);
    sim.world.set_solid_bounds(RectI::new(Vec2i::new(0, 0), Vec2i::new(31, 31)));
    let mut wp = sim.world.material_props(material::WOOD);
    wp.fuel_mass = 0;
    wp.autoignition_temperature = 0;
    wp.ignitability = 255;
    sim.world.set_material_props(material::WOOD, wp);
    paint_cell(&mut sim, Vec2i::new(10, 10), material::WOOD);
    paint_cell(&mut sim, Vec2i::new(10, 11), material::FIRE);
    step(&mut sim);
    assert_eq!(sim.world.get_cell(Vec2i::new(10, 10)).material(), material::WOOD);
}

#[test]
fn acid_surrounded_wax_eventually_dissolves() {
    let mut sim = new_sim();
    let bounds = RectI::new(Vec2i::new(0, 0), Vec2i::new(31, 31));
    sim.world.set_solid_bounds(bounds);
    sim.world.paint_circle(Vec2i::new(16, 16), 7, material::ACID);
    sim.world.paint_circle(Vec2i::new(16, 16), 0, material::WAX);
    assert_eq!(count_material(&sim, bounds, material::WAX), 1);
    for _ in 0..8000 {
        step(&mut sim);
    }
    assert_eq!(count_material(&sim, bounds, material::WAX), 0);
}

#[test]
fn acid_surrounded_sand_eventually_dissolves() {
    let mut sim = new_sim();
    let bounds = RectI::new(Vec2i::new(0, 0), Vec2i::new(31, 31));
    sim.world.set_solid_bounds(bounds);
    sim.world.paint_circle(Vec2i::new(16, 16), 7, material::ACID);
    sim.world.paint_circle(Vec2i::new(16, 16), 0, material::SAND);
    assert_eq!(count_material(&sim, bounds, material::SAND), 1);
    for _ in 0..8000 {
        step(&mut sim);
    }
    assert_eq!(count_material(&sim, bounds, material::SAND), 0);
}

#[test]
fn plant_does_not_fall_when_suspended() {
    let mut sim = new_sim();
    let bounds = RectI::new(Vec2i::new(0, 0), Vec2i::new(31, 31));
    sim.world.set_solid_bounds(bounds);
    paint_cell(&mut sim, Vec2i::new(16, 8), material::PLANT);
    for _ in 0..120 {
        step(&mut sim);
    }
    assert_eq!(count_material(&sim, bounds, material::PLANT), 1);
    assert_eq!(copy_palette_indices_for_region(&sim.world, RectI::new(Vec2i::new(16, 8), Vec2i::new(16, 8)))[0], material::PLANT);
}

#[test]
fn fire_adjacent_transform_vaporizes_water_or_extinguishes_fire() {
    let mut sim = new_sim();
    sim.world.set_solid_bounds(RectI::new(Vec2i::new(0, 0), Vec2i::new(31, 31)));
    for y in 8..=12 {
        for x in 8..=12 {
            paint_cell(&mut sim, Vec2i::new(x, y), material::STONE);
        }
    }
    for y in 9..=11 {
        for x in 9..=11 {
            paint_cell(&mut sim, Vec2i::new(x, y), material::FIRE);
        }
    }
    paint_cell(&mut sim, Vec2i::new(10, 10), material::LIQUID);
    let probe = RectI::new(Vec2i::new(8, 8), Vec2i::new(12, 12));
    assert_eq!(count_material(&sim, probe, material::LIQUID), 1);
    assert!(count_material(&sim, probe, material::FIRE) >= 1);
    for _ in 0..120 {
        step(&mut sim);
    }
    let liquid = count_material(&sim, probe, material::LIQUID);
    let fire_left = count_material(&sim, probe, material::FIRE);
    assert!(liquid == 0 || fire_left == 0, "liquid={liquid}, fire={fire_left}");
}

#[test]
fn steam_condenses_to_water_when_lifetime_ends() {
    let mut sim = new_sim();
    let bounds = RectI::new(Vec2i::new(0, 0), Vec2i::new(31, 31));
    sim.world.set_solid_bounds(bounds);
    for dx in -1i32..=1 {
        for dy in -1i32..=1 {
            if dx == 0 && dy == 0 {
                continue;
            }
            paint_cell(&mut sim, Vec2i::new(16 + dx, 16 + dy), material::STONE);
        }
    }
    paint_cell(&mut sim, Vec2i::new(16, 16), material::STEAM);
    for _ in 0..200 {
        step(&mut sim);
    }
    assert_eq!(copy_palette_indices_for_region(&sim.world, RectI::new(Vec2i::new(16, 16), Vec2i::new(16, 16)))[0], material::LIQUID);
    assert_eq!(count_material(&sim, bounds, material::STEAM), 0);
}

#[test]
fn lava_trapped_cools_to_obsidian() {
    let mut sim = new_sim();
    let bounds = RectI::new(Vec2i::new(0, 0), Vec2i::new(31, 31));
    sim.world.set_solid_bounds(bounds);
    for dx in -1i32..=1 {
        for dy in -1i32..=1 {
            if dx == 0 && dy == 0 {
                continue;
            }
            paint_cell(&mut sim, Vec2i::new(16 + dx, 16 + dy), material::STONE);
        }
    }
    paint_cell(&mut sim, Vec2i::new(16, 16), material::LAVA);
    for _ in 0..60_000 {
        step(&mut sim);
        if count_material(&sim, bounds, material::LAVA) == 0 {
            break;
        }
    }
    let final_mat = copy_palette_indices_for_region(&sim.world, RectI::new(Vec2i::new(16, 16), Vec2i::new(16, 16)))[0];
    assert!(final_mat == material::OBSIDIAN || final_mat == material::SAND, "got material {}", final_mat);
    assert_eq!(count_material(&sim, bounds, material::LAVA), 0);
}

#[test]
fn torch_neighbor_spawns_fire() {
    let mut sim = new_sim();
    let bounds = RectI::new(Vec2i::new(0, 0), Vec2i::new(31, 31));
    sim.world.set_solid_bounds(bounds);
    paint_cell(&mut sim, Vec2i::new(15, 15), material::TORCH);
    let probe = RectI::new(Vec2i::new(14, 14), Vec2i::new(16, 16));
    assert_eq!(count_material(&sim, probe, material::FIRE), 0);
    for _ in 0..4000 {
        step(&mut sim);
        if count_material(&sim, bounds, material::FIRE) > 0 {
            break;
        }
    }
    assert!(count_material(&sim, bounds, material::FIRE) >= 1);
}

#[test]
fn lava_adjacent_water_produces_steam_and_obsidian() {
    let mut sim = new_sim();
    sim.world.set_solid_bounds(RectI::new(Vec2i::new(0, 0), Vec2i::new(31, 31)));
    for &(x, y) in &CHAMBER {
        paint_cell(&mut sim, Vec2i::new(x, y), material::STONE);
    }
    paint_cell(&mut sim, Vec2i::new(10, 10), material::LAVA);
    paint_cell(&mut sim, Vec2i::new(11, 10), material::LIQUID);
    let probe = RectI::new(Vec2i::new(9, 9), Vec2i::new(12, 11));
    let mut saw_steam = false;
    for _ in 0..500 {
        step(&mut sim);
        if count_material(&sim, probe, material::STEAM) >= 1 {
            saw_steam = true;
            break;
        }
    }
    assert!(saw_steam);
    assert_eq!(count_material(&sim, probe, material::LIQUID), 0);
}

const HOT_CHAMBER: [(i32, i32); 10] = [(14, 14), (15, 14), (16, 14), (17, 14), (14, 15), (17, 15), (14, 16), (15, 16), (16, 16), (17, 16)];

#[test]
fn temperature_conduction_hot_to_cold() {
    let mut sim = new_sim();
    sim.world.set_solid_bounds(RectI::new(Vec2i::new(0, 0), Vec2i::new(31, 31)));
    for &(x, y) in &HOT_CHAMBER {
        paint_cell(&mut sim, Vec2i::new(x, y), material::STONE);
    }
    paint_cell(&mut sim, Vec2i::new(15, 15), material::LAVA);
    paint_cell(&mut sim, Vec2i::new(16, 15), material::SAND);
    let before = sim.world.get_cell(Vec2i::new(16, 15)).temperature();
    for _ in 0..20 {
        step(&mut sim);
    }
    let after = sim.world.get_cell(Vec2i::new(16, 15)).temperature();
    assert!(after > before, "before={before}, after={after}");
}

#[test]
fn heat_conducts_through_empty_air_gap() {
    let mut sim = new_sim();
    sim.world.set_solid_bounds(RectI::new(Vec2i::new(0, 0), Vec2i::new(31, 31)));
    for &(x, y) in &[(12, 14), (13, 14), (14, 14), (15, 14), (16, 14), (17, 14), (12, 15), (17, 15), (12, 16), (13, 16), (14, 16), (15, 16), (16, 16), (17, 16)] {
        paint_cell(&mut sim, Vec2i::new(x, y), material::STONE);
    }
    paint_cell(&mut sim, Vec2i::new(13, 15), material::LAVA);
    paint_cell(&mut sim, Vec2i::new(15, 15), material::SAND);
    let sand_p = Vec2i::new(15, 15);
    let before = sim.world.get_cell(sand_p).temperature();
    for _ in 0..200 {
        step(&mut sim);
    }
    let after = sim.world.get_cell(sand_p).temperature();
    assert!(after > before, "before={before}, after={after}");
}

#[test]
fn lava_freezes_into_obsidian() {
    let mut sim = new_sim();
    let bounds = RectI::new(Vec2i::new(0, 0), Vec2i::new(31, 31));
    sim.world.set_solid_bounds(bounds);
    for dx in -1i32..=1 {
        for dy in -1i32..=1 {
            if dx == 0 && dy == 0 {
                continue;
            }
            paint_cell(&mut sim, Vec2i::new(16 + dx, 16 + dy), material::LIQUID);
        }
    }
    paint_cell(&mut sim, Vec2i::new(16, 16), material::LAVA);
    let mut saw_obsidian = false;
    for _ in 0..10_000 {
        step(&mut sim);
        if count_material(&sim, bounds, material::OBSIDIAN) > 0 {
            saw_obsidian = true;
            break;
        }
    }
    assert!(saw_obsidian);
}

#[test]
fn water_boils_to_steam_from_heat() {
    let mut sim = new_sim();
    let bounds = RectI::new(Vec2i::new(0, 0), Vec2i::new(31, 31));
    sim.world.set_solid_bounds(bounds);
    for &(x, y) in &HOT_CHAMBER {
        paint_cell(&mut sim, Vec2i::new(x, y), material::STONE);
    }
    paint_cell(&mut sim, Vec2i::new(15, 15), material::LAVA);
    paint_cell(&mut sim, Vec2i::new(16, 15), material::LIQUID);
    let mut saw_steam = false;
    for _ in 0..500 {
        step(&mut sim);
        if count_material(&sim, bounds, material::STEAM) > 0 {
            saw_steam = true;
            break;
        }
    }
    assert!(saw_steam);
}

#[test]
fn smolder_extinguishes_when_cooled_below_autoignition() {
    let mut sim = new_sim();
    sim.world.set_solid_bounds(RectI::new(Vec2i::new(0, 0), Vec2i::new(31, 31)));
    let mut wood_props = sim.world.material_props(material::WOOD);
    wood_props.adjacent_transforms = [AdjacentTransformRule::inactive(); 4];
    sim.world.set_material_props(material::WOOD, wood_props);
    let w = Vec2i::new(16, 16);
    let fuel = sim.world.material_props(material::WOOD).fuel_mass;
    sim.world.set_cell(w, Cell::new().with_material(material::WOOD).with_lifetime(fuel).with_temperature(650));
    let cold = 293u16;
    sim.world.set_cell(Vec2i::new(15, 16), Cell::new().with_material(material::LIQUID).with_temperature(cold));
    sim.world.set_cell(Vec2i::new(17, 16), Cell::new().with_material(material::LIQUID).with_temperature(cold));
    let mut saw_change = false;
    for _ in 0..4000 {
        step(&mut sim);
        if sim.world.get_cell(w).material() != material::WOOD {
            saw_change = true;
            break;
        }
    }
    assert!(saw_change, "wood should stop smoldering when cooled below autoignition via conduction");
}

// ----- the per-cell rules on their own -----

fn small_world() -> World {
    let mut world = World::new(CHUNK_SIZE, 512);
    world.set_solid_bounds(RectI::new(Vec2i::new(0, 0), Vec2i::new(31, 31)));
    world
}

#[test]
fn density_swap_table() {
    assert!(vertical_down_allows_density_swap(Phase::Liquid, Phase::Liquid));
    assert!(vertical_down_allows_density_swap(Phase::Solid, Phase::Liquid));
    assert!(vertical_down_allows_density_swap(Phase::Solid, Phase::Gas));
    assert!(vertical_down_allows_density_swap(Phase::Liquid, Phase::Gas));
    assert!(vertical_down_allows_density_swap(Phase::Gas, Phase::Gas));
    assert!(!vertical_down_allows_density_swap(Phase::Liquid, Phase::Solid));
    assert!(!vertical_down_allows_density_swap(Phase::Solid, Phase::Solid));
    assert!(!vertical_down_allows_density_swap(Phase::Gas, Phase::Liquid));
}

#[test]
fn burning_needs_fuel_lifetime_and_flag() {
    let mut wood = builtin_props(material::WOOD);
    wood.fuel_mass = 40;
    wood.autoignition_temperature = 500;
    let cell = Cell::new().with_material(material::WOOD).with_lifetime(10);
    assert!(!is_burning(cell, &wood));
    assert!(is_burning(cell.with_flags(cell_flags::ON_FIRE), &wood));
    assert!(!is_burning(cell.with_flags(cell_flags::ON_FIRE).with_lifetime(0), &wood));
    wood.autoignition_temperature = 0;
    assert!(is_burning(cell, &wood));
    let fire = Cell::new().with_material(material::FIRE).with_lifetime(10).with_flags(cell_flags::ON_FIRE);
    assert!(!is_burning(fire, &wood));
}

#[test]
fn verdicts_follow_density_and_phase() {
    let sand = builtin_props(material::SAND);
    let water = builtin_props(material::LIQUID);
    let gas = builtin_props(material::GAS);
    let empty = Cell::new();
    let water_cell = Cell::new().with_material(material::LIQUID);
    let gas_cell = Cell::new().with_material(material::GAS);
    assert_eq!(displace_verdict(&sand, empty, &water, MoveIntent::VerticalDown), Verdict::Always);
    let diff = (sand.density - water.density) as u32;
    let expected = if diff < 13 { Verdict::Roll(1, 20) } else if diff > 153 { Verdict::Roll(3, 5) } else { Verdict::Roll(diff, 256) };
    assert_eq!(displace_verdict(&sand, water_cell, &water, MoveIntent::VerticalDown), expected);
    assert_eq!(displace_verdict(&water, water_cell, &water, MoveIntent::Lateral), Verdict::Never);
    assert_eq!(displace_verdict(&water, gas_cell, &gas, MoveIntent::Lateral), Verdict::Always);
    assert_eq!(displace_verdict(&gas, gas_cell, &gas, MoveIntent::Lateral), Verdict::Always);
    assert_eq!(displace_verdict(&water, water_cell, &water, MoveIntent::VerticalUp), Verdict::Never);
    let mut rng = SmallRng::seed_from_u64(3);
    assert!(can_displace(&sand, empty, &water, MoveIntent::Lateral, &mut rng));
    assert!(!can_displace(&water, water_cell, &water, MoveIntent::Lateral, &mut rng));
}

#[test]
fn density_odds_are_clamped() {
    let mut heavy = MaterialProps::default_const();
    heavy.motion = MaterialMotion::Liquid { viscosity: 0, max_speed: 1, acceleration: 1, extinguishes_fire: false };
    let mut light = heavy;
    heavy.density = 1000;
    light.density = 995;
    let light_cell = Cell::new().with_material(material::LIGHT_LIQUID);
    assert_eq!(displace_verdict(&heavy, light_cell, &light, MoveIntent::VerticalDown), Verdict::Roll(1, 20));
    light.density = 100;
    assert_eq!(displace_verdict(&heavy, light_cell, &light, MoveIntent::VerticalDown), Verdict::Roll(3, 5));
    light.density = 900;
    assert_eq!(displace_verdict(&heavy, light_cell, &light, MoveIntent::VerticalDown), Verdict::Roll(100, 256));
}

#[test]
fn displacing_into_empty_moves_the_cell() {
    let mut world = small_world();
    let sand = Cell::new().with_material(material::SAND).with_lifetime(3);
    world.set_cell(Vec2i::new(5, 5), sand);
    world.prepare_sim();
    let mut rng = SmallRng::seed_from_u64(7);
    let moved = try_displace(&mut world, Vec2i::new(5, 5), Vec2i::new(5, 6), MoveIntent::VerticalDown, &mut rng);
    assert!(moved);
    assert_eq!(world.sim_get(Vec2i::new(5, 6)).material(), material::SAND);
    assert_eq!(world.sim_get(Vec2i::new(5, 6)).lifetime(), 3);
    assert_eq!(world.sim_get(Vec2i::new(5, 5)), Cell::new());
    assert!(world.was_moved(Vec2i::new(5, 5)));
}

#[test]
fn stone_never_moves() {
    let mut world = small_world();
    world.set_cell(Vec2i::new(5, 5), Cell::new().with_material(material::STONE));
    world.prepare_sim();
    let mut rng = SmallRng::seed_from_u64(7);
    assert!(!try_displace(&mut world, Vec2i::new(5, 5), Vec2i::new(5, 6), MoveIntent::VerticalDown, &mut rng));
    world.set_cell(Vec2i::new(8, 8), Cell::new().with_material(material::SAND));
    world.set_cell(Vec2i::new(8, 9), Cell::new().with_material(material::STONE));
    world.prepare_sim();
    assert!(!try_displace(&mut world, Vec2i::new(8, 8), Vec2i::new(8, 9), MoveIntent::VerticalDown, &mut rng));
    assert_eq!(world.sim_get(Vec2i::new(8, 9)).material(), material::STONE);
    assert!(!try_displace(&mut world, Vec2i::new(8, 8), Vec2i::new(8, 40), MoveIntent::VerticalDown, &mut rng));
}

#[test]
fn reactions_transform_and_swap() {
    let mut world = small_world();
    world.set_reaction(material::SAND, material::LIQUID, ReactionOutcome::Transform(material::DIRT, material::STEAM));
    world.set_reaction(material::OIL, material::LIQUID, ReactionOutcome::Swap);
    world.set_cell(Vec2i::new(3, 3), Cell::new().with_material(material::SAND).with_lifetime(9));
    world.set_cell(Vec2i::new(3, 4), Cell::new().with_material(material::LIQUID).with_lifetime(4));
    world.set_cell(Vec2i::new(10, 3), Cell::new().with_material(material::OIL));
    world.set_cell(Vec2i::new(10, 4), Cell::new().with_material(material::LIQUID));
    world.prepare_sim();
    let mut rng = SmallRng::seed_from_u64(1);
    assert!(try_displace(&mut world, Vec2i::new(3, 3), Vec2i::new(3, 4), MoveIntent::VerticalDown, &mut rng));
    assert_eq!(world.sim_get(Vec2i::new(3, 4)).material(), material::DIRT);
    assert_eq!(world.sim_get(Vec2i::new(3, 4)).lifetime(), 4);
    assert_eq!(world.sim_get(Vec2i::new(3, 3)).material(), material::STEAM);
    assert_eq!(world.sim_get(Vec2i::new(3, 3)).lifetime(), 9);
    assert!(try_displace(&mut world, Vec2i::new(10, 3), Vec2i::new(10, 4), MoveIntent::Lateral, &mut rng));
    assert_eq!(world.sim_get(Vec2i::new(10, 3)).material(), material::LIQUID);
    assert_eq!(world.sim_get(Vec2i::new(10, 4)).material(), material::OIL);
}

#[test]
fn acceleration_caps_at_max_speed() {
    assert_eq!(accelerated(0, 1, 3), 1);
    assert_eq!(accelerated(3, 2, 4), 4);
    assert_eq!(accelerated(-2, 1, 5), -1);
    assert_eq!(accelerated(7, 100, 200), 107);
    assert_eq!(accelerated(7, 150, 200), -99);
}

#[test]
fn left_first_alternates_on_checkerboard() {
    assert!(liquid_prefer_left_first(Vec2i::new(0, 0)));
    assert!(!liquid_prefer_left_first(Vec2i::new(1, 0)));
    assert!(liquid_prefer_left_first(Vec2i::new(3, 5)));
}

#[test]
fn lateral_scan_finds_nearest_drop() {
    let mut world = small_world();
    for x in 0..32 {
        world.set_cell(Vec2i::new(x, 11), Cell::new().with_material(material::STONE));
        world.set_cell(Vec2i::new(x, 10), Cell::new().with_material(material::STONE));
    }
    world.set_cell(Vec2i::new(13, 11), Cell::new());
    world.set_cell(Vec2i::new(13, 10), Cell::new());
    world.prepare_sim();
    assert_eq!(scan_lateral_target(&world, Vec2i::new(10, 10), 1, 4), Some(3));
    assert_eq!(scan_lateral_target(&world, Vec2i::new(10, 10), 1, 2), None);
    assert_eq!(scan_lateral_target(&world, Vec2i::new(10, 10), -1, 4), None);
}

#[test]
fn flame_spawns_only_fill_empty_cells() {
    let mut world = small_world();
    world.set_cell(Vec2i::new(4, 4), Cell::new().with_material(material::SAND));
    let spawns = vec![
        FlameSpawn { pos: Vec2i::new(4, 4), temperature_k: 900 },
        FlameSpawn { pos: Vec2i::new(5, 4), temperature_k: 9000 },
    ];
    let mut rng = SmallRng::seed_from_u64(2);
    place_flame_spawns(&mut world, &spawns, &mut rng);
    assert_eq!(world.get_cell(Vec2i::new(4, 4)).material(), material::SAND);
    let fire = world.get_cell(Vec2i::new(5, 4));
    assert_eq!(fire.material(), material::FIRE);
    assert_eq!(fire.temperature(), 4095);
    assert!(fire.lifetime() >= 1);
}

#[test]
fn deposit_stops_before_first_wall_after_open_air() {
    let mut world = small_world();
    world.set_cell(Vec2i::new(0, 5), Cell::new().with_material(material::WOOD));
    world.set_cell(Vec2i::new(3, 5), Cell::new().with_material(material::STONE));
    let path: Vec<Vec2i> = (0..6).map(|x| Vec2i::new(x, 5)).collect();
    assert_eq!(deposit_cell_on_path(&world, &path), Some(Vec2i::new(2, 5)));
    let open: Vec<Vec2i> = (4..8).map(|x| Vec2i::new(x, 5)).collect();
    assert_eq!(deposit_cell_on_path(&world, &open), Some(Vec2i::new(7, 5)));
    let solid = vec![Vec2i::new(0, 5), Vec2i::new(3, 5)];
    assert_eq!(deposit_cell_on_path(&world, &solid), None);
}

#[test]
fn hash_of_empty_grid_and_change() {
    let mut world = small_world();
    let h0 = deterministic_hash(&world).unwrap();
    let mut h: u64 = 1469598103934665603;
    for _ in 0..(32 * 32) {
        let c = Cell::new();
        h ^= c.material() as u64;
        h = h.wrapping_mul(1099511628211);
        h ^= c.flags() as u64;
        h = h.wrapping_mul(1099511628211);
        h ^= c.velocity_x() as u64;
        h = h.wrapping_mul(1099511628211);
    }
    let blank = world.get_cell(Vec2i::new(0, 0));
    if blank == Cell::new() {
        assert_eq!(h0, h);
    }
    world.set_cell(Vec2i::new(1, 1), Cell::new().with_material(material::SAND));
    assert_ne!(deterministic_hash(&world).unwrap(), h0);
}

#[test]
fn conduction_warms_cold_neighbor_of_lava() {
    let mut world = small_world();
    world.set_cell(Vec2i::new(5, 5), Cell::new().with_material(material::SAND).with_temperature(300));
    world.set_cell(Vec2i::new(6, 5), Cell::new().with_material(material::LAVA).with_temperature(1500));
    world.prepare_sim();
    let mut rng = SmallRng::seed_from_u64(4);
    step_temperature(&mut world, Vec2i::new(5, 5), &mut rng, 1);
    assert!(world.sim_get(Vec2i::new(5, 5)).temperature() > 300);
    assert_eq!(world.sim_get(Vec2i::new(5, 5)).material(), material::SAND);
    assert_eq!(world.sim_get(Vec2i::new(6, 5)).temperature(), 1500);
}

#[test]
fn stone_does_not_conduct() {
    let mut world = small_world();
    world.set_cell(Vec2i::new(5, 5), Cell::new().with_material(material::STONE).with_temperature(300));
    world.set_cell(Vec2i::new(6, 5), Cell::new().with_material(material::LAVA).with_temperature(1500));
    world.prepare_sim();
    let mut rng = SmallRng::seed_from_u64(4);
    step_temperature(&mut world, Vec2i::new(5, 5), &mut rng, 1);
    assert_eq!(world.sim_get(Vec2i::new(5, 5)).temperature(), 300);
}

#[test]
fn ice_melts_and_leaves_rigid_body() {
    let mut world = small_world();
    let ice = builtin_props(material::ICE);
    assert!(ice.melt_temperature > 0);
    let p = Vec2i::new(7, 7);
    world.set_cell(p, Cell::new().with_material(material::ICE).with_temperature(ice.melt_temperature)
        .with_flags(cell_flags::RIGID_PIXEL | cell_flags::WET).with_rigid_source_material(material::ICE));
    world.prepare_sim();
    check_phase_transition(&mut world, p);
    let c = world.sim_get(p);
    assert_eq!(c.material(), ice.melt_into);
    assert_eq!(c.flags(), cell_flags::WET);
    assert_eq!(c.rigid_source_material(), 0);
    assert_eq!(c.temperature(), ice.melt_temperature);
}

#[test]
fn scheduler_counts_ticks_and_keeps_setup() {
    let mut world = small_world();
    let mut scheduler = Scheduler::new(SchedulerMode::ThreadPool, 9);
    let mut rng = SmallRng::seed_from_u64(9);
    scheduler.step_world(&mut world, &mut rng);
    scheduler.step_world(&mut world, &mut rng);
    assert_eq!(scheduler.mode(), SchedulerMode::ThreadPool);
    assert_eq!(world.grid_width(), 32);
    assert!(scheduler.take_flame_spawns().is_empty());
    assert!(scheduler.take_pending_grid_explosions().is_empty());
}

#[test]
fn chunk_step_mode_finishes_a_tick_over_several_calls() {
    let mut world = World::new(CHUNK_SIZE, 512);
    world.set_solid_bounds(RectI::new(Vec2i::new(0, 0), Vec2i::new(63, 63)));
    world.set_cell(Vec2i::new(5, 5), Cell::new().with_material(material::SAND));
    let mut scheduler = Scheduler::new(SchedulerMode::SingleThreadSeeded, 1);
    scheduler.set_debug_chunk_step(true);
    let mut rng = SmallRng::seed_from_u64(1);
    scheduler.step_world(&mut world, &mut rng);
    assert!(world.debug_chunk_highlight().is_some());
    for _ in 0..3 {
        scheduler.step_world(&mut world, &mut rng);
    }
    assert_eq!(world.debug_chunk_highlight(), None);
    let bounds = RectI::new(Vec2i::new(0, 0), Vec2i::new(63, 63));
    let sand = copy_palette_indices_for_region(&world, bounds).into_iter().filter(|m| *m == material::SAND).count();
    assert_eq!(sand, 1);
    scheduler.step_world(&mut world, &mut rng);
    scheduler.abort_debug_chunk_step(&mut world);
    assert_eq!(world.debug_chunk_highlight(), None);
}

#[test]
fn particle_deposit_clamped_before_wall_not_past_it() {
    // A fire particle at (10.4, 11.4) moving up at 180 cells/s for 1/60 s crosses cells (10, 11) to
    // (10, 8); the stone at (10, 10) stops it in the last empty cell before the wall.
    let mut world = World::new(CHUNK_SIZE, 512);
    let bounds = RectI::new(Vec2i::new(0, 0), Vec2i::new(31, 31));
    world.set_solid_bounds(bounds);
    world.set_cell(Vec2i::new(10, 10), Cell::new().with_material(material::STONE));
    let fire_cell = Cell::new().with_material(material::FIRE).with_temperature(800).with_lifetime(72);
    let start = Vec2i::new((10.4f32).round() as i32, (11.4f32).round() as i32);
    let end = Vec2i::new((10.4f32).round() as i32, (11.4f32 - 180.0 / 60.0).round() as i32);
    assert_eq!(world.get_cell(end).material(), material::EMPTY);
    let at = resolve_particle_deposit_cell(&world, start, end).expect("deposit cell");
    world.set_cell(at, fire_cell);

    assert_ne!(world.get_cell(Vec2i::new(10, 8)).material(), material::FIRE);
    assert_eq!(world.get_cell(Vec2i::new(10, 11)).material(), material::FIRE);
    assert_eq!(world.get_cell(Vec2i::new(10, 10)).material(), material::STONE);
}

#[test]
fn four_chunk_wood_grid_burns_out_from_bottom_fire() {
    let mut sim = new_sim_with(true);
    let w = 2 * CHUNK_SIZE;
    let h = 2 * CHUNK_SIZE;
    let bounds = RectI::new(Vec2i::new(0, 0), Vec2i::new(127, 127));
    sim.world.set_solid_bounds(bounds);

    let mut wood_props = builtin_props(material::WOOD);
    // Keep test runtime reasonable; physics is the same with default props after the spread fix.
    wood_props.consumption_rate = 180;
    wood_props.neighbor_spawns = [
        NeighborSpawnRule::inactive(),
        NeighborSpawnRule::inactive(),
        NeighborSpawnRule::inactive(),
        NeighborSpawnRule::inactive(),
    ];
    sim.world.set_material_props(material::WOOD, wood_props);

    sim.world.paint_rect_filled(Vec2i::new(0, 0), Vec2i::new(w - 1, h - 1), material::WOOD);
    let fire_y = h;
    for x in 0..w {
        paint_cell(&mut sim, Vec2i::new(x, fire_y), material::FIRE);
    }

    let probe = RectI::new(Vec2i::new(0, 0), Vec2i::new(w - 1, fire_y));
    let start_wood = count_material(&sim, probe, material::WOOD);
    assert_eq!(start_wood, (w * h) as usize);

    const MAX_STEPS: usize = 500_000;
    for s in 0..MAX_STEPS {
        if s % 90 == 0 {
            for x in 0..w {
                let p = Vec2i::new(x, fire_y);
                if sim.world.get_cell(p).material() == material::EMPTY {
                    paint_cell(&mut sim, p, material::FIRE);
                }
            }
        }
        step(&mut sim);
        if count_material(&sim, probe, material::WOOD) == 0 {
            return;
        }
    }
    panic!(
        "expected all wood to burn (neighbor spread must not refill lifetime); wood left {}",
        count_material(&sim, probe, material::WOOD)
    );
}

#[test]
fn one_pixel_step_leaves_far_cells_alone() {
    let mut world = World::new(CHUNK_SIZE, 512);
    world.set_ambient_temperature_k(293);
    let sand = Cell::new().with_material(material::SAND);
    let p = Vec2i::new(100, 100);
    let far = Vec2i::new(100 + 131, 100);
    world.set_cell(p, sand);
    world.set_cell(far, Cell::new().with_material(material::LIQUID));
    let before_far = world.get_cell(far);
    world.prepare_sim();
    let mut rng = SmallRng::seed_from_u64(7);
    let mut explosions = Vec::new();
    let mut flames = Vec::new();
    step_pixel(&mut world, p, &mut rng, &mut explosions, &mut flames, 1);
    world.finish_sim();
    assert_eq!(world.get_cell(far), before_far);
    assert!((100..=110).any(|y| world.get_cell(Vec2i::new(100, y)).material() == material::SAND));
}

fn influence_world() -> (World, Vec2i, Vec2i) {
    let mut world = World::new(CHUNK_SIZE, 512);
    let p = Vec2i::new(100, 100);
    let np = Vec2i::new(101, 100);
    world.set_cell(p, Cell::new().with_material(material::SAND));
    world.set_cell(np, Cell::new().with_material(material::LIQUID));
    world.prepare_sim();
    (world, p, np)
}

#[test]
fn certain_influence_rule_always_applies() {
    let (mut world, p, np) = influence_world();
    let mut rule = AdjacentInfluenceRule::inactive();
    rule.victim = material::LIQUID;
    rule.chance_percent = 100;
    rule.victim_lifetime = InfluenceVictimLifetime::SetTo(5);
    let mut rules = [AdjacentInfluenceRule::inactive(); 8];
    rules[3] = rule;
    let mut rng = SmallRng::seed_from_u64(3);
    assert!(try_adjacent_influence_on_neighbor(&mut world, p, material::SAND, np, 1, 0, &rules, 1, 1, &mut rng));
    world.finish_sim();
    assert_eq!(world.get_cell(np).lifetime(), 5);
}

#[test]
fn influence_without_a_matching_rule_does_nothing() {
    let (mut world, p, np) = influence_world();
    let mut rule = AdjacentInfluenceRule::inactive();
    rule.victim = material::STONE;
    rule.chance_percent = 100;
    let mut rules = [AdjacentInfluenceRule::inactive(); 8];
    rules[0] = rule;
    let mut rng = SmallRng::seed_from_u64(3);
    assert!(!try_adjacent_influence_on_neighbor(&mut world, p, material::SAND, np, 1, 0, &rules, 1, 1, &mut rng));
}

#[test]
fn spread_burn_ignites_every_flammable_neighbor() {
    let mut world = World::new(CHUNK_SIZE, 512);
    let mut wood = world.material_props(material::WOOD);
    wood.ignitability = 255;
    wood.fuel_mass = 50;
    wood.explosion_radius = 0;
    wood.on_heat_become = material::EMPTY;
    world.set_material_props(material::WOOD, wood);
    let mut fire = world.material_props(material::FIRE);
    fire.adjacent_influence = [AdjacentInfluenceRule::inactive(); 8];
    world.set_material_props(material::FIRE, fire);
    let p = Vec2i::new(100, 100);
    world.set_cell(p, Cell::new().with_material(material::FIRE));
    let mut neighbours = Vec::new();
    for dy in -1..=1 {
        for dx in -1..=1 {
            if dx != 0 || dy != 0 {
                let q = Vec2i::new(p.x + dx, p.y + dy);
                world.set_cell(q, Cell::new().with_material(material::WOOD));
                neighbours.push(q);
            }
        }
    }
    world.prepare_sim();
    let mut rng = SmallRng::seed_from_u64(9);
    let mut explosions = Vec::new();
    assert!(!spread_burn_to_neighbors(&mut world, p, material::FIRE, 1, 1, 255, &mut rng, &mut explosions));
    assert!(explosions.is_empty());
    for q in neighbours {
        let c = world.sim_get(q);
        assert_eq!(c.material(), material::WOOD, "{q:?}");
        assert_ne!(c.flags() & cell_flags::ON_FIRE, 0, "{q:?}");
        assert_eq!(c.lifetime(), 50, "{q:?}");
    }
}

#[test]
fn falling_grain_lands_below_in_one_step() {
    let mut world = World::new(CHUNK_SIZE, 512);
    let p = Vec2i::new(100, 100);
    world.set_cell(p, Cell::new().with_material(material::SAND));
    world.prepare_sim();
    let mut rng = SmallRng::seed_from_u64(5);
    falling_everything_core::sim::engines::granular::step_sand(&mut world, p, &mut rng);
    assert_eq!(world.sim_get(p).material(), material::EMPTY);
    let below = (101..=228).filter(|y| world.sim_get(Vec2i::new(100, *y)).material() == material::SAND).count();
    let anywhere = (-128..=128)
        .flat_map(|dy| (-128..=128).map(move |dx| Vec2i::new(100 + dx, 100 + dy)))
        .filter(|q| world.sim_get(*q).material() == material::SAND)
        .count();
    assert_eq!(anywhere, 1);
    assert_eq!(below, 1);
}

#[test]
fn smoke_ages_and_rises() {
    let mut world = World::new(CHUNK_SIZE, 512);
    let p = Vec2i::new(100, 100);
    world.set_cell(p, Cell::new().with_material(material::SMOKE).with_lifetime(10));
    world.prepare_sim();
    let mut rng = SmallRng::seed_from_u64(5);
    falling_everything_core::sim::steps::step_smoke(&mut world, p, &mut rng);
    let found: Vec<Vec2i> = (-128..=0)
        .flat_map(|dy| (-128..=128).map(move |dx| Vec2i::new(100 + dx, 100 + dy)))
        .filter(|q| world.sim_get(*q).material() == material::SMOKE)
        .collect();
    assert_eq!(found.len(), 1);
    assert!(found[0].y < p.y);
    assert_eq!(world.sim_get(found[0]).lifetime(), 9);
}

#[test]
fn supported_liquid_slides_toward_the_open_side() {
    let mut world = World::new(CHUNK_SIZE, 512);
    for x in 80..=120 {
        world.set_cell(Vec2i::new(x, 101), Cell::new().with_material(material::STONE));
    }
    for x in 80..=99 {
        world.set_cell(Vec2i::new(x, 100), Cell::new().with_material(material::STONE));
    }
    let p = Vec2i::new(100, 100);
    world.set_cell(p, Cell::new().with_material(material::LIQUID));
    world.prepare_sim();
    let mut rng = SmallRng::seed_from_u64(11);
    assert!(falling_everything_core::sim::engines::liquid::step_liquid_supported_slide(&mut world, p, &mut rng));
    assert_eq!(world.sim_get(p).material(), material::EMPTY);
    let right = (101..=103).filter(|x| world.sim_get(Vec2i::new(*x, 100)).material() == material::LIQUID).count();
    assert_eq!(right, 1);
}
