use falling_everything_core::cell64::Cell;
use falling_everything_core::explosion::{apply_chords, apply_with_endpoints, scanline_circle_outline};
use falling_everything_core::world::material;
use falling_everything_core::world::{Vec2i, World, CHUNK_SIZE};
use falling_everything_core::{base_strength_for_radius, ExplosionParams, ExplosionSpawn};
use rand::rngs::SmallRng;
use rand::seq::SliceRandom;
use rand::SeedableRng;

#[test]
fn base_strength_scales_with_radius() {
    assert_eq!(base_strength_for_radius(0), 96);
    assert_eq!(base_strength_for_radius(2), 96);
    assert_eq!(base_strength_for_radius(3), 108);
    assert_eq!(base_strength_for_radius(10), 360);
    assert_eq!(base_strength_for_radius(-1), u32::MAX);
}

#[test]
fn incendiary_params() {
    let p = ExplosionParams::gameplay_incendiary(Vec2i::new(4, 5), 7);
    assert_eq!(p.center, Vec2i::new(4, 5));
    assert_eq!(p.radius, 7);
    assert_eq!(p.base_strength, 252);
    assert!(!p.obliterate_disk);
    assert_eq!(p.fill_on_destroy, None);
    assert_eq!(
        p.edge_on_destroy,
        Some(ExplosionSpawn { material: material::FIRE, lifetime: Some(40), temperature: Some(800) })
    );
    assert_eq!(p.edge_band_inward, 2);
}

#[test]
fn scanline_outline_has_two_points_per_row() {
    let c = Vec2i::new(10, 20);
    let mut pts = scanline_circle_outline(c, 2);
    pts.sort_by_key(|p| (p.y, p.x));
    assert_eq!(
        pts,
        vec![
            Vec2i::new(10, 18),
            Vec2i::new(9, 19),
            Vec2i::new(11, 19),
            Vec2i::new(8, 20),
            Vec2i::new(12, 20),
            Vec2i::new(9, 21),
            Vec2i::new(11, 21),
            Vec2i::new(10, 22),
        ]
    );
    assert_eq!(scanline_circle_outline(c, 0), vec![c]);
}

#[test]
fn obliterate_clears_disk_and_lights_the_rim() {
    let mut w = World::new(CHUNK_SIZE, 64);
    let c = Vec2i::new(20, 20);
    w.paint_circle(c, 4, material::SAND);
    let mut params = ExplosionParams::gameplay_incendiary(c, 3);
    params.obliterate_disk = true;
    let mut rng = SmallRng::seed_from_u64(1);
    apply_with_endpoints(&mut w, &mut rng, params, Vec::new());
    assert_eq!(w.get_cell(c).material(), material::EMPTY);
    let rim = w.get_cell(Vec2i::new(23, 20));
    assert_eq!(rim.material(), material::FIRE);
    assert_eq!(rim.lifetime(), 40);
    assert_eq!(rim.temperature(), 800);
    assert_eq!(w.get_cell(Vec2i::new(24, 20)).material(), material::SAND);
}

#[test]
fn negative_radius_does_nothing() {
    let mut w = World::new(CHUNK_SIZE, 64);
    let c = Vec2i::new(20, 20);
    w.set_cell(c, Cell::new().with_material(material::SAND));
    let mut params = ExplosionParams::gameplay_incendiary(c, -1);
    params.obliterate_disk = true;
    let mut rng = SmallRng::seed_from_u64(1);
    apply_with_endpoints(&mut w, &mut rng, params, vec![c]);
    assert_eq!(w.get_cell(c).material(), material::SAND);
}

fn arm_world(c: Vec2i) -> World {
    let mut w = World::new(CHUNK_SIZE, 64);
    w.set_cell(c, Cell::new().with_material(material::SAND).with_lifetime(100));
    for i in 1..=6 {
        w.set_cell(Vec2i::new(c.x + i, c.y), Cell::new().with_material(material::SAND).with_lifetime(30));
        w.set_cell(Vec2i::new(c.x, c.y + i), Cell::new().with_material(material::SAND).with_lifetime(30));
    }
    w
}

fn snapshot(w: &World, c: Vec2i) -> Vec<(u16, u8)> {
    let mut v = Vec::new();
    for i in 0..=6 {
        for p in [Vec2i::new(c.x + i, c.y), Vec2i::new(c.x, c.y + i)] {
            let cell = w.get_cell(p);
            v.push((cell.material(), cell.lifetime()));
        }
    }
    v
}

#[test]
fn chords_wear_down_and_follow_the_shuffled_order() {
    let c = Vec2i::new(20, 20);
    let endpoints = vec![Vec2i::new(c.x + 6, c.y), Vec2i::new(c.x, c.y + 6)];
    let params = ExplosionParams {
        center: c,
        radius: 6,
        base_strength: 300,
        obliterate_disk: false,
        fill_on_destroy: None,
        edge_on_destroy: None,
        edge_band_inward: 2,
    };
    // Pick a seed whose shuffle swaps the two endpoints.
    let mut seed = 0u64;
    let shuffled = loop {
        let mut order = endpoints.clone();
        order.shuffle(&mut SmallRng::seed_from_u64(seed));
        if order != endpoints {
            break order;
        }
        seed += 1;
    };
    let mut in_order = arm_world(c);
    apply_chords(&mut in_order, &params, &endpoints);
    let mut expected = arm_world(c);
    apply_chords(&mut expected, &params, &shuffled);
    assert_ne!(snapshot(&in_order, c), snapshot(&expected, c), "order must matter for this setup");

    let mut w = arm_world(c);
    let mut rng = SmallRng::seed_from_u64(seed);
    apply_with_endpoints(&mut w, &mut rng, params, endpoints.clone());
    assert_eq!(snapshot(&w, c), snapshot(&expected, c));

    // The first chord along +x: centre 100 -> 70 (damage 30), then strength 300 - (72 + 100) = 128.
    let mut one = arm_world(c);
    apply_chords(&mut one, &params, &vec![Vec2i::new(c.x + 6, c.y)]);
    assert_eq!(one.get_cell(c).lifetime(), 70);
    // (c.x+1): damage 12 -> 18, strength 128 - 102 = 26; (c.x+2): damage 2 -> 28, strength 0.
    assert_eq!(one.get_cell(Vec2i::new(c.x + 1, c.y)).lifetime(), 18);
    assert_eq!(one.get_cell(Vec2i::new(c.x + 2, c.y)).lifetime(), 28);
    assert_eq!(one.get_cell(Vec2i::new(c.x + 3, c.y)).lifetime(), 30);
}
