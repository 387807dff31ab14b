use falling_everything_core::cell64::Cell;
use falling_everything_core::morph::{
    closed_cells_reachable_from_seeds, compute_morph_fill_cells, dilate_8, erode_8, find_empty_above,
    morph_close_8, PointSet,
};
use falling_everything_core::world::{material, Vec2i, World, CHUNK_SIZE};

fn set_of(points: &[(i32, i32)]) -> PointSet {
    let mut s = PointSet::new();
    for &(x, y) in points {
        s.insert(Vec2i::new(x, y));
    }
    s
}

fn has(s: &PointSet, x: i32, y: i32) -> bool {
    s.contains(Vec2i::new(x, y))
}

#[test]
fn morph_close_8_fills_center_of_3x3_ring() {
    let mut keys = PointSet::new();
    for dy in -1i32..=1 {
        for dx in -1i32..=1 {
            if dx == 0 && dy == 0 {
                continue;
            }
            keys.insert(Vec2i::new(dx, dy));
        }
    }
    let closed_raw = morph_close_8(&keys);
    let closed = closed_cells_reachable_from_seeds(&keys, &closed_raw);
    assert!(has(&closed, 0, 0));
    assert_eq!(closed.len(), 9);
}

#[test]
fn closed_reachable_drops_cells_not_four_connected_to_seeds() {
    let seeds = set_of(&[(0, 0), (1, 0)]);
    let mut closed = morph_close_8(&seeds);
    closed.insert(Vec2i::new(20, 20));
    let kept = closed_cells_reachable_from_seeds(&seeds, &closed);
    assert!(!has(&kept, 20, 20));
    assert!(has(&kept, 0, 0));
}

#[test]
fn dilate_single_point_gives_its_3x3_square() {
    let d = dilate_8(&set_of(&[(5, -3)]));
    assert_eq!(d.len(), 9);
    for dy in -1..=1 {
        for dx in -1..=1 {
            assert!(has(&d, 5 + dx, -3 + dy));
        }
    }
    assert!(!has(&d, 7, -3));
}

#[test]
fn erode_3x3_square_keeps_only_center() {
    let mut pts = Vec::new();
    for y in 0..3 {
        for x in 0..3 {
            pts.push((x, y));
        }
    }
    let e = erode_8(&set_of(&pts));
    assert_eq!(e.len(), 1);
    assert!(has(&e, 1, 1));
}

#[test]
fn closing_of_empty_set_is_empty() {
    let c = morph_close_8(&PointSet::new());
    assert!(c.is_empty());
}

#[test]
fn closing_of_two_far_points_keeps_each_point() {
    let c = morph_close_8(&set_of(&[(0, 0), (10, 0)]));
    assert_eq!(c.len(), 2);
    assert!(has(&c, 0, 0));
    assert!(has(&c, 10, 0));
}

#[test]
fn reachable_does_not_cross_a_diagonal_contact() {
    let seeds = set_of(&[(0, 0)]);
    let closed = set_of(&[(0, 0), (1, 0), (2, 1), (3, 1)]);
    let kept = closed_cells_reachable_from_seeds(&seeds, &closed);
    assert_eq!(kept.len(), 2);
    assert!(has(&kept, 1, 0));
    assert!(!has(&kept, 2, 1));
}

#[test]
fn reachable_ignores_seeds_outside_closed() {
    let seeds = set_of(&[(7, 7)]);
    let closed = set_of(&[(0, 0), (1, 0)]);
    let kept = closed_cells_reachable_from_seeds(&seeds, &closed);
    assert!(kept.is_empty());
}

#[test]
fn find_empty_above_takes_first_free_cell_of_the_ring() {
    let world = World::new(CHUNK_SIZE, 256);
    let pos = Vec2i::new(10, 10);
    let body = PointSet::new();
    assert_eq!(find_empty_above(&world, pos, &body, 3), Some(Vec2i::new(9, 9)));
}

#[test]
fn find_empty_above_skips_body_and_occupied_cells() {
    let mut world = World::new(CHUNK_SIZE, 256);
    let pos = Vec2i::new(10, 10);
    let body = set_of(&[(9, 9)]);
    world.set_cell(Vec2i::new(10, 9), Cell::new().with_material(material::DIRT));
    assert_eq!(find_empty_above(&world, pos, &body, 3), Some(Vec2i::new(11, 9)));
}

#[test]
fn find_empty_above_moves_to_the_next_ring() {
    let mut world = World::new(CHUNK_SIZE, 256);
    let pos = Vec2i::new(10, 10);
    for x in 9..=11 {
        world.set_cell(Vec2i::new(x, 9), Cell::new().with_material(material::DIRT));
    }
    let body = PointSet::new();
    assert_eq!(find_empty_above(&world, pos, &body, 3), Some(Vec2i::new(8, 8)));
    assert_eq!(find_empty_above(&world, pos, &body, 1), None);
}

#[test]
fn find_empty_above_with_no_radius_finds_nothing() {
    let world = World::new(CHUNK_SIZE, 256);
    let body = PointSet::new();
    assert_eq!(find_empty_above(&world, Vec2i::new(10, 10), &body, 0), None);
}

#[test]
fn fill_cells_of_a_ring_take_the_centre_with_the_nearest_anchor_cell() {
    let mut anchor_world = Vec::new();
    let mut tag: u8 = 0;
    for dy in -1i32..=1 {
        for dx in -1i32..=1 {
            if dx == 0 && dy == 0 {
                continue;
            }
            anchor_world.push((Vec2i::new(dx, dy), Cell::new().with_material(material::DIRT).with_lifetime(tag)));
            tag += 1;
        }
    }
    let fill = compute_morph_fill_cells(&anchor_world);
    assert_eq!(fill.len(), 1);
    assert_eq!(fill[0].0, Vec2i::new(0, 0));
    // (0, -1) is the first anchor at distance 1 from the centre.
    assert_eq!(fill[0].1.lifetime(), 1);
}

#[test]
fn fill_cells_of_separate_anchors_are_empty() {
    let c = Cell::new().with_material(material::DIRT);
    let anchor_world = vec![(Vec2i::new(0, 0), c), (Vec2i::new(10, 0), c)];
    assert!(compute_morph_fill_cells(&anchor_world).is_empty());
    assert!(compute_morph_fill_cells(&Vec::new()).is_empty());
}

#[test]
fn fill_cells_close_a_one_cell_gap_in_a_row() {
    let c = Cell::new().with_material(material::DIRT);
    let anchor_world = vec![
        (Vec2i::new(0, 0), c),
        (Vec2i::new(0, 1), c),
        (Vec2i::new(2, 0), c.with_lifetime(9)),
        (Vec2i::new(2, 1), c.with_lifetime(9)),
    ];
    let fill = compute_morph_fill_cells(&anchor_world);
    let mut keys: Vec<(i32, i32)> = fill.iter().map(|(p, _)| (p.x, p.y)).collect();
    keys.sort();
    assert_eq!(keys, vec![(1, 0), (1, 1)]);
    for (_, cell) in &fill {
        assert_eq!(cell.lifetime(), 0);
    }
}

#[test]
fn closing_keeps_every_input_point() {
    let pts = [(0, 0), (3, 1), (-2, 5), (7, 7)];
    let c = morph_close_8(&set_of(&pts));
    for &(x, y) in &pts {
        assert!(has(&c, x, y));
    }
}
