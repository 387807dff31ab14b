use falling_everything_core::cell64::Cell;
use falling_everything_core::world::material;
use falling_everything_core::world::{ChunkCoord, RectI, Vec2i, World, WorldEvent, CHUNK_SIZE};
use falling_everything_core::world::state::{relocation_half_sizes, zone_geometry_fits};

fn test_dirt_cell() -> Cell {
    Cell::new().with_material(material::DIRT)
}

#[test]
fn static_physics_bounds_cover_cells_when_origin_not_chunk_aligned() {
    let mut world = World::new(CHUNK_SIZE, 256);
    let min = Vec2i::new(-1001, 14);
    let max = Vec2i::new(-1001 + 255, 14 + 127);
    world.set_solid_bounds(RectI::new(min, max));
    let origin = world.grid_origin();
    assert_ne!(origin.x.rem_euclid(CHUNK_SIZE), 0, "test requires misaligned origin.x (got {})", origin.x);

    let y = origin.y + 3;
    let x1 = origin.x + CHUNK_SIZE - 1;
    let x2 = origin.x + CHUNK_SIZE;
    let x3 = origin.x + 2 * CHUNK_SIZE;

    for &x in &[x1, x2, x3] {
        let p = Vec2i::new(x, y);
        let coord = world.dense_chunk_coord_for_cell(p).expect("in dense grid");
        let b = world.bounds_for_chunk(coord);
        assert!(b.contains(p), "p={p:?} coord={coord:?} bounds={b:?} origin={origin:?}");
    }
}

#[test]
fn static_physics_bounds_aligned_origin_matches_world_grid() {
    let mut world = World::new(CHUNK_SIZE, 128);
    world.set_solid_bounds(RectI::new(Vec2i::new(-960, 0), Vec2i::new(-960 + 127, 95)));
    let origin = world.grid_origin();
    assert_eq!(origin.x.rem_euclid(CHUNK_SIZE), 0);

    let p = Vec2i::new(origin.x + CHUNK_SIZE + 3, origin.y + 5);
    let coord = world.dense_chunk_coord_for_cell(p).unwrap();
    assert_eq!(coord.x * CHUNK_SIZE, origin.x + CHUNK_SIZE);
    let b = world.bounds_for_chunk(coord);
    assert!(b.contains(p));
}

#[test]
fn physics_dirty_drained_chunks_cover_modified_cells() {
    let mut world = World::new(CHUNK_SIZE, 256);
    world.set_solid_bounds(RectI::new(Vec2i::new(-1003, 8), Vec2i::new(-1003 + 255, 8 + 191)));
    let _ = world.take_physics_dirty_chunks();

    let probes = [
        Vec2i::new(-1000, 20),
        Vec2i::new(-1000 + CHUNK_SIZE, 20),
        Vec2i::new(-1000 + 2 * CHUNK_SIZE, 20),
    ];
    for p in probes {
        world.set_cell(p, test_dirt_cell());
        let dirty = world.take_physics_dirty_chunks();
        assert!(dirty.iter().any(|c| world.bounds_for_chunk(*c).contains(p)), "p={p:?} dirty={dirty:?}");
    }
}

#[test]
fn purge_rigid_body_ownership_clears_orphan_placeholder_pixels() {
    let mut w = World::new(CHUNK_SIZE, 512);
    let bounds = RectI::new(Vec2i::new(0, 0), Vec2i::new(127, 127));
    w.set_solid_bounds(bounds);
    w.mark_all_chunks_physics_dirty();
    let p = Vec2i::new(70, 70);
    w.set_cell(p, Cell::new().with_material(material::STONE));
    w.set_rigid_id(p, 9_001);
    w.purge_rigid_body_ownership(9_001);
    assert_eq!(w.get_rigid_id(p), None);
    assert_eq!(w.get_cell(p).material(), material::EMPTY);
}

#[test]
fn paint_rect_filled_spans_chunk_boundary() {
    let mut w = World::new(CHUNK_SIZE, 512);
    w.set_solid_bounds(RectI::new(Vec2i::new(-1005, 11), Vec2i::new(-1005 + 255, 11 + 160)));
    w.mark_all_chunks_physics_dirty();
    let origin = w.grid_origin();
    let y = origin.y + 8;
    let x_mid = origin.x + CHUNK_SIZE;
    w.paint_rect_filled(Vec2i::new(x_mid - 2, y), Vec2i::new(x_mid + 2, y), material::SAND);
    assert_eq!(w.get_cell(Vec2i::new(x_mid - 2, y)).material(), material::SAND);
    assert_eq!(w.get_cell(Vec2i::new(x_mid + 2, y)).material(), material::SAND);
}

// ----- further scenarios -----

#[test]
fn set_cell_then_get_cell_reads_back_and_blank_empty_takes_ambient() {
    let mut w = World::new(CHUNK_SIZE, 64);
    let p = Vec2i::new(5, 6);
    w.set_cell(p, Cell::new().with_material(material::SAND).with_temperature(300));
    assert_eq!(w.get_cell(p).material(), material::SAND);
    assert_eq!(w.get_cell(p).temperature(), 300);
    w.set_cell(p, Cell::new());
    assert_eq!(w.get_cell(p).material(), material::EMPTY);
    assert_eq!(w.get_cell(p).temperature(), 293);
    // Outside the grid: ignored, reads stone.
    w.set_cell(Vec2i::new(-1, 0), Cell::new().with_material(material::SAND));
    assert_eq!(w.get_cell(Vec2i::new(-1, 0)).material(), material::STONE);
}

#[test]
fn paint_circle_fills_exactly_the_disk() {
    let mut w = World::new(CHUNK_SIZE, 64);
    w.paint_circle(Vec2i::new(20, 20), 3, material::SAND);
    let mut count = 0;
    for y in 0..64 {
        for x in 0..64 {
            let inside = (x - 20) * (x - 20) + (y - 20) * (y - 20) <= 9;
            let m = w.get_cell(Vec2i::new(x, y)).material();
            assert_eq!(m == material::SAND, inside, "({x},{y})");
            if inside {
                count += 1;
            }
        }
    }
    assert_eq!(count, 29);
    // Fire starts with its fixed lifetime.
    w.paint_circle(Vec2i::new(40, 40), 0, material::FIRE);
    assert_eq!(w.get_cell(Vec2i::new(40, 40)).lifetime(), 72);
    // Negative radius paints nothing.
    w.paint_circle(Vec2i::new(50, 50), -2, material::SAND);
    assert_eq!(w.get_cell(Vec2i::new(50, 50)).material(), material::EMPTY);
}

#[test]
fn adjust_temperature_skips_empty_and_stone_and_clamps() {
    let mut w = World::new(CHUNK_SIZE, 64);
    w.set_cell(Vec2i::new(10, 10), Cell::new().with_material(material::SAND).with_temperature(4090));
    w.set_cell(Vec2i::new(11, 10), Cell::new().with_material(material::STONE).with_temperature(300));
    w.set_cell(Vec2i::new(12, 10), Cell::new().with_material(material::SAND).with_temperature(20));
    w.adjust_temperature_rect_filled(Vec2i::new(12, 10), Vec2i::new(9, 10), 40);
    assert_eq!(w.get_cell(Vec2i::new(10, 10)).temperature(), 4095);
    assert_eq!(w.get_cell(Vec2i::new(11, 10)).temperature(), 300);
    assert_eq!(w.get_cell(Vec2i::new(12, 10)).temperature(), 60);
    assert_eq!(w.get_cell(Vec2i::new(9, 10)).temperature(), 0);
    w.adjust_temperature_disk(Vec2i::new(12, 10), 0, -100);
    assert_eq!(w.get_cell(Vec2i::new(12, 10)).temperature(), 0);
}

#[test]
fn try_swap_moves_into_empty_only() {
    let mut w = World::new(CHUNK_SIZE, 64);
    let a = Vec2i::new(3, 3);
    let b = Vec2i::new(3, 4);
    w.set_cell(a, Cell::new().with_material(material::SAND));
    assert!(w.try_swap(a, b));
    assert_eq!(w.get_cell(b).material(), material::SAND);
    assert_eq!(w.get_cell(a).material(), material::EMPTY);
    w.set_cell(a, Cell::new().with_material(material::STONE));
    assert!(!w.try_swap(b, a));
    assert!(!w.try_swap(b, Vec2i::new(-5, -5)));
}

#[test]
fn relocate_round_trip_restores_cells() {
    let mut w = World::new(CHUNK_SIZE, 128);
    // Grid is 128x128 at (0,0).
    let far = Vec2i::new(5, 7);
    let shared = Vec2i::new(100, 100);
    w.set_cell(far, Cell::new().with_material(material::SAND));
    w.set_cell(shared, Cell::new().with_material(material::STONE));
    assert!(w.relocate_around(Vec2i::new(128, 128), 64, 64));
    assert_eq!(w.grid_origin(), Vec2i::new(64, 64));
    assert_eq!(w.get_cell(far).material(), material::STONE); // outside the grid reads stone
    assert_eq!(w.get_cell(shared).material(), material::STONE);
    assert!(!w.relocate_around(Vec2i::new(128, 128), 64, 64));
    assert!(w.relocate_around(Vec2i::new(64, 64), 64, 64));
    assert_eq!(w.grid_origin(), Vec2i::new(0, 0));
    assert_eq!(w.get_cell(far).material(), material::SAND);
    assert_eq!(w.get_cell(shared).material(), material::STONE);
}

#[test]
fn chunk_flags_advance_and_count() {
    let mut w = World::new(CHUNK_SIZE, 64);
    assert_eq!(w.chunks_x(), 2);
    assert_eq!(w.active_chunk_count(), 4);
    assert_eq!(w.sleeping_chunk_count(), 0);
    for _ in 0..16 {
        w.advance_awake_flags();
    }
    assert_eq!(w.active_chunk_count(), 0);
    assert_eq!(w.sleeping_chunk_count(), 4);
    w.wake_chunk_at(Vec2i::new(40, 5));
    w.advance_awake_flags();
    assert_eq!(w.active_chunk_count(), 1);
    assert!(w.is_chunk_awake(ChunkCoord { x: 1, y: 0 }));
    assert!(!w.is_chunk_awake(ChunkCoord { x: 0, y: 0 }));
    assert_eq!(w.awake_chunk_coords(), vec![ChunkCoord { x: 1, y: 0 }]);
}

#[test]
fn pass_coords_are_sorted_and_match_parity() {
    let w = World::new(CHUNK_SIZE, 160);
    for pass in 0..4usize {
        let coords = w.active_chunk_coords_for_pass(pass);
        assert!(!coords.is_empty());
        for c in &coords {
            assert_eq!(c.x.rem_euclid(2) as usize, pass & 1);
            assert_eq!(c.y.rem_euclid(2) as usize, (pass >> 1) & 1);
        }
        for pair in coords.windows(2) {
            assert!((pair[0].y, pair[0].x) < (pair[1].y, pair[1].x));
        }
    }
}

#[test]
fn take_physics_dirty_chunks_drains() {
    let mut w = World::new(CHUNK_SIZE, 64);
    let first = w.take_physics_dirty_chunks();
    assert_eq!(first.len(), 4);
    assert!(w.take_physics_dirty_chunks().is_empty());
    w.mark_all_chunks_physics_dirty();
    assert_eq!(w.take_physics_dirty_chunks().len(), 4);
}

#[test]
fn finish_sim_marks_changed_static_terrain() {
    let mut w = World::new(CHUNK_SIZE, 64);
    let _ = w.take_physics_dirty_chunks();
    w.prepare_sim();
    {
        let cells = w.write_cells_mut();
        cells[0] = Cell::new().with_material(material::STONE);
    }
    w.wake_chunk_at(Vec2i::new(0, 0));
    w.finish_sim();
    assert_eq!(w.get_cell(Vec2i::new(0, 0)).material(), material::STONE);
    assert_eq!(w.take_physics_dirty_chunks(), vec![ChunkCoord { x: 0, y: 0 }]);
}

#[test]
fn focus_change_reports_saved_then_loaded_regions() {
    let mut w = World::new(CHUNK_SIZE, 64);
    let ev = w.set_focus(Vec2i::new(10, 10));
    assert_eq!(ev.len(), 9);
    assert!(ev.iter().all(|e| matches!(e, WorldEvent::RegionLoaded(_))));
    let ev = w.set_focus(Vec2i::new(70, 10));
    let saved: Vec<_> = ev.iter().filter(|e| matches!(e, WorldEvent::RegionSaved(_))).collect();
    let loaded: Vec<_> = ev.iter().filter(|e| matches!(e, WorldEvent::RegionLoaded(_))).collect();
    assert_eq!(saved.len(), 3);
    assert_eq!(loaded.len(), 3);
    let first_loaded = ev.iter().position(|e| matches!(e, WorldEvent::RegionLoaded(_))).unwrap();
    assert!(ev[..first_loaded].iter().all(|e| matches!(e, WorldEvent::RegionSaved(_))));
    assert!(ev.iter().any(|e| matches!(e, WorldEvent::RegionSaved(r) if *r == Vec2i::new(-1, 0))));
    assert!(ev.iter().any(|e| matches!(e, WorldEvent::RegionLoaded(r) if *r == Vec2i::new(2, 1))));
    assert!(w.finish_frame().is_empty());
}

#[test]
fn region_chunk_cells_lists_non_empty_chunks() {
    let mut w = World::new(CHUNK_SIZE, 64);
    w.set_cell(Vec2i::new(33, 2), Cell::new().with_material(material::SAND));
    let chunks = w.region_chunk_cells(Vec2i::new(0, 0));
    assert_eq!(chunks.len(), 1);
    assert_eq!(chunks[0].0, ChunkCoord { x: 1, y: 0 });
    assert_eq!(chunks[0].1.len(), 1024);
    assert_eq!(chunks[0].1[2 * 32 + 1].material(), material::SAND);
}

#[test]
fn rigid_helpers_list_and_prune() {
    let mut w = World::new(CHUNK_SIZE, 64);
    let a = Vec2i::new(1, 1);
    let b = Vec2i::new(2, 1);
    let c = Vec2i::new(3, 1);
    w.set_cell(a, Cell::new().with_material(material::LIQUID));
    w.set_cell(b, Cell::new().with_material(material::STONE));
    w.set_rigid_id(a, 7);
    w.set_rigid_id(b, 7);
    w.set_rigid_id(c, 8);
    let mut mine = w.rigid_ids_iter_for_body(7);
    mine.sort_by_key(|p| p.x);
    assert_eq!(mine, vec![a, b]);
    let hits = w.collect_liquid_gas_rigid_hits();
    assert_eq!(hits, vec![(a, 7)]);
    w.prune_rigid_ids_for_empty_cells();
    assert_eq!(w.get_rigid_id(c), None);
    assert_eq!(w.get_rigid_id(a), Some(7));
}

#[test]
fn clear_outside_rect_zeroes_cells_outside() {
    let mut w = World::new(CHUNK_SIZE, 64);
    w.set_cell(Vec2i::new(1, 1), Cell::new().with_material(material::SAND));
    w.set_cell(Vec2i::new(50, 50), Cell::new().with_material(material::SAND));
    w.clear_outside_rect(RectI::new(Vec2i::new(40, 40), Vec2i::new(63, 63)));
    assert_eq!(w.get_cell(Vec2i::new(1, 1)).material(), material::EMPTY);
    assert_eq!(w.get_cell(Vec2i::new(50, 50)).material(), material::SAND);
    assert_eq!(w.dirty_world_bounds(), Some(RectI::new(Vec2i::new(0, 0), Vec2i::new(63, 63))));
}

#[test]
fn pass_chunks_are_never_neighbours() {
    let w = World::new(CHUNK_SIZE, 160);
    for pass in 0..4usize {
        let coords = w.active_chunk_coords_for_pass(pass);
        for (i, a) in coords.iter().enumerate() {
            for b in coords.iter().skip(i + 1) {
                assert!((a.x - b.x).abs() >= 2 || (a.y - b.y).abs() >= 2);
            }
        }
    }
}

#[test]
fn relocate_away_and_back_restores_cell() {
    let mut w = World::new(32, 64);
    assert!(w.chunk_store_has_room());
    let p = Vec2i::new(5, 5);
    let sand = Cell::new().with_material(material::SAND);
    w.set_cell(p, sand);
    assert!(w.relocate_around(Vec2i::new(48, 32), 32, 32));
    assert_eq!(w.grid_origin(), Vec2i::new(16, 0));
    assert_eq!(w.grid_width(), 64);
    assert_eq!(w.grid_height(), 64);
    assert_eq!(w.get_cell(p).material(), material::STONE);
    assert!(w.relocate_around(Vec2i::new(32, 32), 32, 32));
    assert_eq!(w.grid_origin(), Vec2i::new(0, 0));
    assert_eq!(w.grid_width(), 64);
    assert_eq!(w.grid_height(), 64);
    assert_eq!(w.get_cell(p), sand);
}

#[test]
fn relocation_half_sizes_waits_for_half_a_screen() {
    let o = Vec2i::new(0, 0);
    assert_eq!(relocation_half_sizes(o, 64, 64, Vec2i::new(32, 32), 64, 64), None);
    assert_eq!(relocation_half_sizes(o, 64, 64, Vec2i::new(64, 32), 64, 64), None);
    assert_eq!(relocation_half_sizes(o, 64, 64, Vec2i::new(65, 32), 64, 64), Some((96, 96)));
    assert_eq!(relocation_half_sizes(o, 64, 64, Vec2i::new(32, -1), 64, 64), Some((96, 96)));
    assert_eq!(relocation_half_sizes(o, 64, 64, Vec2i::new(32, 32), 65, 40), None);
    assert_eq!(relocation_half_sizes(o, 64, 64, Vec2i::new(32, 53), 64, 40), Some((96, 60)));
}

#[test]
fn relocate_if_needed_recentres_on_the_camera() {
    let mut w = World::new(32, 64);
    assert!(!w.relocate_if_needed(Vec2i::new(40, 40), 64, 64));
    assert_eq!(w.grid_origin(), Vec2i::new(0, 0));
    assert!(w.relocate_if_needed(Vec2i::new(200, 32), 64, 64));
    assert_eq!(w.grid_origin(), Vec2i::new(104, -64));
    assert_eq!(w.grid_width(), 192);
    assert_eq!(w.grid_height(), 192);
    // The camera is now at the grid centre.
    assert!(!w.relocate_if_needed(Vec2i::new(200, 32), 64, 64));
}

#[test]
fn zone_geometry_fits_checks_the_limits() {
    assert!(zone_geometry_fits(Vec2i::new(0, 0), 64, 64));
    assert!(!zone_geometry_fits(Vec2i::new(0, 0), -1, 64));
    assert!(!zone_geometry_fits(Vec2i::new(i32::MAX - 10, 0), 64, 64));
    assert!(!zone_geometry_fits(Vec2i::new(i32::MIN, 0), 64, 64));
}
