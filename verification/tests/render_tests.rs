use falling_everything_core::cell64::Cell;
use falling_everything_core::render::{
    cell_to_argb32, cell_to_rgba, copy_argb32_for_region, copy_argb32_for_region_chunk_step_viz,
    copy_argb32_for_region_pass_batch_viz, copy_debug_argb32_for_region, copy_palette_indices_for_region,
    copy_rgba_for_region, get_dirty_chunks, copy_argb32_for_region_all_debug_views,
};
use falling_everything_core::world::material;
use falling_everything_core::world::{ChunkCoord, RectI, Vec2i, World, CHUNK_SIZE};

// Reference formulas of the float colour ramps, evaluated with f32 as the game did.
fn reference_hash(x: i32, y: i32, z: i32) -> u32 {
    let mut h = (x as u32)
        .wrapping_mul(374761393)
        .wrapping_add((y as u32).wrapping_mul(668265263))
        .wrapping_add((z as u32).wrapping_mul(2147483647));
    h = (h ^ (h >> 13)).wrapping_mul(1274126177);
    h ^ (h >> 16)
}

fn reference_ramp(life: u8, x: i32, y: i32, m: i16, half: i16, base: [f32; 3], span: [f32; 3]) -> [u8; 4] {
    let t = (life as f32 / 255.0).clamp(0.0, 1.0);
    let noise = reference_hash(x, y, life as i32) as i16;
    let jitter = ((noise % m) - half) as i32;
    let r = (base[0] + t * span[0]) as i32 + jitter;
    let g = (base[1] + t * span[1]) as i32 + jitter / 2;
    let b = (base[2] + t * span[2]) as i32 + jitter / 3;
    [r.clamp(0, 255) as u8, g.clamp(0, 255) as u8, b.clamp(0, 255) as u8, 255]
}

#[test]
fn burning_vegetation_matches_float_ramp_for_every_lifetime() {
    for life in 0..=255u8 {
        for &(x, y) in &[(0, 0), (3, -7), (-100, 55), (1234, 987)] {
            let cell = Cell::new().with_material(material::WOOD).with_temperature(300).with_lifetime(life);
            let got = cell_to_rgba(cell, x, y);
            if life > 0 {
                let want = reference_ramp(life, x, y, 26, 13, [35.0, 22.0, 12.0], [215.0, 95.0, 42.0]);
                assert_eq!(got, want, "life {life} at ({x},{y})");
            }
        }
    }
}

#[test]
fn ember_pile_matches_float_ramp_for_every_lifetime() {
    for life in 0..=255u8 {
        for &(x, y) in &[(0, 0), (3, -7), (-100, 55), (1234, 987)] {
            let cell = Cell::new().with_material(material::EMBER).with_lifetime(life);
            let got = cell_to_rgba(cell, x, y);
            let want = reference_ramp(life, x, y, 22, 11, [28.0, 10.0, 4.0], [210.0, 85.0, 28.0]);
            assert_eq!(got, want, "life {life} at ({x},{y})");
        }
    }
}

#[test]
fn plain_cells_use_palette_variant_and_wet_tint() {
    let sand = Cell::new().with_material(material::SAND);
    assert_eq!(cell_to_rgba(sand, 0, 0), [0xFF, 0xC3, 0x69, 0xFF]);
    assert_eq!(cell_to_argb32(sand, 0, 0), 0xFFFFC369);
    // variant 3: shift 3 % 21 - 10 = -7
    let v = sand.with_variant(3);
    assert_eq!(cell_to_rgba(v, 0, 0), [0xFF - 7, 0xC3 - 7, 0x69 - 7, 0xFF]);
    // wet sand: 88% red, 92% green, +20 blue
    let wet = sand.with_flags(2);
    assert_eq!(cell_to_rgba(wet, 0, 0), [(255u16 * 88 / 100) as u8, (0xC3u16 * 92 / 100) as u8, 0x69 + 20, 0xFF]);
    // heat glow above 200 K on a non-fire cell: (temp-200)*255/800 added to red, a third to green
    let hot = Cell::new().with_material(material::STONE).with_temperature(600);
    let glow = ((400u32 * 255) / 800) as u8;
    assert_eq!(cell_to_rgba(hot, 0, 0), [0x70 + glow, 0x70 + glow / 3, 0x70, 0xFF]);
}

#[test]
fn animated_ramps_stay_in_their_bands() {
    for life in [0u8, 10, 26, 61, 121, 201, 255] {
        for x in -3..3 {
            let smoke = cell_to_rgba(Cell::new().with_material(material::SMOKE).with_lifetime(life), x, 2);
            assert!(smoke[0] >= 40 && smoke[0] <= 140 && smoke[0] == smoke[1] && smoke[1] == smoke[2]);
            let steam = cell_to_rgba(Cell::new().with_material(material::STEAM).with_lifetime(life), x, 2);
            assert!(steam[0] >= 160 && steam[1] >= 200 && steam[2] == 255);
            let fire = cell_to_rgba(Cell::new().with_material(material::FIRE).with_lifetime(life), x, 2);
            assert_eq!(fire[3], 255);
        }
    }
    // smoke alpha = clamp(life * 3, 20, 180)
    assert_eq!(cell_to_rgba(Cell::new().with_material(material::SMOKE).with_lifetime(5), 0, 0)[3], 20);
    assert_eq!(cell_to_rgba(Cell::new().with_material(material::SMOKE).with_lifetime(30), 0, 0)[3], 90);
}

#[test]
fn region_copies_are_row_major() {
    let mut w = World::new(CHUNK_SIZE, 64);
    w.set_cell(Vec2i::new(2, 1), Cell::new().with_material(material::SAND));
    let rect = RectI::new(Vec2i::new(1, 0), Vec2i::new(3, 1));
    let ids = copy_palette_indices_for_region(&w, rect);
    assert_eq!(ids, vec![0, 0, 0, 0, material::SAND, 0]);
    let argb = copy_argb32_for_region(&w, rect);
    assert_eq!(argb.len(), 6);
    assert_eq!(argb[4], 0xFFFFC369);
    assert_eq!(argb[0], 0xFF000000);
    let px = copy_rgba_for_region(&w, rect);
    assert_eq!((px.width, px.height, px.rgba.len()), (3, 2, 24));
    assert_eq!(&px.rgba[16..20], &[0xFF, 0xC3, 0x69, 0xFF]);
    let empty = copy_argb32_for_region(&w, RectI::new(Vec2i::new(5, 5), Vec2i::new(4, 9)));
    assert!(empty.is_empty());
}

#[test]
fn pass_batch_view_outlines_chunks_in_pass_colours() {
    let w = World::new(CHUNK_SIZE, 64);
    let rect = RectI::new(Vec2i::new(0, 0), Vec2i::new(63, 63));
    let buf = copy_argb32_for_region_pass_batch_viz(&w, rect);
    // Chunk (0,0) is pass 0 (red), chunk (1,0) pass 1 (green).
    assert_eq!(buf[0], 0xFFFF2828);
    assert_eq!(buf[32], 0xFF28FF3C);
    assert_eq!(buf[64 + 1 + 64], 0xFF000000 | 0x000000); // interior of chunk (0,0): the empty colour
    let plain = copy_argb32_for_region_chunk_step_viz(&w, rect);
    assert_eq!(plain, copy_argb32_for_region(&w, rect));
}

#[test]
fn debug_views_tint_by_pass() {
    let mut w = World::new(CHUNK_SIZE, 64);
    w.set_debug_pass_enabled(true);
    let rect = RectI::new(Vec2i::new(0, 0), Vec2i::new(1, 0));
    let buf = copy_debug_argb32_for_region(&w, rect);
    // Unprocessed (0xFF) pass tints toward gray 80: (0 + 80) / 2 = 40.
    assert_eq!(buf[0], 0xFF282828);
    let all = copy_argb32_for_region_all_debug_views(&w, RectI::new(Vec2i::new(0, 0), Vec2i::new(63, 63)));
    assert_eq!(all[0], 0xFFFF2828);
}

#[test]
fn dirty_chunk_views_cover_dirty_chunks() {
    let w = World::new(CHUNK_SIZE, 40);
    let views = get_dirty_chunks(&w);
    assert_eq!(views.len(), 4);
    assert_eq!(views[1].chunk, Vec2i::new(1, 0));
    assert_eq!(views[1].rect, RectI::new(Vec2i::new(32, 0), Vec2i::new(39, 31)));
    let _ = ChunkCoord { x: 0, y: 0 };
}
