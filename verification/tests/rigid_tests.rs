use falling_everything_core::cell64::Cell;
use falling_everything_core::rigid::{
    collect_static_positions, find_connected_components, is_static_terrain, rigid_body_cell_at_spawn,
    PixelAnchor,
};
use falling_everything_core::world::{material, RectI, Vec2i, World, CHUNK_SIZE};

fn anchor(x: i32, y: i32, m: u16) -> PixelAnchor {
    PixelAnchor { local: Vec2i::new(x, y), cell: Cell::new().with_material(m) }
}

fn positions(piece: &[PixelAnchor]) -> Vec<(i32, i32)> {
    let mut v: Vec<(i32, i32)> = piece.iter().map(|a| (a.local.x, a.local.y)).collect();
    v.sort();
    v
}

#[test]
fn components_split_separate_islands() {
    let anchors = vec![anchor(0, 0, material::DIRT), anchor(1, 0, material::DIRT), anchor(5, 5, material::DIRT), anchor(5, 6, material::DIRT)];
    let comps = find_connected_components(&anchors);
    assert_eq!(comps.len(), 2);
    assert_eq!(positions(&comps[0]), vec![(0, 0), (1, 0)]);
    assert_eq!(positions(&comps[1]), vec![(5, 5), (5, 6)]);
}

#[test]
fn components_do_not_join_diagonal_neighbours() {
    let anchors = vec![anchor(0, 0, material::DIRT), anchor(1, 1, material::DIRT)];
    let comps = find_connected_components(&anchors);
    assert_eq!(comps.len(), 2);
    assert_eq!(comps[0][0].local, Vec2i::new(0, 0));
    assert_eq!(comps[1][0].local, Vec2i::new(1, 1));
}

#[test]
fn components_follow_first_anchor_order() {
    let anchors = vec![anchor(5, 5, material::DIRT), anchor(0, 0, material::DIRT), anchor(5, 6, material::DIRT)];
    let comps = find_connected_components(&anchors);
    assert_eq!(comps.len(), 2);
    assert_eq!(comps[0][0].local, Vec2i::new(5, 5));
    assert_eq!(positions(&comps[0]), vec![(5, 5), (5, 6)]);
    assert_eq!(positions(&comps[1]), vec![(0, 0)]);
}

#[test]
fn components_keep_last_anchor_of_a_shared_position() {
    let anchors = vec![anchor(2, 3, material::DIRT), anchor(2, 3, material::WOOD)];
    let comps = find_connected_components(&anchors);
    assert_eq!(comps.len(), 1);
    assert_eq!(comps[0].len(), 1);
    assert_eq!(comps[0][0].cell.material(), material::WOOD);
}

#[test]
fn components_of_no_anchors_are_empty() {
    let comps = find_connected_components(&Vec::new());
    assert!(comps.is_empty());
}

#[test]
fn components_of_an_l_shape_form_one_piece() {
    let anchors = vec![anchor(0, 0, material::DIRT), anchor(0, 1, material::DIRT), anchor(0, 2, material::DIRT), anchor(1, 2, material::DIRT), anchor(2, 2, material::DIRT)];
    let comps = find_connected_components(&anchors);
    assert_eq!(comps.len(), 1);
    assert_eq!(comps[0].len(), 5);
    assert_eq!(comps[0][0].local, Vec2i::new(0, 0));
}

#[test]
fn spawn_cell_uses_override_temperature_and_variant() {
    let world = World::new(CHUNK_SIZE, 256);
    let c = rigid_body_cell_at_spawn(&world, Vec2i::new(0, 0), material::STONE, 6, Some(500));
    assert_eq!(c.material(), material::STONE);
    assert_eq!(c.variant(), 2);
    assert_eq!(c.temperature(), 500);
}

#[test]
fn spawn_cell_of_fuelled_lava_keeps_fuel_mass() {
    let mut world = World::new(CHUNK_SIZE, 256);
    let mut props = world.material_props(material::LAVA);
    props.fuel_mass = 7;
    props.base_temperature = 1400;
    world.set_material_props(material::LAVA, props);
    let c = rigid_body_cell_at_spawn(&world, Vec2i::new(0, 0), material::LAVA, 0, None);
    assert_eq!(c.lifetime(), 7);
    assert_eq!(c.temperature(), 1400);
}

#[test]
fn static_positions_come_in_row_major_order() {
    let mut world = World::new(CHUNK_SIZE, 256);
    let stone = Cell::new().with_material(material::STONE);
    world.set_cell(Vec2i::new(3, 2), stone);
    world.set_cell(Vec2i::new(1, 2), stone);
    world.set_cell(Vec2i::new(2, 1), stone);
    world.set_cell(Vec2i::new(9, 9), stone);
    assert!(is_static_terrain(&world, Vec2i::new(2, 1)));
    assert!(!is_static_terrain(&world, Vec2i::new(2, 2)));
    let bounds = RectI::new(Vec2i::new(0, 0), Vec2i::new(4, 4));
    assert_eq!(collect_static_positions(&world, &bounds), vec![(2, 1), (1, 2), (3, 2)]);
}
