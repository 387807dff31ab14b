use falling_everything_core::cell64::Cell;
use falling_everything_core::world::material;
use falling_everything_core::world::store::{ChunkPool, DenseCellStore, SpatialHashChunkStore};
use falling_everything_core::world::{ChunkCoord, RectI, Vec2i};

#[test]
fn pool_checkout_and_release() {
    let mut pool = ChunkPool::with_capacity(2);
    let a = pool.checkout();
    let b = pool.checkout();
    assert!(a != b);
    let c = pool.checkout(); // grows the pool
    assert!(c != a && c != b);
    pool.release(a);
    let d = pool.checkout();
    assert_eq!(d, a); // reuses freed slab
    pool.release(b);
    pool.release(c);
    pool.release(d);
}

#[test]
fn spatial_store_chunk_lifecycle() {
    let mut s = SpatialHashChunkStore::with_capacity(1);
    let c = ChunkCoord { x: 0, y: 0 };
    s.ensure_chunk(c);
    assert_eq!(s.chunk_count(), 1);
    {
        let chunk = s.get_chunk_mut(c).expect("chunk");
        chunk[0] = Cell::new().with_material(material::SAND);
    }
    assert_eq!(s.get_chunk(c).expect("chunk")[0].material(), material::SAND);
    s.remove_chunk(c);
    assert_eq!(s.chunk_count(), 0);
}

#[test]
fn released_slab_comes_back_zeroed() {
    let mut pool = ChunkPool::with_capacity(1);
    let a = pool.checkout();
    pool.slab_mut(a).unwrap()[3] = Cell::new().with_material(7);
    assert_eq!(pool.slab(a).unwrap()[3].material(), 7);
    pool.release(a);
    let b = pool.checkout();
    assert_eq!(b, a);
    assert!(pool.slab(b).unwrap().iter().all(|c| c.0 == 0));
    assert!(pool.slab(99).is_none());
}

#[test]
fn upsert_and_chunk_coords() {
    let mut s = SpatialHashChunkStore::with_capacity(0);
    let cells = vec![Cell::new().with_material(material::STONE); 1024];
    assert!(s.upsert_chunk(ChunkCoord { x: -2, y: 5 }, &cells));
    assert!(!s.upsert_chunk(ChunkCoord { x: 1, y: 1 }, &cells[..10]));
    s.ensure_chunk(ChunkCoord { x: 3, y: -1 });
    let mut coords = s.chunk_coords();
    coords.sort_by_key(|c| (c.x, c.y));
    assert_eq!(coords, vec![ChunkCoord { x: -2, y: 5 }, ChunkCoord { x: 3, y: -1 }]);
    assert_eq!(s.get_chunk(ChunkCoord { x: -2, y: 5 }).unwrap()[1023].material(), material::STONE);
    assert_eq!(s.get_chunk(ChunkCoord { x: 3, y: -1 }).unwrap()[0].material(), material::EMPTY);
    // Only the chunk covering world cells x 96..=127, y -32..=-1 meets this rectangle.
    s.remove_outside_world_rect(RectI::new(Vec2i::new(100, -5), Vec2i::new(110, -2)));
    assert_eq!(s.chunk_coords(), vec![ChunkCoord { x: 3, y: -1 }]);
}

#[test]
fn split_world_to_chunk_uses_floor_division() {
    let (c, i) = SpatialHashChunkStore::split_world_to_chunk(Vec2i::new(-1, 33));
    assert_eq!(c, ChunkCoord { x: -1, y: 1 });
    assert_eq!(i, 1 * 32 + 31);
    let (c, i) = SpatialHashChunkStore::split_world_to_chunk(Vec2i::new(64, -64));
    assert_eq!(c, ChunkCoord { x: 2, y: -2 });
    assert_eq!(i, 0);
}

#[test]
fn dense_store_read_write_and_double_buffer() {
    let mut s = DenseCellStore::new(4, 3, Vec2i::new(-2, 10));
    assert_eq!(s.grid_index(Vec2i::new(-2, 10)), Some(0));
    assert_eq!(s.grid_index(Vec2i::new(1, 12)), Some(11));
    assert_eq!(s.grid_index(Vec2i::new(2, 12)), None);
    assert_eq!(s.grid_index(Vec2i::new(i32::MIN, i32::MIN)), None);
    let sand = Cell::new().with_material(material::SAND);
    assert!(s.set_read(Vec2i::new(0, 11), sand));
    assert!(!s.set_read(Vec2i::new(0, 13), sand));
    assert_eq!(s.get_read(Vec2i::new(0, 11)), Some(sand));
    assert_eq!(s.get_read(Vec2i::new(0, 9)), None);
    s.prepare_sim();
    s.write_cells_mut()[0] = sand;
    assert_eq!(s.write_cells_len(), 12);
    assert_eq!(s.read_cells()[0].material(), material::EMPTY);
    s.finish_sim();
    assert_eq!(s.get_read(Vec2i::new(-2, 10)), Some(sand));
    assert_eq!(s.get_read(Vec2i::new(0, 11)), Some(sand));
    let (r, w) = s.read_write_cell_slices();
    assert_eq!(r[0], sand);
    assert_eq!(w[0].material(), material::EMPTY);
}

#[test]
fn dense_store_relocate_keeps_overlap() {
    let mut s = DenseCellStore::new(4, 4, Vec2i::new(0, 0));
    let sand = Cell::new().with_material(material::SAND);
    s.set_read(Vec2i::new(3, 3), sand);
    s.set_read(Vec2i::new(0, 0), sand);
    let (old, o, w, h) = s.relocate(Vec2i::new(2, 2), 3, 3);
    assert_eq!((o, w, h), (Vec2i::new(0, 0), 4, 4));
    assert_eq!(old[15], sand);
    assert_eq!(s.get_read(Vec2i::new(3, 3)), Some(sand));
    assert_eq!(s.get_read(Vec2i::new(0, 0)), None);
    assert_eq!(s.get_read(Vec2i::new(4, 4)), Some(Cell::new()));
    assert_eq!(s.width(), 3);
    assert_eq!(s.origin(), Vec2i::new(2, 2));
}

#[test]
fn dense_store_clear_outside_rect() {
    let mut s = DenseCellStore::new(3, 1, Vec2i::new(0, 0));
    let sand = Cell::new().with_material(material::SAND);
    let warm_air = Cell::new().with_temperature(300);
    s.set_read(Vec2i::new(0, 0), sand);
    s.set_read(Vec2i::new(1, 0), sand);
    s.set_read(Vec2i::new(2, 0), warm_air);
    s.clear_outside_rect(RectI::new(Vec2i::new(1, 0), Vec2i::new(1, 0)));
    assert_eq!(s.get_read(Vec2i::new(0, 0)), Some(Cell::new()));
    assert_eq!(s.get_read(Vec2i::new(1, 0)), Some(sand));
    assert_eq!(s.get_read(Vec2i::new(2, 0)), Some(warm_air));
    s.resize(2, 2, Vec2i::new(5, 5));
    assert_eq!(s.height(), 2);
    assert_eq!(s.get_read(Vec2i::new(5, 5)), Some(Cell::new()));
}

#[test]
fn upsert_counts_only_new_coordinates() {
    let mut s = SpatialHashChunkStore::with_capacity(0);
    let stone = vec![Cell::new().with_material(material::STONE); 1024];
    let sand = vec![Cell::new().with_material(material::SAND); 1024];
    let c = ChunkCoord { x: 4, y: -3 };
    assert_eq!(s.chunk_count(), 0);
    assert!(s.upsert_chunk(c, &stone));
    assert_eq!(s.chunk_count(), 1);
    assert!(s.upsert_chunk(c, &sand));
    assert_eq!(s.chunk_count(), 1);
    assert_eq!(s.get_chunk(c).unwrap()[17].material(), material::SAND);
    assert!(!s.upsert_chunk(ChunkCoord { x: 0, y: 0 }, &sand[..1023]));
    assert_eq!(s.chunk_count(), 1);
    assert!(s.get_chunk(ChunkCoord { x: 0, y: 0 }).is_none());
}

#[test]
fn dense_store_new_accepts_any_origin() {
    let s = DenseCellStore::new(3, 2, Vec2i::new(i32::MAX - 1, i32::MIN));
    assert_eq!(s.width(), 3);
    assert_eq!(s.height(), 2);
    assert_eq!(s.origin(), Vec2i::new(i32::MAX - 1, i32::MIN));
    assert_eq!(s.read_cells().len(), 6);
    assert!(s.read_cells().iter().all(|c| *c == Cell::new()));
}

#[test]
fn released_slot_is_checked_out_next() {
    let mut pool = ChunkPool::with_capacity(3);
    let a = pool.checkout();
    let b = pool.checkout();
    pool.slab_mut(b).unwrap()[0] = Cell::new().with_material(material::SAND);
    pool.release(b);
    assert_eq!(pool.checkout(), b);
    assert!(pool.slab(b).unwrap().iter().all(|c| *c == Cell::new()));
    assert_ne!(a, b);
}
