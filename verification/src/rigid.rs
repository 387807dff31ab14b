//! Grid logic of rigid pixel bodies: the cell a body pixel starts as, the static terrain samples
//! of a region, and the 4-connected pieces of a body's pixels.
use vstd::prelude::*;

use crate::cell64::{fields_of, Cell, CellFields};
use crate::world::geom::{RectI, Vec2i};
use crate::world::material;
use crate::world::state::{spec_initial_lifetime, World};
use crate::world::props::MaterialProps;
use crate::world::MaterialId;
use crate::world::geom::{lemma_point_key_roundtrip, point_key, point_key_of};
use crate::morph::{inner_point, lemma_push_contains, near4, PointSet};
use std::collections::HashMap;

verus! {

broadcast use vstd::std_specs::hash::group_hash_axioms;

/// One pixel of a rigid body: its offset from the body origin and the cell it carries.
#[derive(Clone, Copy, Debug)]
pub struct PixelAnchor {
    pub local: Vec2i,
    pub cell: Cell,
}

/// The properties `World::material_props` answers for `id`.
pub open spec fn props_lookup(world: &World, id: MaterialId) -> MaterialProps {
    if (id as int) < 1024 { world.props_of(id) } else { MaterialProps::spec_default() }
}

/// Lifetime a body pixel of `id` starts with: lava with fuel keeps its fuel mass, everything
/// else gets the usual initial lifetime.
pub open spec fn spawn_lifetime(world: &World, id: MaterialId) -> u8 {
    let props = props_lookup(world, id);
    if id == material::LAVA && props.fuel_mass > 0 { props.fuel_mass } else { spec_initial_lifetime(id, props) }
}

/// The cell a rigid body pixel of material `id` starts as: that material and variant, its spawn
/// lifetime, and the overriding temperature or else the material's base temperature.
pub fn rigid_body_cell_at_spawn(world: &World, _p: Vec2i, material_id: MaterialId, variant: u8, temp_override: Option<u16>) -> (c: Cell)
    requires world.wf(),
    ensures
        c@ == (CellFields {
            material: material_id & 0x3FF,
            variant: variant & 3,
            lifetime: spawn_lifetime(world, material_id),
            temperature: {
                let t = match temp_override { Some(t) => t, None => props_lookup(world, material_id).base_temperature };
                if t > crate::cell64::MAX_TEMPERATURE { crate::cell64::MAX_TEMPERATURE } else { t }
            },
            ..fields_of(0)
        }),
{
    let props = world.material_props(material_id);
    let lifetime = if material_id == material::LAVA && props.fuel_mass > 0 {
        props.fuel_mass
    } else {
        World::initial_lifetime_for(material_id, &props)
    };
    let temp = match temp_override {
        Some(t) => t,
        None => props.base_temperature,
    };
    Cell::new().with_material(material_id).with_variant(variant).with_lifetime(lifetime).with_temperature(temp)
}

/// The cell at `pos` is inert terrain that takes part in static collision.
pub fn is_static_terrain(world: &World, pos: Vec2i) -> (b: bool)
    requires world.wf(),
    ensures b == world.contributes(pos, world.cell_at(pos)),
{
    let cell = world.get_cell(pos);
    world.cell_contributes_static_collider(pos, cell)
}

/// `p` comes before `q` in row-major order (rows top to bottom, each left to right).
pub open spec fn row_major_before(p: (i32, i32), q: (i32, i32)) -> bool {
    p.1 < q.1 || (p.1 == q.1 && p.0 < q.0)
}

/// The static terrain positions inside `bounds`, in row-major order.
pub fn collect_static_positions(world: &World, bounds: &RectI) -> (out: Vec<(i32, i32)>)
    requires world.wf(),
    ensures
        forall|i: int| 0 <= i < out.len() ==> {
            let p = #[trigger] out[i];
            &&& bounds.spec_contains(Vec2i { x: p.0, y: p.1 })
            &&& world.contributes(Vec2i { x: p.0, y: p.1 }, world.cell_at(Vec2i { x: p.0, y: p.1 }))
        },
        forall|i: int, j: int| 0 <= i < j < out.len() ==> row_major_before(#[trigger] out[i], #[trigger] out[j]),
        forall|p: Vec2i| bounds.spec_contains(p) && world.contributes(p, world.cell_at(p))
            ==> out@.contains((p.x, p.y)),
{
    let mut positions: Vec<(i32, i32)> = Vec::new();
    let mut y: i64 = bounds.min.y as i64;
    while y <= bounds.max.y as i64
        invariant
            world.wf(),
            bounds.min.y <= y <= bounds.max.y + 1 || y == bounds.min.y,
            forall|i: int| 0 <= i < positions.len() ==> {
                let p = #[trigger] positions[i];
                &&& bounds.spec_contains(Vec2i { x: p.0, y: p.1 })
                &&& p.1 < y
                &&& world.contributes(Vec2i { x: p.0, y: p.1 }, world.cell_at(Vec2i { x: p.0, y: p.1 }))
            },
            forall|i: int, j: int| 0 <= i < j < positions.len() ==> row_major_before(#[trigger] positions[i], #[trigger] positions[j]),
            forall|p: Vec2i| bounds.spec_contains(p) && p.y < y && world.contributes(p, world.cell_at(p))
                ==> positions@.contains((p.x, p.y)),
        decreases bounds.max.y as i64 + 1 - y,
    {
        let mut x: i64 = bounds.min.x as i64;
        while x <= bounds.max.x as i64
            invariant
                world.wf(),
                bounds.min.y <= y <= bounds.max.y,
                bounds.min.x <= x <= bounds.max.x + 1 || x == bounds.min.x,
                forall|i: int| 0 <= i < positions.len() ==> {
                    let p = #[trigger] positions[i];
                    &&& bounds.spec_contains(Vec2i { x: p.0, y: p.1 })
                    &&& (p.1 < y || (p.1 == y && p.0 < x))
                    &&& world.contributes(Vec2i { x: p.0, y: p.1 }, world.cell_at(Vec2i { x: p.0, y: p.1 }))
                },
                forall|i: int, j: int| 0 <= i < j < positions.len() ==> row_major_before(#[trigger] positions[i], #[trigger] positions[j]),
                forall|p: Vec2i| bounds.spec_contains(p) && (p.y < y || (p.y == y && p.x < x)) && world.contributes(p, world.cell_at(p))
                    ==> positions@.contains((p.x, p.y)),
            decreases bounds.max.x as i64 + 1 - x,
        {
            let p = Vec2i::new(x as i32, y as i32);
            if is_static_terrain(world, p) {
                let ghost before = positions@;
                positions.push((x as i32, y as i32));
                proof {
                    assert forall|q: Vec2i| bounds.spec_contains(q) && (q.y < y || (q.y == y && q.x < x + 1)) && world.contributes(q, world.cell_at(q))
                        implies positions@.contains((q.x, q.y)) by {
                        if q.y == y && q.x == x {
                            assert(positions@[before.len() as int] == (q.x, q.y));
                        } else {
                            let k = choose|k: int| 0 <= k < before.len() && before[k] == (q.x, q.y);
                            assert(positions@[k] == (q.x, q.y));
                        }
                    }
                }
            } else {
                proof {
                    assert forall|q: Vec2i| bounds.spec_contains(q) && (q.y < y || (q.y == y && q.x < x + 1)) && world.contributes(q, world.cell_at(q))
                        implies positions@.contains((q.x, q.y)) by {
                        if q.y == y && q.x == x {
                            assert(q == p);
                        }
                    }
                }
            }
            x = x + 1;
        }
        y = y + 1;
    }
    positions
}

/// Some anchor of `a` sits at `p`.
pub open spec fn anchor_at(a: Seq<PixelAnchor>, p: Vec2i) -> bool {
    exists|i: int| 0 <= i < a.len() && a[i].local == p
}

/// `a[i]` is the last anchor of `a` at its position.
pub open spec fn last_at(a: Seq<PixelAnchor>, i: int) -> bool {
    0 <= i < a.len() && forall|j: int| i < j < a.len() ==> a[j].local != a[i].local
}

/// The pieces as sequences.
pub open spec fn pieces(c: Seq<Vec<PixelAnchor>>) -> Seq<Seq<PixelAnchor>> {
    Seq::new(c.len(), |k: int| c[k]@)
}

/// Some pixel of piece `s` sits at `p`.
pub open spec fn piece_has(s: Seq<PixelAnchor>, p: Vec2i) -> bool {
    exists|i: int| 0 <= i < s.len() && s[i].local == p
}

/// Some pixel of some piece of `c` sits at `p`.
pub open spec fn placed(c: Seq<Seq<PixelAnchor>>, p: Vec2i) -> bool {
    exists|k: int| 0 <= k < c.len() && #[trigger] piece_has(c[k], p)
}

/// Every piece is non-empty, made of last-at-their-position anchors of `a`, 4-connected in its
/// own order (each pixel after the first touches an earlier one), and closed: an anchor position
/// next to one of its pixels belongs to it too. Each piece starts at the first anchor of `a`
/// that no earlier piece holds, and no position occurs twice over all pieces.
pub open spec fn pieces_ok(a: Seq<PixelAnchor>, c: Seq<Seq<PixelAnchor>>) -> bool {
    &&& forall|k: int| 0 <= k < c.len() ==> #[trigger] c[k].len() > 0
    &&& forall|k: int, i: int| 0 <= k < c.len() && 0 <= i < c[k].len() ==>
            exists|m: int| last_at(a, m) && a[m] == #[trigger] c[k][i]
    &&& forall|k: int, i: int| 0 <= k < c.len() && 0 < i < c[k].len() ==>
            exists|j: int| 0 <= j < i && near4(c[k][j].local, #[trigger] c[k][i].local)
    &&& forall|k: int, i: int, q: Vec2i| 0 <= k < c.len() && 0 <= i < c[k].len()
            && #[trigger] near4(c[k][i].local, q) && anchor_at(a, q) ==> piece_has(c[k], q)
    &&& forall|k: int| 0 <= k < c.len() ==> exists|t: int| 0 <= t < a.len()
            && (#[trigger] c[k])[0].local == a[t].local
            && forall|j: int| 0 <= j < t ==> placed(c.take(k), a[j].local)
    &&& forall|k1: int, i1: int, k2: int, i2: int|
            0 <= k1 < c.len() && 0 <= i1 < c[k1].len() && 0 <= k2 < c.len() && 0 <= i2 < c[k2].len()
            && (k1 != k2 || i1 != i2) ==> #[trigger] c[k1][i1].local != #[trigger] c[k2][i2].local
}

/// Splits a body's pixels into its 4-connected pieces. Pieces come in the order of their first
/// anchor in `anchors`; where several anchors share a position, the piece keeps the last of them.
pub fn find_connected_components(anchors: &Vec<PixelAnchor>) -> (comps: Vec<Vec<PixelAnchor>>)
    requires
        forall|i: int| 0 <= i < anchors.len() ==> inner_point(#[trigger] anchors[i].local),
    ensures
        pieces_ok(anchors@, pieces(comps@)),
        forall|j: int| 0 <= j < anchors.len() ==> placed(pieces(comps@), #[trigger] anchors[j].local),
{
    let ghost a = anchors@;
    let mut anchor_set = PointSet::new();
    let mut anchor_map: HashMap<u64, usize> = HashMap::new();
    let mut i: usize = 0;
    while i < anchors.len()
        invariant
            a == anchors@,
            i <= a.len(),
            anchor_set.wf(),
            forall|p: Vec2i| anchor_set.view_set().contains(p) <==> exists|j: int| 0 <= j < i && a[j].local == p,
            forall|k: u64| anchor_map@.contains_key(k) <==> exists|j: int| 0 <= j < i && point_key(a[j].local) == k,
            forall|j: int| 0 <= j < i ==> {
                let m = anchor_map@[point_key(#[trigger] a[j].local)] as int;
                &&& 0 <= m < i
                &&& a[m].local == a[j].local
                &&& forall|l: int| m < l < i ==> a[l].local != a[j].local
            },
        decreases a.len() - i,
    {
        let p = anchors[i].local;
        let _ = anchor_set.insert(p);
        anchor_map.insert(point_key_of(p), i);
        proof {
            assert forall|j: int| 0 <= j < i + 1 implies {
                let m = anchor_map@[point_key(#[trigger] a[j].local)] as int;
                &&& 0 <= m < i + 1
                &&& a[m].local == a[j].local
                &&& forall|l: int| m < l < i + 1 ==> a[l].local != a[j].local
            } by {
                lemma_point_key_roundtrip(a[j].local, 0);
                lemma_point_key_roundtrip(p, 0);
                if a[j].local != p {
                    assert(point_key(a[j].local) != point_key(p));
                }
            }
            assert forall|k: u64| anchor_map@.contains_key(k) <==> exists|j: int| 0 <= j < i + 1 && point_key(a[j].local) == k by {
                if k == point_key(p) {
                    assert(a[i as int].local == p);
                }
            }
            assert forall|q: Vec2i| anchor_set.view_set().contains(q) <==> exists|j: int| 0 <= j < i + 1 && a[j].local == q by {
                if q == p {
                    assert(a[i as int].local == p);
                }
            }
        }
        i = i + 1;
    }
    let ghost aset = anchor_set.view_set();
    let mut visited = PointSet::new();
    let mut components: Vec<Vec<PixelAnchor>> = Vec::new();
    proof {
        assert(pieces(components@) =~= Seq::<Seq<PixelAnchor>>::empty());
        anchor_set.lemma_len();
        assert forall|p: Vec2i| aset.contains(p) <==> anchor_at(a, p) by {}
    }
    let mut t: usize = 0;
    while t < anchors.len()
        invariant
            a == anchors@,
            t <= a.len(),
            forall|i: int| 0 <= i < anchors.len() ==> inner_point(#[trigger] anchors[i].local),
            anchor_set.wf(),
            aset == anchor_set.view_set(),
            aset.finite(),
            anchor_set.list().len() == aset.len(),
            forall|p: Vec2i| aset.contains(p) <==> anchor_at(a, p),
            forall|j: int| 0 <= j < a.len() ==> {
                let m = anchor_map@[point_key(#[trigger] a[j].local)] as int;
                &&& anchor_map@.contains_key(point_key(a[j].local))
                &&& a[m].local == a[j].local
                &&& last_at(a, m)
            },
            visited.wf(),
            forall|p: Vec2i| visited.view_set().contains(p) <==> placed(pieces(components@), p),
            pieces_ok(a, pieces(components@)),
            forall|j: int| 0 <= j < t ==> placed(pieces(components@), #[trigger] a[j].local),
        decreases a.len() - t,
    {
        let key = anchors[t].local;
        if !visited.contains(key) {
            let ghost gc = pieces(components@);
            let mut component: Vec<PixelAnchor> = Vec::new();
            let mut stack: Vec<Vec2i> = Vec::new();
            stack.push(key);
            proof {
                assert(anchor_at(a, key)) by { assert(a[t as int].local == key); }
            }
            proof {
                reveal(dfs_inv);
                assert forall|p: Vec2i| visited.view_set().contains(p) <==> (placed(gc, p) || piece_has(component@, p)) by {}
            }
            while stack.len() > 0
                invariant
                    a == anchors@,
                    forall|i: int| 0 <= i < anchors.len() ==> inner_point(#[trigger] anchors[i].local),
                    anchor_set.wf(),
                    aset == anchor_set.view_set(),
                    aset.finite(),
                    anchor_set.list().len() == aset.len(),
                    forall|p: Vec2i| aset.contains(p) <==> anchor_at(a, p),
                    forall|j: int| 0 <= j < a.len() ==> {
                        let m = anchor_map@[point_key(#[trigger] a[j].local)] as int;
                        &&& anchor_map@.contains_key(point_key(a[j].local))
                        &&& a[m].local == a[j].local
                        &&& last_at(a, m)
                    },
                    visited.wf(),
                    gc == pieces(components@),
                    pieces_ok(a, gc),
                    !placed(gc, key),
                    anchor_at(a, key),
                    forall|p: Vec2i| visited.view_set().contains(p) ==> aset.contains(p),
                    dfs_inv(a, gc, key, component@, stack@, visited.view_set()),
                decreases anchor_set.list().len() - visited.list().len(), stack.len(),
            {
                let ghost s_before = stack@;
                let pos = stack.pop().unwrap();
                proof {
                    assert(s_before =~= stack@.push(pos));
                    visited.lemma_len();
                    vstd::set_lib::lemma_len_subset(visited.view_set(), aset);
                }
                if !anchor_set.contains(pos) || visited.contains(pos) {
                    proof {
                        lemma_skip_step(a, gc, key, component@, s_before, stack@, pos, visited.view_set());
                    }
                    continue;
                }
                let ghost v_before = visited.view_set();
                let _ = visited.insert(pos);
                let idx = match anchor_map.get(&point_key_of(pos)) {
                    Some(ix) => *ix,
                    None => {
                        proof {
                            let j = choose|j: int| 0 <= j < a.len() && a[j].local == pos;
                            assert(anchor_map@.contains_key(point_key(a[j].local)));
                        }
                        0
                    },
                };
                proof {
                    let j = choose|j: int| 0 <= j < a.len() && a[j].local == pos;
                    assert(anchor_map@.contains_key(point_key(a[j].local)));
                    assert(idx as int == anchor_map@[point_key(a[j].local)] as int);
                    assert(inner_point(anchors[j].local));
                }
                let ghost c_before = component@;
                component.push(anchors[idx]);
                let ghost s_mid = stack@;
                stack.push(Vec2i::new(pos.x + 1, pos.y));
                stack.push(Vec2i::new(pos.x - 1, pos.y));
                stack.push(Vec2i::new(pos.x, pos.y + 1));
                stack.push(Vec2i::new(pos.x, pos.y - 1));
                proof {
                    assert(component@ =~= c_before.push(a[idx as int]));
                    assert(stack@ =~= pushed_neighbours(s_mid, pos));
                    lemma_visit_step(a, gc, key, c_before, s_before, s_mid, pos, v_before, idx as int);
                    visited.lemma_len();
                    vstd::set_lib::lemma_len_subset(visited.view_set(), aset);
                }
            }
            proof {
                lemma_close_piece(a, gc, component@, key, t as int, visited.view_set());
                assert(pieces(components@.push(component)) =~= gc.push(component@));
            }
            components.push(component);
        }
        proof {
            assert forall|j: int| 0 <= j < t + 1 implies placed(pieces(components@), #[trigger] a[j].local) by {
                if j == t {
                    assert(visited.view_set().contains(a[j].local));
                }
            }
        }
        t = t + 1;
    }
    components
}

/// Closing a finished depth-first search adds its piece to a valid list of pieces.
proof fn lemma_close_piece(a: Seq<PixelAnchor>, gc: Seq<Seq<PixelAnchor>>, comp: Seq<PixelAnchor>, key: Vec2i, t: int, v: Set<Vec2i>)
    requires
        0 <= t < a.len(),
        a[t].local == key,
        pieces_ok(a, gc),
        !placed(gc, key),
        forall|j: int| 0 <= j < t ==> placed(gc, #[trigger] a[j].local),
        dfs_inv(a, gc, key, comp, Seq::empty(), v),
    ensures
        comp.len() > 0,
        pieces_ok(a, gc.push(comp)),
        forall|p: Vec2i| placed(gc.push(comp), p) <==> (placed(gc, p) || piece_has(comp, p)),
        forall|p: Vec2i| v.contains(p) <==> (placed(gc, p) || piece_has(comp, p)),
{
    reveal(dfs_inv);
    assert(comp.len() > 0) by {
        if comp.len() == 0 {
            assert(Seq::<Vec2i>::empty().len() == 0);
            assert(seq![key].len() == 1);
        }
    }
    assert forall|i: int, q: Vec2i| 0 <= i < comp.len() && #[trigger] near4(comp[i].local, q) && anchor_at(a, q)
        implies placed(gc, q) || piece_has(comp, q) by {
        assert(!Seq::<Vec2i>::empty().contains(q));
    }
    let c = gc.push(comp);
    let n = gc.len() as int;
    assert(c[n] == comp);
    assert forall|k: int| 0 <= k < n implies #[trigger] c[k] == gc[k] by {}
    assert forall|p: Vec2i| placed(c, p) <==> (placed(gc, p) || piece_has(comp, p)) by {
        if placed(c, p) {
            let k = choose|k: int| 0 <= k < c.len() && #[trigger] piece_has(c[k], p);
            if k < n {
                assert(c[k] == gc[k]);
            }
        }
        if placed(gc, p) {
            let k = choose|k: int| 0 <= k < gc.len() && #[trigger] piece_has(gc[k], p);
            assert(c[k] == gc[k]);
        }
        if piece_has(comp, p) {
            assert(piece_has(c[n], p));
        }
    }
    assert forall|k: int| 0 <= k < c.len() implies #[trigger] c[k].len() > 0 by {
        if k < n { assert(c[k] == gc[k]); }
    }
    assert forall|k: int, i: int| 0 <= k < c.len() && 0 <= i < c[k].len() implies
        exists|m: int| last_at(a, m) && a[m] == #[trigger] c[k][i] by {
        if k < n { assert(c[k] == gc[k]); }
    }
    assert forall|k: int, i: int| 0 <= k < c.len() && 0 < i < c[k].len() implies
        exists|j: int| 0 <= j < i && near4(c[k][j].local, #[trigger] c[k][i].local) by {
        if k < n { assert(c[k] == gc[k]); }
    }
    assert forall|k: int, i: int, q: Vec2i| 0 <= k < c.len() && 0 <= i < c[k].len()
        && #[trigger] near4(c[k][i].local, q) && anchor_at(a, q) implies piece_has(c[k], q) by {
        if k < n {
            assert(c[k] == gc[k]);
        } else {
            if placed(gc, q) {
                let k2 = choose|k2: int| 0 <= k2 < gc.len() && #[trigger] piece_has(gc[k2], q);
                let i2 = choose|i2: int| 0 <= i2 < gc[k2].len() && gc[k2][i2].local == q;
                let m = choose|m: int| last_at(a, m) && a[m] == #[trigger] comp[i];
                assert(anchor_at(a, comp[i].local));
                assert(near4(gc[k2][i2].local, comp[i].local));
                assert(piece_has(gc[k2], comp[i].local));
                assert(placed(gc, comp[i].local));
                assert(false);
            }
        }
    }
    assert forall|k: int| 0 <= k < c.len() implies exists|tt: int| 0 <= tt < a.len()
        && (#[trigger] c[k])[0].local == a[tt].local
        && forall|j: int| 0 <= j < tt ==> placed(c.take(k), a[j].local) by {
        if k < n {
            assert(c[k] == gc[k]);
            assert(c.take(k) =~= gc.take(k));
            let tt = choose|tt: int| 0 <= tt < a.len() && (#[trigger] gc[k])[0].local == a[tt].local
                && forall|j: int| 0 <= j < tt ==> placed(gc.take(k), a[j].local);
        } else {
            assert(c.take(k) =~= gc);
            assert(c[k][0].local == a[t].local);
        }
    }
    assert forall|k1: int, i1: int, k2: int, i2: int|
        0 <= k1 < c.len() && 0 <= i1 < c[k1].len() && 0 <= k2 < c.len() && 0 <= i2 < c[k2].len()
        && (k1 != k2 || i1 != i2) implies #[trigger] c[k1][i1].local != #[trigger] c[k2][i2].local by {
        if k1 < n && k2 < n {
            assert(c[k1] == gc[k1]);
            assert(c[k2] == gc[k2]);
        } else if k1 < n {
            assert(c[k1] == gc[k1]);
            assert(piece_has(gc[k1], c[k1][i1].local));
            assert(!placed(gc, comp[i2].local));
        } else if k2 < n {
            assert(c[k2] == gc[k2]);
            assert(piece_has(gc[k2], c[k2][i2].local));
            assert(!placed(gc, comp[i1].local));
        } else {
            if i1 < i2 {
                assert(comp[i1].local != comp[i2].local);
            } else {
                assert(comp[i2].local != comp[i1].local);
            }
        }
    }
}

/// The work list after visiting `pos`: its four orthogonal neighbours pushed right, left, down, up.
pub open spec fn pushed_neighbours(s: Seq<Vec2i>, pos: Vec2i) -> Seq<Vec2i> {
    s.push(Vec2i { x: (pos.x + 1) as i32, y: pos.y })
        .push(Vec2i { x: (pos.x - 1) as i32, y: pos.y })
        .push(Vec2i { x: pos.x, y: (pos.y + 1) as i32 })
        .push(Vec2i { x: pos.x, y: (pos.y - 1) as i32 })
}

/// State of the depth-first search that grows piece `comp` from `key`, beside the finished
/// pieces `gc`, with work list `stack` and visited positions `visited`.
#[verifier::opaque]
spec fn dfs_inv(a: Seq<PixelAnchor>, gc: Seq<Seq<PixelAnchor>>, key: Vec2i, comp: Seq<PixelAnchor>, stack: Seq<Vec2i>, visited: Set<Vec2i>) -> bool {
    &&& forall|p: Vec2i| visited.contains(p) <==> (placed(gc, p) || piece_has(comp, p))
    &&& forall|i: int| 0 <= i < comp.len() ==> exists|m: int| last_at(a, m) && a[m] == #[trigger] comp[i]
    &&& forall|i: int, j: int| 0 <= i < j < comp.len() ==> (#[trigger] comp[i]).local != (#[trigger] comp[j]).local
    &&& forall|i: int| 0 <= i < comp.len() ==> !placed(gc, (#[trigger] comp[i]).local)
    &&& forall|i: int| 0 < i < comp.len() ==> exists|j: int| 0 <= j < i && near4(comp[j].local, (#[trigger] comp[i]).local)
    &&& comp.len() == 0 ==> stack == seq![key]
    &&& comp.len() > 0 ==> comp[0].local == key
    &&& comp.len() > 0 ==> forall|q: Vec2i| #[trigger] stack.contains(q) ==> exists|j: int| 0 <= j < comp.len() && near4(comp[j].local, q)
    &&& forall|i: int, q: Vec2i| 0 <= i < comp.len() && #[trigger] near4(comp[i].local, q) && anchor_at(a, q)
        ==> visited.contains(q) || stack.contains(q)
}

/// Popping a position that is no anchor or already visited keeps the search state.
proof fn lemma_skip_step(a: Seq<PixelAnchor>, gc: Seq<Seq<PixelAnchor>>, key: Vec2i, comp: Seq<PixelAnchor>,
    s_before: Seq<Vec2i>, s: Seq<Vec2i>, pos: Vec2i, v: Set<Vec2i>)
    requires
        dfs_inv(a, gc, key, comp, s_before, v),
        s_before == s.push(pos),
        !anchor_at(a, pos) || v.contains(pos),
        !placed(gc, key),
        anchor_at(a, key),
    ensures
        dfs_inv(a, gc, key, comp, s, v),
{
    reveal(dfs_inv);
    if comp.len() == 0 {
        assert(s_before.len() == 1);
        assert(s_before[0] == key);
        assert(pos == key);
        assert(!piece_has(comp, key));
        assert(false);
    }
    assert forall|q: Vec2i| #[trigger] s.contains(q) implies s_before.contains(q) by {
        lemma_push_contains(s, pos, q);
    }
    assert forall|i: int, q: Vec2i| 0 <= i < comp.len() && #[trigger] near4(comp[i].local, q) && anchor_at(a, q)
        implies v.contains(q) || s.contains(q) by {
        lemma_push_contains(s, pos, q);
    }
}

/// Visiting the anchor `a[idx]` at an unvisited position `pos` adds it to the piece and pushes its
/// neighbours.
proof fn lemma_visit_step(a: Seq<PixelAnchor>, gc: Seq<Seq<PixelAnchor>>, key: Vec2i, c: Seq<PixelAnchor>,
    s_before: Seq<Vec2i>, s_mid: Seq<Vec2i>, pos: Vec2i, v: Set<Vec2i>, idx: int)
    requires
        dfs_inv(a, gc, key, c, s_before, v),
        s_before == s_mid.push(pos),
        inner_point(pos),
        !v.contains(pos),
        last_at(a, idx),
        a[idx].local == pos,
        !placed(gc, key),
    ensures
        dfs_inv(a, gc, key, c.push(a[idx]), pushed_neighbours(s_mid, pos), v.insert(pos)),
{
    reveal(dfs_inv);
    let comp = c.push(a[idx]);
    let s_new = pushed_neighbours(s_mid, pos);
    let v2 = v.insert(pos);
    let last = c.len() as int;
    let n1 = Vec2i { x: (pos.x + 1) as i32, y: pos.y };
    let n2 = Vec2i { x: (pos.x - 1) as i32, y: pos.y };
    let n3 = Vec2i { x: pos.x, y: (pos.y + 1) as i32 };
    let n4 = Vec2i { x: pos.x, y: (pos.y - 1) as i32 };
    assert forall|q: Vec2i| s_new.contains(q) <==> (s_mid.contains(q) || q == n1 || q == n2 || q == n3 || q == n4) by {
        lemma_push_contains(s_mid, n1, q);
        lemma_push_contains(s_mid.push(n1), n2, q);
        lemma_push_contains(s_mid.push(n1).push(n2), n3, q);
        lemma_push_contains(s_mid.push(n1).push(n2).push(n3), n4, q);
    }
    assert forall|q: Vec2i| s_before.contains(q) <==> (s_mid.contains(q) || q == pos) by {
        lemma_push_contains(s_mid, pos, q);
    }
    assert(comp[last] == a[idx]);
    assert forall|i: int| 0 <= i < last implies #[trigger] comp[i] == c[i] by {}
    assert(!placed(gc, pos));
    assert forall|p: Vec2i| v2.contains(p) <==> (placed(gc, p) || piece_has(comp, p)) by {
        if piece_has(c, p) {
            let i = choose|i: int| 0 <= i < c.len() && c[i].local == p;
            assert(comp[i] == c[i]);
        }
        if piece_has(comp, p) && p != pos {
            let i = choose|i: int| 0 <= i < comp.len() && comp[i].local == p;
            assert(c[i] == comp[i]);
        }
        if p == pos {
            assert(comp[last].local == p);
        }
    }
    assert forall|i: int| 0 <= i < comp.len() implies exists|m: int| last_at(a, m) && a[m] == #[trigger] comp[i] by {
        if i < last {
            assert(comp[i] == c[i]);
        }
    }
    assert forall|i: int| 0 <= i < last implies c[i].local != pos by {
        assert(piece_has(c, c[i].local));
    }
    assert forall|i: int, j: int| 0 <= i < j < comp.len() implies (#[trigger] comp[i]).local != (#[trigger] comp[j]).local by {
        assert(comp[i] == c[i]);
        if j < last {
            assert(comp[j] == c[j]);
        }
    }
    assert forall|i: int| 0 <= i < comp.len() implies !placed(gc, (#[trigger] comp[i]).local) by {
        if i < last {
            assert(comp[i] == c[i]);
        }
    }
    if last > 0 {
        assert(s_before.contains(pos)) by {
            assert(s_before[s_before.len() - 1] == pos);
        }
        let jj = choose|j: int| 0 <= j < c.len() && near4(c[j].local, pos);
        assert(comp[jj] == c[jj]);
    } else {
        assert(s_before =~= seq![key]);
        assert(s_before[0] == pos);
    }
    assert forall|i: int| 0 < i < comp.len() implies exists|j: int| 0 <= j < i && near4(comp[j].local, (#[trigger] comp[i]).local) by {
        if i < last {
            assert(comp[i] == c[i]);
            let j = choose|j: int| 0 <= j < i && near4(c[j].local, c[i].local);
            assert(comp[j] == c[j]);
        } else {
            let jj = choose|j: int| 0 <= j < c.len() && near4(c[j].local, pos);
            assert(comp[jj] == c[jj]);
        }
    }
    assert forall|q: Vec2i| #[trigger] s_new.contains(q) implies exists|j: int| 0 <= j < comp.len() && near4(comp[j].local, q) by {
        if q == n1 || q == n2 || q == n3 || q == n4 {
            assert(near4(comp[last].local, q));
        } else {
            assert(s_mid.contains(q));
            assert(s_before.contains(q));
            if last == 0 {
                assert(s_before =~= seq![key]);
                assert(s_before.len() == 1);
                assert(s_mid.len() == 0);
                assert(false);
            }
            let j = choose|j: int| 0 <= j < c.len() && near4(c[j].local, q);
            assert(comp[j] == c[j]);
        }
    }
    assert forall|i: int, q: Vec2i| 0 <= i < comp.len() && #[trigger] near4(comp[i].local, q) && anchor_at(a, q)
        implies v2.contains(q) || s_new.contains(q) by {
        if i == last {
            assert(q == n1 || q == n2 || q == n3 || q == n4);
        } else {
            assert(comp[i] == c[i]);
            assert(near4(c[i].local, q));
        }
    }
}

} // verus!
