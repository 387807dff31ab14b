//! Explosions: either a full-disk erase, or chords (Bresenham lines) from the centre out to points on
//! the blast circle, each carrying energy that the cells it meets absorb, updating the world live so
//! overlapping chords concentrate damage near the core.
use vstd::prelude::*;

use crate::bresenham::{abs_int, bresenham_points, is_floor_sqrt, isqrt_i32, line_points, line_span_ok, steps_toward};
use crate::cell64::{Cell, CellFields, MAX_TEMPERATURE};
use crate::world::geom::Vec2i;
use crate::world::material;
use crate::world::props::MaterialProps;
use crate::world::state::{spec_initial_lifetime, stored_fields, stored_of, World};
use crate::world::MaterialId;
use crate::sim::rng::shuffle_targets;

verus! {

/// Material, lifetime and temperature placed where the blast destroys a cell.
#[derive(Clone, Copy, Debug, PartialEq, Eq, Structural)]
pub struct ExplosionSpawn {
    pub material: MaterialId,
    /// `None` uses the material's initial lifetime.
    pub lifetime: Option<u8>,
    /// `None` uses the material's base temperature.
    pub temperature: Option<u16>,
}

#[derive(Clone, Copy, Debug, PartialEq, Eq, Structural)]
pub struct ExplosionParams {
    pub center: Vec2i,
    pub radius: i32,
    /// Starting energy of every chord (unused when `obliterate_disk`).
    pub base_strength: u32,
    /// Clears every non-empty cell of the filled disk at once (no attenuation).
    pub obliterate_disk: bool,
    /// What destroyed inner cells become; `None` is empty space.
    pub fill_on_destroy: Option<ExplosionSpawn>,
    /// What destroyed cells of the outer band become; `None` uses the inner rule everywhere.
    pub edge_on_destroy: Option<ExplosionSpawn>,
    /// The outer band holds the cells with `dist² >= (radius - edge_band_inward)²`.
    pub edge_band_inward: i32,
}

pub open spec fn spec_base_strength(radius: i32) -> u32 {
    let r = radius as u32;
    let m: u32 = if r * 36 > u32::MAX { u32::MAX } else { (r * 36) as u32 };
    if m < 96 { 96 } else { m }
}

/// Chord energy for a gameplay explosion of `radius`: `36` per cell of radius (saturating), at
/// least `96`.
pub fn base_strength_for_radius(radius: i32) -> (s: u32)
    ensures s == spec_base_strength(radius),
{
    let r = radius as u32;
    let m: u32 = if r > u32::MAX / 36 { u32::MAX } else { r * 36 };
    if m < 96 { 96 } else { m }
}

impl ExplosionParams {
    /// Incendiary blast (C4, smoulder burn-out): empty interior, a ring of fire on the outer band.
    pub fn gameplay_incendiary(center: Vec2i, radius: i32) -> (p: Self)
        ensures
            p.center == center,
            p.radius == radius,
            p.base_strength == spec_base_strength(radius),
            !p.obliterate_disk,
            p.fill_on_destroy is None,
            p.edge_on_destroy == Some(ExplosionSpawn { material: material::FIRE, lifetime: Some(40u8), temperature: Some(800u16) }),
            p.edge_band_inward == 2,
    {
        ExplosionParams {
            center,
            radius,
            base_strength: base_strength_for_radius(radius),
            obliterate_disk: false,
            fill_on_destroy: None,
            edge_on_destroy: Some(ExplosionSpawn { material: material::FIRE, lifetime: Some(40), temperature: Some(800) }),
            edge_band_inward: 2,
        }
    }
}

/// Half-width of the circle of squared radius `r2` at vertical offset `dy` (from `isqrt`).
pub open spec fn outline_points(center: Vec2i, r: int) -> Set<Vec2i> {
    Set::new(|p: Vec2i| {
        let dy = p.y - center.y;
        &&& center.y - r <= p.y <= center.y + r
        &&& exists|w: int| #[trigger] is_floor_sqrt(r * r - dy * dy, w)
            && (p.x == center.x - w || (w > 0 && p.x == center.x + w))
    })
}

/// Integer circle outline of radius `r` around `center`: the left and right cell of every row.
pub fn scanline_circle_outline(center: Vec2i, r: i32) -> (pts: Vec<Vec2i>)
    requires
        -46340 <= r <= 46340,
        i32::MIN <= center.x - r, center.x + r <= i32::MAX,
        i32::MIN <= center.y - r, center.y + r <= i32::MAX,
    ensures
        pts@.no_duplicates(),
        pts@.to_set() == outline_points(center, r as int),
{
    proof {
        assert(r * r <= 46340 * 46340) by (nonlinear_arith) requires -46340 <= r <= 46340;
        assert(r * r >= 0) by (nonlinear_arith);
    }
    let r2: i32 = r * r;
    let mut pts: Vec<Vec2i> = Vec::new();
    let mut y: i64 = center.y as i64 - r as i64;
    while y <= center.y as i64 + r as i64
        invariant
            -46340 <= r <= 46340,
            r2 == r * r,
            i32::MIN <= center.x - r, center.x + r <= i32::MAX,
            i32::MIN <= center.y - r, center.y + r <= i32::MAX,
            center.y - r <= y,
            y <= center.y + r + 1 || y == center.y - r,
            pts@.no_duplicates(),
            forall|q: Vec2i| #[trigger] pts@.contains(q) <==> (outline_points(center, r as int).contains(q) && q.y < y),
        decreases center.y + r + 1 - y,
    {
        let dy = (y - center.y as i64) as i32;
        proof {
            assert(dy * dy >= 0) by (nonlinear_arith);
            assert(dy * dy <= r * r) by (nonlinear_arith) requires -r <= dy <= r, r >= 0;
        }
        let dy2 = dy * dy;
        let w = isqrt_i32(r2 - dy2);
        proof {
            assert(w * w <= r2 - dy2);
            assert(0 <= w <= r) by (nonlinear_arith) requires w * w <= r * r, w >= 0, r >= 0 {
                if w > r { assert(w * w > r * r); }
            }
        }
        let ghost before = pts@;
        let left = Vec2i::new(center.x - w, y as i32);
        proof {
            assert(!before.contains(left));
        }
        pts.push(left);
        if w > 0 {
            let right = Vec2i::new(center.x + w, y as i32);
            proof {
                assert(!pts@.contains(right)) by {
                    if pts@.contains(right) {
                        let a = choose|a: int| 0 <= a < pts@.len() && pts@[a] == right;
                        if a < before.len() { assert(before.contains(right)); }
                    }
                }
            }
            pts.push(right);
        }
        proof {
            assert forall|q: Vec2i| #[trigger] pts@.contains(q) <==> (outline_points(center, r as int).contains(q) && q.y < y + 1) by {
                if q.y == y && outline_points(center, r as int).contains(q) {
                    let w2 = choose|w2: int| #[trigger] is_floor_sqrt(r * r - (q.y - center.y) * (q.y - center.y), w2)
                        && (q.x == center.x - w2 || (w2 > 0 && q.x == center.x + w2));
                    crate::bresenham::lemma_floor_sqrt_unique(r * r - dy * dy, w as int, w2);
                    if q == left {
                        assert(pts@[before.len() as int] == q);
                    } else {
                        assert(pts@[before.len() as int + 1] == q);
                    }
                }
                if pts@.contains(q) {
                    let a = choose|a: int| 0 <= a < pts@.len() && pts@[a] == q;
                    if a < before.len() {
                        assert(before.contains(q));
                    } else {
                        assert(q.y == y);
                    }
                }
                if before.contains(q) {
                    let a = choose|a: int| 0 <= a < before.len() && before[a] == q;
                    assert(pts@[a] == q);
                }
            }
        }
        y = y + 1;
    }
    proof {
        assert forall|q: Vec2i| #[trigger] pts@.to_set().contains(q) <==> outline_points(center, r as int).contains(q) by {}
        assert(pts@.to_set() =~= outline_points(center, r as int));
    }
    pts
}

/// Properties of material `id` as the world reports them (defaults past the table).
pub open spec fn props_for(w: &World, id: u16) -> MaterialProps {
    if (id as int) < 1024 { w.props_view()[id as int] } else { MaterialProps::spec_default() }
}

/// Fields of the cell a spawn rule places.
pub open spec fn spawn_fields(w: &World, s: ExplosionSpawn) -> CellFields {
    let props = props_for(w, s.material);
    let life = match s.lifetime { Some(l) => l, None => spec_initial_lifetime(s.material, props) };
    let temp = match s.temperature { Some(t) => t, None => props.base_temperature };
    CellFields {
        material: s.material & 0x3FF,
        lifetime: life,
        temperature: if temp > MAX_TEMPERATURE { MAX_TEMPERATURE } else { temp },
        ..crate::cell64::fields_of(0)
    }
}

fn build_spawn_cell(world: &World, s: &ExplosionSpawn) -> (c: Cell)
    requires world.wf(),
    ensures c@ == spawn_fields(world, *s),
{
    let props = world.material_props(s.material);
    let life = match s.lifetime {
        Some(l) => l,
        None => World::initial_lifetime_for(s.material, &props),
    };
    let temp = match s.temperature {
        Some(t) => t,
        None => props.base_temperature,
    };
    proof { crate::cell64::lemma_zero_fields(); }
    Cell::new().with_material(s.material).with_lifetime(life).with_temperature(temp)
}

pub open spec fn sat_i32(v: int) -> int {
    if v < i32::MIN { i32::MIN as int } else if v > i32::MAX { i32::MAX as int } else { v }
}

/// The destroyed cell at squared distance `d2` lies in the outer band and the band has a rule.
pub open spec fn uses_edge(params: ExplosionParams, d2: int) -> bool {
    let inner = sat_i32(params.radius - params.edge_band_inward);
    params.edge_on_destroy is Some && params.radius > 0 && d2 >= sat_i32(inner * inner)
}

/// Fields of what a destroyed cell at squared distance `d2` becomes.
pub open spec fn replacement_fields(w: &World, params: ExplosionParams, d2: int) -> CellFields {
    if uses_edge(params, d2) {
        spawn_fields(w, params.edge_on_destroy->0)
    } else if params.fill_on_destroy is Some {
        spawn_fields(w, params.fill_on_destroy->0)
    } else {
        crate::cell64::fields_of(0)
    }
}

fn replacement_after_destroy(world: &World, params: &ExplosionParams, d2: i32) -> (c: Cell)
    requires world.wf(),
    ensures c@ == replacement_fields(world, *params, d2 as int),
{
    let r = params.radius;
    let inner_r64 = r as i64 - params.edge_band_inward as i64;
    let inner_r: i64 = if inner_r64 < i32::MIN as i64 { i32::MIN as i64 } else if inner_r64 > i32::MAX as i64 { i32::MAX as i64 } else { inner_r64 };
    proof {
        assert(inner_r * inner_r >= 0) by (nonlinear_arith);
        assert(inner_r * inner_r <= 0x4000_0000_0000_0000) by (nonlinear_arith)
            requires -0x8000_0000 <= inner_r <= 0x7fff_ffff;
    }
    let sq = inner_r * inner_r;
    let inner_r2: i64 = if sq > i32::MAX as i64 { i32::MAX as i64 } else { sq };
    let use_edge = params.edge_on_destroy.is_some() && r > 0 && d2 as i64 >= inner_r2;
    if use_edge {
        match params.edge_on_destroy {
            Some(e) => { return build_spawn_cell(world, &e); }
            None => {}
        }
    }
    match params.fill_on_destroy {
        Some(f) => build_spawn_cell(world, &f),
        None => {
            proof { crate::cell64::lemma_zero_fields(); }
            Cell::new()
        }
    }
}

/// Energy a chord takes away from a cell's lifetime: a tenth of it, between 1 and 255.
pub open spec fn spec_damage(incoming: u32) -> u8 {
    let d = incoming / 10;
    (if d < 1 { 1 } else if d > 255 { 255 } else { d }) as u8
}

fn damage_to_lifetime(incoming: u32) -> (d: u8)
    ensures d == spec_damage(incoming),
{
    let d = incoming / 10;
    (if d < 1 { 1 } else if d > 255 { 255 } else { d }) as u8
}

/// Squared distance of `p` from `c`.
pub open spec fn dist2(c: Vec2i, p: Vec2i) -> int {
    (p.x - c.x) * (p.x - c.x) + (p.y - c.y) * (p.y - c.y)
}

/// The disk the full-erase explosion clears.
pub open spec fn in_blast_disk(params: ExplosionParams, p: Vec2i) -> bool {
    &&& params.center.x - params.radius <= p.x <= params.center.x + params.radius
    &&& params.center.y - params.radius <= p.y <= params.center.y + params.radius
    &&& dist2(params.center, p) <= params.radius * params.radius
}

/// The blast geometry fits in `i32` arithmetic.
pub open spec fn blast_fits(params: ExplosionParams) -> bool {
    &&& -46340 <= params.radius <= 32767
    &&& i32::MIN <= params.center.x - params.radius && params.center.x + params.radius <= i32::MAX
    &&& i32::MIN <= params.center.y - params.radius && params.center.y + params.radius <= i32::MAX
}

/// Erases the blast disk at once: every non-empty grid cell in it becomes its replacement.
fn obliterate_disk(world: &mut World, params: &ExplosionParams)
    requires old(world).wf(), blast_fits(*params),
    ensures
        final(world).wf(),
        final(world).same_setup(old(world)),
        forall|q: Vec2i| #[trigger] final(world).cell_at(q) == (
            if old(world).in_grid(q) && in_blast_disk(*params, q) && old(world).cell_at(q)@.material != material::EMPTY {
                final(world).cell_at(q)
            } else {
                old(world).cell_at(q)
            }),
        forall|q: Vec2i| old(world).in_grid(q) && in_blast_disk(*params, q) && old(world).cell_at(q)@.material != material::EMPTY
            ==> (#[trigger] final(world).cell_at(q))@ == stored_of(replacement_fields(old(world), *params, dist2(params.center, q)),
                old(world).spec_ambient()),
        forall|q: Vec2i| #[trigger] final(world).rigid_map().contains_key(q) <==> (old(world).rigid_map().contains_key(q)
            && !(old(world).in_grid(q) && in_blast_disk(*params, q) && old(world).cell_at(q)@.material != material::EMPTY)),
{
    let cx = params.center.x;
    let cy = params.center.y;
    let r = params.radius;
    if r < 0 {
        proof {
            assert forall|q: Vec2i| !in_blast_disk(*params, q) by {}
        }
        return;
    }
    let ghost w0 = *world;
    let ghost hit = |q: Vec2i| w0.in_grid(q) && in_blast_disk(*params, q) && w0.cell_at(q)@.material != material::EMPTY;
    proof {
        assert(0 <= r * r <= 32767 * 32767) by (nonlinear_arith) requires 0 <= r <= 32767;
    }
    let r2: i64 = r as i64 * r as i64;
    let mut y: i64 = cy as i64 - r as i64;
    while y <= cy as i64 + r as i64
        invariant
            world.wf(),
            w0.wf(),
            world.same_setup(&w0),
            blast_fits(*params),
            cx == params.center.x, cy == params.center.y, r == params.radius, r >= 0,
            r2 == r * r,
            cy - r <= y <= cy + r + 1,
            hit == (|q: Vec2i| w0.in_grid(q) && in_blast_disk(*params, q) && w0.cell_at(q)@.material != material::EMPTY),
            forall|q: Vec2i| !(hit(q) && q.y < y) ==> #[trigger] world.cell_at(q) == w0.cell_at(q),
            forall|q: Vec2i| hit(q) && q.y < y ==> (#[trigger] world.cell_at(q))@
                == stored_of(replacement_fields(&w0, *params, dist2(params.center, q)), w0.spec_ambient()),
            forall|q: Vec2i| #[trigger] world.rigid_map().contains_key(q) <==> (w0.rigid_map().contains_key(q) && !(hit(q) && q.y < y)),
        decreases cy + r + 1 - y,
    {
        let mut x: i64 = cx as i64 - r as i64;
        while x <= cx as i64 + r as i64
            invariant
                world.wf(),
                w0.wf(),
                world.same_setup(&w0),
                blast_fits(*params),
                cx == params.center.x, cy == params.center.y, r == params.radius, r >= 0,
                r2 == r * r,
                cy - r <= y <= cy + r,
                cx - r <= x <= cx + r + 1,
                hit == (|q: Vec2i| w0.in_grid(q) && in_blast_disk(*params, q) && w0.cell_at(q)@.material != material::EMPTY),
                forall|q: Vec2i| !(hit(q) && crate::world::state::scanned_before(x as int, y as int, q)) ==> #[trigger] world.cell_at(q) == w0.cell_at(q),
                forall|q: Vec2i| hit(q) && crate::world::state::scanned_before(x as int, y as int, q) ==> (#[trigger] world.cell_at(q))@
                    == stored_of(replacement_fields(&w0, *params, dist2(params.center, q)), w0.spec_ambient()),
                forall|q: Vec2i| #[trigger] world.rigid_map().contains_key(q) <==>
                    (w0.rigid_map().contains_key(q) && !(hit(q) && crate::world::state::scanned_before(x as int, y as int, q))),
            decreases cx + r + 1 - x,
        {
            let dx = x - cx as i64;
            let dy = y - cy as i64;
            proof {
                assert(0 <= dx * dx <= 32767 * 32767) by (nonlinear_arith) requires -32767 <= dx <= 32767;
                assert(0 <= dy * dy <= 32767 * 32767) by (nonlinear_arith) requires -32767 <= dy <= 32767;
            }
            let p = Vec2i::new(x as i32, y as i32);
            let ghost before = *world;
            if dx * dx + dy * dy <= r2 {
                let cell = world.get_cell(p);
                if cell.material() != material::EMPTY {
                    let d2 = (dx * dx + dy * dy) as i32;
                    let rep = replacement_after_destroy(world, params, d2);
                    proof {
                        assert(replacement_fields(&before, *params, d2 as int) == replacement_fields(&w0, *params, d2 as int));
                    }
                    world.set_cell(p, rep);
                }
            }
            proof {
                assert(before.in_grid(p) == w0.in_grid(p));
                assert(before.cell_at(p) == w0.cell_at(p));
                if hit(p) {
                    assert(world.rigid_map() == before.rigid_map().remove(p));
                } else {
                    assert(*world == before);
                }
                assert forall|q: Vec2i| !(hit(q) && crate::world::state::scanned_before(x + 1, y as int, q)) implies #[trigger] world.cell_at(q) == w0.cell_at(q) by {
                    if q != p { assert(world.cell_at(q) == before.cell_at(q)); }
                }
                assert forall|q: Vec2i| hit(q) && crate::world::state::scanned_before(x + 1, y as int, q) implies (#[trigger] world.cell_at(q))@
                    == stored_of(replacement_fields(&w0, *params, dist2(params.center, q)), w0.spec_ambient()) by {
                    if q != p { assert(world.cell_at(q) == before.cell_at(q)); }
                }
                assert forall|q: Vec2i| #[trigger] world.rigid_map().contains_key(q) <==>
                    (w0.rigid_map().contains_key(q) && !(hit(q) && crate::world::state::scanned_before(x + 1, y as int, q))) by {
                    assert(before.rigid_map().contains_key(q) <==>
                        (w0.rigid_map().contains_key(q) && !(hit(q) && crate::world::state::scanned_before(x as int, y as int, q))));
                }
            }
            x = x + 1;
        }
        proof {
            assert forall|q: Vec2i| !(hit(q) && q.y < y + 1) implies #[trigger] world.cell_at(q) == w0.cell_at(q) by {
                if hit(q) && q.y == y { assert(crate::world::state::scanned_before(x as int, y as int, q)); }
            }
            assert forall|q: Vec2i| hit(q) && q.y < y + 1 implies (#[trigger] world.cell_at(q))@
                == stored_of(replacement_fields(&w0, *params, dist2(params.center, q)), w0.spec_ambient()) by {
                if q.y == y { assert(crate::world::state::scanned_before(x as int, y as int, q)); }
            }
            assert forall|q: Vec2i| #[trigger] world.rigid_map().contains_key(q) <==> (w0.rigid_map().contains_key(q) && !(hit(q) && q.y < y + 1)) by {
                if hit(q) && q.y == y { assert(crate::world::state::scanned_before(x as int, y as int, q)); }
            }
        }
        y = y + 1;
    }
}

// ----- chords -----

pub open spec fn sat_sub_u32(a: int, b: int) -> u32 {
    if a >= b { (a - b) as u32 } else { 0u32 }
}

/// Chord energy left when the chord reaches its `i`-th cell: empty cells cost nothing, a cell with
/// neither durability nor lifetime is destroyed for free, any other absorbs its durability plus its
/// lifetime; an exhausted chord stops.
pub open spec fn chord_strength(w: World, params: ExplosionParams, pts: Seq<Vec2i>, i: int) -> u32
    decreases i,
{
    if i <= 0 {
        params.base_strength
    } else {
        let s = chord_strength(w, params, pts, i - 1);
        let c = w.cell_at(pts[i - 1]);
        let d = props_for(&w, c@.material).durability;
        if s == 0 || c@.material == material::EMPTY || (d == 0 && c@.lifetime == 0) {
            s
        } else {
            sat_sub_u32(s as int, d + c@.lifetime)
        }
    }
}

/// The chord still has energy at its `i`-th cell and that cell holds something.
pub open spec fn chord_hits(w: World, params: ExplosionParams, pts: Seq<Vec2i>, i: int) -> bool {
    chord_strength(w, params, pts, i) > 0 && w.cell_at(pts[i])@.material != material::EMPTY
}

/// Fields the chord leaves at its `i`-th cell: the replacement when the cell is destroyed, else the
/// cell with its lifetime worn down by the damage.
pub open spec fn chord_fields(w: World, params: ExplosionParams, pts: Seq<Vec2i>, i: int) -> CellFields {
    let c = w.cell_at(pts[i]);
    let d = props_for(&w, c@.material).durability;
    let life = c@.lifetime;
    let nl = if life >= spec_damage(chord_strength(w, params, pts, i)) { life - spec_damage(chord_strength(w, params, pts, i)) } else { 0 };
    if (d == 0 && life == 0) || nl == 0 {
        replacement_fields(&w, params, dist2(params.center, pts[i]))
    } else {
        CellFields { lifetime: nl as u8, ..c@ }
    }
}

/// Grid cell `q` is one of the first `n` chord cells that the chord writes.
pub open spec fn chord_touched(w: World, params: ExplosionParams, pts: Seq<Vec2i>, n: int, q: Vec2i) -> bool {
    exists|j: int| 0 <= j < n && pts[j] == q && #[trigger] chord_hits(w, params, pts, j) && w.in_grid(q)
}

/// `w2` is `w` after the chord along `pts`.
pub open spec fn chord_applied(w: World, w2: World, params: ExplosionParams, pts: Seq<Vec2i>) -> bool {
    &&& w2.wf()
    &&& w2.same_setup(&w)
    &&& forall|j: int| 0 <= j < pts.len() && #[trigger] chord_hits(w, params, pts, j) && w.in_grid(pts[j]) ==>
            w2.cell_at(pts[j])@ == stored_of(chord_fields(w, params, pts, j), w.spec_ambient())
    &&& forall|q: Vec2i| !chord_touched(w, params, pts, pts.len() as int, q) ==> #[trigger] w2.cell_at(q) == w.cell_at(q)
    &&& forall|q: Vec2i| #[trigger] w2.rigid_map().contains_key(q) <==>
            (w.rigid_map().contains_key(q) && !chord_touched(w, params, pts, pts.len() as int, q))
}

/// Chord end `b` is close enough to the centre `c` for the squared-distance arithmetic.
pub open spec fn chord_end_ok(c: Vec2i, b: Vec2i) -> bool {
    abs_int(b.x - c.x) <= 32767 && abs_int(b.y - c.y) <= 32767
}

proof fn lemma_strength_stays_zero(w: World, params: ExplosionParams, pts: Seq<Vec2i>, i: int, j: int)
    requires 0 <= i <= j, chord_strength(w, params, pts, i) == 0,
    ensures chord_strength(w, params, pts, j) == 0,
    decreases j - i,
{
    if j > i {
        lemma_strength_stays_zero(w, params, pts, i, j - 1);
    }
}

/// Runs one chord along the distinct cells `pts`.
fn apply_chord_points(world: &mut World, params: &ExplosionParams, pts: &Vec<Vec2i>)
    requires
        old(world).wf(),
        pts@.no_duplicates(),
        forall|j: int| 0 <= j < pts@.len() ==> chord_end_ok(params.center, #[trigger] pts@[j]),
    ensures
        chord_applied(*old(world), *final(world), *params, pts@),
{
    let ghost w0 = *world;
    let ghost ps = pts@;
    let mut strength: u32 = params.base_strength;
    let mut i: usize = 0;
    while i < pts.len()
        invariant_except_break
            strength == chord_strength(w0, *params, ps, i as int),
        invariant
            world.wf(),
            w0.wf(),
            world.same_setup(&w0),
            ps == pts@,
            ps.no_duplicates(),
            forall|j: int| 0 <= j < ps.len() ==> chord_end_ok(params.center, #[trigger] ps[j]),
            i <= ps.len(),
            forall|j: int| 0 <= j < i && #[trigger] chord_hits(w0, *params, ps, j) && w0.in_grid(ps[j]) ==>
                world.cell_at(ps[j])@ == stored_of(chord_fields(w0, *params, ps, j), w0.spec_ambient()),
            forall|q: Vec2i| !chord_touched(w0, *params, ps, i as int, q) ==> #[trigger] world.cell_at(q) == w0.cell_at(q),
            forall|q: Vec2i| #[trigger] world.rigid_map().contains_key(q) <==>
                (w0.rigid_map().contains_key(q) && !chord_touched(w0, *params, ps, i as int, q)),
        ensures
            forall|j: int| 0 <= j < ps.len() && #[trigger] chord_hits(w0, *params, ps, j) && w0.in_grid(ps[j]) ==>
                world.cell_at(ps[j])@ == stored_of(chord_fields(w0, *params, ps, j), w0.spec_ambient()),
            forall|q: Vec2i| !chord_touched(w0, *params, ps, ps.len() as int, q) ==> #[trigger] world.cell_at(q) == w0.cell_at(q),
            forall|q: Vec2i| #[trigger] world.rigid_map().contains_key(q) <==>
                (w0.rigid_map().contains_key(q) && !chord_touched(w0, *params, ps, ps.len() as int, q)),
        decreases ps.len() - i,
    {
        if strength == 0 {
            proof {
                assert forall|j: int| i <= j < ps.len() implies !#[trigger] chord_hits(w0, *params, ps, j) by {
                    lemma_strength_stays_zero(w0, *params, ps, i as int, j);
                }
                assert forall|q: Vec2i| chord_touched(w0, *params, ps, ps.len() as int, q) implies
                    chord_touched(w0, *params, ps, i as int, q) by {
                    let j = choose|j: int| 0 <= j < ps.len() && ps[j] == q && #[trigger] chord_hits(w0, *params, ps, j) && w0.in_grid(q);
                    if j >= i { lemma_strength_stays_zero(w0, *params, ps, i as int, j); }
                }
            }
            break;
        }
        let p = pts[i];
        let ghost before = *world;
        proof {
            assert(chord_end_ok(params.center, ps[i as int]));
            assert(!chord_touched(w0, *params, ps, i as int, p)) by {
                if chord_touched(w0, *params, ps, i as int, p) {
                    let j = choose|j: int| 0 <= j < i && ps[j] == p && #[trigger] chord_hits(w0, *params, ps, j) && w0.in_grid(p);
                    assert(ps[j] == ps[i as int]);
                }
            }
            assert(world.cell_at(p) == w0.cell_at(p));
        }
        let cell = world.get_cell(p);
        let mat = cell.material();
        let ghost hits_here = chord_hits(w0, *params, ps, i as int);
        if mat != material::EMPTY {
            let props = world.material_props(mat);
            let d = props.durability;
            let life = cell.lifetime();
            let incoming = strength;
            let dx = p.x as i64 - params.center.x as i64;
            let dy = p.y as i64 - params.center.y as i64;
            proof {
                assert(0 <= dx * dx <= 32767 * 32767) by (nonlinear_arith) requires -32767 <= dx <= 32767;
                assert(0 <= dy * dy <= 32767 * 32767) by (nonlinear_arith) requires -32767 <= dy <= 32767;
            }
            let d2 = (dx * dx + dy * dy) as i32;
            if d == 0 && life == 0 {
                let rep = replacement_after_destroy(world, params, d2);
                world.set_cell(p, rep);
            } else {
                let dmg = damage_to_lifetime(incoming);
                let nl: u8 = if life >= dmg { life - dmg } else { 0 };
                strength = if incoming >= d as u32 + life as u32 { incoming - (d as u32 + life as u32) } else { 0 };
                if nl == 0 {
                    let rep = replacement_after_destroy(world, params, d2);
                    world.set_cell(p, rep);
                } else {
                    world.set_cell(p, cell.with_lifetime(nl));
                }
            }
        }
        proof {
            assert(before.in_grid(p) == w0.in_grid(p));
            assert(hits_here == (mat != material::EMPTY));
            if hits_here && w0.in_grid(p) {
                assert(world.rigid_map() == before.rigid_map().remove(p));
                assert(world.cell_at(p)@ == stored_of(chord_fields(w0, *params, ps, i as int), w0.spec_ambient()));
            } else if hits_here {
                assert(*world == before);
            } else {
                assert(*world == before);
            }
            assert forall|q: Vec2i| #[trigger] chord_touched(w0, *params, ps, i as int + 1, q) <==>
                (chord_touched(w0, *params, ps, i as int, q) || (q == p && hits_here && w0.in_grid(p))) by {
                if chord_touched(w0, *params, ps, i as int + 1, q) {
                    let j = choose|j: int| 0 <= j < i + 1 && ps[j] == q && #[trigger] chord_hits(w0, *params, ps, j) && w0.in_grid(q);
                    if j < i {
                        assert(chord_touched(w0, *params, ps, i as int, q));
                    }
                }
                if q == p && hits_here && w0.in_grid(p) {
                    assert(ps[i as int] == q && chord_hits(w0, *params, ps, i as int));
                }
            }
            assert forall|j: int| 0 <= j < i + 1 && #[trigger] chord_hits(w0, *params, ps, j) && w0.in_grid(ps[j]) implies
                world.cell_at(ps[j])@ == stored_of(chord_fields(w0, *params, ps, j), w0.spec_ambient()) by {
                if j < i {
                    assert(ps[j] != p) by { assert(ps[j] != ps[i as int]); }
                    assert(world.cell_at(ps[j]) == before.cell_at(ps[j]));
                }
            }
            assert forall|q: Vec2i| !chord_touched(w0, *params, ps, i as int + 1, q) implies #[trigger] world.cell_at(q) == w0.cell_at(q) by {
                if q != p { assert(world.cell_at(q) == before.cell_at(q)); }
            }
            assert forall|q: Vec2i| #[trigger] world.rigid_map().contains_key(q) <==>
                (w0.rigid_map().contains_key(q) && !chord_touched(w0, *params, ps, i as int + 1, q)) by {
                assert(before.rigid_map().contains_key(q) <==>
                    (w0.rigid_map().contains_key(q) && !chord_touched(w0, *params, ps, i as int, q)));
            }
        }
        i = i + 1;
    }
}

/// Chord end `b` can be reached from `c`: the line fits and its squared distances fit in `i32`.
pub open spec fn chord_target_ok(c: Vec2i, b: Vec2i) -> bool {
    line_span_ok(c, b) && chord_end_ok(c, b)
}

/// `w2` is `w` after the chords to `targets`, in order, each along the line from the centre.
pub open spec fn chords_applied(w: World, w2: World, params: ExplosionParams, targets: Seq<Vec2i>) -> bool {
    exists|ws: Seq<World>| {
        &&& ws.len() == targets.len() + 1
        &&& ws[0] == w
        &&& ws.last() == w2
        &&& forall|t: int| 0 <= t < targets.len() ==> chord_applied(ws[t], #[trigger] ws[t + 1], params, line_points(params.center, targets[t]))
    }
}

/// Runs a chord from the centre to each target in turn, on the live world.
pub fn apply_chords(world: &mut World, params: &ExplosionParams, targets: &Vec<Vec2i>)
    requires
        old(world).wf(),
        forall|t: int| 0 <= t < targets@.len() ==> chord_target_ok(params.center, #[trigger] targets@[t]),
    ensures
        final(world).wf(),
        chords_applied(*old(world), *final(world), *params, targets@),
{
    let ghost mut ws: Seq<World> = seq![*world];
    let mut t: usize = 0;
    while t < targets.len()
        invariant
            world.wf(),
            forall|u: int| 0 <= u < targets@.len() ==> chord_target_ok(params.center, #[trigger] targets@[u]),
            t <= targets@.len(),
            ws.len() == t + 1,
            ws[0] == *old(world),
            ws.last() == *world,
            forall|u: int| 0 <= u < t ==> chord_applied(ws[u], #[trigger] ws[u + 1], *params, line_points(params.center, targets@[u])),
        decreases targets@.len() - t,
    {
        let b = targets[t];
        proof { assert(chord_target_ok(params.center, targets@[t as int])); }
        let pts = bresenham_points(params.center, b);
        proof {
            assert forall|a: int, c: int| 0 <= a < pts@.len() && 0 <= c < pts@.len() && a != c implies pts@[a] != pts@[c] by {
                if a < c {
                    crate::bresenham::lemma_points_distinct(pts@, b, a, c);
                } else {
                    crate::bresenham::lemma_points_distinct(pts@, b, c, a);
                }
            }
            assert forall|j: int| 0 <= j < pts@.len() implies chord_end_ok(params.center, #[trigger] pts@[j]) by {
                crate::bresenham::lemma_points_between(pts@, params.center, b, j);
            }
        }
        let ghost before = *world;
        apply_chord_points(world, params, &pts);
        proof {
            ws = ws.push(*world);
            assert forall|u: int| 0 <= u < t + 1 implies chord_applied(ws[u], #[trigger] ws[u + 1], *params, line_points(params.center, targets@[u])) by {
                if u == t {
                    assert(ws[u] == before);
                } else {
                    assert(ws[u] == ws.drop_last()[u]);
                    assert(ws[u + 1] == ws.drop_last()[u + 1]);
                }
            }
        }
        t = t + 1;
    }
    proof {
        assert(chords_applied(*old(world), *world, *params, targets@)) by {
            assert(ws.len() == targets@.len() + 1);
        }
    }
}

/// Applies an explosion whose chord ends are `endpoints` (the caller's circle points): nothing for a
/// negative radius, the full-disk erase when asked for, otherwise the chords to the endpoints in an
/// order shuffled with `rng`.
pub fn apply_with_endpoints(world: &mut World, rng: &mut rand::rngs::SmallRng, params: ExplosionParams, endpoints: Vec<Vec2i>)
    requires
        old(world).wf(),
        params.radius >= 0 && params.obliterate_disk ==> blast_fits(params),
        forall|t: int| 0 <= t < endpoints@.len() ==> chord_target_ok(params.center, #[trigger] endpoints@[t]),
    ensures
        final(world).wf(),
        params.radius < 0 ==> *final(world) == *old(world),
        params.radius >= 0 && params.obliterate_disk ==> final(world).same_setup(old(world))
            && (forall|q: Vec2i| old(world).in_grid(q) && in_blast_disk(params, q) && old(world).cell_at(q)@.material != material::EMPTY
                ==> (#[trigger] final(world).cell_at(q))@ == stored_of(replacement_fields(old(world), params, dist2(params.center, q)),
                    old(world).spec_ambient()))
            && (forall|q: Vec2i| !(old(world).in_grid(q) && in_blast_disk(params, q) && old(world).cell_at(q)@.material != material::EMPTY)
                ==> #[trigger] final(world).cell_at(q) == old(world).cell_at(q)),
        params.radius >= 0 && !params.obliterate_disk ==> exists|order: Seq<Vec2i>|
            order.to_multiset() == endpoints@.to_multiset() && chords_applied(*old(world), *final(world), params, order),
{
    if params.radius < 0 {
        return;
    }
    if params.obliterate_disk {
        obliterate_disk(world, &params);
        return;
    }
    let mut targets = endpoints;
    let ghost e0 = targets@;
    shuffle_targets(&mut targets, rng);
    proof {
        assert forall|t: int| 0 <= t < targets@.len() implies chord_target_ok(params.center, #[trigger] targets@[t]) by {
            vstd::seq_lib::to_multiset_contains(targets@, targets@[t]);
            vstd::seq_lib::to_multiset_contains(e0, targets@[t]);
            assert(targets@.contains(targets@[t]));
            assert(e0.contains(targets@[t]));
        }
    }
    apply_chords(world, &params, &targets);
}

} // verus!
