//! Liquids: falling, diagonal flow, and sliding towards the nearest drop while supported.
use vstd::prelude::*;
use rand::rngs::SmallRng;

use crate::world::geom::Vec2i;
use crate::world::material;
use crate::world::props::{MaterialMotion, MaterialProps};
use crate::world::state::World;
use crate::sim::{
    lemma_local_compose, lemma_local_recenter, lemma_local_step, local_change, moves_into_empty, near_grid, no_reactions_from, offset, reaction_of,
    same_cells_except, shifted, sim_ready, sim_set_velocity, try_displace,
    vertical_down_allows_density_swap, within, MoveIntent,
};
use super::acid::acid_corrode_neighbors;
use super::granular::accelerated;
use super::influence::liquid_adjacent_influence_pass;

verus! {

/// Tie-break for diagonal and lateral flow: left first on cells of even `x ^ y`.
pub open spec fn spec_prefer_left_first(p: Vec2i) -> bool {
    (p.x ^ p.y) & 1 == 0
}

pub fn liquid_prefer_left_first(p: Vec2i) -> (b: bool)
    ensures b == spec_prefer_left_first(p),
{
    (p.x ^ p.y) & 1 == 0
}

/// Viscosity of a motion class (inert solids count as 255).
pub open spec fn spec_viscosity(m: MaterialMotion) -> int {
    match m {
        MaterialMotion::InertSolid => 255,
        MaterialMotion::SolidGranular { viscosity, .. } => viscosity as int,
        MaterialMotion::Liquid { viscosity, .. } => viscosity as int,
        MaterialMotion::Gas { viscosity, .. } => viscosity as int,
    }
}

/// Speed a supported liquid loses per tick: `1 + min(viscosity / 32, 3)`.
pub fn liquid_supported_friction(props: &MaterialProps) -> (f: i8)
    ensures 1 <= f <= 4, f == 1 + (if spec_viscosity(props.motion) / 32 <= 3 { spec_viscosity(props.motion) / 32 } else { 3 }),
{
    let v = props.viscosity() / 32;
    (1 + if v <= 3 { v } else { 3 }) as i8
}

/// `v - f` floored at 0, for a velocity and a friction of at most 4.
fn slowed(v: i8, f: i8) -> (r: i8)
    requires 1 <= f <= 4,
    ensures r == (if v - f >= 0 { v - f } else { 0 }),
{
    let d = v as i16 - f as i16;
    if d >= 0 { d as i8 } else { 0 }
}

/// Cell `i` steps from `from` in direction `dir` is empty or has an empty cell below it.
pub open spec fn lateral_open(w: &World, from: Vec2i, dir: int, i: int) -> bool {
    ||| w.sim_cell(offset(from, dir * i, 0))@.material == material::EMPTY
    ||| w.sim_cell(offset(from, dir * i, 1))@.material == material::EMPTY
}

/// Distance to the nearest cell within `max_dist` steps in direction `dir` that is empty or has an
/// empty cell below it.
pub fn scan_lateral_target(world: &World, from: Vec2i, dir: i32, max_dist: i32) -> (r: Option<i32>)
    requires sim_ready(world, from, 0), dir == -1 || dir == 1, 1 <= max_dist <= 255,
    ensures
        r matches Some(i) ==> 1 <= i <= max_dist && lateral_open(world, from, dir as int, i as int)
            && forall|j: int| 1 <= j < i ==> !#[trigger] lateral_open(world, from, dir as int, j),
        r is None ==> forall|j: int| 1 <= j <= max_dist ==> !#[trigger] lateral_open(world, from, dir as int, j),
        (match r { Some(i) => Some(i as int), None => None }) == first_open(world, from, dir as int, max_dist as int),
{
    let mut i: i32 = 1;
    while i <= max_dist
        invariant
            sim_ready(world, from, 0),
            dir == -1 || dir == 1,
            1 <= max_dist <= 255,
            1 <= i <= max_dist + 1,
            forall|j: int| 1 <= j < i ==> !#[trigger] lateral_open(world, from, dir as int, j),
        decreases max_dist + 1 - i,
    {
        let p = shifted(world, from, dir * i, 0);
        if world.sim_get(p).material() == material::EMPTY {
            proof { lemma_first_open_is(world, from, dir as int, max_dist as int, Some(i as int)); }
            return Some(i);
        }
        let below = shifted(world, from, dir * i, 1);
        if world.sim_get(below).material() == material::EMPTY {
            proof { lemma_first_open_is(world, from, dir as int, max_dist as int, Some(i as int)); }
            return Some(i);
        }
        i = i + 1;
    }
    proof { lemma_first_open_is(world, from, dir as int, max_dist as int, None); }
    None
}

/// Row `surface_y + dy` of column `col_x` is a void: empty, or with an empty grid cell below it.
pub open spec fn column_void(w: &World, col_x: i32, surface_y: int, dy: int) -> bool {
    let p = Vec2i { x: col_x, y: (surface_y + dy) as i32 };
    let below = Vec2i { x: col_x, y: (surface_y + dy + 1) as i32 };
    &&& w.in_grid(p)
    &&& (w.sim_cell(p)@.material == material::EMPTY
        || (w.in_grid(below) && w.sim_cell(below)@.material == material::EMPTY))
}

/// Shallowest `dy` in `1..=max_dy` below `surface_y` at which column `col_x` has a void, scanning
/// down while the column stays in the grid.
pub fn liquid_column_void_depth(world: &World, col_x: i32, surface_y: i32, max_dy: i32) -> (r: Option<i32>)
    requires
        sim_ready(world, Vec2i { x: col_x, y: surface_y }, 1),
        1 <= max_dy <= 255,
    ensures
        r matches Some(dy) ==> 1 <= dy <= max_dy && column_void(world, col_x, surface_y as int, dy as int)
            && forall|j: int| 1 <= j < dy ==> !#[trigger] column_void(world, col_x, surface_y as int, j),
        r is None ==> forall|j: int| 1 <= j <= max_dy ==> !#[trigger] column_void(world, col_x, surface_y as int, j),
        (match r { Some(i) => Some(i as int), None => None }) == first_void(world, col_x, surface_y as int, max_dy as int),
{
    let mut dy: i32 = 1;
    while dy <= max_dy
        invariant
            sim_ready(world, Vec2i { x: col_x, y: surface_y }, 1),
            1 <= max_dy <= 255,
            1 <= dy <= max_dy + 1,
            forall|j: int| 1 <= j < dy ==> !#[trigger] column_void(world, col_x, surface_y as int, j),
        decreases max_dy + 1 - dy,
    {
        let p = Vec2i::new(col_x, surface_y + dy);
        if !world.sim_in_grid(p) {
            assert forall|j: int| 1 <= j <= max_dy implies !#[trigger] column_void(world, col_x, surface_y as int, j) by {
                if j >= dy {
                    assert(!world.in_grid(Vec2i { x: col_x, y: (surface_y + j) as i32 }));
                }
            }
            proof { lemma_first_void_is(world, col_x, surface_y as int, max_dy as int, None); }
            return None;
        }
        if world.sim_get(p).material() == material::EMPTY {
            proof { lemma_first_void_is(world, col_x, surface_y as int, max_dy as int, Some(dy as int)); }
            return Some(dy);
        }
        let below = Vec2i::new(col_x, surface_y + dy + 1);
        if world.sim_in_grid(below) && world.sim_get(below).material() == material::EMPTY {
            proof { lemma_first_void_is(world, col_x, surface_y as int, max_dy as int, Some(dy as int)); }
            return Some(dy);
        }
        dy = dy + 1;
    }
    proof { lemma_first_void_is(world, col_x, surface_y as int, max_dy as int, None); }
    None
}

/// The nearest `i` in `1..=n` whose cell in direction `dir` from `from` is [`lateral_open`].
pub open spec fn first_open(w: &World, from: Vec2i, dir: int, n: int) -> Option<int>
    decreases n,
{
    if n <= 0 {
        None
    } else {
        match first_open(w, from, dir, n - 1) {
            Some(i) => Some(i),
            None => if lateral_open(w, from, dir, n) { Some(n) } else { None },
        }
    }
}

/// The shallowest `dy` in `1..=n` at which column `col_x` has a [`column_void`] below `surface_y`.
pub open spec fn first_void(w: &World, col_x: i32, surface_y: int, n: int) -> Option<int>
    decreases n,
{
    if n <= 0 {
        None
    } else {
        match first_void(w, col_x, surface_y, n - 1) {
            Some(i) => Some(i),
            None => if column_void(w, col_x, surface_y, n) { Some(n) } else { None },
        }
    }
}

proof fn lemma_first_open_is(w: &World, from: Vec2i, dir: int, n: int, r: Option<int>)
    requires
        n >= 0,
        r matches Some(i) ==> 1 <= i <= n && lateral_open(w, from, dir, i)
            && forall|j: int| 1 <= j < i ==> !#[trigger] lateral_open(w, from, dir, j),
        r is None ==> forall|j: int| 1 <= j <= n ==> !#[trigger] lateral_open(w, from, dir, j),
    ensures first_open(w, from, dir, n) == r,
    decreases n,
{
    if n > 0 {
        match r {
            Some(i) => {
                if i < n {
                    lemma_first_open_is(w, from, dir, n - 1, r);
                } else {
                    lemma_first_open_is(w, from, dir, n - 1, None);
                }
            },
            None => { lemma_first_open_is(w, from, dir, n - 1, None); },
        }
    }
}

proof fn lemma_first_void_is(w: &World, col_x: i32, surface_y: int, n: int, r: Option<int>)
    requires
        n >= 0,
        r matches Some(i) ==> 1 <= i <= n && column_void(w, col_x, surface_y, i)
            && forall|j: int| 1 <= j < i ==> !#[trigger] column_void(w, col_x, surface_y, j),
        r is None ==> forall|j: int| 1 <= j <= n ==> !#[trigger] column_void(w, col_x, surface_y, j),
    ensures first_void(w, col_x, surface_y, n) == r,
    decreases n,
{
    if n > 0 {
        match r {
            Some(i) => {
                if i < n {
                    lemma_first_void_is(w, col_x, surface_y, n - 1, r);
                } else {
                    lemma_first_void_is(w, col_x, surface_y, n - 1, None);
                }
            },
            None => { lemma_first_void_is(w, col_x, surface_y, n - 1, None); },
        }
    }
}

/// How far a supported liquid at `from` may look sideways: its material's lateral spread, at least 1.
pub open spec fn slide_spread(w: &World, from: Vec2i) -> int {
    let m = w.sim_cell(from)@.material;
    let sp = if (m as int) < 1024 { w.rules_view()[m as int].lateral_spread as int } else { 1 };
    if sp >= 1 { sp } else { 1 }
}

/// The side (`-1` left, `1` right) a supported liquid at `from` slides to: the side whose nearest
/// drop is closer; on a tie, the side whose column has the shallower void, then the cell's
/// tie-break side ([`spec_prefer_left_first`]); `0` when neither side has a drop within reach.
pub open spec fn slide_dir(w: &World, from: Vec2i) -> int {
    let n = slide_spread(w, from);
    let pref = if spec_prefer_left_first(from) { -1int } else { 1int };
    match (first_open(w, from, -1, n), first_open(w, from, 1, n)) {
        (Some(l), Some(r)) => {
            if l < r { -1 } else if r < l { 1 } else {
                match (first_void(w, (from.x - 1) as i32, from.y as int, n), first_void(w, (from.x + 1) as i32, from.y as int, n)) {
                    (Some(a), Some(b)) => if a < b { -1 } else if b < a { 1 } else { pref },
                    _ => pref,
                }
            }
        },
        (Some(_), None) => -1,
        (None, Some(_)) => 1,
        (None, None) => 0,
    }
}

/// While supported, slide up to two cells towards the side whose nearest drop is closer (ties: the
/// shallower void, then [`liquid_prefer_left_first`]); no drop within the lateral spread on either
/// side means no move. Returns whether the liquid moved.
pub fn step_liquid_supported_slide(world: &mut World, from: Vec2i, rng: &mut SmallRng) -> (moved: bool)
    requires sim_ready(old(world), from, 0),
    ensures
        old(world).step_frame(final(world)),
        !moved ==> *final(world) == *old(world),
        local_change(old(world), final(world), from, 3),
        forall|q: Vec2i| q.y != from.y ==> #[trigger] final(world).sim_cell(q) == old(world).sim_cell(q),
        moves_into_empty(old(world), from, offset(from, -1, 0)) && moves_into_empty(old(world), from, offset(from, 1, 0))
            ==> moved && final(world).sim_cell(from) == crate::cell64::Cell(0),
        no_reactions_from(old(world), old(world).sim_cell(from)@.material) ==>
            exists|q: Vec2i| q.y == from.y && within(from, q, 3)
                && (#[trigger] final(world).sim_cell(q))@.material == old(world).sim_cell(from)@.material,
        slide_dir(old(world), from) == 0 ==> !moved,
        moves_into_empty(old(world), from, offset(from, slide_dir(old(world), from), 0))
            ==> moved && final(world).sim_cell(from) == crate::cell64::Cell(0),
        moved && no_reactions_from(old(world), old(world).sim_cell(from)@.material) ==>
            exists|q: Vec2i| q.y == from.y && within(from, q, 3) && (q.x - from.x) * slide_dir(old(world), from) > 0
                && #[trigger] final(world).sim_cell(q) == old(world).sim_cell(from),
{
    let mat = world.sim_get(from).material();
    let rule = world.material_rule(mat);
    let spread: i32 = if rule.lateral_spread >= 1 { rule.lateral_spread as i32 } else { 1 };
    let left_target = scan_lateral_target(world, from, -1, spread);
    let right_target = scan_lateral_target(world, from, 1, spread);
    proof {
        assert(offset(from, -1 * 1, 0) == offset(from, -1, 0));
        assert(offset(from, 1int * 1, 0) == offset(from, 1, 0));
        assert(moves_into_empty(world, from, offset(from, -1, 0)) ==> lateral_open(world, from, -1, 1));
        assert(moves_into_empty(world, from, offset(from, 1, 0)) ==> lateral_open(world, from, 1, 1));
    }
    let dir: i32 = match (left_target, right_target) {
        (Some(l), Some(r)) => {
            if l < r {
                -1
            } else if r < l {
                1
            } else {
                let dl = liquid_column_void_depth(world, from.x - 1, from.y, spread);
                let dr = liquid_column_void_depth(world, from.x + 1, from.y, spread);
                match (dl, dr) {
                    (Some(a), Some(b)) => {
                        if a < b { -1 } else if b < a { 1 } else if liquid_prefer_left_first(from) { -1 } else { 1 }
                    }
                    _ => if liquid_prefer_left_first(from) { -1 } else { 1 },
                }
            }
        }
        (Some(_), None) => -1,
        (None, Some(_)) => 1,
        (None, None) => {
            proof { assert(slide_dir(world, from) == 0); }
            return false;
        }
    };
    proof { assert(dir as int == slide_dir(world, from)); }
    let max_move: i32 = if spread <= 2 { spread } else { 2 };
    let mut cur = from;
    let mut moved_any = false;
    let ghost w0 = *old(world);
    let mut i: i32 = 1;
    while i <= max_move
        invariant
            w0 == *old(world),
            sim_ready(&w0, from, 0),
            w0.step_frame(world),
            near_grid(&w0, cur, 0),
            dir == -1 || dir == 1,
            1 <= max_move <= 2,
            1 <= i <= max_move + 1,
            !moved_any ==> *world == w0,
            i == 1 ==> cur == from,
            i == 2 ==> within(from, cur, 1),
            within(from, cur, 3),
            local_change(&w0, world, from, 3),
            cur.y == from.y,
            forall|q: Vec2i| q.y != from.y ==> #[trigger] world.sim_cell(q) == w0.sim_cell(q),
            i > 1 ==> moved_any,
            moved_any ==> i > 1,
            moves_into_empty(&w0, from, offset(from, dir as int, 0)) ==> i > 1 || *world == w0,
            i > 1 ==> (dir == 1 ==> cur.x > from.x) && (dir == -1 ==> cur.x < from.x),
            i > 1 && moves_into_empty(&w0, from, offset(from, dir as int, 0)) ==> world.sim_cell(from) == crate::cell64::Cell(0),
            no_reactions_from(&w0, w0.sim_cell(from)@.material) ==> world.sim_cell(cur) == w0.sim_cell(from),
        ensures
            moves_into_empty(&w0, from, offset(from, dir as int, 0)) ==> moved_any && world.sim_cell(from) == crate::cell64::Cell(0),
        decreases max_move + 1 - i,
    {
        let side = shifted(world, cur, dir * i, 0);
        let ghost wa = *world;
        proof {
            if no_reactions_from(&w0, w0.sim_cell(from)@.material) {
                let m = w0.sim_cell(from)@.material;
                let b = wa.sim_cell(side)@.material;
                assert(reaction_of(&w0, m, b) is NoReaction);
                assert(wa.reactions_view() == w0.reactions_view());
                assert(reaction_of(&wa, wa.sim_cell(cur)@.material, wa.sim_cell(side)@.material) is NoReaction);
            }
        }
        if try_displace(world, cur, side, MoveIntent::Lateral, rng) {
            proof {
                lemma_local_step(&w0, &wa, world, from, 3, cur, side);
                assert forall|q: Vec2i| q.y != from.y implies #[trigger] world.sim_cell(q) == w0.sim_cell(q) by {
                    assert(q != cur && q != side);
                    assert(wa.sim_cell(q) == w0.sim_cell(q));
                }
                crate::cell64::lemma_zero_fields();
                if i > 1 {
                    assert(from != cur && from != side);
                    assert(world.sim_cell(from) == wa.sim_cell(from));
                }
            }
            cur = side;
            moved_any = true;
        } else {
            proof {
                lemma_local_step(&w0, &wa, world, from, 3, cur, side);
                if i == 1 { assert(!moves_into_empty(&w0, from, offset(from, dir as int, 0))); }
            }
            break;
        }
        i = i + 1;
    }
    proof {
        if no_reactions_from(&w0, w0.sim_cell(from)@.material) {
            assert(world.sim_cell(cur) == w0.sim_cell(from));
            if moved_any {
                assert((cur.x - from.x) * dir > 0);
            }
        }
    }
    moved_any
}

/// A world with the reactions of `w` has no reaction for `m` when `w` has none.
pub proof fn lemma_no_reactions_kept(w: &World, w2: &World, m: u16)
    requires no_reactions_from(w, m), w2.reactions_view() == w.reactions_view(),
    ensures no_reactions_from(w2, m),
{
    assert forall|b: u16| #[trigger] reaction_of(w2, m, b) is NoReaction by {
        assert(reaction_of(w, m, b) is NoReaction);
    }
}

/// A liquid whose material neither corrodes nor influences its neighbours.
pub open spec fn neighbourless_liquid(props: MaterialProps) -> bool {
    &&& props.acid_corrosion.neighbor_damage == 0
    &&& props.acid_corrosion.self_lifetime_cost == 0
    &&& forall|i: int| 0 <= i < 8 ==> !(#[trigger] props.adjacent_influence@[i]).spec_is_active()
}

/// The liquid at `p` can sink this tick: the cell below is empty, or a non-inert cell of a phase
/// it may sink through and of lower density.
pub open spec fn liquid_can_sink(w: &World, p: Vec2i) -> bool {
    let c = w.sim_cell(p);
    let b = w.sim_cell(offset(p, 0, 1));
    let cp = w.props_of(c@.material);
    let bp = w.props_of(b@.material);
    b@.material == material::EMPTY
        || (!(bp.motion is InertSolid) && crate::sim::spec_allows_density_swap(cp.motion.spec_phase(), bp.motion.spec_phase())
            && cp.density > bp.density)
}

/// One tick of a liquid at `p`: acid corrodes its neighbours and influence rules run (stopping if
/// the liquid is consumed). A liquid that cannot fall slides while supported or loses speed to
/// friction. A falling liquid accelerates and moves down, or diagonally (tie-break side first), up
/// to its speed in cells; where it stops it slides or loses speed.
pub fn step_liquid(world: &mut World, p: Vec2i, rng: &mut SmallRng)
    requires sim_ready(old(world), p, 0),
    ensures
        old(world).step_frame(final(world)),
        local_change(old(world), final(world), p, 130),
        neighbourless_liquid(crate::explosion::props_for(old(world), old(world).sim_cell(p)@.material))
            && moves_into_empty(old(world), p, offset(p, 0, 1)) ==> final(world).sim_cell(p) == crate::cell64::Cell(0),
        neighbourless_liquid(crate::explosion::props_for(old(world), old(world).sim_cell(p)@.material))
            && moves_into_empty(old(world), p, offset(p, 0, 1))
            && no_reactions_from(old(world), old(world).sim_cell(p)@.material) ==>
            exists|q: Vec2i| q.y > p.y && within(p, q, 130)
                && (#[trigger] final(world).sim_cell(q))@.material == old(world).sim_cell(p)@.material,
        neighbourless_liquid(crate::explosion::props_for(old(world), old(world).sim_cell(p)@.material))
            && no_reactions_from(old(world), old(world).sim_cell(p)@.material) ==>
            exists|q: Vec2i| within(p, q, 130)
                && (#[trigger] final(world).sim_cell(q))@.material == old(world).sim_cell(p)@.material,
        neighbourless_liquid(crate::explosion::props_for(old(world), old(world).sim_cell(p)@.material))
            && !liquid_can_sink(old(world), p)
            && moves_into_empty(old(world), p, offset(p, slide_dir(old(world), p), 0))
            ==> final(world).sim_cell(p) == crate::cell64::Cell(0),
        neighbourless_liquid(crate::explosion::props_for(old(world), old(world).sim_cell(p)@.material))
            && !liquid_can_sink(old(world), p)
            && moves_into_empty(old(world), p, offset(p, slide_dir(old(world), p), 0))
            && no_reactions_from(old(world), old(world).sim_cell(p)@.material)
            ==> exists|q: Vec2i| q.y == p.y && within(p, q, 3) && (q.x - p.x) * slide_dir(old(world), p) > 0
                && #[trigger] final(world).sim_cell(q) == old(world).sim_cell(p),
{
    let ghost w0 = *old(world);
    let ghost m0 = w0.sim_cell(p)@.material;
    let ghost nr = no_reactions_from(&w0, m0);
    let ghost nb = neighbourless_liquid(crate::explosion::props_for(&w0, m0));
    let cell0 = world.sim_get(p);
    let props0 = world.material_props(cell0.material());
    if props0.has_acid_corrosion() {
        acid_corrode_neighbors(world, p, &props0, rng);
    }
    proof { lemma_local_compose(&w0, &w0, world, p, 0, 1, 130); }
    if props0.has_adjacent_influence() {
        let src_mat = cell0.material();
        let ghost wi = *world;
        let gone = liquid_adjacent_influence_pass(world, p, src_mat, &props0.adjacent_influence, rng);
        proof { lemma_local_compose(&w0, &wi, world, p, 130, 2, 130); }
        if gone {
            return;
        }
    }
    let ghost w_mid = *world;
    proof { if nb { assert(w_mid == w0); } }
    let cell = world.sim_get(p);
    let props = world.material_props(cell.material());
    let below = shifted(world, p, 0, 1);
    let below_cell = world.sim_get(below);
    let below_props = world.material_props(below_cell.material());
    let can_fall = below_cell.material() == material::EMPTY
        || (!below_props.inert()
            && vertical_down_allows_density_swap(props.phase(), below_props.phase())
            && props.density > below_props.density);
    proof {
        if nb { assert(can_fall == liquid_can_sink(&w0, p)); }
    }
    if !can_fall {
        if cell.velocity_x() == 0 {
            let ghost wa = *world;
            proof { if nr { lemma_no_reactions_kept(&w0, &wa, m0); } }
            if step_liquid_supported_slide(world, p, rng) {
                proof {
                    lemma_local_compose(&w0, &wa, world, p, 130, 3, 130);
                    if nb && nr {
                        let q = choose|q: Vec2i| q.y == p.y && within(p, q, 3)
                            && (#[trigger] world.sim_cell(q))@.material == wa.sim_cell(p)@.material;
                        assert(within(p, q, 130));
                    }
                }
                return;
            }
            sim_set_velocity(world, p, 0);
            proof {
                assert(same_cells_except(&wa, world, p, p));
                lemma_local_step(&w0, &wa, world, p, 130, p, p);
                if nb && nr { assert(world.sim_cell(p)@.material == m0); assert(within(p, p, 130)); }
            }
            return;
        }
        let ghost wb = *world;
        proof { if nr { lemma_no_reactions_kept(&w0, &wb, m0); } }
        if step_liquid_supported_slide(world, p, rng) {
            proof {
                lemma_local_compose(&w0, &wb, world, p, 130, 3, 130);
                if nb && nr {
                    let q = choose|q: Vec2i| q.y == p.y && within(p, q, 3)
                        && (#[trigger] world.sim_cell(q))@.material == wb.sim_cell(p)@.material;
                    assert(within(p, q, 130));
                }
            }
            return;
        }
        let v = world.sim_get(p).velocity_x();
        let friction = liquid_supported_friction(&props);
        sim_set_velocity(world, p, slowed(v, friction));
        proof {
            assert(same_cells_except(&wb, world, p, p));
            lemma_local_step(&w0, &wb, world, p, 130, p, p);
            if nb && nr { assert(world.sim_cell(p)@.material == m0); assert(within(p, p, 130)); }
        }
        return;
    }
    let new_vel = accelerated(cell.velocity_x(), props.acceleration(), props.max_speed());
    let ghost w1 = *world;
    sim_set_velocity(world, p, new_vel);
    proof {
        assert(same_cells_except(&w1, world, p, p));
        lemma_local_step(&w0, &w1, world, p, 130, p, p);
        if nb { assert(world.sim_cell(p)@.material == m0); }
        if neighbourless_liquid(crate::explosion::props_for(&w0, w0.sim_cell(p)@.material)) && moves_into_empty(&w0, p, offset(p, 0, 1)) {
            assert(w1 == w0);
            assert(world.sim_cell(p)@.material == w0.sim_cell(p)@.material);
            assert(world.sim_cell(p)@.flags == w0.sim_cell(p)@.flags);
            assert(world.sim_cell(offset(p, 0, 1)) == w0.sim_cell(offset(p, 0, 1)));
            assert(moves_into_empty(world, p, offset(p, 0, 1)));
        }
    }
    let ghost wm = *world;
    let ghost vacate: bool = neighbourless_liquid(crate::explosion::props_for(&w0, w0.sim_cell(p)@.material))
        && moves_into_empty(&w0, p, offset(p, 0, 1));
    let ghost mut left: bool = false;
    let steps: i32 = if (new_vel as i32) >= 1 { new_vel as i32 } else { 1 };
    let mut current = p;
    let mut k: i32 = 0;
    while k < steps
        invariant
            w0 == *old(world),
            sim_ready(&w0, p, 0),
            w0.step_frame(world),
            near_grid(&w0, current, 0),
            0 <= k <= steps,
            1 <= steps <= 127,
            within(p, current, k as int),
            local_change(&w0, world, p, 130),
            vacate ==> moves_into_empty(&wm, p, offset(p, 0, 1)),
            vacate == (neighbourless_liquid(crate::explosion::props_for(&w0, w0.sim_cell(p)@.material))
                && moves_into_empty(&w0, p, offset(p, 0, 1))),
            k == 0 ==> *world == wm && current == p,
            k > 0 && vacate ==> left,
            left ==> current.y > p.y && world.sim_cell(p) == crate::cell64::Cell(0),
            m0 == w0.sim_cell(p)@.material,
            nr == no_reactions_from(&w0, m0),
            vacate ==> wm.sim_cell(p)@.material == m0,
            nb == neighbourless_liquid(crate::explosion::props_for(&w0, m0)),
            nb && nr ==> world.sim_cell(current)@.material == m0,
            nb ==> liquid_can_sink(&w0, p),
        decreases steps - k,
    {
        k = k + 1;
        let down = shifted(world, current, 0, 1);
        let ghost wa = *world;
        proof { if nr { lemma_no_reactions_kept(&w0, &wa, m0); } }
        if try_displace(world, current, down, MoveIntent::VerticalDown, rng) {
            proof {
                lemma_local_step(&w0, &wa, world, p, 130, current, down);
                if current == p && k == 1 && vacate {
                    crate::cell64::lemma_zero_fields();
                    left = true;
                }
                if left && !(current == p && k == 1) {
                    assert(world.sim_cell(p) == wa.sim_cell(p));
                }
                if nb && nr {
                    assert(reaction_of(&wa, wa.sim_cell(current)@.material, wa.sim_cell(down)@.material) is NoReaction);
                    assert(world.sim_cell(down) == wa.sim_cell(current));
                }
            }
            current = down;
            continue;
        }
        proof {
            lemma_local_step(&w0, &wa, world, p, 130, current, down);
            if k == 1 { assert(!vacate); }
            if left { assert(world.sim_cell(p) == wa.sim_cell(p)); }
        }
        let dl = shifted(world, current, -1, 1);
        let dr = shifted(world, current, 1, 1);
        let prefer_left_first = liquid_prefer_left_first(current);
        let (first, second) = if prefer_left_first { (dl, dr) } else { (dr, dl) };
        let ghost wb = *world;
        proof {
            if nr { lemma_no_reactions_kept(&w0, &wb, m0); }
            if nb && nr { assert(wb.sim_cell(current) == wa.sim_cell(current)); }
        }
        let moved_diag = if try_displace(world, current, first, MoveIntent::VerticalDown, rng) {
            proof {
                lemma_local_step(&w0, &wb, world, p, 130, current, first);
                if left { assert(world.sim_cell(p) == wb.sim_cell(p)); }
                if nb && nr {
                    assert(reaction_of(&wb, wb.sim_cell(current)@.material, wb.sim_cell(first)@.material) is NoReaction);
                    assert(world.sim_cell(first) == wb.sim_cell(current));
                }
            }
            current = first;
            true
        } else {
            proof {
                lemma_local_step(&w0, &wb, world, p, 130, current, first);
                if left { assert(world.sim_cell(p) == wb.sim_cell(p)); }
            }
            let ghost wc = *world;
            proof {
                if nr { lemma_no_reactions_kept(&w0, &wc, m0); }
                if nb && nr { assert(wc.sim_cell(current) == wb.sim_cell(current)); }
            }
            if try_displace(world, current, second, MoveIntent::VerticalDown, rng) {
                proof {
                    lemma_local_step(&w0, &wc, world, p, 130, current, second);
                    if left { assert(world.sim_cell(p) == wc.sim_cell(p)); }
                    if nb && nr {
                        assert(reaction_of(&wc, wc.sim_cell(current)@.material, wc.sim_cell(second)@.material) is NoReaction);
                        assert(world.sim_cell(second) == wc.sim_cell(current));
                    }
                }
                current = second;
                true
            } else {
                proof {
                    lemma_local_step(&w0, &wc, world, p, 130, current, second);
                    if left { assert(world.sim_cell(p) == wc.sim_cell(p)); }
                    if nb && nr { assert(world.sim_cell(current) == wc.sim_cell(current)); }
                }
                false
            }
        };
        if moved_diag {
            continue;
        }
        let ghost wd = *world;
        proof {
            if nr { lemma_no_reactions_kept(&w0, &wd, m0); }
            if nb && nr { assert(wd.sim_cell(current)@.material == m0); }
        }
        if step_liquid_supported_slide(world, current, rng) {
            proof {
                lemma_local_recenter(&wd, world, current, 3, p, 127);
                lemma_local_compose(&w0, &wd, world, p, 130, 130, 130);
                if left { assert(world.sim_cell(p) == wd.sim_cell(p)); }
                if nb && nr {
                    let q = choose|q: Vec2i| q.y == current.y && within(current, q, 3)
                        && (#[trigger] world.sim_cell(q))@.material == wd.sim_cell(current)@.material;
                    assert(within(p, q, 130));
                    if left { assert(q.y > p.y); }
                }
            }
            return;
        }
        let v = world.sim_get(current).velocity_x();
        let friction = liquid_supported_friction(&props);
        sim_set_velocity(world, current, slowed(v, friction));
        proof {
            assert(same_cells_except(&wd, world, current, current));
            lemma_local_step(&w0, &wd, world, p, 130, current, current);
            if left { assert(world.sim_cell(p) == wd.sim_cell(p)); }
            if nb && nr { assert(world.sim_cell(current)@.material == m0); assert(within(p, current, 130)); }
        }
        return;
    }
    let below_current = shifted(world, current, 0, 1);
    let below_cell = world.sim_get(below_current);
    let below_props = world.material_props(below_cell.material());
    if below_cell.material() != material::EMPTY
        && (below_props.inert()
            || !vertical_down_allows_density_swap(props.phase(), below_props.phase())
            || props.density <= below_props.density)
    {
        let ghost we = *world;
        proof { if nr { lemma_no_reactions_kept(&w0, &we, m0); } }
        if !step_liquid_supported_slide(world, current, rng) {
            let v = world.sim_get(current).velocity_x();
            let friction = liquid_supported_friction(&props);
            sim_set_velocity(world, current, slowed(v, friction));
            proof {
                assert(same_cells_except(&we, world, current, current));
                lemma_local_step(&w0, &we, world, p, 130, current, current);
                if left { assert(world.sim_cell(p) == we.sim_cell(p)); }
                if nb && nr { assert(world.sim_cell(current)@.material == m0); assert(within(p, current, 130)); }
            }
        } else {
            proof {
                lemma_local_recenter(&we, world, current, 3, p, 127);
                lemma_local_compose(&w0, &we, world, p, 130, 130, 130);
                if left { assert(world.sim_cell(p) == we.sim_cell(p)); }
                if nb && nr {
                    let q = choose|q: Vec2i| q.y == current.y && within(current, q, 3)
                        && (#[trigger] world.sim_cell(q))@.material == we.sim_cell(current)@.material;
                    assert(within(p, q, 130));
                    if left { assert(q.y > p.y); }
                }
            }
        }
    }
    proof {
        if nb && nr {
            assert(world.sim_cell(current)@.material == m0 || exists|q: Vec2i| within(p, q, 130)
                && (#[trigger] world.sim_cell(q))@.material == m0);
            if left {
                assert(world.sim_cell(current)@.material == m0 || exists|q: Vec2i| q.y > p.y && within(p, q, 130)
                    && (#[trigger] world.sim_cell(q))@.material == m0);
            }
        }
    }
}

} // verus!
