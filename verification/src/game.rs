//! Falling-sand game rules: brush limits per interaction mode, viewport geometry and brush strokes.
use vstd::prelude::*;
use std::collections::HashSet;

use crate::bresenham::{bresenham_points, line_points, line_span_ok};
use crate::materials::MaterialDef;
use crate::world::geom::{key_point, lemma_point_key_roundtrip, point_key, point_key_of, RectI, Vec2i};
use crate::world::material;
use crate::world::props::Phase;

verus! {

broadcast use vstd::std_specs::hash::group_hash_axioms;

/// World size in cells: the web view's 640×360, shown at 1× scale.
pub const SIM_WIDTH: usize = 640;
pub const SIM_HEIGHT: usize = 360;
/// Display pixels per cell.
pub const SCALE: usize = 1;
pub const DISP_W: usize = 640;
pub const DISP_H: usize = 360;
/// Temperature change of one heat or cool brush application.
pub const TEMP_BRUSH_DELTA: i32 = 40;
/// Largest brush radius for most modes (particles, explosions, temperature).
pub const BRUSH_MAX_DEFAULT: i32 = 32;
/// Largest brush radius when painting or spawning rigid bodies.
pub const BRUSH_MAX_RIGID_PHYSICS: i32 = 6;

#[derive(Clone, Copy, PartialEq, Eq, Structural, Debug)]
pub enum InteractionMode {
    Draw,
    RigidBody,
    Explosion,
    Heat,
    Cool,
}

impl InteractionMode {
    /// Every mode, in menu order.
    pub fn all() -> (v: [InteractionMode; 5])
        ensures
            v[0] == InteractionMode::Draw,
            v[1] == InteractionMode::RigidBody,
            v[2] == InteractionMode::Explosion,
            v[3] == InteractionMode::Heat,
            v[4] == InteractionMode::Cool,
    {
        [InteractionMode::Draw, InteractionMode::RigidBody, InteractionMode::Explosion, InteractionMode::Heat, InteractionMode::Cool]
    }
}

pub open spec fn spec_brush_cap(mode: InteractionMode) -> i32 {
    if mode == InteractionMode::RigidBody { BRUSH_MAX_RIGID_PHYSICS } else { BRUSH_MAX_DEFAULT }
}

/// Largest brush radius allowed in `mode`.
pub fn brush_cap_for_mode(mode: InteractionMode) -> (cap: i32)
    ensures cap == spec_brush_cap(mode),
{
    match mode {
        InteractionMode::RigidBody => BRUSH_MAX_RIGID_PHYSICS,
        _ => BRUSH_MAX_DEFAULT,
    }
}

/// `brush` clamped to `1..=` the cap of `mode`.
pub fn clamp_brush_to_mode(brush: i32, mode: InteractionMode) -> (r: i32)
    ensures
        r == (if brush < 1 { 1 } else if brush > spec_brush_cap(mode) { spec_brush_cap(mode) } else { brush }),
        1 <= r <= spec_brush_cap(mode),
{
    let cap = brush_cap_for_mode(mode);
    if brush < 1 {
        1
    } else if brush > cap {
        cap
    } else {
        brush
    }
}

/// Only solid, non-empty materials other than stone and the rigid placeholder can become rigid bodies.
pub fn is_rigid_body_eligible(def: &MaterialDef) -> (b: bool)
    ensures
        b == (def.props.motion.spec_phase() == Phase::Solid
            && def.id != material::EMPTY && def.id != material::STONE && def.id != material::RIGID),
{
    let solid = match def.props.phase() {
        Phase::Solid => true,
        _ => false,
    };
    solid && def.id != material::EMPTY && def.id != material::STONE && def.id != material::RIGID
}

/// World rectangle shown by a viewport whose top-left cell is `camera`.
pub fn viewport_rect(camera: Vec2i) -> (r: RectI)
    requires camera.x + 640 <= i32::MAX, camera.y + 360 <= i32::MAX,
    ensures r.min == camera, r.max == (Vec2i { x: (camera.x + 639) as i32, y: (camera.y + 359) as i32 }),
{
    RectI::new(camera, Vec2i::new(camera.x + SIM_WIDTH as i32 - 1, camera.y + SIM_HEIGHT as i32 - 1))
}

/// Centre cell of the viewport whose top-left cell is `camera`.
pub fn camera_center(camera: Vec2i) -> (c: Vec2i)
    requires camera.x + 320 <= i32::MAX, camera.y + 180 <= i32::MAX,
    ensures c == (Vec2i { x: (camera.x + 320) as i32, y: (camera.y + 180) as i32 }),
{
    Vec2i::new(camera.x + SIM_WIDTH as i32 / 2, camera.y + SIM_HEIGHT as i32 / 2)
}

/// Frame index of screen cell `(col, row)`.
pub open spec fn frame_index(col: int, row: int) -> int {
    row * DISP_W + col
}

/// Copies the `w`×`h` pixels to the frame at screen position `(screen_x, screen_y)`, dropping what
/// falls outside the display.
pub fn upscale_blit(frame: &mut Vec<u32>, pixels: &Vec<u32>, screen_x: usize, screen_y: usize, w: usize, h: usize)
    requires
        old(frame)@.len() == DISP_W * DISP_H,
        w * h <= pixels@.len(),
        screen_x + w <= usize::MAX,
        screen_y + h <= usize::MAX,
    ensures
        final(frame)@.len() == old(frame)@.len(),
        forall|i: int| 0 <= i < final(frame)@.len() ==> #[trigger] final(frame)@[i] == ({
            let row = i / DISP_W as int;
            let col = i % DISP_W as int;
            if screen_y <= row < screen_y + h && screen_x <= col < screen_x + w {
                pixels@[(row - screen_y) * w + (col - screen_x)]
            } else {
                old(frame)@[i]
            }
        }),
{
    let ghost f0 = frame@;
    let n = pixels.len();
    let mut sy: usize = 0;
    while sy < h
        invariant
            f0.len() == DISP_W * DISP_H,
            frame@.len() == f0.len(),
            w * h <= pixels@.len(),
            n == pixels@.len(),
            screen_x + w <= usize::MAX,
            screen_y + h <= usize::MAX,
            sy <= h,
            forall|i: int| 0 <= i < frame@.len() ==> #[trigger] frame@[i] == ({
                let row = i / DISP_W as int;
                let col = i % DISP_W as int;
                if screen_y <= row < screen_y + sy && screen_x <= col < screen_x + w {
                    pixels@[(row - screen_y) * w + (col - screen_x)]
                } else {
                    f0[i]
                }
            }),
        decreases h - sy,
    {
        let mut sx: usize = 0;
        while sx < w
            invariant
                f0.len() == DISP_W * DISP_H,
                frame@.len() == f0.len(),
                w * h <= pixels@.len(),
                n == pixels@.len(),
                screen_x + w <= usize::MAX,
                screen_y + h <= usize::MAX,
                sy < h,
                sx <= w,
                forall|i: int| 0 <= i < frame@.len() ==> #[trigger] frame@[i] == ({
                    let row = i / DISP_W as int;
                    let col = i % DISP_W as int;
                    if (screen_y <= row < screen_y + sy && screen_x <= col < screen_x + w)
                        || (row == screen_y + sy && screen_x <= col < screen_x + sx) {
                        pixels@[(row - screen_y) * w + (col - screen_x)]
                    } else {
                        f0[i]
                    }
                }),
            decreases w - sx,
        {
            proof {
                assert(sy * w + sx < w * h) by (nonlinear_arith) requires sy < h, sx < w;
            }
            let color = pixels[sy * w + sx];
            let row = screen_y + sy;
            let col = screen_x + sx;
            let ghost before = frame@;
            if row < DISP_H && col < DISP_W {
                let idx = row * DISP_W + col;
                frame.set(idx, color);
                proof {
                    vstd::arithmetic::div_mod::lemma_fundamental_div_mod_converse_div(idx as int, DISP_W as int, row as int, col as int);
                    vstd::arithmetic::div_mod::lemma_fundamental_div_mod_converse_mod(idx as int, DISP_W as int, row as int, col as int);
                }
            }
            proof {
                assert forall|i: int| 0 <= i < frame@.len() implies #[trigger] frame@[i] == ({
                    let r = i / DISP_W as int;
                    let c = i % DISP_W as int;
                    if (screen_y <= r < screen_y + sy && screen_x <= c < screen_x + w)
                        || (r == screen_y + sy && screen_x <= c < screen_x + sx + 1) {
                        pixels@[(r - screen_y) * w + (c - screen_x)]
                    } else {
                        f0[i]
                    }
                }) by {
                    vstd::arithmetic::div_mod::lemma_fundamental_div_mod(i, DISP_W as int);
                    vstd::arithmetic::div_mod::lemma_mod_bound(i, DISP_W as int);
                    let r = i / DISP_W as int;
                    let c = i % DISP_W as int;
                    if r == row && c == col {
                        assert(i == row * DISP_W + col);
                        assert((r - screen_y) * w + (c - screen_x) == sy * w + sx);
                    }
                }
            }
            sx = sx + 1;
        }
        sy = sy + 1;
    }
}

/// Disk of squared radius `radius²` around `center`.
pub open spec fn in_brush_disk(center: Vec2i, radius: int, p: Vec2i) -> bool {
    &&& center.x - radius <= p.x <= center.x + radius
    &&& center.y - radius <= p.y <= center.y + radius
    &&& (p.x - center.x) * (p.x - center.x) + (p.y - center.y) * (p.y - center.y) <= radius * radius
}

/// Adds every cell of the filled disk of `radius` around `center` to the stroke `into` (cells are
/// stored by hash key).
pub fn collect_brush_disk(into: &mut HashSet<u64>, center: Vec2i, radius: i32)
    requires
        -32767 <= radius <= 32767,
        i32::MIN <= center.x - radius, center.x + radius <= i32::MAX,
        i32::MIN <= center.y - radius, center.y + radius <= i32::MAX,
    ensures
        forall|k: u64| #[trigger] final(into)@.contains(k) <==>
            (old(into)@.contains(k) || in_brush_disk(center, radius as int, key_point(k))),
{
    proof {
        assert(0 <= radius * radius <= 32767 * 32767) by (nonlinear_arith) requires -32767 <= radius <= 32767;
    }
    let r2: i64 = radius as i64 * radius as i64;
    let mut y: i64 = center.y as i64 - radius as i64;
    let ghost s0 = into@;
    proof {
        assert forall|k: u64| #[trigger] into@.contains(k) <==>
            (s0.contains(k) || (in_brush_disk(center, radius as int, key_point(k)) && key_point(k).y < y)) by {}
    }
    while y <= center.y as i64 + radius as i64
        invariant
            -32767 <= radius <= 32767,
            i32::MIN <= center.x - radius, center.x + radius <= i32::MAX,
            i32::MIN <= center.y - radius, center.y + radius <= i32::MAX,
            r2 == radius * radius,
            center.y - radius <= y,
            y <= center.y + radius + 1 || y == center.y - radius,
            forall|k: u64| #[trigger] into@.contains(k) <==>
                (s0.contains(k) || (in_brush_disk(center, radius as int, key_point(k)) && key_point(k).y < y)),
        decreases center.y + radius + 1 - y,
    {
        let mut x: i64 = center.x as i64 - radius as i64;
        while x <= center.x as i64 + radius as i64
            invariant
                -32767 <= radius <= 32767,
                i32::MIN <= center.x - radius, center.x + radius <= i32::MAX,
                i32::MIN <= center.y - radius, center.y + radius <= i32::MAX,
                r2 == radius * radius,
                center.y - radius <= y <= center.y + radius,
                center.x - radius <= x,
                x <= center.x + radius + 1 || x == center.x - radius,
                forall|k: u64| #[trigger] into@.contains(k) <==>
                    (s0.contains(k) || (in_brush_disk(center, radius as int, key_point(k))
                        && (key_point(k).y < y || (key_point(k).y == y && key_point(k).x < x)))),
            decreases center.x + radius + 1 - x,
        {
            let dx = x - center.x as i64;
            let dy = y - center.y as i64;
            proof {
                assert(0 <= dx * dx <= 32767 * 32767) by (nonlinear_arith) requires -32767 <= dx <= 32767;
                assert(0 <= dy * dy <= 32767 * 32767) by (nonlinear_arith) requires -32767 <= dy <= 32767;
            }
            let p = Vec2i::new(x as i32, y as i32);
            proof { lemma_point_key_roundtrip(p, 0); }
            if dx * dx + dy * dy <= r2 {
                into.insert(point_key_of(p));
            }
            proof {
                assert forall|k: u64| #[trigger] into@.contains(k) <==>
                    (s0.contains(k) || (in_brush_disk(center, radius as int, key_point(k))
                        && (key_point(k).y < y || (key_point(k).y == y && key_point(k).x < x + 1)))) by {
                    lemma_point_key_roundtrip(key_point(k), k);
                    if key_point(k) == p {
                        lemma_point_key_roundtrip(p, k);
                    }
                }
            }
            x = x + 1;
        }
        proof {
            assert forall|k: u64| #[trigger] into@.contains(k) <==>
                (s0.contains(k) || (in_brush_disk(center, radius as int, key_point(k)) && key_point(k).y < y + 1)) by {}
        }
        y = y + 1;
    }
}

/// Adds the brush disk around every cell of the line from `a` to `b` to the stroke `into`.
pub fn collect_line_brush(into: &mut HashSet<u64>, a: Vec2i, b: Vec2i, radius: i32)
    requires
        line_span_ok(a, b),
        -32767 <= radius <= 32767,
        i32::MIN <= (if a.x <= b.x { a.x } else { b.x }) - radius,
        (if a.x >= b.x { a.x } else { b.x }) + radius <= i32::MAX,
        i32::MIN <= (if a.y <= b.y { a.y } else { b.y }) - radius,
        (if a.y >= b.y { a.y } else { b.y }) + radius <= i32::MAX,
    ensures
        forall|k: u64| #[trigger] final(into)@.contains(k) <==> (old(into)@.contains(k)
            || exists|i: int| 0 <= i < line_points(a, b).len() && in_brush_disk(#[trigger] line_points(a, b)[i], radius as int, key_point(k))),
{
    let pts = bresenham_points(a, b);
    let ghost s0 = into@;
    let mut i: usize = 0;
    while i < pts.len()
        invariant
            pts@.len() >= 1, pts@[0] == a, pts@.last() == b,
            crate::bresenham::steps_toward(pts@, b),
            pts@ == line_points(a, b),
            line_span_ok(a, b),
            -32767 <= radius <= 32767,
            i32::MIN <= (if a.x <= b.x { a.x } else { b.x }) - radius,
            (if a.x >= b.x { a.x } else { b.x }) + radius <= i32::MAX,
            i32::MIN <= (if a.y <= b.y { a.y } else { b.y }) - radius,
            (if a.y >= b.y { a.y } else { b.y }) + radius <= i32::MAX,
            i <= pts@.len(),
            forall|k: u64| #[trigger] into@.contains(k) <==> (s0.contains(k)
                || exists|j: int| 0 <= j < i && in_brush_disk(#[trigger] pts@[j], radius as int, key_point(k))),
        decreases pts@.len() - i,
    {
        let p = pts[i];
        proof { crate::bresenham::lemma_points_between(pts@, a, b, i as int); }
        collect_brush_disk(into, p, radius);
        proof {
            assert forall|k: u64| #[trigger] into@.contains(k) <==> (s0.contains(k)
                || exists|j: int| 0 <= j < i + 1 && in_brush_disk(#[trigger] pts@[j], radius as int, key_point(k))) by {
                if in_brush_disk(p, radius as int, key_point(k)) {
                    assert(pts@[i as int] == p);
                }
                if exists|j: int| 0 <= j < i + 1 && in_brush_disk(#[trigger] pts@[j], radius as int, key_point(k)) {
                    let j = choose|j: int| 0 <= j < i + 1 && in_brush_disk(#[trigger] pts@[j], radius as int, key_point(k));
                    if j < i {
                    } else {
                        assert(pts@[j] == p);
                    }
                }
            }
        }
        i = i + 1;
    }
}

} // verus!
