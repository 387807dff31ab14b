//! Colouring cells for display and copying grid regions into pixel buffers.
use vstd::prelude::*;

use crate::cell64::Cell;
use crate::materials::{palette_rgba_at, static_palette_rgba};
use crate::world::cell_flags;
use crate::world::geom::{ChunkCoord, RectI, Vec2i};
use crate::world::material;
use crate::world::state::{picked, World};

verus! {

/// A chunk marked for redraw and its clipped world rectangle.
#[derive(Clone, Copy, Debug)]
pub struct DirtyChunkView {
    pub chunk: Vec2i,
    pub rect: RectI,
}

/// RGBA bytes of a `width`×`height` region, row-major.
pub struct PixelRegion {
    pub width: usize,
    pub height: usize,
    pub rgba: Vec<u8>,
}

// ----- integer helpers -----

/// Remainder of `a / m` rounded toward zero (Rust's `%` on signed integers).
pub open spec fn trem(a: int, m: int) -> int {
    if a >= 0 { a % m } else { -((-a) % m) }
}

/// Quotient `a / d` rounded toward zero (Rust's `/` on signed integers).
pub open spec fn tdiv(a: int, d: int) -> int {
    if a >= 0 { a / d } else { -((-a) / d) }
}

pub open spec fn clampi(v: int, lo: int, hi: int) -> int {
    if v < lo { lo } else if v > hi { hi } else { v }
}

fn trem_i32(a: i32, m: i32) -> (r: i32)
    requires 0 < m, -0x1000_0000 <= a <= 0x1000_0000,
    ensures r == trem(a as int, m as int), -m < r < m,
{
    if a >= 0 {
        ((a as u32) % (m as u32)) as i32
    } else {
        -((((-a) as u32) % (m as u32)) as i32)
    }
}

fn tdiv_i32(a: i32, d: i32) -> (r: i32)
    requires 0 < d, -0x1000_0000 <= a <= 0x1000_0000,
    ensures r == tdiv(a as int, d as int),
{
    if a >= 0 {
        ((a as u32) / (d as u32)) as i32
    } else {
        -((((-a) as u32) / (d as u32)) as i32)
    }
}

fn clamp_i32(v: i32, lo: i32, hi: i32) -> (r: i32)
    requires lo <= hi,
    ensures r == clampi(v as int, lo as int, hi as int),
{
    if v < lo { lo } else if v > hi { hi } else { v }
}

// ----- per-pixel noise -----

/// Cheap deterministic hash of a cell position and a third value.
pub open spec fn spec_simple_hash(x: i32, y: i32, z: i32) -> u32 {
    let a = vstd::wrapping::u32_specs::wrapping_mul(x as u32, 374761393u32);
    let b = vstd::wrapping::u32_specs::wrapping_mul(y as u32, 668265263u32);
    let c = vstd::wrapping::u32_specs::wrapping_mul(z as u32, 2147483647u32);
    let h = vstd::wrapping::u32_specs::wrapping_add(vstd::wrapping::u32_specs::wrapping_add(a, b), c);
    let h2 = vstd::wrapping::u32_specs::wrapping_mul(h ^ (h >> 13u32), 1274126177u32);
    h2 ^ (h2 >> 16u32)
}

fn simple_hash(x: i32, y: i32, z: i32) -> (h: u32)
    ensures h == spec_simple_hash(x, y, z),
{
    let mut h = (x as u32).wrapping_mul(374761393)
        .wrapping_add((y as u32).wrapping_mul(668265263))
        .wrapping_add((z as u32).wrapping_mul(2147483647));
    h = (h ^ (h >> 13)).wrapping_mul(1274126177);
    h ^ (h >> 16)
}

/// Noise value of a cell: the hash truncated to 16 signed bits.
pub open spec fn noise(x: i32, y: i32, life: u8) -> int {
    (spec_simple_hash(x, y, life as i32) as i16) as int
}

/// `noise mod m - half`, the jitter of a colour ramp.
pub open spec fn jitter(x: i32, y: i32, life: u8, m: int, half: int) -> int {
    trem(noise(x, y, life), m) - half
}

fn jitter_of(x: i32, y: i32, life: u8, m: i32, half: i32) -> (j: i32)
    requires 0 < m <= 64, 0 <= half <= 32,
    ensures j == jitter(x, y, life, m as int, half as int), -m - half < j < m - half,
{
    let n = simple_hash(x, y, life as i32) as i16;
    trem_i32(n as i32, m) - half
}

// ----- colour ramps -----

pub open spec fn fire_base(life: u8) -> (int, int, int) {
    if life > 200 { (255, 220, 50) }
    else if life > 120 { (255, 160, 20) }
    else if life > 60 { (240, 100, 10) }
    else if life > 25 { (200, 60, 5) }
    else { (150, 35, 5) }
}

pub open spec fn spec_fire_rgba(life: u8, x: i32, y: i32) -> [u8; 4] {
    let j = jitter(x, y, life, 30, 15);
    let (r, g, b) = fire_base(life);
    [clampi(r + j, 0, 255) as u8, clampi(g + tdiv(j, 2), 0, 255) as u8, clampi(b + tdiv(j, 4), 0, 255) as u8, 255u8]
}

fn fire_rgba(life: u8, x: i32, y: i32) -> (c: [u8; 4])
    ensures c == spec_fire_rgba(life, x, y),
{
    let j = jitter_of(x, y, life, 30, 15);
    let (r, g, b): (i32, i32, i32) = if life > 200 {
        (255, 220, 50)
    } else if life > 120 {
        (255, 160, 20)
    } else if life > 60 {
        (240, 100, 10)
    } else if life > 25 {
        (200, 60, 5)
    } else {
        (150, 35, 5)
    };
    [
        clamp_i32(r + j, 0, 255) as u8,
        clamp_i32(g + tdiv_i32(j, 2), 0, 255) as u8,
        clamp_i32(b + tdiv_i32(j, 4), 0, 255) as u8,
        255,
    ]
}

pub open spec fn lava_base(life: u8) -> (int, int, int) {
    if life > 200 { (255, 120, 20) }
    else if life > 120 { (255, 85, 12) }
    else if life > 60 { (240, 55, 8) }
    else if life > 25 { (210, 40, 5) }
    else { (170, 30, 4) }
}

pub open spec fn spec_lava_rgba(life: u8, x: i32, y: i32) -> [u8; 4] {
    let j = jitter(x, y, life, 28, 14);
    let (r, g, b) = lava_base(life);
    [clampi(r + j, 0, 255) as u8, clampi(g + tdiv(j, 2), 0, 255) as u8, clampi(b + tdiv(j, 3), 0, 255) as u8, 255u8]
}

fn lava_rgba(life: u8, x: i32, y: i32) -> (c: [u8; 4])
    ensures c == spec_lava_rgba(life, x, y),
{
    let j = jitter_of(x, y, life, 28, 14);
    let (r, g, b): (i32, i32, i32) = if life > 200 {
        (255, 120, 20)
    } else if life > 120 {
        (255, 85, 12)
    } else if life > 60 {
        (240, 55, 8)
    } else if life > 25 {
        (210, 40, 5)
    } else {
        (170, 30, 4)
    };
    [
        clamp_i32(r + j, 0, 255) as u8,
        clamp_i32(g + tdiv_i32(j, 2), 0, 255) as u8,
        clamp_i32(b + tdiv_i32(j, 3), 0, 255) as u8,
        255,
    ]
}

pub open spec fn spec_smoke_rgba(life: u8, x: i32, y: i32) -> [u8; 4] {
    let base = 90 + jitter(x, y, life, 20, 10);
    let v = clampi(base, 40, 140) as u8;
    [v, v, v, clampi(life * 180 / 60, 20, 180) as u8]
}

fn smoke_rgba(life: u8, x: i32, y: i32) -> (c: [u8; 4])
    ensures c == spec_smoke_rgba(life, x, y),
{
    let base = 90 + jitter_of(x, y, life, 20, 10);
    let v = clamp_i32(base, 40, 140) as u8;
    let alpha = clamp_i32(life as i32 * 180 / 60, 20, 180) as u8;
    [v, v, v, alpha]
}

pub open spec fn spec_steam_rgba(life: u8, x: i32, y: i32) -> [u8; 4] {
    let j = jitter(x, y, life, 24, 12);
    [
        clampi(200 + j, 160, 255) as u8,
        clampi(230 + tdiv(j, 2), 200, 255) as u8,
        255u8,
        clampi(life * 200 / 72, 40, 200) as u8,
    ]
}

fn steam_rgba(life: u8, x: i32, y: i32) -> (c: [u8; 4])
    ensures c == spec_steam_rgba(life, x, y),
{
    let j = jitter_of(x, y, life, 24, 12);
    let alpha = clamp_i32(life as i32 * 200 / 72, 40, 200) as u8;
    [
        clamp_i32(200 + j, 160, 255) as u8,
        clamp_i32(230 + tdiv_i32(j, 2), 200, 255) as u8,
        255,
        alpha,
    ]
}

/// Smouldering plant or wood: more fuel left (`life`) is redder, less is charred black.
pub open spec fn spec_burning_vegetation_rgba(life: u8, x: i32, y: i32) -> [u8; 4] {
    let j = jitter(x, y, life, 26, 13);
    [
        clampi(35 + life * 215 / 255 + j, 0, 255) as u8,
        clampi(22 + life * 95 / 255 + tdiv(j, 2), 0, 255) as u8,
        clampi(12 + life * 42 / 255 + tdiv(j, 3), 0, 255) as u8,
        255u8,
    ]
}

fn burning_vegetation_rgba(life: u8, x: i32, y: i32) -> (c: [u8; 4])
    ensures c == spec_burning_vegetation_rgba(life, x, y),
{
    let j = jitter_of(x, y, life, 26, 13);
    let l = life as i32;
    [
        clamp_i32(35 + l * 215 / 255 + j, 0, 255) as u8,
        clamp_i32(22 + l * 95 / 255 + tdiv_i32(j, 2), 0, 255) as u8,
        clamp_i32(12 + l * 42 / 255 + tdiv_i32(j, 3), 0, 255) as u8,
        255,
    ]
}

/// Glowing ember pile: more `life` is brighter orange, less is dull red.
pub open spec fn spec_ember_pile_rgba(life: u8, x: i32, y: i32) -> [u8; 4] {
    let j = jitter(x, y, life, 22, 11);
    [
        clampi(28 + life * 210 / 255 + j, 0, 255) as u8,
        clampi(10 + life * 85 / 255 + tdiv(j, 2), 0, 255) as u8,
        clampi(4 + life * 28 / 255 + tdiv(j, 3), 0, 255) as u8,
        255u8,
    ]
}

fn ember_pile_rgba(life: u8, x: i32, y: i32) -> (c: [u8; 4])
    ensures c == spec_ember_pile_rgba(life, x, y),
{
    let j = jitter_of(x, y, life, 22, 11);
    let l = life as i32;
    [
        clamp_i32(28 + l * 210 / 255 + j, 0, 255) as u8,
        clamp_i32(10 + l * 85 / 255 + tdiv_i32(j, 2), 0, 255) as u8,
        clamp_i32(4 + l * 28 / 255 + tdiv_i32(j, 3), 0, 255) as u8,
        255,
    ]
}

/// Base colour shifted by a per-cell brightness variant.
pub open spec fn spec_apply_variant(base: [u8; 4], variant: u8) -> [u8; 4] {
    if variant == 0 {
        base
    } else {
        let shift = variant % 21 - 10;
        [
            clampi(base[0] + shift, 0, 255) as u8,
            clampi(base[1] + shift, 0, 255) as u8,
            clampi(base[2] + shift, 0, 255) as u8,
            base[3],
        ]
    }
}

fn apply_variant(base: [u8; 4], variant: u8) -> (c: [u8; 4])
    ensures c == spec_apply_variant(base, variant),
{
    if variant == 0 {
        return base;
    }
    let shift = (variant % 21) as i32 - 10;
    [
        clamp_i32(base[0] as i32 + shift, 0, 255) as u8,
        clamp_i32(base[1] as i32 + shift, 0, 255) as u8,
        clamp_i32(base[2] as i32 + shift, 0, 255) as u8,
        base[3],
    ]
}

/// Palette colour of a plain cell: variant shift, then darker and bluer when wet sand.
pub open spec fn plain_rgba(cell: Cell) -> [u8; 4] {
    let m = cell@.material;
    let v = spec_apply_variant(palette_rgba_at(m as int), cell@.variant);
    if cell@.flags & cell_flags::WET != 0 && m == material::SAND {
        [(v[0] * 88 / 100) as u8, (v[1] * 92 / 100) as u8, if v[2] + 20 > 255 { 255u8 } else { (v[2] + 20) as u8 }, v[3]]
    } else {
        v
    }
}

/// Colour of `cell` at `(x, y)` before the heat glow.
pub open spec fn unglowed_rgba(cell: Cell, x: i32, y: i32) -> [u8; 4] {
    let m = cell@.material;
    let life = cell@.lifetime;
    if m == material::FIRE { spec_fire_rgba(life, x, y) }
    else if m == material::LAVA { spec_lava_rgba(life, x, y) }
    else if m == material::EMBER { spec_ember_pile_rgba(life, x, y) }
    else if m == material::SMOKE { spec_smoke_rgba(life, x, y) }
    else if m == material::STEAM { spec_steam_rgba(life, x, y) }
    else { plain_rgba(cell) }
}

pub open spec fn sat_add_u8(a: u8, b: u8) -> u8 {
    if a + b > 255 { 255u8 } else { (a + b) as u8 }
}

/// Display colour of `cell` at `(x, y)`: burning vegetation, the animated ramps, or the palette colour,
/// brightened by heat above 200 K (except fire and lava).
pub open spec fn spec_cell_rgba(cell: Cell, x: i32, y: i32) -> [u8; 4] {
    let m = cell@.material;
    let temp = cell@.temperature;
    if (m == material::PLANT || m == material::WOOD) && temp >= 250 && cell@.lifetime > 0 {
        spec_burning_vegetation_rgba(cell@.lifetime, x, y)
    } else {
        let c = unglowed_rgba(cell, x, y);
        if temp > 200 && m != material::FIRE && m != material::LAVA {
            let glow = ((if temp - 200 < 800 { temp - 200 } else { 800 }) * 255 / 800) as u8;
            [sat_add_u8(c[0], glow), sat_add_u8(c[1], (glow / 3) as u8), c[2], c[3]]
        } else {
            c
        }
    }
}

pub open spec fn pack_argb(c: [u8; 4]) -> u32 {
    ((c[3] as u32) << 24u32) | ((c[0] as u32) << 16u32) | ((c[1] as u32) << 8u32) | (c[2] as u32)
}

fn pack(c: [u8; 4]) -> (v: u32)
    ensures v == pack_argb(c),
{
    (c[3] as u32) << 24 | (c[0] as u32) << 16 | (c[1] as u32) << 8 | c[2] as u32
}

fn plain_cell_rgba(cell: Cell) -> (c: [u8; 4])
    ensures c == plain_rgba(cell),
{
    let m = cell.material();
    let base = static_palette_rgba(m);
    let mut v = apply_variant(base, cell.variant());
    if cell.has_flag(cell_flags::WET) && m == material::SAND {
        v = [
            ((v[0] as u16 * 88) / 100) as u8,
            ((v[1] as u16 * 92) / 100) as u8,
            if v[2] as u16 + 20 > 255 { 255 } else { v[2] + 20 },
            v[3],
        ];
    }
    v
}

pub fn cell_to_rgba(cell: Cell, x: i32, y: i32) -> (c: [u8; 4])
    ensures c == spec_cell_rgba(cell, x, y),
{
    let temp = cell.temperature();
    let m = cell.material();
    if (m == material::PLANT || m == material::WOOD) && temp >= 250 && cell.lifetime() > 0 {
        return burning_vegetation_rgba(cell.lifetime(), x, y);
    }
    let c = if m == material::FIRE {
        fire_rgba(cell.lifetime(), x, y)
    } else if m == material::LAVA {
        lava_rgba(cell.lifetime(), x, y)
    } else if m == material::EMBER {
        ember_pile_rgba(cell.lifetime(), x, y)
    } else if m == material::SMOKE {
        smoke_rgba(cell.lifetime(), x, y)
    } else if m == material::STEAM {
        steam_rgba(cell.lifetime(), x, y)
    } else {
        plain_cell_rgba(cell)
    };
    if temp > 200 && m != material::FIRE && m != material::LAVA {
        let over = if temp - 200 < 800 { temp - 200 } else { 800 };
        let glow = ((over as u32 * 255) / 800) as u8;
        let r = if c[0] as u16 + glow as u16 > 255 { 255 } else { c[0] + glow };
        let g = if c[1] as u16 + (glow / 3) as u16 > 255 { 255 } else { c[1] + glow / 3 };
        [r, g, c[2], c[3]]
    } else {
        c
    }
}

pub fn cell_to_argb32(cell: Cell, x: i32, y: i32) -> (v: u32)
    ensures v == pack_argb(spec_cell_rgba(cell, x, y)),
{
    pack(cell_to_rgba(cell, x, y))
}

/// Tint of the debug overlay for the pass that last processed a cell.
pub open spec fn pass_tint(pass: u8) -> [u8; 3] {
    if pass == 0 { [255u8, 80, 80] }
    else if pass == 1 { [80u8, 255, 80] }
    else if pass == 2 { [80u8, 120, 255] }
    else if pass == 3 { [255u8, 220, 60] }
    else if pass == 4 { [255u8, 80, 255] }
    else { [80u8, 80, 80] }
}

/// Cell colour averaged with the tint of the pass that last processed it.
pub open spec fn spec_cell_debug_rgba(cell: Cell, x: i32, y: i32, pass: u8) -> [u8; 4] {
    let base = spec_cell_rgba(cell, x, y);
    let t = pass_tint(pass);
    [((base[0] + t[0]) / 2) as u8, ((base[1] + t[1]) / 2) as u8, ((base[2] + t[2]) / 2) as u8, base[3]]
}

fn cell_to_debug_rgba(cell: Cell, x: i32, y: i32, pass: u8) -> (c: [u8; 4])
    ensures c == spec_cell_debug_rgba(cell, x, y, pass),
{
    let base = cell_to_rgba(cell, x, y);
    let tint: [u8; 3] = if pass == 0 {
        [255, 80, 80]
    } else if pass == 1 {
        [80, 255, 80]
    } else if pass == 2 {
        [80, 120, 255]
    } else if pass == 3 {
        [255, 220, 60]
    } else if pass == 4 {
        [255, 80, 255]
    } else {
        [80, 80, 80]
    };
    [
        ((base[0] as u16 + tint[0] as u16) / 2) as u8,
        ((base[1] as u16 + tint[1] as u16) / 2) as u8,
        ((base[2] as u16 + tint[2] as u16) / 2) as u8,
        base[3],
    ]
}

fn cell_to_debug_argb32(cell: Cell, x: i32, y: i32, pass: u8) -> (v: u32)
    ensures v == pack_argb(spec_cell_debug_rgba(cell, x, y, pass)),
{
    pack(cell_to_debug_rgba(cell, x, y, pass))
}

/// Colour of checkerboard pass `pass` (red, green, blue, yellow).
pub open spec fn spec_checker_pass_rgb(pass: int) -> [u8; 3] {
    if pass % 4 == 0 { [255u8, 40, 40] }
    else if pass % 4 == 1 { [40u8, 255, 60] }
    else if pass % 4 == 2 { [50u8, 120, 255] }
    else { [255u8, 220, 50] }
}

fn checker_pass_rgb(pass: usize) -> (c: [u8; 3])
    ensures c == spec_checker_pass_rgb(pass as int),
{
    let p = pass % 4;
    if p == 0 {
        [255, 40, 40]
    } else if p == 1 {
        [40, 255, 60]
    } else if p == 2 {
        [50, 120, 255]
    } else {
        [255, 220, 50]
    }
}

/// Pixel `px` moved `numer / denom` of the way toward `rgb` (alpha kept).
pub open spec fn spec_blend_argb32(px: u32, rgb: [u8; 3], numer: u16, denom: u16) -> u32 {
    let d: int = if denom < 1 { 1 } else { denom as int };
    let n: int = if numer < d { numer as int } else { d };
    let inv = d - n;
    let pr = (px >> 16u32) & 0xFF;
    let pg = (px >> 8u32) & 0xFF;
    let pb = px & 0xFF;
    let a = (px >> 24u32) & 0xFF;
    let nr = ((pr * inv + rgb[0] * n) / d) as u8;
    let ng = ((pg * inv + rgb[1] * n) / d) as u8;
    let nb = ((pb * inv + rgb[2] * n) / d) as u8;
    (a << 24u32) | ((nr as u32) << 16u32) | ((ng as u32) << 8u32) | (nb as u32)
}

fn blend_argb32_toward_rgb(px: u32, rgb: [u8; 3], tint_numer: u16, tint_denom: u16) -> (v: u32)
    requires tint_denom <= 257,
    ensures v == spec_blend_argb32(px, rgb, tint_numer, tint_denom),
{
    let d: u16 = if tint_denom < 1 { 1 } else { tint_denom };
    let n: u16 = if tint_numer < d { tint_numer } else { d };
    let inv = d - n;
    let pr = ((px >> 16) & 0xFF) as u16;
    let pg = ((px >> 8) & 0xFF) as u16;
    let pb = (px & 0xFF) as u16;
    let a = ((px >> 24) & 0xFF) as u16;
    proof {
        assert((px >> 16u32) & 0xFF <= 0xFF && (px >> 8u32) & 0xFF <= 0xFF && px & 0xFF <= 0xFF && (px >> 24u32) & 0xFF <= 0xFF) by (bit_vector);
        assert(pr * inv + rgb[0] * n <= 255 * d) by (nonlinear_arith) requires pr <= 255, rgb[0] <= 255, inv + n == d, inv >= 0, n >= 0;
        assert(pg * inv + rgb[1] * n <= 255 * d) by (nonlinear_arith) requires pg <= 255, rgb[1] <= 255, inv + n == d, inv >= 0, n >= 0;
        assert(pb * inv + rgb[2] * n <= 255 * d) by (nonlinear_arith) requires pb <= 255, rgb[2] <= 255, inv + n == d, inv >= 0, n >= 0;
        assert(pr * inv <= 255 * d && pg * inv <= 255 * d && pb * inv <= 255 * d) by (nonlinear_arith)
            requires pr <= 255, pg <= 255, pb <= 255, inv <= d, inv >= 0;
        assert(rgb[0] * n <= 255 * d && rgb[1] * n <= 255 * d && rgb[2] * n <= 255 * d) by (nonlinear_arith)
            requires rgb[0] <= 255, rgb[1] <= 255, rgb[2] <= 255, n <= d, n >= 0;
    }
    let nr = ((pr * inv + rgb[0] as u16 * n) / d) as u8;
    let ng = ((pg * inv + rgb[1] as u16 * n) / d) as u8;
    let nb = ((pb * inv + rgb[2] as u16 * n) / d) as u8;
    let na = a as u32;
    (na << 24) | ((nr as u32) << 16) | ((ng as u32) << 8) | nb as u32
}

// ----- region buffers -----

/// Width of the pixel buffer for `rect` (zero for an empty rectangle).
pub open spec fn rect_width(rect: RectI) -> int {
    if rect.max.x - rect.min.x + 1 > 0 { rect.max.x - rect.min.x + 1 } else { 0 }
}

pub open spec fn rect_height(rect: RectI) -> int {
    if rect.max.y - rect.min.y + 1 > 0 { rect.max.y - rect.min.y + 1 } else { 0 }
}

/// World cell shown by pixel `k` (row-major) of the buffer for `rect`.
pub open spec fn region_pos(rect: RectI, k: int) -> Vec2i {
    Vec2i { x: (rect.min.x + k % rect_width(rect)) as i32, y: (rect.min.y + k / rect_width(rect)) as i32 }
}

/// A rectangle whose buffers can be allocated: its sides fit in `i32` and its RGBA byte count in `usize`.
pub open spec fn region_ok(rect: RectI) -> bool {
    &&& rect.max.x - rect.min.x + 1 <= i32::MAX
    &&& rect.max.y - rect.min.y + 1 <= i32::MAX
    &&& rect_width(rect) * rect_height(rect) * 4 <= usize::MAX
}

/// Walks `rect` row by row: the cell position of every step, as `pixel_fn` expects.
proof fn lemma_region_step(rect: RectI, x: int, y: int)
    requires
        rect.min.x <= x <= rect.max.x,
        rect.min.y <= y <= rect.max.y,
    ensures
        ({
            let k = (y - rect.min.y) * rect_width(rect) + (x - rect.min.x);
            &&& region_pos(rect, k) == (Vec2i { x: x as i32, y: y as i32 })
            &&& 0 <= k < rect_width(rect) * rect_height(rect)
        }),
{
    let w = rect_width(rect);
    let k = (y - rect.min.y) * w + (x - rect.min.x);
    vstd::arithmetic::div_mod::lemma_fundamental_div_mod_converse_div(k, w, y - rect.min.y, x - rect.min.x);
    vstd::arithmetic::div_mod::lemma_fundamental_div_mod_converse_mod(k, w, y - rect.min.y, x - rect.min.x);
    assert(0 <= k < w * rect_height(rect)) by (nonlinear_arith)
        requires k == (y - rect.min.y) * w + (x - rect.min.x), 0 <= x - rect.min.x < w, 0 <= y - rect.min.y < rect_height(rect);
}

proof fn lemma_rows(a: int, w: int, h: int)
    ensures
        a * w + w == (a + 1) * w,
        (a * w + w) * 4 == (a + 1) * w * 4,
        a * w * 4 == (a * w) * 4,
        0 * w == 0,
        w * h == h * w,
        w * h * 4 == h * w * 4,
{
    assert(a * w + w == (a + 1) * w) by (nonlinear_arith);
    assert(w * h == h * w) by (nonlinear_arith);
}

/// ARGB32 pixels of `rect`, row-major.
pub fn copy_argb32_for_region(world: &World, rect: RectI) -> (buf: Vec<u32>)
    requires world.wf(), region_ok(rect),
    ensures
        buf@.len() == rect_width(rect) * rect_height(rect),
        forall|k: int| 0 <= k < buf@.len() ==> #[trigger] buf@[k] == pack_argb(spec_cell_rgba(
            world.cell_at(region_pos(rect, k)), region_pos(rect, k).x, region_pos(rect, k).y)),
{
    let mut buf: Vec<u32> = Vec::new();
    let mut y: i64 = rect.min.y as i64;
    while y <= rect.max.y as i64
        invariant
            world.wf(),
            region_ok(rect),
            rect.min.y <= y,
            y <= rect.max.y + 1 || y == rect.min.y,
            buf@.len() == (y - rect.min.y) * rect_width(rect),
            forall|k: int| 0 <= k < buf@.len() ==> #[trigger] buf@[k] == pack_argb(spec_cell_rgba(
                world.cell_at(region_pos(rect, k)), region_pos(rect, k).x, region_pos(rect, k).y)),
        decreases rect.max.y + 1 - y,
    {
        let mut x: i64 = rect.min.x as i64;
        while x <= rect.max.x as i64
            invariant
                world.wf(),
                region_ok(rect),
                rect.min.y <= y <= rect.max.y,
                rect.min.x <= x,
                x <= rect.max.x + 1 || x == rect.min.x,
                buf@.len() == (y - rect.min.y) * rect_width(rect) + (x - rect.min.x),
                forall|k: int| 0 <= k < buf@.len() ==> #[trigger] buf@[k] == pack_argb(spec_cell_rgba(
                    world.cell_at(region_pos(rect, k)), region_pos(rect, k).x, region_pos(rect, k).y)),
            decreases rect.max.x + 1 - x,
        {
            proof { lemma_region_step(rect, x as int, y as int); }
            let p = Vec2i::new(x as i32, y as i32);
            let cell = world.get_cell(p);
            buf.push(cell_to_argb32(cell, x as i32, y as i32));
            x = x + 1;
        }
        proof {
            lemma_rows(y - rect.min.y, rect_width(rect), rect_height(rect));
            if rect.min.x <= rect.max.x {
                assert(x == rect.max.x + 1);
            }
        }
        y = y + 1;
    }
    proof {
        lemma_rows(y - rect.min.y, rect_width(rect), rect_height(rect));
        if rect.min.y <= rect.max.y { assert(y == rect.max.y + 1); }
    }
    buf
}

/// RGBA bytes of `rect`, row-major.
pub fn copy_rgba_for_region(world: &World, rect: RectI) -> (region: PixelRegion)
    requires world.wf(), region_ok(rect),
    ensures
        region.width == rect_width(rect),
        region.height == rect_height(rect),
        region.rgba@.len() == rect_width(rect) * rect_height(rect) * 4,
        forall|j: int| 0 <= j < region.rgba@.len() ==> #[trigger] region.rgba@[j] == spec_cell_rgba(
            world.cell_at(region_pos(rect, j / 4)), region_pos(rect, j / 4).x, region_pos(rect, j / 4).y)[j % 4],
{
    let width = if rect.max.x as i64 - rect.min.x as i64 + 1 > 0 { (rect.max.x as i64 - rect.min.x as i64 + 1) as usize } else { 0 };
    let height = if rect.max.y as i64 - rect.min.y as i64 + 1 > 0 { (rect.max.y as i64 - rect.min.y as i64 + 1) as usize } else { 0 };
    let mut rgba: Vec<u8> = Vec::new();
    let mut y: i64 = rect.min.y as i64;
    while y <= rect.max.y as i64
        invariant
            world.wf(),
            region_ok(rect),
            rect.min.y <= y,
            y <= rect.max.y + 1 || y == rect.min.y,
            rgba@.len() == (y - rect.min.y) * rect_width(rect) * 4,
            forall|j: int| 0 <= j < rgba@.len() ==> #[trigger] rgba@[j] == spec_cell_rgba(
                world.cell_at(region_pos(rect, j / 4)), region_pos(rect, j / 4).x, region_pos(rect, j / 4).y)[j % 4],
        decreases rect.max.y + 1 - y,
    {
        let mut x: i64 = rect.min.x as i64;
        while x <= rect.max.x as i64
            invariant
                world.wf(),
                region_ok(rect),
                rect.min.y <= y <= rect.max.y,
                rect.min.x <= x,
                x <= rect.max.x + 1 || x == rect.min.x,
                rgba@.len() == ((y - rect.min.y) * rect_width(rect) + (x - rect.min.x)) * 4,
                forall|j: int| 0 <= j < rgba@.len() ==> #[trigger] rgba@[j] == spec_cell_rgba(
                    world.cell_at(region_pos(rect, j / 4)), region_pos(rect, j / 4).x, region_pos(rect, j / 4).y)[j % 4],
            decreases rect.max.x + 1 - x,
        {
            proof {
                lemma_region_step(rect, x as int, y as int);
                let k = (y - rect.min.y) * rect_width(rect) + (x - rect.min.x);
                assert((k + 1) * 4 <= rect_width(rect) * rect_height(rect) * 4);
            }
            let p = Vec2i::new(x as i32, y as i32);
            let cell = world.get_cell(p);
            let c = cell_to_rgba(cell, x as i32, y as i32);
            let ghost before = rgba@;
            rgba.push(c[0]);
            rgba.push(c[1]);
            rgba.push(c[2]);
            rgba.push(c[3]);
            proof {
                let k = (y - rect.min.y) * rect_width(rect) + (x - rect.min.x);
                assert forall|j: int| 0 <= j < rgba@.len() implies #[trigger] rgba@[j] == spec_cell_rgba(
                    world.cell_at(region_pos(rect, j / 4)), region_pos(rect, j / 4).x, region_pos(rect, j / 4).y)[j % 4] by {
                    if j >= before.len() {
                        assert(j / 4 == k);
                    }
                }
            }
            x = x + 1;
        }
        proof {
            lemma_rows(y - rect.min.y, rect_width(rect), rect_height(rect));
            if rect.min.x <= rect.max.x {
                assert(x == rect.max.x + 1);
            }
        }
        y = y + 1;
    }
    proof {
        lemma_rows(y - rect.min.y, rect_width(rect), rect_height(rect));
        if rect.min.y <= rect.max.y {
            assert(y == rect.max.y + 1);
        }
    }
    PixelRegion { width, height, rgba }
}

/// Material ids of `rect`, row-major.
pub fn copy_palette_indices_for_region(world: &World, rect: RectI) -> (out: Vec<u16>)
    requires world.wf(), region_ok(rect),
    ensures
        out@.len() == rect_width(rect) * rect_height(rect),
        forall|k: int| 0 <= k < out@.len() ==> #[trigger] out@[k] == world.cell_at(region_pos(rect, k))@.material,
{
    let mut out: Vec<u16> = Vec::new();
    let mut y: i64 = rect.min.y as i64;
    while y <= rect.max.y as i64
        invariant
            world.wf(),
            region_ok(rect),
            rect.min.y <= y,
            y <= rect.max.y + 1 || y == rect.min.y,
            out@.len() == (y - rect.min.y) * rect_width(rect),
            forall|k: int| 0 <= k < out@.len() ==> #[trigger] out@[k] == world.cell_at(region_pos(rect, k))@.material,
        decreases rect.max.y + 1 - y,
    {
        let mut x: i64 = rect.min.x as i64;
        while x <= rect.max.x as i64
            invariant
                world.wf(),
                region_ok(rect),
                rect.min.y <= y <= rect.max.y,
                rect.min.x <= x,
                x <= rect.max.x + 1 || x == rect.min.x,
                out@.len() == (y - rect.min.y) * rect_width(rect) + (x - rect.min.x),
                forall|k: int| 0 <= k < out@.len() ==> #[trigger] out@[k] == world.cell_at(region_pos(rect, k))@.material,
            decreases rect.max.x + 1 - x,
        {
            proof { lemma_region_step(rect, x as int, y as int); }
            out.push(world.get_cell(Vec2i::new(x as i32, y as i32)).material());
            x = x + 1;
        }
        proof {
            lemma_rows(y - rect.min.y, rect_width(rect), rect_height(rect));
            if rect.min.x <= rect.max.x {
                assert(x == rect.max.x + 1);
            }
        }
        y = y + 1;
    }
    proof {
        lemma_rows(y - rect.min.y, rect_width(rect), rect_height(rect));
        if rect.min.y <= rect.max.y { assert(y == rect.max.y + 1); }
    }
    out
}

/// ARGB32 debug overlay of `rect`: each cell tinted by the pass that last processed it.
pub fn copy_debug_argb32_for_region(world: &World, rect: RectI) -> (buf: Vec<u32>)
    requires world.wf(), region_ok(rect),
    ensures
        buf@.len() == rect_width(rect) * rect_height(rect),
        forall|k: int| 0 <= k < buf@.len() ==> #[trigger] buf@[k] == pack_argb(spec_cell_debug_rgba(
            world.cell_at(region_pos(rect, k)), region_pos(rect, k).x, region_pos(rect, k).y,
            world.debug_pass_at(region_pos(rect, k)))),
{
    let mut buf: Vec<u32> = Vec::new();
    let mut y: i64 = rect.min.y as i64;
    while y <= rect.max.y as i64
        invariant
            world.wf(),
            region_ok(rect),
            rect.min.y <= y,
            y <= rect.max.y + 1 || y == rect.min.y,
            buf@.len() == (y - rect.min.y) * rect_width(rect),
            forall|k: int| 0 <= k < buf@.len() ==> #[trigger] buf@[k] == pack_argb(spec_cell_debug_rgba(
                world.cell_at(region_pos(rect, k)), region_pos(rect, k).x, region_pos(rect, k).y,
                world.debug_pass_at(region_pos(rect, k)))),
        decreases rect.max.y + 1 - y,
    {
        let mut x: i64 = rect.min.x as i64;
        while x <= rect.max.x as i64
            invariant
                world.wf(),
                region_ok(rect),
                rect.min.y <= y <= rect.max.y,
                rect.min.x <= x,
                x <= rect.max.x + 1 || x == rect.min.x,
                buf@.len() == (y - rect.min.y) * rect_width(rect) + (x - rect.min.x),
                forall|k: int| 0 <= k < buf@.len() ==> #[trigger] buf@[k] == pack_argb(spec_cell_debug_rgba(
                    world.cell_at(region_pos(rect, k)), region_pos(rect, k).x, region_pos(rect, k).y,
                    world.debug_pass_at(region_pos(rect, k)))),
            decreases rect.max.x + 1 - x,
        {
            proof { lemma_region_step(rect, x as int, y as int); }
            let p = Vec2i::new(x as i32, y as i32);
            let cell = world.get_cell(p);
            let pass = world.get_debug_pass(p);
            buf.push(cell_to_debug_argb32(cell, x as i32, y as i32, pass));
            x = x + 1;
        }
        proof {
            lemma_rows(y - rect.min.y, rect_width(rect), rect_height(rect));
            if rect.min.x <= rect.max.x {
                assert(x == rect.max.x + 1);
            }
        }
        y = y + 1;
    }
    proof {
        lemma_rows(y - rect.min.y, rect_width(rect), rect_height(rect));
        if rect.min.y <= rect.max.y { assert(y == rect.max.y + 1); }
    }
    buf
}

// ----- chunk outlines -----

/// Cell `p` lies on the `t`-wide border of rectangle `chunk`.
pub open spec fn outline_at(chunk: RectI, t: int, p: Vec2i) -> bool {
    &&& chunk.spec_contains(p)
    &&& (p.x < chunk.min.x + t || p.x > chunk.max.x - t || p.y < chunk.min.y + t || p.y > chunk.max.y - t)
}

/// New colour of an outline pixel that was `old`.
pub open spec fn outline_color(old: u32, rgb: [u8; 3], blend: Option<(u16, u16)>) -> u32 {
    match blend {
        Some((n, d)) => spec_blend_argb32(old, rgb, n, d),
        None => 0xFF00_0000u32 | ((rgb[0] as u32) << 16u32) | ((rgb[1] as u32) << 8u32) | (rgb[2] as u32),
    }
}

/// Region buffer `buf` with the `t`-wide border of `chunk` drawn in.
pub open spec fn outlined(buf: Seq<u32>, region: RectI, chunk: RectI, t: int, rgb: [u8; 3], blend: Option<(u16, u16)>) -> Seq<u32> {
    Seq::new(buf.len(), |i: int|
        if outline_at(chunk, t, region_pos(region, i)) { outline_color(buf[i], rgb, blend) } else { buf[i] })
}

fn outline_pixel(old: u32, rgb: [u8; 3], blend: Option<(u16, u16)>) -> (v: u32)
    requires blend matches Some((n, d)) ==> d <= 257,
    ensures v == outline_color(old, rgb, blend),
{
    match blend {
        Some((n, d)) => blend_argb32_toward_rgb(old, rgb, n, d),
        None => 0xFF00_0000u32 | (rgb[0] as u32) << 16 | (rgb[1] as u32) << 8 | rgb[2] as u32,
    }
}

/// Draws the border (at least one cell wide) of `chunk` into the region buffer `buf` of `region`.
fn draw_chunk_outline_on_buf(buf: &mut Vec<u32>, width: usize, region: RectI, chunk: RectI, thickness: i32,
    rgb: [u8; 3], blend: Option<(u16, u16)>)
    requires
        region_ok(region),
        width == rect_width(region),
        old(buf)@.len() == rect_width(region) * rect_height(region),
        blend matches Some((n, d)) ==> d <= 257,
    ensures
        final(buf)@ == outlined(old(buf)@, region, chunk, if thickness < 1 { 1 } else { thickness as int }, rgb, blend),
{
    let t: i64 = if thickness < 1 { 1 } else { thickness as i64 };
    let ghost tt = t as int;
    let ghost b0 = buf@;
    let y_lo: i64 = if region.min.y > chunk.min.y { region.min.y as i64 } else { chunk.min.y as i64 };
    let y_hi: i64 = if region.max.y < chunk.max.y { region.max.y as i64 } else { chunk.max.y as i64 };
    let x_lo: i64 = if region.min.x > chunk.min.x { region.min.x as i64 } else { chunk.min.x as i64 };
    let x_hi: i64 = if region.max.x < chunk.max.x { region.max.x as i64 } else { chunk.max.x as i64 };
    if y_lo > y_hi || x_lo > x_hi {
        proof {
            assert forall|i: int| 0 <= i < b0.len() implies !outline_at(chunk, tt, #[trigger] region_pos(region, i)) by {
                lemma_region_pos(region, i);
            }
            assert(buf@ =~= outlined(b0, region, chunk, tt, rgb, blend));
        }
        return;
    }
    let mut y: i64 = y_lo;
    proof {
        assert forall|j: int| 0 <= j < b0.len() implies
            !(outline_at(chunk, tt, region_pos(region, j)) && region_pos(region, j).y < y) by {
            lemma_region_pos(region, j);
        }
        assert(buf@ =~= Seq::new(b0.len(), |i: int|
            if outline_at(chunk, tt, region_pos(region, i)) && region_pos(region, i).y < y { outline_color(b0[i], rgb, blend) } else { b0[i] }));
    }
    while y <= y_hi
        invariant
            region_ok(region),
            width == rect_width(region),
            b0.len() == rect_width(region) * rect_height(region),
            blend matches Some((n, d)) ==> d <= 257,
            tt == t, 1 <= t <= i32::MAX,
            y_lo == (if region.min.y > chunk.min.y { region.min.y as i64 } else { chunk.min.y as i64 }),
            y_hi == (if region.max.y < chunk.max.y { region.max.y as i64 } else { chunk.max.y as i64 }),
            x_lo == (if region.min.x > chunk.min.x { region.min.x as i64 } else { chunk.min.x as i64 }),
            x_hi == (if region.max.x < chunk.max.x { region.max.x as i64 } else { chunk.max.x as i64 }),
            x_lo <= x_hi,
            y_lo <= y <= y_hi + 1,
            buf@ == Seq::new(b0.len(), |i: int|
                if outline_at(chunk, tt, region_pos(region, i)) && region_pos(region, i).y < y { outline_color(b0[i], rgb, blend) } else { b0[i] }),
        decreases y_hi + 1 - y,
    {
        let mut x: i64 = x_lo;
        while x <= x_hi
            invariant
                region_ok(region),
                width == rect_width(region),
                b0.len() == rect_width(region) * rect_height(region),
                blend matches Some((n, d)) ==> d <= 257,
                tt == t, 1 <= t <= i32::MAX,
                y_lo == (if region.min.y > chunk.min.y { region.min.y as i64 } else { chunk.min.y as i64 }),
                y_hi == (if region.max.y < chunk.max.y { region.max.y as i64 } else { chunk.max.y as i64 }),
                x_lo == (if region.min.x > chunk.min.x { region.min.x as i64 } else { chunk.min.x as i64 }),
                x_hi == (if region.max.x < chunk.max.x { region.max.x as i64 } else { chunk.max.x as i64 }),
                y_lo <= y <= y_hi,
                x_lo <= x <= x_hi + 1,
                buf@ == Seq::new(b0.len(), |i: int|
                    if outline_at(chunk, tt, region_pos(region, i)) && crate::world::state::scanned_before(x as int, y as int, region_pos(region, i))
                    { outline_color(b0[i], rgb, blend) } else { b0[i] }),
            decreases x_hi + 1 - x,
        {
            let edge = x < chunk.min.x as i64 + t || x > chunk.max.x as i64 - t
                || y < chunk.min.y as i64 + t || y > chunk.max.y as i64 - t;
            proof { lemma_region_step(region, x as int, y as int); }
            let ghost k = (y - region.min.y) * rect_width(region) + (x - region.min.x);
            let ghost before = buf@;
            if edge {
                let i = ((y - region.min.y as i64) as usize) * width + (x - region.min.x as i64) as usize;
                assert(i == k);
                let v = outline_pixel(buf[i], rgb, blend);
                buf.set(i, v);
            }
            proof {
                assert forall|j: int| 0 <= j < b0.len() && j != k implies
                    (crate::world::state::scanned_before(x as int + 1, y as int, region_pos(region, j))
                    == crate::world::state::scanned_before(x as int, y as int, region_pos(region, j))) by {
                    lemma_region_pos(region, j);
                    if region_pos(region, j) == region_pos(region, k) {
                        lemma_region_pos_injective(region, j, k);
                    }
                }
                assert(buf@ =~= Seq::new(b0.len(), |i: int|
                    if outline_at(chunk, tt, region_pos(region, i)) && crate::world::state::scanned_before(x as int + 1, y as int, region_pos(region, i))
                    { outline_color(b0[i], rgb, blend) } else { b0[i] }));
            }
            x = x + 1;
        }
        proof {
            assert forall|j: int| 0 <= j < b0.len() implies
                ((outline_at(chunk, tt, region_pos(region, j)) && crate::world::state::scanned_before(x as int, y as int, region_pos(region, j)))
                == (outline_at(chunk, tt, region_pos(region, j)) && region_pos(region, j).y < y + 1)) by {
                lemma_region_pos(region, j);
            }
            assert(buf@ =~= Seq::new(b0.len(), |i: int|
                if outline_at(chunk, tt, region_pos(region, i)) && region_pos(region, i).y < y + 1 { outline_color(b0[i], rgb, blend) } else { b0[i] }));
        }
        y = y + 1;
    }
    proof {
        assert forall|j: int| 0 <= j < b0.len() implies
            ((outline_at(chunk, tt, region_pos(region, j)) && region_pos(region, j).y < y) == outline_at(chunk, tt, region_pos(region, j))) by {
            lemma_region_pos(region, j);
        }
        assert(buf@ =~= outlined(b0, region, chunk, tt, rgb, blend));
    }
}

/// Pixel `k` of the buffer for `region` shows a cell of `region`.
proof fn lemma_region_pos(region: RectI, k: int)
    requires region_ok(region), 0 <= k < rect_width(region) * rect_height(region),
    ensures
        region.spec_contains(region_pos(region, k)),
        region_pos(region, k).x == region.min.x + k % rect_width(region),
        region_pos(region, k).y == region.min.y + k / rect_width(region),
{
    let w = rect_width(region);
    let h = rect_height(region);
    assert(w > 0) by (nonlinear_arith) requires 0 <= k < w * h, h >= 0;
    vstd::arithmetic::div_mod::lemma_fundamental_div_mod(k, w);
    vstd::arithmetic::div_mod::lemma_mod_bound(k, w);
    let q = k / w;
    assert(0 <= q < h) by (nonlinear_arith)
        requires k == w * q + (k % w), 0 <= k % w < w, 0 <= k < w * h, w > 0,
    {
        if q >= h { assert(w * q >= w * h); }
        if q < 0 { assert(w * q <= -w); }
    }
}

proof fn lemma_region_pos_injective(region: RectI, j: int, k: int)
    requires
        region_ok(region),
        0 <= j < rect_width(region) * rect_height(region),
        0 <= k < rect_width(region) * rect_height(region),
        region_pos(region, j) == region_pos(region, k),
    ensures j == k,
{
    lemma_region_pos(region, j);
    lemma_region_pos(region, k);
    let w = rect_width(region);
    vstd::arithmetic::div_mod::lemma_fundamental_div_mod(j, w);
    vstd::arithmetic::div_mod::lemma_fundamental_div_mod(k, w);
}

/// `buf` with the borders of `rects` drawn in, in order.
pub open spec fn outlined_all(buf: Seq<u32>, region: RectI, rects: Seq<RectI>, t: int, rgb: [u8; 3]) -> Seq<u32>
    decreases rects.len(),
{
    if rects.len() == 0 {
        buf
    } else {
        outlined(outlined_all(buf, region, rects.drop_last(), t, rgb), region, rects.last(), t, rgb, None)
    }
}

/// Bounds of the chunks of checkerboard pass `pass`, in scheduling order.
pub open spec fn pass_rects(world: &World, pass: int) -> Seq<RectI> {
    picked(|s: int| world.in_pass(pass, s), |s: int| world.slot_coord(s), world.slot_count()).map_values(|c: ChunkCoord| world.chunk_bounds(c))
}

/// `buf` with the one-cell borders of the chunks of passes `0..n` drawn in their pass colours.
pub open spec fn pass_outlines(world: &World, buf: Seq<u32>, region: RectI, n: int) -> Seq<u32>
    decreases n,
{
    if n <= 0 {
        buf
    } else {
        outlined_all(pass_outlines(world, buf, region, n - 1), region, pass_rects(world, n - 1), 1, spec_checker_pass_rgb(n - 1))
    }
}

proof fn lemma_outlined_len(buf: Seq<u32>, region: RectI, rects: Seq<RectI>, t: int, rgb: [u8; 3])
    ensures outlined_all(buf, region, rects, t, rgb).len() == buf.len(),
    decreases rects.len(),
{
    if rects.len() > 0 {
        lemma_outlined_len(buf, region, rects.drop_last(), t, rgb);
    }
}

/// Draws the one-cell border of every chunk of each checkerboard pass in the pass colour.
fn draw_all_pass_batch_outlines(world: &World, buf: &mut Vec<u32>, width: usize, region: RectI)
    requires
        world.wf(),
        region_ok(region),
        width == rect_width(region),
        old(buf)@.len() == rect_width(region) * rect_height(region),
    ensures
        final(buf)@ == pass_outlines(world, old(buf)@, region, 4),
{
    let ghost b0 = buf@;
    let mut pass: usize = 0;
    while pass < 4
        invariant
            world.wf(),
            region_ok(region),
            width == rect_width(region),
            b0.len() == rect_width(region) * rect_height(region),
            pass <= 4,
            buf@ == pass_outlines(world, b0, region, pass as int),
            buf@.len() == b0.len(),
        decreases 4 - pass,
    {
        let rgb = checker_pass_rgb(pass);
        let coords = world.active_chunk_coords_for_pass(pass);
        let ghost start = buf@;
        let ghost rects = pass_rects(world, pass as int);
        proof {
            assert(rects.len() == coords@.len());
        }
        let mut i: usize = 0;
        while i < coords.len()
            invariant
                world.wf(),
                region_ok(region),
                width == rect_width(region),
                b0.len() == rect_width(region) * rect_height(region),
                start.len() == b0.len(),
                rgb == spec_checker_pass_rgb(pass as int),
                rects == coords@.map_values(|c: ChunkCoord| world.chunk_bounds(c)),
                i <= coords@.len(),
                buf@ == outlined_all(start, region, rects.take(i as int), 1, rgb),
                buf@.len() == b0.len(),
            decreases coords@.len() - i,
        {
            let b = world.bounds_for_chunk(coords[i]);
            draw_chunk_outline_on_buf(buf, width, region, b, 1, rgb, None);
            proof {
                assert(rects.take(i as int + 1).drop_last() =~= rects.take(i as int));
                assert(rects.take(i as int + 1).last() == b);
            }
            i = i + 1;
        }
        proof {
            assert(rects.take(coords@.len() as int) =~= rects);
        }
        pass = pass + 1;
    }
}

/// ARGB32 pixels of `rect` with a one-cell outline around every scheduled chunk in its pass colour.
pub fn copy_argb32_for_region_pass_batch_viz(world: &World, rect: RectI) -> (buf: Vec<u32>)
    requires world.wf(), region_ok(rect),
    ensures
        ({
            let base = Seq::new((rect_width(rect) * rect_height(rect)) as nat, |k: int| pack_argb(spec_cell_rgba(
                world.cell_at(region_pos(rect, k)), region_pos(rect, k).x, region_pos(rect, k).y)));
            buf@ == pass_outlines(world, base, rect, 4)
        }),
{
    let width = if rect.max.x as i64 - rect.min.x as i64 + 1 > 0 { (rect.max.x as i64 - rect.min.x as i64 + 1) as usize } else { 0 };
    let mut buf = copy_argb32_for_region(world, rect);
    proof {
        let base = Seq::new((rect_width(rect) * rect_height(rect)) as nat, |k: int| pack_argb(spec_cell_rgba(
            world.cell_at(region_pos(rect, k)), region_pos(rect, k).x, region_pos(rect, k).y)));
        assert(buf@ =~= base);
    }
    draw_all_pass_batch_outlines(world, &mut buf, width, rect);
    buf
}

/// The chunk-step view: ARGB32 pixels, the pass outlines when enabled, then a two-cell outline in its
/// pass colour around the highlighted chunk.
pub fn copy_argb32_for_region_chunk_step_viz(world: &World, rect: RectI) -> (buf: Vec<u32>)
    requires world.wf(), region_ok(rect),
    ensures
        ({
            let base = Seq::new((rect_width(rect) * rect_height(rect)) as nat, |k: int| pack_argb(spec_cell_rgba(
                world.cell_at(region_pos(rect, k)), region_pos(rect, k).x, region_pos(rect, k).y)));
            let with_batches = if world.spec_debug_pass_batch_outlines() { pass_outlines(world, base, rect, 4) } else { base };
            buf@ == match world.spec_debug_chunk_highlight() {
                Some((coord, pass)) => outlined(with_batches, rect, world.chunk_bounds(coord), 2,
                    spec_checker_pass_rgb(pass as int), None),
                None => with_batches,
            }
        }),
{
    let width = if rect.max.x as i64 - rect.min.x as i64 + 1 > 0 { (rect.max.x as i64 - rect.min.x as i64 + 1) as usize } else { 0 };
    let mut buf = copy_argb32_for_region(world, rect);
    proof {
        let base = Seq::new((rect_width(rect) * rect_height(rect)) as nat, |k: int| pack_argb(spec_cell_rgba(
            world.cell_at(region_pos(rect, k)), region_pos(rect, k).x, region_pos(rect, k).y)));
        assert(buf@ =~= base);
    }
    if world.debug_pass_batch_outlines() {
        draw_all_pass_batch_outlines(world, &mut buf, width, rect);
    }
    match world.debug_chunk_highlight() {
        Some((coord, pass)) => {
            let b = world.bounds_for_chunk(coord);
            let rgb = checker_pass_rgb(pass as usize);
            proof {
                let base = Seq::new((rect_width(rect) * rect_height(rect)) as nat, |k: int| pack_argb(spec_cell_rgba(
                    world.cell_at(region_pos(rect, k)), region_pos(rect, k).x, region_pos(rect, k).y)));
                lemma_pass_outlines_len(world, base, rect, 4);
            }
            draw_chunk_outline_on_buf(&mut buf, width, rect, b, 2, rgb, None);
        }
        None => {}
    }
    buf
}

proof fn lemma_pass_outlines_len(world: &World, buf: Seq<u32>, region: RectI, n: int)
    ensures pass_outlines(world, buf, region, n).len() == buf.len(),
    decreases n,
{
    if n > 0 {
        lemma_pass_outlines_len(world, buf, region, n - 1);
        lemma_outlined_len(pass_outlines(world, buf, region, n - 1), region, pass_rects(world, n - 1), 1, spec_checker_pass_rgb(n - 1));
    }
}

/// The full debug view: pass-tinted pixels, the pass outlines, and the highlighted chunk's outline.
pub fn copy_argb32_for_region_all_debug_views(world: &World, rect: RectI) -> (buf: Vec<u32>)
    requires world.wf(), region_ok(rect),
    ensures
        ({
            let base = Seq::new((rect_width(rect) * rect_height(rect)) as nat, |k: int| pack_argb(spec_cell_debug_rgba(
                world.cell_at(region_pos(rect, k)), region_pos(rect, k).x, region_pos(rect, k).y,
                world.debug_pass_at(region_pos(rect, k)))));
            let with_batches = pass_outlines(world, base, rect, 4);
            buf@ == match world.spec_debug_chunk_highlight() {
                Some((coord, pass)) => outlined(with_batches, rect, world.chunk_bounds(coord), 2,
                    spec_checker_pass_rgb(pass as int), None),
                None => with_batches,
            }
        }),
{
    let mut buf = copy_debug_argb32_for_region(world, rect);
    let width = if rect.max.x as i64 - rect.min.x as i64 + 1 > 0 { (rect.max.x as i64 - rect.min.x as i64 + 1) as usize } else { 0 };
    let ghost base = buf@;
    proof {
        assert(buf@ =~= Seq::new((rect_width(rect) * rect_height(rect)) as nat, |k: int| pack_argb(spec_cell_debug_rgba(
            world.cell_at(region_pos(rect, k)), region_pos(rect, k).x, region_pos(rect, k).y,
            world.debug_pass_at(region_pos(rect, k))))));
    }
    draw_all_pass_batch_outlines(world, &mut buf, width, rect);
    match world.debug_chunk_highlight() {
        Some((coord, pass)) => {
            let b = world.bounds_for_chunk(coord);
            let rgb = checker_pass_rgb(pass as usize);
            proof { lemma_pass_outlines_len(world, base, rect, 4); }
            draw_chunk_outline_on_buf(&mut buf, width, rect, b, 2, rgb, None);
        }
        None => {}
    }
    buf
}

/// Every chunk marked for redraw with its clipped world rectangle, in slot order.
pub fn get_dirty_chunks(world: &World) -> (out: Vec<DirtyChunkView>)
    requires world.wf(),
    ensures
        ({
            let rects = picked(|s: int| world.dirty_view()[s], |s: int| (world.slot_coord(s), world.slot_rect(s)), world.slot_count());
            &&& out@.len() == rects.len()
            &&& forall|i: int| 0 <= i < out@.len() ==> (#[trigger] out@[i]).chunk == (Vec2i { x: rects[i].0.x, y: rects[i].0.y })
                && out@[i].rect == rects[i].1
        }),
{
    let all = world.all_chunk_dirty_rects();
    let mut out: Vec<DirtyChunkView> = Vec::new();
    let mut i: usize = 0;
    while i < all.len()
        invariant
            i <= all@.len(),
            out@.len() == i,
            forall|j: int| 0 <= j < i ==> (#[trigger] out@[j]).chunk == (Vec2i { x: all@[j].0.x, y: all@[j].0.y })
                && out@[j].rect == all@[j].1,
        decreases all@.len() - i,
    {
        let (coord, rect) = all[i];
        out.push(DirtyChunkView { chunk: Vec2i::new(coord.x, coord.y), rect });
        i = i + 1;
    }
    out
}

} // verus!
