//! Integer points, rectangles, chunk coordinates and floor division.
use vstd::prelude::*;
use vstd::arithmetic::div_mod::{lemma_fundamental_div_mod, lemma_fundamental_div_mod_converse_div};

verus! {

pub const CHUNK_W: i32 = 32;
pub const CHUNK_H: i32 = 32;
pub const CHUNK_SIZE: i32 = 32;
pub const CHUNK_AREA: usize = 1024;
/// How many ticks a chunk stays awake after the last wake signal.
pub const WAKE_COOLDOWN: u8 = 16;

#[derive(Clone, Copy, PartialEq, Eq, Structural, Hash, Debug)]
pub struct Vec2i {
    pub x: i32,
    pub y: i32,
}

impl Vec2i {
    pub fn new(x: i32, y: i32) -> (v: Self)
        ensures v.x == x, v.y == y,
    {
        Vec2i { x, y }
    }
}

#[derive(Clone, Copy, PartialEq, Eq, Structural, Hash, Debug)]
pub struct ChunkCoord {
    pub x: i32,
    pub y: i32,
}

/// Inclusive axis-aligned rectangle `min..=max` on both axes.
#[derive(Clone, Copy, PartialEq, Eq, Structural, Debug)]
pub struct RectI {
    pub min: Vec2i,
    pub max: Vec2i,
}

pub open spec fn min_int(a: int, b: int) -> int { if a <= b { a } else { b } }
pub open spec fn max_int(a: int, b: int) -> int { if a >= b { a } else { b } }

impl RectI {
    /// Point `p` lies in the rectangle (both bounds inclusive).
    pub open spec fn spec_contains(self, p: Vec2i) -> bool {
        self.min.x <= p.x <= self.max.x && self.min.y <= p.y <= self.max.y
    }

    /// The two rectangles share at least one point (for non-empty rectangles).
    pub open spec fn spec_intersects(self, o: RectI) -> bool {
        self.min.x <= o.max.x && self.max.x >= o.min.x && self.min.y <= o.max.y && self.max.y >= o.min.y
    }

    pub fn new(min: Vec2i, max: Vec2i) -> (r: Self)
        ensures r.min == min, r.max == max,
    {
        RectI { min, max }
    }

    pub fn from_point(p: Vec2i) -> (r: Self)
        ensures r.min == p, r.max == p,
    {
        RectI { min: p, max: p }
    }

    /// Grows the rectangle just enough to contain `p`.
    pub fn expand_to_include(&mut self, p: Vec2i)
        ensures
            final(self).min.x == min_int(old(self).min.x as int, p.x as int),
            final(self).min.y == min_int(old(self).min.y as int, p.y as int),
            final(self).max.x == max_int(old(self).max.x as int, p.x as int),
            final(self).max.y == max_int(old(self).max.y as int, p.y as int),
    {
        if p.x < self.min.x { self.min.x = p.x; }
        if p.y < self.min.y { self.min.y = p.y; }
        if p.x > self.max.x { self.max.x = p.x; }
        if p.y > self.max.y { self.max.y = p.y; }
    }

    pub fn contains(&self, p: Vec2i) -> (b: bool)
        ensures b == self.spec_contains(p),
    {
        p.x >= self.min.x && p.x <= self.max.x && p.y >= self.min.y && p.y <= self.max.y
    }

    pub fn intersects(&self, other: RectI) -> (b: bool)
        ensures b == self.spec_intersects(other),
    {
        self.min.x <= other.max.x
            && self.max.x >= other.min.x
            && self.min.y <= other.max.y
            && self.max.y >= other.min.y
    }

    /// The overlap of two rectangles, `None` when it is empty.
    pub fn intersection(&self, other: &RectI) -> (r: Option<RectI>)
        ensures
            ({
                let lo_x = max_int(self.min.x as int, other.min.x as int);
                let lo_y = max_int(self.min.y as int, other.min.y as int);
                let hi_x = min_int(self.max.x as int, other.max.x as int);
                let hi_y = min_int(self.max.y as int, other.max.y as int);
                match r {
                    Some(q) => lo_x <= hi_x && lo_y <= hi_y && q.min.x == lo_x && q.min.y == lo_y
                        && q.max.x == hi_x && q.max.y == hi_y,
                    None => !(lo_x <= hi_x && lo_y <= hi_y),
                }
            }),
            r matches Some(q) ==> forall|p: Vec2i| q.spec_contains(p) <==> (self.spec_contains(p) && other.spec_contains(p)),
    {
        let min_x = if self.min.x >= other.min.x { self.min.x } else { other.min.x };
        let min_y = if self.min.y >= other.min.y { self.min.y } else { other.min.y };
        let max_x = if self.max.x <= other.max.x { self.max.x } else { other.max.x };
        let max_y = if self.max.y <= other.max.y { self.max.y } else { other.max.y };
        if min_x <= max_x && min_y <= max_y {
            Some(RectI::new(Vec2i::new(min_x, min_y), Vec2i::new(max_x, max_y)))
        } else {
            None
        }
    }
}

/// Index of local cell `(x, y)` inside a 32×32 chunk, row-major.
pub fn chunk_local_index(x: i32, y: i32) -> (i: usize)
    requires 0 <= x < CHUNK_W, 0 <= y < CHUNK_H,
    ensures i == y * CHUNK_W + x, i < CHUNK_AREA,
{
    proof {
        assert(0 <= y * 32 + x < 1024) by (nonlinear_arith) requires 0 <= x < 32, 0 <= y < 32;
    }
    (y as usize) * 32 + (x as usize)
}

/// Mathematical floor of `a / b`.
pub open spec fn spec_div_floor(a: int, b: int) -> int {
    if b > 0 { a / b } else { (-a) / (-b) }
}

/// Floor of `q` relative to `d`: `q * d <= n < q * d + d` when `d > 0`.
pub proof fn lemma_floor_div_neg(n: int, d: int)
    requires n < 0, d > 0,
    ensures n / d == -((-n - 1) / d) - 1,
{
    let m = -n - 1;
    lemma_fundamental_div_mod(m, d);
    let q = m / d;
    let r = m % d;
    assert(0 <= r < d) by {
        vstd::arithmetic::div_mod::lemma_mod_bound(m, d);
    }
    assert(n == (-q - 1) * d + (d - r - 1)) by (nonlinear_arith)
        requires m == d * q + r, n == -m - 1;
    lemma_fundamental_div_mod_converse_div(n, d, -q - 1, d - r - 1);
}

/// Integer division rounding toward negative infinity.
pub fn div_floor(a: i32, b: i32) -> (q: i32)
    requires
        b != 0,
        !(a == i32::MIN && b == -1),
    ensures
        q == spec_div_floor(a as int, b as int),
{
    let a64 = a as i64;
    let b64 = b as i64;
    let n: i64 = if b64 > 0 { a64 } else { -a64 };
    let d: i64 = if b64 > 0 { b64 } else { -b64 };
    proof {
        assert(d > 0);
    }
    let q: i64 = if n >= 0 {
        n / d
    } else {
        let m = -n - 1;
        let t = m / d;
        proof { lemma_floor_div_neg(n as int, d as int); }
        -t - 1
    };
    proof {
        lemma_fundamental_div_mod(n as int, d as int);
        vstd::arithmetic::div_mod::lemma_mod_bound(n as int, d as int);
        if b > 0 {
            assert(q == (a as int) / (b as int));
        } else {
            assert(q == (-(a as int)) / (-(b as int)));
        }
        lemma_div_floor_range(a as int, b as int);
    }
    q as i32
}

proof fn lemma_div_floor_range(a: int, b: int)
    requires
        b != 0, i32::MIN <= a <= i32::MAX, i32::MIN <= b <= i32::MAX,
        !(a == i32::MIN && b == -1),
    ensures
        i32::MIN <= spec_div_floor(a, b) <= i32::MAX,
{
    let n = if b > 0 { a } else { -a };
    let d = if b > 0 { b } else { -b };
    lemma_fundamental_div_mod(n, d);
    vstd::arithmetic::div_mod::lemma_mod_bound(n, d);
    let q = n / d;
    let r = n % d;
    assert(-2147483648 <= q <= 2147483647) by (nonlinear_arith)
        requires n == d * q + r, 0 <= r < d, d >= 1, -2147483648 <= n <= 2147483648,
            !(n == 2147483648 && d == 1);
}

/// Hash key of a cell position: `x` in the high 32 bits, `y` in the low 32 bits.
pub open spec fn point_key(p: Vec2i) -> u64 {
    (((p.x as u32) as u64) << 32u64) | ((p.y as u32) as u64)
}

/// The cell position stored in a hash key.
pub open spec fn key_point(k: u64) -> Vec2i {
    Vec2i { x: ((k >> 32u64) as u32) as i32, y: (k as u32) as i32 }
}

pub proof fn lemma_point_key_roundtrip(p: Vec2i, k: u64)
    ensures
        key_point(point_key(p)) == p,
        point_key(key_point(k)) == k,
{
    let x = p.x;
    let y = p.y;
    assert(
        (((((x as u32) as u64) << 32u64) | ((y as u32) as u64)) >> 32u64) as u32 as i32 == x
        && ((((x as u32) as u64) << 32u64) | ((y as u32) as u64)) as u32 as i32 == y
        && ((((k >> 32u64) as u32) as i32) as u32 as u64) << 32u64 | ((((k as u32) as i32) as u32) as u64) == k
    ) by (bit_vector);
}

/// Hash key of a cell position.
pub fn point_key_of(p: Vec2i) -> (k: u64)
    ensures k == point_key(p),
{
    ((p.x as u32) as u64) << 32u64 | ((p.y as u32) as u64)
}

/// Cell position of a hash key.
pub fn point_of_key(k: u64) -> (p: Vec2i)
    ensures p == key_point(k),
{
    Vec2i { x: ((k >> 32u64) as u32) as i32, y: (k as u32) as i32 }
}

} // verus!
