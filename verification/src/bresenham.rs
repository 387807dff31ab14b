//! Integer Bresenham line algorithm and integer square root, no floating-point math.
use vstd::prelude::*;
use vstd::arithmetic::div_mod::{lemma_fundamental_div_mod, lemma_mod_bound};

use crate::world::Vec2i;

verus! {

/// `r` is the floor of the square root of `n` (for `n > 0`).
pub open spec fn is_floor_sqrt(n: int, r: int) -> bool {
    0 <= r && r * r <= n < (r + 1) * (r + 1)
}

proof fn lemma_newton_not_below(n: int, x: int, s: int)
    requires
        x >= 1, s >= 0, n >= 0, s * s <= n,
    ensures
        (x + n / x) / 2 >= s,
{
    lemma_fundamental_div_mod(n, x);
    lemma_mod_bound(n, x);
    let q = n / x;
    let r = n % x;
    assert(x + q >= 2 * s) by (nonlinear_arith)
        requires n == x * q + r, 0 <= r < x, s * s <= n, x >= 1, s >= 0,
    {
        if x + q < 2 * s {
            assert(x * (x + q) <= x * (2 * s - 1));
            assert(x * x + n - r <= 2 * s * x - x);
            assert((x - s) * (x - s) < s * s - n + (r - x + 1));
        }
    }
}

proof fn lemma_newton_descends(n: int, x: int, s: int)
    requires
        x >= s + 1, s >= 0, n >= 0, n < (s + 1) * (s + 1),
    ensures
        (x + n / x) / 2 < x,
{
    lemma_fundamental_div_mod(n, x);
    lemma_mod_bound(n, x);
    let q = n / x;
    let r = n % x;
    assert(q <= x - 1) by (nonlinear_arith)
        requires n == x * q + r, 0 <= r < x, x >= s + 1, s >= 0, n < (s + 1) * (s + 1),
    {
        if q >= x {
            assert(x * q >= x * x);
            assert(x * x >= (s + 1) * (s + 1));
        }
    }
}

/// The floor square root exists and is unique (for `n >= 0`).
proof fn lemma_floor_sqrt_exists(n: int) -> (s: int)
    requires n >= 0,
    ensures is_floor_sqrt(n, s),
    decreases n,
{
    if n == 0 {
        assert(is_floor_sqrt(0, 0)) by (nonlinear_arith);
        0
    } else {
        let t = lemma_floor_sqrt_exists(n - 1);
        assert(t * t <= n);
        if (t + 1) * (t + 1) <= n {
            assert((t + 1) * (t + 1) == n) by (nonlinear_arith)
                requires (t + 1) * (t + 1) <= n, n - 1 < (t + 1) * (t + 1);
            assert(n < (t + 2) * (t + 2)) by (nonlinear_arith)
                requires (t + 1) * (t + 1) == n, t >= 0;
            t + 1
        } else {
            t
        }
    }
}

pub proof fn lemma_floor_sqrt_unique(n: int, a: int, b: int)
    requires is_floor_sqrt(n, a), is_floor_sqrt(n, b),
    ensures a == b,
{
    if a < b {
        assert((a + 1) * (a + 1) <= b * b) by (nonlinear_arith) requires a + 1 <= b, a >= 0;
    } else if b < a {
        assert((b + 1) * (b + 1) <= a * a) by (nonlinear_arith) requires b + 1 <= a, b >= 0;
    }
}

/// Integer square root (floor); `0` for `n <= 0`.
pub fn isqrt_i32(n: i32) -> (r: i32)
    ensures
        n <= 0 ==> r == 0,
        n > 0 ==> is_floor_sqrt(n as int, r as int),
{
    if n <= 0 {
        return 0;
    }
    let n = n as u32;
    let ghost s = lemma_floor_sqrt_exists(n as int);
    let mut x: u32 = n;
    let mut y: u32 = (x + 1) / 2;
    proof {
        assert(y == (x + n / x) / 2) by {
            assert(n / n == 1) by (nonlinear_arith) requires n >= 1;
        }
        assert(s <= n) by (nonlinear_arith) requires s * s <= n, s >= 0, n >= 1;
        lemma_newton_not_below(n as int, x as int, s);
    }
    while y < x
        invariant
            n >= 1, n <= 0x7fff_ffff,
            is_floor_sqrt(n as int, s),
            1 <= x <= n,
            x >= s,
            y == (x + n / x) / 2,
            y >= s,
        decreases x,
    {
        x = y;
        proof {
            assert(x >= 1) by {
                if x == 0 {
                    assert(s == 0);
                    assert(false) by (nonlinear_arith) requires (s + 1) * (s + 1) > n, s == 0, n >= 1;
                }
            }
            assert(n / x <= n) by (nonlinear_arith) requires x >= 1, n >= 0;
        }
        y = (x + n / x) / 2;
        proof {
            lemma_newton_not_below(n as int, x as int, s);
        }
    }
    proof {
        if x > s {
            lemma_newton_descends(n as int, x as int, s);
        }
    }
    x as i32
}

/// Largest coordinate distance between the two ends of a line that [`BresenhamLine`] accepts.
pub const LINE_SPAN_MAX: i32 = 0x3FFF_FFFF;

pub open spec fn abs_int(v: int) -> int { if v < 0 { -v } else { v } }

/// Both ends of a line are close enough that the error term stays within `i32`.
pub open spec fn line_span_ok(a: Vec2i, b: Vec2i) -> bool {
    abs_int(b.x - a.x) <= LINE_SPAN_MAX && abs_int(b.y - a.y) <= LINE_SPAN_MAX
}

/// Two points are equal or differ by one step in x, y, or both (king move).
pub open spec fn king_adjacent(p: Vec2i, q: Vec2i) -> bool {
    abs_int(q.x - p.x) <= 1 && abs_int(q.y - p.y) <= 1
}

/// Every step of `pts` moves at most one cell per axis and never away from `b`.
pub open spec fn steps_toward(pts: Seq<Vec2i>, b: Vec2i) -> bool {
    forall|i: int| 0 <= i < pts.len() - 1 ==> {
        &&& #[trigger] king_adjacent(pts[i], pts[i + 1])
        &&& pts[i] != pts[i + 1]
        &&& abs_int(b.x - pts[i + 1].x) <= abs_int(b.x - pts[i].x)
        &&& abs_int(b.y - pts[i + 1].y) <= abs_int(b.y - pts[i].y)
    }
}

/// The cell after `p` on the line from `s` to `t`. With `a`, `b` the x and y spans of the line
/// and `e = a - b + b·|t.x - p.x| - a·|t.y - p.y|` its error term at `p`, the line steps in x when
/// `2e ≥ -b` and in y when `2e ≤ a` (both for a diagonal step), each toward `t`.
pub open spec fn line_step(s: Vec2i, t: Vec2i, p: Vec2i) -> Vec2i {
    let a = abs_int(t.x - s.x);
    let b = abs_int(t.y - s.y);
    let e = a - b + b * abs_int(t.x - p.x) - a * abs_int(t.y - p.y);
    Vec2i {
        x: if 2 * e >= -b { (p.x + (if s.x < t.x { 1int } else { -1int })) as i32 } else { p.x },
        y: if 2 * e <= a { (p.y + (if s.y < t.y { 1int } else { -1int })) as i32 } else { p.y },
    }
}

/// At most `n` cells of the line from `s` to `t`, starting at `p` and stopping after `t`.
pub open spec fn line_from(s: Vec2i, t: Vec2i, p: Vec2i, n: nat) -> Seq<Vec2i>
    decreases n,
{
    if n == 0 {
        Seq::empty()
    } else if p == t {
        seq![p]
    } else {
        seq![p] + line_from(s, t, line_step(s, t, p), (n - 1) as nat)
    }
}

/// The cells of the line from `s` to `t`, both ends included.
pub open spec fn line_points(s: Vec2i, t: Vec2i) -> Seq<Vec2i> {
    line_from(s, t, s, (abs_int(t.x - s.x) + abs_int(t.y - s.y) + 1) as nat)
}

/// `p` is a cell the line from `s` to `t` can reach: between `s` and `t` on both axes, with the
/// error term in the range the stepping keeps.
pub open spec fn on_line_course(s: Vec2i, t: Vec2i, p: Vec2i) -> bool {
    let a = abs_int(t.x - s.x);
    let b = abs_int(t.y - s.y);
    let rx = abs_int(t.x - p.x);
    let ry = abs_int(t.y - p.y);
    let e = a - b + b * rx - a * ry;
    &&& rx <= a
    &&& ry <= b
    &&& -(b + b) <= e <= a + a
    &&& (rx > 0 ==> (s.x < t.x <==> p.x < t.x))
    &&& (ry > 0 ==> (s.y < t.y <==> p.y < t.y))
}

/// Cells still to visit from `p`, counting `p`.
pub open spec fn line_remaining(t: Vec2i, p: Vec2i) -> nat {
    (abs_int(t.x - p.x) + abs_int(t.y - p.y) + 1) as nat
}

/// A step from a reachable cell other than `t` reaches a neighbouring reachable cell nearer `t`.
pub proof fn lemma_line_step(s: Vec2i, t: Vec2i, p: Vec2i)
    requires on_line_course(s, t, p), p != t,
    ensures
        on_line_course(s, t, line_step(s, t, p)),
        line_remaining(t, line_step(s, t, p)) < line_remaining(t, p),
        king_adjacent(p, line_step(s, t, p)),
        line_step(s, t, p) != p,
        abs_int(t.x - line_step(s, t, p).x) <= abs_int(t.x - p.x),
        abs_int(t.y - line_step(s, t, p).y) <= abs_int(t.y - p.y),
{
    let a = abs_int(t.x - s.x);
    let b = abs_int(t.y - s.y);
    let rx = abs_int(t.x - p.x);
    let ry = abs_int(t.y - p.y);
    let e = a - b + b * rx - a * ry;
    let step_x = 2 * e >= -b;
    let step_y = 2 * e <= a;
    assert(rx > 0 || ry > 0);
    lemma_step_stays_in_box(a, b, rx, ry, e, step_x, step_y);
    let q = line_step(s, t, p);
    let nrx = abs_int(t.x - q.x);
    let nry = abs_int(t.y - q.y);
    assert(nrx == if step_x { rx - 1 } else { rx });
    assert(nry == if step_y { ry - 1 } else { ry });
    let ne = a - b + b * nrx - a * nry;
    assert(ne == e + (if step_x { -b } else { 0 }) + (if step_y { a } else { 0 })) by (nonlinear_arith)
        requires
            e == a - b + b * rx - a * ry,
            ne == a - b + b * nrx - a * nry,
            nrx == if step_x { rx - 1 } else { rx },
            nry == if step_y { ry - 1 } else { ry };
}

/// Any budget of at least the remaining cells gives the same line.
pub proof fn lemma_line_fuel(s: Vec2i, t: Vec2i, p: Vec2i, n: nat, m: nat)
    requires on_line_course(s, t, p), n >= line_remaining(t, p), m >= line_remaining(t, p),
    ensures line_from(s, t, p, n) == line_from(s, t, p, m),
    decreases n,
{
    if p != t {
        lemma_line_step(s, t, p);
        lemma_line_fuel(s, t, line_step(s, t, p), (n - 1) as nat, (m - 1) as nat);
    }
}

/// Along the line from `s` to `t` the error term at `p` keeps every step moving along the longer
/// axis: with `a = |t.x - s.x| ≥ b = |t.y - s.y|` it always steps in x, otherwise always in y.
pub open spec fn major_axis_ok(s: Vec2i, t: Vec2i, p: Vec2i) -> bool {
    let a = abs_int(t.x - s.x);
    let b = abs_int(t.y - s.y);
    let e = a - b + b * abs_int(t.x - p.x) - a * abs_int(t.y - p.y);
    &&& a >= b ==> 2 * e >= -b
    &&& b >= a ==> 2 * e <= a
}

/// The rest of the line from a reachable `p` has one cell per remaining step along the longer
/// axis, plus `p` itself.
pub proof fn lemma_line_len(s: Vec2i, t: Vec2i, p: Vec2i, n: nat)
    requires on_line_course(s, t, p), major_axis_ok(s, t, p), n >= line_remaining(t, p),
    ensures
        line_from(s, t, p, n).len() == (if abs_int(t.x - s.x) >= abs_int(t.y - s.y) { abs_int(t.x - p.x) }
            else { abs_int(t.y - p.y) }) + 1,
    decreases n,
{
    let a = abs_int(t.x - s.x);
    let b = abs_int(t.y - s.y);
    let rx = abs_int(t.x - p.x);
    let ry = abs_int(t.y - p.y);
    let e = a - b + b * rx - a * ry;
    if p == t {
        assert(rx == 0 && ry == 0);
    } else {
        assert(rx > 0 || ry > 0);
        let step_x = 2 * e >= -b;
        let step_y = 2 * e <= a;
        lemma_step_stays_in_box(a, b, rx, ry, e, step_x, step_y);
        lemma_line_step(s, t, p);
        let q = line_step(s, t, p);
        let nrx = abs_int(t.x - q.x);
        let nry = abs_int(t.y - q.y);
        assert(nrx == if step_x { rx - 1 } else { rx });
        assert(nry == if step_y { ry - 1 } else { ry });
        let ne = a - b + b * nrx - a * nry;
        assert(ne == e + (if step_x { -b } else { 0 }) + (if step_y { a } else { 0 })) by (nonlinear_arith)
            requires
                e == a - b + b * rx - a * ry,
                ne == a - b + b * nrx - a * nry,
                nrx == if step_x { rx - 1 } else { rx },
                nry == if step_y { ry - 1 } else { ry };
        assert(major_axis_ok(s, t, q));
        lemma_line_len(s, t, q, (n - 1) as nat);
    }
}

/// The whole line from `s` to `t` has one cell per step along the longer axis, plus one.
pub proof fn lemma_line_points_len(s: Vec2i, t: Vec2i)
    ensures
        line_points(s, t).len() == (if abs_int(t.x - s.x) >= abs_int(t.y - s.y) { abs_int(t.x - s.x) }
            else { abs_int(t.y - s.y) }) + 1,
{
    let a = abs_int(t.x - s.x);
    let b = abs_int(t.y - s.y);
    assert(a - b + b * a - a * b == a - b) by (nonlinear_arith);
    lemma_line_len(s, t, s, (a + b + 1) as nat);
}

/// Iterator over the cells of a line from one end to the other, both ends included.
pub struct BresenhamLine {
    x0: i32,
    y0: i32,
    x1: i32,
    y1: i32,
    dx: i32,
    dy: i32,
    sx: i32,
    sy: i32,
    err: i32,
    finished: bool,
    origin: Ghost<Vec2i>,
}

impl BresenhamLine {
    /// The next point that [`Self::next`] hands out.
    pub closed spec fn current(self) -> Vec2i {
        Vec2i { x: self.x0, y: self.y0 }
    }

    /// The last point of the line.
    pub closed spec fn target(self) -> Vec2i {
        Vec2i { x: self.x1, y: self.y1 }
    }

    pub closed spec fn is_finished(self) -> bool {
        self.finished
    }

    /// Steps left before the end point: x distance plus y distance.
    pub closed spec fn remaining(self) -> nat {
        if self.finished {
            0
        } else {
            (abs_int(self.x1 - self.x0) + abs_int(self.y1 - self.y0) + 1) as nat
        }
    }

    /// The cells [`Self::next`] still hands out, in order.
    pub closed spec fn rest(self) -> Seq<Vec2i> {
        if self.finished {
            Seq::empty()
        } else {
            line_from(self.origin@, self.target(), self.current(), self.remaining())
        }
    }

    pub closed spec fn wf(self) -> bool {
        let a = self.dx as int;
        let b = -(self.dy as int);
        let rx = abs_int(self.x1 - self.x0);
        let ry = abs_int(self.y1 - self.y0);
        &&& 0 <= a <= LINE_SPAN_MAX
        &&& 0 <= b <= LINE_SPAN_MAX
        &&& 0 <= rx <= a
        &&& 0 <= ry <= b
        &&& self.err == a - b + b * rx - a * ry
        &&& -(b + b) <= self.err <= a + a
        &&& (self.sx == 1 || self.sx == -1)
        &&& (self.sy == 1 || self.sy == -1)
        &&& (rx > 0 ==> (self.sx == 1 <==> self.x0 < self.x1))
        &&& (ry > 0 ==> (self.sy == 1 <==> self.y0 < self.y1))
        &&& a == abs_int(self.x1 - self.origin@.x)
        &&& b == abs_int(self.y1 - self.origin@.y)
        &&& self.sx == (if self.origin@.x < self.x1 { 1int } else { -1int })
        &&& self.sy == (if self.origin@.y < self.y1 { 1int } else { -1int })
    }

    fn new(x0: i32, y0: i32, x1: i32, y1: i32) -> (l: Self)
        requires
            line_span_ok(Vec2i { x: x0, y: y0 }, Vec2i { x: x1, y: y1 }),
        ensures
            l.wf(),
            !l.is_finished(),
            l.current() == (Vec2i { x: x0, y: y0 }),
            l.target() == (Vec2i { x: x1, y: y1 }),
            l.rest() == line_points(Vec2i { x: x0, y: y0 }, Vec2i { x: x1, y: y1 }),
    {
        let dx = if x1 >= x0 { x1 - x0 } else { x0 - x1 };
        let ady = if y1 >= y0 { y1 - y0 } else { y0 - y1 };
        let dy = -ady;
        let sx = if x0 < x1 { 1 } else { -1 };
        let sy = if y0 < y1 { 1 } else { -1 };
        let err = dx + dy;
        proof {
            let a = dx as int;
            let b = ady as int;
            assert(err == a - b + b * a - a * b) by (nonlinear_arith) requires err == a - b;
        }
        BresenhamLine { x0, y0, x1, y1, dx, dy, sx, sy, err, finished: false, origin: Ghost(Vec2i { x: x0, y: y0 }) }
    }

    /// Hands out the current point and advances one step toward the end.
    pub fn next(&mut self) -> (r: Option<Vec2i>)
        requires old(self).wf(),
        ensures
            final(self).wf(),
            final(self).target() == old(self).target(),
            old(self).is_finished() ==> r is None && final(self).is_finished(),
            old(self).rest() == (match r { Some(p) => seq![p] + final(self).rest(), None => Seq::<Vec2i>::empty() }),
            !old(self).is_finished() ==> {
                &&& r == Some(old(self).current())
                &&& final(self).remaining() < old(self).remaining()
                &&& (old(self).current() == old(self).target() ==> final(self).is_finished())
                &&& (old(self).current() != old(self).target() ==> {
                    let p = old(self).current();
                    let q = final(self).current();
                    let t = old(self).target();
                    &&& !final(self).is_finished()
                    &&& king_adjacent(p, q)
                    &&& p != q
                    &&& abs_int(t.x - q.x) <= abs_int(t.x - p.x)
                    &&& abs_int(t.y - q.y) <= abs_int(t.y - p.y)
                })
            },
    {
        if self.finished {
            return None;
        }
        let out = Vec2i::new(self.x0, self.y0);
        if self.x0 == self.x1 && self.y0 == self.y1 {
            self.finished = true;
            proof {
                assert(old(self).rest() =~= seq![out]);
            }
            return Some(out);
        }
        let ghost before = *self;
        let ghost a = self.dx as int;
        let ghost b = -(self.dy as int);
        let ghost rx = abs_int(self.x1 - self.x0);
        let ghost ry = abs_int(self.y1 - self.y0);
        let ghost e = self.err as int;
        let e2 = self.err as i64 * 2;
        let step_x = e2 >= self.dy as i64;
        let step_y = e2 <= self.dx as i64;
        proof {
            lemma_step_stays_in_box(a, b, rx, ry, e, step_x, step_y);
        }
        if step_x {
            self.err = self.err + self.dy;
            self.x0 = self.x0 + self.sx;
        }
        if step_y {
            self.err = self.err + self.dx;
            self.y0 = self.y0 + self.sy;
        }
        proof {
            let nrx = abs_int(self.x1 - self.x0);
            let nry = abs_int(self.y1 - self.y0);
            assert(nrx == if step_x { rx - 1 } else { rx });
            assert(nry == if step_y { ry - 1 } else { ry });
            assert(self.err == a - b + b * nrx - a * nry) by (nonlinear_arith)
                requires
                    e == a - b + b * rx - a * ry,
                    self.err == e + (if step_x { -b } else { 0 }) + (if step_y { a } else { 0 }),
                    nrx == if step_x { rx - 1 } else { rx },
                    nry == if step_y { ry - 1 } else { ry };
            let s0 = before.origin@;
            let t = before.target();
            assert(on_line_course(s0, t, out));
            lemma_line_step(s0, t, out);
            assert(self.current() == line_step(s0, t, out));
            lemma_line_fuel(s0, t, self.current(), self.remaining(), (before.remaining() - 1) as nat);
            assert(before.rest() =~= seq![out] + self.rest());
        }
        Some(out)
    }

    /// Lower and upper bound on the number of points still to come.
    pub fn size_hint(&self) -> (r: (usize, Option<usize>))
        requires self.wf(),
        ensures
            self.is_finished() ==> r == (0usize, Some(0usize)),
            !self.is_finished() ==> r.0 == 1 && r.1 == Some(self.remaining() as usize),
    {
        if self.finished {
            return (0, Some(0));
        }
        let ax = if self.x1 >= self.x0 { (self.x1 - self.x0) as usize } else { (self.x0 - self.x1) as usize };
        let ay = if self.y1 >= self.y0 { (self.y1 - self.y0) as usize } else { (self.y0 - self.y1) as usize };
        (1, Some(ax + ay + 1))
    }
}

/// One step keeps the remaining distances in range and moves at least one axis.
proof fn lemma_step_stays_in_box(a: int, b: int, rx: int, ry: int, e: int, step_x: bool, step_y: bool)
    requires
        0 <= rx <= a, 0 <= ry <= b,
        rx > 0 || ry > 0,
        e == a - b + b * rx - a * ry,
        step_x == (2 * e >= -b),
        step_y == (2 * e <= a),
    ensures
        step_x ==> rx > 0,
        step_y ==> ry > 0,
        step_x || step_y,
{
    if rx == 0 {
        assert(!step_x) by (nonlinear_arith)
            requires rx == 0, ry > 0, 0 <= ry <= b, a >= 0, e == a - b + b * rx - a * ry, step_x == (2 * e >= -b),
        {
            assert(a * ry >= a);
        }
    }
    if ry == 0 {
        assert(!step_y) by (nonlinear_arith)
            requires ry == 0, rx > 0, 0 <= rx <= a, b >= 0, e == a - b + b * rx - a * ry, step_y == (2 * e <= a),
        {
            assert(b * rx >= b);
        }
    }
}


/// All grid cells on the line from `a` to `b` inclusive, in order from `a` toward `b`.
pub fn bresenham_line(a: Vec2i, b: Vec2i) -> (l: BresenhamLine)
    requires line_span_ok(a, b),
    ensures
        l.wf(),
        !l.is_finished(),
        l.current() == a,
        l.target() == b,
        l.rest() == line_points(a, b),
{
    BresenhamLine::new(a.x, a.y, b.x, b.y)
}

/// The points of [`bresenham_line`] collected in order.
pub fn bresenham_points(a: Vec2i, b: Vec2i) -> (pts: Vec<Vec2i>)
    requires line_span_ok(a, b),
    ensures
        pts@ == line_points(a, b),
        pts@.len() >= 1,
        pts@[0] == a,
        pts@.last() == b,
        steps_toward(pts@, b),
        pts@.len() <= abs_int(b.x - a.x) + abs_int(b.y - a.y) + 1,
        pts@.len() == (if abs_int(b.x - a.x) >= abs_int(b.y - a.y) { abs_int(b.x - a.x) } else { abs_int(b.y - a.y) }) + 1,
{
    proof { lemma_line_points_len(a, b); }
    let mut line = bresenham_line(a, b);
    let mut pts: Vec<Vec2i> = Vec::new();
    let ghost r0 = line.remaining();
    loop
        invariant
            line.wf(),
            line.target() == b,
            r0 == abs_int(b.x - a.x) + abs_int(b.y - a.y) + 1,
            pts@.len() + line.remaining() <= r0,
            steps_toward(pts@, b),
            pts@.len() == 0 ==> !line.is_finished() && line.current() == a,
            pts@.len() > 0 ==> pts@[0] == a,
            pts@.len() > 0 && !line.is_finished() ==> {
                let p = pts@.last();
                let q = line.current();
                &&& king_adjacent(p, q)
                &&& p != q
                &&& abs_int(b.x - q.x) <= abs_int(b.x - p.x)
                &&& abs_int(b.y - q.y) <= abs_int(b.y - p.y)
            },
            line.is_finished() ==> pts@.len() > 0 && pts@.last() == b,
            pts@ + line.rest() == line_points(a, b),
        ensures
            pts@ == line_points(a, b),
            pts@.len() > 0 && pts@.last() == b && pts@[0] == a,
            steps_toward(pts@, b),
            pts@.len() <= r0,
        decreases line.remaining(),
    {
        let ghost before = line;
        match line.next() {
            Some(p) => {
                let ghost old_pts = pts@;
                pts.push(p);
                proof {
                    assert(pts@ + line.rest() =~= old_pts + (seq![p] + line.rest()));
                    assert forall|i: int| 0 <= i < pts@.len() - 1 implies {
                        &&& #[trigger] king_adjacent(pts@[i], pts@[i + 1])
                        &&& pts@[i] != pts@[i + 1]
                        &&& abs_int(b.x - pts@[i + 1].x) <= abs_int(b.x - pts@[i].x)
                        &&& abs_int(b.y - pts@[i + 1].y) <= abs_int(b.y - pts@[i].y)
                    } by {
                        if i < old_pts.len() - 1 {
                            assert(pts@[i] == old_pts[i] && pts@[i + 1] == old_pts[i + 1]);
                        }
                    }
                }
            }
            None => {
                proof { assert(pts@ =~= pts@ + line.rest()); }
                break;
            }
        }
    }
    pts
}

/// Visit every cell on the line from `a` to `b` inclusive, in order. The visitor (in whatever
/// state earlier visits left it) must accept each cell of the line.
pub fn for_each_bresenham_line<F: FnMut(Vec2i)>(a: Vec2i, b: Vec2i, f: F)
    requires
        line_span_ok(a, b),
        forall|g: F, p: Vec2i| line_points(a, b).contains(p) ==> call_requires(g, (p,)),
{
    let mut f = f;
    let mut line = bresenham_line(a, b);
    loop
        invariant
            line.wf(),
            forall|g: F, p: Vec2i| line.rest().contains(p) ==> call_requires(g, (p,)),
        decreases line.remaining(),
    {
        let ghost before = line.rest();
        match line.next() {
            Some(p) => {
                proof {
                    assert(before[0] == p);
                    assert forall|g: F, q: Vec2i| line.rest().contains(q) implies call_requires(g, (q,)) by {
                        let i = choose|i: int| 0 <= i < line.rest().len() && line.rest()[i] == q;
                        assert(before[i + 1] == q);
                    }
                }
                f(p);
            }
            None => {
                break;
            }
        }
    }
}

/// Every cell of a line lies between its ends on both axes.
pub proof fn lemma_points_between(pts: Seq<Vec2i>, a: Vec2i, b: Vec2i, i: int)
    requires pts.len() >= 1, pts[0] == a, steps_toward(pts, b), 0 <= i < pts.len(),
    ensures
        abs_int(pts[i].x - a.x) + abs_int(pts[i].x - b.x) == abs_int(b.x - a.x),
        abs_int(pts[i].y - a.y) + abs_int(pts[i].y - b.y) == abs_int(b.y - a.y),
    decreases i,
{
    if i > 0 {
        lemma_points_between(pts, a, b, i - 1);
        let k = i - 1;
        assert(king_adjacent(pts[k], pts[k + 1]));
        assert(pts[k + 1] == pts[i]);
    }
}

/// The cells of a line are pairwise distinct.
pub proof fn lemma_points_distinct(pts: Seq<Vec2i>, b: Vec2i, i: int, j: int)
    requires steps_toward(pts, b), 0 <= i < j < pts.len(),
    ensures
        pts[i] != pts[j],
        abs_int(b.x - pts[j].x) + abs_int(b.y - pts[j].y) < abs_int(b.x - pts[i].x) + abs_int(b.y - pts[i].y),
    decreases j - i,
{
    let k = j - 1;
    assert(king_adjacent(pts[k], pts[k + 1]));
    assert(pts[k + 1] == pts[j]);
    if j - 1 > i {
        lemma_points_distinct(pts, b, i, j - 1);
    }
}

} // verus!
