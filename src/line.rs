use vstd::arithmetic::div_mod::lemma_fundamental_div_mod_converse;
use vstd::prelude::*;

verus! {

pub open spec fn abs(v: int) -> int {
    if v < 0 {
        -v
    } else {
        v
    }
}

/// `n` steps from `from` in the direction of `to`; no move when they are equal.
pub open spec fn toward(from: int, to: int, n: int) -> int {
    if to > from {
        from + n
    } else if to < from {
        from - n
    } else {
        from
    }
}

/// The line from `a` to `b` advances along x: it rises less than it runs, or is a point.
pub open spec fn is_shallow(a: (i32, i32), b: (i32, i32)) -> bool {
    let dx = abs(b.0 - a.0);
    let dy = abs(b.1 - a.1);
    dy < dx || (dx == 0 && dy == 0)
}

/// How many points the walk from `a` towards `b` yields: one per step along the major
/// axis, `b` itself excluded.
pub open spec fn line_len(a: (i32, i32), b: (i32, i32)) -> int {
    if is_shallow(a, b) {
        abs(b.0 - a.0)
    } else {
        abs(b.1 - a.1)
    }
}

/// Point number `k` of the walk: `k` steps along the major axis, and along the minor axis
/// the nearest whole step to the exact line, halves rounded down.
pub open spec fn line_point(a: (i32, i32), b: (i32, i32), k: int) -> (int, int) {
    let dx = abs(b.0 - a.0);
    let dy = abs(b.1 - a.1);
    if is_shallow(a, b) {
        (toward(a.0 as int, b.0 as int, k), toward(a.1 as int, b.1 as int, (2 * dy * k + dx) / (2 * dx)))
    } else {
        (toward(a.0 as int, b.0 as int, (2 * dx * k + dy) / (2 * dy)), toward(a.1 as int, b.1 as int, k))
    }
}

/// Slope of the line as whole rise over run, truncated towards zero; the rise for a
/// vertical line.
pub open spec fn slope(a: (i32, i32), b: (i32, i32)) -> int {
    let ddx = b.0 - a.0;
    let ddy = b.1 - a.1;
    if ddx == 0 {
        ddy
    } else if (ddx > 0 && ddy >= 0) || (ddx < 0 && ddy <= 0) {
        abs(ddy) / abs(ddx)
    } else {
        -(abs(ddy) / abs(ddx))
    }
}

/// Walks the lattice points from one point towards another (Bresenham).
pub struct Line2d {
    point_a: (i32, i32),
    point_b: (i32, i32),
    x: i64,
    y: i64,
    p: i64,
    dx: i64,
    dy: i64,
    m: i64,
    x1: i64,
    x2: i64,
    y1: i64,
    y2: i64,
}

/// With decision variable `p` kept in `[2 minor - 2 major, 2 minor)` after `k` major steps
/// and `j` minor ones, `j` is the rounded exact position and never outruns `k`.
proof fn lemma_minor_steps(major: int, minor: int, k: int, j: int, p: int)
    requires
        0 < major,
        0 <= minor <= major,
        0 <= k,
        0 <= j,
        2 * minor - 2 * major <= p < 2 * minor,
        p == 2 * minor - major + 2 * minor * k - 2 * major * j,
    ensures
        j <= k,
        k <= major ==> j <= minor,
        j == (2 * minor * k + major) / (2 * major),
{
    assert(2 * major * j <= 2 * minor * k + major);
    assert(j <= k) by (nonlinear_arith)
        requires
            0 < major,
            minor <= major,
            0 <= k,
            2 * major * j <= 2 * minor * k + major,
    ;
    if k <= major {
        assert(j <= minor) by (nonlinear_arith)
            requires
                0 < major,
                0 <= minor,
                0 <= k <= major,
                2 * major * j <= 2 * minor * k + major,
        ;
    }
    let r = 2 * major - 2 * minor + p;
    assert(2 * minor * k + major == (2 * major) * j + r) by (nonlinear_arith)
        requires
            p == 2 * minor - major + 2 * minor * k - 2 * major * j,
            r == 2 * major - 2 * minor + p,
    ;
    lemma_fundamental_div_mod_converse(2 * minor * k + major, 2 * major, j, r);
}

proof fn lemma_step_relation(major: int, minor: int, k: int, j: int, p: int, moved: bool)
    requires
        p == 2 * minor - major + 2 * minor * k - 2 * major * j,
    ensures
        moved ==> p + 2 * minor - 2 * major == 2 * minor - major + 2 * minor * (k + 1) - 2
            * major * (j + 1),
        !moved ==> p + 2 * minor == 2 * minor - major + 2 * minor * (k + 1) - 2 * major * j,
{
    assert(2 * minor * (k + 1) == 2 * minor * k + 2 * minor) by (nonlinear_arith);
    assert(2 * major * (j + 1) == 2 * major * j + 2 * major) by (nonlinear_arith);
}

impl Line2d {
    pub closed spec fn ends(self) -> ((i32, i32), (i32, i32)) {
        (self.point_a, self.point_b)
    }

    /// Points yielded so far, or one more once the walk has run out.
    pub closed spec fn emitted(self) -> int {
        if is_shallow(self.point_a, self.point_b) {
            abs(self.x - self.x1)
        } else {
            abs(self.y - self.y1)
        }
    }

    pub closed spec fn wf(self) -> bool {
        let a = self.point_a;
        let b = self.point_b;
        let kx = abs(self.x - self.x1);
        let ky = abs(self.y - self.y1);
        &&& self.x1 == a.0 && self.y1 == a.1 && self.x2 == b.0 && self.y2 == b.1
        &&& self.dx == abs(b.0 - a.0) && self.dy == abs(b.1 - a.1)
        &&& self.m == slope(a, b)
        &&& if is_shallow(a, b) {
            if self.dx == 0 {
                self.x == self.x1 && self.y == self.y1
            } else {
                &&& (self.x1 < self.x2 ==> self.x1 <= self.x <= self.x2 + 1)
                &&& (self.x1 > self.x2 ==> self.x2 - 1 <= self.x <= self.x1)
                &&& (self.y1 <= self.y2 ==> self.y >= self.y1)
                &&& (self.y1 > self.y2 ==> self.y <= self.y1)
                &&& 2 * self.dy - 2 * self.dx <= self.p < 2 * self.dy
                &&& self.p == 2 * self.dy - self.dx + 2 * self.dy * kx - 2 * self.dx * ky
            }
        } else {
            &&& (self.y1 < self.y2 ==> self.y1 <= self.y <= self.y2 + 1)
            &&& (self.y1 > self.y2 ==> self.y2 - 1 <= self.y <= self.y1)
            &&& (self.x1 <= self.x2 ==> self.x >= self.x1)
            &&& (self.x1 > self.x2 ==> self.x <= self.x1)
            &&& 2 * self.dx - 2 * self.dy <= self.p < 2 * self.dx
            &&& self.p == 2 * self.dx - self.dy + 2 * self.dx * ky - 2 * self.dy * kx
        }
    }

    /// A walk from `point_a` towards `point_b`.
    pub fn new(point_a: (i32, i32), point_b: (i32, i32)) -> (r: Self)
        ensures
            r.wf(),
            r.ends() == (point_a, point_b),
            r.emitted() == 0,
    {
        let (x1, x2, y1, y2) = (point_a.0 as i64, point_b.0 as i64, point_a.1 as i64, point_b.1 as i64);
        let ddx = x2 - x1;
        let ddy = y2 - y1;
        let adx: i64 = if ddx < 0 { -ddx } else { ddx };
        let ady: i64 = if ddy < 0 { -ddy } else { ddy };
        let m: i64 = if ddx == 0 {
            ddy
        } else {
            let q = (ady as u64 / adx as u64) as i64;
            if (ddx > 0 && ddy >= 0) || (ddx < 0 && ddy <= 0) {
                q
            } else {
                -q
            }
        };
        proof {
            if ddx != 0 {
                assert((ady as u64 / adx as u64) as int == ady as int / adx as int);
            }
        }
        let mut dx: i64 = 0;
        let mut dy: i64 = 0;
        let mut x: i64 = 0;
        let mut y: i64 = 0;
        let mut p: i64 = 0;
        if m > -1 && m < 1 {
            dy = ady;
            dx = adx;
            p = 2 * dy - dx;
            y = y1;
            x = x1;
        }
        if m <= -1 || m >= 1 {
            dy = ady;
            dx = adx;
            p = 2 * dx - dy;
            y = y1;
            x = x1;
        }
        let r = Self { point_a, point_b, x1, x2, y1, y2, dx, dy, x, y, p, m };
        proof {
            if ddx != 0 {
                vstd::arithmetic::div_mod::lemma_div_basics_4(ady as int, adx as int);
                vstd::arithmetic::div_mod::lemma_div_basics_5(ady as int, adx as int);
                if ady < adx {
                    vstd::arithmetic::div_mod::lemma_basic_div(ady as int, adx as int);
                } else {
                    vstd::arithmetic::div_mod::lemma_div_non_zero(ady as int, adx as int);
                }
            }
            assert(r.m == slope(point_a, point_b));
            assert(r.dx == abs(point_b.0 - point_a.0));
            if is_shallow(point_a, point_b) {
                assert(-1 < m < 1);
                assert(r.p == 2 * r.dy - r.dx + 2 * r.dy * 0 - 2 * r.dx * 0);
            } else {
                assert(m <= -1 || m >= 1);
                assert(r.p == 2 * r.dx - r.dy + 2 * r.dx * 0 - 2 * r.dy * 0);
            }
        }
        r
    }

    /// The next point of the walk: point number `emitted()` while fewer than
    /// `line_len` were yielded, `None` from then on.
    pub fn next(&mut self) -> (r: Option<(i32, i32)>)
        requires
            old(self).wf(),
        ensures
            final(self).wf(),
            final(self).ends() == old(self).ends(),
            ({
                let (a, b) = old(self).ends();
                let k = old(self).emitted();
                if k < line_len(a, b) {
                    &&& r.is_some()
                    &&& r.unwrap().0 as int == line_point(a, b, k).0
                    &&& r.unwrap().1 as int == line_point(a, b, k).1
                    &&& final(self).emitted() == k + 1
                } else {
                    &&& r.is_none()
                    &&& final(self).emitted() >= line_len(a, b)
                }
            }),
    {
        let ghost a = self.point_a;
        let ghost b = self.point_b;
        let ghost kx = abs(self.x - self.x1);
        let ghost ky = abs(self.y - self.y1);
        if self.m > -1 && self.m < 1 {
            proof {
                assert(is_shallow(a, b)) by {
                    if !is_shallow(a, b) {
                        let ddx = b.0 - a.0;
                        if ddx != 0 {
                            vstd::arithmetic::div_mod::lemma_div_non_zero(abs(b.1 - a.1), abs(ddx));
                        }
                    }
                }
            }
            let r_point = (self.x, self.y);
            if self.x1 > self.x2 {
                if self.x < self.x2 {
                    return None;
                }
                proof {
                    lemma_minor_steps(self.dx as int, self.dy as int, kx, ky, self.p as int);
                    lemma_step_relation(self.dx as int, self.dy as int, kx, ky, self.p as int, self.p >= 0);
                }
                self.x = self.x - 1;
                if self.p >= 0 {
                    self.y = if self.m >= 1 || self.y1 < self.y2 {
                        self.y + 1
                    } else {
                        self.y - 1
                    };
                    self.p = self.p + 2 * self.dy - 2 * self.dx;
                } else {
                    self.p = self.p + 2 * self.dy;
                }
                if self.x >= self.x2 {
                    return Some((r_point.0 as i32, r_point.1 as i32));
                }
            } else if self.x1 < self.x2 {
                if self.x > self.x2 {
                    return None;
                }
                proof {
                    lemma_minor_steps(self.dx as int, self.dy as int, kx, ky, self.p as int);
                    lemma_step_relation(self.dx as int, self.dy as int, kx, ky, self.p as int, self.p >= 0);
                }
                self.x = self.x + 1;
                if self.p >= 0 {
                    self.y = if self.m >= 1 || self.y1 < self.y2 {
                        self.y + 1
                    } else {
                        self.y - 1
                    };
                    self.p = self.p + 2 * self.dy - 2 * self.dx;
                } else {
                    self.p = self.p + 2 * self.dy;
                }
                if self.x <= self.x2 {
                    return Some((r_point.0 as i32, r_point.1 as i32));
                }
            }
            return None;
        }
        proof {
            assert(!is_shallow(a, b)) by {
                let ddx = b.0 - a.0;
                if ddx != 0 && is_shallow(a, b) {
                    vstd::arithmetic::div_mod::lemma_basic_div(abs(b.1 - a.1), abs(ddx));
                }
            }
            if self.dx > 0 {
                vstd::arithmetic::div_mod::lemma_div_non_zero(self.dy as int, self.dx as int);
            }
        }
        let r_point = (self.x, self.y);
        if self.y1 > self.y2 {
            if self.y < self.y2 {
                return None;
            }
            proof {
                lemma_minor_steps(self.dy as int, self.dx as int, ky, kx, self.p as int);
                lemma_step_relation(self.dy as int, self.dx as int, ky, kx, self.p as int, self.p >= 0);
            }
            self.y = self.y - 1;
            if self.p >= 0 {
                self.x = if self.m >= 1 {
                    self.x - 1
                } else {
                    self.x + 1
                };
                self.p = self.p + 2 * self.dx - 2 * self.dy;
            } else {
                self.p = self.p + 2 * self.dx;
            }
            if self.y >= self.y2 {
                return Some((r_point.0 as i32, r_point.1 as i32));
            }
        } else if self.y1 < self.y2 {
            if self.y > self.y2 {
                return None;
            }
            proof {
                lemma_minor_steps(self.dy as int, self.dx as int, ky, kx, self.p as int);
                lemma_step_relation(self.dy as int, self.dx as int, ky, kx, self.p as int, self.p >= 0);
            }
            self.y = self.y + 1;
            if self.p >= 0 {
                self.x = if self.m >= 1 {
                    self.x + 1
                } else {
                    self.x - 1
                };
                self.p = self.p + 2 * self.dx - 2 * self.dy;
            } else {
                self.p = self.p + 2 * self.dx;
            }
            if self.y <= self.y2 {
                return Some((r_point.0 as i32, r_point.1 as i32));
            }
        }
        None
    }
}

} // verus!
