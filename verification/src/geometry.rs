//! Triangles on an integer canvas: signed areas, truncating midpoints, and
//! one-level subdivision into a central hole and three corner triangles.

use vstd::prelude::*;

verus! {

/// Largest coordinate magnitude the geometry works with.  It is wide enough
/// for any canvas this renderer targets and keeps every determinant well
/// inside `i32`.
pub const MAX_COORD: i32 = 16384;

/// A vertex of a triangle, as a pair of integer pixel coordinates.
#[derive(Clone, Copy, PartialEq, Eq, Structural, Debug)]
pub struct Point {
    pub x: i32,
    pub y: i32,
}

/// A triangle given by its three vertices.  The vertex order fixes the sign
/// of the determinant used for the area; the area itself is its magnitude.
#[derive(Clone, Copy, PartialEq, Eq, Structural, Debug)]
pub struct Triangle {
    pub a: Point,
    pub b: Point,
    pub c: Point,
}

/// A point whose coordinates stay within `MAX_COORD` in magnitude.
pub open spec fn in_range(p: Point) -> bool {
    -(MAX_COORD as int) <= p.x <= MAX_COORD as int && -(MAX_COORD as int) <= p.y
        <= MAX_COORD as int
}

/// All three vertices lie within the coordinate range.
pub open spec fn tri_in_range(t: Triangle) -> bool {
    in_range(t.a) && in_range(t.b) && in_range(t.c)
}

/// Twice the signed area of a triangle: the shoelace sum
/// `ax (by - cy) + bx (cy - ay) + cx (ay - by)`.
pub open spec fn shoelace(t: Triangle) -> int {
    t.a.x * (t.b.y - t.c.y) + t.b.x * (t.c.y - t.a.y) + t.c.x * (t.a.y - t.b.y)
}

/// The (nonnegative) area of a triangle: the magnitude of half the shoelace
/// sum, with the halving truncated toward zero.
pub open spec fn spec_area(t: Triangle) -> int {
    vstd::math::abs(shoelace(t)) as int / 2
}

/// Division by two truncated toward zero, the semantics of `/ 2` on `i32`.
pub open spec fn div2_trunc(n: int) -> int {
    if n >= 0 {
        n / 2
    } else {
        -((-n) / 2)
    }
}

/// The midpoint of two points, each coordinate truncated toward zero.
pub open spec fn spec_midpoint(p: Point, q: Point) -> Point {
    Point { x: div2_trunc(p.x + q.x) as i32, y: div2_trunc(p.y + q.y) as i32 }
}

/// The central "hole" triangle of a subdivision: the three edge midpoints.
pub open spec fn spec_center(t: Triangle) -> Triangle {
    Triangle {
        a: spec_midpoint(t.a, t.b),
        b: spec_midpoint(t.a, t.c),
        c: spec_midpoint(t.b, t.c),
    }
}

/// The corner triangle kept at vertex `a` by a subdivision.
pub open spec fn spec_corner_a(t: Triangle) -> Triangle {
    Triangle { a: t.a, b: spec_midpoint(t.a, t.b), c: spec_midpoint(t.a, t.c) }
}

/// The corner triangle kept at vertex `b` by a subdivision.
pub open spec fn spec_corner_b(t: Triangle) -> Triangle {
    Triangle { a: t.b, b: spec_midpoint(t.a, t.b), c: spec_midpoint(t.b, t.c) }
}

/// The corner triangle kept at vertex `c` by a subdivision.
pub open spec fn spec_corner_c(t: Triangle) -> Triangle {
    Triangle { a: t.c, b: spec_midpoint(t.a, t.c), c: spec_midpoint(t.b, t.c) }
}

/// The area of a triangle: the magnitude of half the determinant
///
/// ```text
///     | ax ay 1 |
///     | bx by 1 |   halved and truncated toward zero.
///     | cx cy 1 |
/// ```
pub fn area(triangle: &Triangle) -> (r: i32)
    requires
        tri_in_range(*triangle),
    ensures
        r == spec_area(*triangle),
        r >= 0,
{
    let ax: i64 = triangle.a.x as i64;
    let ay: i64 = triangle.a.y as i64;
    let bx: i64 = triangle.b.x as i64;
    let by: i64 = triangle.b.y as i64;
    let cx: i64 = triangle.c.x as i64;
    let cy: i64 = triangle.c.y as i64;
    assert(-1073741824 <= ax * (by - cy) <= 1073741824) by (nonlinear_arith)
        requires
            -16384 <= ax <= 16384,
            -32768 <= by - cy <= 32768,
    ;
    assert(-1073741824 <= bx * (cy - ay) <= 1073741824) by (nonlinear_arith)
        requires
            -16384 <= bx <= 16384,
            -32768 <= cy - ay <= 32768,
    ;
    assert(-1073741824 <= cx * (ay - by) <= 1073741824) by (nonlinear_arith)
        requires
            -16384 <= cx <= 16384,
            -32768 <= ay - by <= 32768,
    ;
    let twice: i64 = ax * (by - cy) + bx * (cy - ay) + cx * (ay - by);
    let magnitude: i64 = if twice < 0 {
        -twice
    } else {
        twice
    };
    let half: i64 = magnitude / 2;
    half as i32
}

/// The midpoint of two points, each coordinate truncated toward zero.
pub fn midpoint(point_1: &Point, point_2: &Point) -> (r: Point)
    requires
        in_range(*point_1),
        in_range(*point_2),
    ensures
        r == spec_midpoint(*point_1, *point_2),
        in_range(r),
{
    let sx: i32 = point_1.x + point_2.x;
    let sy: i32 = point_1.y + point_2.y;
    let mid_x: i32 = if sx >= 0 {
        sx / 2
    } else {
        -((-sx) / 2)
    };
    let mid_y: i32 = if sy >= 0 {
        sy / 2
    } else {
        -((-sy) / 2)
    };
    Point { x: mid_x, y: mid_y }
}

/// One level of subdivision: the central hole triangle together with the
/// three corner triangles kept for the next generation, in the order of the
/// vertices they keep.
pub fn subdivide_triangle(triangle: &Triangle) -> (r: (Triangle, Vec<Triangle>))
    requires
        tri_in_range(*triangle),
    ensures
        r.0 == spec_center(*triangle),
        r.1@.len() == 3,
        r.1@[0] == spec_corner_a(*triangle),
        r.1@[1] == spec_corner_b(*triangle),
        r.1@[2] == spec_corner_c(*triangle),
        tri_in_range(r.0),
        tri_in_range(r.1@[0]),
        tri_in_range(r.1@[1]),
        tri_in_range(r.1@[2]),
{
    let a = triangle.a;
    let b = triangle.b;
    let c = triangle.c;
    let ab = midpoint(&a, &b);
    let ac = midpoint(&a, &c);
    let bc = midpoint(&b, &c);
    let center = Triangle { a: ab, b: ac, c: bc };
    let mut corners: Vec<Triangle> = Vec::new();
    corners.push(Triangle { a: a, b: ab, c: ac });
    corners.push(Triangle { a: b, b: ab, c: bc });
    corners.push(Triangle { a: c, b: ac, c: bc });
    (center, corners)
}

/// `r` is the integer square root of `n`, rounded down.
pub open spec fn is_sqrt_floor(n: int, r: int) -> bool {
    0 <= r && r * r <= n && n < (r + 1) * (r + 1)
}

/// The integer square root of `n`, rounded down.
pub open spec fn sqrt_floor(n: int) -> int {
    choose|r: int| is_sqrt_floor(n, r)
}

/// Any root satisfying `is_sqrt_floor` is the one `sqrt_floor` names.
pub proof fn lemma_sqrt_floor_unique(n: int, r: int)
    requires
        is_sqrt_floor(n, r),
    ensures
        sqrt_floor(n) == r,
{
    assert(exists|x: int| is_sqrt_floor(n, x));
    let s = sqrt_floor(n);
    assert(is_sqrt_floor(n, s));
    assert(s == r) by (nonlinear_arith)
        requires
            is_sqrt_floor(n, r),
            is_sqrt_floor(n, s),
    ;
}

/// The integer square root of `n`, rounded down, by bisection.
pub fn isqrt(n: u64) -> (r: u64)
    requires
        n < 0x4000_0000_0000_0000,
    ensures
        is_sqrt_floor(n as int, r as int),
        r == sqrt_floor(n as int),
{
    let mut lo: u64 = 0;
    let mut hi: u64 = 0x8000_0000;
    assert(n < hi * hi);
    while lo + 1 < hi
        invariant
            lo < hi <= 0x8000_0000,
            lo * lo <= n,
            n < hi * hi,
        decreases hi - lo,
    {
        let mid: u64 = lo + (hi - lo) / 2;
        assert(lo < mid < hi);
        assert(mid * mid < 0x8000_0000_0000_0000) by (nonlinear_arith)
            requires
                0 <= mid <= 0x8000_0000u64,
        ;
        let sq: u64 = mid * mid;
        if sq <= n {
            lo = mid;
        } else {
            hi = mid;
        }
    }
    proof {
        lemma_sqrt_floor_unique(n as int, lo as int);
    }
    lo
}


/// `x == floor((a - sqrt(e)) / q)`, stated with integers alone:
/// `q x <= a - sqrt(e) < q (x + 1)`, with the root eliminated by squaring.
pub open spec fn is_floor_sub_sqrt(a: int, e: int, q: int, x: int) -> bool {
    &&& a - q * x >= 0
    &&& (a - q * x) * (a - q * x) >= e
    &&& (a - q * x - q < 0 || (a - q * x - q) * (a - q * x - q) < e)
}

/// `x == floor((a + sqrt(e)) / q)`, stated with integers alone:
/// `q x <= a + sqrt(e) < q (x + 1)`, with the root eliminated by squaring.
pub open spec fn is_floor_add_sqrt(a: int, e: int, q: int, x: int) -> bool {
    &&& (q * x - a <= 0 || (q * x - a) * (q * x - a) <= e)
    &&& q * x + q - a > 0
    &&& (q * x + q - a) * (q * x + q - a) > e
}

/// A nonnegative integer whose square is at least `m`'s is at least `m`.
proof fn lemma_root_lower(x: int, m: int)
    by (nonlinear_arith)
    requires
        0 <= x,
        0 <= m,
        x * x >= m * m,
    ensures
        x >= m,
{
}

/// A nonnegative integer whose square is below `b`'s is below `b`.
proof fn lemma_root_upper(x: int, b: int)
    by (nonlinear_arith)
    requires
        0 <= x,
        0 <= b,
        x * x < b * b,
    ensures
        x < b,
{
}

/// `(a - m) / q` — or `(a - m - 1) / q` when `m` is not the exact root of
/// `e` — is the floor of `(a - sqrt(e)) / q`.
proof fn lemma_floor_sub_sqrt(a: int, e: int, q: int, m: int, x: int)
    requires
        q > 0,
        is_sqrt_floor(e, m),
        m * m == e ==> x == (a - m) / q && a - m >= 0,
        m * m != e ==> x == (a - m - 1) / q && a - m - 1 >= 0,
    ensures
        is_floor_sub_sqrt(a, e, q, x),
{
    if m * m == e {
        let d = a - m;
        vstd::arithmetic::div_mod::lemma_fundamental_div_mod(d, q);
        vstd::arithmetic::div_mod::lemma_mod_division_less_than_divisor(d, q);
        let r = d % q;
        assert(q * x == d - r);
        assert(a - q * x == m + r);
        assert((m + r) * (m + r) >= e) by (nonlinear_arith)
            requires
                e == m * m,
                r >= 0,
                m >= 0,
        ;
        if a - q * x - q >= 0 {
            assert(a - q * x - q <= m - 1);
            assert((a - q * x - q) * (a - q * x - q) < e) by (nonlinear_arith)
                requires
                    0 <= a - q * x - q <= m - 1,
                    e == m * m,
            ;
        }
    } else {
        let d = a - m - 1;
        vstd::arithmetic::div_mod::lemma_fundamental_div_mod(d, q);
        vstd::arithmetic::div_mod::lemma_mod_division_less_than_divisor(d, q);
        let r = d % q;
        assert(q * x == d - r);
        assert(a - q * x == m + 1 + r);
        assert((m + 1 + r) * (m + 1 + r) >= e) by (nonlinear_arith)
            requires
                e < (m + 1) * (m + 1),
                r >= 0,
                m >= 0,
        ;
        if a - q * x - q >= 0 {
            assert(a - q * x - q <= m);
            assert((a - q * x - q) * (a - q * x - q) < e) by (nonlinear_arith)
                requires
                    0 <= a - q * x - q <= m,
                    m * m < e,
            ;
        }
    }
}

/// `(a + m) / q` is the floor of `(a + sqrt(e)) / q`.
proof fn lemma_floor_add_sqrt(a: int, e: int, q: int, m: int, x: int)
    requires
        q > 0,
        is_sqrt_floor(e, m),
        x == (a + m) / q,
        a + m >= 0,
    ensures
        is_floor_add_sqrt(a, e, q, x),
{
    let d = a + m;
    vstd::arithmetic::div_mod::lemma_fundamental_div_mod(d, q);
    vstd::arithmetic::div_mod::lemma_mod_division_less_than_divisor(d, q);
    let r = d % q;
    assert(q * x == d - r);
    assert(q * x - a == m - r);
    if q * x - a > 0 {
        assert((q * x - a) * (q * x - a) <= e) by (nonlinear_arith)
            requires
                0 <= q * x - a <= m,
                m * m <= e,
        ;
    }
    assert(q * x + q - a >= m + 1);
    assert((q * x + q - a) * (q * x + q - a) > e) by (nonlinear_arith)
        requires
            q * x + q - a >= m + 1,
            m >= 0,
            e < (m + 1) * (m + 1),
    ;
}

/// The largest centered equilateral triangle on a `w` by `h` canvas, apex
/// pointing up, every vertex coordinate computed in full and truncated
/// once, at the end.  When the width constrains (`3 w^2 <= 4 h^2`) the
/// side is `w`: the base spans the canvas exactly and the apex and base
/// rows are `floor((2h -/+ sqrt(3 w^2)) / 4)` — the reals
/// `h/2 -/+ w sqrt(3)/4`, truncated.  When the height constrains, the
/// rise `side sqrt(3)/4` is exactly `h/2`, so the apex row is `0` and the
/// base row is `h`, and the base corners are
/// `floor((3w -/+ sqrt(12 h^2)) / 6)` — the reals `w/2 -/+ h/sqrt(3)`,
/// truncated.
pub open spec fn spec_max_centered(w: int, h: int) -> Triangle {
    if 3 * w * w > 4 * h * h {
        let m = sqrt_floor(12 * h * h);
        let blx = if m * m == 12 * h * h {
            (3 * w - m) / 6
        } else {
            (3 * w - m - 1) / 6
        };
        let brx = (3 * w + m) / 6;
        Triangle {
            a: Point { x: (w / 2) as i32, y: 0 },
            b: Point { x: blx as i32, y: h as i32 },
            c: Point { x: brx as i32, y: h as i32 },
        }
    } else {
        let k = sqrt_floor(3 * w * w);
        let ay = if k * k == 3 * w * w {
            (2 * h - k) / 4
        } else {
            (2 * h - k - 1) / 4
        };
        let by = (2 * h + k) / 4;
        Triangle {
            a: Point { x: (w / 2) as i32, y: ay as i32 },
            b: Point { x: 0, y: by as i32 },
            c: Point { x: w as i32, y: by as i32 },
        }
    }
}

/// The largest equilateral triangle centered on a canvas of the given
/// dimensions, apex pointing up.  Each vertex coordinate is the full
/// expression `center -/+ side term`, truncated once at the end; the
/// `is_floor_..._sqrt` clauses state exactly that.  The base spans the
/// width unless the height constrains (`3 w^2 > 4 h^2`), in which case
/// the base length is within one pixel of `h / (sqrt(3)/2)`; the triangle
/// lies within the canvas.
pub fn max_centered_eq_triangle(dims: (i32, i32)) -> (t: Triangle)
    requires
        2 <= dims.0 <= MAX_COORD,
        2 <= dims.1 <= MAX_COORD,
    ensures
        t == spec_max_centered(dims.0 as int, dims.1 as int),
        t.a.x == dims.0 / 2,
        3 * dims.0 * dims.0 <= 4 * dims.1 * dims.1 ==> t.b.x == 0 && t.c.x == dims.0 && t.c.x
            - t.b.x == dims.0 && t.b.y == t.c.y && is_floor_sub_sqrt(
            2 * dims.1,
            3 * dims.0 * dims.0,
            4,
            t.a.y as int,
        ) && is_floor_add_sqrt(2 * dims.1, 3 * dims.0 * dims.0, 4, t.b.y as int),
        3 * dims.0 * dims.0 > 4 * dims.1 * dims.1 ==> t.a.y == 0 && t.b.y == dims.1 && t.c.y
            == dims.1 && is_floor_sub_sqrt(3 * dims.0, 12 * dims.1 * dims.1, 6, t.b.x as int)
            && is_floor_add_sqrt(3 * dims.0, 12 * dims.1 * dims.1, 6, t.c.x as int) && -3 <= 3 * (
        t.c.x - t.b.x) - sqrt_floor(12 * dims.1 * dims.1) <= 3,
        0 <= t.a.x <= dims.0 && 0 <= t.a.y <= dims.1,
        0 <= t.b.x <= dims.0 && 0 <= t.b.y <= dims.1,
        0 <= t.c.x <= dims.0 && 0 <= t.c.y <= dims.1,
        tri_in_range(t),
{
    let w: i32 = dims.0;
    let h: i32 = dims.1;
    let cx: i32 = w / 2;
    let w64: u64 = w as u64;
    let h64: u64 = h as u64;
    assert(w64 * w64 <= 0x1000_0000 && h64 * h64 <= 0x1000_0000) by (nonlinear_arith)
        requires
            0 <= w64 <= 16384,
            0 <= h64 <= 16384,
    ;
    let ww: u64 = w64 * w64;
    let hh: u64 = h64 * h64;
    proof {
        assert(3 * (w as int) * (w as int) == 3 * (ww as int) && 4 * (h as int) * (h as int) == 4
            * (hh as int) && 12 * (h as int) * (h as int) == 12 * (hh as int) && (3 * (w as int))
            * (3 * (w as int)) == 9 * (ww as int) && (2 * (h as int)) * (2 * (h as int)) == 4 * (
        hh as int)) by (nonlinear_arith)
            requires
                ww == (w as int) * (w as int),
                hh == (h as int) * (h as int),
        ;
    }
    if 3 * ww > 4 * hh {
        let e: u64 = 12 * hh;
        let m: u64 = isqrt(e);
        proof {
            assert((m as int) * (m as int) < (3 * (w as int)) * (3 * (w as int)));
            lemma_root_upper(m as int, 3 * (w as int));
        }
        let blx64: u64 = if m * m == e {
            (3 * w64 - m) / 6
        } else {
            (3 * w64 - m - 1) / 6
        };
        let brx64: u64 = (3 * w64 + m) / 6;
        proof {
            lemma_floor_sub_sqrt(3 * (w as int), e as int, 6, m as int, blx64 as int);
            lemma_floor_add_sqrt(3 * (w as int), e as int, 6, m as int, brx64 as int);
            let s1 = 3 * (w as int) - 6 * (blx64 as int);
            lemma_root_lower(s1, m as int);
            if s1 - 6 >= 0 {
                lemma_root_upper(s1 - 6, m as int + 1);
            }
            let s2 = 6 * (brx64 as int) - 3 * (w as int);
            if s2 > 0 {
                lemma_root_upper(s2, m as int + 1);
            }
            assert(s2 + 6 >= m + 1) by (nonlinear_arith)
                requires
                    s2 + 6 > 0,
                    m >= 0,
                    (s2 + 6) * (s2 + 6) > m * m,
            ;
            assert(m <= s1 <= m + 6);
            assert(m - 5 <= s2 <= m);
            assert(6 * (brx64 as int) <= 6 * (w as int) - 1);
        }
        Triangle {
            a: Point { x: cx, y: 0 },
            b: Point { x: blx64 as i32, y: h },
            c: Point { x: brx64 as i32, y: h },
        }
    } else {
        let e: u64 = 3 * ww;
        let k: u64 = isqrt(e);
        proof {
            assert(k <= 2 * (h as int)) by (nonlinear_arith)
                requires
                    0 <= k,
                    0 <= h,
                    (k as int) * (k as int) <= (2 * (h as int)) * (2 * (h as int)),
            ;
            if (k as int) * (k as int) != e {
                lemma_root_upper(k as int, 2 * (h as int));
            }
        }
        let ay64: u64 = if k * k == e {
            (2 * h64 - k) / 4
        } else {
            (2 * h64 - k - 1) / 4
        };
        let by64: u64 = (2 * h64 + k) / 4;
        proof {
            lemma_floor_sub_sqrt(2 * (h as int), e as int, 4, k as int, ay64 as int);
            lemma_floor_add_sqrt(2 * (h as int), e as int, 4, k as int, by64 as int);
            assert(4 * (ay64 as int) <= 2 * (h as int));
            assert(4 * (by64 as int) <= 2 * (h as int) + k);
        }
        Triangle {
            a: Point { x: cx, y: ay64 as i32 },
            b: Point { x: 0, y: by64 as i32 },
            c: Point { x: w, y: by64 as i32 },
        }
    }
}


/// The shoelace sum equals the determinant of the two edge vectors at `a`.
pub proof fn lemma_shoelace_offsets(t: Triangle)
    ensures
        shoelace(t) == (t.b.x - t.a.x) * (t.c.y - t.a.y) - (t.c.x - t.a.x) * (t.b.y - t.a.y),
{
    assert(shoelace(t) == (t.b.x - t.a.x) * (t.c.y - t.a.y) - (t.c.x - t.a.x) * (t.b.y
        - t.a.y)) by (nonlinear_arith);
}

proof fn lemma_shoelace_swap(ax: int, ay: int, bx: int, by: int, cx: int, cy: int)
    by (nonlinear_arith)
    ensures
        ax * (cy - by) + cx * (by - ay) + bx * (ay - cy) == -(ax * (by - cy) + bx * (cy - ay) + cx
            * (ay - by)),
{
}

/// The area of a triangle does not depend on the order of its vertices:
/// reversing the order flips the sign of the shoelace sum and a cyclic
/// shift keeps it, so the magnitude is the same for all six orders.
pub proof fn lemma_area_vertex_order(a: Point, b: Point, c: Point)
    ensures
        spec_area((Triangle { a: a, b: c, c: b })) == spec_area((Triangle { a: a, b: b, c: c })),
        spec_area((Triangle { a: b, b: a, c: c })) == spec_area((Triangle { a: a, b: b, c: c })),
        spec_area((Triangle { a: c, b: b, c: a })) == spec_area((Triangle { a: a, b: b, c: c })),
        spec_area((Triangle { a: b, b: c, c: a })) == spec_area((Triangle { a: a, b: b, c: c })),
        spec_area((Triangle { a: c, b: a, c: b })) == spec_area((Triangle { a: a, b: b, c: c })),
{
    lemma_shoelace_swap(a.x as int, a.y as int, b.x as int, b.y as int, c.x as int, c.y as int);
}

/// The magnitudes of the four coordinate offsets of `b` and `c` from `a`,
/// summed: the scale against which subdivision's truncation error is
/// measured.
pub open spec fn edge_sum(t: Triangle) -> int {
    vstd::math::abs(t.b.x - t.a.x) as int + vstd::math::abs(t.b.y - t.a.y) as int + vstd::math::abs(
        t.c.x - t.a.x,
    ) as int + vstd::math::abs(t.c.y - t.a.y) as int
}

#[verifier::rlimit(100)]
proof fn lemma_quarter_det(
    ux: int,
    uy: int,
    vx: int,
    vy: int,
    e1x: int,
    e1y: int,
    e2x: int,
    e2y: int,
    px: int,
    py: int,
    qx: int,
    qy: int,
    d4: int,
    d: int,
)
    by (nonlinear_arith)
    requires
        2 * px == ux + e1x,
        2 * py == uy + e1y,
        2 * qx == vx + e2x,
        2 * qy == vy + e2y,
        d4 == px * qy - qx * py,
        d == ux * vy - vx * uy,
    ensures
        4 * d4 == d + (ux * e2y + e1x * vy + e1x * e2y - vx * e1y - e2x * uy - e2x * e1y),
{
}

proof fn lemma_r_bound(
    ux: int,
    uy: int,
    vx: int,
    vy: int,
    e1x: int,
    e1y: int,
    e2x: int,
    e2y: int,
    k: int,
    s: int,
    r: int,
)
    requires
        -k <= e1x <= k,
        -k <= e1y <= k,
        -k <= e2x <= k,
        -k <= e2y <= k,
        0 <= k,
        -s <= ux <= s,
        -s <= uy <= s,
        -s <= vx <= s,
        -s <= vy <= s,
        0 <= s,
        r == ux * e2y + e1x * vy + e1x * e2y - vx * e1y - e2x * uy - e2x * e1y,
    ensures
        -(4 * (k * s) + 2 * (k * k)) <= r <= 4 * (k * s) + 2 * (k * k),
{
    assert(-(k * s) <= ux * e2y <= k * s) by (nonlinear_arith)
        requires
            -s <= ux <= s,
            -k <= e2y <= k,
            0 <= s,
            0 <= k,
    ;
    assert(-(k * s) <= e1x * vy <= k * s) by (nonlinear_arith)
        requires
            -s <= vy <= s,
            -k <= e1x <= k,
            0 <= s,
            0 <= k,
    ;
    assert(-(k * s) <= vx * e1y <= k * s) by (nonlinear_arith)
        requires
            -s <= vx <= s,
            -k <= e1y <= k,
            0 <= s,
            0 <= k,
    ;
    assert(-(k * s) <= e2x * uy <= k * s) by (nonlinear_arith)
        requires
            -s <= uy <= s,
            -k <= e2x <= k,
            0 <= s,
            0 <= k,
    ;
    assert(-(k * k) <= e1x * e2y <= k * k) by (nonlinear_arith)
        requires
            -k <= e1x <= k,
            -k <= e2y <= k,
            0 <= k,
    ;
    assert(-(k * k) <= e2x * e1y <= k * k) by (nonlinear_arith)
        requires
            -k <= e2x <= k,
            -k <= e1y <= k,
            0 <= k,
    ;
}

proof fn lemma_area_from_det(sp: int, st: int, bound: int)
    requires
        -bound <= 4 * sp - st <= bound || -bound <= 4 * sp + st <= bound,
        bound >= 0,
    ensures
        2 * (vstd::math::abs(st) as int / 2) - (bound + 5) <= 8 * (vstd::math::abs(sp) as int / 2),
        8 * (vstd::math::abs(sp) as int / 2) <= 2 * (vstd::math::abs(st) as int / 2) + bound + 5,
{
    let sa = vstd::math::abs(sp) as int;
    let ta = vstd::math::abs(st) as int;
    assert(4 * sa - ta <= bound && -(bound) <= 4 * sa - ta);
    assert(sa == 2 * (sa / 2) + sa % 2 && 0 <= sa % 2 < 2);
    assert(ta == 2 * (ta / 2) + ta % 2 && 0 <= ta % 2 < 2);
}

/// Subdividing a triangle of area `A` yields four sub-triangles — the
/// central hole and the three corners — each of area `A / 4` and together
/// of area `A`, up to the truncation error of the midpoints, which is
/// bounded by the triangle's edge offsets: every sub-triangle's area `p`
/// satisfies `|8 p - 2 A| <= 8 edge_sum + 13`, and the four areas' sum `S`
/// satisfies `|2 S - 2 A| <= 8 edge_sum + 13`.
#[verifier::rlimit(100)]
pub proof fn lemma_subdivision_partition(t: Triangle)
    ensures
        2 * spec_area(t) - (8 * edge_sum(t) + 13) <= 8 * spec_area(spec_center(t)) <= 2
            * spec_area(t) + 8 * edge_sum(t) + 13,
        2 * spec_area(t) - (8 * edge_sum(t) + 13) <= 8 * spec_area(spec_corner_a(t)) <= 2
            * spec_area(t) + 8 * edge_sum(t) + 13,
        2 * spec_area(t) - (8 * edge_sum(t) + 13) <= 8 * spec_area(spec_corner_b(t)) <= 2
            * spec_area(t) + 8 * edge_sum(t) + 13,
        2 * spec_area(t) - (8 * edge_sum(t) + 13) <= 8 * spec_area(spec_corner_c(t)) <= 2
            * spec_area(t) + 8 * edge_sum(t) + 13,
        2 * spec_area(t) - (8 * edge_sum(t) + 13) <= 2 * (spec_area(spec_center(t)) + spec_area(
            spec_corner_a(t),
        ) + spec_area(spec_corner_b(t)) + spec_area(spec_corner_c(t))) <= 2 * spec_area(t) + 8
            * edge_sum(t) + 13,
{
    let ux = t.b.x - t.a.x;
    let uy = t.b.y - t.a.y;
    let vx = t.c.x - t.a.x;
    let vy = t.c.y - t.a.y;
    let es = edge_sum(t);
    lemma_shoelace_offsets(t);
    let st = ux * vy - vx * uy;
    let mab = spec_midpoint(t.a, t.b);
    let mac = spec_midpoint(t.a, t.c);
    let mbc = spec_midpoint(t.b, t.c);
    let e1x = 2 * (mab.x as int) - (t.a.x + t.b.x);
    let e1y = 2 * (mab.y as int) - (t.a.y + t.b.y);
    let e2x = 2 * (mac.x as int) - (t.a.x + t.c.x);
    let e2y = 2 * (mac.y as int) - (t.a.y + t.c.y);
    let e3x = 2 * (mbc.x as int) - (t.b.x + t.c.x);
    let e3y = 2 * (mbc.y as int) - (t.b.y + t.c.y);
    assert(-1 <= e1x <= 1 && -1 <= e1y <= 1);
    assert(-1 <= e2x <= 1 && -1 <= e2y <= 1);
    assert(-1 <= e3x <= 1 && -1 <= e3y <= 1);
    // The corner at `a`.
    let pa = spec_corner_a(t);
    lemma_shoelace_offsets(pa);
    lemma_quarter_det(ux, uy, vx, vy, e1x, e1y, e2x, e2y, mab.x - t.a.x, mab.y - t.a.y,
        mac.x - t.a.x, mac.y - t.a.y, shoelace(pa), st);
    lemma_r_bound(ux, uy, vx, vy, e1x, e1y, e2x, e2y, 1, es,
        ux * e2y + e1x * vy + e1x * e2y - vx * e1y - e2x * uy - e2x * e1y);
    lemma_area_from_det(shoelace(pa), st, 4 * es + 2);
    // The corner at `b`.
    let pb = spec_corner_b(t);
    lemma_shoelace_offsets(pb);
    let db = (-ux) * (vy - uy) - (vx - ux) * (-uy);
    assert(db == -st) by (nonlinear_arith)
        requires
            db == (-ux) * (vy - uy) - (vx - ux) * (-uy),
            st == ux * vy - vx * uy,
    ;
    lemma_quarter_det(-ux, -uy, vx - ux, vy - uy, e1x, e1y, e3x, e3y, mab.x - t.b.x,
        mab.y - t.b.y, mbc.x - t.b.x, mbc.y - t.b.y, shoelace(pb), db);
    lemma_r_bound(-ux, -uy, vx - ux, vy - uy, e1x, e1y, e3x, e3y, 1, es,
        (-ux) * e3y + e1x * (vy - uy) + e1x * e3y - (vx - ux) * e1y - e3x * (-uy) - e3x * e1y);
    lemma_area_from_det(shoelace(pb), st, 4 * es + 2);
    // The corner at `c`.
    let pc = spec_corner_c(t);
    lemma_shoelace_offsets(pc);
    let dc = (-vx) * (uy - vy) - (ux - vx) * (-vy);
    assert(dc == st) by (nonlinear_arith)
        requires
            dc == (-vx) * (uy - vy) - (ux - vx) * (-vy),
            st == ux * vy - vx * uy,
    ;
    lemma_quarter_det(-vx, -vy, ux - vx, uy - vy, e2x, e2y, e3x, e3y, mac.x - t.c.x,
        mac.y - t.c.y, mbc.x - t.c.x, mbc.y - t.c.y, shoelace(pc), dc);
    lemma_r_bound(-vx, -vy, ux - vx, uy - vy, e2x, e2y, e3x, e3y, 1, es,
        (-vx) * e3y + e2x * (uy - vy) + e2x * e3y - (ux - vx) * e2y - e3x * (-vy) - e3x * e2y);
    lemma_area_from_det(shoelace(pc), st, 4 * es + 2);
    // The central hole.
    let pm = spec_center(t);
    lemma_shoelace_offsets(pm);
    let dm = (vx - ux) * vy - vx * (vy - uy);
    assert(dm == -st) by (nonlinear_arith)
        requires
            dm == (vx - ux) * vy - vx * (vy - uy),
            st == ux * vy - vx * uy,
    ;
    lemma_quarter_det(vx - ux, vy - uy, vx, vy, e2x - e1x, e2y - e1y, e3x - e1x, e3y - e1y,
        mac.x - mab.x, mac.y - mab.y, mbc.x - mab.x, mbc.y - mab.y, shoelace(pm), dm);
    lemma_r_bound(vx - ux, vy - uy, vx, vy, e2x - e1x, e2y - e1y, e3x - e1x, e3y - e1y, 2, es, (vx
        - ux) * (e3y - e1y) + (e2x - e1x) * vy + (e2x - e1x) * (e3y - e1y) - vx * (e2y - e1y) - (
    e3x - e1x) * (vy - uy) - (e3x - e1x) * (e2y - e1y));
    lemma_area_from_det(shoelace(pm), st, 8 * es + 8);
}

} // verus!
