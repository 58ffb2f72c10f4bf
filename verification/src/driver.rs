//! The fractal driver: generation after generation of solid triangles is
//! subdivided, the central hole of every subdivision is painted, and the
//! loop stops once the first candidate of the next generation falls to the
//! minimum area.

use vstd::prelude::*;

use crate::geometry::Point;
use crate::geometry::Triangle;
use crate::geometry::div2_trunc;
use crate::geometry::lemma_shoelace_offsets;
use crate::geometry::max_centered_eq_triangle;
use crate::geometry::shoelace;
use crate::geometry::spec_area;
use crate::geometry::spec_center;
use crate::geometry::spec_corner_a;
use crate::geometry::spec_corner_b;
use crate::geometry::spec_corner_c;
use crate::geometry::spec_max_centered;
use crate::geometry::spec_midpoint;
use crate::geometry::tri_in_range;
use crate::geometry::MAX_COORD;
use crate::geometry::area;
use crate::geometry::subdivide_triangle;
use crate::raster::Canvas;
use crate::raster::dims_of;
use crate::raster::fill_triangle;
use crate::raster::new_canvas;
use crate::raster::raster_of;
use crate::raster::spec_paint;

verus! {

/// The three corner triangles a subdivision keeps, in vertex order.
pub open spec fn spec_corners(t: Triangle) -> Seq<Triangle> {
    seq![spec_corner_a(t), spec_corner_b(t), spec_corner_c(t)]
}

/// The next generation: the corner triangles of every member, in order.
pub open spec fn next_generation(g: Seq<Triangle>) -> Seq<Triangle>
    decreases g.len(),
{
    if g.len() == 0 {
        Seq::empty()
    } else {
        spec_corners(g[0]) + next_generation(g.drop_first())
    }
}

/// Subdividing a generation triples its size.
pub proof fn lemma_next_generation_len(g: Seq<Triangle>)
    ensures
        next_generation(g).len() == 3 * g.len(),
    decreases g.len(),
{
    if g.len() > 0 {
        lemma_next_generation_len(g.drop_first());
    }
}

/// The next generation grows element by element.
pub proof fn lemma_next_generation_push(g: Seq<Triangle>, t: Triangle)
    ensures
        next_generation(g.push(t)) == next_generation(g) + spec_corners(t),
    decreases g.len(),
{
    if g.len() == 0 {
        assert(g.push(t)[0] == t);
        assert(g.push(t).drop_first() =~= Seq::<Triangle>::empty());
        assert(next_generation(g.push(t).drop_first()) == Seq::<Triangle>::empty());
        assert(next_generation(g.push(t)) == spec_corners(t) + Seq::<Triangle>::empty());
        assert(next_generation(g.push(t)) =~= next_generation(g) + spec_corners(t));
    } else {
        assert(g.push(t)[0] == g[0]);
        assert(g.push(t).drop_first() =~= g.drop_first().push(t));
        lemma_next_generation_push(g.drop_first(), t);
        assert(next_generation(g.push(t)) == spec_corners(g[0]) + (next_generation(g.drop_first())
            + spec_corners(t)));
        assert(next_generation(g) == spec_corners(g[0]) + next_generation(g.drop_first()));
        assert(spec_corners(g[0]) + (next_generation(g.drop_first()) + spec_corners(t)) =~= (
        spec_corners(g[0]) + next_generation(g.drop_first())) + spec_corners(t));
    }
}

/// The generation reached after `i` subdivisions of the starting triangle
/// of a `w` by `h` canvas.
pub open spec fn gen_at(w: int, h: int, i: nat) -> Seq<Triangle>
    decreases i,
{
    if i == 0 {
        seq![spec_max_centered(w, h)]
    } else {
        next_generation(gen_at(w, h, (i - 1) as nat))
    }
}

/// After round `i` the loop stops if and only if the first triangle of the
/// candidate next generation has area at or below the threshold.
pub open spec fn stop_at(w: int, h: int, min_area: int, i: nat) -> bool {
    spec_area(gen_at(w, h, i + 1)[0]) <= min_area
}

/// The all-zero contents of a fresh `w` by `h` canvas.
pub open spec fn blank(w: u32, h: u32) -> Seq<u8> {
    Seq::new((w * h * 3) as nat, |i: int| 0u8)
}

/// The canvas contents after the center of every member of `g` is painted,
/// in order, over `r`.
pub open spec fn paint_centers(
    r: Seq<u8>,
    w: u32,
    h: u32,
    g: Seq<Triangle>,
    color: (u8, u8, u8),
) -> Seq<u8>
    decreases g.len(),
{
    if g.len() == 0 {
        r
    } else {
        paint_centers(spec_paint(r, w, h, spec_center(g[0]), color), w, h, g.drop_first(), color)
    }
}

/// Painting the centers of `g.push(t)` paints the centers of `g`, then the
/// center of `t`.
pub proof fn lemma_paint_centers_push(
    r: Seq<u8>,
    w: u32,
    h: u32,
    g: Seq<Triangle>,
    t: Triangle,
    color: (u8, u8, u8),
)
    ensures
        paint_centers(r, w, h, g.push(t), color) == spec_paint(
            paint_centers(r, w, h, g, color),
            w,
            h,
            spec_center(t),
            color,
        ),
    decreases g.len(),
{
    if g.len() == 0 {
        assert(g.push(t)[0] == t);
        assert(g.push(t).drop_first() =~= Seq::<Triangle>::empty());
        assert(paint_centers(spec_paint(r, w, h, spec_center(t), color), w, h,
            g.push(t).drop_first(), color) == spec_paint(r, w, h, spec_center(t), color));
        assert(paint_centers(r, w, h, g, color) == r);
    } else {
        assert(g.push(t)[0] == g[0]);
        assert(g.push(t).drop_first() =~= g.drop_first().push(t));
        lemma_paint_centers_push(spec_paint(r, w, h, spec_center(g[0]), color), w, h,
            g.drop_first(), t, color);
        assert(paint_centers(r, w, h, g.push(t), color) == paint_centers(
            spec_paint(r, w, h, spec_center(g[0]), color),
            w,
            h,
            g.drop_first().push(t),
            color,
        ));
        assert(paint_centers(r, w, h, g, color) == paint_centers(
            spec_paint(r, w, h, spec_center(g[0]), color),
            w,
            h,
            g.drop_first(),
            color,
        ));
    }
}

/// The canvas contents after the starting triangle is painted solid and
/// `n` rounds of hole painting have run on a `w` by `h` canvas.
pub open spec fn rendered_after(
    w: u32,
    h: u32,
    base_color: (u8, u8, u8),
    empty_color: (u8, u8, u8),
    n: nat,
) -> Seq<u8>
    decreases n,
{
    if n == 0 {
        spec_paint(blank(w, h), w, h, spec_max_centered(w as int, h as int), base_color)
    } else {
        paint_centers(
            rendered_after(w, h, base_color, empty_color, (n - 1) as nat),
            w,
            h,
            gen_at(w as int, h as int, (n - 1) as nat),
            empty_color,
        )
    }
}

/// The largest coordinate offset of the vertices `b` and `c` from `a`.
/// It bounds the area and at least halves with every subdivision, which is
/// what makes the driver loop terminate.
pub open spec fn max_offset(t: Triangle) -> int {
    vstd::math::max(
        vstd::math::max(
            vstd::math::abs(t.b.x - t.a.x) as int,
            vstd::math::abs(t.b.y - t.a.y) as int,
        ),
        vstd::math::max(
            vstd::math::abs(t.c.x - t.a.x) as int,
            vstd::math::abs(t.c.y - t.a.y) as int,
        ),
    )
}

/// Truncated halving lands within one of the exact half.
proof fn lemma_div2_near(s: int)
    ensures
        -1 <= 2 * div2_trunc(s) - s <= 1,
{
}

/// A midpoint's offset from an endpoint is at most half the endpoints'
/// offset, up to the one unit of truncation.
proof fn lemma_midpoint_offset(p: Point, q: Point)
    ensures
        2 * vstd::math::abs(spec_midpoint(p, q).x - p.x) <= vstd::math::abs(q.x - p.x) + 1,
        2 * vstd::math::abs(spec_midpoint(p, q).y - p.y) <= vstd::math::abs(q.y - p.y) + 1,
{
    lemma_div2_near(p.x + q.x);
    lemma_div2_near(p.y + q.y);
}

/// A triangle of area at least two has some offset of at least two.
proof fn lemma_area_two_offsets(t: Triangle)
    requires
        spec_area(t) >= 2,
    ensures
        max_offset(t) >= 2,
{
    lemma_shoelace_offsets(t);
    let m = max_offset(t);
    let ux = t.b.x - t.a.x;
    let uy = t.b.y - t.a.y;
    let vx = t.c.x - t.a.x;
    let vy = t.c.y - t.a.y;
    assert(vstd::math::abs(shoelace(t)) >= 4);
    assert(-(2 * m * m) <= ux * vy - vx * uy <= 2 * m * m) by (nonlinear_arith)
        requires
            -m <= ux <= m,
            -m <= uy <= m,
            -m <= vx <= m,
            -m <= vy <= m,
            0 <= m,
    ;
    assert(2 * m * m >= 4);
    assert(m >= 2) by (nonlinear_arith)
        requires
            2 * m * m >= 4,
            m >= 0,
    ;
}

/// While the first corner triangle still has area above one, its largest
/// offset strictly shrinks: the driver loop terminates.
pub proof fn lemma_corner_a_shrinks(t: Triangle)
    requires
        spec_area(spec_corner_a(t)) >= 2,
    ensures
        0 <= max_offset(spec_corner_a(t)) < max_offset(t),
{
    let tc = spec_corner_a(t);
    lemma_midpoint_offset(t.a, t.b);
    lemma_midpoint_offset(t.a, t.c);
    assert(2 * max_offset(tc) <= max_offset(t) + 1);
    lemma_area_two_offsets(tc);
}

/// Two runs with the same canvas, threshold and colors stop after the same
/// number of rounds and paint bit-identical rasters.
pub proof fn lemma_runs_identical(
    w: u32,
    h: u32,
    min_area: int,
    base_color: (u8, u8, u8),
    empty_color: (u8, u8, u8),
    n1: nat,
    n2: nat,
)
    requires
        n1 >= 1,
        n2 >= 1,
        stop_at(w as int, h as int, min_area, (n1 - 1) as nat),
        forall|j: nat| j < n1 - 1 ==> !stop_at(w as int, h as int, min_area, j),
        stop_at(w as int, h as int, min_area, (n2 - 1) as nat),
        forall|j: nat| j < n2 - 1 ==> !stop_at(w as int, h as int, min_area, j),
    ensures
        n1 == n2,
        rendered_after(w, h, base_color, empty_color, n1) == rendered_after(
            w,
            h,
            base_color,
            empty_color,
            n2,
        ),
{
    if n1 < n2 {
        assert(!stop_at(w as int, h as int, min_area, (n1 - 1) as nat));
    }
    if n2 < n1 {
        assert(!stop_at(w as int, h as int, min_area, (n2 - 1) as nat));
    }
}

/// Render a Sierpinski triangle onto a fresh canvas of the given
/// dimensions.  The starting triangle — the largest centered equilateral
/// one — is painted in `base_color`; then, round after round, every
/// triangle of the current generation is subdivided and its central hole
/// painted in `empty_color`, until the first triangle of the candidate
/// next generation has area at or below `min_area`.  Returns the canvas
/// and the number of painting rounds, the least round at which the
/// threshold fired; the canvas bytes are exactly `rendered_after` that
/// many rounds, a function of the arguments alone.
pub fn draw_sierpinski_triangle(
    dims: (i32, i32),
    min_area: i32,
    base_color: (u8, u8, u8),
    empty_color: (u8, u8, u8),
) -> (r: (Canvas, u32))
    requires
        2 <= dims.0 <= MAX_COORD,
        2 <= dims.1 <= MAX_COORD,
        min_area >= 1,
    ensures
        dims_of(r.0) == (dims.0 as u32, dims.1 as u32),
        1 <= r.1 <= 40000,
        stop_at(dims.0 as int, dims.1 as int, min_area as int, (r.1 - 1) as nat),
        forall|j: nat|
            j < (r.1 - 1) as nat ==> !stop_at(dims.0 as int, dims.1 as int, min_area as int, j),
        raster_of(r.0) == rendered_after(
            dims.0 as u32,
            dims.1 as u32,
            base_color,
            empty_color,
            r.1 as nat,
        ),
{
    let w32: u32 = dims.0 as u32;
    let h32: u32 = dims.1 as u32;
    let mut canvas = new_canvas(w32, h32);
    let starting_triangle = max_centered_eq_triangle(dims);
    proof {
        assert(raster_of(canvas) =~= blank(w32, h32));
    }
    fill_triangle(&mut canvas, &starting_triangle, base_color);
    assert(raster_of(canvas) == rendered_after(w32, h32, base_color, empty_color, 0));
    let mut triangle_vec: Vec<Triangle> = Vec::new();
    triangle_vec.push(starting_triangle);
    proof {
        assert(triangle_vec@ =~= gen_at(dims.0 as int, dims.1 as int, 0));
    }
    let mut rounds: u32 = 0;
    loop
        invariant_except_break
            2 <= dims.0 <= MAX_COORD,
            2 <= dims.1 <= MAX_COORD,
            min_area >= 1,
            w32 == dims.0 as u32,
            h32 == dims.1 as u32,
            dims_of(canvas) == (w32, h32),
            triangle_vec@ == gen_at(dims.0 as int, dims.1 as int, rounds as nat),
            triangle_vec@.len() >= 1,
            forall|k: int| 0 <= k < triangle_vec@.len() ==> tri_in_range(triangle_vec@[k]),
            raster_of(canvas) == rendered_after(w32, h32, base_color, empty_color, rounds as nat),
            forall|j: nat|
                j < rounds as nat ==> !stop_at(dims.0 as int, dims.1 as int, min_area as int, j),
            0 <= max_offset(triangle_vec@[0]),
            rounds as int + max_offset(triangle_vec@[0]) <= 39999,
        ensures
            1 <= rounds <= 40000,
            dims_of(canvas) == (w32, h32),
            stop_at(dims.0 as int, dims.1 as int, min_area as int, (rounds - 1) as nat),
            forall|j: nat|
                j < (rounds - 1) as nat ==> !stop_at(
                    dims.0 as int,
                    dims.1 as int,
                    min_area as int,
                    j,
                ),
            raster_of(canvas) == rendered_after(w32, h32, base_color, empty_color, rounds as nat),
        decreases max_offset(triangle_vec@[0]),
    {
        let ghost g = triangle_vec@;
        let ghost round_start = raster_of(canvas);
        let mut sub_triangles: Vec<Triangle> = Vec::new();
        let mut idx: usize = 0;
        while idx < triangle_vec.len()
            invariant
                idx <= triangle_vec.len(),
                triangle_vec@ == g,
                forall|k: int| 0 <= k < g.len() ==> tri_in_range(g[k]),
                dims_of(canvas) == (w32, h32),
                w32 >= 1,
                h32 >= 1,
                sub_triangles@ == next_generation(g.take(idx as int)),
                forall|k: int| 0 <= k < sub_triangles@.len() ==> tri_in_range(sub_triangles@[k]),
                raster_of(canvas) == paint_centers(
                    round_start,
                    w32,
                    h32,
                    g.take(idx as int),
                    empty_color,
                ),
            decreases triangle_vec.len() - idx,
        {
            let tri = triangle_vec[idx];
            let (center_triangle, corner_triangles) = subdivide_triangle(&tri);
            fill_triangle(&mut canvas, &center_triangle, empty_color);
            sub_triangles.push(corner_triangles[0]);
            sub_triangles.push(corner_triangles[1]);
            sub_triangles.push(corner_triangles[2]);
            proof {
                let pre = g.take(idx as int);
                assert(g.take(idx as int + 1) =~= pre.push(g[idx as int]));
                lemma_next_generation_push(pre, g[idx as int]);
                lemma_paint_centers_push(round_start, w32, h32, pre, g[idx as int], empty_color);
                assert(sub_triangles@ =~= next_generation(pre) + spec_corners(g[idx as int]));
                assert(sub_triangles@ == next_generation(g.take(idx as int + 1)));
            }
            idx = idx + 1;
        }
        proof {
            assert(g.take(g.len() as int) =~= g);
        }
        rounds = rounds + 1;
        proof {
            assert(sub_triangles@ == next_generation(g));
            assert(gen_at(dims.0 as int, dims.1 as int, rounds as nat) == next_generation(g));
            assert(raster_of(canvas) == rendered_after(
                w32,
                h32,
                base_color,
                empty_color,
                rounds as nat,
            ));
            lemma_next_generation_len(g);
            assert(next_generation(g)[0] == spec_corner_a(g[0]));
        }
        let first = sub_triangles[0];
        let first_area = area(&first);
        if first_area > min_area {
            triangle_vec = sub_triangles;
            proof {
                lemma_corner_a_shrinks(g[0]);
                assert(!stop_at(dims.0 as int, dims.1 as int, min_area as int, (rounds
                    - 1) as nat));
            }
        } else {
            proof {
                assert(stop_at(dims.0 as int, dims.1 as int, min_area as int, (rounds
                    - 1) as nat));
            }
            break ;
        }
    }
    (canvas, rounds)
}

} // verus!
