use sierpinski::area;
use sierpinski::draw_sierpinski_triangle;
use sierpinski::max_centered_eq_triangle;
use sierpinski::midpoint;
use sierpinski::raster_bytes;
use sierpinski::subdivide_triangle;
use sierpinski::Point;
use sierpinski::Triangle;

fn tri(ax: i32, ay: i32, bx: i32, by: i32, cx: i32, cy: i32) -> Triangle {
    Triangle {
        a: Point { x: ax, y: ay },
        b: Point { x: bx, y: by },
        c: Point { x: cx, y: cy },
    }
}

#[test]
fn area_exact_values() {
    assert_eq!(area(&tri(0, 0, 4, 0, 0, 4)), 8);
    // An odd determinant is halved with truncation: 9 / 2 = 4.
    assert_eq!(area(&tri(0, 0, 3, 0, 0, 3)), 4);
    // Collinear points span no area.
    assert_eq!(area(&tri(0, 0, 2, 2, 4, 4)), 0);
}

#[test]
fn area_invariant_under_vertex_order() {
    let (a, b, c) = (Point { x: 1, y: 2 }, Point { x: 5, y: 9 }, Point { x: 4, y: 3 });
    let expected = area(&Triangle { a, b, c });
    assert_eq!(expected, 8);
    assert_eq!(area(&Triangle { a, b: c, c: b }), expected);
    assert_eq!(area(&Triangle { a: b, b: a, c }), expected);
    assert_eq!(area(&Triangle { a: c, b, c: a }), expected);
    assert_eq!(area(&Triangle { a: b, b: c, c: a }), expected);
    assert_eq!(area(&Triangle { a: c, b: a, c: b }), expected);
}

#[test]
fn midpoint_truncates_toward_zero() {
    let m = midpoint(&Point { x: 1, y: 1 }, &Point { x: 4, y: 6 });
    assert_eq!((m.x, m.y), (2, 3));
    let n = midpoint(&Point { x: -1, y: -1 }, &Point { x: -2, y: -2 });
    assert_eq!((n.x, n.y), (-1, -1));
    let z = midpoint(&Point { x: 0, y: 0 }, &Point { x: 0, y: 0 });
    assert_eq!((z.x, z.y), (0, 0));
}

#[test]
fn subdivide_exact_vertices() {
    let t = tri(0, 0, 8, 0, 0, 8);
    let (center, corners) = subdivide_triangle(&t);
    assert_eq!(center, tri(4, 0, 0, 4, 4, 4));
    assert_eq!(corners.len(), 3);
    assert_eq!(corners[0], tri(0, 0, 4, 0, 0, 4));
    assert_eq!(corners[1], tri(8, 0, 4, 0, 4, 4));
    assert_eq!(corners[2], tri(0, 8, 0, 4, 4, 4));
}

#[test]
fn subdivide_partitions_area_in_quarters() {
    // With even coordinates the midpoints are exact, so each of the four
    // sub-triangles holds exactly a quarter of the area.
    let t = tri(0, 0, 8, 0, 0, 8);
    let whole = area(&t);
    assert_eq!(whole, 32);
    let (center, corners) = subdivide_triangle(&t);
    assert_eq!(area(&center), 8);
    assert_eq!(area(&corners[0]), 8);
    assert_eq!(area(&corners[1]), 8);
    assert_eq!(area(&corners[2]), 8);
    let total = area(&center) + area(&corners[0]) + area(&corners[1]) + area(&corners[2]);
    assert_eq!(total, whole);
}

#[test]
fn max_centered_square_canvas_uses_width() {
    // 3 * 100^2 <= 4 * 100^2, so the width is the side length; the apex
    // row is trunc(50 - 100 * sqrt(3)/4) = trunc(6.69...) = 6 and the base
    // row trunc(50 + 43.30...) = 93, each truncated once at the end.
    let t = max_centered_eq_triangle((100, 100));
    assert_eq!((t.a.x, t.a.y), (50, 6));
    assert_eq!((t.b.x, t.b.y), (0, 93));
    assert_eq!((t.c.x, t.c.y), (100, 93));
}

#[test]
fn max_centered_wide_canvas_constrained_by_height() {
    // 3 * 200^2 > 4 * 100^2: the side comes from the height and its rise
    // is exactly h/2, so the triangle spans rows 0 to 100; the base
    // corners are trunc(100 -/+ 100/sqrt(3)) = 42 and 157, a base length
    // of 115, within one of 100/(sqrt(3)/2) = 115.47.
    let t = max_centered_eq_triangle((200, 100));
    assert_eq!((t.a.x, t.a.y), (100, 0));
    assert_eq!((t.b.x, t.b.y), (42, 100));
    assert_eq!((t.c.x, t.c.y), (157, 100));
}

#[test]
fn max_centered_fits_canvas() {
    for dims in [(2, 2), (3, 5), (640, 480), (100, 100), (2, 16384)] {
        let t = max_centered_eq_triangle(dims);
        for p in [t.a, t.b, t.c] {
            assert!(0 <= p.x && p.x <= dims.0);
            assert!(0 <= p.y && p.y <= dims.1);
        }
    }
}

#[test]
fn hundred_square_paints_four_rounds() {
    let white = (255, 255, 255);
    let black = (0, 0, 0);
    let (canvas, rounds) = draw_sierpinski_triangle((100, 100), 32, white, black);
    // Areas along the first-corner chain: 4350, 1075, 262, 65, then 17,
    // which is below the threshold: four rounds of hole painting.
    assert_eq!(rounds, 4);
    let bytes = raster_bytes(&canvas);
    assert_eq!(bytes.len(), 100 * 100 * 3);
    // The canvas corners lie outside the triangle and keep the initial
    // zero background.
    for (x, y) in [(0, 0), (99, 0), (0, 99), (99, 99)] {
        let i = (y * 100 + x) * 3;
        assert_eq!(&bytes[i..i + 3], &[0, 0, 0]);
    }
    // The apex of the starting triangle is painted solid and no hole
    // reaches it.
    let apex = (6 * 100 + 50) * 3;
    assert_eq!(&bytes[apex..apex + 3], &[255, 255, 255]);
}

#[test]
fn small_canvas_stops_after_three_rounds() {
    let (_, rounds) = draw_sierpinski_triangle((64, 64), 32, (255, 255, 255), (0, 0, 0));
    // First-corner chain areas: 1760, 432, 104, then 24 <= 32.
    assert_eq!(rounds, 3);
}

#[test]
fn identical_runs_give_identical_rasters() {
    let white = (255, 255, 255);
    let black = (0, 0, 0);
    let (c1, r1) = draw_sierpinski_triangle((160, 120), 32, white, black);
    let (c2, r2) = draw_sierpinski_triangle((160, 120), 32, white, black);
    assert_eq!(r1, r2);
    assert_eq!(raster_bytes(&c1), raster_bytes(&c2));
}
