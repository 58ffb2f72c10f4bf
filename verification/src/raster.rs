//! The raster sink: a mutable RGB pixel buffer with triangle filling.
//!
//! The buffer and the polygon rasterizer are outside collaborators (the
//! `image` and `imageproc` crates), held behind an opaque `Canvas`.  The
//! buffer's byte contents and its dimensions are named by uninterpreted
//! spec functions, and the one effect the library relies on — filling a
//! triangle with a solid color — is named as a deterministic function of
//! the prior contents, the dimensions, the vertices and the color.

use vstd::prelude::*;

use crate::geometry::Triangle;
use crate::geometry::tri_in_range;

verus! {

/// An RGB pixel buffer with a fixed width and height.  It wraps the outside
/// crates' buffer type, which Verus does not look into; everything the
/// contracts say about it goes through `raster_of` and `dims_of`.
#[verifier::external_body]
pub struct Canvas {
    img: image::RgbImage,
}

/// The bytes of the canvas, row-major from the top-left pixel, three
/// samples (red, green, blue) per pixel.
pub uninterp spec fn raster_of(c: Canvas) -> Seq<u8>;

/// The width and height the canvas was created with.
pub uninterp spec fn dims_of(c: Canvas) -> (u32, u32);

/// The bytes of a canvas of dimensions `w` by `h` and contents `r` after
/// the triangle with the given vertices is filled with the given color.
/// The rasterizer is deterministic: its output depends on these arguments
/// alone.
pub uninterp spec fn paint_of(
    r: Seq<u8>,
    w: u32,
    h: u32,
    ax: int,
    ay: int,
    bx: int,
    by: int,
    cx: int,
    cy: int,
    red: u8,
    green: u8,
    blue: u8,
) -> Seq<u8>;

/// The canvas contents after one triangle is filled with one color.
pub open spec fn spec_paint(r: Seq<u8>, w: u32, h: u32, t: Triangle, color: (u8, u8, u8)) -> Seq<
    u8,
> {
    paint_of(
        r,
        w,
        h,
        t.a.x as int,
        t.a.y as int,
        t.b.x as int,
        t.b.y as int,
        t.c.x as int,
        t.c.y as int,
        color.0,
        color.1,
        color.2,
    )
}

/// The x pixel coordinate of the sample at byte index `i` of a raster of
/// width `w`, row-major with three samples per pixel.
pub open spec fn sample_x(i: int, w: int) -> int {
    (i / 3) % w
}

/// The y pixel coordinate of the sample at byte index `i` of a raster of
/// width `w`, row-major with three samples per pixel.
pub open spec fn sample_y(i: int, w: int) -> int {
    (i / 3) / w
}

/// The pixel `(x, y)` lies strictly outside the bounding box of the
/// triangle's vertices.
pub open spec fn outside_bbox(t: Triangle, x: int, y: int) -> bool {
    ||| x < vstd::math::min(t.a.x as int, vstd::math::min(t.b.x as int, t.c.x as int))
    ||| x > vstd::math::max(t.a.x as int, vstd::math::max(t.b.x as int, t.c.x as int))
    ||| y < vstd::math::min(t.a.y as int, vstd::math::min(t.b.y as int, t.c.y as int))
    ||| y > vstd::math::max(t.a.y as int, vstd::math::max(t.b.y as int, t.c.y as int))
}

/// Relies on `image::ImageBuffer::new`: the new buffer has the given
/// dimensions and every one of its `width * height * 3` samples is zero.
#[verifier::external_body]
pub(crate) fn new_canvas(width: u32, height: u32) -> (c: Canvas)
    requires
        1 <= width <= 16384,
        1 <= height <= 16384,
    ensures
        dims_of(c) == (width, height),
        raster_of(c) == Seq::new((width * height * 3) as nat, |i: int| 0u8),
{
    Canvas { img: image::RgbImage::new(width, height) }
}

/// Relies on `imageproc::drawing::draw_polygon_mut`: fills the part of the
/// triangle (interior and boundary) that lies within the canvas with the
/// given color, leaves the dimensions and the byte count unchanged, writes
/// no pixel outside the triangle's bounding box, and computes the new
/// contents from the old contents, the dimensions, the vertices and the
/// color alone.  A canvas with a zero dimension is excluded: the scanline
/// fill clamps its row range to row zero and would write out of bounds.
#[verifier::external_body]
pub(crate) fn fill_triangle(c: &mut Canvas, t: &Triangle, color: (u8, u8, u8))
    requires
        tri_in_range(*t),
        dims_of(*old(c)).0 >= 1,
        dims_of(*old(c)).1 >= 1,
    ensures
        dims_of(*final(c)) == dims_of(*old(c)),
        raster_of(*final(c)).len() == raster_of(*old(c)).len(),
        forall|i: int|
            0 <= i < raster_of(*old(c)).len() && outside_bbox(
                *t,
                sample_x(i, dims_of(*old(c)).0 as int),
                sample_y(i, dims_of(*old(c)).0 as int),
            ) ==> raster_of(*final(c))[i] == raster_of(*old(c))[i],
        raster_of(*final(c)) == paint_of(
            raster_of(*old(c)),
            dims_of(*old(c)).0,
            dims_of(*old(c)).1,
            t.a.x as int,
            t.a.y as int,
            t.b.x as int,
            t.b.y as int,
            t.c.x as int,
            t.c.y as int,
            color.0,
            color.1,
            color.2,
        ),
{
    let points = [
        imageproc::point::Point::new(t.a.x, t.a.y),
        imageproc::point::Point::new(t.b.x, t.b.y),
        imageproc::point::Point::new(t.c.x, t.c.y),
    ];
    imageproc::drawing::draw_polygon_mut(&mut c.img, &points, image::Rgb([color.0, color.1, color.2]));
}

/// Relies on `image::ImageBuffer::as_raw`: the returned vector holds the
/// canvas's raw samples, row-major, three per pixel.
#[verifier::external_body]
pub fn raster_bytes(c: &Canvas) -> (v: Vec<u8>)
    ensures
        v@ == raster_of(*c),
{
    c.img.as_raw().clone()
}

} // verus!
