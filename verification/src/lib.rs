//! Rendering of a Sierpinski triangle by iterative subdivision.
//!
//! The geometry (signed areas, midpoints, one-level subdivision and the
//! placement of the largest centered equilateral triangle on a canvas) is
//! verified, as is the driver loop that subdivides generation after
//! generation and paints the central hole of every subdivision.  The raster
//! itself is an outside collaborator: polygon filling and the pixel buffer
//! come from the `image` and `imageproc` crates behind trusted wrappers.

pub mod driver;
pub mod geometry;
pub mod raster;

pub use driver::draw_sierpinski_triangle;
pub use geometry::Point;
pub use geometry::Triangle;
pub use geometry::area;
pub use geometry::max_centered_eq_triangle;
pub use geometry::midpoint;
pub use geometry::subdivide_triangle;
pub use raster::Canvas;
pub use raster::raster_bytes;
