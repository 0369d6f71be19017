//! Candidate model: polygons with fixed-point coordinates and RGBA colour,
//! and candidate images (ordered polygon lists on a fixed canvas).
//!
//! A coordinate is an `i64` in sub-pixel units: `COORD_SCALE` units per
//! pixel. A well-formed point lies in `[0, width * COORD_SCALE] x
//! [0, height * COORD_SCALE]`, so its pixel (the coordinate divided by
//! `COORD_SCALE`) lies in `[0, width] x [0, height]`; the rasterizer clips
//! to the canvas.

use vstd::prelude::*;

verus! {

/// Sub-pixel units per pixel in a point coordinate.
pub const COORD_SCALE: i64 = 256;

/// Largest accepted canvas side length.
pub const MAX_DIM: usize = 16384;

/// One polygon: an ordered boundary of points and one RGBA colour.
pub struct Polygon {
    pub points: Vec<(i64, i64)>,
    pub colour: [u8; 4],
}

/// One candidate: polygons in draw order on a `width x height` canvas.
pub struct Image {
    pub polygon: Vec<Polygon>,
    pub width: usize,
    pub height: usize,
}

/// The canvas dimensions the library accepts.
pub open spec fn dims_valid(width: int, height: int) -> bool {
    1 <= width <= MAX_DIM && 1 <= height <= MAX_DIM
}

/// A point lies on the canvas: each coordinate is non-negative and at most
/// the canvas extent in sub-pixel units (the far boundary included, so a
/// polygon can reach past the last pixel row or column and cover it).
pub open spec fn point_in_canvas(p: (i64, i64), width: int, height: int) -> bool {
    0 <= p.0 <= width * COORD_SCALE && 0 <= p.1 <= height * COORD_SCALE
}

/// A point lies strictly inside the canvas extent: each coordinate is
/// non-negative and below the extent in sub-pixel units, as freshly
/// generated points are drawn.
pub open spec fn point_in_open_canvas(p: (i64, i64), width: int, height: int) -> bool {
    0 <= p.0 < width * COORD_SCALE && 0 <= p.1 < height * COORD_SCALE
}

/// Every point of the polygon lies on the canvas.
pub open spec fn polygon_wf(p: Polygon, width: int, height: int) -> bool {
    forall|i: int|
        0 <= i < p.points@.len() ==> point_in_canvas(#[trigger] p.points@[i], width, height)
}

/// A well-formed candidate: valid canvas, every polygon on it.
pub open spec fn image_wf(im: Image) -> bool {
    &&& dims_valid(im.width as int, im.height as int)
    &&& forall|i: int|
        0 <= i < im.polygon@.len() ==> polygon_wf(
            #[trigger] im.polygon@[i],
            im.width as int,
            im.height as int,
        )
}

/// Two polygons hold the same points and colour.
pub open spec fn eq_polygon(a: Polygon, b: Polygon) -> bool {
    a.points@ == b.points@ && a.colour@ == b.colour@
}

/// Two polygon lists hold equal polygons slot by slot.
pub open spec fn eq_polygons(a: Seq<Polygon>, b: Seq<Polygon>) -> bool {
    a.len() == b.len() && forall|i: int| 0 <= i < a.len() ==> eq_polygon(#[trigger] a[i], b[i])
}

/// Two candidates are equal in content: same canvas, same polygons.
pub open spec fn eq_image(a: Image, b: Image) -> bool {
    a.width == b.width && a.height == b.height && eq_polygons(a.polygon@, b.polygon@)
}

/// Copy a point list element by element.
pub fn clone_points(v: &Vec<(i64, i64)>) -> (r: Vec<(i64, i64)>)
    ensures
        r@ == v@,
{
    let mut r: Vec<(i64, i64)> = Vec::new();
    let mut i: usize = 0;
    while i < v.len()
        invariant
            0 <= i <= v@.len(),
            r@ == v@.take(i as int),
        decreases v@.len() - i,
    {
        r.push(v[i]);
        proof {
            assert(r@ =~= v@.take(i + 1));
        }
        i = i + 1;
    }
    proof {
        assert(v@.take(v@.len() as int) =~= v@);
    }
    r
}

/// Copy a polygon.
pub fn clone_polygon(p: &Polygon) -> (r: Polygon)
    ensures
        eq_polygon(r, *p),
{
    Polygon { points: clone_points(&p.points), colour: p.colour }
}

/// Copy a candidate.
pub fn clone_image(im: &Image) -> (r: Image)
    ensures
        eq_image(r, *im),
        image_wf(*im) ==> image_wf(r),
{
    let mut polys: Vec<Polygon> = Vec::new();
    let mut i: usize = 0;
    while i < im.polygon.len()
        invariant
            0 <= i <= im.polygon@.len(),
            polys@.len() == i,
            forall|j: int| 0 <= j < i ==> eq_polygon(#[trigger] polys@[j], im.polygon@[j]),
        decreases im.polygon@.len() - i,
    {
        let p = clone_polygon(&im.polygon[i]);
        polys.push(p);
        i = i + 1;
    }
    let r = Image { polygon: polys, width: im.width, height: im.height };
    proof {
        if image_wf(*im) {
            assert forall|j: int| 0 <= j < r.polygon@.len() implies polygon_wf(
                #[trigger] r.polygon@[j],
                r.width as int,
                r.height as int,
            ) by {
                assert(eq_polygon(r.polygon@[j], im.polygon@[j]));
                assert(polygon_wf(im.polygon@[j], im.width as int, im.height as int));
                assert(r.polygon@[j].points@ == im.polygon@[j].points@);
            }
        }
    }
    r
}

} // verus!
