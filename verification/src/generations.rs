//! Random generation of colours, points, polygons and whole candidates.

use crate::rng::RandomSource;
use crate::types::{
    dims_valid, image_wf, point_in_canvas, point_in_open_canvas, polygon_wf, Image, Polygon,
    COORD_SCALE,
};
use vstd::prelude::*;

verus! {

/// Largest point count of a freshly generated polygon.
pub const MAX_POINTS: usize = 6;

/// Smallest point count of a freshly generated polygon.
pub const MIN_POINTS: usize = 3;

/// Polygon count of a freshly generated candidate.
pub const INITIAL_POLYGONS: usize = 50;

/// Smallest alpha of a freshly generated colour.
pub const MIN_ALPHA: u8 = 30;

/// Largest alpha of a freshly generated colour: colours start
/// semi-transparent so polygons layer.
pub const MAX_ALPHA: u8 = 150;

/// A uniform colour: independent uniform bytes for red, green and blue,
/// and an alpha uniform in `[MIN_ALPHA, MAX_ALPHA]`.
pub fn generate_random_colour(rng: &mut RandomSource) -> (c: [u8; 4])
    ensures
        MIN_ALPHA <= c@[3] <= MAX_ALPHA,
{
    let r = rng.next_below(256) as u8;
    let g = rng.next_below(256) as u8;
    let b = rng.next_below(256) as u8;
    let a = MIN_ALPHA + (rng.next_below((MAX_ALPHA - MIN_ALPHA + 1) as u64) as u8);
    [r, g, b, a]
}

/// A uniform point of the canvas: each coordinate uniform over the canvas
/// extent in sub-pixel units, strictly below the far boundary.
pub fn generate_random_point(rng: &mut RandomSource, width: usize, height: usize) -> (p: (
    i64,
    i64,
))
    requires
        dims_valid(width as int, height as int),
    ensures
        point_in_open_canvas(p, width as int, height as int),
        point_in_canvas(p, width as int, height as int),
{
    let x = rng.next_below((width as u64) * (COORD_SCALE as u64)) as i64;
    let y = rng.next_below((height as u64) * (COORD_SCALE as u64)) as i64;
    (x, y)
}

/// A uniform count in `[MIN_POINTS, MAX_POINTS]` of uniform points.
pub fn generate_random_points(rng: &mut RandomSource, width: usize, height: usize) -> (v: Vec<
    (i64, i64),
>)
    requires
        dims_valid(width as int, height as int),
    ensures
        MIN_POINTS <= v@.len() <= MAX_POINTS,
        forall|i: int|
            0 <= i < v@.len() ==> point_in_open_canvas(#[trigger] v@[i], width as int, height as int),
{
    let count = MIN_POINTS + rng.next_index(MAX_POINTS - MIN_POINTS + 1);
    let mut v: Vec<(i64, i64)> = Vec::new();
    let mut i: usize = 0;
    while i < count
        invariant
            dims_valid(width as int, height as int),
            MIN_POINTS <= count <= MAX_POINTS,
            0 <= i <= count,
            v@.len() == i,
            forall|j: int|
                0 <= j < v@.len() ==> point_in_open_canvas(
                    #[trigger] v@[j],
                    width as int,
                    height as int,
                ),
        decreases count - i,
    {
        let p = generate_random_point(rng, width, height);
        v.push(p);
        i = i + 1;
    }
    v
}

/// A freshly generated polygon: a small point count, every point strictly
/// inside the canvas, a semi-transparent alpha.
pub open spec fn generated_polygon_ok(p: Polygon, width: int, height: int) -> bool {
    &&& MIN_POINTS <= p.points@.len() <= MAX_POINTS
    &&& forall|i: int|
        0 <= i < p.points@.len() ==> point_in_open_canvas(#[trigger] p.points@[i], width, height)
    &&& p.colour@.len() == 4
    &&& MIN_ALPHA <= p.colour@[3] <= MAX_ALPHA
}

/// A fresh random polygon of the canvas.
pub fn generate_random_polygon(rng: &mut RandomSource, width: usize, height: usize) -> (p: Polygon)
    requires
        dims_valid(width as int, height as int),
    ensures
        generated_polygon_ok(p, width as int, height as int),
        polygon_wf(p, width as int, height as int),
        MIN_POINTS <= p.points@.len() <= MAX_POINTS,
{
    let points = generate_random_points(rng, width, height);
    let colour = generate_random_colour(rng);
    Polygon { points, colour }
}

/// A fresh random candidate: `INITIAL_POLYGONS` independent polygons.
pub fn generate_initial_image(rng: &mut RandomSource, width: usize, height: usize) -> (im: Image)
    requires
        dims_valid(width as int, height as int),
    ensures
        image_wf(im),
        im.width == width,
        im.height == height,
        im.polygon@.len() == INITIAL_POLYGONS,
        forall|i: int|
            0 <= i < im.polygon@.len() ==> generated_polygon_ok(
                #[trigger] im.polygon@[i],
                width as int,
                height as int,
            ),
{
    let mut polys: Vec<Polygon> = Vec::new();
    let mut i: usize = 0;
    while i < INITIAL_POLYGONS
        invariant
            dims_valid(width as int, height as int),
            0 <= i <= INITIAL_POLYGONS,
            polys@.len() == i,
            forall|j: int|
                0 <= j < polys@.len() ==> polygon_wf(
                    #[trigger] polys@[j],
                    width as int,
                    height as int,
                ) && generated_polygon_ok(polys@[j], width as int, height as int),
        decreases INITIAL_POLYGONS - i,
    {
        let p = generate_random_polygon(rng, width, height);
        polys.push(p);
        i = i + 1;
    }
    Image { polygon: polys, width, height }
}

} // verus!
