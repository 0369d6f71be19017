//! Stochastic single-candidate edits.
//!
//! Each operator returns a fresh candidate; a candidate with no polygons
//! (or an empty targeted point list) passes through unchanged — a no-op,
//! not an error. Positional operators clamp every coordinate they touch to
//! `[0, (width-1)*COORD_SCALE] x [0, (height-1)*COORD_SCALE]`, whatever
//! the coordinate held before. `remove_polygon` never drops the polygon
//! count below `MIN_POLYGONS`, and `delete_point` never drops a polygon
//! below three points.

use crate::generations::{
    generate_random_point, generate_random_polygon, generated_polygon_ok, MAX_POINTS, MIN_POINTS,
};
use crate::rng::RandomSource;
use crate::types::{
    clone_points, clone_polygon, dims_valid, eq_image, eq_polygon, eq_polygons, image_wf,
    point_in_canvas, point_in_open_canvas, polygon_wf, Image, Polygon, COORD_SCALE,
};
use vstd::prelude::*;

verus! {

/// Largest sub-pixel distance a single point moves in one edit.
pub const POINT_MOVE_DELTA: i64 = 5 * COORD_SCALE;

/// Largest sub-pixel distance a whole polygon moves in one edit.
pub const POLYGON_MOVE_DELTA: i64 = 3 * COORD_SCALE;

/// Largest change of one colour channel in one edit.
pub const COLOUR_DELTA: i64 = 20;

/// Polygon-count floor: a candidate never shrinks below this many polygons.
pub const MIN_POLYGONS: usize = 10;

/// All polygons equal slot by slot, except possibly slot `k`.
pub open spec fn same_except(a: Seq<Polygon>, b: Seq<Polygon>, k: int) -> bool {
    a.len() == b.len() && forall|i: int|
        0 <= i < a.len() && i != k ==> eq_polygon(#[trigger] a[i], b[i])
}

/// One coordinate clamped to `[lo, hi]`.
pub open spec fn clamp_coord(v: int, lo: int, hi: int) -> int {
    if v < lo {
        lo
    } else if v > hi {
        hi
    } else {
        v
    }
}

/// A point both of whose coordinates lie in the clamp box of the canvas:
/// pixel columns `0` to `width - 1`, rows `0` to `height - 1`.
pub open spec fn point_clamped(p: (i64, i64), width: int, height: int) -> bool {
    0 <= p.0 <= (width - 1) * COORD_SCALE && 0 <= p.1 <= (height - 1) * COORD_SCALE
}

/// `r` is `im` with point `j` of polygon `k` moved by `(dx, dy)` and
/// clamped to the canvas; nothing else differs.
pub open spec fn moved_point_ok(im: Image, r: Image, k: int, j: int, dx: int, dy: int) -> bool {
    &&& 0 <= k < im.polygon@.len()
    &&& same_except(r.polygon@, im.polygon@, k)
    &&& r.polygon@[k].colour@ == im.polygon@[k].colour@
    &&& 0 <= j < im.polygon@[k].points@.len()
    &&& r.polygon@[k].points@.len() == im.polygon@[k].points@.len()
    &&& forall|i: int|
        0 <= i < im.polygon@[k].points@.len() && i != j ==> #[trigger] r.polygon@[k].points@[i]
            == im.polygon@[k].points@[i]
    &&& -POINT_MOVE_DELTA <= dx <= POINT_MOVE_DELTA
    &&& -POINT_MOVE_DELTA <= dy <= POINT_MOVE_DELTA
    &&& r.polygon@[k].points@[j].0 == clamp_coord(
        im.polygon@[k].points@[j].0 + dx,
        0,
        (im.width - 1) * COORD_SCALE,
    )
    &&& r.polygon@[k].points@[j].1 == clamp_coord(
        im.polygon@[k].points@[j].1 + dy,
        0,
        (im.height - 1) * COORD_SCALE,
    )
    &&& point_clamped(r.polygon@[k].points@[j], im.width as int, im.height as int)
}

/// `r` is `im` with every point of polygon `k` translated by `(dx, dy)`
/// and clamped to the canvas; nothing else differs.
pub open spec fn moved_polygon_ok(im: Image, r: Image, k: int, dx: int, dy: int) -> bool {
    &&& 0 <= k < im.polygon@.len()
    &&& same_except(r.polygon@, im.polygon@, k)
    &&& r.polygon@[k].colour@ == im.polygon@[k].colour@
    &&& r.polygon@[k].points@.len() == im.polygon@[k].points@.len()
    &&& -POLYGON_MOVE_DELTA <= dx <= POLYGON_MOVE_DELTA
    &&& -POLYGON_MOVE_DELTA <= dy <= POLYGON_MOVE_DELTA
    &&& forall|i: int|
        0 <= i < im.polygon@[k].points@.len() ==> #[trigger] r.polygon@[k].points@[i] == (
        clamp_coord(im.polygon@[k].points@[i].0 + dx, 0, (im.width - 1) * COORD_SCALE) as i64,
        clamp_coord(im.polygon@[k].points@[i].1 + dy, 0, (im.height - 1) * COORD_SCALE) as i64,
        )
    &&& forall|i: int|
        0 <= i < r.polygon@[k].points@.len() ==> point_clamped(
            #[trigger] r.polygon@[k].points@[i],
            im.width as int,
            im.height as int,
        )
}

/// `r` is `im` with channel `c` of polygon `k`'s colour shifted by `d` and
/// clamped to a byte; nothing else differs.
pub open spec fn changed_colour_ok(im: Image, r: Image, k: int, c: int, d: int) -> bool {
    &&& 0 <= k < im.polygon@.len()
    &&& same_except(r.polygon@, im.polygon@, k)
    &&& r.polygon@[k].points@ == im.polygon@[k].points@
    &&& 0 <= c < 4
    &&& -COLOUR_DELTA <= d <= COLOUR_DELTA
    &&& r.polygon@[k].colour@.len() == 4
    &&& forall|i: int|
        0 <= i < 4 && i != c ==> #[trigger] r.polygon@[k].colour@[i] == im.polygon@[k].colour@[i]
    &&& r.polygon@[k].colour@[c] == clamp_coord(im.polygon@[k].colour@[c] + d, 0, 255)
}

/// `r` is `im` with polygon slots `a` and `b` exchanged.
pub open spec fn swapped_ok(im: Image, r: Image, a: int, b: int) -> bool {
    &&& 0 <= a < im.polygon@.len()
    &&& 0 <= b < im.polygon@.len()
    &&& r.polygon@.len() == im.polygon@.len()
    &&& eq_polygon(r.polygon@[a], im.polygon@[b])
    &&& eq_polygon(r.polygon@[b], im.polygon@[a])
    &&& forall|i: int|
        0 <= i < im.polygon@.len() && i != a && i != b ==> eq_polygon(
            #[trigger] r.polygon@[i],
            im.polygon@[i],
        )
}

/// `r` is `im` with one fresh point appended to polygon `k`.
pub open spec fn added_point_ok(im: Image, r: Image, k: int) -> bool {
    &&& 0 <= k < im.polygon@.len()
    &&& same_except(r.polygon@, im.polygon@, k)
    &&& r.polygon@[k].colour@ == im.polygon@[k].colour@
    &&& r.polygon@[k].points@.len() == im.polygon@[k].points@.len() + 1
    &&& r.polygon@[k].points@.take(im.polygon@[k].points@.len() as int)
        == im.polygon@[k].points@
    &&& point_in_open_canvas(r.polygon@[k].points@.last(), im.width as int, im.height as int)
}

/// `r` is `im` with point `j` removed from polygon `k`, which held more
/// than three points.
pub open spec fn deleted_point_ok(im: Image, r: Image, k: int, j: int) -> bool {
    &&& 0 <= k < im.polygon@.len()
    &&& same_except(r.polygon@, im.polygon@, k)
    &&& r.polygon@[k].colour@ == im.polygon@[k].colour@
    &&& im.polygon@[k].points@.len() > 3
    &&& 0 <= j < im.polygon@[k].points@.len()
    &&& r.polygon@[k].points@ == im.polygon@[k].points@.remove(j)
}

/// `r` is `im` with one freshly generated polygon appended; everything
/// already there is unchanged.
pub open spec fn added_polygon_ok(im: Image, r: Image) -> bool {
    &&& r.polygon@.len() == im.polygon@.len() + 1
    &&& forall|i: int|
        0 <= i < im.polygon@.len() ==> eq_polygon(#[trigger] r.polygon@[i], im.polygon@[i])
    &&& generated_polygon_ok(r.polygon@.last(), im.width as int, im.height as int)
}

/// Every polygon of the list keeps at least three points.
pub open spec fn all_at_least_tri(s: Seq<Polygon>) -> bool {
    forall|i: int| 0 <= i < s.len() ==> (#[trigger] s[i]).points@.len() >= 3
}

/// The result of one mutation operator: exactly one of the eight edits, or
/// the documented no-op of an operator whose targeted list was empty or at
/// its floor.
pub open spec fn mutation_outcome(im: Image, r: Image) -> bool {
    ||| (exists|k: int, j: int, dx: int, dy: int| #[trigger] moved_point_ok(im, r, k, j, dx, dy))
    ||| (exists|k: int, c: int, d: int| #[trigger] changed_colour_ok(im, r, k, c, d))
    ||| (exists|k: int, dx: int, dy: int| #[trigger] moved_polygon_ok(im, r, k, dx, dy))
    ||| (exists|a: int, b: int| #[trigger] swapped_ok(im, r, a, b))
    ||| added_polygon_ok(im, r)
    ||| (exists|k: int|
        0 <= k < im.polygon@.len() && eq_polygons(r.polygon@, #[trigger] im.polygon@.remove(k)))
    ||| (exists|k: int| #[trigger] added_point_ok(im, r, k))
    ||| (exists|k: int, j: int| #[trigger] deleted_point_ok(im, r, k, j))
    ||| eq_image(r, im)
}

/// Perturb one random point of one random polygon by a bounded delta and
/// re-clamp it to the canvas.
pub fn move_point(image: Image, rng: &mut RandomSource) -> (r: Image)
    requires
        dims_valid(image.width as int, image.height as int),
    ensures
        r.width == image.width,
        r.height == image.height,
        r.polygon@.len() == image.polygon@.len(),
        image.polygon@.len() == 0 ==> eq_image(r, image),
        image.polygon@.len() > 0 ==> ((exists|k: int|
            0 <= k < image.polygon@.len() && (#[trigger] image.polygon@[k]).points@.len() == 0
                && eq_image(r, image)) || (exists|k: int, j: int, dx: int, dy: int|
            #[trigger] moved_point_ok(image, r, k, j, dx, dy))),
        all_at_least_tri(image.polygon@) ==> all_at_least_tri(r.polygon@),
        image_wf(image) ==> image_wf(r),
{
    let ghost im0 = image;
    let mut image = image;
    if image.polygon.len() == 0 {
        proof {
            assert(eq_image(image, im0));
        }
        return image;
    }
    let k = rng.next_index(image.polygon.len());
    if image.polygon[k].points.len() == 0 {
        proof {
            assert(eq_image(image, im0));
        }
        return image;
    }
    let j = rng.next_index(image.polygon[k].points.len());
    let dx = rng.next_delta(POINT_MOVE_DELTA);
    let dy = rng.next_delta(POINT_MOVE_DELTA);
    let old_pt = image.polygon[k].points[j];
    let nx = shift_clamp(old_pt.0, dx, image.width);
    let ny = shift_clamp(old_pt.1, dy, image.height);
    let mut points = clone_points(&image.polygon[k].points);
    points[j] = (nx, ny);
    let poly = Polygon { points, colour: image.polygon[k].colour };
    image.polygon[k] = poly;
    proof {
        lemma_scale_box(im0.width as int, im0.height as int);
        assert(moved_point_ok(im0, image, k as int, j as int, dx as int, dy as int));
        if image_wf(im0) {
            lemma_wf_after_update(im0, image, k as int);
        }
    }
    image
}

/// Translate every point of one random polygon by one bounded delta and
/// re-clamp each to the canvas.
pub fn move_polygon(image: Image, rng: &mut RandomSource) -> (r: Image)
    requires
        dims_valid(image.width as int, image.height as int),
    ensures
        r.width == image.width,
        r.height == image.height,
        r.polygon@.len() == image.polygon@.len(),
        image.polygon@.len() == 0 ==> eq_image(r, image),
        image.polygon@.len() > 0 ==> exists|k: int, dx: int, dy: int|
            #[trigger] moved_polygon_ok(image, r, k, dx, dy),
        all_at_least_tri(image.polygon@) ==> all_at_least_tri(r.polygon@),
        image_wf(image) ==> image_wf(r),
{
    let ghost im0 = image;
    let mut image = image;
    if image.polygon.len() == 0 {
        proof {
            assert(eq_image(image, im0));
        }
        return image;
    }
    let k = rng.next_index(image.polygon.len());
    let dx = rng.next_delta(POLYGON_MOVE_DELTA);
    let dy = rng.next_delta(POLYGON_MOVE_DELTA);
    let mut points: Vec<(i64, i64)> = Vec::new();
    let n = image.polygon[k].points.len();
    let mut i: usize = 0;
    while i < n
        invariant
            dims_valid(im0.width as int, im0.height as int),
            image == im0,
            0 <= k < image.polygon@.len(),
            n == image.polygon@[k as int].points@.len(),
            0 <= i <= n,
            points@.len() == i,
            -POLYGON_MOVE_DELTA <= dx <= POLYGON_MOVE_DELTA,
            -POLYGON_MOVE_DELTA <= dy <= POLYGON_MOVE_DELTA,
            forall|m: int|
                0 <= m < i ==> #[trigger] points@[m] == (
                clamp_coord(
                    image.polygon@[k as int].points@[m].0 + dx,
                    0,
                    (image.width - 1) * COORD_SCALE,
                ) as i64,
                clamp_coord(
                    image.polygon@[k as int].points@[m].1 + dy,
                    0,
                    (image.height - 1) * COORD_SCALE,
                ) as i64,
                ),
        decreases n - i,
    {
        let pt = image.polygon[k].points[i];
        let nx = shift_clamp(pt.0, dx, image.width);
        let ny = shift_clamp(pt.1, dy, image.height);
        points.push((nx, ny));
        i = i + 1;
    }
    let poly = Polygon { points, colour: image.polygon[k].colour };
    image.polygon[k] = poly;
    proof {
        lemma_scale_box(im0.width as int, im0.height as int);
        assert(moved_polygon_ok(im0, image, k as int, dx as int, dy as int));
        if image_wf(im0) {
            lemma_wf_after_update(im0, image, k as int);
        }
    }
    image
}

/// Shift one random colour channel of one random polygon by a bounded
/// delta, clamped to a byte.
pub fn change_colour(image: Image, rng: &mut RandomSource) -> (r: Image)
    ensures
        r.width == image.width,
        r.height == image.height,
        r.polygon@.len() == image.polygon@.len(),
        image.polygon@.len() == 0 ==> eq_image(r, image),
        image.polygon@.len() > 0 ==> exists|k: int, c: int, d: int|
            #[trigger] changed_colour_ok(image, r, k, c, d),
        all_at_least_tri(image.polygon@) ==> all_at_least_tri(r.polygon@),
        image_wf(image) ==> image_wf(r),
{
    let ghost im0 = image;
    let mut image = image;
    if image.polygon.len() == 0 {
        proof {
            assert(eq_image(image, im0));
        }
        return image;
    }
    let k = rng.next_index(image.polygon.len());
    let c = rng.next_index(4);
    let d = rng.next_delta(COLOUR_DELTA);
    let old_colour = image.polygon[k].colour;
    let old_v: i64 = match c {
        0 => old_colour[0] as i64,
        1 => old_colour[1] as i64,
        2 => old_colour[2] as i64,
        _ => old_colour[3] as i64,
    };
    let shifted: i64 = old_v + d;
    let new_v: u8 = if shifted < 0 {
        0
    } else if shifted > 255 {
        255
    } else {
        shifted as u8
    };
    let new_colour: [u8; 4] = match c {
        0 => [new_v, old_colour[1], old_colour[2], old_colour[3]],
        1 => [old_colour[0], new_v, old_colour[2], old_colour[3]],
        2 => [old_colour[0], old_colour[1], new_v, old_colour[3]],
        _ => [old_colour[0], old_colour[1], old_colour[2], new_v],
    };
    let points = clone_points(&image.polygon[k].points);
    let poly = Polygon { points, colour: new_colour };
    image.polygon[k] = poly;
    proof {
        let cc: int = if c < 3 { c as int } else { 3 };
        assert(changed_colour_ok(im0, image, k as int, cc, d as int));
        if image_wf(im0) {
            lemma_wf_after_update(im0, image, k as int);
        }
    }
    image
}

/// Exchange two randomly chosen polygon slots (paint order only).
pub fn reorder_polygon(image: Image, rng: &mut RandomSource) -> (r: Image)
    ensures
        r.width == image.width,
        r.height == image.height,
        r.polygon@.len() == image.polygon@.len(),
        image.polygon@.len() < 2 ==> eq_image(r, image),
        image.polygon@.len() >= 2 ==> exists|a: int, b: int| #[trigger] swapped_ok(image, r, a, b),
        all_at_least_tri(image.polygon@) ==> all_at_least_tri(r.polygon@),
        image_wf(image) ==> image_wf(r),
{
    let ghost im0 = image;
    let mut image = image;
    if image.polygon.len() < 2 {
        proof {
            assert(eq_image(image, im0));
        }
        return image;
    }
    let a = rng.next_index(image.polygon.len());
    let b = rng.next_index(image.polygon.len());
    let pa = clone_polygon(&image.polygon[a]);
    let pb = clone_polygon(&image.polygon[b]);
    image.polygon[a] = pb;
    image.polygon[b] = pa;
    proof {
        assert(swapped_ok(im0, image, a as int, b as int));
        if image_wf(im0) {
            assert forall|i: int| 0 <= i < image.polygon@.len() implies polygon_wf(
                #[trigger] image.polygon@[i],
                image.width as int,
                image.height as int,
            ) by {
                if i == a as int {
                    assert(eq_polygon(image.polygon@[i], im0.polygon@[b as int]));
                } else if i == b as int {
                    assert(eq_polygon(image.polygon@[i], im0.polygon@[a as int]));
                } else {
                    assert(eq_polygon(image.polygon@[i], im0.polygon@[i]));
                }
            }
        }
    }
    image
}

/// Append one freshly generated random polygon.
pub fn add_polygon(image: Image, rng: &mut RandomSource) -> (r: Image)
    requires
        dims_valid(image.width as int, image.height as int),
    ensures
        r.width == image.width,
        r.height == image.height,
        added_polygon_ok(image, r),
        r.polygon@.len() == image.polygon@.len() + 1,
        forall|i: int|
            0 <= i < image.polygon@.len() ==> eq_polygon(#[trigger] r.polygon@[i], image.polygon@[i]),
        polygon_wf(r.polygon@.last(), image.width as int, image.height as int),
        MIN_POINTS <= r.polygon@.last().points@.len() <= MAX_POINTS,
        all_at_least_tri(image.polygon@) ==> all_at_least_tri(r.polygon@),
        image_wf(image) ==> image_wf(r),
{
    let ghost im0 = image;
    let mut image = image;
    let poly = generate_random_polygon(rng, image.width, image.height);
    image.polygon.push(poly);
    image
}

/// Remove a randomly chosen polygon, but only while the candidate stays
/// at or above the `MIN_POLYGONS` floor.
pub fn remove_polygon(image: Image, rng: &mut RandomSource) -> (r: Image)
    ensures
        r.width == image.width,
        r.height == image.height,
        r.polygon@.len() >= MIN_POLYGONS || r.polygon@.len() == image.polygon@.len(),
        image.polygon@.len() <= MIN_POLYGONS ==> eq_image(r, image),
        image.polygon@.len() > MIN_POLYGONS ==> exists|k: int|
            0 <= k < image.polygon@.len() && eq_polygons(
                r.polygon@,
                #[trigger] image.polygon@.remove(k),
            ),
        all_at_least_tri(image.polygon@) ==> all_at_least_tri(r.polygon@),
        image_wf(image) ==> image_wf(r),
{
    let ghost im0 = image;
    let mut image = image;
    if image.polygon.len() > MIN_POLYGONS {
        let k = rng.next_index(image.polygon.len());
        image.polygon.remove(k);
        proof {
            assert(eq_polygons(image.polygon@, im0.polygon@.remove(k as int)));
            if image_wf(im0) {
                assert forall|i: int| 0 <= i < image.polygon@.len() implies polygon_wf(
                    #[trigger] image.polygon@[i],
                    image.width as int,
                    image.height as int,
                ) by {
                    if i < k as int {
                        assert(eq_polygon(image.polygon@[i], im0.polygon@[i]));
                    } else {
                        assert(eq_polygon(image.polygon@[i], im0.polygon@[i + 1]));
                    }
                }
            }
        }
    }
    image
}

/// Append one random point to a randomly chosen polygon.
pub fn add_point(image: Image, rng: &mut RandomSource) -> (r: Image)
    requires
        dims_valid(image.width as int, image.height as int),
    ensures
        r.width == image.width,
        r.height == image.height,
        r.polygon@.len() == image.polygon@.len(),
        image.polygon@.len() == 0 ==> eq_image(r, image),
        image.polygon@.len() > 0 ==> exists|k: int| #[trigger] added_point_ok(image, r, k),
        all_at_least_tri(image.polygon@) ==> all_at_least_tri(r.polygon@),
        image_wf(image) ==> image_wf(r),
{
    let ghost im0 = image;
    let mut image = image;
    if image.polygon.len() == 0 {
        return image;
    }
    let k = rng.next_index(image.polygon.len());
    let p = generate_random_point(rng, image.width, image.height);
    let mut points = clone_points(&image.polygon[k].points);
    points.push(p);
    let poly = Polygon { points, colour: image.polygon[k].colour };
    image.polygon[k] = poly;
    proof {
        assert(image.polygon@[k as int].points@.take(im0.polygon@[k as int].points@.len() as int)
            =~= im0.polygon@[k as int].points@);
        assert(added_point_ok(im0, image, k as int));
        if image_wf(im0) {
            lemma_wf_after_update(im0, image, k as int);
        }
    }
    image
}

/// Remove a random point from a randomly chosen polygon, only if that
/// polygon keeps at least three points afterwards.
pub fn delete_point(image: Image, rng: &mut RandomSource) -> (r: Image)
    ensures
        r.width == image.width,
        r.height == image.height,
        r.polygon@.len() == image.polygon@.len(),
        forall|i: int|
            0 <= i < r.polygon@.len() ==> #[trigger] r.polygon@[i].points@.len() >= 3
                || r.polygon@[i].points@.len() == image.polygon@[i].points@.len(),
        image.polygon@.len() == 0 ==> eq_image(r, image),
        image.polygon@.len() > 0 ==> exists|k: int|
            0 <= k < image.polygon@.len() && (((#[trigger] image.polygon@[k]).points@.len() <= 3
                && eq_image(r, image)) || exists|j: int| deleted_point_ok(image, r, k, j)),
        all_at_least_tri(image.polygon@) ==> all_at_least_tri(r.polygon@),
        image_wf(image) ==> image_wf(r),
{
    let ghost im0 = image;
    let mut image = image;
    if image.polygon.len() == 0 {
        proof {
            assert(eq_image(image, im0));
        }
        return image;
    }
    let k = rng.next_index(image.polygon.len());
    proof {
        assert(eq_image(image, im0));
    }
    if image.polygon[k].points.len() > 3 {
        let j = rng.next_index(image.polygon[k].points.len());
        let mut points = clone_points(&image.polygon[k].points);
        points.remove(j);
        let poly = Polygon { points, colour: image.polygon[k].colour };
        image.polygon[k] = poly;
        proof {
            assert(deleted_point_ok(im0, image, k as int, j as int));
            if image_wf(im0) {
                assert forall|i: int|
                    0 <= i < image.polygon@[k as int].points@.len() implies point_in_canvas(
                    #[trigger] image.polygon@[k as int].points@[i],
                    image.width as int,
                    image.height as int,
                ) by {
                    let old_pts = im0.polygon@[k as int].points@;
                    if i < j as int {
                        assert(image.polygon@[k as int].points@[i] == old_pts[i]);
                    } else {
                        assert(image.polygon@[k as int].points@[i] == old_pts[i + 1]);
                    }
                    assert(polygon_wf(im0.polygon@[k as int], im0.width as int, im0.height as int));
                }
                lemma_wf_after_update(im0, image, k as int);
            }
        }
    }
    image
}

/// Apply one randomly selected operator, drawn from a fixed cumulative
/// weight table (weights sum to one; the scan falls through in table
/// order, so the first operator is the default if nothing else matches).
pub fn mutate_image(image: Image, rng: &mut RandomSource) -> (r: Image)
    requires
        dims_valid(image.width as int, image.height as int),
    ensures
        r.width == image.width,
        r.height == image.height,
        image_wf(image) ==> image_wf(r),
        r.polygon@.len() >= MIN_POLYGONS || r.polygon@.len() >= image.polygon@.len(),
        image.polygon@.len() - 1 <= r.polygon@.len() <= image.polygon@.len() + 1,
        all_at_least_tri(image.polygon@) ==> all_at_least_tri(r.polygon@),
        mutation_outcome(image, r),
{
    let roll = rng.next_micro();
    if roll < 300000 {
        move_point(image, rng)
    } else if roll < 600000 {
        change_colour(image, rng)
    } else if roll < 750000 {
        move_polygon(image, rng)
    } else if roll < 850000 {
        reorder_polygon(image, rng)
    } else if roll < 900000 {
        add_polygon(image, rng)
    } else if roll < 950000 {
        remove_polygon(image, rng)
    } else if roll < 980000 {
        add_point(image, rng)
    } else {
        delete_point(image, rng)
    }
}

/// `(extent-1)*COORD_SCALE` is non-negative and below `extent*COORD_SCALE`.
proof fn lemma_scale_box(width: int, height: int)
    requires
        dims_valid(width, height),
    ensures
        0 <= (width - 1) * COORD_SCALE < width * COORD_SCALE,
        0 <= (height - 1) * COORD_SCALE < height * COORD_SCALE,
{
    assert((width - 1) * COORD_SCALE == width * COORD_SCALE - COORD_SCALE) by (nonlinear_arith);
    assert((height - 1) * COORD_SCALE == height * COORD_SCALE - COORD_SCALE) by (nonlinear_arith);
    assert(width * COORD_SCALE >= COORD_SCALE) by (nonlinear_arith)
        requires
            width >= 1,
    ;
    assert(height * COORD_SCALE >= COORD_SCALE) by (nonlinear_arith)
        requires
            height >= 1,
    ;
}

/// If `im` is well-formed, `r` differs from it only in slot `k`, and slot
/// `k` of `r` is itself well-formed, then `r` is well-formed.
proof fn lemma_wf_after_update(im: Image, r: Image, k: int)
    requires
        image_wf(im),
        r.width == im.width,
        r.height == im.height,
        same_except(r.polygon@, im.polygon@, k),
        0 <= k < r.polygon@.len() ==> polygon_wf(r.polygon@[k], r.width as int, r.height as int),
    ensures
        image_wf(r),
{
    assert forall|i: int| 0 <= i < r.polygon@.len() implies polygon_wf(
        #[trigger] r.polygon@[i],
        r.width as int,
        r.height as int,
    ) by {
        if i != k {
            assert(eq_polygon(r.polygon@[i], im.polygon@[i]));
            assert(polygon_wf(im.polygon@[i], im.width as int, im.height as int));
            assert(r.polygon@[i].points@ == im.polygon@[i].points@);
        }
    }
}

/// Add `d` to coordinate `v`, then clamp to `[0, (extent-1)*COORD_SCALE]`.
fn shift_clamp(v: i64, d: i64, extent: usize) -> (r: i64)
    requires
        1 <= extent <= crate::types::MAX_DIM,
    ensures
        r == clamp_coord(v + d, 0, (extent - 1) * COORD_SCALE),
{
    let hi: i64 = ((extent - 1) as i64) * COORD_SCALE;
    proof {
        assert((extent - 1) * COORD_SCALE <= 16384 * 256) by (nonlinear_arith)
            requires
                1 <= extent <= 16384,
        ;
        assert((extent - 1) * COORD_SCALE >= 0) by (nonlinear_arith)
            requires
                extent >= 1,
        ;
    }
    let sum: i128 = (v as i128) + (d as i128);
    if sum < 0 {
        0
    } else if sum > (hi as i128) {
        hi
    } else {
        sum as i64
    }
}

} // verus!
