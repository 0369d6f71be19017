//! Scanline polygon rasterizer with alpha compositing.
//!
//! A candidate is rendered onto a flat RGBA byte buffer, polygon by
//! polygon in draw order. Each polygon with at least three points is
//! filled by a classic scanline sweep: non-horizontal boundary edges are
//! recorded with their lower and upper row, their x at the lower row and
//! their inverse slope; each row activates the edges starting there, drops
//! the edges ending at or above it, sorts the active edges by current x
//! (stably), fills the even-odd spans between consecutive pairs, and then
//! advances each edge's x by its inverse slope. Every filled pixel is
//! composited with `out = src*alpha + dst*(1-alpha)` per RGB channel and
//! the output alpha is forced fully opaque.
//!
//! Edge x positions are fixed-point integers with `SUBPIX` units per
//! pixel, so rendering is deterministic integer arithmetic throughout:
//! the exec code is proven to return exactly `spec_render` of its input.

use crate::types::{dims_valid, image_wf, polygon_wf, Image, Polygon, COORD_SCALE, MAX_DIM};
use vstd::arithmetic::div_mod::{
    lemma_div_is_ordered, lemma_div_pos_is_pos, lemma_fundamental_div_mod,
};
use vstd::prelude::*;

verus! {

/// Fixed-point units per pixel of an edge's x position.
pub const SUBPIX: i64 = 65536;

/// Raw RGBA pixel buffer, row-major, `width * height * 4` bytes.
pub struct PixelBuffer {
    pub data: Vec<u8>,
    pub width: usize,
    pub height: usize,
}

/// The buffer holds exactly one RGBA quadruple per canvas pixel.
pub open spec fn pixel_buffer_wf(b: PixelBuffer) -> bool {
    &&& dims_valid(b.width as int, b.height as int)
    &&& b.data@.len() == b.width * b.height * 4
}

/// The all-zero buffer of a canvas.
pub open spec fn zero_buf(w: int, h: int) -> Seq<u8> {
    Seq::new((w * h * 4) as nat, |i: int| 0u8)
}

/// One scanline edge: rows `[y_lo, y_hi)`, fixed-point x starting at `x0`
/// (the x at row `y_lo`, in `SUBPIX` units), currently at `x`, advancing
/// by `step` (the fixed-point inverse slope) per row.
#[derive(Clone, Copy)]
pub struct Edge {
    pub y_lo: i64,
    pub y_hi: i64,
    pub x0: i64,
    pub x: i64,
    pub step: i64,
}

/// The mathematical value of an edge.
pub ghost struct GEdge {
    pub y_lo: int,
    pub y_hi: int,
    pub x0: int,
    pub x: int,
    pub step: int,
}

/// View of an exec edge.
pub open spec fn edge_view(e: Edge) -> GEdge {
    GEdge {
        y_lo: e.y_lo as int,
        y_hi: e.y_hi as int,
        x0: e.x0 as int,
        x: e.x as int,
        step: e.step as int,
    }
}

/// Views of a whole edge list.
pub open spec fn edges_view(s: Seq<Edge>) -> Seq<GEdge> {
    s.map_values(|e: Edge| edge_view(e))
}

/// Integer division truncated toward zero (the divisor positive).
pub open spec fn trunc_div(a: int, b: int) -> int {
    if a >= 0 {
        a / b
    } else {
        -((-a) / b)
    }
}

/// The pixel of a fixed-point canvas coordinate.
pub open spec fn floor_pt(p: (i64, i64)) -> (int, int) {
    (p.0 as int / COORD_SCALE as int, p.1 as int / COORD_SCALE as int)
}

/// Pixel grid points of a polygon boundary.
pub open spec fn ipts_of(pts: Seq<(i64, i64)>) -> Seq<(int, int)> {
    pts.map_values(|p: (i64, i64)| floor_pt(p))
}

/// Smallest y among the first `n` points.
pub open spec fn min_y_upto(ip: Seq<(int, int)>, n: int) -> int
    decreases n,
{
    if n <= 1 {
        ip[0].1
    } else {
        vstd::math::min(min_y_upto(ip, n - 1), ip[n - 1].1)
    }
}

/// Largest y among the first `n` points.
pub open spec fn max_y_upto(ip: Seq<(int, int)>, n: int) -> int
    decreases n,
{
    if n <= 1 {
        ip[0].1
    } else {
        vstd::math::max(max_y_upto(ip, n - 1), ip[n - 1].1)
    }
}

/// The scanline edge of one non-horizontal boundary segment.
pub open spec fn mk_edge(a: (int, int), b: (int, int)) -> GEdge {
    let lo = if a.1 < b.1 {
        a
    } else {
        b
    };
    let hi = if a.1 < b.1 {
        b
    } else {
        a
    };
    GEdge {
        y_lo: lo.1,
        y_hi: hi.1,
        x0: lo.0 * SUBPIX,
        x: lo.0 * SUBPIX,
        step: trunc_div((hi.0 - lo.0) * SUBPIX, hi.1 - lo.1),
    }
}

/// Edges of the first `k` boundary segments (segment `i` joins point `i`
/// to point `i + 1`, wrapping at the end); horizontal segments are skipped.
pub open spec fn edges_upto(ip: Seq<(int, int)>, k: int) -> Seq<GEdge>
    decreases k,
{
    if k <= 0 {
        Seq::empty()
    } else {
        let prev = edges_upto(ip, k - 1);
        let a = ip[k - 1];
        let b = ip[if k == ip.len() {
            0
        } else {
            k
        }];
        if a.1 == b.1 {
            prev
        } else {
            prev.push(mk_edge(a, b))
        }
    }
}

/// All scanline edges of a polygon boundary.
pub open spec fn edges_of(ip: Seq<(int, int)>) -> Seq<GEdge> {
    edges_upto(ip, ip.len() as int)
}

/// The active edges, among the first `k`, that continue past row `y`.
pub open spec fn survivors_upto(active: Seq<GEdge>, y: int, k: int) -> Seq<GEdge>
    decreases k,
{
    if k <= 0 {
        Seq::empty()
    } else {
        let prev = survivors_upto(active, y, k - 1);
        if active[k - 1].y_hi > y {
            prev.push(active[k - 1])
        } else {
            prev
        }
    }
}

/// The edges, among the first `k`, that start at row `y`.
pub open spec fn activations_upto(edges: Seq<GEdge>, y: int, k: int) -> Seq<GEdge>
    decreases k,
{
    if k <= 0 {
        Seq::empty()
    } else {
        let prev = activations_upto(edges, y, k - 1);
        if edges[k - 1].y_lo == y {
            prev.push(edges[k - 1])
        } else {
            prev
        }
    }
}

/// Insert `e` into `s` after every element whose x is at most `e`'s
/// (a stable insertion from the right).
pub open spec fn insert_sorted(s: Seq<GEdge>, e: GEdge) -> Seq<GEdge>
    decreases s.len(),
{
    if s.len() == 0 {
        seq![e]
    } else if s.last().x <= e.x {
        s.push(e)
    } else {
        insert_sorted(s.drop_last(), e).push(s.last())
    }
}

/// Stable insertion sort by current x of the first `k` elements.
pub open spec fn sort_upto(s: Seq<GEdge>, k: int) -> Seq<GEdge>
    decreases k,
{
    if k <= 0 {
        Seq::empty()
    } else {
        insert_sorted(sort_upto(s, k - 1), s[k - 1])
    }
}

/// Stable insertion sort of a whole edge list by current x.
pub open spec fn sort_edges(s: Seq<GEdge>) -> Seq<GEdge> {
    sort_upto(s, s.len() as int)
}

/// One channel of the "over" blend: `src` over `dst` at alpha `a/255`.
pub open spec fn blend_channel(src: u8, dst: u8, a: u8) -> u8 {
    ((src * a + dst * (255 - a)) / 255) as u8
}

/// Composite one pixel of the buffer with a colour; off-canvas pixels are
/// left untouched, and the stored alpha is forced fully opaque.
pub open spec fn blend_px(buf: Seq<u8>, x: int, y: int, colour: Seq<u8>, w: int, h: int) -> Seq<
    u8,
> {
    if 0 <= x < w && 0 <= y < h && (y * w + x) * 4 + 3 < buf.len() {
        let idx = (y * w + x) * 4;
        let a = colour[3];
        buf.update(idx, blend_channel(colour[0], buf[idx], a)).update(
            idx + 1,
            blend_channel(colour[1], buf[idx + 1], a),
        ).update(idx + 2, blend_channel(colour[2], buf[idx + 2], a)).update(idx + 3, 255u8)
    } else {
        buf
    }
}

/// Blend every pixel of row `y` from column `xs` to column `xe` inclusive.
pub open spec fn fill_span(
    buf: Seq<u8>,
    xs: int,
    xe: int,
    y: int,
    colour: Seq<u8>,
    w: int,
    h: int,
) -> Seq<u8>
    decreases xe + 1 - xs,
{
    if xs > xe {
        buf
    } else {
        fill_span(blend_px(buf, xs, y, colour, w, h), xs + 1, xe, y, colour, w, h)
    }
}

/// First column of a span: the ceiling of the left edge's x, not below 0.
pub open spec fn span_lo(e: GEdge) -> int {
    vstd::math::max((e.x + SUBPIX - 1) / (SUBPIX as int), 0)
}

/// Last column of a span: the floor of the right edge's x, not past the
/// canvas.
pub open spec fn span_hi(e: GEdge, w: int) -> int {
    vstd::math::min(e.x / (SUBPIX as int), w - 1)
}

/// Fill the even-odd spans between consecutive pairs of active edges.
pub open spec fn fill_pairs(
    act: Seq<GEdge>,
    buf: Seq<u8>,
    y: int,
    colour: Seq<u8>,
    w: int,
    h: int,
) -> Seq<u8>
    decreases act.len(),
{
    if act.len() < 2 {
        buf
    } else {
        fill_pairs(
            act.skip(2),
            fill_span(buf, span_lo(act[0]), span_hi(act[1], w), y, colour, w, h),
            y,
            colour,
            w,
            h,
        )
    }
}

/// Advance every active edge's x by its inverse slope.
pub open spec fn advance(act: Seq<GEdge>) -> Seq<GEdge> {
    act.map_values(
        |e: GEdge| GEdge { y_lo: e.y_lo, y_hi: e.y_hi, x0: e.x0, x: e.x + e.step, step: e.step },
    )
}

/// Sweep rows `y` up to (excluding) `y_end`: activate, retire, sort, fill
/// and advance, row by row.
pub open spec fn scan_rows(
    edges: Seq<GEdge>,
    y: int,
    y_end: int,
    active: Seq<GEdge>,
    buf: Seq<u8>,
    colour: Seq<u8>,
    w: int,
    h: int,
) -> Seq<u8>
    decreases y_end - y,
{
    if y >= y_end {
        buf
    } else {
        let incoming = survivors_upto(active, y, active.len() as int) + activations_upto(
            edges,
            y,
            edges.len() as int,
        );
        let sorted = sort_edges(incoming);
        let filled = fill_pairs(sorted, buf, y, colour, w, h);
        scan_rows(edges, y + 1, y_end, advance(sorted), filled, colour, w, h)
    }
}

/// Rasterize one polygon onto a buffer: skipped when it has fewer than
/// three points or no row of the canvas.
pub open spec fn fill_poly_spec(
    buf: Seq<u8>,
    pts: Seq<(i64, i64)>,
    colour: Seq<u8>,
    w: int,
    h: int,
) -> Seq<u8> {
    if pts.len() < 3 {
        buf
    } else {
        let ip = ipts_of(pts);
        let ymin = vstd::math::max(min_y_upto(ip, ip.len() as int), 0);
        let ymax = vstd::math::min(max_y_upto(ip, ip.len() as int), h - 1);
        if ymin > ymax {
            buf
        } else {
            scan_rows(edges_of(ip), ymin, ymax + 1, Seq::empty(), buf, colour, w, h)
        }
    }
}

/// The buffer after rendering the first `k` polygons onto a cleared canvas.
pub open spec fn render_upto(polys: Seq<Polygon>, k: int, w: int, h: int) -> Seq<u8>
    decreases k,
{
    if k <= 0 {
        zero_buf(w, h)
    } else {
        fill_poly_spec(
            render_upto(polys, k - 1, w, h),
            polys[k - 1].points@,
            polys[k - 1].colour@,
            w,
            h,
        )
    }
}

/// The buffer a candidate renders to. Rendering reads nothing but the
/// candidate, so it is deterministic: equal candidates render equal bytes.
pub open spec fn spec_render(im: Image) -> Seq<u8> {
    render_upto(im.polygon@, im.polygon@.len() as int, im.width as int, im.height as int)
}

impl PixelBuffer {
    /// A cleared buffer of the given canvas.
    pub fn new(width: usize, height: usize) -> (b: PixelBuffer)
        requires
            dims_valid(width as int, height as int),
        ensures
            pixel_buffer_wf(b),
            b.width == width,
            b.height == height,
            b.data@ == zero_buf(width as int, height as int),
    {
        proof {
            lemma_canvas_size(width as int, height as int);
        }
        let data = vec![0u8; width * height * 4];
        proof {
            assert(data@ =~= zero_buf(width as int, height as int));
        }
        PixelBuffer { data, width, height }
    }

    /// Reset every byte to zero, keeping the allocation.
    pub fn clear(&mut self)
        requires
            pixel_buffer_wf(*old(self)),
        ensures
            pixel_buffer_wf(*final(self)),
            final(self).width == old(self).width,
            final(self).height == old(self).height,
            final(self).data@ == zero_buf(old(self).width as int, old(self).height as int),
    {
        let n = self.data.len();
        let mut i: usize = 0;
        while i < n
            invariant
                self.data@.len() == n,
                self.width == old(self).width,
                self.height == old(self).height,
                0 <= i <= n,
                forall|j: int| 0 <= j < i ==> self.data@[j] == 0u8,
            decreases n - i,
        {
            self.data[i] = 0;
            i = i + 1;
        }
        proof {
            assert(self.data@ =~= zero_buf(old(self).width as int, old(self).height as int));
        }
    }

    /// Composite one pixel with a colour ("over" blend, opaque output
    /// alpha); coordinates off the canvas are ignored.
    pub fn set_pixel_blended(&mut self, x: usize, y: usize, colour: [u8; 4])
        requires
            pixel_buffer_wf(*old(self)),
        ensures
            pixel_buffer_wf(*final(self)),
            final(self).width == old(self).width,
            final(self).height == old(self).height,
            final(self).data@ == blend_px(
                old(self).data@,
                x as int,
                y as int,
                colour@,
                old(self).width as int,
                old(self).height as int,
            ),
    {
        if x >= self.width || y >= self.height {
            return ;
        }
        proof {
            lemma_pixel_index(x as int, y as int, self.width as int, self.height as int);
        }
        let idx = (y * self.width + x) * 4;
        let r0: u8 = blend_one(colour[0], self.data[idx], colour[3]);
        let g0: u8 = blend_one(colour[1], self.data[idx + 1], colour[3]);
        let b0: u8 = blend_one(colour[2], self.data[idx + 2], colour[3]);
        self.data[idx] = r0;
        self.data[idx + 1] = g0;
        self.data[idx + 2] = b0;
        self.data[idx + 3] = 255;
        proof {
            assert(self.data@ =~= blend_px(
                old(self).data@,
                x as int,
                y as int,
                colour@,
                old(self).width as int,
                old(self).height as int,
            ));
        }
    }
}

/// One blended channel, computed exactly as the spec states it.
fn blend_one(src: u8, dst: u8, a: u8) -> (r: u8)
    ensures
        r == blend_channel(src, dst, a),
{
    proof {
        lemma_blend_channel_fits(src, dst, a);
        assert(src * a <= 65025 && dst * (255 - a) <= 65025) by (nonlinear_arith)
            requires
                src <= 255,
                dst <= 255,
                0 <= a <= 255,
        ;
    }
    (((src as u32) * (a as u32) + (dst as u32) * (255 - (a as u32))) / 255) as u8
}

/// A valid canvas's byte count fits in a machine word.
proof fn lemma_canvas_size(w: int, h: int)
    requires
        dims_valid(w, h),
    ensures
        0 < w * h * 4 <= 0x40000000,
{
    assert(0 < w * h * 4 <= 0x40000000) by (nonlinear_arith)
        requires
            1 <= w <= 16384,
            1 <= h <= 16384,
    ;
}

/// An on-canvas pixel's byte index lies inside the buffer.
proof fn lemma_pixel_index(x: int, y: int, w: int, h: int)
    requires
        dims_valid(w, h),
        0 <= x < w,
        0 <= y < h,
    ensures
        0 <= (y * w + x) * 4,
        (y * w + x) * 4 + 3 < w * h * 4,
        (y * w + x) * 4 + 4 <= 0x40000000,
{
    assert((y * w + x) * 4 + 3 < w * h * 4 && 0 <= (y * w + x) * 4 && (y * w + x) * 4 + 4
        <= 0x40000000) by (nonlinear_arith)
        requires
            1 <= w <= 16384,
            1 <= h <= 16384,
            0 <= x < w,
            0 <= y < h,
    ;
}

/// The blended channel value is a byte, so the spec-level cast is exact.
proof fn lemma_blend_channel_fits(src: u8, dst: u8, a: u8)
    ensures
        0 <= (src * a + dst * (255 - a)) / 255 <= 255,
        blend_channel(src, dst, a) == (src * a + dst * (255 - a)) / 255,
{
    assert(src * a <= 255 * a) by (nonlinear_arith)
        requires
            src <= 255,
            0 <= a,
    ;
    assert(dst * (255 - a) <= 255 * (255 - a)) by (nonlinear_arith)
        requires
            dst <= 255,
            a <= 255,
    ;
    lemma_div_pos_is_pos(src * a + dst * (255 - a), 255);
    lemma_div_is_ordered(src * a + dst * (255 - a), 65025, 255);
}

/// A structurally sound scanline edge of a `w x h` canvas: its rows lie on
/// the canvas, its starting x lies on the canvas in fixed-point units, and
/// its x stays on the canvas through every row it spans.
pub open spec fn edge_ok(e: GEdge, w: int, h: int) -> bool {
    &&& 0 <= e.y_lo < e.y_hi <= h
    &&& 0 <= e.x0 <= w * SUBPIX
    &&& forall|k: int|
        0 <= k <= e.y_hi - e.y_lo ==> 0 <= e.x0 + #[trigger] (k * e.step) <= w * (SUBPIX as int)
}

/// An edge in flight at row `y`: sound, spanning `y`, its x at the value
/// reached by `y - y_lo` advances from `x0`.
pub open spec fn active_ok(e: GEdge, y: int, w: int, h: int) -> bool {
    &&& edge_ok(e, w, h)
    &&& e.y_lo <= y < e.y_hi
    &&& e.x == e.x0 + (y - e.y_lo) * e.step
}

/// Exec coordinates as mathematical pairs.
pub open spec fn lift_pts(s: Seq<(i64, i64)>) -> Seq<(int, int)> {
    s.map_values(|p: (i64, i64)| (p.0 as int, p.1 as int))
}

/// The edge built from one non-horizontal segment of an on-canvas polygon
/// is sound, and its x starts at `x0`.
proof fn lemma_mk_edge_ok(a: (int, int), b: (int, int), w: int, h: int)
    requires
        0 <= a.0 <= w,
        0 <= a.1 <= h,
        0 <= b.0 <= w,
        0 <= b.1 <= h,
        a.1 != b.1,
        w >= 1,
    ensures
        edge_ok(mk_edge(a, b), w, h),
        mk_edge(a, b).x == mk_edge(a, b).x0,
{
    let lo = if a.1 < b.1 { a } else { b };
    let hi = if a.1 < b.1 { b } else { a };
    let dy = hi.1 - lo.1;
    let dxf = (hi.0 - lo.0) * (SUBPIX as int);
    let e = mk_edge(a, b);
    assert(dy >= 1);
    assert(e.step == trunc_div(dxf, dy));
    if dxf >= 0 {
        lemma_div_pos_is_pos(dxf, dy);
        lemma_fundamental_div_mod(dxf, dy);
        vstd::arithmetic::div_mod::lemma_mod_bound(dxf, dy);
        assert(dy * e.step <= dxf);
        assert forall|k: int| 0 <= k <= e.y_hi - e.y_lo implies 0 <= e.x0 + #[trigger] (k
            * e.step) <= w * (SUBPIX as int) by {
            assert(0 <= k * e.step <= dy * e.step) by (nonlinear_arith)
                requires
                    0 <= k <= dy,
                    e.step >= 0,
                    dy == hi.1 - lo.1,
            ;
        }
    } else {
        let m = (-dxf) / dy;
        lemma_div_pos_is_pos(-dxf, dy);
        lemma_fundamental_div_mod(-dxf, dy);
        vstd::arithmetic::div_mod::lemma_mod_bound(-dxf, dy);
        assert(dy * m <= -dxf);
        assert(e.step == -m);
        assert forall|k: int| 0 <= k <= e.y_hi - e.y_lo implies 0 <= e.x0 + #[trigger] (k
            * e.step) <= w * (SUBPIX as int) by {
            assert(dy * e.step >= dxf) by (nonlinear_arith)
                requires
                    e.step == -m,
                    dy * m <= -dxf,
            ;
            assert(dy * e.step <= k * e.step <= 0) by (nonlinear_arith)
                requires
                    0 <= k <= dy,
                    e.step <= 0,
                    dy * e.step >= dxf,
            ;
        }
    }
}

/// Inserting at the position found by scanning from the right matches the
/// recursive stable insertion.
proof fn lemma_insert_sorted_at(s: Seq<GEdge>, e: GEdge, pos: int)
    requires
        0 <= pos <= s.len(),
        forall|j: int| pos <= j < s.len() ==> s[j].x > e.x,
        pos > 0 ==> s[pos - 1].x <= e.x,
    ensures
        insert_sorted(s, e) == s.insert(pos, e),
    decreases s.len(),
{
    if s.len() == 0 {
        assert(insert_sorted(s, e) =~= s.insert(0, e));
    } else if s.last().x <= e.x {
        assert(pos == s.len());
        assert(insert_sorted(s, e) =~= s.insert(pos, e));
    } else {
        assert(pos < s.len());
        lemma_insert_sorted_at(s.drop_last(), e, pos);
        assert(insert_sorted(s.drop_last(), e).push(s.last()) =~= s.insert(pos, e));
    }
}

/// Stable insertion of one edge into a sorted run, scanning for the spot
/// from the right.
fn insert_edge(out: &mut Vec<Edge>, e: Edge)
    ensures
        edges_view(final(out)@) == insert_sorted(edges_view(old(out)@), edge_view(e)),
        exists|p: int| 0 <= p <= old(out)@.len() && final(out)@ == old(out)@.insert(p, e),
{
    let mut pos: usize = out.len();
    while pos > 0 && out[pos - 1].x > e.x
        invariant
            0 <= pos <= out@.len(),
            *out == *old(out),
            forall|j: int| pos <= j < out@.len() ==> out@[j].x > e.x,
        decreases pos,
    {
        pos = pos - 1;
    }
    let ghost s0 = out@;
    out.insert(pos, e);
    proof {
        assert forall|j: int| pos as int <= j < s0.len() implies edges_view(s0)[j].x
            > edge_view(e).x by {
            assert(edges_view(s0)[j] == edge_view(s0[j]));
        }
        if pos > 0 {
            assert(edges_view(s0)[pos - 1] == edge_view(s0[pos as int - 1]));
        }
        lemma_insert_sorted_at(edges_view(s0), edge_view(e), pos as int);
        assert(edges_view(out@) =~= edges_view(s0).insert(pos as int, edge_view(e)));
        assert(out@ == s0.insert(pos as int, e));
    }
}

/// Pixel grid points of a polygon's fixed-point boundary, with their
/// proven canvas bounds.
fn floor_points(pts: &Vec<(i64, i64)>, w: usize, h: usize) -> (r: Vec<(i64, i64)>)
    requires
        dims_valid(w as int, h as int),
        forall|i: int|
            0 <= i < pts@.len() ==> crate::types::point_in_canvas(
                #[trigger] pts@[i],
                w as int,
                h as int,
            ),
    ensures
        r@.len() == pts@.len(),
        lift_pts(r@) == ipts_of(pts@),
        forall|i: int| 0 <= i < r@.len() ==> 0 <= (#[trigger] r@[i]).0 <= w,
        forall|i: int| 0 <= i < r@.len() ==> 0 <= (#[trigger] r@[i]).1 <= h,
{
    let mut r: Vec<(i64, i64)> = Vec::new();
    let mut i: usize = 0;
    while i < pts.len()
        invariant
            dims_valid(w as int, h as int),
            forall|j: int|
                0 <= j < pts@.len() ==> crate::types::point_in_canvas(
                    #[trigger] pts@[j],
                    w as int,
                    h as int,
                ),
            0 <= i <= pts@.len(),
            r@.len() == i,
            forall|j: int|
                0 <= j < i ==> #[trigger] r@[j] == ((pts@[j].0 / COORD_SCALE) as i64, (pts@[j].1
                    / COORD_SCALE) as i64),
            forall|j: int| 0 <= j < i ==> 0 <= (#[trigger] r@[j]).0 <= w,
            forall|j: int| 0 <= j < i ==> 0 <= (#[trigger] r@[j]).1 <= h,
        decreases pts@.len() - i,
    {
        let p = pts[i];
        proof {
            assert(crate::types::point_in_canvas(pts@[i as int], w as int, h as int));
            lemma_floor_coord(p.0 as int, w as int);
            lemma_floor_coord(p.1 as int, h as int);
        }
        let px = ((p.0 as u64) / 256) as i64;
        let py = ((p.1 as u64) / 256) as i64;
        r.push((px, py));
        i = i + 1;
    }
    proof {
        assert(lift_pts(r@) =~= ipts_of(pts@));
    }
    r
}

/// The pixel of an on-canvas fixed-point coordinate lies on the canvas.
proof fn lemma_floor_coord(v: int, extent: int)
    requires
        0 <= v <= extent * COORD_SCALE,
        1 <= extent <= MAX_DIM,
    ensures
        0 <= v / (COORD_SCALE as int) <= extent,
{
    lemma_div_pos_is_pos(v, COORD_SCALE as int);
    lemma_div_is_ordered(v, extent * (COORD_SCALE as int), COORD_SCALE as int);
    vstd::arithmetic::div_mod::lemma_fundamental_div_mod_converse(
        extent * (COORD_SCALE as int),
        COORD_SCALE as int,
        extent,
        0,
    );
}

/// Smallest and largest pixel row of a point list.
fn y_bounds(ip: &Vec<(i64, i64)>) -> (r: (i64, i64))
    requires
        ip@.len() >= 1,
    ensures
        r.0 == min_y_upto(lift_pts(ip@), ip@.len() as int),
        r.1 == max_y_upto(lift_pts(ip@), ip@.len() as int),
{
    let mut lo: i64 = ip[0].1;
    let mut hi: i64 = ip[0].1;
    let mut i: usize = 1;
    proof {
        assert(lift_pts(ip@)[0].1 == ip@[0].1 as int);
    }
    while i < ip.len()
        invariant
            1 <= i <= ip@.len(),
            lo == min_y_upto(lift_pts(ip@), i as int),
            hi == max_y_upto(lift_pts(ip@), i as int),
        decreases ip@.len() - i,
    {
        proof {
            assert(lift_pts(ip@)[i as int].1 == ip@[i as int].1 as int);
        }
        let v = ip[i].1;
        if v < lo {
            lo = v;
        }
        if v > hi {
            hi = v;
        }
        i = i + 1;
    }
    (lo, hi)
}

/// All scanline edges of a polygon whose pixel points lie on the canvas.
fn build_edges(ip: &Vec<(i64, i64)>, w: usize, h: usize) -> (r: Vec<Edge>)
    requires
        dims_valid(w as int, h as int),
        ip@.len() >= 1,
        forall|i: int| 0 <= i < ip@.len() ==> 0 <= (#[trigger] ip@[i]).0 <= w,
        forall|i: int| 0 <= i < ip@.len() ==> 0 <= (#[trigger] ip@[i]).1 <= h,
    ensures
        edges_view(r@) == edges_of(lift_pts(ip@)),
        forall|i: int|
            0 <= i < r@.len() ==> edge_ok(edge_view(#[trigger] r@[i]), w as int, h as int)
                && r@[i].x == r@[i].x0,
{
    let n = ip.len();
    let mut r: Vec<Edge> = Vec::new();
    let mut i: usize = 0;
    proof {
        assert(edges_view(r@) =~= edges_upto(lift_pts(ip@), 0));
    }
    while i < n
        invariant
            dims_valid(w as int, h as int),
            n == ip@.len(),
            1 <= n,
            forall|j: int| 0 <= j < ip@.len() ==> 0 <= (#[trigger] ip@[j]).0 <= w,
            forall|j: int| 0 <= j < ip@.len() ==> 0 <= (#[trigger] ip@[j]).1 <= h,
            0 <= i <= n,
            edges_view(r@) == edges_upto(lift_pts(ip@), i as int),
            forall|j: int|
                0 <= j < r@.len() ==> edge_ok(edge_view(#[trigger] r@[j]), w as int, h as int)
                    && r@[j].x == r@[j].x0,
        decreases n - i,
    {
        let a = ip[i];
        let b = if i + 1 == n {
            ip[0]
        } else {
            ip[i + 1]
        };
        let ghost av = lift_pts(ip@)[i as int];
        let ghost bv = lift_pts(ip@)[if i + 1 == n { 0int } else { i as int + 1 }];
        proof {
            assert(av == (a.0 as int, a.1 as int));
            assert(bv == (b.0 as int, b.1 as int));
        }
        if a.1 != b.1 {
            let (lox, loy, hix, hiy) = if a.1 < b.1 {
                (a.0, a.1, b.0, b.1)
            } else {
                (b.0, b.1, a.0, a.1)
            };
            let dy = hiy - loy;
            let step: i64 = if hix >= lox {
                ((((hix - lox) as u64) * 65536) / (dy as u64)) as i64
            } else {
                let q = ((((lox - hix) as u64) * 65536) / (dy as u64)) as i64;
                -q
            };
            proof {
                if hix >= lox {
                    lemma_div_pos_is_pos((hix - lox) * (SUBPIX as int), dy as int);
                    lemma_div_is_ordered(
                        (hix - lox) * (SUBPIX as int),
                        (16384 * 65536) as int,
                        dy as int,
                    );
                } else {
                    lemma_div_pos_is_pos((lox - hix) * (SUBPIX as int), dy as int);
                    lemma_div_is_ordered(
                        (lox - hix) * (SUBPIX as int),
                        (16384 * 65536) as int,
                        dy as int,
                    );
                }
                assert(step == trunc_div((hix - lox) * (SUBPIX as int), dy as int));
            }
            let ed = Edge { y_lo: loy, y_hi: hiy, x0: lox * 65536, x: lox * 65536, step };
            proof {
                lemma_mk_edge_ok(av, bv, w as int, h as int);
                assert(edge_view(ed) == mk_edge(av, bv));
            }
            r.push(ed);
            proof {
                assert(edges_view(r@) =~= edges_upto(lift_pts(ip@), i + 1));
            }
        } else {
            proof {
                assert(edges_view(r@) =~= edges_upto(lift_pts(ip@), i + 1));
            }
        }
        i = i + 1;
    }
    r
}

/// The edge facts carried through one row: sound, spanning the row, x at
/// its advanced value.
pub open spec fn row_edge_ok(e: GEdge, y: int, w: int, h: int) -> bool {
    &&& edge_ok(e, w, h)
    &&& e.y_lo <= y <= e.y_hi
    &&& e.x == e.x0 + (y - e.y_lo) * e.step
}

/// An active edge's current x lies on the canvas in fixed-point units.
proof fn lemma_active_x_bounds(e: GEdge, y: int, w: int, h: int)
    requires
        row_edge_ok(e, y, w, h),
        y < e.y_hi,
    ensures
        0 <= e.x <= w * (SUBPIX as int),
        0 <= e.x + e.step <= w * (SUBPIX as int),
{
    let k = y - e.y_lo;
    assert(0 <= e.x0 + k * e.step <= w * (SUBPIX as int));
    assert(0 <= e.x0 + (k + 1) * e.step <= w * (SUBPIX as int));
    assert((k + 1) * e.step == k * e.step + e.step) by (nonlinear_arith);
}

/// Process one scanline: retire and activate edges, sort them by x, fill
/// the even-odd spans, and advance each survivor's x by its slope.
#[verifier::loop_isolation(false)]
fn process_row(
    buffer: &mut PixelBuffer,
    active: Vec<Edge>,
    edges: &Vec<Edge>,
    y: i64,
    colour: [u8; 4],
) -> (new_active: Vec<Edge>)
    requires
        pixel_buffer_wf(*old(buffer)),
        0 <= y < old(buffer).height,
        forall|j: int|
            0 <= j < edges@.len() ==> edge_ok(
                edge_view(#[trigger] edges@[j]),
                old(buffer).width as int,
                old(buffer).height as int,
            ) && edges@[j].x == edges@[j].x0,
        forall|j: int|
            0 <= j < active@.len() ==> row_edge_ok(
                edge_view(#[trigger] active@[j]),
                y as int,
                old(buffer).width as int,
                old(buffer).height as int,
            ),
    ensures
        pixel_buffer_wf(*final(buffer)),
        final(buffer).width == old(buffer).width,
        final(buffer).height == old(buffer).height,
        edges_view(new_active@) == advance(
            sort_edges(
                survivors_upto(edges_view(active@), y as int, active@.len() as int)
                    + activations_upto(edges_view(edges@), y as int, edges@.len() as int),
            ),
        ),
        final(buffer).data@ == fill_pairs(
            sort_edges(
                survivors_upto(edges_view(active@), y as int, active@.len() as int)
                    + activations_upto(edges_view(edges@), y as int, edges@.len() as int),
            ),
            old(buffer).data@,
            y as int,
            colour@,
            old(buffer).width as int,
            old(buffer).height as int,
        ),
        forall|j: int|
            0 <= j < new_active@.len() ==> row_edge_ok(
                edge_view(#[trigger] new_active@[j]),
                y as int + 1,
                old(buffer).width as int,
                old(buffer).height as int,
            ),
{
    let w = buffer.width;
    let h = buffer.height;
    let ghost wi = w as int;
    let ghost hi = h as int;
    let ghost yv = y as int;

    // Retire edges ending at or before this row.
    let mut combined: Vec<Edge> = Vec::new();
    let mut i: usize = 0;
    proof {
        assert(edges_view(combined@) =~= survivors_upto(edges_view(active@), yv, 0));
    }
    while i < active.len()
        invariant
            0 <= i <= active@.len(),
            edges_view(combined@) == survivors_upto(edges_view(active@), yv, i as int),
            forall|j: int|
                0 <= j < active@.len() ==> row_edge_ok(edge_view(#[trigger] active@[j]), yv, wi, hi),
            forall|j: int|
                0 <= j < combined@.len() ==> row_edge_ok(edge_view(#[trigger] combined@[j]), yv, wi, hi)
                    && edge_view(combined@[j]).y_hi > yv,
        decreases active@.len() - i,
    {
        proof {
            assert(edges_view(active@)[i as int] == edge_view(active@[i as int]));
        }
        if active[i].y_hi > y {
            combined.push(active[i]);
            proof {
                assert(edges_view(combined@) =~= survivors_upto(edges_view(active@), yv, i + 1));
            }
        } else {
            proof {
                assert(edges_view(combined@) =~= survivors_upto(edges_view(active@), yv, i + 1));
            }
        }
        i = i + 1;
    }
    let ghost survivors = survivors_upto(edges_view(active@), yv, active@.len() as int);

    // Activate edges starting at this row.
    let mut i: usize = 0;
    proof {
        assert(edges_view(combined@) =~= survivors + activations_upto(edges_view(edges@), yv, 0));
    }
    while i < edges.len()
        invariant
            0 <= i <= edges@.len(),
            edges_view(combined@) == survivors + activations_upto(edges_view(edges@), yv, i as int),
            0 <= yv < hi,
            forall|j: int|
                0 <= j < edges@.len() ==> edge_ok(edge_view(#[trigger] edges@[j]), wi, hi)
                    && edges@[j].x == edges@[j].x0,
            forall|j: int|
                0 <= j < combined@.len() ==> row_edge_ok(edge_view(#[trigger] combined@[j]), yv, wi, hi)
                    && edge_view(combined@[j]).y_hi > yv,
        decreases edges@.len() - i,
    {
        proof {
            assert(edges_view(edges@)[i as int] == edge_view(edges@[i as int]));
        }
        let ghost cb = combined@;
        if edges[i].y_lo == y {
            combined.push(edges[i]);
            proof {
                let ev = edges_view(edges@);
                let act1 = activations_upto(ev, yv, i + 1);
                assert(act1 == activations_upto(ev, yv, i as int).push(ev[i as int]));
                assert(combined@ == cb.push(edges@[i as int]));
                assert forall|j: int| 0 <= j < combined@.len() implies edges_view(combined@)[j]
                    == (survivors + act1)[j] by {
                    assert(edges_view(combined@)[j] == edge_view(combined@[j]));
                    if j < cb.len() {
                        assert(combined@[j] == cb[j]);
                        assert(edges_view(cb)[j] == edge_view(cb[j]));
                        assert((survivors + activations_upto(ev, yv, i as int))[j]
                            == edges_view(cb)[j]);
                    } else {
                        assert(combined@[j] == edges@[i as int]);
                    }
                }
                assert(edges_view(combined@) =~= survivors + act1);
                let e = edge_view(edges@[i as int]);
                assert((yv - e.y_lo) * e.step == 0) by (nonlinear_arith)
                    requires
                        yv == e.y_lo,
                ;
            }
        } else {
            proof {
                assert(edges_view(combined@) =~= survivors + activations_upto(
                    edges_view(edges@),
                    yv,
                    i + 1,
                ));
            }
        }
        i = i + 1;
    }
    let ghost combined_v = edges_view(combined@);

    // Sort the active edges by current x (stable).
    let mut sorted: Vec<Edge> = Vec::new();
    let mut i: usize = 0;
    proof {
        assert(edges_view(sorted@) =~= sort_upto(combined_v, 0));
    }
    while i < combined.len()
        invariant
            0 <= i <= combined@.len(),
            combined_v == edges_view(combined@),
            edges_view(sorted@) == sort_upto(combined_v, i as int),
            forall|j: int|
                0 <= j < combined@.len() ==> row_edge_ok(edge_view(#[trigger] combined@[j]), yv, wi, hi)
                    && edge_view(combined@[j]).y_hi > yv,
            forall|j: int|
                0 <= j < sorted@.len() ==> row_edge_ok(edge_view(#[trigger] sorted@[j]), yv, wi, hi)
                    && edge_view(sorted@[j]).y_hi > yv,
        decreases combined@.len() - i,
    {
        let ghost before = sorted@;
        insert_edge(&mut sorted, combined[i]);
        proof {
            assert(combined_v[i as int] == edge_view(combined@[i as int]));
            assert(edges_view(sorted@) == insert_sorted(edges_view(before), combined_v[i as int]));
            let p = choose|p: int| 0 <= p <= before.len() && sorted@ == before.insert(p, combined@[i as int]);
            assert forall|j: int| 0 <= j < sorted@.len() implies row_edge_ok(
                edge_view(#[trigger] sorted@[j]),
                yv,
                wi,
                hi,
            ) && edge_view(sorted@[j]).y_hi > yv by {
                if j < p {
                    assert(sorted@[j] == before[j]);
                } else if j == p {
                    assert(sorted@[j] == combined@[i as int]);
                } else {
                    assert(sorted@[j] == before[j - 1]);
                }
            }
        }
        i = i + 1;
    }
    proof {
        assert(combined_v.subrange(0, combined_v.len() as int) =~= combined_v);
    }
    let ghost sv = edges_view(sorted@);
    proof {
        assert(sv == sort_edges(combined_v));
    }

    // Fill the even-odd spans between consecutive pairs.
    let ghost buf_fill0 = buffer.data@;
    let mut pi: usize = 0;
    proof {
        assert(sv.skip(0) =~= sv);
    }
    while pi < sorted.len() / 2
        invariant
            pixel_buffer_wf(*buffer),
            buffer.width == w,
            buffer.height == h,
            2 * pi <= sorted@.len(),
            sv == edges_view(sorted@),
            forall|j: int|
                0 <= j < sorted@.len() ==> row_edge_ok(edge_view(#[trigger] sorted@[j]), yv, wi, hi)
                    && edge_view(sorted@[j]).y_hi > yv,
            fill_pairs(sv.skip(2 * pi as int), buffer.data@, yv, colour@, wi, hi) == fill_pairs(
                sv,
                buf_fill0,
                yv,
                colour@,
                wi,
                hi,
            ),
        decreases sorted@.len() - 2 * pi,
    {
        proof {
            vstd::arithmetic::div_mod::lemma_fundamental_div_mod(sorted@.len() as int, 2);
            vstd::arithmetic::div_mod::lemma_mod_bound(sorted@.len() as int, 2);
            assert(2 * pi + 1 < sorted@.len());
        }
        let e1 = sorted[2 * pi];
        let e2 = sorted[2 * pi + 1];
        proof {
            assert(edge_view(sorted@[2 * pi as int]) == sv[2 * pi as int]);
            assert(edge_view(sorted@[2 * pi as int + 1]) == sv[2 * pi as int + 1]);
            lemma_active_x_bounds(edge_view(e1), yv, wi, hi);
            lemma_active_x_bounds(edge_view(e2), yv, wi, hi);
            lemma_div_pos_is_pos(e1.x + 65535, 65536);
            lemma_div_is_ordered(e1.x + 65535, wi * 65536 + 65535, 65536);
            lemma_div_pos_is_pos(e2.x as int, 65536);
        }
        let xs: i64 = (((e1.x as u64) + 65535) / 65536) as i64;
        let fl: i64 = ((e2.x as u64) / 65536) as i64;
        let wm1: i64 = (w as i64) - 1;
        let xe: i64 = if fl < wm1 {
            fl
        } else {
            wm1
        };
        proof {
            assert(xs == span_lo(sv[2 * pi as int]));
            assert(xe == span_hi(sv[2 * pi as int + 1], wi));
        }
        let ghost buf_span0 = buffer.data@;
        let mut xi: i64 = xs;
        while xi <= xe
            invariant
                pixel_buffer_wf(*buffer),
                buffer.width == w,
                buffer.height == h,
                0 <= yv < hi,
                0 <= xs <= xi,
                xe <= wm1,
                wm1 == wi - 1,
                fill_span(buffer.data@, xi as int, xe as int, yv, colour@, wi, hi) == fill_span(
                    buf_span0,
                    xs as int,
                    xe as int,
                    yv,
                    colour@,
                    wi,
                    hi,
                ),
            decreases xe + 1 - xi,
        {
            buffer.set_pixel_blended(xi as usize, y as usize, colour);
            xi = xi + 1;
        }
        proof {
            assert(buffer.data@ == fill_span(buf_span0, xs as int, xe as int, yv, colour@, wi, hi));
            let s2 = sv.skip(2 * pi as int);
            assert(s2.len() >= 2);
            assert(s2[0] == sv[2 * pi as int]);
            assert(s2[1] == sv[2 * pi as int + 1]);
            assert(s2.skip(2) =~= sv.skip(2 * (pi + 1) as int));
            assert(fill_pairs(s2, buf_span0, yv, colour@, wi, hi) == fill_pairs(
                s2.skip(2),
                buffer.data@,
                yv,
                colour@,
                wi,
                hi,
            ));
        }
        pi = pi + 1;
    }
    proof {
        vstd::arithmetic::div_mod::lemma_fundamental_div_mod(sorted@.len() as int, 2);
        vstd::arithmetic::div_mod::lemma_mod_bound(sorted@.len() as int, 2);
        assert(sv.skip(2 * pi as int).len() < 2);
        assert(buffer.data@ == fill_pairs(sv, buf_fill0, yv, colour@, wi, hi));
    }

    // Advance each surviving edge's x by its inverse slope.
    let mut sorted = sorted;
    let ghost pre_adv = sorted@;
    proof {
        assert(sv == edges_view(pre_adv));
    }
    let mut i: usize = 0;
    while i < sorted.len()
        invariant
            sorted@.len() == pre_adv.len(),
            0 <= i <= sorted@.len(),
            forall|j: int|
                0 <= j < pre_adv.len() ==> row_edge_ok(edge_view(#[trigger] pre_adv[j]), yv, wi, hi)
                    && edge_view(pre_adv[j]).y_hi > yv,
            forall|j: int| i <= j < sorted@.len() ==> #[trigger] sorted@[j] == pre_adv[j],
            forall|j: int|
                0 <= j < i ==> edge_view(#[trigger] sorted@[j]) == (GEdge {
                    y_lo: sv[j].y_lo,
                    y_hi: sv[j].y_hi,
                    x0: sv[j].x0,
                    x: sv[j].x + sv[j].step,
                    step: sv[j].step,
                }),
            forall|j: int|
                0 <= j < i ==> row_edge_ok(edge_view(#[trigger] sorted@[j]), yv + 1, wi, hi),
        decreases sorted@.len() - i,
    {
        let e = sorted[i];
        proof {
            assert(e == pre_adv[i as int]);
            assert(sv[i as int] == edge_view(pre_adv[i as int]));
            lemma_active_x_bounds(edge_view(e), yv, wi, hi);
            let ev = edge_view(e);
            assert((yv + 1 - ev.y_lo) * ev.step == (yv - ev.y_lo) * ev.step + ev.step)
                by (nonlinear_arith);
        }
        let ne = Edge { y_lo: e.y_lo, y_hi: e.y_hi, x0: e.x0, x: e.x + e.step, step: e.step };
        sorted[i] = ne;
        i = i + 1;
    }
    proof {
        assert forall|j: int| 0 <= j < sorted@.len() implies edges_view(sorted@)[j] == advance(
            sv,
        )[j] by {
            assert(edges_view(sorted@)[j] == edge_view(sorted@[j]));
        }
        assert(edges_view(sorted@) =~= advance(sv));
    }
    sorted
}

/// Rasterize one polygon onto the buffer by the scanline sweep.
#[verifier::loop_isolation(false)]
fn fill_polygon(buffer: &mut PixelBuffer, polygon: &Polygon)
    requires
        pixel_buffer_wf(*old(buffer)),
        polygon_wf(*polygon, old(buffer).width as int, old(buffer).height as int),
    ensures
        pixel_buffer_wf(*final(buffer)),
        final(buffer).width == old(buffer).width,
        final(buffer).height == old(buffer).height,
        final(buffer).data@ == fill_poly_spec(
            old(buffer).data@,
            polygon.points@,
            polygon.colour@,
            old(buffer).width as int,
            old(buffer).height as int,
        ),
{
    let w = buffer.width;
    let h = buffer.height;
    let ghost wi = w as int;
    let ghost hi = h as int;
    if polygon.points.len() < 3 {
        return ;
    }
    let ip = floor_points(&polygon.points, w, h);
    let ghost ipv = lift_pts(ip@);
    proof {
        assert(ipv == ipts_of(polygon.points@));
    }
    let yb = y_bounds(&ip);
    let ymin: i64 = if yb.0 < 0 {
        0
    } else {
        yb.0
    };
    let hm1: i64 = (h as i64) - 1;
    let ymax: i64 = if yb.1 < hm1 {
        yb.1
    } else {
        hm1
    };
    if ymin > ymax {
        return ;
    }
    let edges = build_edges(&ip, w, h);
    let ghost edges_v = edges_of(ipv);
    proof {
        assert(edges_view(edges@) == edges_v);
    }
    let ghost buf0 = buffer.data@;
    let mut active: Vec<Edge> = Vec::new();
    let mut y: i64 = ymin;
    proof {
        assert(edges_view(active@) =~= Seq::<GEdge>::empty());
    }
    while y <= ymax
        invariant
            pixel_buffer_wf(*buffer),
            buffer.width == w,
            buffer.height == h,
            ymin <= y <= ymax + 1,
            scan_rows(
                edges_v,
                y as int,
                ymax as int + 1,
                edges_view(active@),
                buffer.data@,
                polygon.colour@,
                wi,
                hi,
            ) == scan_rows(
                edges_v,
                ymin as int,
                ymax as int + 1,
                Seq::<GEdge>::empty(),
                buf0,
                polygon.colour@,
                wi,
                hi,
            ),
            forall|j: int|
                0 <= j < active@.len() ==> row_edge_ok(
                    edge_view(#[trigger] active@[j]),
                    y as int,
                    wi,
                    hi,
                ),
        decreases ymax + 1 - y,
    {
        let ghost act_v = edges_view(active@);
        let ghost data_before = buffer.data@;
        active = process_row(buffer, active, &edges, y, polygon.colour);
        proof {
            assert(scan_rows(
                edges_v,
                y as int,
                ymax as int + 1,
                act_v,
                data_before,
                polygon.colour@,
                wi,
                hi,
            ) == scan_rows(
                edges_v,
                y as int + 1,
                ymax as int + 1,
                edges_view(active@),
                buffer.data@,
                polygon.colour@,
                wi,
                hi,
            ));
        }
        y = y + 1;
    }
    proof {
        assert(buffer.data@ == scan_rows(
            edges_v,
            ymin as int,
            ymax as int + 1,
            Seq::<GEdge>::empty(),
            buf0,
            polygon.colour@,
            wi,
            hi,
        ));
        assert(buffer.data@ == fill_poly_spec(buf0, polygon.points@, polygon.colour@, wi, hi));
    }
}

/// Render a candidate to a fresh pixel buffer: its polygons rasterized in
/// draw order onto a cleared canvas. The result is exactly `spec_render`
/// of the candidate, so rendering is deterministic.
#[verifier::loop_isolation(false)]
pub fn render_image(img: &Image) -> (r: PixelBuffer)
    requires
        image_wf(*img),
    ensures
        pixel_buffer_wf(r),
        r.width == img.width,
        r.height == img.height,
        r.data@ == spec_render(*img),
{
    let mut buffer = PixelBuffer::new(img.width, img.height);
    let mut i: usize = 0;
    while i < img.polygon.len()
        invariant
            pixel_buffer_wf(buffer),
            buffer.width == img.width,
            buffer.height == img.height,
            0 <= i <= img.polygon@.len(),
            buffer.data@ == render_upto(img.polygon@, i as int, img.width as int, img.height as int),
        decreases img.polygon@.len() - i,
    {
        fill_polygon(&mut buffer, &img.polygon[i]);
        i = i + 1;
    }
    buffer
}

/// Render a candidate into an existing buffer of the same canvas, clearing
/// it first (the allocation is reused). The bytes written are the same as
/// `render_image`'s: exactly `spec_render` of the candidate.
#[verifier::loop_isolation(false)]
pub fn render_image_into(img: &Image, buffer: &mut PixelBuffer)
    requires
        image_wf(*img),
        pixel_buffer_wf(*old(buffer)),
        old(buffer).width == img.width,
        old(buffer).height == img.height,
    ensures
        pixel_buffer_wf(*final(buffer)),
        final(buffer).width == img.width,
        final(buffer).height == img.height,
        final(buffer).data@ == spec_render(*img),
{
    buffer.clear();
    let mut i: usize = 0;
    while i < img.polygon.len()
        invariant
            pixel_buffer_wf(*buffer),
            buffer.width == img.width,
            buffer.height == img.height,
            0 <= i <= img.polygon@.len(),
            buffer.data@ == render_upto(img.polygon@, i as int, img.width as int, img.height as int),
        decreases img.polygon@.len() - i,
    {
        fill_polygon(buffer, &img.polygon[i]);
        i = i + 1;
    }
}

/// Rendering the first `k` polygons reads only the polygons' points and
/// colours, so content-equal prefixes render equal bytes.
proof fn lemma_render_upto_congruence(pa: Seq<Polygon>, pb: Seq<Polygon>, k: int, w: int, h: int)
    requires
        k <= pa.len(),
        k <= pb.len(),
        forall|i: int| 0 <= i < k ==> crate::types::eq_polygon(#[trigger] pa[i], pb[i]),
    ensures
        render_upto(pa, k, w, h) == render_upto(pb, k, w, h),
    decreases k,
{
    if k > 0 {
        lemma_render_upto_congruence(pa, pb, k - 1, w, h);
        assert(crate::types::eq_polygon(pa[k - 1], pb[k - 1]));
    }
}

/// Rendering is deterministic: it is a function of the candidate's content
/// alone, so content-equal candidates render byte-identical buffers.
pub proof fn lemma_render_deterministic(a: Image, b: Image)
    requires
        crate::types::eq_image(a, b),
    ensures
        spec_render(a) == spec_render(b),
{
    lemma_render_upto_congruence(
        a.polygon@,
        b.polygon@,
        a.polygon@.len() as int,
        a.width as int,
        a.height as int,
    );
}

} // verus!
