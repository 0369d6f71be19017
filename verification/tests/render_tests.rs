use polyvolve::renderer::{render_image, render_image_into, PixelBuffer};
use polyvolve::types::{Image, Polygon, COORD_SCALE};

fn full_cover_polygon(width: usize, height: usize, colour: [u8; 4]) -> Polygon {
    let w = width as i64 * COORD_SCALE;
    let h = height as i64 * COORD_SCALE;
    Polygon { points: vec![(0, 0), (w, 0), (w, h), (0, h)], colour }
}

#[test]
fn render_is_deterministic() {
    let img = Image {
        polygon: vec![
            Polygon {
                points: vec![(10, 20), (400, 30), (350, 480), (5, 300)],
                colour: [200, 40, 90, 120],
            },
            full_cover_polygon(2, 2, [1, 2, 3, 60]),
        ],
        width: 2,
        height: 2,
    };
    let a = render_image(&img);
    let b = render_image(&img);
    assert_eq!(a.data, b.data);
    assert_eq!(a.data.len(), 2 * 2 * 4);
}

#[test]
fn render_into_matches_fresh_render() {
    let img = Image {
        polygon: vec![full_cover_polygon(3, 2, [9, 9, 9, 200])],
        width: 3,
        height: 2,
    };
    let fresh = render_image(&img);
    let mut reused = PixelBuffer::new(3, 2);
    // Dirty the buffer first: the in-place variant must clear it.
    reused.set_pixel_blended(0, 0, [255, 255, 255, 255]);
    render_image_into(&img, &mut reused);
    assert_eq!(fresh.data, reused.data);
}

#[test]
fn black_polygon_on_black_target_scores_one() {
    // 2x2 all-black opaque target, one fully covering opaque black polygon.
    let target = vec![0u8, 0, 0, 255].repeat(4);
    let img = Image {
        polygon: vec![full_cover_polygon(2, 2, [0, 0, 0, 255])],
        width: 2,
        height: 2,
    };
    let rendered = render_image(&img);
    assert_eq!(rendered.data, target);
    let acc = polyvolve::sad_compare_raw(&target, &rendered.data);
    assert_eq!(acc.num, acc.den);
}

#[test]
fn white_polygon_on_zero_target_scores_zero() {
    // Every rendered byte is 255 and every target byte 0: worst score.
    let target = vec![0u8; 16];
    let img = Image {
        polygon: vec![full_cover_polygon(2, 2, [255, 255, 255, 255])],
        width: 2,
        height: 2,
    };
    let rendered = render_image(&img);
    assert_eq!(rendered.data, vec![255u8; 16]);
    let acc = polyvolve::sad_compare_raw(&target, &rendered.data);
    assert_eq!(acc.num, 0);
}

#[test]
fn degenerate_polygons_are_skipped() {
    let img = Image {
        polygon: vec![Polygon { points: vec![(0, 0), (100, 100)], colour: [255, 0, 0, 255] }],
        width: 2,
        height: 2,
    };
    let rendered = render_image(&img);
    assert_eq!(rendered.data, vec![0u8; 16]);
}

#[test]
fn rendered_alpha_is_opaque_where_painted() {
    let img = Image {
        polygon: vec![full_cover_polygon(2, 2, [10, 20, 30, 60])],
        width: 2,
        height: 2,
    };
    let rendered = render_image(&img);
    for px in 0..4 {
        assert_eq!(rendered.data[px * 4 + 3], 255);
    }
    // Semi-transparent colour over a zero background: out = src * a / 255.
    assert_eq!(rendered.data[0], (10 * 60 / 255) as u8);
    assert_eq!(rendered.data[1], (20 * 60 / 255) as u8);
    assert_eq!(rendered.data[2], (30 * 60 / 255) as u8);
}

#[test]
fn buffer_new_and_clear_are_zeroed() {
    let mut b = PixelBuffer::new(3, 4);
    assert_eq!(b.data, vec![0u8; 48]);
    b.set_pixel_blended(1, 1, [255, 255, 255, 255]);
    assert_ne!(b.data, vec![0u8; 48]);
    b.clear();
    assert_eq!(b.data, vec![0u8; 48]);
}

#[test]
fn off_canvas_pixel_writes_are_ignored() {
    let mut b = PixelBuffer::new(2, 2);
    b.set_pixel_blended(2, 0, [255, 255, 255, 255]);
    b.set_pixel_blended(0, 7, [255, 255, 255, 255]);
    assert_eq!(b.data, vec![0u8; 16]);
}
