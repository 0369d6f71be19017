use polyvolve::generations::{
    generate_initial_image, generate_random_colour, generate_random_point,
    generate_random_polygon,
};
use polyvolve::mutations::{
    add_point, add_polygon, change_colour, delete_point, mutate_image, move_point, move_polygon,
    remove_polygon, reorder_polygon, MIN_POLYGONS,
};
use polyvolve::rng::RandomSource;
use polyvolve::types::{Image, Polygon, COORD_SCALE};

fn square(colour: [u8; 4]) -> Polygon {
    Polygon { points: vec![(0, 0), (256, 0), (256, 256), (0, 256)], colour }
}

fn small_image(polygons: usize) -> Image {
    Image {
        polygon: (0..polygons).map(|_| square([1, 2, 3, 40])).collect(),
        width: 4,
        height: 4,
    }
}

#[test]
fn remove_polygon_respects_floor() {
    let mut rng = RandomSource::from_seed(7);
    // At the floor: nothing is removed.
    let at_floor = small_image(MIN_POLYGONS);
    let r = remove_polygon(at_floor, &mut rng);
    assert_eq!(r.polygon.len(), MIN_POLYGONS);
    // Above the floor: exactly one is removed, never dropping below it.
    let above = small_image(MIN_POLYGONS + 1);
    let r = remove_polygon(above, &mut rng);
    assert_eq!(r.polygon.len(), MIN_POLYGONS);
    // Repeated removal never goes below the floor.
    let mut img = small_image(MIN_POLYGONS + 5);
    for _ in 0..50 {
        img = remove_polygon(img, &mut rng);
        assert!(img.polygon.len() >= MIN_POLYGONS);
    }
}

#[test]
fn delete_point_respects_triangle_floor() {
    let mut rng = RandomSource::from_seed(8);
    // A triangle (three points) never loses a point.
    let tri = Image {
        polygon: vec![Polygon { points: vec![(0, 0), (256, 0), (0, 256)], colour: [0, 0, 0, 40] }],
        width: 4,
        height: 4,
    };
    let r = delete_point(tri, &mut rng);
    assert_eq!(r.polygon[0].points.len(), 3);
    // A square loses exactly one point, down to the floor and no further.
    let mut img = small_image(1);
    for _ in 0..20 {
        img = delete_point(img, &mut rng);
        assert!(img.polygon[0].points.len() >= 3);
    }
    assert_eq!(img.polygon[0].points.len(), 3);
}

#[test]
fn move_point_clamps_out_of_bounds_coordinates() {
    let mut rng = RandomSource::from_seed(9);
    let hi = 3 * COORD_SCALE; // clamp box for a 4-wide canvas: [0, 3 * 256]
    for seed_round in 0..40 {
        let wild = Image {
            polygon: vec![Polygon {
                points: vec![(-1000000 + seed_round * 50000, 9000000)],
                colour: [0, 0, 0, 40],
            }],
            width: 4,
            height: 4,
        };
        let r = move_point(wild, &mut rng);
        let p = r.polygon[0].points[0];
        assert!(0 <= p.0 && p.0 <= hi);
        assert!(0 <= p.1 && p.1 <= hi);
    }
}

#[test]
fn move_polygon_clamps_every_point() {
    let mut rng = RandomSource::from_seed(10);
    let wild = Image {
        polygon: vec![Polygon {
            points: vec![(-5000, -5000), (90000, 90000), (500, 500)],
            colour: [0, 0, 0, 40],
        }],
        width: 4,
        height: 4,
    };
    let hi = 3 * COORD_SCALE;
    let r = move_polygon(wild, &mut rng);
    for p in &r.polygon[0].points {
        assert!(0 <= p.0 && p.0 <= hi);
        assert!(0 <= p.1 && p.1 <= hi);
    }
}

#[test]
fn operators_are_noops_on_empty_candidates() {
    let mut rng = RandomSource::from_seed(11);
    let empty = || Image { polygon: Vec::new(), width: 4, height: 4 };
    assert_eq!(move_point(empty(), &mut rng).polygon.len(), 0);
    assert_eq!(change_colour(empty(), &mut rng).polygon.len(), 0);
    assert_eq!(move_polygon(empty(), &mut rng).polygon.len(), 0);
    assert_eq!(reorder_polygon(empty(), &mut rng).polygon.len(), 0);
    assert_eq!(remove_polygon(empty(), &mut rng).polygon.len(), 0);
    assert_eq!(add_point(empty(), &mut rng).polygon.len(), 0);
    assert_eq!(delete_point(empty(), &mut rng).polygon.len(), 0);
}

#[test]
fn add_polygon_appends_one() {
    let mut rng = RandomSource::from_seed(12);
    let img = small_image(2);
    let r = add_polygon(img, &mut rng);
    assert_eq!(r.polygon.len(), 3);
    let n = r.polygon[2].points.len();
    assert!(3 <= n && n <= 6);
}

#[test]
fn add_point_appends_one_point() {
    let mut rng = RandomSource::from_seed(13);
    let img = small_image(1);
    let r = add_point(img, &mut rng);
    assert_eq!(r.polygon[0].points.len(), 5);
}

#[test]
fn change_colour_stays_in_byte_range() {
    let mut rng = RandomSource::from_seed(14);
    let mut img = small_image(1);
    img.polygon[0].colour = [0, 255, 3, 250];
    let r = change_colour(img, &mut rng);
    assert_eq!(r.polygon.len(), 1);
    assert_eq!(r.polygon[0].points.len(), 4);
}

#[test]
fn mutate_image_keeps_canvas_and_floor() {
    let mut rng = RandomSource::from_seed(15);
    let mut img = small_image(MIN_POLYGONS);
    for _ in 0..200 {
        img = mutate_image(img, &mut rng);
        assert_eq!(img.width, 4);
        assert_eq!(img.height, 4);
        assert!(img.polygon.len() >= MIN_POLYGONS);
    }
}

#[test]
fn generated_values_stay_in_range() {
    let mut rng = RandomSource::from_seed(16);
    for _ in 0..100 {
        let c = generate_random_colour(&mut rng);
        assert!(30 <= c[3] && c[3] <= 150);
        let p = generate_random_point(&mut rng, 5, 7);
        assert!(0 <= p.0 && p.0 < 5 * COORD_SCALE);
        assert!(0 <= p.1 && p.1 < 7 * COORD_SCALE);
        let poly = generate_random_polygon(&mut rng, 5, 7);
        assert!(3 <= poly.points.len() && poly.points.len() <= 6);
    }
    let img = generate_initial_image(&mut rng, 5, 7);
    assert_eq!(img.polygon.len(), 50);
    assert_eq!(img.width, 5);
    assert_eq!(img.height, 7);
}

#[test]
fn reorder_polygon_keeps_the_polygon_set() {
    let mut rng = RandomSource::from_seed(17);
    let mut img = small_image(3);
    img.polygon[0].colour = [1, 0, 0, 40];
    img.polygon[1].colour = [2, 0, 0, 40];
    img.polygon[2].colour = [3, 0, 0, 40];
    let r = reorder_polygon(img, &mut rng);
    let mut firsts: Vec<u8> = r.polygon.iter().map(|p| p.colour[0]).collect();
    firsts.sort();
    assert_eq!(firsts, vec![1, 2, 3]);
}
