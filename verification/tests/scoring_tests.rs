use polyvolve::scoring::{mse_compare_raw, sad_compare_raw, score_images, Accuracy, Metric};
use polyvolve::types::{Image, Polygon, COORD_SCALE};

#[test]
fn sad_identical_buffers_score_one() {
    let t = vec![1u8, 2, 3, 4, 250, 0, 255, 9];
    let acc = sad_compare_raw(&t, &t);
    assert_eq!(acc.num, acc.den);
    assert_eq!(acc.den, 8 * 255);
}

#[test]
fn sad_exact_value() {
    // diffs: 10, 0, 200, 45 -> total 255 over a maximum of 4 * 255.
    let t = vec![10u8, 7, 200, 45];
    let r = vec![0u8, 7, 0, 0];
    let acc = sad_compare_raw(&t, &r);
    assert_eq!(acc.den, 4 * 255);
    assert_eq!(acc.num, 4 * 255 - 255);
}

#[test]
fn sad_maximal_difference_scores_zero() {
    let t = vec![0u8; 12];
    let r = vec![255u8; 12];
    let acc = sad_compare_raw(&t, &r);
    assert_eq!(acc.num, 0);
    assert_eq!(acc.den, 12 * 255);
}

#[test]
fn sad_length_mismatch_scores_zero() {
    let t = vec![1u8, 2, 3];
    let r = vec![1u8, 2];
    let acc = sad_compare_raw(&t, &r);
    assert_eq!(acc, Accuracy { num: 0, den: 1 });
}

#[test]
fn sad_empty_buffers_score_zero() {
    let t: Vec<u8> = Vec::new();
    let r: Vec<u8> = Vec::new();
    let acc = sad_compare_raw(&t, &r);
    assert_eq!(acc, Accuracy { num: 0, den: 1 });
}

#[test]
fn sad_accuracy_within_unit_interval() {
    let t = vec![3u8, 250, 128, 9, 77];
    let r = vec![200u8, 1, 128, 250, 0];
    let acc = sad_compare_raw(&t, &r);
    assert!(acc.den >= 1);
    assert!(acc.num <= acc.den);
}

#[test]
fn mse_identical_buffers_score_one() {
    let t = vec![9u8, 0, 255, 13];
    let acc = mse_compare_raw(&t, &t);
    assert_eq!(acc.num, acc.den);
    assert_eq!(acc.den, 4 * 65025);
}

#[test]
fn mse_exact_value() {
    // diffs squared: 100, 0 -> total 100 over a maximum of 2 * 65025.
    let t = vec![10u8, 7];
    let r = vec![0u8, 7];
    let acc = mse_compare_raw(&t, &r);
    assert_eq!(acc.den, 2 * 65025);
    assert_eq!(acc.num, 2 * 65025 - 100);
}

#[test]
fn mse_maximal_difference_scores_zero() {
    let t = vec![255u8; 4];
    let r = vec![0u8; 4];
    let acc = mse_compare_raw(&t, &r);
    assert_eq!(acc.num, 0);
}

#[test]
fn mse_length_mismatch_scores_zero() {
    let t = vec![1u8];
    let r = vec![1u8, 1];
    let acc = mse_compare_raw(&t, &r);
    assert_eq!(acc, Accuracy { num: 0, den: 1 });
}

#[test]
fn score_images_pairs_each_candidate_with_its_accuracy() {
    let cover = |colour: [u8; 4]| Polygon {
        points: vec![
            (0, 0),
            (2 * COORD_SCALE, 0),
            (2 * COORD_SCALE, 2 * COORD_SCALE),
            (0, 2 * COORD_SCALE),
        ],
        colour,
    };
    let black = Image { polygon: vec![cover([0, 0, 0, 255])], width: 2, height: 2 };
    let white = Image { polygon: vec![cover([255, 255, 255, 255])], width: 2, height: 2 };
    let target = vec![0u8, 0, 0, 255].repeat(4);
    let scored = score_images(vec![black, white], &target, Metric::Sad);
    assert_eq!(scored.len(), 2);
    // The black cover matches the target exactly; the white one does not.
    assert_eq!(scored[0].0.num, scored[0].0.den);
    assert!(scored[1].0.num < scored[1].0.den);
    assert_eq!(scored[1].1.polygon[0].colour, [255, 255, 255, 255]);
}
