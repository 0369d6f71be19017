//! Pixel-buffer similarity metrics.
//!
//! Both metrics compare two byte buffers and yield an accuracy: an exact
//! rational in `[0, 1]` where `1` means a perfect match. Buffers of
//! different (or zero) length score `0`, not an error.

use vstd::prelude::*;

verus! {

/// Largest buffer length the metrics accept: `len * 255 * 255` must fit in
/// a `u64` so that both distance sums can be computed exactly.
pub const MAX_SCORED_LEN: u64 = u64::MAX / 65025;

/// An exact similarity score `num / den`, with `num <= den`, `den >= 1`.
/// `num == den` is a perfect match; `num == 0` is the worst score.
#[derive(Clone, Copy, Debug, PartialEq, Eq, Structural)]
pub struct Accuracy {
    pub num: u64,
    pub den: u64,
}

/// Which distance metric a run scores candidates with.
#[derive(Clone, Copy, Debug, PartialEq, Eq, Structural)]
pub enum Metric {
    /// Sum of absolute per-byte differences, normalized by `len * 255`.
    Sad,
    /// Sum of squared per-byte differences, normalized by `len * 255 * 255`.
    Mse,
}

/// A well-formed accuracy is a rational in `[0, 1]`.
pub open spec fn accuracy_wf(a: Accuracy) -> bool {
    1 <= a.den && a.num <= a.den
}

/// Absolute difference of two bytes, as a mathematical integer.
pub open spec fn byte_diff(a: u8, b: u8) -> int {
    if a >= b {
        a - b
    } else {
        b - a
    }
}

/// Sum of absolute per-byte differences of two equal-length buffers.
pub open spec fn sad_sum(t: Seq<u8>, r: Seq<u8>) -> int
    decreases t.len(),
{
    if t.len() == 0 {
        0
    } else {
        sad_sum(t.drop_last(), r.drop_last()) + byte_diff(t[t.len() - 1], r[r.len() - 1])
    }
}

/// Sum of squared per-byte differences of two equal-length buffers.
pub open spec fn mse_sum(t: Seq<u8>, r: Seq<u8>) -> int
    decreases t.len(),
{
    if t.len() == 0 {
        0
    } else {
        mse_sum(t.drop_last(), r.drop_last()) + byte_diff(t[t.len() - 1], r[r.len() - 1])
            * byte_diff(t[t.len() - 1], r[r.len() - 1])
    }
}

/// The accuracy the SAD metric assigns to a pair of buffers.
pub open spec fn spec_sad_accuracy(t: Seq<u8>, r: Seq<u8>) -> Accuracy {
    if t.len() != r.len() || t.len() == 0 {
        Accuracy { num: 0, den: 1 }
    } else {
        Accuracy {
            num: (t.len() * 255 - sad_sum(t, r)) as u64,
            den: (t.len() * 255) as u64,
        }
    }
}

/// The accuracy the MSE metric assigns to a pair of buffers.
pub open spec fn spec_mse_accuracy(t: Seq<u8>, r: Seq<u8>) -> Accuracy {
    if t.len() != r.len() || t.len() == 0 {
        Accuracy { num: 0, den: 1 }
    } else {
        Accuracy {
            num: (t.len() * 65025 - mse_sum(t, r)) as u64,
            den: (t.len() * 65025) as u64,
        }
    }
}

/// The accuracy of the chosen metric.
pub open spec fn spec_accuracy(m: Metric, t: Seq<u8>, r: Seq<u8>) -> Accuracy {
    match m {
        Metric::Sad => spec_sad_accuracy(t, r),
        Metric::Mse => spec_mse_accuracy(t, r),
    }
}

/// The SAD distance of equal-length buffers is between `0` and `len * 255`.
pub proof fn lemma_sad_sum_bounds(t: Seq<u8>, r: Seq<u8>)
    requires
        t.len() == r.len(),
    ensures
        0 <= sad_sum(t, r) <= t.len() * 255,
    decreases t.len(),
{
    if t.len() > 0 {
        lemma_sad_sum_bounds(t.drop_last(), r.drop_last());
    }
}

/// The MSE distance of equal-length buffers is between `0` and `len * 255 * 255`.
pub proof fn lemma_mse_sum_bounds(t: Seq<u8>, r: Seq<u8>)
    requires
        t.len() == r.len(),
    ensures
        0 <= mse_sum(t, r) <= t.len() * 65025,
    decreases t.len(),
{
    if t.len() > 0 {
        lemma_mse_sum_bounds(t.drop_last(), r.drop_last());
        assert(byte_diff(t[t.len() - 1], r[r.len() - 1]) * byte_diff(
            t[t.len() - 1],
            r[r.len() - 1],
        ) <= 65025) by (nonlinear_arith)
            requires
                0 <= byte_diff(t[t.len() - 1], r[r.len() - 1]) <= 255,
        ;
    }
}

/// The SAD distance is zero exactly when the buffers are byte-identical.
pub proof fn lemma_sad_sum_zero(t: Seq<u8>, r: Seq<u8>)
    requires
        t.len() == r.len(),
    ensures
        sad_sum(t, r) == 0 <==> t =~= r,
    decreases t.len(),
{
    if t.len() > 0 {
        lemma_sad_sum_zero(t.drop_last(), r.drop_last());
        lemma_sad_sum_bounds(t.drop_last(), r.drop_last());
        if sad_sum(t, r) == 0 {
            assert forall|i: int| 0 <= i < t.len() implies t[i] == r[i] by {
                if i < t.len() - 1 {
                    assert(t.drop_last()[i] == r.drop_last()[i]);
                }
            }
        }
        if t =~= r {
            assert(t.drop_last() =~= r.drop_last());
        }
    }
}

/// The MSE distance is zero exactly when the buffers are byte-identical.
pub proof fn lemma_mse_sum_zero(t: Seq<u8>, r: Seq<u8>)
    requires
        t.len() == r.len(),
    ensures
        mse_sum(t, r) == 0 <==> t =~= r,
    decreases t.len(),
{
    if t.len() > 0 {
        lemma_mse_sum_zero(t.drop_last(), r.drop_last());
        lemma_mse_sum_bounds(t.drop_last(), r.drop_last());
        let ghost d: int = byte_diff(t[t.len() - 1], r[r.len() - 1]);
        assert(d * d >= 0) by (nonlinear_arith);
        assert(d != 0 ==> d * d > 0) by (nonlinear_arith);
        assert(d == 0 ==> d * d == 0) by (nonlinear_arith);
        if mse_sum(t, r) == 0 {
            assert(mse_sum(t.drop_last(), r.drop_last()) == 0);
            assert(d == 0);
            assert forall|i: int| 0 <= i < t.len() implies t[i] == r[i] by {
                if i < t.len() - 1 {
                    assert(t.drop_last()[i] == r.drop_last()[i]);
                } else {
                    assert(byte_diff(t[i], r[i]) == 0);
                }
            }
            assert(t =~= r);
        }
        if t =~= r {
            assert(t.drop_last() =~= r.drop_last());
            assert(byte_diff(t[t.len() - 1], r[r.len() - 1]) == 0);
            assert(mse_sum(t, r) == 0);
        }
    }
}

/// When every byte pair differs maximally, the SAD distance is `len * 255`.
pub proof fn lemma_sad_sum_max(t: Seq<u8>, r: Seq<u8>)
    requires
        t.len() == r.len(),
        forall|i: int| 0 <= i < t.len() ==> byte_diff(t[i], r[i]) == 255,
    ensures
        sad_sum(t, r) == t.len() * 255,
    decreases t.len(),
{
    if t.len() > 0 {
        assert forall|i: int| 0 <= i < t.len() - 1 implies byte_diff(
            t.drop_last()[i],
            r.drop_last()[i],
        ) == 255 by {
            assert(byte_diff(t[i], r[i]) == 255);
        }
        lemma_sad_sum_max(t.drop_last(), r.drop_last());
    }
}

/// Every accuracy either metric produces is a rational in `[0, 1]`, and it
/// is `1` exactly when the buffers are non-empty and byte-identical.
pub proof fn lemma_accuracy_range(m: Metric, t: Seq<u8>, r: Seq<u8>)
    requires
        t.len() <= MAX_SCORED_LEN,
    ensures
        accuracy_wf(spec_accuracy(m, t, r)),
        spec_accuracy(m, t, r).num == spec_accuracy(m, t, r).den <==> (t.len() == r.len()
            && t.len() > 0 && t =~= r),
{
    if t.len() == r.len() && t.len() > 0 {
        lemma_sad_sum_bounds(t, r);
        lemma_mse_sum_bounds(t, r);
        lemma_sad_sum_zero(t, r);
        lemma_mse_sum_zero(t, r);
        assert(t.len() * 255 <= t.len() * 65025 <= MAX_SCORED_LEN * 65025) by (nonlinear_arith)
            requires
                0 < t.len() <= MAX_SCORED_LEN,
        ;
        assert(MAX_SCORED_LEN * 65025 <= u64::MAX) by (nonlinear_arith);
    }
}

/// When every byte pair differs maximally, the MSE distance is
/// `len * 255 * 255`.
pub proof fn lemma_mse_sum_max(t: Seq<u8>, r: Seq<u8>)
    requires
        t.len() == r.len(),
        forall|i: int| 0 <= i < t.len() ==> byte_diff(t[i], r[i]) == 255,
    ensures
        mse_sum(t, r) == t.len() * 65025,
    decreases t.len(),
{
    if t.len() > 0 {
        assert forall|i: int| 0 <= i < t.len() - 1 implies byte_diff(
            t.drop_last()[i],
            r.drop_last()[i],
        ) == 255 by {
            assert(byte_diff(t[i], r[i]) == 255);
        }
        lemma_mse_sum_max(t.drop_last(), r.drop_last());
        assert(byte_diff(t[t.len() - 1], r[r.len() - 1]) == 255);
    }
}

/// When buffers match in non-zero length and every byte pair differs by the
/// full `255`, both metrics score exactly `0`.
pub proof fn lemma_accuracy_zero_on_max_difference(t: Seq<u8>, r: Seq<u8>)
    requires
        t.len() == r.len(),
        t.len() > 0,
        forall|i: int| 0 <= i < t.len() ==> byte_diff(t[i], r[i]) == 255,
    ensures
        spec_sad_accuracy(t, r).num == 0,
        spec_mse_accuracy(t, r).num == 0,
{
    lemma_sad_sum_max(t, r);
    lemma_mse_sum_max(t, r);
}

/// Restriction of the SAD distance to a one-longer prefix.
proof fn lemma_sad_sum_step(t: Seq<u8>, r: Seq<u8>, i: int)
    requires
        t.len() == r.len(),
        0 <= i < t.len(),
    ensures
        sad_sum(t.take(i + 1), r.take(i + 1)) == sad_sum(t.take(i), r.take(i)) + byte_diff(
            t[i],
            r[i],
        ),
{
    assert(t.take(i + 1).drop_last() =~= t.take(i));
    assert(r.take(i + 1).drop_last() =~= r.take(i));
}

/// Restriction of the MSE distance to a one-longer prefix.
proof fn lemma_mse_sum_step(t: Seq<u8>, r: Seq<u8>, i: int)
    requires
        t.len() == r.len(),
        0 <= i < t.len(),
    ensures
        mse_sum(t.take(i + 1), r.take(i + 1)) == mse_sum(t.take(i), r.take(i)) + byte_diff(
            t[i],
            r[i],
        ) * byte_diff(t[i], r[i]),
{
    assert(t.take(i + 1).drop_last() =~= t.take(i));
    assert(r.take(i + 1).drop_last() =~= r.take(i));
}

/// Compare two raw byte buffers by sum of absolute differences, normalized
/// to an accuracy in `[0, 1]`. Mismatched or empty buffers score `0`.
pub fn sad_compare_raw(target: &[u8], rendered: &[u8]) -> (acc: Accuracy)
    requires
        target@.len() <= MAX_SCORED_LEN,
    ensures
        acc == spec_sad_accuracy(target@, rendered@),
        accuracy_wf(acc),
{
    proof {
        lemma_accuracy_range(Metric::Sad, target@, rendered@);
    }
    if target.len() != rendered.len() || target.len() == 0 {
        return Accuracy { num: 0, den: 1 };
    }
    let n = target.len();
    let mut total: u64 = 0;
    let mut i: usize = 0;
    while i < n
        invariant
            target@.len() == n,
            rendered@.len() == n,
            n <= MAX_SCORED_LEN,
            0 <= i <= n,
            total == sad_sum(target@.take(i as int), rendered@.take(i as int)),
            total <= i * 255,
        decreases n - i,
    {
        let a = target[i];
        let b = rendered[i];
        let d: u64 = if a >= b {
            (a - b) as u64
        } else {
            (b - a) as u64
        };
        proof {
            lemma_sad_sum_step(target@, rendered@, i as int);
            assert((i + 1) * 255 == i * 255 + 255) by (nonlinear_arith);
            assert(i * 255 <= n * 255) by (nonlinear_arith)
                requires
                    0 <= i <= n,
            ;
        }
        total = total + d;
        i = i + 1;
    }
    proof {
        assert(target@.take(n as int) =~= target@);
        assert(rendered@.take(n as int) =~= rendered@);
        lemma_sad_sum_bounds(target@, rendered@);
        assert(n * 255 <= MAX_SCORED_LEN * 255) by (nonlinear_arith)
            requires
                n <= MAX_SCORED_LEN,
        ;
    }
    let den: u64 = (n as u64) * 255;
    Accuracy { num: den - total, den }
}

/// Compare two raw byte buffers by sum of squared differences, normalized
/// to an accuracy in `[0, 1]`. Mismatched or empty buffers score `0`.
pub fn mse_compare_raw(target: &[u8], rendered: &[u8]) -> (acc: Accuracy)
    requires
        target@.len() <= MAX_SCORED_LEN,
    ensures
        acc == spec_mse_accuracy(target@, rendered@),
        accuracy_wf(acc),
{
    proof {
        lemma_accuracy_range(Metric::Mse, target@, rendered@);
    }
    if target.len() != rendered.len() || target.len() == 0 {
        return Accuracy { num: 0, den: 1 };
    }
    let n = target.len();
    let mut total: u64 = 0;
    let mut i: usize = 0;
    while i < n
        invariant
            target@.len() == n,
            rendered@.len() == n,
            n <= MAX_SCORED_LEN,
            0 <= i <= n,
            total == mse_sum(target@.take(i as int), rendered@.take(i as int)),
            total <= i * 65025,
        decreases n - i,
    {
        let a = target[i];
        let b = rendered[i];
        let d: u64 = if a >= b {
            (a - b) as u64
        } else {
            (b - a) as u64
        };
        proof {
            lemma_mse_sum_step(target@, rendered@, i as int);
            assert((i + 1) * 65025 == i * 65025 + 65025) by (nonlinear_arith);
            assert(i * 65025 <= n * 65025) by (nonlinear_arith)
                requires
                    0 <= i <= n,
            ;
            assert(d * d <= 65025) by (nonlinear_arith)
                requires
                    0 <= d <= 255,
            ;
        }
        total = total + d * d;
        i = i + 1;
    }
    proof {
        assert(target@.take(n as int) =~= target@);
        assert(rendered@.take(n as int) =~= rendered@);
        lemma_mse_sum_bounds(target@, rendered@);
        assert(n * 65025 <= MAX_SCORED_LEN * 65025) by (nonlinear_arith)
            requires
                n <= MAX_SCORED_LEN,
        ;
    }
    let den: u64 = (n as u64) * 65025;
    Accuracy { num: den - total, den }
}

/// Compare with the chosen metric.
pub fn compare_raw(metric: Metric, target: &[u8], rendered: &[u8]) -> (acc: Accuracy)
    requires
        target@.len() <= MAX_SCORED_LEN,
    ensures
        acc == spec_accuracy(metric, target@, rendered@),
        accuracy_wf(acc),
{
    match metric {
        Metric::Sad => sad_compare_raw(target, rendered),
        Metric::Mse => mse_compare_raw(target, rendered),
    }
}

/// Render each candidate and pair it with its accuracy against the
/// target under the chosen metric.
#[verifier::loop_isolation(false)]
pub fn score_images(images: Vec<crate::types::Image>, target: &Vec<u8>, metric: Metric) -> (r: Vec<
    (Accuracy, crate::types::Image),
>)
    requires
        target@.len() <= MAX_SCORED_LEN,
        forall|i: int| 0 <= i < images@.len() ==> crate::types::image_wf(#[trigger] images@[i]),
    ensures
        r@.len() == images@.len(),
        forall|i: int|
            0 <= i < r@.len() ==> {
                &&& (#[trigger] r@[i]).1 == images@[i]
                &&& r@[i].0 == spec_accuracy(
                    metric,
                    target@,
                    crate::renderer::spec_render(r@[i].1),
                )
                &&& accuracy_wf(r@[i].0)
                &&& crate::types::image_wf(r@[i].1)
            },
{
    let ghost orig = images@;
    let mut images = images;
    let mut r: Vec<(Accuracy, crate::types::Image)> = Vec::new();
    while images.len() > 0
        invariant
            orig.len() == r@.len() + images@.len(),
            images@ == orig.skip(r@.len() as int),
            forall|i: int|
                0 <= i < r@.len() ==> {
                    &&& (#[trigger] r@[i]).1 == orig[i]
                    &&& r@[i].0 == spec_accuracy(
                        metric,
                        target@,
                        crate::renderer::spec_render(r@[i].1),
                    )
                    &&& accuracy_wf(r@[i].0)
                    &&& crate::types::image_wf(r@[i].1)
                },
        decreases images@.len(),
    {
        let ghost k = r@.len() as int;
        let img = images.remove(0);
        proof {
            assert(img == orig[k]);
            assert(images@ =~= orig.skip(k + 1));
        }
        let rendered = crate::renderer::render_image(&img);
        let acc = compare_raw(metric, target.as_slice(), rendered.data.as_slice());
        r.push((acc, img));
    }
    r
}


} // verus!
