//! The batch-driving multi-parent search: elitist evolution run to
//! termination in one call, with the mutation count per child scaling
//! with elapsed iterations, a periodic population widening that re-adds
//! the current best, and a stagnation shake of the whole parent set.

use crate::engine::{mutate_times, pop_ok, sort_scored, sorted_desc};
use crate::generations::generate_initial_image;
use crate::mutations::MIN_POLYGONS;
use crate::rng::{RandomSource, MICRO};
use crate::scoring::{score_images, Accuracy, Metric, MAX_SCORED_LEN};
use crate::types::{clone_image, dims_valid, eq_image, image_wf, Image};
use vstd::prelude::*;

verus! {

/// Iteration cap of a run.
pub const MAX_ITERATIONS: usize = 100000;

/// Every this many iterations the per-child mutation count grows by one.
pub const MUTATIONS_SCALING: usize = 10000;

/// Accuracy at which a run stops, in micro-units.
pub const REQUIRED_ACCURACY_MICRO: u64 = 950000;

/// Children spawned per parent per generation.
pub const CHILDREN_PER_PARENT: usize = 10;

/// How many of the top scorers the periodic widening re-adds.
pub const POPULATION_SIZE_INCREASE: usize = 1;

/// How often (in iterations) the parent set is widened.
pub const POPULATION_SIZE_INCREASE_FREQUENCY: usize = 1000;

/// Cap on the extra per-child mutations gained by scaling.
pub const MIN_MUTATIONS: usize = 2;

/// Parents kept as-is at the start of a run.
pub const KEEP_TOP: usize = 3;

/// Run the multi-parent elitist search to termination: breed
/// The returned candidate is the top of a final scored generation: a
/// coherent, descending-sorted pool of at least three scored candidates
/// whose first entry the result equals in content.
pub open spec fn final_generation_ok(
    s: Seq<(Accuracy, Image)>,
    metric: Metric,
    target: Seq<u8>,
    w: int,
    h: int,
    r: Image,
) -> bool {
    &&& s.len() >= 3
    &&& sorted_desc(s)
    &&& pop_ok(s, metric, target, w, h)
    &&& eq_image(r, s[0].1)
}

/// `CHILDREN_PER_PARENT` children per parent with `1 +
/// min(iteration / MUTATIONS_SCALING, MIN_MUTATIONS)` mutations each,
/// score children and parents together, keep the two best and a
/// five-times-mutated worst, widen by the top scorers every
/// `POPULATION_SIZE_INCREASE_FREQUENCY` iterations, and shake the
/// second-best parent after 500 stale iterations. Stops at
/// `MAX_ITERATIONS` iterations or `REQUIRED_ACCURACY_MICRO` accuracy and
/// returns the top-scored candidate of the last generation.
#[verifier::loop_isolation(false)]
pub fn strongest_mutates_alg(
    target: &Vec<u8>,
    width: usize,
    height: usize,
    metric: Metric,
    rng: &mut RandomSource,
) -> (r: Image)
    requires
        dims_valid(width as int, height as int),
        target@.len() <= MAX_SCORED_LEN,
    ensures
        image_wf(r),
        r.width == width,
        r.height == height,
        r.polygon@.len() >= MIN_POLYGONS,
        exists|s: Seq<(Accuracy, Image)>|
            #[trigger] final_generation_ok(s, metric, target@, width as int, height as int, r),
{
    let mut parents: Vec<Image> = Vec::new();
    let mut i: usize = 0;
    while i < KEEP_TOP
        invariant
            parents@.len() == i,
            0 <= i <= KEEP_TOP,
            forall|j: int|
                0 <= j < parents@.len() ==> image_wf(#[trigger] parents@[j])
                    && parents@[j].width == width && parents@[j].height == height
                    && parents@[j].polygon@.len() >= MIN_POLYGONS,
        decreases KEEP_TOP - i,
    {
        let img = generate_initial_image(rng, width, height);
        parents.push(img);
        i = i + 1;
    }
    let mut best_num: u64 = 0;
    let mut best_den: u64 = 1;
    let mut iter: usize = 0;
    let mut stale: usize = 0;
    let ghost mut last_gen: Seq<(Accuracy, Image)> = Seq::empty();
    while iter < MAX_ITERATIONS
        invariant
            iter <= MAX_ITERATIONS,
            stale <= 501,
            best_den >= 1,
            iter == 0 ==> best_num == 0 && best_den == 1,
            2 <= parents@.len() <= 5,
            forall|j: int|
                0 <= j < parents@.len() ==> image_wf(#[trigger] parents@[j])
                    && parents@[j].width == width && parents@[j].height == height
                    && parents@[j].polygon@.len() >= MIN_POLYGONS,
            iter > 0 ==> final_generation_ok(
                last_gen,
                metric,
                target@,
                width as int,
                height as int,
                parents@[0],
            ),
        decreases MAX_ITERATIONS - iter,
    {
        proof {
            assert(best_num * MICRO <= 0xffffffffffffffff * 1000000) by (nonlinear_arith)
                requires
                    best_num <= 0xffffffffffffffff,
            ;
            assert(REQUIRED_ACCURACY_MICRO * best_den <= 1000000 * 0xffffffffffffffff)
                by (nonlinear_arith)
                requires
                    best_den <= 0xffffffffffffffff,
            ;
        }
        if (best_num as u128) * 1000000 >= (REQUIRED_ACCURACY_MICRO as u128) * (best_den as u128) {
            proof {
                assert(iter > 0);
            }
            break ;
        }
        let extra = iter / MUTATIONS_SCALING;
        let num_mutations: usize = 1 + (if extra < MIN_MUTATIONS {
            extra
        } else {
            MIN_MUTATIONS
        });
        let mut children: Vec<Image> = Vec::new();
        let mut p: usize = 0;
        while p < parents.len()
            invariant
                0 <= p <= parents@.len(),
                2 <= parents@.len() <= 5,
                forall|j: int|
                    0 <= j < parents@.len() ==> image_wf(#[trigger] parents@[j])
                        && parents@[j].width == width && parents@[j].height == height
                        && parents@[j].polygon@.len() >= MIN_POLYGONS,
                forall|j: int|
                    0 <= j < children@.len() ==> image_wf(#[trigger] children@[j])
                        && children@[j].width == width && children@[j].height == height
                        && children@[j].polygon@.len() >= MIN_POLYGONS,
                children@.len() == p * CHILDREN_PER_PARENT,
            decreases parents@.len() - p,
        {
            let mut c: usize = 0;
            while c < CHILDREN_PER_PARENT
                invariant
                    0 <= c <= CHILDREN_PER_PARENT,
                    0 <= p < parents@.len(),
                    forall|j: int|
                        0 <= j < parents@.len() ==> image_wf(#[trigger] parents@[j])
                            && parents@[j].width == width && parents@[j].height == height
                            && parents@[j].polygon@.len() >= MIN_POLYGONS,
                    forall|j: int|
                        0 <= j < children@.len() ==> image_wf(#[trigger] children@[j])
                            && children@[j].width == width && children@[j].height == height
                            && children@[j].polygon@.len() >= MIN_POLYGONS,
                    children@.len() == p * CHILDREN_PER_PARENT + c,
                decreases CHILDREN_PER_PARENT - c,
            {
                let child0 = clone_image(&parents[p]);
                let child = mutate_times(child0, num_mutations, rng);
                children.push(child);
                c = c + 1;
            }
            proof {
                assert((p + 1) * CHILDREN_PER_PARENT == p * CHILDREN_PER_PARENT
                    + CHILDREN_PER_PARENT) by (nonlinear_arith);
            }
            p = p + 1;
        }
        while parents.len() > 0
            invariant
                forall|j: int|
                    0 <= j < parents@.len() ==> image_wf(#[trigger] parents@[j])
                        && parents@[j].width == width && parents@[j].height == height
                        && parents@[j].polygon@.len() >= MIN_POLYGONS,
                forall|j: int|
                    0 <= j < children@.len() ==> image_wf(#[trigger] children@[j])
                        && children@[j].width == width && children@[j].height == height
                        && children@[j].polygon@.len() >= MIN_POLYGONS,
                children@.len() >= 3,
            decreases parents@.len(),
        {
            let par = parents.remove(0);
            children.push(par);
        }
        let ghost children_v = children@;
        let scored0 = score_images(children, target, metric);
        let ghost scored0_v = scored0@;
        let scored = sort_scored(scored0);
        proof {
            assert forall|j: int|
                0 <= j < scored0_v.len() implies crate::engine::scored_ok(
                #[trigger] scored0_v[j],
                metric,
                target@,
                width as int,
                height as int,
            ) && scored0_v[j].1.polygon@.len() >= MIN_POLYGONS by {
                assert(scored0_v[j].1 == children_v[j]);
            }
            assert forall|j: int|
                0 <= j < scored@.len() implies crate::engine::scored_ok(
                #[trigger] scored@[j],
                metric,
                target@,
                width as int,
                height as int,
            ) && scored@[j].1.polygon@.len() >= MIN_POLYGONS by {
                assert(scored0_v.contains(scored@[j]));
                let m = choose|m: int| 0 <= m < scored0_v.len() && scored0_v[m] == scored@[j];
                assert(crate::engine::scored_ok(
                    scored0_v[m],
                    metric,
                    target@,
                    width as int,
                    height as int,
                ));
            }
        }
        let new_best = scored[0].0;
        proof {
            assert(new_best.num * best_den <= 0xffffffffffffffff * 0xffffffffffffffff)
                by (nonlinear_arith)
                requires
                    new_best.num <= 0xffffffffffffffff,
                    best_den <= 0xffffffffffffffff,
            ;
            assert(best_num * new_best.den <= 0xffffffffffffffff * 0xffffffffffffffff)
                by (nonlinear_arith)
                requires
                    best_num <= 0xffffffffffffffff,
                    new_best.den <= 0xffffffffffffffff,
            ;
        }
        if new_best.den >= 1 && (new_best.num as u128) * (best_den as u128) > (best_num as u128)
            * (new_best.den as u128) {
            best_num = new_best.num;
            best_den = new_best.den;
            stale = 0;
        } else {
            stale = stale + 1;
        }
        let top0 = clone_image(&scored[0].1);
        let top1 = clone_image(&scored[1].1);
        let widx = scored.len() - 1;
        let worst0 = clone_image(&scored[widx].1);
        let worst = mutate_times(worst0, 5, rng);
        let mut next: Vec<Image> = Vec::new();
        next.push(top0);
        next.push(top1);
        next.push(worst);
        if iter % POPULATION_SIZE_INCREASE_FREQUENCY == 0 {
            let mut q: usize = 0;
            while q < POPULATION_SIZE_INCREASE
                invariant
                    0 <= q <= POPULATION_SIZE_INCREASE,
                    next@.len() == 3 + q,
                    eq_image(next@[0], scored@[0].1),
                    forall|j: int|
                        0 <= j < next@.len() ==> image_wf(#[trigger] next@[j])
                            && next@[j].width == width && next@[j].height == height
                            && next@[j].polygon@.len() >= MIN_POLYGONS,
                decreases POPULATION_SIZE_INCREASE - q,
            {
                next.push(clone_image(&scored[q].1));
                q = q + 1;
            }
        }
        parents = next;
        if stale > 500 {
            let img0 = clone_image(&parents[1]);
            let img = mutate_times(img0, 5, rng);
            parents[1] = img;
            stale = 0;
        }
        proof {
            last_gen = scored@;
            assert(final_generation_ok(
                last_gen,
                metric,
                target@,
                width as int,
                height as int,
                parents@[0],
            ));
        }
        iter = iter + 1;
    }
    proof {
        assert(iter > 0);
    }
    parents.remove(0)
}

} // verus!
