//! The optimization engine: three metaheuristic strategies behind one
//! batched step and termination contract.
//!
//! A run terminates when `iteration >= max_iterations` or the best
//! accuracy reaches the target; a finished engine is frozen and further
//! steps only report the frozen best rendering. Scores are exact
//! rationals; fractions such as the target accuracy, the cooling rate and
//! the crossover rate are carried in micro-units (millionths).

use crate::generations::generate_initial_image;
use crate::mutations::{mutate_image, MIN_POLYGONS};
use crate::renderer::{pixel_buffer_wf, render_image, spec_render, PixelBuffer};
use crate::rng::{RandomSource, MICRO};
use crate::scoring::{accuracy_wf, compare_raw, spec_accuracy, Accuracy, Metric, MAX_SCORED_LEN};
use crate::types::{
    clone_image, clone_polygon, dims_valid, eq_image, eq_polygon, image_wf, point_in_canvas,
    polygon_wf, Image, Polygon, COORD_SCALE,
};
use vstd::multiset::Multiset;
use vstd::prelude::*;

verus! {

/// The selectable search strategies.
#[derive(Clone, Copy, Debug, PartialEq, Eq, Structural)]
pub enum AlgorithmType {
    EvolutionStrategy,
    SimulatedAnnealing,
    DifferentialEvolution,
}

/// Below this temperature the annealer resets instead of decaying further.
pub const TEMP_FLOOR_MICRO: u64 = 100;

/// The temperature an underflowing annealer resets to.
pub const TEMP_RESET_MICRO: u64 = 100000;

/// Largest accepted starting temperature.
pub const TEMP_CAP_MICRO: u64 = 1000000000000;

/// Largest accepted children-per-parent and population-size knobs.
pub const MAX_KNOB: usize = 100000;

/// Engine configuration; fractions are in micro-units.
#[derive(Clone, Copy, Debug)]
pub struct AlgorithmConfig {
    pub max_iterations: usize,
    pub target_accuracy_micro: u64,
    pub algorithm_type: AlgorithmType,
    pub metric: Metric,
    pub es_children_per_parent: usize,
    pub initial_temp_micro: u64,
    pub cooling_rate_micro: u64,
    pub population_size: usize,
    pub mutation_factor_micro: u64,
    pub crossover_rate_micro: u64,
}

/// The option ranges the engine accepts.
pub open spec fn config_wf(c: AlgorithmConfig) -> bool {
    &&& 1 <= c.target_accuracy_micro <= MICRO
    &&& 1 <= c.es_children_per_parent <= MAX_KNOB
    &&& 1 <= c.initial_temp_micro <= TEMP_CAP_MICRO
    &&& 1 <= c.cooling_rate_micro < MICRO
    &&& c.crossover_rate_micro <= MICRO
    &&& (c.algorithm_type == AlgorithmType::DifferentialEvolution ==> 4 <= c.population_size
        <= MAX_KNOB)
}

impl Default for AlgorithmConfig {
    /// The default run: elitist evolution under the SAD metric, stopping
    /// at 100000 iterations or 95% accuracy.
    fn default() -> (c: Self)
        ensures
            c.max_iterations == 100000,
            c.target_accuracy_micro == 950000,
            c.algorithm_type == AlgorithmType::EvolutionStrategy,
            c.metric == Metric::Sad,
            c.es_children_per_parent == 5,
            c.initial_temp_micro == 1000000,
            c.cooling_rate_micro == 999950,
            c.population_size == 6,
            c.mutation_factor_micro == 800000,
            c.crossover_rate_micro == 900000,
            config_wf(c),
    {
        AlgorithmConfig {
            max_iterations: 100000,
            target_accuracy_micro: 950000,
            algorithm_type: AlgorithmType::EvolutionStrategy,
            metric: Metric::Sad,
            es_children_per_parent: 5,
            initial_temp_micro: 1000000,
            cooling_rate_micro: 999950,
            population_size: 6,
            mutation_factor_micro: 800000,
            crossover_rate_micro: 900000,
        }
    }
}

/// Strategy-specific run state.
pub enum StrategyState {
    Es { parents: Vec<(Accuracy, Image)>, no_improvement: usize },
    Sa {
        current: Image,
        current_score: Accuracy,
        best: Image,
        best_score: Accuracy,
        temperature: u64,
    },
    De { population: Vec<(Accuracy, Image)> },
}

/// A scored pair is coherent: a well-formed candidate of the run's canvas
/// whose score is exactly the chosen metric's accuracy of its rendering
/// against the run's target.
pub open spec fn scored_ok(
    p: (Accuracy, Image),
    metric: Metric,
    target: Seq<u8>,
    w: int,
    h: int,
) -> bool {
    &&& image_wf(p.1)
    &&& p.1.width == w
    &&& p.1.height == h
    &&& p.0 == spec_accuracy(metric, target, spec_render(p.1))
    &&& accuracy_wf(p.0)
}

/// Every pair of the population is coherent.
pub open spec fn pop_ok(
    s: Seq<(Accuracy, Image)>,
    metric: Metric,
    target: Seq<u8>,
    w: int,
    h: int,
) -> bool {
    forall|i: int| 0 <= i < s.len() ==> scored_ok(#[trigger] s[i], metric, target, w, h)
}

/// Scores never increase along the population.
pub open spec fn sorted_desc(s: Seq<(Accuracy, Image)>) -> bool {
    forall|i: int, j: int| 0 <= i < j < s.len() ==> s[i].0.num >= s[j].0.num
}

/// The complete engine state.
pub struct AlgorithmState {
    pub config: AlgorithmConfig,
    pub target_pixels: Vec<u8>,
    pub width: usize,
    pub height: usize,
    pub iteration: usize,
    pub finished: bool,
    pub strategy: StrategyState,
    pub rng: RandomSource,
}

/// The engine invariant: valid canvas and configuration, iteration within
/// the cap, and the strategy state coherent with the configured strategy.
pub open spec fn state_wf(s: AlgorithmState) -> bool {
    &&& dims_valid(s.width as int, s.height as int)
    &&& s.target_pixels@.len() <= MAX_SCORED_LEN
    &&& config_wf(s.config)
    &&& s.iteration <= s.config.max_iterations
    &&& match s.strategy {
        StrategyState::Es { parents, no_improvement } => {
            &&& s.config.algorithm_type == AlgorithmType::EvolutionStrategy
            &&& parents@.len() == 3
            &&& no_improvement <= 501
            &&& pop_ok(
                parents@,
                s.config.metric,
                s.target_pixels@,
                s.width as int,
                s.height as int,
            )
        },
        StrategyState::Sa { current, current_score, best, best_score, temperature } => {
            &&& s.config.algorithm_type == AlgorithmType::SimulatedAnnealing
            &&& scored_ok(
                (current_score, current),
                s.config.metric,
                s.target_pixels@,
                s.width as int,
                s.height as int,
            )
            &&& scored_ok(
                (best_score, best),
                s.config.metric,
                s.target_pixels@,
                s.width as int,
                s.height as int,
            )
            &&& best_score.num >= current_score.num
            &&& 1 <= temperature <= TEMP_CAP_MICRO
        },
        StrategyState::De { population } => {
            &&& s.config.algorithm_type == AlgorithmType::DifferentialEvolution
            &&& population@.len() == s.config.population_size
            &&& pop_ok(
                population@,
                s.config.metric,
                s.target_pixels@,
                s.width as int,
                s.height as int,
            )
            &&& sorted_desc(population@)
        },
    }
}

/// The facts a freshly built engine guarantees beyond the invariant: the
/// elitist parents start sorted descending with a zero stall counter; the
/// annealer starts at the configured temperature with best equal to
/// current; the differential population starts sorted (already in the
/// invariant).
pub open spec fn initialized_ok(s: AlgorithmState) -> bool {
    match s.strategy {
        StrategyState::Es { parents, no_improvement } => no_improvement == 0 && sorted_desc(
            parents@,
        ),
        StrategyState::Sa { current, current_score, best, best_score, temperature } => {
            &&& temperature == s.config.initial_temp_micro
            &&& best_score == current_score
            &&& eq_image(best, current)
        },
        StrategyState::De { population } => true,
    }
}

/// The engine's reported best accuracy: the top parent, the best-ever
/// annealing state, or the top population member.
pub open spec fn spec_best_accuracy(s: AlgorithmState) -> Accuracy {
    match s.strategy {
        StrategyState::Es { parents, .. } => parents@[0].0,
        StrategyState::Sa { best_score, .. } => best_score,
        StrategyState::De { population } => population@[0].0,
    }
}

/// The candidate behind the reported best accuracy.
pub open spec fn spec_best_image(s: AlgorithmState) -> Image {
    match s.strategy {
        StrategyState::Es { parents, .. } => parents@[0].1,
        StrategyState::Sa { best, .. } => best,
        StrategyState::De { population } => population@[0].1,
    }
}

/// The best accuracy has reached the configured target fraction.
pub open spec fn spec_target_reached(s: AlgorithmState) -> bool {
    spec_best_accuracy(s).num * MICRO >= s.config.target_accuracy_micro * spec_best_accuracy(
        s,
    ).den
}

/// Render a candidate and score it against the run's target.
fn evaluate(metric: Metric, target: &Vec<u8>, img: &Image) -> (acc: Accuracy)
    requires
        image_wf(*img),
        target@.len() <= MAX_SCORED_LEN,
    ensures
        acc == spec_accuracy(metric, target@, spec_render(*img)),
        accuracy_wf(acc),
{
    let rendered = render_image(img);
    compare_raw(metric, target.as_slice(), rendered.data.as_slice())
}

/// The pairs scoring exactly `x`.
pub open spec fn with_score(x: u64) -> spec_fn((Accuracy, Image)) -> bool {
    |p: (Accuracy, Image)| p.0.num == x
}

/// A list in which no pair scores `x` filters to nothing under `x`.
proof fn lemma_filter_score_none(s: Seq<(Accuracy, Image)>, x: u64)
    requires
        forall|i: int| 0 <= i < s.len() ==> (#[trigger] s[i]).0.num != x,
    ensures
        s.filter(with_score(x)) == Seq::<(Accuracy, Image)>::empty(),
    decreases s.len(),
{
    reveal(Seq::filter);
    if s.len() > 0 {
        assert(s[s.len() - 1].0.num != x);
        lemma_filter_score_none(s.drop_last(), x);
    } else {
        assert(s.filter(with_score(x)) =~= Seq::<(Accuracy, Image)>::empty());
    }
}

/// Insert a scored pair into a descending run, keeping it descending.
fn insert_scored(out: &mut Vec<(Accuracy, Image)>, e: (Accuracy, Image))
    requires
        sorted_desc(old(out)@),
    ensures
        final(out)@.len() == old(out)@.len() + 1,
        sorted_desc(final(out)@),
        exists|p: int| 0 <= p <= old(out)@.len() && final(out)@ == old(out)@.insert(p, e),
        final(out)@.to_multiset() == old(out)@.to_multiset().insert(e),
        forall|x: u64|
            #[trigger] final(out)@.filter(with_score(x)) == (if x == e.0.num {
                old(out)@.filter(with_score(x)).push(e)
            } else {
                old(out)@.filter(with_score(x))
            }),
{
    let mut pos: usize = out.len();
    while pos > 0 && out[pos - 1].0.num < e.0.num
        invariant
            0 <= pos <= out@.len(),
            *out == *old(out),
            forall|j: int| pos <= j < out@.len() ==> out@[j].0.num < e.0.num,
        decreases pos,
    {
        pos = pos - 1;
    }
    let ghost s0 = out@;
    let ghost pv = pos as int;
    out.insert(pos, e);
    proof {
        assert(out@ == s0.insert(pv, e));
        out@.to_multiset_ensures();
        assert(out@.remove(pv).to_multiset() =~= out@.to_multiset().remove(out@[pv]));
        assert(out@.remove(pv) =~= s0);
        assert(out@[pv] == e);
        assert(out@.contains(e));
        assert(out@.to_multiset().count(e) > 0);
        assert(out@.to_multiset() =~= s0.to_multiset().insert(e));
        assert forall|i: int, j: int| 0 <= i < j < out@.len() implies out@[i].0.num
            >= out@[j].0.num by {
            let a = if i < pv {
                s0[i]
            } else if i == pv {
                e
            } else {
                s0[i - 1]
            };
            let b = if j < pv {
                s0[j]
            } else if j == pv {
                e
            } else {
                s0[j - 1]
            };
            assert(out@[i] == a);
            assert(out@[j] == b);
        }
        let take_part = s0.take(pv);
        let skip_part = s0.skip(pv);
        assert(out@ =~= take_part + (seq![e] + skip_part));
        assert(s0 =~= take_part + skip_part);
        assert forall|x: u64|
            #[trigger] out@.filter(with_score(x)) == (if x == e.0.num {
                s0.filter(with_score(x)).push(e)
            } else {
                s0.filter(with_score(x))
            }) by {
            reveal_with_fuel(Seq::<(Accuracy, Image)>::filter, 3);
            Seq::filter_distributes_over_add(take_part, seq![e] + skip_part, with_score(x));
            Seq::filter_distributes_over_add(seq![e], skip_part, with_score(x));
            Seq::filter_distributes_over_add(take_part, skip_part, with_score(x));
            assert(seq![e].drop_last() =~= Seq::<(Accuracy, Image)>::empty());
            assert(with_score(x)(e) <==> e.0.num == x);
            if x == e.0.num {
                assert(seq![e].filter(with_score(x)) =~= seq![e]);
                assert forall|i: int|
                    0 <= i < skip_part.len() implies (#[trigger] skip_part[i]).0.num != x by {
                    assert(skip_part[i] == s0[pv + i]);
                    assert(s0[pv + i].0.num < e.0.num);
                }
                lemma_filter_score_none(skip_part, x);
                assert(out@.filter(with_score(x)) =~= s0.filter(with_score(x)).push(e));
            } else {
                assert(seq![e].filter(with_score(x)) =~= Seq::<(Accuracy, Image)>::empty());
                assert(out@.filter(with_score(x)) =~= s0.filter(with_score(x)));
            }
        }
    }
}

/// Sort a scored population descending by score. The result holds
/// exactly the input pairs (the multisets are equal). A pair is inserted
/// after every pair scoring at least as high, so equal scores keep their
/// prior relative order (a stable insertion); the contract states the
/// multiset, the ordering, membership, and per-score stability: for every
/// score value, the pairs carrying it come out in their input order.
#[verifier::loop_isolation(false)]
pub(crate) fn sort_scored(v: Vec<(Accuracy, Image)>) -> (r: Vec<(Accuracy, Image)>)
    ensures
        r@.len() == v@.len(),
        sorted_desc(r@),
        r@.to_multiset() == v@.to_multiset(),
        forall|x: u64| #[trigger] r@.filter(with_score(x)) == v@.filter(with_score(x)),
        forall|i: int| 0 <= i < v@.len() ==> r@.contains(#[trigger] v@[i]),
        forall|i: int| 0 <= i < r@.len() ==> v@.contains(#[trigger] r@[i]),
{
    let ghost orig = v@;
    let mut v = v;
    let mut out: Vec<(Accuracy, Image)> = Vec::new();
    proof {
        out@.to_multiset_ensures();
        orig.to_multiset_ensures();
        assert(out@.to_multiset() =~= Multiset::empty());
        assert(out@.to_multiset().add(v@.to_multiset()) =~= orig.to_multiset());
        assert(orig.take(0) =~= out@);
    }
    while v.len() > 0
        invariant
            orig.len() == out@.len() + v@.len(),
            v@ == orig.skip(out@.len() as int),
            sorted_desc(out@),
            out@.to_multiset().add(v@.to_multiset()) == orig.to_multiset(),
            forall|x: u64|
                #[trigger] out@.filter(with_score(x)) == orig.take(out@.len() as int).filter(
                    with_score(x),
                ),
            forall|i: int| 0 <= i < out@.len() as int ==> out@.contains(#[trigger] orig[i]),
            forall|j: int| 0 <= j < out@.len() ==> orig.contains(#[trigger] out@[j]),
        decreases v@.len(),
    {
        let ghost k = out@.len() as int;
        let ghost out0 = out@;
        let ghost v0 = v@;
        let e = v.remove(0);
        proof {
            assert(e == orig[k]);
            assert(v@ =~= orig.skip(k + 1));
            v0.to_multiset_ensures();
            assert(v0.remove(0).to_multiset() =~= v0.to_multiset().remove(v0[0]));
            assert(v0.contains(v0[0]));
            assert(v0.to_multiset().count(v0[0]) > 0);
            assert(v0.to_multiset() =~= v@.to_multiset().insert(e));
        }
        insert_scored(&mut out, e);
        proof {
            assert(out@.to_multiset() =~= out0.to_multiset().insert(e));
            assert(out@.to_multiset().add(v@.to_multiset()) =~= orig.to_multiset());
            assert forall|x: u64|
                #[trigger] out@.filter(with_score(x)) == orig.take(out@.len() as int).filter(
                    with_score(x),
                ) by {
                reveal_with_fuel(Seq::<(Accuracy, Image)>::filter, 2);
                assert(orig.take(k + 1).drop_last() =~= orig.take(k));
                assert(orig.take(k + 1).last() == e);
                assert(with_score(x)(e) <==> e.0.num == x);
                assert(out0.filter(with_score(x)) == orig.take(k).filter(with_score(x)));
            }
            let p = choose|p: int| 0 <= p <= out0.len() && out@ == out0.insert(p, e);
            assert forall|i: int| 0 <= i < k + 1 implies out@.contains(#[trigger] orig[i]) by {
                if i == k {
                    assert(out@[p] == orig[i]);
                } else {
                    let w = choose|w: int| 0 <= w < out0.len() && out0[w] == orig[i];
                    if w < p {
                        assert(out@[w] == orig[i]);
                    } else {
                        assert(out@[w + 1] == orig[i]);
                    }
                }
            }
            assert forall|j: int| 0 <= j < out@.len() implies orig.contains(#[trigger] out@[j]) by {
                if j < p {
                    assert(out@[j] == out0[j]);
                } else if j == p {
                    assert(out@[j] == orig[k]);
                } else {
                    assert(out@[j] == out0[j - 1]);
                }
            }
        }
    }
    proof {
        assert(out@.len() == orig.len());
        v@.to_multiset_ensures();
        assert(v@.to_multiset() =~= Multiset::empty());
        assert(out@.to_multiset() =~= orig.to_multiset());
        assert(orig.take(orig.len() as int) =~= orig);
    }
    out
}

/// The sorted top never scores below any value the population holds.
proof fn lemma_sorted_top(s: Seq<(Accuracy, Image)>, x: (Accuracy, Image))
    requires
        sorted_desc(s),
        s.contains(x),
        s.len() > 0,
    ensures
        s[0].0.num >= x.0.num,
{
    let j = choose|j: int| 0 <= j < s.len() && s[j] == x;
    if j > 0 {
        assert(s[0].0.num >= s[j].0.num);
    }
}

/// Mutate a candidate a fixed number of times in sequence.
#[verifier::loop_isolation(false)]
pub(crate) fn mutate_times(img: Image, n: usize, rng: &mut RandomSource) -> (r: Image)
    requires
        dims_valid(img.width as int, img.height as int),
        image_wf(img),
    ensures
        r.width == img.width,
        r.height == img.height,
        image_wf(r),
        r.polygon@.len() >= vstd::math::min(img.polygon@.len() as int, MIN_POLYGONS as int),
{
    let ghost w0 = img.width;
    let ghost h0 = img.height;
    let ghost n0 = img.polygon@.len();
    let mut img = img;
    let mut i: usize = 0;
    while i < n
        invariant
            img.width == w0,
            img.height == h0,
            dims_valid(img.width as int, img.height as int),
            image_wf(img),
            img.polygon@.len() >= vstd::math::min(n0 as int, MIN_POLYGONS as int),
        decreases n - i,
    {
        img = mutate_image(img, rng);
        i = i + 1;
    }
    img
}

/// The cooled temperature: multiplied by the cooling fraction each
/// iteration; a result under the floor resets to `TEMP_RESET_MICRO`.
pub open spec fn spec_temp_update(t: u64, c: u64) -> u64 {
    if (t * c) / (MICRO as int) < TEMP_FLOOR_MICRO {
        TEMP_RESET_MICRO
    } else {
        ((t * c) / (MICRO as int)) as u64
    }
}

/// Cool the temperature one step, resetting at the floor.
pub fn temperature_update(t: u64, c: u64) -> (r: u64)
    requires
        1 <= t <= TEMP_CAP_MICRO,
        1 <= c < MICRO,
    ensures
        r == spec_temp_update(t, c),
        TEMP_FLOOR_MICRO <= r <= TEMP_CAP_MICRO,
{
    proof {
        assert(t * c <= TEMP_CAP_MICRO * MICRO) by (nonlinear_arith)
            requires
                1 <= t <= TEMP_CAP_MICRO,
                1 <= c < MICRO,
        ;
        assert(t * c <= t * (MICRO as int)) by (nonlinear_arith)
            requires
                c < MICRO,
                t >= 1,
        ;
        vstd::arithmetic::div_mod::lemma_div_pos_is_pos(t * c as int, MICRO as int);
        vstd::arithmetic::div_mod::lemma_div_is_ordered(t * c as int, t * (MICRO as int), MICRO as int);
        vstd::arithmetic::div_mod::lemma_div_multiples_vanish(t as int, MICRO as int);
    }
    let t2: u64 = (t * c) / 1000000;
    if t2 < TEMP_FLOOR_MICRO {
        TEMP_RESET_MICRO
    } else {
        t2
    }
}

/// The annealing temperature strictly decreases each iteration until a
/// step would take it below the floor, and then it resets to a moderate
/// value instead of decaying further; it never ends below the floor.
pub proof fn lemma_temperature_decreases(t: u64, c: u64)
    requires
        TEMP_FLOOR_MICRO <= t <= TEMP_CAP_MICRO,
        1 <= c < MICRO,
    ensures
        spec_temp_update(t, c) < t || spec_temp_update(t, c) == TEMP_RESET_MICRO,
        spec_temp_update(t, c) >= TEMP_FLOOR_MICRO,
{
    assert(t * c <= t * (MICRO as int) - t) by (nonlinear_arith)
        requires
            c <= MICRO - 1,
            t >= 1,
    ;
    vstd::arithmetic::div_mod::lemma_div_is_ordered(
        t * c as int,
        t * (MICRO as int) - t,
        MICRO as int,
    );
    vstd::arithmetic::div_mod::lemma_div_pos_is_pos(t * c as int, MICRO as int);
    assert((t * (MICRO as int) - t) / (MICRO as int) < t) by {
        vstd::arithmetic::div_mod::lemma_fundamental_div_mod(t * (MICRO as int) - t, MICRO as int);
        vstd::arithmetic::div_mod::lemma_mod_bound(t * (MICRO as int) - t, MICRO as int);
        assert((t * (MICRO as int) - t) < t * (MICRO as int)) by (nonlinear_arith)
            requires
                t >= 1,
        ;
        let q = (t * (MICRO as int) - t) / (MICRO as int);
        assert(t * (MICRO as int) - t == (MICRO as int) * q + (t * (MICRO as int) - t) % (
        MICRO as int));
        assert(q >= t ==> (MICRO as int) * q >= (MICRO as int) * t) by (nonlinear_arith);
    }
}

/// The acceptance threshold for a worsening move, in micro-units: a
/// rational approximation of `exp(-deficit / (den * temperature))`
/// (`1 / (1 + x + x^2/2)` with the exponent capped), so it is `1` for a
/// zero deficit and shrinks as the deficit grows or the temperature falls.
pub open spec fn spec_accept_threshold(deficit: u64, den: u64, temp: u64) -> int {
    let q0 = (deficit * (MICRO as int) * (MICRO as int)) / (den * temp);
    let q = if q0 > 40000000 {
        40000000
    } else {
        q0
    };
    let denom = (MICRO as int) + q + (q * q) / (2 * (MICRO as int));
    ((MICRO as int) * (MICRO as int)) / denom
}

/// Compute the acceptance threshold for a worsening move.
pub fn accept_threshold_micro(deficit: u64, den: u64, temp: u64) -> (p: u64)
    requires
        den >= 1,
        temp >= 1,
    ensures
        p == spec_accept_threshold(deficit, den, temp),
        p <= MICRO,
        deficit == 0 ==> p == MICRO,
{
    proof {
        assert((deficit as int) * 1000000 * 1000000 <= 0xffffffffffffffff * 1000000 * 1000000)
            by (nonlinear_arith)
            requires
                deficit <= 0xffffffffffffffff,
        ;
        assert(1 <= (den as int) * (temp as int) <= 0xffffffffffffffff * 0xffffffffffffffff)
            by (nonlinear_arith)
            requires
                1 <= den <= 0xffffffffffffffff,
                1 <= temp <= 0xffffffffffffffff,
        ;
    }
    let num: u128 = (deficit as u128) * 1000000 * 1000000;
    let dt: u128 = (den as u128) * (temp as u128);
    let q0: u128 = num / dt;
    let q: u128 = if q0 > 40000000 {
        40000000
    } else {
        q0
    };
    proof {
        vstd::arithmetic::div_mod::lemma_div_pos_is_pos(num as int, dt as int);
        assert(q * q <= 40000000 * 40000000) by (nonlinear_arith)
            requires
                0 <= q <= 40000000,
        ;
    }
    let denom: u128 = 1000000 + q + (q * q) / 2000000;
    proof {
        vstd::arithmetic::div_mod::lemma_div_pos_is_pos((q * q) as int, 2000000);
        vstd::arithmetic::div_mod::lemma_div_is_ordered_by_denominator(
            1000000000000,
            1000000,
            denom as int,
        );
        vstd::arithmetic::div_mod::lemma_div_multiples_vanish(1000000, 1000000);
        if deficit == 0 {
            vstd::arithmetic::div_mod::lemma_div_of0(dt as int);
            assert(num == 0);
            assert(q == 0);
            assert(q * q == 0) by (nonlinear_arith)
                requires
                    q == 0,
            ;
            vstd::arithmetic::div_mod::lemma_div_of0(2000000);
            assert(denom == 1000000);
        }
    }
    (1000000000000u128 / denom) as u64
}

/// The annealing acceptance rule: a strictly improving neighbor is always
/// accepted; a worsening one is accepted exactly when the uniform draw
/// falls below the acceptance threshold.
pub fn sa_accept_decision(
    neighbor_num: u64,
    current_num: u64,
    den: u64,
    temp: u64,
    draw: u64,
) -> (accept: bool)
    requires
        den >= 1,
        temp >= 1,
    ensures
        neighbor_num > current_num ==> accept,
        accept == (neighbor_num > current_num || draw < spec_accept_threshold(
            (current_num - neighbor_num) as u64,
            den,
            temp,
        )),
{
    if neighbor_num > current_num {
        true
    } else {
        let th = accept_threshold_micro(current_num - neighbor_num, den, temp);
        draw < th
    }
}

/// The smaller of two counts.
fn min_usize(a: usize, b: usize) -> (r: usize)
    ensures
        r == vstd::math::min(a as int, b as int),
{
    if a < b {
        a
    } else {
        b
    }
}

/// One recombined colour channel: `base + F * (d1 - d2)`, truncated to an
/// integer and clamped to a byte.
pub open spec fn spec_combine_channel(b: u8, d1: u8, d2: u8, f: u64) -> int {
    let num = b * (MICRO as int) + f * (d1 - d2);
    if num <= 0 {
        0
    } else if num / (MICRO as int) >= 255 {
        255
    } else {
        num / (MICRO as int)
    }
}

/// Recombine one colour channel of the differential-evolution trial.
fn combine_channel(b: u8, d1: u8, d2: u8, f: u64) -> (r: u8)
    ensures
        r == spec_combine_channel(b, d1, d2, f),
{
    proof {
        assert((f as int) * ((d1 as int) - (d2 as int)) <= 0xffffffffffffffff * 255
            && (f as int) * ((d1 as int) - (d2 as int)) >= -(0xffffffffffffffff * 255))
            by (nonlinear_arith)
            requires
                f <= 0xffffffffffffffff,
                -255 <= (d1 as int) - (d2 as int) <= 255,
        ;
    }
    let num: i128 = (b as i128) * 1000000 + (f as i128) * ((d1 as i128) - (d2 as i128));
    if num <= 0 {
        0
    } else {
        proof {
            vstd::arithmetic::div_mod::lemma_div_pos_is_pos(num as int, MICRO as int);
        }
        let q: u128 = (num as u128) / 1000000;
        if q >= 255 {
            255
        } else {
            q as u8
        }
    }
}

/// One recombined coordinate: `base + F * (d1 - d2)`, truncated toward
/// zero and clamped to the canvas box.
pub open spec fn spec_combine_coord(b: i64, c1: i64, c2: i64, f: u64, extent: int) -> int {
    let num = b * (MICRO as int) + f * (c1 - c2);
    let v = if num >= 0 {
        num / (MICRO as int)
    } else {
        -((-num) / (MICRO as int))
    };
    crate::mutations::clamp_coord(v, 0, (extent - 1) * COORD_SCALE)
}

/// Recombine one coordinate of the differential-evolution trial.
fn combine_coord(b: i64, c1: i64, c2: i64, f: u64, extent: usize) -> (r: i64)
    requires
        1 <= extent <= crate::types::MAX_DIM,
        0 <= b <= extent * COORD_SCALE,
        0 <= c1 <= extent * COORD_SCALE,
        0 <= c2 <= extent * COORD_SCALE,
    ensures
        r == spec_combine_coord(b, c1, c2, f, extent as int),
        0 <= r <= (extent - 1) * COORD_SCALE,
{
    proof {
        assert(extent * COORD_SCALE <= 16384 * 256) by (nonlinear_arith)
            requires
                extent <= 16384,
        ;
        assert((f as int) * ((c1 as int) - (c2 as int)) <= 0xffffffffffffffff * 4194304
            && (f as int) * ((c1 as int) - (c2 as int)) >= -(0xffffffffffffffff * 4194304))
            by (nonlinear_arith)
            requires
                f <= 0xffffffffffffffff,
                -4194304 <= (c1 as int) - (c2 as int) <= 4194304,
        ;
        assert((extent - 1) * COORD_SCALE == extent * COORD_SCALE - COORD_SCALE)
            by (nonlinear_arith);
        assert((extent - 1) * COORD_SCALE >= 0) by (nonlinear_arith)
            requires
                extent >= 1,
        ;
    }
    let num: i128 = (b as i128) * 1000000 + (f as i128) * ((c1 as i128) - (c2 as i128));
    let v: i128 = if num >= 0 {
        proof {
            vstd::arithmetic::div_mod::lemma_div_pos_is_pos(num as int, MICRO as int);
        }
        ((num as u128) / 1000000) as i128
    } else {
        proof {
            vstd::arithmetic::div_mod::lemma_div_pos_is_pos(-num as int, MICRO as int);
        }
        let m: i128 = (((-num) as u128) / 1000000) as i128;
        -m
    };
    let hi: i128 = ((extent - 1) as i128) * 256;
    if v < 0 {
        0
    } else if v > hi {
        (extent as i64 - 1) * 256
    } else {
        v as i64
    }
}

/// The shared point prefix three polygons recombine over.
pub open spec fn shared_points(bp: Polygon, p1: Polygon, p2: Polygon) -> int {
    vstd::math::min(
        bp.points@.len() as int,
        vstd::math::min(p1.points@.len() as int, p2.points@.len() as int),
    )
}

/// A recombined polygon slot: every colour channel is `base + F*(d1 - d2)`
/// clamped to a byte; the shared point prefix is recombined coordinate by
/// coordinate and clamped to the canvas; any further points keep the
/// base's.
pub open spec fn combined_polygon_ok(
    tp: Polygon,
    bp: Polygon,
    p1: Polygon,
    p2: Polygon,
    f: u64,
    w: int,
    h: int,
) -> bool {
    &&& tp.colour@.len() == 4
    &&& forall|c: int|
        0 <= c < 4 ==> #[trigger] tp.colour@[c] == spec_combine_channel(
            bp.colour@[c],
            p1.colour@[c],
            p2.colour@[c],
            f,
        )
    &&& tp.points@.len() == bp.points@.len()
    &&& forall|p: int|
        0 <= p < shared_points(bp, p1, p2) ==> #[trigger] tp.points@[p] == (
        spec_combine_coord(bp.points@[p].0, p1.points@[p].0, p2.points@[p].0, f, w) as i64,
        spec_combine_coord(bp.points@[p].1, p1.points@[p].1, p2.points@[p].1, f, h) as i64,
        )
    &&& forall|p: int|
        shared_points(bp, p1, p2) <= p < bp.points@.len() ==> #[trigger] tp.points@[p]
            == bp.points@[p]
}

/// The polygon slot prefix all four candidates share.
pub open spec fn shared_slots(base: Image, d1: Image, d2: Image, tgt: Image) -> int {
    vstd::math::min(
        vstd::math::min(base.polygon@.len() as int, d1.polygon@.len() as int),
        vstd::math::min(d2.polygon@.len() as int, tgt.polygon@.len() as int),
    )
}

/// Build one differential-evolution trial: for each polygon slot shared by
/// all four candidates, either recombine colour and shared coordinates as
/// `base + F * (d1 - d2)` (with probability the crossover rate) or keep
/// the target's polygon; slots past the shared prefix keep the base's.
#[verifier::loop_isolation(false)]
pub fn de_mutate_crossover(
    base: &Image,
    d1: &Image,
    d2: &Image,
    tgt: &Image,
    f: u64,
    cr: u64,
    rng: &mut RandomSource,
) -> (t: Image)
    requires
        image_wf(*base),
        image_wf(*d1),
        image_wf(*d2),
        image_wf(*tgt),
        d1.width == base.width && d1.height == base.height,
        d2.width == base.width && d2.height == base.height,
        tgt.width == base.width && tgt.height == base.height,
    ensures
        image_wf(t),
        t.width == base.width,
        t.height == base.height,
        t.polygon@.len() == base.polygon@.len(),
        forall|i: int|
            shared_slots(*base, *d1, *d2, *tgt) <= i < base.polygon@.len() ==> eq_polygon(
                #[trigger] t.polygon@[i],
                base.polygon@[i],
            ),
        forall|i: int|
            0 <= i < shared_slots(*base, *d1, *d2, *tgt) ==> eq_polygon(
                #[trigger] t.polygon@[i],
                tgt.polygon@[i],
            ) || combined_polygon_ok(
                t.polygon@[i],
                base.polygon@[i],
                d1.polygon@[i],
                d2.polygon@[i],
                f,
                base.width as int,
                base.height as int,
            ),
{
    let w = base.width;
    let h = base.height;
    let mut trial = clone_image(base);
    let min_len = min_usize(
        min_usize(trial.polygon.len(), d1.polygon.len()),
        min_usize(d2.polygon.len(), tgt.polygon.len()),
    );
    proof {
        assert(min_len == shared_slots(*base, *d1, *d2, *tgt));
    }
    let mut i: usize = 0;
    while i < min_len
        invariant
            0 <= i <= min_len,
            min_len == shared_slots(*base, *d1, *d2, *tgt),
            min_len <= trial.polygon@.len(),
            min_len <= d1.polygon@.len(),
            min_len <= d2.polygon@.len(),
            min_len <= tgt.polygon@.len(),
            trial.polygon@.len() == base.polygon@.len(),
            trial.width == w,
            trial.height == h,
            image_wf(trial),
            forall|j: int|
                i <= j < trial.polygon@.len() ==> eq_polygon(
                    #[trigger] trial.polygon@[j],
                    base.polygon@[j],
                ),
            forall|j: int|
                0 <= j < i ==> eq_polygon(#[trigger] trial.polygon@[j], tgt.polygon@[j])
                    || combined_polygon_ok(
                    trial.polygon@[j],
                    base.polygon@[j],
                    d1.polygon@[j],
                    d2.polygon@[j],
                    f,
                    w as int,
                    h as int,
                ),
        decreases min_len - i,
    {
        if rng.next_micro() < cr {
            proof {
                assert(polygon_wf(base.polygon@[i as int], w as int, h as int));
                assert(polygon_wf(d1.polygon@[i as int], w as int, h as int));
                assert(polygon_wf(d2.polygon@[i as int], w as int, h as int));
            }
            let c0 = combine_channel(
                base.polygon[i].colour[0],
                d1.polygon[i].colour[0],
                d2.polygon[i].colour[0],
                f,
            );
            let c1 = combine_channel(
                base.polygon[i].colour[1],
                d1.polygon[i].colour[1],
                d2.polygon[i].colour[1],
                f,
            );
            let c2 = combine_channel(
                base.polygon[i].colour[2],
                d1.polygon[i].colour[2],
                d2.polygon[i].colour[2],
                f,
            );
            let c3 = combine_channel(
                base.polygon[i].colour[3],
                d1.polygon[i].colour[3],
                d2.polygon[i].colour[3],
                f,
            );
            let min_pts = min_usize(
                base.polygon[i].points.len(),
                min_usize(d1.polygon[i].points.len(), d2.polygon[i].points.len()),
            );
            let mut pts: Vec<(i64, i64)> = Vec::new();
            let mut p: usize = 0;
            while p < min_pts
                invariant
                    0 <= p <= min_pts,
                    min_pts <= base.polygon@[i as int].points@.len(),
                    min_pts <= d1.polygon@[i as int].points@.len(),
                    min_pts <= d2.polygon@[i as int].points@.len(),
                    0 <= (i as int) < base.polygon@.len(),
                    0 <= (i as int) < d1.polygon@.len(),
                    0 <= (i as int) < d2.polygon@.len(),
                    pts@.len() == p,
                    forall|m: int|
                        0 <= m < pts@.len() ==> point_in_canvas(
                            #[trigger] pts@[m],
                            w as int,
                            h as int,
                        ),
                    forall|m: int|
                        0 <= m < pts@.len() ==> #[trigger] pts@[m] == (
                        spec_combine_coord(
                            base.polygon@[i as int].points@[m].0,
                            d1.polygon@[i as int].points@[m].0,
                            d2.polygon@[i as int].points@[m].0,
                            f,
                            w as int,
                        ) as i64,
                        spec_combine_coord(
                            base.polygon@[i as int].points@[m].1,
                            d1.polygon@[i as int].points@[m].1,
                            d2.polygon@[i as int].points@[m].1,
                            f,
                            h as int,
                        ) as i64,
                        ),
                decreases min_pts - p,
            {
                proof {
                    assert(point_in_canvas(base.polygon@[i as int].points@[p as int], w as int, h as int));
                    assert(point_in_canvas(d1.polygon@[i as int].points@[p as int], w as int, h as int));
                    assert(point_in_canvas(d2.polygon@[i as int].points@[p as int], w as int, h as int));
                    assert((w - 1) * COORD_SCALE < w * COORD_SCALE && (h - 1) * COORD_SCALE < h
                        * COORD_SCALE) by (nonlinear_arith)
                        requires
                            w >= 1,
                            h >= 1,
                    ;
                }
                let bp = base.polygon[i].points[p];
                let p1 = d1.polygon[i].points[p];
                let p2 = d2.polygon[i].points[p];
                let nx = combine_coord(bp.0, p1.0, p2.0, f, w);
                let ny = combine_coord(bp.1, p1.1, p2.1, f, h);
                pts.push((nx, ny));
                p = p + 1;
            }
            let ghost combined_prefix = pts@;
            let mut p2i: usize = min_pts;
            while p2i < base.polygon[i].points.len()
                invariant
                    min_pts <= p2i <= base.polygon@[i as int].points@.len(),
                    0 <= (i as int) < base.polygon@.len(),
                    pts@.len() == p2i,
                    pts@.take(min_pts as int) == combined_prefix,
                    combined_prefix.len() == min_pts,
                    forall|m: int|
                        min_pts <= m < pts@.len() ==> #[trigger] pts@[m]
                            == base.polygon@[i as int].points@[m],
                    forall|m: int|
                        0 <= m < pts@.len() ==> point_in_canvas(
                            #[trigger] pts@[m],
                            w as int,
                            h as int,
                        ),
                decreases base.polygon@[i as int].points@.len() - p2i,
            {
                proof {
                    assert(point_in_canvas(
                        base.polygon@[i as int].points@[p2i as int],
                        w as int,
                        h as int,
                    ));
                }
                pts.push(base.polygon[i].points[p2i]);
                proof {
                    assert(pts@.take(min_pts as int) =~= combined_prefix);
                }
                p2i = p2i + 1;
            }
            let poly = Polygon { points: pts, colour: [c0, c1, c2, c3] };
            proof {
                assert(min_pts == shared_points(
                    base.polygon@[i as int],
                    d1.polygon@[i as int],
                    d2.polygon@[i as int],
                ));
                assert forall|m: int| 0 <= m < min_pts implies #[trigger] poly.points@[m] == (
                    spec_combine_coord(
                        base.polygon@[i as int].points@[m].0,
                        d1.polygon@[i as int].points@[m].0,
                        d2.polygon@[i as int].points@[m].0,
                        f,
                        w as int,
                    ) as i64,
                    spec_combine_coord(
                        base.polygon@[i as int].points@[m].1,
                        d1.polygon@[i as int].points@[m].1,
                        d2.polygon@[i as int].points@[m].1,
                        f,
                        h as int,
                    ) as i64,
                ) by {
                    assert(poly.points@[m] == combined_prefix[m]);
                }
                assert(combined_polygon_ok(
                    poly,
                    base.polygon@[i as int],
                    d1.polygon@[i as int],
                    d2.polygon@[i as int],
                    f,
                    w as int,
                    h as int,
                ));
            }
            trial.polygon[i] = poly;
        } else {
            let poly = clone_polygon(&tgt.polygon[i]);
            proof {
                assert(polygon_wf(tgt.polygon@[i as int], w as int, h as int));
            }
            trial.polygon[i] = poly;
        }
        proof {
            assert forall|j: int| 0 <= j < trial.polygon@.len() implies polygon_wf(
                #[trigger] trial.polygon@[j],
                w as int,
                h as int,
            ) by {}
        }
        i = i + 1;
    }
    trial
}

/// One elitist-evolution iteration: spawn `cpp` mutated children per
/// parent, score children and parents together, keep the two best, give
/// the worst five extra mutations as a wildcard, and after 500 stale
/// iterations shake the second-best with a twenty-mutation burst. The top
/// parent's score never decreases.
#[verifier::loop_isolation(false)]
pub fn es_step(
    parents: &mut Vec<(Accuracy, Image)>,
    no_improvement: &mut usize,
    metric: Metric,
    target: &Vec<u8>,
    width: usize,
    height: usize,
    cpp: usize,
    rng: &mut RandomSource,
)
    requires
        dims_valid(width as int, height as int),
        target@.len() <= MAX_SCORED_LEN,
        1 <= cpp <= MAX_KNOB,
        old(parents)@.len() == 3,
        pop_ok(old(parents)@, metric, target@, width as int, height as int),
        *old(no_improvement) <= 501,
    ensures
        final(parents)@.len() == 3,
        pop_ok(final(parents)@, metric, target@, width as int, height as int),
        final(parents)@[0].0.num >= old(parents)@[0].0.num,
        *old(no_improvement) < 500 ==> final(parents)@[0].0.num >= final(parents)@[1].0.num,
        *final(no_improvement) <= 501,
{
    let ghost p0 = parents@[0];
    let old_best_num: u64 = parents[0].0.num;
    let mut pool: Vec<(Accuracy, Image)> = Vec::new();
    let mut pi: usize = 0;
    while pi < 3
        invariant
            0 <= pi <= 3,
            *parents == *old(parents),
            pop_ok(pool@, metric, target@, width as int, height as int),
        decreases 3 - pi,
    {
        let mut ci: usize = 0;
        while ci < cpp
            invariant
                0 <= ci <= cpp,
                0 <= pi < 3,
                *parents == *old(parents),
                pop_ok(pool@, metric, target@, width as int, height as int),
            decreases cpp - ci,
        {
            proof {
                assert(scored_ok(parents@[pi as int], metric, target@, width as int, height as int));
            }
            let child0 = clone_image(&parents[pi].1);
            let child = mutate_image(child0, rng);
            let acc = evaluate(metric, target, &child);
            pool.push((acc, child));
            ci = ci + 1;
        }
        pi = pi + 1;
    }
    let pa = parents.remove(0);
    let pb = parents.remove(0);
    let pc = parents.remove(0);
    proof {
        assert(pa == p0);
    }
    let ghost pool_mark = pool@.len() as int;
    pool.push(pa);
    pool.push(pb);
    pool.push(pc);
    proof {
        assert(pool@[pool_mark] == p0);
        assert(pool@.contains(p0));
        assert(pop_ok(pool@, metric, target@, width as int, height as int));
    }
    let mut sorted = sort_scored(pool);
    proof {
        lemma_sorted_top(sorted@, p0);
        assert forall|j: int|
            0 <= j < sorted@.len() implies scored_ok(
            #[trigger] sorted@[j],
            metric,
            target@,
            width as int,
            height as int,
        ) by {}
    }
    let ghost top = sorted@[0];
    let best = sorted.remove(0);
    let second = sorted.remove(0);
    let widx = sorted.len() - 1;
    let worst_pair = sorted.remove(widx);
    let worst_img = mutate_times(worst_pair.1, 5, rng);
    let worst_acc = evaluate(metric, target, &worst_img);
    parents.push(best);
    parents.push(second);
    parents.push((worst_acc, worst_img));
    proof {
        assert(parents@[0] == top);
        assert(parents@[0].0.num >= p0.0.num);
    }
    if parents[0].0.num > old_best_num {
        *no_improvement = 0;
    } else {
        *no_improvement = *no_improvement + 1;
    }
    if *no_improvement > 500 {
        proof {
            assert(scored_ok(parents@[1], metric, target@, width as int, height as int));
        }
        let img0 = clone_image(&parents[1].1);
        let img1 = mutate_times(img0, 20, rng);
        let acc1 = evaluate(metric, target, &img1);
        parents[1] = (acc1, img1);
        *no_improvement = 0;
        proof {
            assert(parents@[0] == top);
        }
    }
}

/// The annealing acceptance predicate over one neighbor score and one
/// uniform draw: improvements always pass; worsenings pass exactly when
/// the draw falls below the acceptance threshold.
pub open spec fn sa_accepts(nacc: Accuracy, ocs: Accuracy, temp: u64, draw: u64) -> bool {
    nacc.num > ocs.num || draw < spec_accept_threshold((ocs.num - nacc.num) as u64, ocs.den, temp)
}

/// How one annealing iteration moves the state, given the neighbor's
/// score and the consumed draw: an accepted neighbor becomes the current
/// candidate and, if it beats the best-ever score, also the best; a
/// rejected one leaves current and best untouched (only the temperature
/// cools).
pub open spec fn sa_step_rel(
    oc: Image,
    ocs: Accuracy,
    ob: Image,
    obs: Accuracy,
    otemp: u64,
    nc: Image,
    ncs: Accuracy,
    nb: Image,
    nbs: Accuracy,
    nacc: Accuracy,
    draw: u64,
) -> bool {
    if sa_accepts(nacc, ocs, otemp, draw) {
        &&& ncs == nacc
        &&& (nacc.num > obs.num ==> nbs == nacc && eq_image(nb, nc))
        &&& (nacc.num <= obs.num ==> nbs == obs && eq_image(nb, ob))
    } else {
        &&& eq_image(nc, oc)
        &&& ncs == ocs
        &&& eq_image(nb, ob)
        &&& nbs == obs
    }
}

/// One simulated-annealing iteration: mutate the current candidate once;
/// accept an improvement always, a worsening with the threshold
/// probability; track the best-ever candidate; cool the temperature,
/// resetting at the floor. The best-ever score never decreases.
pub fn sa_step(
    current: &mut Image,
    current_score: &mut Accuracy,
    best: &mut Image,
    best_score: &mut Accuracy,
    temperature: &mut u64,
    metric: Metric,
    target: &Vec<u8>,
    width: usize,
    height: usize,
    cooling: u64,
    rng: &mut RandomSource,
)
    requires
        dims_valid(width as int, height as int),
        target@.len() <= MAX_SCORED_LEN,
        1 <= cooling < MICRO,
        scored_ok(
            (*old(current_score), *old(current)),
            metric,
            target@,
            width as int,
            height as int,
        ),
        scored_ok((*old(best_score), *old(best)), metric, target@, width as int, height as int),
        old(best_score).num >= old(current_score).num,
        1 <= *old(temperature) <= TEMP_CAP_MICRO,
    ensures
        scored_ok(
            (*final(current_score), *final(current)),
            metric,
            target@,
            width as int,
            height as int,
        ),
        scored_ok(
            (*final(best_score), *final(best)),
            metric,
            target@,
            width as int,
            height as int,
        ),
        final(best_score).num >= old(best_score).num,
        final(best_score).num >= final(current_score).num,
        exists|nacc: Accuracy, draw: u64|
            #[trigger] sa_step_rel(
                *old(current),
                *old(current_score),
                *old(best),
                *old(best_score),
                *old(temperature),
                *final(current),
                *final(current_score),
                *final(best),
                *final(best_score),
                nacc,
                draw,
            ),
        1 <= *final(temperature) <= TEMP_CAP_MICRO,
        *final(temperature) == spec_temp_update(*old(temperature), cooling),
{
    let ghost otemp = *temperature;
    let neighbor0 = clone_image(current);
    let neighbor = mutate_image(neighbor0, rng);
    let nacc = evaluate(metric, target, &neighbor);
    let ghost mut draw_w: u64 = 0;
    let accept = if nacc.num > current_score.num {
        true
    } else {
        let draw = rng.next_micro();
        proof {
            draw_w = draw;
        }
        sa_accept_decision(nacc.num, current_score.num, current_score.den, *temperature, draw)
    };
    proof {
        assert(accept == sa_accepts(nacc, *old(current_score), otemp, draw_w));
    }
    if accept {
        if nacc.num > best_score.num {
            let nb = clone_image(&neighbor);
            proof {
                crate::renderer::lemma_render_deterministic(nb, neighbor);
            }
            *best = nb;
            *best_score = nacc;
        }
        *current = neighbor;
        *current_score = nacc;
    }
    *temperature = temperature_update(*temperature, cooling);
    proof {
        assert(eq_image(*best, *best));
        assert(eq_image(*current, *current));
        assert(sa_step_rel(
            *old(current),
            *old(current_score),
            *old(best),
            *old(best_score),
            otemp,
            *current,
            *current_score,
            *best,
            *best_score,
            nacc,
            draw_w,
        ));
    }
}

/// The population `new_pop` is a stable descending re-sort of an
/// intermediate generation `mid` in which selection was monotonic per
/// index: no member of `old_pop` was replaced by a worse-scoring trial,
/// the sort keeps exactly the generation's pairs, and pairs of equal
/// score keep their order.
pub open spec fn de_generation_rel(
    old_pop: Seq<(Accuracy, Image)>,
    mid: Seq<(Accuracy, Image)>,
    new_pop: Seq<(Accuracy, Image)>,
) -> bool {
    &&& mid.len() == old_pop.len()
    &&& forall|i: int| 0 <= i < mid.len() ==> (#[trigger] mid[i]).0.num >= old_pop[i].0.num
    &&& new_pop.to_multiset() == mid.to_multiset()
    &&& forall|x: u64| #[trigger] new_pop.filter(with_score(x)) == mid.filter(with_score(x))
    &&& forall|i: int| 0 <= i < mid.len() ==> new_pop.contains(#[trigger] mid[i])
    &&& forall|i: int| 0 <= i < new_pop.len() ==> mid.contains(#[trigger] new_pop[i])
}

/// One differential-evolution generation: for every index, build a trial
/// from three distinct other members, keep the better of trial and
/// original, then re-sort descending. The population size is invariant,
/// no member's score decreases before the sort, and the top score never
/// decreases.
#[verifier::loop_isolation(false)]
pub fn de_step(
    population: &mut Vec<(Accuracy, Image)>,
    metric: Metric,
    target: &Vec<u8>,
    width: usize,
    height: usize,
    f: u64,
    cr: u64,
    rng: &mut RandomSource,
)
    requires
        dims_valid(width as int, height as int),
        target@.len() <= MAX_SCORED_LEN,
        4 <= old(population)@.len() <= MAX_KNOB,
        pop_ok(old(population)@, metric, target@, width as int, height as int),
        sorted_desc(old(population)@),
    ensures
        final(population)@.len() == old(population)@.len(),
        pop_ok(final(population)@, metric, target@, width as int, height as int),
        sorted_desc(final(population)@),
        final(population)@[0].0.num >= old(population)@[0].0.num,
        exists|mid: Seq<(Accuracy, Image)>|
            #[trigger] de_generation_rel(old(population)@, mid, final(population)@),
{
    let n = population.len();
    let mut newpop: Vec<(Accuracy, Image)> = Vec::new();
    let mut i: usize = 0;
    while i < n
        invariant
            0 <= i <= n,
            *population == *old(population),
            n == population@.len(),
            newpop@.len() == i,
            pop_ok(newpop@, metric, target@, width as int, height as int),
            forall|j: int| 0 <= j < i ==> #[trigger] newpop@[j].0.num >= population@[j].0.num,
        decreases n - i,
    {
        let mut indices: Vec<usize> = Vec::new();
        let mut j: usize = 0;
        while j < n
            invariant
                0 <= j <= n,
                0 <= i < n,
                indices@.len() == (if j <= i {
                    j as int
                } else {
                    j as int - 1
                }),
                forall|m: int| 0 <= m < indices@.len() ==> (#[trigger] indices@[m]) < n,
            decreases n - j,
        {
            if j != i {
                indices.push(j);
            }
            j = j + 1;
        }
        let mut jj: usize = indices.len() - 1;
        while jj >= 1
            invariant
                0 <= jj < indices@.len(),
                indices@.len() == n - 1,
                forall|m: int| 0 <= m < indices@.len() ==> (#[trigger] indices@[m]) < n,
            decreases jj,
        {
            let k = rng.next_index(jj + 1);
            let a = indices[jj];
            let b = indices[k];
            indices[jj] = b;
            indices[k] = a;
            jj = jj - 1;
        }
        let a = indices[0];
        let b = indices[1];
        let c = indices[2];
        proof {
            assert(scored_ok(population@[a as int], metric, target@, width as int, height as int));
            assert(scored_ok(population@[b as int], metric, target@, width as int, height as int));
            assert(scored_ok(population@[c as int], metric, target@, width as int, height as int));
            assert(scored_ok(population@[i as int], metric, target@, width as int, height as int));
        }
        let trial = de_mutate_crossover(
            &population[a].1,
            &population[b].1,
            &population[c].1,
            &population[i].1,
            f,
            cr,
            rng,
        );
        let tacc = evaluate(metric, target, &trial);
        let keep_trial = tacc.num > population[i].0.num;
        if keep_trial {
            newpop.push((tacc, trial));
        } else {
            let img = clone_image(&population[i].1);
            proof {
                crate::renderer::lemma_render_deterministic(img, population@[i as int].1);
            }
            let acc_i = population[i].0;
            newpop.push((acc_i, img));
        }
        i = i + 1;
    }
    let ghost mid = newpop@;
    let ghost old_pop = population@;
    let sortedpop = sort_scored(newpop);
    proof {
        assert(sortedpop@.contains(mid[0]));
        lemma_sorted_top(sortedpop@, mid[0]);
    }
    *population = sortedpop;
    proof {
        assert(population@[0].0.num >= mid[0].0.num);
        assert(mid[0].0.num >= old_pop[0].0.num);
        assert(de_generation_rel(old_pop, mid, population@));
    }
}

impl AlgorithmState {
    /// Build an engine: validate the canvas, generate and score the
    /// initial population of the chosen strategy, and start unfinished at
    /// iteration zero.
    #[verifier::loop_isolation(false)]
    pub fn new(
        target_pixels: Vec<u8>,
        width: usize,
        height: usize,
        config: AlgorithmConfig,
        rng: RandomSource,
    ) -> (s: AlgorithmState)
        requires
            dims_valid(width as int, height as int),
            target_pixels@.len() <= MAX_SCORED_LEN,
            config_wf(config),
        ensures
            state_wf(s),
            initialized_ok(s),
            s.iteration == 0,
            s.finished == false,
            s.width == width,
            s.height == height,
            s.config == config,
            s.target_pixels@ == target_pixels@,
    {
        let mut rng = rng;
        let strategy: StrategyState = match config.algorithm_type {
            AlgorithmType::EvolutionStrategy => {
                let mut parents: Vec<(Accuracy, Image)> = Vec::new();
                let mut i: usize = 0;
                while i < 3
                    invariant
                        0 <= i <= 3,
                        parents@.len() == i,
                        pop_ok(parents@, config.metric, target_pixels@, width as int, height as int),
                    decreases 3 - i,
                {
                    let img = generate_initial_image(&mut rng, width, height);
                    let acc = evaluate(config.metric, &target_pixels, &img);
                    parents.push((acc, img));
                    i = i + 1;
                }
                let parents = sort_scored(parents);
                proof {
                    assert forall|j: int|
                        0 <= j < parents@.len() implies scored_ok(
                        #[trigger] parents@[j],
                        config.metric,
                        target_pixels@,
                        width as int,
                        height as int,
                    ) by {}
                }
                StrategyState::Es { parents, no_improvement: 0 }
            },
            AlgorithmType::SimulatedAnnealing => {
                let img = generate_initial_image(&mut rng, width, height);
                let acc = evaluate(config.metric, &target_pixels, &img);
                let best = clone_image(&img);
                proof {
                    crate::renderer::lemma_render_deterministic(best, img);
                }
                StrategyState::Sa {
                    current: img,
                    current_score: acc,
                    best,
                    best_score: acc,
                    temperature: config.initial_temp_micro,
                }
            },
            AlgorithmType::DifferentialEvolution => {
                let mut population: Vec<(Accuracy, Image)> = Vec::new();
                let mut i: usize = 0;
                while i < config.population_size
                    invariant
                        0 <= i <= config.population_size,
                        population@.len() == i,
                        pop_ok(
                            population@,
                            config.metric,
                            target_pixels@,
                            width as int,
                            height as int,
                        ),
                    decreases config.population_size - i,
                {
                    let img = generate_initial_image(&mut rng, width, height);
                    let acc = evaluate(config.metric, &target_pixels, &img);
                    population.push((acc, img));
                    i = i + 1;
                }
                let population = sort_scored(population);
                proof {
                    assert forall|j: int|
                        0 <= j < population@.len() implies scored_ok(
                        #[trigger] population@[j],
                        config.metric,
                        target_pixels@,
                        width as int,
                        height as int,
                    ) by {}
                }
                StrategyState::De { population }
            },
        };
        AlgorithmState {
            config,
            target_pixels,
            width,
            height,
            iteration: 0,
            finished: false,
            strategy,
            rng,
        }
    }

    /// Render the engine's current best candidate.
    fn render_best(&self) -> (r: PixelBuffer)
        requires
            state_wf(*self),
        ensures
            pixel_buffer_wf(r),
            r.width == self.width,
            r.height == self.height,
            r.data@ == spec_render(spec_best_image(*self)),
    {
        match &self.strategy {
            StrategyState::Es { parents, .. } => render_image(&parents[0].1),
            StrategyState::Sa { best, .. } => render_image(best),
            StrategyState::De { population } => render_image(&population[0].1),
        }
    }

    /// The engine's current best accuracy.
    pub fn get_accuracy(&self) -> (acc: Accuracy)
        requires
            state_wf(*self),
        ensures
            acc == spec_best_accuracy(*self),
            accuracy_wf(acc),
    {
        match &self.strategy {
            StrategyState::Es { parents, .. } => parents[0].0,
            StrategyState::Sa { best_score, .. } => *best_score,
            StrategyState::De { population } => population[0].0,
        }
    }

    /// Has the best accuracy reached the configured target fraction?
    fn target_reached(&self) -> (r: bool)
        requires
            state_wf(*self),
        ensures
            r == spec_target_reached(*self),
    {
        let acc = self.get_accuracy();
        proof {
            assert(acc.num * MICRO <= 0xffffffffffffffff * 1000000) by (nonlinear_arith)
                requires
                    acc.num <= 0xffffffffffffffff,
            ;
            assert(self.config.target_accuracy_micro * acc.den <= 1000000 * 0xffffffffffffffff)
                by (nonlinear_arith)
                requires
                    self.config.target_accuracy_micro <= 1000000,
                    acc.den <= 0xffffffffffffffff,
            ;
        }
        (acc.num as u128) * 1000000 >= (self.config.target_accuracy_micro as u128) * (
        acc.den as u128)
    }

    /// The number of completed iterations.
    pub fn get_iteration(&self) -> (r: usize)
        ensures
            r == self.iteration,
    {
        self.iteration
    }

    /// Whether the run has terminated and frozen.
    pub fn is_finished(&self) -> (r: bool)
        ensures
            r == self.finished,
    {
        self.finished
    }

    /// The run's canvas dimensions.
    pub fn get_dimensions(&self) -> (r: (usize, usize))
        ensures
            r.0 == self.width,
            r.1 == self.height,
    {
        (self.width, self.height)
    }

    /// Advance by up to `batch_size` iterations, stopping early on
    /// termination, and report whether the run is finished together with
    /// the current best rendering. A finished engine is frozen: stepping
    /// it changes nothing. A zero batch performs zero iterations. The
    /// best accuracy never decreases across a batch.
    #[verifier::loop_isolation(false)]
    pub fn step_batch(&mut self, batch_size: usize) -> (r: (bool, PixelBuffer))
        requires
            state_wf(*old(self)),
        ensures
            state_wf(*final(self)),
            final(self).config == old(self).config,
            final(self).width == old(self).width,
            final(self).height == old(self).height,
            final(self).target_pixels@ == old(self).target_pixels@,
            r.0 == final(self).finished,
            old(self).finished ==> *final(self) == *old(self),
            batch_size == 0 && !old(self).finished ==> *final(self) == *old(self) && r.0 == false,
            old(self).iteration <= final(self).iteration <= old(self).iteration + batch_size,
            !old(self).finished && batch_size > 0 && old(self).config.max_iterations == 0
                ==> r.0 == true && final(self).iteration == old(self).iteration,
            final(self).finished ==> old(self).finished
                || final(self).iteration >= final(self).config.max_iterations
                || spec_target_reached(*final(self)),
            !final(self).finished ==> final(self).iteration == old(self).iteration + batch_size,
            spec_best_accuracy(*final(self)).num >= spec_best_accuracy(*old(self)).num,
            pixel_buffer_wf(r.1),
            r.1.width == old(self).width,
            r.1.height == old(self).height,
            r.1.data@ == spec_render(spec_best_image(*final(self))),
    {
        if self.finished {
            let buf = self.render_best();
            return (true, buf);
        }
        let mut done: usize = 0;
        while done < batch_size && !self.finished
            invariant
                state_wf(*self),
                0 <= done <= batch_size,
                self.config == old(self).config,
                self.width == old(self).width,
                self.height == old(self).height,
                self.target_pixels@ == old(self).target_pixels@,
                self.iteration == old(self).iteration + done,
                spec_best_accuracy(*self).num >= spec_best_accuracy(*old(self)).num,
                self.finished ==> self.iteration >= self.config.max_iterations
                    || spec_target_reached(*self),
                batch_size == 0 ==> *self == *old(self),
                self.config.max_iterations == 0 ==> done == 0 && self.iteration == old(
                    self,
                ).iteration,
                done == 0 && !self.finished ==> *self == *old(self),
            decreases batch_size - done,
        {
            let reached = self.target_reached();
            if self.iteration >= self.config.max_iterations || reached {
                self.finished = true;
                break ;
            } else {
                let metric = self.config.metric;
                match self.config.algorithm_type {
                    AlgorithmType::EvolutionStrategy => {
                        let cpp = self.config.es_children_per_parent;
                        match &mut self.strategy {
                            StrategyState::Es { parents, no_improvement } => {
                                es_step(
                                    parents,
                                    no_improvement,
                                    metric,
                                    &self.target_pixels,
                                    self.width,
                                    self.height,
                                    cpp,
                                    &mut self.rng,
                                );
                            },
                            _ => {
                                proof {
                                    assert(false);
                                }
                            },
                        }
                    },
                    AlgorithmType::SimulatedAnnealing => {
                        let cooling = self.config.cooling_rate_micro;
                        match &mut self.strategy {
                            StrategyState::Sa {
                                current,
                                current_score,
                                best,
                                best_score,
                                temperature,
                            } => {
                                sa_step(
                                    current,
                                    current_score,
                                    best,
                                    best_score,
                                    temperature,
                                    metric,
                                    &self.target_pixels,
                                    self.width,
                                    self.height,
                                    cooling,
                                    &mut self.rng,
                                );
                            },
                            _ => {
                                proof {
                                    assert(false);
                                }
                            },
                        }
                    },
                    AlgorithmType::DifferentialEvolution => {
                        let f = self.config.mutation_factor_micro;
                        let cr = self.config.crossover_rate_micro;
                        match &mut self.strategy {
                            StrategyState::De { population } => {
                                de_step(
                                    population,
                                    metric,
                                    &self.target_pixels,
                                    self.width,
                                    self.height,
                                    f,
                                    cr,
                                    &mut self.rng,
                                );
                            },
                            _ => {
                                proof {
                                    assert(false);
                                }
                            },
                        }
                    },
                }
                self.iteration = self.iteration + 1;
                done = done + 1;
            }
        }
        let buf = self.render_best();
        (self.finished, buf)
    }
}

} // verus!
