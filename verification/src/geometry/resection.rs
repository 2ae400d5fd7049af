//! Resection: solving where a camera is from points whose world position is
//! already known.
//!
//! Six well-spread correspondences determine a projection. What is decided here
//! is which correspondences a hypothesis is drawn from, which hypothesis wins,
//! and what is believed of it; the linear algebra is the application's.

use vstd::arithmetic::div_mod::{
    lemma_add_mod_noop, lemma_mod_bound, lemma_mul_mod_noop_left, lemma_mul_mod_noop_right,
};
use vstd::prelude::*;

use crate::list::{holds, increasing, lemma_grown};
use crate::order::{
    comes_first, every_list_has_an_order, order_of, places, scalar_keys, scalar_order,
};
use crate::scalar::Scalar;

verus! {

/// Correspondences needed for one linear solve.
pub const SAMPLE: usize = 6;

/// How often one sample is tried for before the hypothesis is given up.
pub const TRIES: usize = 48;

/// 0.01
const INLIER_THRESHOLD: u64 = 0x3f84_7ae1_47ae_147b;

/// 0.6
const CENTRAL_FRACTION: u64 = 0x3fe3_3333_3333_3333;

/// 0.25
const MAX_ASPECT_ERROR: u64 = 0x3fd0_0000_0000_0000;

/// 0.3
const MAX_PRINCIPAL_OFFSET: u64 = 0x3fd3_3333_3333_3333;

/// 0.05
pub const WELL_SPREAD: u64 = 0x3fa9_9999_9999_999a;

/// How the search is run.
#[derive(Debug, Clone, Copy, PartialEq, Eq, Structural)]
pub struct ResectionOptions {
    /// Random hypotheses to try before settling on the best one.
    pub hypotheses: usize,
    /// Angular error below which a correspondence counts as an inlier, in
    /// radians.
    pub inlier_threshold: Scalar,
    /// Inliers a solve must reach to be accepted at all.
    pub min_inliers: usize,
    /// Fraction of the correspondences, nearest the image centre, that
    /// hypotheses are drawn from when the camera has a distorted lens.
    pub central_fraction: Scalar,
    /// Largest departure from square pixels a solve may show before it is
    /// discarded as nonsense.
    pub max_aspect_error: Scalar,
    /// How far from the frame centre the principal point may land, as a
    /// fraction of the image size.
    pub max_principal_offset: Scalar,
    /// Seed for the hypothesis sampler, so a calibration run is reproducible.
    pub seed: u64,
}

impl Default for ResectionOptions {
    fn default() -> (options: Self)
        ensures
            options.hypotheses == 512,
            options.inlier_threshold.bits == 0x3f84_7ae1_47ae_147b,
            options.min_inliers == 12,
            options.central_fraction.bits == 0x3fe3_3333_3333_3333,
            options.max_aspect_error.bits == 0x3fd0_0000_0000_0000,
            options.max_principal_offset.bits == 0x3fd3_3333_3333_3333,
            options.seed == 0x00ff_1ce5,
    {
        ResectionOptions {
            hypotheses: 512,
            inlier_threshold: Scalar::from_bits(INLIER_THRESHOLD),
            min_inliers: 12,
            central_fraction: Scalar::from_bits(CENTRAL_FRACTION),
            max_aspect_error: Scalar::from_bits(MAX_ASPECT_ERROR),
            max_principal_offset: Scalar::from_bits(MAX_PRINCIPAL_OFFSET),
            seed: 0x00ff_1ce5,
        }
    }
}

/// A small deterministic generator, so a calibration run gives the same answer
/// twice. SplitMix64.
#[derive(Debug, Clone, Copy, PartialEq, Eq, Structural)]
pub struct Rng {
    pub state: u64,
}

/// A product cut down to 64 bits.
pub open spec fn wrapped_product(a: u64, b: u64) -> u64 {
    ((a as nat * b as nat) % 0x1_0000_0000_0000_0000) as u64
}

/// The state after one more draw.
pub open spec fn stepped(state: u64) -> u64 {
    ((state + 0x9e37_79b9_7f4a_7c15) % 0x1_0000_0000_0000_0000) as u64
}

/// What a state is drawn as.
pub open spec fn mixed(state: u64) -> u64 {
    let a = wrapped_product(state ^ (state >> 30), 0xbf58_476d_1ce4_e5b9);
    let b = wrapped_product(a ^ (a >> 27), 0x94d0_49bb_1331_11eb);
    b ^ (b >> 31)
}

impl Rng {
    /// A generator that starts from a seed.
    pub fn new(seed: u64) -> (rng: Self)
        ensures
            rng.state == seed,
    {
        Rng { state: seed }
    }

    /// The next number.
    pub fn next(&mut self) -> (number: u64)
        ensures
            final(self).state == stepped(old(self).state),
            number == mixed(final(self).state),
    {
        self.state = self.state.wrapping_add(0x9e37_79b9_7f4a_7c15);
        let state: u64 = self.state;
        let a: u64 = (state ^ (state >> 30)).wrapping_mul(0xbf58_476d_1ce4_e5b9);
        let b: u64 = (a ^ (a >> 27)).wrapping_mul(0x94d0_49bb_1331_11eb);
        b ^ (b >> 31)
    }

    /// The next number below a bound.
    pub fn below(&mut self, bound: usize) -> (number: usize)
        requires
            bound > 0,
        ensures
            final(self).state == stepped(old(self).state),
            number == mixed(final(self).state) as int % bound as int,
            number < bound,
    {
        let number: u64 = self.next();
        (number % bound as u64) as usize
    }
}

/// The generator's state and the indices drawn after some tries.
pub struct Draw {
    pub state: u64,
    pub drawn: Seq<usize>,
}

/// One more try: nothing once there are enough, else one index of the pool,
/// which counts if it is not drawn yet.
pub open spec fn tried(draw: Draw, pool: Seq<usize>) -> Draw {
    if draw.drawn.len() == SAMPLE {
        draw
    } else {
        let state = stepped(draw.state);
        let candidate = pool[mixed(state) as int % pool.len() as int];
        Draw {
            state,
            drawn: if draw.drawn.contains(candidate) {
                draw.drawn
            } else {
                draw.drawn.push(candidate)
            },
        }
    }
}

/// Where a number of tries leads.
pub open spec fn drawn_after(state: u64, pool: Seq<usize>, tries: nat) -> Draw
    decreases tries,
{
    if tries == 0 {
        Draw { state, drawn: Seq::empty() }
    } else {
        tried(drawn_after(state, pool, (tries - 1) as nat), pool)
    }
}

/// Draws distinct indices for one hypothesis, and says whether there are enough.
pub fn draw(rng: &mut Rng, pool: &Vec<usize>, out: &mut Vec<usize>) -> (enough: bool)
    requires
        pool@.len() > 0,
    ensures
        ({
            let after = drawn_after(old(rng).state, pool@, TRIES as nat);
            &&& final(rng).state == after.state
            &&& final(out)@ == after.drawn
            &&& enough == (after.drawn.len() == SAMPLE)
        }),
{
    out.clear();
    let ghost start = rng.state;
    let mut i: usize = 0;
    while i < TRIES
        invariant
            i <= TRIES,
            pool@.len() > 0,
            out@.len() <= i,
            (Draw { state: rng.state, drawn: out@ }) == drawn_after(start, pool@, i as nat),
        decreases TRIES - i,
    {
        if out.len() != SAMPLE {
            let candidate: usize = pool[rng.below(pool.len())];
            if !holds(out, candidate) {
                out.push(candidate);
            }
        }
        i = i + 1;
    }
    out.len() == SAMPLE
}

/// What is drawn is distinct, comes from the pool, and is never too much.
pub proof fn a_sample_is_distinct_and_from_the_pool(state: u64, pool: Seq<usize>, tries: nat)
    requires
        pool.len() > 0,
    ensures
        drawn_after(state, pool, tries).drawn.no_duplicates(),
        drawn_after(state, pool, tries).drawn.len() <= SAMPLE,
        forall|i: int|
            0 <= i < drawn_after(state, pool, tries).drawn.len() ==> pool.contains(
                #[trigger] drawn_after(state, pool, tries).drawn[i],
            ),
    decreases tries,
{
    if tries > 0 {
        a_sample_is_distinct_and_from_the_pool(state, pool, (tries - 1) as nat);
        let before = drawn_after(state, pool, (tries - 1) as nat);
        let after = drawn_after(state, pool, tries);
        if before.drawn.len() != SAMPLE {
            let next = stepped(before.state);
            let at = mixed(next) as int % pool.len() as int;
            assert(0 <= at < pool.len());
            assert(pool.contains(pool[at]));
            assert forall|i: int| 0 <= i < after.drawn.len() implies pool.contains(
                #[trigger] after.drawn[i],
            ) by {
                if i < before.drawn.len() {
                    assert(after.drawn[i] == before.drawn[i]);
                }
            }
            assert forall|a: int, b: int|
                0 <= a < after.drawn.len() && 0 <= b < after.drawn.len() && a
                    != b implies after.drawn[a] != after.drawn[b] by {
                if a < before.drawn.len() && b < before.drawn.len() {
                    assert(before.drawn[a] != before.drawn[b]);
                }
            }
        }
    }
}

/// The larger of two counts.
pub open spec fn most(a: int, b: int) -> int {
    if a >= b {
        a
    } else {
        b
    }
}

/// The fewest correspondences a solve can be tried with.
pub open spec fn fewest(options: ResectionOptions) -> int {
    most(SAMPLE as int, options.min_inliers as int)
}

/// How many correspondences a distorted lens keeps in the pool, where `share`
/// is the configured fraction of them, rounded.
pub open spec fn pool_size(points: int, share: int, options: ResectionOptions) -> int {
    let wanted = most(share, fewest(options));
    if wanted <= points {
        wanted
    } else {
        points
    }
}

/// Which correspondences hypotheses may be drawn from: all of them where the
/// lens is straight, else the given share of them that lies nearest the image
/// centre. Distortion is smallest there, so a seed taken from there is least
/// damaged by the linear solve ignoring it.
pub fn hypothesis_pool(
    radii: &Vec<Scalar>,
    straight: bool,
    share: usize,
    options: &ResectionOptions,
) -> (pool: Vec<usize>)
    ensures
        places(pool@) == if straight {
            Seq::new(radii@.len(), |i: int| i)
        } else {
            order_of(scalar_keys(radii@)).take(
                pool_size(radii@.len() as int, share as int, *options),
            )
        },
{
    if straight {
        let mut all: Vec<usize> = Vec::new();
        let mut i: usize = 0;
        while i < radii.len()
            invariant
                i <= radii.len(),
                all@.len() == i,
                forall|k: int| 0 <= k < i ==> #[trigger] all@[k] == k,
            decreases radii.len() - i,
        {
            all.push(i);
            i = i + 1;
        }
        assert(places(all@) =~= Seq::new(radii@.len(), |i: int| i));
        return all;
    }
    let mut sorted = scalar_order(radii);
    let fewest: usize = if SAMPLE >= options.min_inliers {
        SAMPLE
    } else {
        options.min_inliers
    };
    let wanted: usize = if share >= fewest {
        share
    } else {
        fewest
    };
    let keep: usize = if wanted <= radii.len() {
        wanted
    } else {
        radii.len()
    };
    let ghost before = sorted@;
    proof {
        assert(places(before).len() == before.len());
    }
    sorted.truncate(keep);
    proof {
        assert(places(sorted@) =~= places(before).take(keep as int));
    }
    sorted
}

/// The correspondences among the first `n` that a camera explains to within a
/// threshold.
pub open spec fn agreeing(residuals: Seq<Option<Scalar>>, threshold: Scalar, n: nat) -> Seq<int>
    decreases n,
{
    if n == 0 {
        Seq::empty()
    } else {
        let before = agreeing(residuals, threshold, (n - 1) as nat);
        match residuals[n - 1] {
            Some(residual) => if residual.at_most(threshold) {
                before.push(n - 1)
            } else {
                before
            },
            None => before,
        }
    }
}

/// The correspondences a candidate explains. One that cannot be judged does not
/// count.
pub fn score(residuals: &Vec<Option<Scalar>>, threshold: Scalar) -> (inliers: Vec<usize>)
    ensures
        places(inliers@) == agreeing(residuals@, threshold, residuals@.len()),
{
    let mut inliers: Vec<usize> = Vec::new();
    let mut i: usize = 0;
    proof {
        assert(places(inliers@) =~= Seq::empty());
    }
    while i < residuals.len()
        invariant
            i <= residuals.len(),
            places(inliers@) == agreeing(residuals@, threshold, i as nat),
        decreases residuals.len() - i,
    {
        let ghost before = inliers@;
        if let Some(residual) = residuals[i] {
            if residual.le(threshold) {
                inliers.push(i);
                assert(places(inliers@) =~= places(before).push(i as int));
            }
        }
        i = i + 1;
    }
    inliers
}

/// The hypothesis most correspondences agree with.
#[derive(Debug, Clone)]
pub struct Consensus {
    pub best: Option<Agreement>,
}

/// The correspondences that agree with a hypothesis, and their total error.
#[derive(Debug, Clone)]
pub struct Agreement {
    pub inliers: Vec<usize>,
    pub error: Scalar,
}

/// How good a hypothesis is: how many agree, and with what error.
pub struct Merit {
    pub count: nat,
    pub error: Scalar,
}

/// Whether a hypothesis beats the best so far: more agree with it, or as many
/// with less error.
pub open spec fn beats(merit: Merit, best: Option<Merit>) -> bool {
    match best {
        None => true,
        Some(best) => merit.count > best.count || (merit.count == best.count && merit.error.less(
            best.error,
        )),
    }
}

impl Consensus {
    /// How good the best hypothesis is.
    pub open spec fn merit(self) -> Option<Merit> {
        match self.best {
            Some(best) => Some(Merit { count: best.inliers@.len(), error: best.error }),
            None => None,
        }
    }

    /// No hypothesis yet.
    pub fn new() -> (consensus: Self)
        ensures
            consensus.best is None,
    {
        Consensus { best: None }
    }

    /// Puts a hypothesis up, and says whether it is the best now. One that too
    /// few agree with is not considered.
    pub fn offer(&mut self, inliers: Vec<usize>, error: Scalar, min_inliers: usize) -> (taken: bool)
        ensures
            ({
                let merit = Merit { count: inliers@.len(), error };
                &&& taken == (inliers@.len() >= min_inliers && beats(merit, old(self).merit()))
                &&& taken ==> final(self).best == Some(Agreement { inliers, error })
                &&& !taken ==> *final(self) == *old(self)
            }),
    {
        if inliers.len() < min_inliers {
            return false;
        }
        let better: bool = match &self.best {
            None => true,
            Some(best) => inliers.len() > best.inliers.len() || (inliers.len()
                == best.inliers.len() && error.lt(best.error)),
        };
        if better {
            self.best = Some(Agreement { inliers, error });
        }
        better
    }
}

/// The best of the first `n` hypotheses that enough agree with.
pub open spec fn best_of(offers: Seq<Merit>, min_inliers: nat, n: nat) -> Option<Merit>
    decreases n,
{
    if n == 0 {
        None
    } else {
        let before = best_of(offers, min_inliers, (n - 1) as nat);
        if offers[n - 1].count >= min_inliers && beats(offers[n - 1], before) {
            Some(offers[n - 1])
        } else {
            before
        }
    }
}

/// No hypothesis has more agreement than the one that wins, and none with as
/// much has less error.
pub proof fn the_winner_is_agreed_with_most(
    offers: Seq<Merit>,
    min_inliers: nat,
    n: nat,
    i: int,
)
    requires
        0 <= i < n <= offers.len(),
        offers[i].count >= min_inliers,
    ensures
        ({
            let best = best_of(offers, min_inliers, n);
            &&& best is Some
            &&& best->0.count >= offers[i].count
            &&& best->0.count == offers[i].count ==> !offers[i].error.less(best->0.error)
        }),
    decreases n,
{
    if i < n - 1 {
        the_winner_is_agreed_with_most(offers, min_inliers, (n - 1) as nat, i);
    }
}

/// A search for the camera most correspondences agree with.
#[derive(Debug, Clone)]
pub struct Search {
    pub rng: Rng,
    /// Hypotheses tried so far.
    pub tried: usize,
    pub consensus: Consensus,
    /// Whether every correspondence already agrees, so that more hypotheses
    /// cannot improve on that.
    pub exhausted: bool,
}

/// The state and the outcome of trying hypotheses until one can be drawn.
pub struct Hunt {
    pub state: u64,
    pub tried: nat,
    pub sample: Option<Seq<usize>>,
}

/// Tries hypotheses from `tried` on until one can be drawn or none is left.
pub open spec fn hunt(state: u64, pool: Seq<usize>, tried: nat, hypotheses: nat) -> Hunt
    decreases hypotheses - tried,
{
    if tried >= hypotheses {
        Hunt { state, tried, sample: None }
    } else {
        let draw = drawn_after(state, pool, TRIES as nat);
        if draw.drawn.len() == SAMPLE {
            Hunt { state: draw.state, tried: tried + 1, sample: Some(draw.drawn) }
        } else {
            hunt(draw.state, pool, tried + 1, hypotheses)
        }
    }
}

/// Each sample uses up a hypothesis, and there are no more samples than there are
/// hypotheses: a search ends. A sample is distinct and comes from the pool.
pub proof fn a_search_ends(state: u64, pool: Seq<usize>, tried: nat, hypotheses: nat)
    requires
        pool.len() > 0,
    ensures
        ({
            let hunt = hunt(state, pool, tried, hypotheses);
            &&& hunt.sample is None ==> hunt.tried >= hypotheses
            &&& hunt.sample is Some ==> {
                &&& tried < hunt.tried <= hypotheses
                &&& hunt.sample->0.len() == SAMPLE
                &&& hunt.sample->0.no_duplicates()
                &&& forall|i: int|
                    0 <= i < SAMPLE ==> pool.contains(#[trigger] hunt.sample->0[i])
            }
        }),
    decreases hypotheses - tried,
{
    if tried < hypotheses {
        let draw = drawn_after(state, pool, TRIES as nat);
        a_sample_is_distinct_and_from_the_pool(state, pool, TRIES as nat);
        if draw.drawn.len() != SAMPLE {
            a_search_ends(draw.state, pool, tried + 1, hypotheses);
        }
    }
}

impl Search {
    /// Starts a search, if there are correspondences enough to solve from.
    pub fn begin(points: usize, pool: &Vec<usize>, options: &ResectionOptions) -> (search: Option<
        Self,
    >)
        ensures
            match search {
                Some(search) => {
                    &&& points >= fewest(*options)
                    &&& pool@.len() >= SAMPLE
                    &&& search.rng.state == options.seed
                    &&& search.tried == 0
                    &&& search.consensus.best is None
                    &&& !search.exhausted
                },
                None => points < fewest(*options) || pool@.len() < SAMPLE,
            },
    {
        if points < SAMPLE || points < options.min_inliers || pool.len() < SAMPLE {
            return None;
        }
        Some(
            Search {
                rng: Rng::new(options.seed),
                tried: 0,
                consensus: Consensus::new(),
                exhausted: false,
            },
        )
    }

    /// The next sample to solve from, until every hypothesis was tried or every
    /// correspondence agrees.
    pub fn next(&mut self, pool: &Vec<usize>, options: &ResectionOptions) -> (sample: Option<
        Vec<usize>,
    >)
        requires
            pool@.len() > 0,
        ensures
            ({
                let hunt = hunt(
                    old(self).rng.state,
                    pool@,
                    old(self).tried as nat,
                    options.hypotheses as nat,
                );
                if old(self).exhausted {
                    sample is None && *final(self) == *old(self)
                } else {
                    &&& final(self).rng.state == hunt.state
                    &&& final(self).tried == hunt.tried
                    &&& final(self).consensus == old(self).consensus
                    &&& !final(self).exhausted
                    &&& match sample {
                        Some(sample) => hunt.sample == Some(sample@),
                        None => hunt.sample is None,
                    }
                }
            }),
    {
        if self.exhausted {
            return None;
        }
        let ghost whole = hunt(
            self.rng.state,
            pool@,
            self.tried as nat,
            options.hypotheses as nat,
        );
        while self.tried < options.hypotheses
            invariant
                pool@.len() > 0,
                !self.exhausted,
                self.consensus == old(self).consensus,
                whole == hunt(
                    self.rng.state,
                    pool@,
                    self.tried as nat,
                    options.hypotheses as nat,
                ),
                whole == hunt(
                    old(self).rng.state,
                    pool@,
                    old(self).tried as nat,
                    options.hypotheses as nat,
                ),
                !old(self).exhausted,
            decreases options.hypotheses - self.tried,
        {
            let mut sample: Vec<usize> = Vec::new();
            let enough: bool = draw(&mut self.rng, pool, &mut sample);
            self.tried = self.tried + 1;
            if enough {
                return Some(sample);
            }
        }
        None
    }

    /// Puts the camera solved from a sample up, by the correspondences that
    /// agree with it.
    pub fn offer(
        &mut self,
        inliers: Vec<usize>,
        error: Scalar,
        points: usize,
        options: &ResectionOptions,
    )
        ensures
            ({
                let merit = Merit { count: inliers@.len(), error };
                let taken = inliers@.len() >= options.min_inliers && beats(
                    merit,
                    old(self).consensus.merit(),
                );
                &&& final(self).rng == old(self).rng
                &&& final(self).tried == old(self).tried
                &&& taken ==> final(self).consensus.best == Some(Agreement { inliers, error })
                &&& !taken ==> final(self).consensus == old(self).consensus
                &&& final(self).exhausted == (old(self).exhausted || (taken && inliers@.len()
                    == points))
            }),
    {
        let count: usize = inliers.len();
        if self.consensus.offer(inliers, error, options.min_inliers) && count == points {
            self.exhausted = true;
        }
    }
}

/// Which correspondences an answer rests on: those that agree with it as it
/// came out, unless too few do.
pub fn settled(
    found: Vec<usize>,
    answer: Vec<usize>,
    options: &ResectionOptions,
) -> (inliers: Vec<usize>)
    ensures
        inliers == if answer@.len() >= options.min_inliers {
            answer
        } else {
            found
        },
{
    if answer.len() >= options.min_inliers {
        answer
    } else {
        found
    }
}

/// What a linear solve says about a camera.
#[derive(Debug, Clone, Copy, PartialEq, Eq, Structural)]
pub struct Solution {
    pub fx: Scalar,
    pub fy: Scalar,
    pub cx: Scalar,
    pub cy: Scalar,
    /// How far the pixels are from square.
    pub aspect_error: Scalar,
    /// How far the principal point is from the frame centre, each way.
    pub offset_x: Scalar,
    pub offset_y: Scalar,
    /// How far it may be, each way.
    pub limit_x: Scalar,
    pub limit_y: Scalar,
}

impl Solution {
    /// Whether a webcam could be like this.
    pub open spec fn believable(self, options: ResectionOptions) -> bool {
        &&& self.fx.finite() && self.fy.finite() && self.cx.finite() && self.cy.finite()
        &&& Scalar::of(0).less(self.fx)
        &&& Scalar::of(0).less(self.fy)
        &&& !options.max_aspect_error.less(self.aspect_error)
        &&& self.offset_x.at_most(self.limit_x)
        &&& self.offset_y.at_most(self.limit_y)
    }

    /// Rejects solutions no webcam could produce, before they are scored.
    pub fn plausible(&self, options: &ResectionOptions) -> (plausible: bool)
        ensures
            plausible == self.believable(*options),
    {
        let nothing: Scalar = Scalar::from_bits(0);
        proof {
            if self.fx.finite() {
                crate::scalar::lemma_finite_compares(self.fx);
            }
            if self.fy.finite() {
                crate::scalar::lemma_finite_compares(self.fy);
            }
        }
        if !self.fx.is_finite() || !self.fy.is_finite() || !self.cx.is_finite()
            || !self.cy.is_finite() || self.fx.le(nothing) || self.fy.le(nothing) {
            return false;
        }
        if options.max_aspect_error.lt(self.aspect_error) {
            return false;
        }
        self.offset_x.le(self.limit_x) && self.offset_y.le(self.limit_y)
    }
}

/// What a resection recovered.
#[derive(Debug, Clone)]
pub struct Resection {
    /// Indices of the correspondences that agreed with the solution.
    pub inliers: Vec<usize>,
    /// RMS angular reprojection error over the inliers, in radians.
    pub rms: Scalar,
    /// How far the inlier world points are from lying in a plane, as the ratio
    /// of their smallest to their largest principal extent. Near zero the
    /// solve is close to degenerate and the result should not be trusted.
    pub spread: Scalar,
}

impl Resection {
    /// Whether the correspondences filled enough of the room for the linear
    /// solve to be well posed.
    ///
    /// A calibration walk that stays on one line, or that only ever puts the
    /// head at one height, lands here.
    pub fn is_well_conditioned(&self) -> (well: bool)
        ensures
            well == Scalar::of(WELL_SPREAD).less(self.spread),
    {
        Scalar::from_bits(WELL_SPREAD).lt(self.spread)
    }
}

/// The correspondences that agree are exactly those whose residual is known and
/// within the threshold, in order.
pub proof fn what_agrees_is_within_the_threshold(
    residuals: Seq<Option<Scalar>>,
    threshold: Scalar,
    n: nat,
)
    requires
        n <= residuals.len(),
    ensures
        ({
            let found = agreeing(residuals, threshold, n);
            &&& increasing(found)
            &&& found.len() <= n
            &&& forall|i: int| #[trigger]
                found.contains(i) <==> 0 <= i < n && residuals[i] is Some
                    && residuals[i]->0.at_most(threshold)
        }),
    decreases n,
{
    if n > 0 {
        what_agrees_is_within_the_threshold(residuals, threshold, (n - 1) as nat);
        let before = agreeing(residuals, threshold, (n - 1) as nat);
        let more = residuals[n - 1] is Some && residuals[n - 1]->0.at_most(threshold);
        lemma_grown(before, agreeing(residuals, threshold, n), more, n - 1);
    }
}

/// A pool never holds more than there is, and where there is enough it holds what is
/// asked for, six at least, and as many as have to agree.
pub proof fn a_pool_is_large_enough(points: int, share: int, options: ResectionOptions)
    requires
        0 <= points,
    ensures
        pool_size(points, share, options) <= points,
        points >= 6 && points >= options.min_inliers && points >= share ==> ({
            let size = pool_size(points, share, options);
            &&& size >= 6 && size >= options.min_inliers && size >= share
            &&& size == 6 || size == options.min_inliers || size == share
        }),
        points < 6 || points < options.min_inliers || points < share ==> pool_size(
            points,
            share,
            options,
        ) == points,
        fewest(options) >= 6 && fewest(options) >= options.min_inliers,
        fewest(options) == 6 || fewest(options) == options.min_inliers,
{
}

/// Of the correspondences a distorted lens is seeded from, none lies further out than
/// one that is left out.
pub proof fn a_pool_is_the_nearest_to_the_centre(radii: Seq<Scalar>, size: int, i: int, j: int)
    requires
        0 <= i < size <= j < radii.len(),
    ensures
        ({
            let order = order_of(scalar_keys(radii));
            &&& order.len() == radii.len()
            &&& 0 <= order[i] < radii.len() && 0 <= order[j] < radii.len()
            &&& order[i] != order[j]
            &&& radii[order[i]].place() <= radii[order[j]].place()
        }),
{
    let keys = scalar_keys(radii);
    every_list_has_an_order(keys);
    let order = order_of(keys);
    assert(comes_first(keys, order[i], order[j]));
}

/// An answer beats another by agreeing with more, and among as many by a smaller
/// error; the first beats nothing.
pub proof fn more_agreement_beats_less(a: Merit, b: Merit)
    ensures
        beats(a, None),
        a.count > b.count ==> beats(a, Some(b)),
        a.count < b.count ==> !beats(a, Some(b)),
        a.count == b.count ==> (beats(a, Some(b)) <==> a.error.less(b.error)),
{
}

/// The winner is one of those that were put up, with enough agreeing.
pub proof fn the_winner_was_put_up(offers: Seq<Merit>, min_inliers: nat, n: nat)
    requires
        n <= offers.len(),
    ensures
        best_of(offers, min_inliers, n) is Some ==> exists|i: int|
            0 <= i < n && #[trigger] offers[i] == best_of(offers, min_inliers, n)->0
                && offers[i].count >= min_inliers,
        best_of(offers, min_inliers, n) is None ==> forall|i: int|
            0 <= i < n ==> (#[trigger] offers[i]).count < min_inliers,
    decreases n,
{
    if n > 0 {
        the_winner_was_put_up(offers, min_inliers, (n - 1) as nat);
        if best_of(offers, min_inliers, n) is Some {
            if best_of(offers, min_inliers, n) == Some(offers[n - 1]) {
                assert(offers[n - 1].count >= min_inliers || best_of(
                    offers,
                    min_inliers,
                    (n - 1) as nat,
                ) is Some);
            }
        }
    }
}

/// A solution is believed exactly if it is a camera at all: focal lengths that are
/// numbers and positive, pixels nearly square, and a principal point near enough to
/// the middle of the frame.
pub proof fn a_believable_solution_is_a_camera(solution: Solution, options: ResectionOptions)
    ensures
        solution.believable(options) ==> solution.fx.finite() && solution.fy.finite()
            && solution.cx.finite() && solution.cy.finite() && Scalar::of(0).less(solution.fx)
            && Scalar::of(0).less(solution.fy) && !options.max_aspect_error.less(
            solution.aspect_error,
        ) && solution.offset_x.at_most(solution.limit_x) && solution.offset_y.at_most(
            solution.limit_y,
        ),
        !solution.believable(options) ==> !solution.fx.finite() || !solution.fy.finite()
            || !solution.cx.finite() || !solution.cy.finite() || !Scalar::of(0).less(solution.fx)
            || !Scalar::of(0).less(solution.fy) || options.max_aspect_error.less(
            solution.aspect_error,
        ) || !solution.offset_x.at_most(solution.limit_x) || !solution.offset_y.at_most(
            solution.limit_y,
        ),
{
}

/// A camera is put up from six points, drawn in forty-eight tries at most, and its points
/// are well spread that cover more than a twentieth.
pub proof fn what_a_sample_takes()
    ensures
        SAMPLE == 6,
        TRIES == 48,
        WELL_SPREAD == 0x3fa9_9999_9999_999a,
{
}

proof fn lemma_product_is_undone(x: u64, by: u64, back: u64)
    requires
        (by as nat * back as nat) % 0x1_0000_0000_0000_0000 == 1,
    ensures
        wrapped_product(wrapped_product(x, by), back) == x,
{
    let whole = 0x1_0000_0000_0000_0000int;
    let (a, b, c) = (x as int, by as int, back as int);
    let product = (a * b) % whole;
    lemma_mod_bound(a * b, whole);
    assert(wrapped_product(x, by) == product);
    lemma_mul_mod_noop_left(a * b, c, whole);
    assert((product * c) % whole == (a * b * c) % whole);
    assert(a * b * c == a * (b * c)) by (nonlinear_arith);
    lemma_mul_mod_noop_right(a, b * c, whole);
    assert((a * ((b * c) % whole)) % whole == a);
}

/// What a number was drawn from can be told from it, step by step back: so no two states
/// are drawn as the same number.
pub proof fn a_draw_can_be_undone(state: u64)
    ensures
        ({
            let drawn = mixed(state);
            let last = drawn ^ (drawn >> 31) ^ (drawn >> 62);
            let second = wrapped_product(last, 0x3196_42b2_d24d_8ec3);
            let middle = second ^ (second >> 27) ^ (second >> 54);
            let first = wrapped_product(middle, 0x96de_1b17_3f11_9089);
            state == first ^ (first >> 30) ^ (first >> 60)
        }),
{
    let x = state ^ (state >> 30);
    let a = wrapped_product(x, 0xbf58_476d_1ce4_e5b9);
    let y = a ^ (a >> 27);
    let b = wrapped_product(y, 0x94d0_49bb_1331_11eb);
    let drawn = b ^ (b >> 31);
    assert(drawn == mixed(state));
    assert(b == drawn ^ (drawn >> 31) ^ (drawn >> 62)) by (bit_vector)
        requires
            drawn == b ^ (b >> 31),
    ;
    assert((0x94d0_49bb_1331_11ebu64 as nat * 0x3196_42b2_d24d_8ec3u64 as nat)
        % 0x1_0000_0000_0000_0000 == 1);
    lemma_product_is_undone(y, 0x94d0_49bb_1331_11eb, 0x3196_42b2_d24d_8ec3);
    assert(a == y ^ (y >> 27) ^ (y >> 54)) by (bit_vector)
        requires
            y == a ^ (a >> 27),
    ;
    assert((0xbf58_476d_1ce4_e5b9u64 as nat * 0x96de_1b17_3f11_9089u64 as nat)
        % 0x1_0000_0000_0000_0000 == 1);
    lemma_product_is_undone(x, 0xbf58_476d_1ce4_e5b9, 0x96de_1b17_3f11_9089);
    assert(state == x ^ (x >> 30) ^ (x >> 60)) by (bit_vector)
        requires
            x == state ^ (state >> 30),
    ;
}

/// The state after a number of draws.
pub open spec fn advanced(state: u64, draws: nat) -> u64 {
    ((state + draws * 0x9e37_79b9_7f4a_7c15) % 0x1_0000_0000_0000_0000) as u64
}

/// What the number of a draw falls on.
pub open spec fn falls_on(state: u64, pool: Seq<usize>, draws: nat) -> usize {
    pool[mixed(advanced(state, draws)) as int % pool.len() as int]
}

proof fn lemma_one_draw_on(state: u64, draws: nat)
    requires
        draws > 0,
    ensures
        advanced(state, 0) == state,
        advanced(state, draws) == stepped(advanced(state, (draws - 1) as nat)),
{
    let whole = 0x1_0000_0000_0000_0000int;
    let earlier = state + (draws - 1) * 0x9e37_79b9_7f4a_7c15;
    assert(state + draws * 0x9e37_79b9_7f4a_7c15 == earlier + 0x9e37_79b9_7f4a_7c15);
    lemma_add_mod_noop(earlier, 0x9e37_79b9_7f4a_7c15, whole);
    assert(0x9e37_79b9_7f4a_7c15int % whole == 0x9e37_79b9_7f4a_7c15);
}

proof fn lemma_one_more_drawn(before: Seq<usize>, after: Seq<usize>, candidate: usize)
    requires
        after == if before.contains(candidate) {
            before
        } else {
            before.push(candidate)
        },
    ensures
        after.contains(candidate),
        forall|one: usize| #[trigger] before.contains(one) ==> after.contains(one),
        forall|one: usize| #[trigger]
            after.contains(one) ==> before.contains(one) || one == candidate,
{
    if !before.contains(candidate) {
        assert(after[before.len() as int] == candidate);
        assert forall|one: usize| #[trigger] before.contains(one) implies after.contains(one) by {
            let i = choose|i: int| 0 <= i < before.len() && before[i] == one;
            assert(after[i] == one);
        }
        assert forall|one: usize| #[trigger] after.contains(one) implies before.contains(one) || one
            == candidate by {
            let i = choose|i: int| 0 <= i < after.len() && after[i] == one;
            if i < before.len() {
                assert(before[i] == one);
            }
        }
    }
}

/// What the generator's numbers fall on is drawn until there are six; and everything that
/// is drawn is what one of the numbers fell on.
pub proof fn a_sample_is_what_the_numbers_fall_on(state: u64, pool: Seq<usize>, tries: nat)
    requires
        pool.len() > 0,
    ensures
        ({
            let draw = drawn_after(state, pool, tries);
            &&& draw.drawn.len() < 6 ==> draw.state == advanced(state, tries)
            &&& draw.drawn.len() < 6 ==> forall|k: nat|
                1 <= k <= tries ==> draw.drawn.contains(#[trigger] falls_on(state, pool, k))
            &&& forall|one: usize| #[trigger]
                draw.drawn.contains(one) ==> exists|k: nat|
                    1 <= k <= tries && one == #[trigger] falls_on(state, pool, k)
        }),
    decreases tries,
{
    lemma_one_draw_on(state, 1);
    if tries > 0 {
        let before = drawn_after(state, pool, (tries - 1) as nat);
        let after = drawn_after(state, pool, tries);
        a_sample_is_what_the_numbers_fall_on(state, pool, (tries - 1) as nat);
        a_sample_is_distinct_and_from_the_pool(state, pool, (tries - 1) as nat);
        if before.drawn.len() < 6 {
            lemma_one_draw_on(state, tries);
            let candidate = falls_on(state, pool, tries);
            lemma_one_more_drawn(before.drawn, after.drawn, candidate);
            assert forall|k: nat| 1 <= k <= tries implies after.drawn.contains(
                #[trigger] falls_on(state, pool, k),
            ) by {
                if k < tries {
                    assert(before.drawn.contains(falls_on(state, pool, k)));
                }
            }
            assert forall|one: usize| #[trigger] after.drawn.contains(one) implies exists|k: nat|
                1 <= k <= tries && one == #[trigger] falls_on(state, pool, k) by {
                if before.drawn.contains(one) {
                    let k = choose|k: nat|
                        1 <= k <= tries - 1 && one == #[trigger] falls_on(state, pool, k);
                    assert(one == falls_on(state, pool, k));
                } else {
                    assert(one == falls_on(state, pool, tries));
                }
            }
        } else {
            assert(after == before);
            assert forall|one: usize| #[trigger] after.drawn.contains(one) implies exists|k: nat|
                1 <= k <= tries && one == #[trigger] falls_on(state, pool, k) by {
                let k = choose|k: nat|
                    1 <= k <= tries - 1 && one == #[trigger] falls_on(state, pool, k);
                assert(one == falls_on(state, pool, k));
            }
        }
    }
}

/// A hypothesis is put up from the first six that can be drawn in forty-eight tries; where
/// they cannot, the hypothesis is used up and the next goes on from there.
pub proof fn a_hypothesis_is_the_next_that_can_be_drawn(
    state: u64,
    pool: Seq<usize>,
    tried: nat,
    hypotheses: nat,
)
    ensures
        ({
            let draw = drawn_after(state, pool, 48);
            let found = hunt(state, pool, tried, hypotheses);
            &&& tried >= hypotheses ==> found.sample is None && found.state == state && found.tried
                == tried
            &&& tried < hypotheses && draw.drawn.len() == 6 ==> found.sample == Some(draw.drawn)
                && found.state == draw.state && found.tried == tried + 1
            &&& tried < hypotheses && draw.drawn.len() != 6 ==> found == hunt(
                draw.state,
                pool,
                tried + 1,
                hypotheses,
            )
        }),
{
}

} // verus!
