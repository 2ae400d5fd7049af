//! The decisions of the geometry.

use optra::config::camera::LensKind;
use optra::geometry::lens::Lens;
use optra::geometry::refine::{
    accepted, fits_again, kept, sightings_per_camera, typical, Descent, Layout, Outcome, RefineOptions, Slots, Task,
};
use optra::geometry::resection::{
    draw, hypothesis_pool, score, settled, Consensus, Resection, ResectionOptions, Rng, Search, Solution,
};
use optra::geometry::triangulate::{cameras_of, hypotheses, triangulate, worst_residual, Hypothesis};
use optra::scalar::Scalar;

fn scalar(number: f64) -> Scalar {
    Scalar::from_bits(number.to_bits())
}

fn scalars(numbers: &[f64]) -> Vec<Scalar> {
    numbers.iter().map(|number| scalar(*number)).collect()
}

#[test]
fn parameters_round_trip_through_the_solver_representation() {
    let lens = Lens::Fisheye { k1: scalar(1.0), k2: scalar(2.0), k3: scalar(3.0), k4: scalar(4.0) };
    assert_eq!(lens.with_parameters(lens.parameters()), lens);
}

#[test]
fn a_zeroed_lens_follows_the_configured_kind() {
    assert_eq!(Lens::for_kind(LensKind::Standard), Lens::default());
    assert_eq!(Lens::for_kind(LensKind::Wide), Lens::default());
    assert!(matches!(Lens::for_kind(LensKind::Fisheye), Lens::Fisheye { .. }));
    assert!(Lens::for_kind(LensKind::Fisheye).is_identity());
    let values = [scalar(0.0), scalar(-0.0), scalar(0.0), scalar(0.0)];
    assert!(Lens::default().with_parameters(values).is_identity());
    let bent = [scalar(0.0), scalar(0.0), scalar(1e-300), scalar(0.0)];
    assert!(!Lens::default().with_parameters(bent).is_identity());
    let broken = [scalar(f64::NAN), scalar(0.0), scalar(0.0), scalar(0.0)];
    assert!(!Lens::default().with_parameters(broken).is_identity());
}

#[test]
fn the_parameters_of_a_solve_lie_end_to_end() {
    let layout = Layout::new(&RefineOptions::default(), 3, 2);
    assert_eq!(layout.total(), 3 * 14 + 2 * 3);
    assert_eq!(layout.camera_base(2), 28);
    assert_eq!(layout.offset_base(1), 45);
    assert_eq!(
        layout.slots(1),
        Slots { intrinsics: Some(14), distortion: Some(18), extrinsics: Some(22), end: 28 }
    );

    let fixed = RefineOptions {
        free_distortion: false,
        free_offsets: false,
        ..RefineOptions::default()
    };
    let layout = Layout::new(&fixed, 3, 2);
    assert_eq!(layout.total(), 30);
    assert_eq!(
        layout.slots(2),
        Slots { intrinsics: Some(20), distortion: None, extrinsics: Some(24), end: 30 }
    );
}

#[test]
fn a_descent_gives_up_after_eight_steps_in_vain() {
    let options = RefineOptions::default();
    let mut descent = Descent::begin(20, 100, &options);
    assert_eq!(descent.task, Task::Linearise);
    descent.linearised(&options);
    for _ in 0..7 {
        descent.attempted(Outcome::Worse, &options);
        assert_eq!(descent.task, Task::Attempt);
    }
    descent.attempted(Outcome::Singular, &options);
    assert_eq!(descent.task, Task::Stop);
    assert_eq!(descent.iterations, 1);
    assert!(!descent.converged);
}

#[test]
fn a_descent_goes_on_while_it_gets_better() {
    let options = RefineOptions { iterations: 3, ..RefineOptions::default() };
    let mut descent = Descent::begin(20, 100, &options);
    for _ in 0..3 {
        assert_eq!(descent.task, Task::Linearise);
        descent.linearised(&options);
        descent.attempted(Outcome::Better(scalar(0.5)), &options);
    }
    assert_eq!(descent.task, Task::Stop);
    assert_eq!(descent.iterations, 3);

    let mut descent = Descent::begin(20, 100, &options);
    descent.linearised(&options);
    descent.attempted(Outcome::Better(scalar(1e-9)), &options);
    assert_eq!(descent.task, Task::Stop);
    assert!(descent.converged);

    assert_eq!(Descent::begin(0, 100, &options).task, Task::Stop);
    assert_eq!(Descent::begin(20, 9, &options).task, Task::Stop);
    assert_eq!(Descent::begin(20, 10, &options).task, Task::Linearise);
}

#[test]
fn far_sightings_are_dropped_once() {
    let errors = scalars(&[0.1, 0.9, 0.2, 0.3]);
    assert_eq!(typical(&errors), Some(scalar(0.3)));
    assert_eq!(typical(&Vec::new()), None);
    assert_eq!(accepted(&errors, scalar(0.3)), vec![0, 2, 3]);
    assert!(fits_again(4, 3, 6));
    assert!(!fits_again(4, 3, 7));
    assert!(!fits_again(4, 4, 6));
    assert_eq!(kept(4, 3, 6), 3);
    assert_eq!(kept(4, 3, 7), 4, "too few are left to fit with, so none is discarded");
    assert_eq!(kept(4, 4, 6), 4);
    assert_eq!(sightings_per_camera(&vec![0, 2, 2, 7], 3), vec![1, 0, 2]);
}

#[test]
fn the_generator_is_the_one_its_seed_says() {
    // The first numbers of SplitMix64 from a seed of zero.
    let mut rng = Rng::new(0);
    assert_eq!(rng.next(), 0xe220_a839_7b1d_cdaf);
    assert_eq!(rng.next(), 0x6e78_9e6a_a1b9_65f4);
    assert_eq!(rng.next(), 0x06c4_5d18_8009_454f);
    let mut rng = Rng::new(0);
    assert_eq!(rng.below(10), (0xe220_a839_7b1d_cdafu64 % 10) as usize);
}

#[test]
fn a_sample_holds_six_different_indices_of_the_pool() {
    let mut rng = Rng::new(7);
    let pool: Vec<usize> = (10..30).collect();
    let mut sample = vec![99];
    assert!(draw(&mut rng, &pool, &mut sample));
    assert_eq!(sample.len(), 6);
    for (at, index) in sample.iter().enumerate() {
        assert!(pool.contains(index));
        assert!(!sample[..at].contains(index));
    }
    assert!(!draw(&mut rng, &vec![1, 2, 3], &mut sample));
    assert_eq!(sample.len(), 3);
}

/// Below the fewest a solve can be tried with, nothing is searched.
#[test]
fn too_few_correspondences_do_not_solve() {
    let options = ResectionOptions::default();
    assert!(Search::begin(5, &(0..5).collect(), &options).is_none());
    let pool: Vec<usize> = (0..6).collect();
    assert!(Search::begin(11, &pool, &options).is_none());
    assert!(Search::begin(12, &pool, &options).is_some());
    assert!(Search::begin(12, &vec![0, 1, 2], &options).is_none());
}

#[test]
fn a_search_stops_once_everything_agrees() {
    let options = ResectionOptions { hypotheses: 3, min_inliers: 4, ..ResectionOptions::default() };
    let pool: Vec<usize> = (0..8).collect();
    let mut search = Search::begin(8, &pool, &options).unwrap();
    let first = search.next(&pool, &options).unwrap();
    search.offer(vec![0, 1, 2], scalar(0.0), 8, &options);
    assert!(search.consensus.best.is_none(), "too few agree");
    let second = search.next(&pool, &options).unwrap();
    assert_ne!(first, second);
    search.offer((0..8).collect(), scalar(0.1), 8, &options);
    assert!(search.exhausted);
    assert!(search.next(&pool, &options).is_none());

    // The same seed gives the same samples.
    let mut again = Search::begin(8, &pool, &options).unwrap();
    assert_eq!(again.next(&pool, &options).unwrap(), first);
    let _ = again.next(&pool, &options);
    let _ = again.next(&pool, &options);
    assert!(again.next(&pool, &options).is_none(), "three hypotheses were tried");
}

#[test]
fn the_most_agreed_hypothesis_wins() {
    let mut consensus = Consensus::new();
    assert!(consensus.offer(vec![1, 2, 3], scalar(0.3), 2));
    assert!(!consensus.offer(vec![1], scalar(0.0), 2));
    assert!(!consensus.offer(vec![4, 5, 6], scalar(0.3), 2));
    assert!(consensus.offer(vec![4, 5, 6], scalar(0.2), 2));
    assert!(consensus.offer(vec![1, 2, 3, 4], scalar(9.0), 2));
    assert_eq!(consensus.best.unwrap().inliers, vec![1, 2, 3, 4]);

    let residuals = vec![Some(scalar(0.01)), None, Some(scalar(0.02)), Some(scalar(0.0))];
    assert_eq!(score(&residuals, scalar(0.01)), vec![0, 3]);
}

#[test]
fn a_bent_lens_is_seeded_from_the_middle_of_the_frame() {
    let options = ResectionOptions { min_inliers: 2, ..ResectionOptions::default() };
    let radii = scalars(&[9.0, 1.0, 5.0, 3.0, 2.0, 8.0, 4.0, 7.0]);
    assert_eq!(hypothesis_pool(&radii, true, 3, &options), vec![0, 1, 2, 3, 4, 5, 6, 7]);
    assert_eq!(hypothesis_pool(&radii, false, 7, &options), vec![1, 4, 3, 6, 2, 7, 5]);
    assert_eq!(hypothesis_pool(&radii, false, 3, &options), vec![1, 4, 3, 6, 2, 7]);
    assert_eq!(hypothesis_pool(&radii, false, 50, &options).len(), 8);
}

#[test]
fn a_polish_that_loses_agreement_is_not_kept() {
    let options = ResectionOptions { min_inliers: 2, ..ResectionOptions::default() };
    assert_eq!(settled(vec![1, 2, 3], vec![1], &options), vec![1, 2, 3]);
    assert_eq!(settled(vec![1, 2, 3], vec![1, 5], &options), vec![1, 5]);
}

fn sound() -> Solution {
    Solution {
        fx: scalar(900.0),
        fy: scalar(880.0),
        cx: scalar(640.0),
        cy: scalar(360.0),
        aspect_error: scalar(0.02),
        offset_x: scalar(1.0),
        offset_y: scalar(2.0),
        limit_x: scalar(384.0),
        limit_y: scalar(216.0),
    }
}

#[test]
fn only_a_camera_that_could_exist_is_plausible() {
    let options = ResectionOptions::default();
    assert!(sound().plausible(&options));
    assert!(!Solution { fx: scalar(f64::NAN), ..sound() }.plausible(&options));
    assert!(!Solution { fy: scalar(-1.0), ..sound() }.plausible(&options));
    assert!(!Solution { aspect_error: scalar(0.3), ..sound() }.plausible(&options));
    assert!(!Solution { offset_x: scalar(385.0), ..sound() }.plausible(&options));
    assert!(!Solution { offset_y: scalar(217.0), ..sound() }.plausible(&options));

    let flat = Resection { inliers: vec![0], rms: scalar(0.0), spread: scalar(0.01) };
    assert!(!flat.is_well_conditioned());
    assert!(Resection { spread: scalar(0.2), ..flat }.is_well_conditioned());
}

#[test]
fn every_two_rays_make_a_hypothesis() {
    let pairs: Vec<(usize, usize)> =
        hypotheses(4).iter().map(|pair| (pair.first, pair.second)).collect();
    assert_eq!(pairs, vec![(0, 1), (0, 2), (0, 3), (1, 2), (1, 3), (2, 3)]);
    assert!(hypotheses(1).is_empty());
    assert_eq!(hypotheses(2).len(), 1);
}

fn hypothesis(residuals: &[f64], error: f64) -> Option<Hypothesis> {
    Some(Hypothesis {
        residuals: residuals.iter().map(|residual| Some(scalar(*residual))).collect(),
        error: scalar(error),
    })
}

#[test]
fn the_rays_that_agree_are_solved_from() {
    let tried = vec![
        hypothesis(&[0.0, 0.0, 0.5], 0.0),
        hypothesis(&[0.0, 0.9, 0.0], 0.001),
        None,
    ];
    let chosen = triangulate(3, &tried, scalar(0.01)).unwrap();
    assert_eq!(chosen.inliers, vec![0, 1]);
    assert_eq!(chosen.hypothesis, 0);
    let mut more = tried;
    more[2] = hypothesis(&[0.01, 0.01, 0.0], 0.02);
    let chosen = triangulate(3, &more, scalar(0.01)).unwrap();
    assert_eq!(chosen.inliers, vec![0, 1, 2]);
    assert_eq!(chosen.hypothesis, 2);
    let none = vec![hypothesis(&[0.0, 0.9, 0.4], 0.0), None, None];
    assert!(triangulate(3, &none, scalar(0.01)).is_none());
}

/// Two rays have nobody to outvote either of them.
#[test]
fn two_rays_are_used_however_far_apart_they_pass() {
    let both = triangulate(2, &vec![hypothesis(&[0.5, 0.5], 1.0)], scalar(0.01)).unwrap();
    assert_eq!(both.inliers, vec![0, 1]);
    assert!(triangulate(2, &vec![None], scalar(0.01)).is_none());
    assert!(triangulate(1, &Vec::new(), scalar(0.01)).is_none());
}

#[test]
fn the_worst_of_the_residuals_is_reported() {
    assert_eq!(worst_residual(&scalars(&[0.1, 0.4, 0.2])), scalar(0.4));
    assert_eq!(worst_residual(&Vec::new()), scalar(0.0));
    assert_eq!(cameras_of(&vec![0, 2], &vec![5, 6, 7]), vec![5, 7]);
}
