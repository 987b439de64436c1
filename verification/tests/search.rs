//! The parts of a search.

use miyagi::architecture::Projection;
use miyagi::error::Error;
use miyagi::flip_set::FlipSet;
use miyagi::float::Binary32;
use miyagi::patch::PatchFlip;
use miyagi::probe::ProbeMeasurement;
use miyagi::search::checkpoint::{compare_baselines, validate_checkpoint, CHECKPOINT_VERSION};
use miyagi::search::layers::MAX_DEFAULT_LAYERS;
use miyagi::search::pool::candidate_weight;
use miyagi::search::sampling::unit_numerator;
use miyagi::search::{
    default_search_layers, resolve_search_layers, screen_indices, SearchCheckpoint, SearchConfig,
    SplitMix64,
};

fn number(value: f32) -> Binary32 {
    Binary32 { bits: value.to_bits() }
}

fn measurement(name: &str, gap: f32) -> ProbeMeasurement {
    ProbeMeasurement {
        name: name.to_owned(),
        category: String::new(),
        prompt: String::new(),
        correct_token: String::new(),
        wrong_token: String::new(),
        correct_id: 0,
        wrong_id: 1,
        gap: number(gap),
    }
}

#[test]
fn splitmix_state_can_resume_exactly() {
    let mut first = SplitMix64::new(42);
    let _ = first.next_u64();
    let state = first.state();
    let expected = first.next_u64();
    let mut resumed = SplitMix64::from_state(state);
    assert_eq!(resumed.next_u64(), expected);
}

#[test]
fn splitmix_gives_its_known_numbers() {
    let mut generator = SplitMix64::new(42);
    assert_eq!(generator.next_u64(), 13679457532755275413);
    assert_eq!(generator.next_u64(), 2949826092126892291);
    assert_eq!(generator.state(), 4354685564936845396);
    assert_eq!(SplitMix64::new(0).next_u64(), 16294208416658607535);
    assert_eq!(unit_numerator(13679457532755275413), 6679422623415661);
    assert_eq!(unit_numerator(u64::MAX), (1 << 53) - 1);
}

#[test]
fn default_layers_span_full_depth_on_large_models() {
    let layers = default_search_layers(64);
    assert_eq!(layers.len(), MAX_DEFAULT_LAYERS);
    assert_eq!(*layers.first().unwrap(), 1);
    assert_eq!(*layers.last().unwrap(), 63);
    assert!(layers.iter().all(|&l| l < 64));
    assert!(layers.windows(2).all(|w| w[0] < w[1]), "strictly increasing");
    assert!(layers.iter().any(|&l| l > 34));
    assert_eq!(layers, vec![1, 7, 12, 18, 24, 29, 35, 40, 46, 52, 57, 63]);
}

#[test]
fn default_layers_cover_every_layer_on_small_models() {
    assert_eq!(default_search_layers(4), vec![0, 1, 2, 3]);
    assert_eq!(default_search_layers(0), Vec::<usize>::new());
    assert_eq!(default_search_layers(12).len(), 12);
    assert_eq!(default_search_layers(13), (1..13).collect::<Vec<usize>>());
}

#[test]
fn empty_search_layers_resolve_from_backend_depth() {
    let resolved = resolve_search_layers(64, &[]);
    assert_eq!(resolved, default_search_layers(64));
    assert!(resolved.iter().any(|&l| l > 34));
    let explicit = resolve_search_layers(64, &[1, 2, 3]);
    assert_eq!(explicit, vec![1, 2, 3]);
}

#[test]
fn screen_uses_worst_gaps_then_name() {
    let baseline = [
        measurement("b", -1.0),
        measurement("a", -1.0),
        measurement("c", 0.0),
    ];
    assert_eq!(screen_indices(&baseline, 2), vec![1, 0]);
}

#[test]
fn screen_keeps_the_order_of_equals_and_never_exceeds_the_probes() {
    let baseline = [
        measurement("same", 2.0),
        measurement("same", 2.0),
        measurement("low", f32::NEG_INFINITY),
        measurement("zero", 0.0),
        measurement("zero", -0.0),
    ];
    assert_eq!(screen_indices(&baseline, 9), vec![2, 4, 3, 0, 1]);
    assert_eq!(screen_indices(&baseline, 0), Vec::<usize>::new());
    assert_eq!(screen_indices(&[], 3), Vec::<usize>::new());
}

#[test]
fn only_positive_scales_have_weight() {
    assert_eq!(candidate_weight(number(0.25)), number(0.25));
    for scale in [0.0, -0.0, -1.0, f32::NAN, f32::INFINITY, f32::NEG_INFINITY] {
        assert_eq!(candidate_weight(number(scale)), number(0.0));
    }
    assert_eq!(candidate_weight(number(f32::MIN_POSITIVE)), number(f32::MIN_POSITIVE));
}

fn flip(layer: usize, proj: Projection, row: usize) -> PatchFlip {
    PatchFlip { layer, proj, row }
}

#[test]
fn a_set_of_rows_is_ordered_and_holds_each_once() {
    let a = flip(0, Projection::Gate, 5);
    let b = flip(0, Projection::Up, 1);
    let c = flip(1, Projection::Gate, 0);
    let mut rows = FlipSet::of(&[c, a, b, a]);
    assert_eq!(rows.as_slice().to_vec(), vec![a, b, c]);
    assert_eq!(rows.len(), 3);
    assert!(rows.contains(b));
    rows.toggle(b);
    assert!(!rows.contains(b));
    rows.toggle(b);
    rows.insert(b);
    assert_eq!(rows.as_slice().to_vec(), vec![a, b, c]);
    assert_eq!(rows.clone().as_slice().to_vec(), vec![a, b, c]);
    assert_eq!(FlipSet::new().len(), 0);
}

fn config() -> SearchConfig {
    SearchConfig { search_layers: vec![0, 1], max_iters: 10, ..SearchConfig::default() }
}

fn checkpoint() -> SearchCheckpoint {
    SearchCheckpoint {
        version: CHECKPOINT_VERSION,
        architecture_signature: "sig".to_owned(),
        model_label: "m".to_owned(),
        config: config(),
        completed_iterations: 4,
        accepted: vec![flip(0, Projection::Gate, 0)],
        tried: FlipSet::of(&[flip(0, Projection::Gate, 0), flip(0, Projection::Gate, 1)]),
        current_fitness: number(0.5),
        rng_state: 7,
        target_baseline: vec![measurement("t", 1.0)],
        control_baseline: vec![measurement("c", 2.0)],
    }
}

fn complaint(
    checkpoint: &SearchCheckpoint,
    config: &SearchConfig,
    signature: &str,
    target: &[ProbeMeasurement],
    control: &[ProbeMeasurement],
) -> String {
    match validate_checkpoint(checkpoint, config, signature, target, control) {
        Ok(()) => String::new(),
        Err(Error::IncompatibleCheckpoint(text)) => text,
        Err(other) => panic!("unexpected {other:?}"),
    }
}

#[test]
fn a_checkpoint_is_taken_up_by_its_own_search_only() {
    let target = [measurement("t", 1.0)];
    let control = [measurement("c", 2.0)];
    let own = checkpoint();
    assert_eq!(complaint(&own, &config(), "sig", &target, &control), "");

    let more = SearchConfig { max_iters: 400, ..config() };
    assert_eq!(complaint(&own, &more, "sig", &target, &control), "");
    let enough = SearchConfig { max_iters: 4, ..config() };
    assert_eq!(complaint(&own, &enough, "sig", &target, &control), "");
    let fewer = SearchConfig { max_iters: 3, ..config() };
    assert_eq!(
        complaint(&own, &fewer, "sig", &target, &control),
        "search configuration changed"
    );
    let other_seed = SearchConfig { seed: 43, ..config() };
    assert_eq!(
        complaint(&own, &other_seed, "sig", &target, &control),
        "search configuration changed"
    );
    assert_eq!(
        complaint(&own, &config(), "other", &target, &control),
        "model architecture signature changed"
    );
    assert_eq!(complaint(&own, &config(), "sig", &[], &control), "probe count changed");
    assert_eq!(
        complaint(&own, &config(), "sig", &target, &[measurement("c", 2.1)]),
        "baseline changed for probe c"
    );
    let old = SearchCheckpoint { version: 12, ..checkpoint() };
    assert_eq!(
        complaint(&old, &config(), "sig", &target, &control),
        "unsupported checkpoint version 12"
    );
}

#[test]
fn a_baseline_may_differ_by_a_hundred_thousandth() {
    let expected = [measurement("t", 1.0)];
    for gap in [1.0, 1.000005, 0.999995] {
        assert!(compare_baselines(&expected, &[measurement("t", gap)]).is_ok());
    }
    for gap in [1.00002, 0.99998, f32::INFINITY] {
        assert!(compare_baselines(&expected, &[measurement("t", gap)]).is_err());
    }
    assert!(compare_baselines(&expected, &[measurement("u", 1.0)]).is_err());
}

#[test]
fn the_default_search_is_the_documented_one() {
    let config = SearchConfig::default();
    assert!(config.search_layers.is_empty());
    assert_eq!(config.search_projections, vec![Projection::Gate, Projection::Up]);
    assert_eq!(config.max_iters, 200);
    assert_eq!(config.control_penalty, number(2.0));
    assert_eq!(config.seed, 42);
    assert_eq!(config.screen_probe_count, 2);
    assert_eq!(config.patch_name, "untitled");
    assert_eq!(config.base_model, "unknown");
}

#[test]
fn coordinates_go_layer_by_layer() {
    assert_eq!(
        config().coordinates(),
        vec![
            (0, Projection::Gate),
            (0, Projection::Up),
            (1, Projection::Gate),
            (1, Projection::Up),
        ]
    );
}
