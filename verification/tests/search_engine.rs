//! Whole searches over models that are made up.

use std::collections::BTreeSet;
use std::sync::atomic::{AtomicBool, Ordering};

use miyagi::architecture::{ArchitectureMap, Projection, TensorDescriptor};
use miyagi::backend::{GenerateConfig, MiyagiBackend};
use miyagi::error::Error;
use miyagi::fitness::FitnessMode;
use miyagi::float::Binary32;
use miyagi::patch::MetadataValue;
use miyagi::probe::{CompiledProbe, Probe, ProbeMeasurement};
use miyagi::search::evaluate::CandidateReading;
use miyagi::search::pool::build_candidates;
use miyagi::search::session::{judge, Draw};
use miyagi::search::state::CandidateEvaluation;
use miyagi::search::{
    default_search_layers, run_search, ModelPatchState, SearchCheckpoint, SearchConfig, SearchEvent, SearchHost,
    SearchResult, SearchSession, Watched,
};

fn number(value: f32) -> Binary32 {
    Binary32 { bits: value.to_bits() }
}

fn value(number: Binary32) -> f32 {
    f32::from_bits(number.bits)
}

/// The draw by weight, or none where there is nothing to weigh by.
fn weigh(draw: &Draw) -> Option<usize> {
    let weights: Vec<f64> = draw.weights.iter().map(|weight| f64::from(value(*weight))).collect();
    let total: f64 = weights.iter().sum();
    if total <= 0.0 || !total.is_finite() {
        return None;
    }
    let mut threshold = (draw.ticket as f64) * (1.0 / ((1_u64 << 53) as f64)) * total;
    for (index, weight) in weights.iter().enumerate() {
        if threshold < *weight {
            return Some(index);
        }
        threshold -= weight;
    }
    Some(weights.len() - 1)
}

/// The gain of the targets less the penalized loss of the controls.
fn fitness(
    mode: FitnessMode,
    control_penalty: Binary32,
    target: &[ProbeMeasurement],
    control: &[ProbeMeasurement],
    target_baseline: &[ProbeMeasurement],
    control_baseline: &[ProbeMeasurement],
) -> Result<Binary32, Error> {
    if target.len() != target_baseline.len() || control.len() != control_baseline.len() {
        return Err(Error::MeasurementMismatch("probe count".to_owned()));
    }
    let gains: Vec<f32> =
        target.iter().zip(target_baseline).map(|(now, then)| value(now.gap) - value(then.gap)).collect();
    let gain = match mode {
        FitnessMode::Mean => gains.iter().sum::<f32>() / gains.len() as f32,
        FitnessMode::Min => gains.iter().copied().fold(f32::INFINITY, f32::min),
    };
    let losses: f32 = control
        .iter()
        .zip(control_baseline)
        .map(|(now, then)| (value(then.gap) - value(now.gap)).max(0.0))
        .sum();
    Ok(number(gain - value(control_penalty) * losses / control.len() as f32))
}

/// Whoever runs the search: it notes the events, keeps the checkpoints where asked,
/// and stops where told to.
struct Host<'a> {
    cancellation: Option<&'a AtomicBool>,
    stop_after: Option<usize>,
    keeps: bool,
    events: Vec<SearchEvent>,
    checkpoints: Vec<SearchCheckpoint>,
}

impl Host<'_> {
    fn new() -> Self {
        Self {
            cancellation: None,
            stop_after: None,
            keeps: false,
            events: Vec::new(),
            checkpoints: Vec::new(),
        }
    }
}

impl SearchHost for Host<'_> {
    fn cancelled(&mut self) -> bool {
        self.cancellation.is_some_and(|flag| flag.load(Ordering::Relaxed))
            || self.stop_after == Some(self.checkpoints.len())
    }

    fn weigh(&mut self, draw: &Draw) -> Option<usize> {
        weigh(draw)
    }

    fn fitness(
        &mut self,
        mode: FitnessMode,
        control_penalty: Binary32,
        target: &[ProbeMeasurement],
        control: &[ProbeMeasurement],
        target_baseline: &[ProbeMeasurement],
        control_baseline: &[ProbeMeasurement],
    ) -> Result<Binary32, Error> {
        fitness(mode, control_penalty, target, control, target_baseline, control_baseline)
    }

    fn save(&mut self, checkpoint: &SearchCheckpoint) -> Result<bool, Error> {
        if self.keeps {
            self.checkpoints.push(checkpoint.clone());
        }
        Ok(self.keeps)
    }

    fn on_event(&mut self, event: &SearchEvent) {
        self.events.push(event.clone());
    }
}

fn watched<'a>() -> Watched<Host<'a>> {
    Watched::new(Host::new())
}

fn search<B: MiyagiBackend>(backend: &mut B, config: SearchConfig) -> Result<SearchResult, Error> {
    run_search(backend, &mut watched(), &targets(), &controls(), config, None)
}

struct FakeBackend {
    architecture: ArchitectureMap,
    flipped: BTreeSet<(usize, Projection, usize)>,
}

impl FakeBackend {
    fn new() -> Self {
        let descriptor = TensorDescriptor {
            name: "blk.0.ffn_gate.weight".to_owned(),
            type_id: 41,
            type_label: "Q1_0".to_owned(),
            dimensions: [128, 3, 1, 1],
            strides: [18, 18, 0, 0],
            n_dims: 2,
            nbytes: 54,
            backend: "fake".to_owned(),
        };
        let mut descriptors = vec![descriptor.clone()];
        descriptors.push(TensorDescriptor {
            name: "blk.0.ffn_up.weight".to_owned(),
            ..descriptor.clone()
        });
        descriptors.push(TensorDescriptor {
            name: "blk.0.ffn_down.weight".to_owned(),
            dimensions: [128, 3, 1, 1],
            ..descriptor
        });
        Self {
            architecture: ArchitectureMap::discover(&descriptors).unwrap(),
            flipped: BTreeSet::new(),
        }
    }
}

impl MiyagiBackend for FakeBackend {
    fn architecture(&self) -> &ArchitectureMap {
        &self.architecture
    }

    fn model_label(&self) -> &str {
        "fake"
    }

    fn tokenize(&self, text: &str) -> Result<Vec<i32>, Error> {
        Ok(vec![if text == "target" { 1 } else { 0 }])
    }

    fn row_scales(&mut self, _layer: usize, _projection: Projection) -> Result<Vec<Binary32>, Error> {
        Ok(vec![number(1.0), number(1.0), number(1.0)])
    }

    fn flip_row(&mut self, layer: usize, projection: Projection, row: usize) -> Result<(), Error> {
        let key = (layer, projection, row);
        if !self.flipped.insert(key) {
            self.flipped.remove(&key);
        }
        Ok(())
    }

    fn logit_gap(&mut self, prompt: &[i32], _correct: i32, _wrong: i32) -> Result<Binary32, Error> {
        let target = prompt.first() == Some(&1);
        let row0 = self.flipped.contains(&(0, Projection::Gate, 0));
        let row1 = self.flipped.contains(&(0, Projection::Gate, 1));
        if target {
            Ok(number(
                -1.0 + if row0 {
                    2.0
                } else if row1 {
                    -2.0
                } else {
                    0.0
                },
            ))
        } else {
            Ok(number(1.0 - if row1 { 3.0 } else { 0.0 }))
        }
    }

    fn generate(&mut self, _prompt: &str, _config: &GenerateConfig) -> Result<String, Error> {
        Ok(String::new())
    }
}

fn compiled(name: &str, prompt: &str) -> CompiledProbe {
    CompiledProbe {
        probe: Probe::new(prompt, "yes", "no", name, "test"),
        prompt_tokens: vec![if prompt == "target" { 1 } else { 0 }],
        correct_id: 1,
        wrong_id: 2,
    }
}

fn small_config() -> SearchConfig {
    SearchConfig {
        search_layers: vec![0],
        search_projections: vec![Projection::Gate],
        max_iters: 3,
        screen_probe_count: 1,
        patch_name: "test".to_owned(),
        base_model: "fake".to_owned(),
        ..SearchConfig::default()
    }
}

#[test]
fn search_keeps_only_improving_flips_and_reverts_rejections() {
    let mut backend = FakeBackend::new();
    let config = SearchConfig {
        search_layers: vec![0],
        search_projections: vec![Projection::Gate],
        max_iters: 3,
        screen_probe_count: 1,
        patch_name: "test".to_owned(),
        base_model: "fake".to_owned(),
        ..SearchConfig::default()
    };
    let result = run_search(
        &mut backend,
        &mut watched(),
        &[compiled("target", "target")],
        &[compiled("control", "control")],
        config,
        None,
    )
    .unwrap();
    assert!(result.patch.flips.iter().any(|flip| flip.row == 0));
    assert_eq!(result.patch.stats.n_flips, result.patch.flips.len());
    assert_eq!(
        result.patch.stats.logical_bits_flipped,
        Some(128 * result.patch.flips.len() as u128)
    );
    assert_eq!(result.model_state, ModelPatchState::AcceptedPatchApplied);
    assert!(backend.flipped.contains(&(0, Projection::Gate, 0)));
    assert!(!backend.flipped.contains(&(0, Projection::Gate, 1)));
}

#[test]
fn cancellation_is_reported_without_losing_current_state() {
    let mut backend = FakeBackend::new();
    let cancelled = AtomicBool::new(true);
    let mut host = Watched::new(Host { cancellation: Some(&cancelled), ..Host::new() });
    let result = run_search(
        &mut backend,
        &mut host,
        &[compiled("target", "target")],
        &[compiled("control", "control")],
        SearchConfig {
            search_layers: vec![0],
            search_projections: vec![Projection::Gate],
            max_iters: 3,
            ..SearchConfig::default()
        },
        None,
    );
    assert!(matches!(result, Err(Error::SearchCancelled)));
    assert!(backend.flipped.is_empty());
}

#[test]
fn non_finite_baseline_aborts_search() {
    let mut backend = AlwaysNanBackend::new();
    let result = run_search(
        &mut backend,
        &mut watched(),
        &[compiled("target", "target")],
        &[compiled("control", "control")],
        SearchConfig {
            search_layers: vec![0],
            search_projections: vec![Projection::Gate],
            max_iters: 3,
            ..SearchConfig::default()
        },
        None,
    );
    assert!(
        matches!(result, Err(Error::MeasurementMismatch(_))),
        "expected baseline MeasurementMismatch, got {result:?}"
    );
}

#[test]
fn non_finite_candidate_is_rejected_not_fatal() {
    let mut backend = NanAfterFlipBackend::new();
    let result = run_search(
        &mut backend,
        &mut watched(),
        &[compiled("target", "target")],
        &[compiled("control", "control")],
        SearchConfig {
            search_layers: vec![0],
            search_projections: vec![Projection::Gate],
            max_iters: 3,
            screen_probe_count: 1,
            patch_name: "nan-cand".to_owned(),
            base_model: "fake".to_owned(),
            ..SearchConfig::default()
        },
        None,
    )
    .expect("NaN candidates must not abort the whole search");
    assert!(
        result.patch.flips.is_empty(),
        "NaN fitness cannot pass strict improvement"
    );
    assert!(
        backend.flipped.is_empty(),
        "rejected NaN candidates must be reverted"
    );
    assert_eq!(result.completed_iterations, 3);
}

/// Returns NaN for every probe gap (broken baseline).
struct AlwaysNanBackend {
    architecture: ArchitectureMap,
}

impl AlwaysNanBackend {
    fn new() -> Self {
        Self { architecture: FakeBackend::new().architecture }
    }
}

impl MiyagiBackend for AlwaysNanBackend {
    fn architecture(&self) -> &ArchitectureMap {
        &self.architecture
    }

    fn model_label(&self) -> &str {
        "always-nan"
    }

    fn tokenize(&self, _text: &str) -> Result<Vec<i32>, Error> {
        Ok(vec![1])
    }

    fn row_scales(&mut self, _layer: usize, _projection: Projection) -> Result<Vec<Binary32>, Error> {
        Ok(vec![number(1.0), number(1.0), number(1.0)])
    }

    fn flip_row(&mut self, _layer: usize, _projection: Projection, _row: usize) -> Result<(), Error> {
        Ok(())
    }

    fn logit_gap(&mut self, _prompt: &[i32], _correct: i32, _wrong: i32) -> Result<Binary32, Error> {
        Ok(number(f32::NAN))
    }

    fn generate(&mut self, _prompt: &str, _config: &GenerateConfig) -> Result<String, Error> {
        Ok(String::new())
    }
}

/// Finite baseline; any flipped row yields NaN (candidate-only defect).
struct NanAfterFlipBackend {
    architecture: ArchitectureMap,
    flipped: BTreeSet<(usize, Projection, usize)>,
}

impl NanAfterFlipBackend {
    fn new() -> Self {
        Self { architecture: FakeBackend::new().architecture, flipped: BTreeSet::new() }
    }
}

impl MiyagiBackend for NanAfterFlipBackend {
    fn architecture(&self) -> &ArchitectureMap {
        &self.architecture
    }

    fn model_label(&self) -> &str {
        "nan-after-flip"
    }

    fn tokenize(&self, text: &str) -> Result<Vec<i32>, Error> {
        Ok(vec![if text == "target" { 1 } else { 0 }])
    }

    fn row_scales(&mut self, _layer: usize, _projection: Projection) -> Result<Vec<Binary32>, Error> {
        Ok(vec![number(1.0), number(1.0), number(1.0)])
    }

    fn flip_row(&mut self, layer: usize, projection: Projection, row: usize) -> Result<(), Error> {
        let key = (layer, projection, row);
        if !self.flipped.insert(key) {
            self.flipped.remove(&key);
        }
        Ok(())
    }

    fn logit_gap(&mut self, prompt: &[i32], _correct: i32, _wrong: i32) -> Result<Binary32, Error> {
        if !self.flipped.is_empty() {
            return Ok(number(f32::NAN));
        }
        // Finite baseline: target wrong, control right.
        if prompt.first() == Some(&1) {
            Ok(number(-1.0))
        } else {
            Ok(number(1.0))
        }
    }

    fn generate(&mut self, _prompt: &str, _config: &GenerateConfig) -> Result<String, Error> {
        Ok(String::new())
    }
}

/// A model whose rows each have a value of their own, and whose flips or gaps may
/// fail. The first probe gains what the flipped rows are worth; a second target and
/// the control only move where a row says so.
struct Values {
    architecture: ArchitectureMap,
    scales: Vec<f32>,
    worth: Vec<f32>,
    harm: Vec<f32>,
    flipped: BTreeSet<usize>,
    flips: usize,
    broken_flips: Vec<usize>,
    gaps: usize,
    broken_gap: Option<usize>,
    asked: Vec<i32>,
}

impl Values {
    fn new(worth: &[f32], harm: &[f32]) -> Self {
        Self {
            architecture: FakeBackend::new().architecture,
            scales: vec![1.0; 3],
            worth: worth.to_vec(),
            harm: harm.to_vec(),
            flipped: BTreeSet::new(),
            flips: 0,
            broken_flips: Vec::new(),
            gaps: 0,
            broken_gap: None,
            asked: Vec::new(),
        }
    }
}

impl MiyagiBackend for Values {
    fn architecture(&self) -> &ArchitectureMap {
        &self.architecture
    }

    fn model_label(&self) -> &str {
        "values"
    }

    fn tokenize(&self, _text: &str) -> Result<Vec<i32>, Error> {
        Ok(vec![1])
    }

    fn row_scales(&mut self, _layer: usize, _projection: Projection) -> Result<Vec<Binary32>, Error> {
        Ok(self.scales.iter().map(|scale| number(*scale)).collect())
    }

    fn flip_row(&mut self, _layer: usize, _projection: Projection, row: usize) -> Result<(), Error> {
        self.flips += 1;
        if self.broken_flips.contains(&self.flips) {
            return Err(Error::Backend(format!("flip {}", self.flips)));
        }
        if !self.flipped.insert(row) {
            self.flipped.remove(&row);
        }
        Ok(())
    }

    fn logit_gap(&mut self, prompt: &[i32], _correct: i32, _wrong: i32) -> Result<Binary32, Error> {
        self.gaps += 1;
        self.asked.push(prompt[0]);
        if self.broken_gap == Some(self.gaps) {
            return Err(Error::Backend("gap".to_owned()));
        }
        let sum = |values: &Vec<f32>| self.flipped.iter().map(|row| values[*row]).sum::<f32>();
        Ok(number(match prompt[0] {
            1 => -1.0 + sum(&self.worth),
            2 => 5.0 + sum(&self.worth),
            _ => 1.0 - sum(&self.harm),
        }))
    }

    fn generate(&mut self, _prompt: &str, _config: &GenerateConfig) -> Result<String, Error> {
        Ok(String::new())
    }
}

fn probe(name: &str, token: i32) -> CompiledProbe {
    CompiledProbe {
        probe: Probe::new("q", "yes", "no", name, "test"),
        prompt_tokens: vec![token],
        correct_id: 1,
        wrong_id: 2,
    }
}

fn targets() -> Vec<CompiledProbe> {
    vec![probe("easy", 2), probe("hard", 1)]
}

fn controls() -> Vec<CompiledProbe> {
    vec![probe("control", 3)]
}

#[test]
fn every_row_gets_the_verdict_it_deserves() {
    // Row 0 helps, row 1 does not pass the screen, row 2 helps but harms the control.
    let mut backend = Values::new(&[2.0, -3.0, 1.0], &[0.0, 0.0, 4.0]);
    let mut host = Watched::new(Host { keeps: true, ..Host::new() });
    let result =
        run_search(&mut backend, &mut host, &targets(), &controls(), small_config(), None).unwrap();
    let host = host.into_host();
    let events = host.events;
    assert_eq!(result.completed_iterations, 3);
    assert_eq!(result.tried_candidates, 3);
    assert_eq!(result.screened_out, 1);
    assert_eq!(result.patch.flips.len(), 1);
    assert_eq!(result.patch.flips[0].row, 0);
    assert_eq!(backend.flipped, BTreeSet::from([0]));
    assert_eq!(value(result.final_fitness), 2.0);
    assert_eq!(value(result.target_baseline[1].gap), -1.0);
    assert_eq!(value(result.final_target[1].gap), 1.0);
    let mut saved: usize = 0;
    let mut verdicts: Vec<(usize, &str)> = Vec::new();
    for event in &events {
        match event {
            SearchEvent::ScreenedOut { flip, .. } => verdicts.push((flip.row, "screened")),
            SearchEvent::Rejected { flip, .. } => verdicts.push((flip.row, "rejected")),
            SearchEvent::Checkpoint { iteration } => {
                saved += 1;
                assert_eq!(*iteration, saved);
            }
            SearchEvent::Accepted { flip, accepted, fitness, .. } => {
                assert_eq!(*accepted, 1);
                assert_eq!(value(*fitness), 2.0);
                verdicts.push((flip.row, "accepted"));
            }
            _ => {}
        }
    }
    assert_eq!(saved, 3);
    assert_eq!(host.checkpoints.len(), 3);
    verdicts.sort();
    assert_eq!(verdicts, vec![(0, "accepted"), (1, "screened"), (2, "rejected")]);
    assert!(matches!(events[0], SearchEvent::Baseline { .. }));
    assert!(matches!(
        events.last(),
        Some(SearchEvent::Completed { iterations: 3, accepted: 1, .. })
    ));
}

#[test]
fn the_result_records_how_it_was_found() {
    let mut backend = Values::new(&[2.0, 0.0, 0.0], &[0.0, 0.0, 0.0]);
    let config = SearchConfig { fitness_mode: FitnessMode::Min, ..small_config() };
    let result = search(&mut backend, config).unwrap();
    let patch = result.patch;
    assert_eq!(patch.name, "test");
    assert_eq!(patch.base_model, "fake");
    assert_eq!(patch.version, 1);
    assert!(matches!(
        patch.kept("architecture_signature"),
        Some(MetadataValue::Text(text)) if text == "fnv1a64:ed2fadbb5c0c0fc5"
    ));
    assert!(matches!(
        patch.kept("search_algorithm"),
        Some(MetadataValue::Text(text)) if text == "greedy_hill_climbing_screened_min"
    ));
    assert!(matches!(patch.kept("seed"), Some(MetadataValue::Count(42))));
    assert!(matches!(patch.kept("completed_iterations"), Some(MetadataValue::Count(3))));
    assert!(matches!(
        patch.kept("control_penalty"),
        Some(MetadataValue::Number(penalty)) if *penalty == number(2.0)
    ));
}

#[test]
fn the_worst_probe_is_asked_first() {
    let mut backend = Values::new(&[1.0, 1.0, 1.0], &[0.0, 0.0, 0.0]);
    let config = SearchConfig { max_iters: 1, ..small_config() };
    search(&mut backend, config).unwrap();
    // Baselines, then the screen, the other target and the control, then the end.
    assert_eq!(backend.asked, vec![2, 1, 3, 1, 2, 3, 2, 1, 3]);
}

#[test]
fn rows_without_weight_are_drawn_evenly() {
    let mut backend = Values::new(&[1.0, 1.0, 1.0], &[0.0, 0.0, 0.0]);
    backend.scales = vec![0.0, -1.0, f32::NAN];
    let mut session =
        SearchSession::begin(&mut backend, targets(), controls(), small_config(), None).unwrap();
    let draw = session.offer().unwrap();
    assert_eq!(draw.weights, vec![number(0.0); 3]);
    assert_eq!(draw.ticket, 6679422623415661);
    assert_eq!(weigh(&draw), None);
    // 13679457532755275413 leaves 1 when divided by the three rows.
    assert!(matches!(
        session.take(None),
        SearchEvent::Candidate { iteration: 1, flip } if flip.row == 1
    ));
    assert!(!session.wants_more());
}

#[test]
fn a_search_ends_when_every_row_was_tried() {
    let mut backend = Values::new(&[1.0, 1.0, 1.0], &[0.0, 0.0, 0.0]);
    let config = SearchConfig { max_iters: 50, ..small_config() };
    let result = search(&mut backend, config).unwrap();
    assert_eq!(result.completed_iterations, 3);
    let rows: BTreeSet<usize> = result.patch.flips.iter().map(|flip| flip.row).collect();
    assert_eq!(rows, backend.flipped);
    assert_eq!(rows.len(), 3);
}

#[test]
fn an_interrupted_search_ends_as_if_it_had_not_been() {
    let worth = [0.5, -1.0, 0.25];
    let harm = [0.0, 0.0, 0.0];
    let mut whole = Values::new(&worth, &harm);
    let expected = search(&mut whole, small_config()).unwrap();

    let mut first = Values::new(&worth, &harm);
    let shorter = SearchConfig { max_iters: 2, ..small_config() };
    let mut host = Watched::new(Host { keeps: true, stop_after: Some(1), ..Host::new() });
    assert!(matches!(
        run_search(&mut first, &mut host, &targets(), &controls(), shorter, None),
        Err(Error::SearchCancelled)
    ));
    let mut host = host.into_host();
    // One checkpoint after the iteration, and one when the search was cancelled.
    assert_eq!(host.checkpoints.len(), 2);
    let checkpoint = host.checkpoints.remove(1);
    assert_eq!(checkpoint.completed_iterations, 1);
    assert_eq!(checkpoint.tried.len(), 1);

    let mut second = Values::new(&worth, &harm);
    let resumed = run_search(
        &mut second,
        &mut watched(),
        &targets(),
        &controls(),
        small_config(),
        Some(checkpoint),
    )
    .unwrap();
    assert_eq!(resumed.patch.flips, expected.patch.flips);
    assert_eq!(resumed.final_fitness, expected.final_fitness);
    assert_eq!(resumed.completed_iterations, expected.completed_iterations);
    assert_eq!(resumed.tried_candidates, expected.tried_candidates);
    assert_eq!(format!("{:?}", resumed.final_target), format!("{:?}", expected.final_target));
    assert_eq!(format!("{:?}", resumed.final_control), format!("{:?}", expected.final_control));
    assert_eq!(second.flipped, whole.flipped);
}

#[test]
fn a_foreign_checkpoint_is_refused_before_any_flip() {
    let mut backend = Values::new(&[1.0, 1.0, 1.0], &[0.0, 0.0, 0.0]);
    let mut host = Watched::new(Host { keeps: true, stop_after: Some(1), ..Host::new() });
    assert!(
        run_search(&mut backend, &mut host, &targets(), &controls(), small_config(), None).is_err()
    );
    let checkpoint = host.into_host().checkpoints.remove(0);
    let mut other = Values::new(&[1.0, 1.0, 1.0], &[0.0, 0.0, 0.0]);
    let config = SearchConfig { seed: 7, ..small_config() };
    assert!(matches!(
        run_search(
            &mut other,
            &mut watched(),
            &targets(),
            &controls(),
            config,
            Some(checkpoint),
        ),
        Err(Error::IncompatibleCheckpoint(_))
    ));
    assert_eq!(other.flips, 0);
}

#[test]
fn a_failed_measurement_flips_the_row_back() {
    let mut backend = Values::new(&[1.0, 1.0, 1.0], &[0.0, 0.0, 0.0]);
    backend.broken_gap = Some(5);
    assert!(matches!(
        search(&mut backend, small_config()),
        Err(Error::Backend(text)) if text == "gap"
    ));
    assert!(backend.flipped.is_empty());
    assert_eq!(backend.flips, 2);

    let mut backend = Values::new(&[1.0, 1.0, 1.0], &[0.0, 0.0, 0.0]);
    backend.broken_gap = Some(5);
    backend.broken_flips = vec![2];
    assert!(matches!(
        search(&mut backend, small_config()),
        Err(Error::RestorationFailed { operation, .. })
            if operation == "failed candidate evaluation"
    ));
}

#[test]
fn a_row_that_cannot_be_flipped_ends_the_search() {
    let mut backend = Values::new(&[1.0, 1.0, 1.0], &[0.0, 0.0, 0.0]);
    backend.broken_flips = vec![1];
    assert!(matches!(
        search(&mut backend, small_config()),
        Err(Error::Backend(text)) if text == "flip 1"
    ));
    assert_eq!(backend.flips, 1);
}

#[test]
fn a_rejected_row_that_stays_flipped_is_reported() {
    for (worth, occasion) in [(-1.0, "screened candidate"), (1.0, "rejected candidate")] {
        let mut backend = Values::new(&[worth; 3], &[9.0; 3]);
        backend.broken_flips = vec![2];
        assert!(matches!(
            search(&mut backend, small_config()),
            Err(Error::RestorationFailed { operation, .. }) if operation == occasion
        ));
    }
}

#[test]
fn a_fitness_that_cannot_be_computed_flips_the_row_back() {
    let mut backend = Values::new(&[1.0; 3], &[0.0; 3]);
    let mut session =
        SearchSession::begin(&mut backend, targets(), controls(), small_config(), None).unwrap();
    session.take(Some(0));
    let reading = session.evaluate(&mut backend).unwrap();
    assert!(matches!(reading, CandidateReading::Measured { .. }));
    let worth = judge(&reading, Err(Error::MeasurementMismatch("no".to_owned())));
    assert!(matches!(
        session.settle(&mut backend, worth),
        Err(Error::MeasurementMismatch(text)) if text == "no"
    ));
    assert!(backend.flipped.is_empty());
}

#[test]
fn a_pick_that_is_not_on_offer_counts_as_none() {
    struct Wild(Host<'static>);
    impl SearchHost for Wild {
        fn cancelled(&mut self) -> bool {
            false
        }
        fn weigh(&mut self, draw: &Draw) -> Option<usize> {
            Some(draw.weights.len())
        }
        fn fitness(
            &mut self,
            mode: FitnessMode,
            control_penalty: Binary32,
            target: &[ProbeMeasurement],
            control: &[ProbeMeasurement],
            target_baseline: &[ProbeMeasurement],
            control_baseline: &[ProbeMeasurement],
        ) -> Result<Binary32, Error> {
            self.0.fitness(mode, control_penalty, target, control, target_baseline, control_baseline)
        }
        fn save(&mut self, checkpoint: &SearchCheckpoint) -> Result<bool, Error> {
            self.0.save(checkpoint)
        }
        fn on_event(&mut self, event: &SearchEvent) {
            self.0.on_event(event);
        }
    }
    let mut backend = Values::new(&[1.0; 3], &[0.0; 3]);
    let mut host = Watched::new(Wild(Host::new()));
    let result =
        run_search(&mut backend, &mut host, &targets(), &controls(), small_config(), None).unwrap();
    let order: Vec<usize> = result.patch.flips.iter().map(|flip| flip.row).collect();
    // The random numbers leave 1 of three, 1 of two and 0 of one.
    assert_eq!(order, vec![1, 2, 0]);
}

#[test]
fn readings_are_judged() {
    let target = || vec![];
    let measured = CandidateReading::Measured { target: target(), control: target() };
    assert!(matches!(
        judge(&measured, Ok(number(1.5))),
        Ok(CandidateEvaluation::Measured { fitness }) if fitness == number(1.5)
    ));
    assert!(matches!(
        judge(&CandidateReading::ScreenedOut, Ok(number(1.5))),
        Ok(CandidateEvaluation::ScreenedOut)
    ));
    assert!(matches!(
        judge(&CandidateReading::NonFinite, Ok(number(1.5))),
        Ok(CandidateEvaluation::Measured { fitness }) if fitness.is_nan()
    ));
}

fn refusal(config: SearchConfig, targets: &[CompiledProbe], controls: &[CompiledProbe]) -> Error {
    let mut backend = Values::new(&[1.0; 3], &[0.0; 3]);
    match run_search(&mut backend, &mut watched(), targets, controls, config, None) {
        Err(error) => {
            assert_eq!(backend.gaps, 0);
            error
        }
        Ok(_) => panic!("the search must be refused"),
    }
}

#[test]
fn searches_that_cannot_be_run_are_refused() {
    let text = |error: Error| match error {
        Error::InvalidSearch(text) => text,
        other => panic!("unexpected {other:?}"),
    };
    assert_eq!(
        text(refusal(small_config(), &[], &controls())),
        "target and control probes must both be non-empty"
    );
    let no_projections = SearchConfig { search_projections: Vec::new(), ..small_config() };
    assert_eq!(
        text(refusal(no_projections, &targets(), &controls())),
        "search layers and projections must both be non-empty"
    );
    let no_iterations = SearchConfig { max_iters: 0, ..small_config() };
    assert_eq!(
        text(refusal(no_iterations, &targets(), &controls())),
        "max_iters must be greater than zero"
    );
    let no_screen = SearchConfig { screen_probe_count: 0, ..small_config() };
    assert_eq!(
        text(refusal(no_screen, &targets(), &controls())),
        "screen_probe_count must be greater than zero"
    );
    for penalty in [-1.0, f32::NAN, f32::INFINITY] {
        let config = SearchConfig { control_penalty: number(penalty), ..small_config() };
        assert_eq!(
            text(refusal(config, &targets(), &controls())),
            "control penalty must be finite and non-negative"
        );
    }
    let deep = SearchConfig { search_layers: vec![0, 3], ..small_config() };
    assert!(matches!(
        refusal(deep, &targets(), &controls()),
        Error::MissingTensor(at) if at == "L3.gate_proj"
    ));
}

#[test]
fn a_tensor_must_have_one_scale_for_each_row() {
    let mut backend = Values::new(&[1.0; 3], &[0.0; 3]);
    backend.scales = vec![1.0; 2];
    assert!(matches!(
        search(&mut backend, small_config()),
        Err(Error::InvalidSearch(text)) if text == "L0.gate_proj returned 2 scales for 3 rows"
    ));
}

#[test]
fn without_layers_the_whole_model_is_searched() {
    let mut backend = Values::new(&[0.0; 3], &[0.0; 3]);
    let config = SearchConfig { search_layers: Vec::new(), max_iters: 1, ..small_config() };
    let session =
        SearchSession::begin(&mut backend, targets(), controls(), config, None).unwrap();
    assert_eq!(session.config().search_layers, vec![0]);
    assert_eq!(session.checkpoint().config.search_layers, vec![0]);
}

fn map_of(layers: usize, rows: u64) -> ArchitectureMap {
    let mut descriptors: Vec<TensorDescriptor> = Vec::new();
    for layer in 0..layers {
        for part in ["gate", "up", "down"] {
            descriptors.push(TensorDescriptor {
                name: format!("blk.{layer}.ffn_{part}.weight"),
                type_id: 41,
                type_label: "Q1_0".to_owned(),
                dimensions: [128, rows, 1, 1],
                strides: [18, 18, 0, 0],
                n_dims: 2,
                nbytes: 18 * rows as usize,
                backend: "fake".to_owned(),
            });
        }
    }
    ArchitectureMap::discover(&descriptors).unwrap()
}

/// A model that shows another map and label once it has answered some requests.
struct Shifting {
    first: ArchitectureMap,
    second: ArchitectureMap,
    shifts_at: usize,
    requests: usize,
}

impl MiyagiBackend for Shifting {
    fn architecture(&self) -> &ArchitectureMap {
        if self.requests < self.shifts_at {
            &self.first
        } else {
            &self.second
        }
    }

    fn model_label(&self) -> &str {
        if self.requests < self.shifts_at {
            "before"
        } else {
            "after"
        }
    }

    fn tokenize(&self, _text: &str) -> Result<Vec<i32>, Error> {
        Ok(vec![1])
    }

    fn row_scales(&mut self, layer: usize, projection: Projection) -> Result<Vec<Binary32>, Error> {
        let rows = self.architecture().tensor(layer, projection)?.rows;
        self.requests += 1;
        Ok(vec![number(1.0); rows])
    }

    fn flip_row(&mut self, _layer: usize, _projection: Projection, _row: usize) -> Result<(), Error> {
        self.requests += 1;
        Ok(())
    }

    fn logit_gap(&mut self, _prompt: &[i32], _correct: i32, _wrong: i32) -> Result<Binary32, Error> {
        self.requests += 1;
        Ok(number(0.0))
    }

    fn generate(&mut self, _prompt: &str, _config: &GenerateConfig) -> Result<String, Error> {
        Ok(String::new())
    }
}

#[test]
fn the_map_is_looked_at_before_each_request_for_scales() {
    let config = SearchConfig { search_layers: vec![0, 1], ..small_config() };
    let mut backend =
        Shifting { first: map_of(2, 3), second: map_of(2, 5), shifts_at: 1, requests: 0 };
    let session =
        SearchSession::begin(&mut backend, targets(), controls(), config.clone(), None).unwrap();
    assert_eq!(session.offer().unwrap().weights.len(), 8);

    let mut backend =
        Shifting { first: map_of(2, 3), second: map_of(1, 3), shifts_at: 1, requests: 0 };
    assert!(matches!(
        SearchSession::begin(&mut backend, targets(), controls(), config, None),
        Err(Error::MissingTensor(text)) if text == "L1.gate_proj"
    ));
    assert_eq!(backend.requests, 1);
}

#[test]
fn the_signature_and_the_label_are_those_after_the_baselines() {
    let mut backend =
        Shifting { first: map_of(1, 3), second: map_of(2, 3), shifts_at: 2, requests: 0 };
    let session =
        SearchSession::begin(&mut backend, targets(), controls(), small_config(), None).unwrap();
    let checkpoint = session.checkpoint();
    assert_eq!(checkpoint.model_label, "after");
    assert_eq!(checkpoint.architecture_signature, map_of(2, 3).signature());
    assert_ne!(checkpoint.architecture_signature, map_of(1, 3).signature());
}

#[test]
fn candidates_of_a_missing_tensor_are_refused() {
    let mut backend = FakeBackend::new();
    assert!(matches!(
        build_candidates(&mut backend, &[(0, Projection::Gate), (4, Projection::Up)]),
        Err(Error::MissingTensor(text)) if text == "L4.up_proj"
    ));
    assert_eq!(build_candidates(&mut backend, &[(0, Projection::Gate)]).unwrap().len(), 3);
}

#[test]
fn searches_with_the_same_answers_are_the_same() {
    let mut courses: Vec<String> = Vec::new();
    for _ in 0..2 {
        let mut backend = Values::new(&[0.5, -1.0, 0.25], &[0.0, 0.1, 0.0]);
        let mut host = Watched::new(Host { keeps: true, ..Host::new() });
        let result =
            run_search(&mut backend, &mut host, &targets(), &controls(), small_config(), None)
                .unwrap();
        let host = host.into_host();
        courses.push(format!(
            "{:?} {:?} {} {} {:?} {:?}",
            result.patch.flips,
            result.final_fitness,
            result.completed_iterations,
            result.screened_out,
            host.events,
            backend.asked,
        ));
    }
    assert_eq!(courses[0], courses[1]);
}

#[test]
fn no_layers_stand_for_the_default_ones() {
    let unnamed = SearchConfig { search_layers: Vec::new(), ..small_config() };
    let named = SearchConfig { search_layers: default_search_layers(1), ..small_config() };
    let mut courses: Vec<String> = Vec::new();
    let mut kept: Vec<SearchCheckpoint> = Vec::new();
    for config in [unnamed.clone(), named.clone()] {
        let mut backend = Values::new(&[0.5, -1.0, 0.25], &[0.0; 3]);
        let mut host = Watched::new(Host { keeps: true, ..Host::new() });
        let result =
            run_search(&mut backend, &mut host, &targets(), &controls(), config, None).unwrap();
        let mut host = host.into_host();
        courses.push(format!("{:?} {:?} {:?}", result.patch.flips, host.events, backend.asked));
        kept.push(host.checkpoints.remove(0));
    }
    assert_eq!(courses[0], courses[1]);
    for checkpoint in &kept {
        assert_eq!(checkpoint.config.search_layers, named.search_layers);
        for config in [unnamed.clone(), named.clone()] {
            let mut backend = Values::new(&[0.5, -1.0, 0.25], &[0.0; 3]);
            let resumed = run_search(
                &mut backend,
                &mut watched(),
                &targets(),
                &controls(),
                config,
                Some(checkpoint.clone()),
            );
            assert_eq!(resumed.unwrap().completed_iterations, 3);
        }
    }
}
