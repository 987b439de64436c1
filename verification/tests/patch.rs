//! Patches.

use std::collections::BTreeSet;

use miyagi::architecture::{ArchitectureMap, Projection, TensorDescriptor, Q1_0_TYPE_ID};
use miyagi::backend::{GenerateConfig, MiyagiBackend};
use miyagi::error::Error;
use miyagi::float::Binary32;
use miyagi::patch::{
    read_format, MetadataValue, Patch, PatchFlip, PatchStats, PatchValidation,
};
use miyagi::patched::{
    compare_probes, compare_texts, finish_patched_operation, generate_all, generate_patched,
};
use miyagi::probe::{CompiledProbe, Probe};
use miyagi::restore::{apply_coordinates, revert_candidate};

fn architecture() -> ArchitectureMap {
    let descriptors: Vec<TensorDescriptor> = ["gate", "up", "down"]
        .iter()
        .map(|part| TensorDescriptor {
            name: format!("blk.0.ffn_{part}.weight"),
            type_id: Q1_0_TYPE_ID,
            type_label: "Q1_0".to_owned(),
            dimensions: [128, 3, 1, 1],
            strides: [18, 18, 0, 0],
            n_dims: 2,
            nbytes: 54,
            backend: "fake".to_owned(),
        })
        .collect();
    ArchitectureMap::discover(&descriptors).unwrap()
}

/// A model that counts its flips and fails on the ones in `broken`.
struct Counting {
    architecture: ArchitectureMap,
    rows: BTreeSet<(usize, Projection, usize)>,
    flips: usize,
    broken: Vec<usize>,
    broken_gap: Option<usize>,
    gaps: usize,
}

impl Counting {
    fn new(broken: &[usize]) -> Self {
        Self {
            architecture: architecture(),
            rows: BTreeSet::new(),
            flips: 0,
            broken: broken.to_vec(),
            broken_gap: None,
            gaps: 0,
        }
    }
}

impl MiyagiBackend for Counting {
    fn architecture(&self) -> &ArchitectureMap {
        &self.architecture
    }

    fn model_label(&self) -> &str {
        "counting"
    }

    fn tokenize(&self, _text: &str) -> Result<Vec<i32>, Error> {
        Ok(vec![1])
    }

    fn row_scales(&mut self, _layer: usize, _projection: Projection) -> Result<Vec<Binary32>, Error> {
        Ok(Vec::new())
    }

    fn flip_row(&mut self, layer: usize, projection: Projection, row: usize) -> Result<(), Error> {
        self.flips += 1;
        if self.broken.contains(&self.flips) {
            return Err(Error::Backend(format!("flip {}", self.flips)));
        }
        let key = (layer, projection, row);
        if !self.rows.insert(key) {
            self.rows.remove(&key);
        }
        Ok(())
    }

    fn logit_gap(&mut self, _prompt: &[i32], _correct: i32, _wrong: i32) -> Result<Binary32, Error> {
        self.gaps += 1;
        if self.broken_gap == Some(self.gaps) {
            return Err(Error::Backend("gap".to_owned()));
        }
        Ok(Binary32 { bits: (self.rows.len() as f32).to_bits() })
    }

    fn generate(&mut self, prompt: &str, config: &GenerateConfig) -> Result<String, Error> {
        if prompt == "silence" {
            return Err(Error::Backend("text".to_owned()));
        }
        Ok(format!("{prompt}:{}:{}", config.seed, self.rows.len()))
    }
}

fn flip(proj: Projection, row: usize) -> PatchFlip {
    PatchFlip { layer: 0, proj, row }
}

fn patch(flips: Vec<PatchFlip>) -> Patch {
    Patch::new("p".to_owned(), "d".to_owned(), "m".to_owned(), flips)
}

fn some_flips() -> Vec<PatchFlip> {
    vec![flip(Projection::Gate, 0), flip(Projection::Up, 1), flip(Projection::Down, 2)]
}

fn probes() -> Vec<CompiledProbe> {
    vec![CompiledProbe {
        probe: Probe::new("q", "yes", "no", "n", "test"),
        prompt_tokens: vec![1],
        correct_id: 1,
        wrong_id: 2,
    }]
}

#[test]
fn rows_are_flipped_all_or_not_at_all() {
    let mut backend = Counting::new(&[]);
    apply_coordinates(&mut backend, &some_flips(), "op").unwrap();
    assert_eq!(backend.rows.len(), 3);

    let mut backend = Counting::new(&[3]);
    assert!(matches!(
        apply_coordinates(&mut backend, &some_flips(), "op"),
        Err(Error::Backend(text)) if text == "flip 3"
    ));
    assert!(backend.rows.is_empty());
    assert_eq!(backend.flips, 5);

    let mut backend = Counting::new(&[3, 4]);
    match apply_coordinates(&mut backend, &some_flips(), "op") {
        Err(Error::RestorationFailed { operation, source }) => {
            assert_eq!(operation, "op");
            assert!(matches!(*source, Error::Backend(text) if text == "flip 4"));
        }
        other => panic!("unexpected {other:?}"),
    }
    assert_eq!(backend.flips, 4);
}

#[test]
fn a_row_that_cannot_be_flipped_back_is_reported() {
    let mut backend = Counting::new(&[2]);
    revert_candidate(&mut backend, flip(Projection::Gate, 0), "undo").unwrap();
    assert!(matches!(
        revert_candidate(&mut backend, flip(Projection::Gate, 0), "undo"),
        Err(Error::RestorationFailed { operation, .. }) if operation == "undo"
    ));
}

#[test]
fn each_fault_of_a_patch_has_its_error() {
    let map = architecture();
    let refused = |patch: Patch| match patch.validate(&map, PatchValidation::default()) {
        Err(error) => error,
        Ok(_) => panic!("the patch must be refused"),
    };
    let mut old = patch(Vec::new());
    old.version = 2;
    assert!(matches!(refused(old), Error::InvalidPatch(text) if text == "unsupported patch version 2"));
    let mut other = patch(Vec::new());
    other.format = "bits".to_owned();
    assert!(matches!(refused(other), Error::InvalidPatch(text) if text == "unsupported patch format bits"));
    assert!(matches!(
        refused(patch(vec![PatchFlip { layer: 1, proj: Projection::Up, row: 0 }])),
        Error::MissingTensor(at) if at == "L1.up_proj"
    ));
    assert!(matches!(
        refused(patch(vec![flip(Projection::Up, 3)])),
        Error::RowOutOfBounds { coordinate, row: 3, rows: 3 } if coordinate == "L0.up_proj"
    ));
    assert!(matches!(
        refused(patch(vec![flip(Projection::Up, 2), flip(Projection::Up, 2)])),
        Error::DuplicateFlip(at) if at == "L0.up_proj[2]"
    ));
    let mut foreign = patch(some_flips());
    foreign.keep("architecture_signature", MetadataValue::Text("elsewhere".to_owned()));
    assert!(matches!(
        refused(foreign),
        Error::ArchitectureMismatch { expected, actual }
            if expected == "elsewhere" && actual == "fnv1a64:ed2fadbb5c0c0fc5"
    ));
}

#[test]
fn another_architecture_may_be_let_pass() {
    let map = architecture();
    let mut foreign = patch(some_flips());
    foreign.keep("architecture_signature", MetadataValue::Text("elsewhere".to_owned()));
    let validated = foreign
        .validate(&map, PatchValidation { allow_model_signature_mismatch: true })
        .unwrap();
    assert_eq!(validated.logical_bits_flipped(), 3 * 128);
    assert_eq!(validated.patch().flips.len(), 3);
    assert_eq!(validated.into_patch().name, "p");
}

#[test]
fn a_later_entry_replaces_an_earlier_one() {
    let mut kept = patch(Vec::new());
    kept.keep("seed", MetadataValue::Count(1));
    kept.keep("note", MetadataValue::Json("[1]".to_owned()));
    kept.keep("seed", MetadataValue::Count(2));
    assert!(matches!(kept.kept("seed"), Some(MetadataValue::Count(2))));
    assert!(matches!(kept.kept("note"), Some(MetadataValue::Json(text)) if text == "[1]"));
    assert!(kept.kept("missing").is_none());
}

#[test]
fn removing_a_patch_undoes_applying_it() {
    let map = architecture();
    let validated = patch(some_flips()).validate(&map, PatchValidation::default()).unwrap();
    let mut backend = Counting::new(&[]);
    backend.rows.insert((0, Projection::Gate, 0));
    validated.apply(&mut backend).unwrap();
    assert!(!backend.rows.contains(&(0, Projection::Gate, 0)));
    assert_eq!(backend.rows.len(), 2);
    validated.remove(&mut backend).unwrap();
    assert_eq!(backend.rows.len(), 1);
    assert!(backend.rows.contains(&(0, Projection::Gate, 0)));
}

#[test]
fn even_rows_cancel_and_odd_rows_remain() {
    let a = flip(Projection::Gate, 0);
    let b = flip(Projection::Gate, 1);
    let c = flip(Projection::Up, 0);
    let composed = Patch::compose(
        "all".to_owned(),
        &[patch(vec![c, a]), patch(vec![a, b]), patch(vec![b, c]), patch(vec![c])],
    )
    .unwrap();
    assert_eq!(composed.flips, vec![c]);
    assert_eq!(composed.name, "all");
    assert_eq!(composed.base_model, "m");
    assert_eq!(composed.format, "miyagi_row_xor_v1");
    let sorted = Patch::compose("s".to_owned(), &[patch(vec![c]), patch(vec![b, a])]).unwrap();
    assert_eq!(sorted.flips, vec![a, b, c]);
}

#[test]
fn patches_of_different_models_are_not_composed() {
    let mut other = patch(some_flips());
    other.base_model = "n".to_owned();
    assert!(matches!(
        Patch::compose("x".to_owned(), &[patch(Vec::new()), other]),
        Err(Error::IncompatiblePatches(_))
    ));
    assert!(matches!(
        Patch::compose("x".to_owned(), &[]),
        Err(Error::IncompatiblePatches(_))
    ));
}

#[test]
fn probes_are_compared_and_the_model_restored() {
    let map = architecture();
    let validated = patch(some_flips()).validate(&map, PatchValidation::default()).unwrap();
    let mut backend = Counting::new(&[]);
    let (baseline, patched) = compare_probes(&mut backend, &validated, &probes()).unwrap();
    assert_eq!(f32::from_bits(baseline[0].gap.bits), 0.0);
    assert_eq!(f32::from_bits(patched[0].gap.bits), 3.0);
    assert!(backend.rows.is_empty());

    let mut backend = Counting::new(&[]);
    backend.broken_gap = Some(2);
    assert!(matches!(
        compare_probes(&mut backend, &validated, &probes()),
        Err(Error::Backend(text)) if text == "gap"
    ));
    assert!(backend.rows.is_empty());

    let mut backend = Counting::new(&[4]);
    assert!(matches!(
        compare_probes(&mut backend, &validated, &probes()),
        Err(Error::RestorationFailed { operation, .. }) if operation == "patch evaluation"
    ));
}

#[test]
fn texts_are_compared_and_the_model_restored() {
    let map = architecture();
    let validated = patch(some_flips()).validate(&map, PatchValidation::default()).unwrap();
    let config = GenerateConfig { max_new_tokens: 4, seed: 9 };
    let mut backend = Counting::new(&[]);
    let (baseline, patched) = compare_texts(&mut backend, &validated, "hi", &config).unwrap();
    assert_eq!(baseline, "hi:9:0");
    assert_eq!(patched, "hi:9:3");
    assert!(backend.rows.is_empty());

    let mut backend = Counting::new(&[2]);
    assert!(matches!(
        compare_texts(&mut backend, &validated, "hi", &config),
        Err(Error::Backend(text)) if text == "flip 2"
    ));
    assert!(backend.rows.is_empty());

    let mut backend = Counting::new(&[5]);
    assert!(matches!(
        compare_texts(&mut backend, &validated, "hi", &config),
        Err(Error::RestorationFailed { operation, .. }) if operation == "patched generation"
    ));
}

#[test]
fn a_failed_removal_outweighs_the_operation() {
    assert_eq!(finish_patched_operation(Ok(5), Ok(()), "op").unwrap(), 5);
    assert!(matches!(
        finish_patched_operation::<i32>(Err(Error::EmptyProbeSet), Ok(()), "op"),
        Err(Error::EmptyProbeSet)
    ));
    assert!(matches!(
        finish_patched_operation(Ok(5), Err(Error::EmptyProbeSet), "op"),
        Err(Error::RestorationFailed { operation, source })
            if operation == "op" && matches!(*source, Error::EmptyProbeSet)
    ));
}

#[test]
fn a_patch_file_may_name_its_type_instead_of_its_format() {
    let text = |value: &str| Some(value.to_owned());
    assert_eq!(read_format(text("f"), text("row_flip")), "f");
    assert_eq!(read_format(None, text("row_flip")), "miyagi_row_xor_v1");
    assert_eq!(read_format(None, text("bits")), "bits");
    assert_eq!(read_format(None, None), "");
}

fn texts(items: &[&str]) -> Vec<String> {
    items.iter().map(|item| (*item).to_owned()).collect()
}

#[test]
fn texts_are_asked_for_in_turn() {
    let config = GenerateConfig { max_new_tokens: 4, seed: 9 };
    let mut backend = Counting::new(&[]);
    let answers = generate_all(&mut backend, &texts(&["a", "b"]), &config).unwrap();
    assert_eq!(answers, texts(&["a:9:0", "b:9:0"]));
    assert!(generate_all(&mut backend, &[], &config).unwrap().is_empty());
    assert!(matches!(
        generate_all(&mut backend, &texts(&["a", "silence", "b"]), &config),
        Err(Error::Backend(text)) if text == "text"
    ));
}

#[test]
fn texts_of_a_patched_model_leave_it_restored() {
    let map = architecture();
    let validated = patch(some_flips()).validate(&map, PatchValidation::default()).unwrap();
    let config = GenerateConfig { max_new_tokens: 4, seed: 9 };
    let prompts = texts(&["a", "b"]);

    let mut backend = Counting::new(&[]);
    let answers = generate_patched(&mut backend, &validated, &prompts, &config).unwrap();
    assert_eq!(answers, texts(&["a:9:3", "b:9:3"]));
    assert!(backend.rows.is_empty());

    let mut backend = Counting::new(&[]);
    assert!(matches!(
        generate_patched(&mut backend, &validated, &texts(&["a", "silence"]), &config),
        Err(Error::Backend(text)) if text == "text"
    ));
    assert!(backend.rows.is_empty());
    assert_eq!(backend.flips, 6);

    let mut backend = Counting::new(&[2]);
    assert!(matches!(
        generate_patched(&mut backend, &validated, &prompts, &config),
        Err(Error::Backend(text)) if text == "flip 2"
    ));
    assert!(backend.rows.is_empty());

    let mut backend = Counting::new(&[5]);
    assert!(matches!(
        generate_patched(&mut backend, &validated, &texts(&["silence"]), &config),
        Err(Error::RestorationFailed { operation, .. }) if operation == "dataset evaluation"
    ));
}

#[test]
fn a_model_gives_a_patch_its_figures() {
    let map = architecture();
    let mut fresh = patch(some_flips());
    let unknown = PatchStats {
        n_flips: 3,
        logical_bits_flipped: None,
        compact_binary_estimate_bytes: None,
    };
    assert_eq!(fresh.stats, unknown);
    // What a file says of the rows gives way to what the model says.
    fresh.stats = PatchStats {
        n_flips: 7,
        logical_bits_flipped: Some(1),
        compact_binary_estimate_bytes: Some(36),
    };
    let validated = fresh.validate(&map, PatchValidation::default()).unwrap();
    assert_eq!(validated.logical_bits_flipped(), 384);
    let expected = PatchStats {
        n_flips: 3,
        logical_bits_flipped: Some(384),
        compact_binary_estimate_bytes: Some(36),
    };
    assert_eq!(validated.patch().stats, expected);
    let composed =
        Patch::compose("x".to_owned(), &[validated.into_patch(), patch(some_flips())]).unwrap();
    assert_eq!(composed.stats, PatchStats { n_flips: 0, ..unknown });
}
