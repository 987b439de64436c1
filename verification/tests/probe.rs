//! Probes and their measurement.

use miyagi::architecture::{ArchitectureMap, Projection, TensorDescriptor, Q1_0_TYPE_ID};
use miyagi::backend::{GenerateConfig, MiyagiBackend, TokenMode};
use miyagi::error::Error;
use miyagi::float::Binary32;
use miyagi::probe::{
    built_in, choose_token, code_probes, compile_probes, default_category, knowledge_probes,
    math_probes, measure_probes, measure_probes_allowing_non_finite, validate_probe_set,
    CompiledProbe, Probe,
};

fn number(value: f32) -> Binary32 {
    Binary32 { bits: value.to_bits() }
}

struct Echo {
    architecture: ArchitectureMap,
    gaps: Vec<f32>,
    asked: Vec<(Vec<i32>, i32, i32)>,
}

impl Echo {
    fn new(gaps: Vec<f32>) -> Self {
        let descriptors: Vec<TensorDescriptor> = ["gate", "up", "down"]
            .iter()
            .map(|part| TensorDescriptor {
                name: format!("blk.0.ffn_{part}.weight"),
                type_id: Q1_0_TYPE_ID,
                type_label: "Q1_0".to_owned(),
                dimensions: [128, 3, 1, 1],
                strides: [18, 18, 0, 0],
                n_dims: 2,
                nbytes: 54,
                backend: "fake".to_owned(),
            })
            .collect();
        Self {
            architecture: ArchitectureMap::discover(&descriptors).unwrap(),
            gaps,
            asked: Vec::new(),
        }
    }
}

impl MiyagiBackend for Echo {
    fn architecture(&self) -> &ArchitectureMap {
        &self.architecture
    }

    fn model_label(&self) -> &str {
        "echo"
    }

    /// One token for each word.
    fn tokenize(&self, text: &str) -> Result<Vec<i32>, Error> {
        if text == "broken" {
            return Err(Error::Backend("no tokens today".to_owned()));
        }
        Ok(text.split_whitespace().map(|word| word.len() as i32).collect())
    }

    fn row_scales(&mut self, _layer: usize, _projection: Projection) -> Result<Vec<Binary32>, Error> {
        Ok(Vec::new())
    }

    fn flip_row(&mut self, _layer: usize, _projection: Projection, _row: usize) -> Result<(), Error> {
        Ok(())
    }

    fn logit_gap(&mut self, prompt: &[i32], correct: i32, wrong: i32) -> Result<Binary32, Error> {
        self.asked.push((prompt.to_vec(), correct, wrong));
        match self.gaps.get(self.asked.len() - 1) {
            Some(gap) => Ok(number(*gap)),
            None => Err(Error::Backend("no more gaps".to_owned())),
        }
    }

    fn generate(&mut self, _prompt: &str, _config: &GenerateConfig) -> Result<String, Error> {
        Ok(String::new())
    }
}

fn probe(name: &str) -> Probe {
    Probe::new("one two", "yes", "not so", name, "test")
}

fn compiled(name: &str) -> CompiledProbe {
    CompiledProbe { probe: probe(name), prompt_tokens: vec![3, 3], correct_id: 7, wrong_id: 8 }
}

#[test]
fn built_in_names_are_unique() {
    for probes in [math_probes(), code_probes(), knowledge_probes()] {
        validate_probe_set(&probes).unwrap();
    }
}

#[test]
fn built_in_sets_are_found_by_name() {
    assert_eq!(built_in("math").unwrap().len(), math_probes().len());
    assert_eq!(built_in("code").unwrap()[0].name, code_probes()[0].name);
    assert_eq!(built_in("knowledge").unwrap()[0].prompt, knowledge_probes()[0].prompt);
    assert!(built_in("Math").is_none());
    assert!(built_in("").is_none());
}

#[test]
fn a_probe_without_category_is_general() {
    assert_eq!(default_category(), "general");
}

#[test]
fn faulty_sets_are_refused() {
    assert!(matches!(validate_probe_set(&[]), Err(Error::EmptyProbeSet)));
    assert!(matches!(
        validate_probe_set(&[probe("a"), probe("b"), probe("a")]),
        Err(Error::DuplicateProbe(name)) if name == "a"
    ));
    let mut without = vec![probe("a"), probe("b")];
    without[1].wrong_token = String::new();
    assert!(matches!(
        validate_probe_set(&without),
        Err(Error::EmptyProbeField { probe, field: "wrong" }) if probe == "b"
    ));
    without[1].correct_token = String::new();
    assert!(matches!(
        validate_probe_set(&without),
        Err(Error::EmptyProbeField { field: "correct", .. })
    ));
    without[1].prompt = String::new();
    assert!(matches!(
        validate_probe_set(&without),
        Err(Error::EmptyProbeField { field: "prompt", .. })
    ));
    without[1].name = String::new();
    assert!(matches!(
        validate_probe_set(&without),
        Err(Error::EmptyProbeField { field: "name", .. })
    ));
}

#[test]
fn the_last_token_stands_for_an_answer() {
    let tokens = [4, 5, 6];
    assert_eq!(choose_token("p", &tokens, TokenMode::LastTokenCompatibility).unwrap(), 6);
    assert!(matches!(
        choose_token("p", &tokens, TokenMode::StrictSingle),
        Err(Error::AmbiguousAnswerToken { probe, count: 3 }) if probe == "p"
    ));
    assert_eq!(choose_token("p", &[9], TokenMode::StrictSingle).unwrap(), 9);
    assert!(matches!(
        choose_token("p", &[], TokenMode::LastTokenCompatibility),
        Err(Error::EmptyAnswerToken { probe }) if probe == "p"
    ));
}

#[test]
fn probes_are_compiled_into_tokens() {
    let backend = Echo::new(Vec::new());
    let compiled = compile_probes(&backend, &[probe("a")], TokenMode::LastTokenCompatibility).unwrap();
    assert_eq!(compiled.len(), 1);
    assert_eq!(compiled[0].prompt_tokens, vec![3, 3]);
    assert_eq!(compiled[0].correct_id, 3);
    assert_eq!(compiled[0].wrong_id, 2);
    assert!(matches!(
        compile_probes(&backend, &[probe("a")], TokenMode::StrictSingle),
        Err(Error::AmbiguousAnswerToken { count: 2, .. })
    ));
    let blank = Probe::new("   ", "yes", "no", "blank", "test");
    assert!(matches!(
        blank.compile(&backend, TokenMode::StrictSingle),
        Err(Error::EmptyProbeField { field: "tokenized prompt", .. })
    ));
    let broken = Probe::new("broken", "yes", "no", "b", "test");
    assert!(matches!(
        broken.compile(&backend, TokenMode::StrictSingle),
        Err(Error::Backend(_))
    ));
}

#[test]
fn gaps_are_measured_in_order() {
    let mut backend = Echo::new(vec![0.5, -2.0]);
    let measured = measure_probes(&mut backend, &[compiled("a"), compiled("b")]).unwrap();
    assert_eq!(measured[0].name, "a");
    assert_eq!(measured[0].gap, number(0.5));
    assert_eq!(measured[1].name, "b");
    assert_eq!(measured[1].gap, number(-2.0));
    assert_eq!(backend.asked, vec![(vec![3, 3], 7, 8), (vec![3, 3], 7, 8)]);
}

#[test]
fn a_gap_that_is_not_finite_is_reported_or_refused() {
    let mut backend = Echo::new(vec![1.0, f32::NEG_INFINITY]);
    let probes = [compiled("a"), compiled("b")];
    assert!(matches!(
        measure_probes(&mut backend, &probes),
        Err(Error::MeasurementMismatch(text)) if text == "probe b produced non-finite gap -inf"
    ));
    let mut backend = Echo::new(vec![f32::NAN]);
    assert!(matches!(
        measure_probes(&mut backend, &[compiled("a")]),
        Err(Error::MeasurementMismatch(text)) if text == "probe a produced non-finite gap NaN"
    ));
    let mut backend = Echo::new(vec![f32::INFINITY]);
    let measured = measure_probes_allowing_non_finite(&mut backend, &[compiled("a")]).unwrap();
    assert_eq!(measured[0].gap, number(f32::INFINITY));
}

#[test]
fn measuring_ends_with_the_first_failure() {
    let mut backend = Echo::new(vec![1.0]);
    let probes = [compiled("a"), compiled("b"), compiled("c")];
    assert!(matches!(
        measure_probes(&mut backend, &probes),
        Err(Error::Backend(text)) if text == "no more gaps"
    ));
    assert_eq!(backend.asked.len(), 2);
    assert!(matches!(measure_probes(&mut backend, &[]), Err(Error::EmptyProbeSet)));
}
