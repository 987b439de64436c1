//! The decisions of the command line.

use miyagi::architecture::{ArchitectureMap, Projection, TensorDescriptor, Q1_0_TYPE_ID};
use miyagi::cli::{
    accept_regex, chosen_layers, compile_capture_regex, default_controls, invalid_regex, load_selector,
    load_selectors, parse_projections, patch_info, require_group, tensor_line, unknown_selector,
    ModelArgs,
};
use miyagi::error::Error;
use miyagi::patch::{Patch, PatchFlip, PatchValidation};
use miyagi::probe::{code_probes, knowledge_probes, math_probes, validate_probe_set, Probe};

fn architecture() -> ArchitectureMap {
    let descriptors: Vec<TensorDescriptor> = ["gate", "up", "down"]
        .iter()
        .map(|part| TensorDescriptor {
            name: format!("blk.0.ffn_{part}.weight"),
            type_id: Q1_0_TYPE_ID,
            type_label: "Q1_0".to_owned(),
            dimensions: [128, 3, 1, 1],
            strides: [18, 18, 0, 0],
            n_dims: 2,
            nbytes: 54,
            backend: "CPU".to_owned(),
        })
        .collect();
    ArchitectureMap::discover(&descriptors).unwrap()
}

fn arguments(model: Option<&str>) -> ModelArgs {
    ModelArgs {
        model: model.map(str::to_owned),
        n_ctx: 2048,
        n_batch: 512,
        n_ubatch: 256,
        n_threads: 3,
        n_threads_batch: 4,
        n_gpu_layers: 999,
        add_special: true,
    }
}

#[test]
fn the_model_is_loaded_as_asked() {
    let config = arguments(Some("m.gguf")).config(true);
    assert_eq!(config.n_ctx, 2048);
    assert_eq!(config.n_batch, 512);
    assert_eq!(config.n_ubatch, 256);
    assert_eq!(config.n_threads, 3);
    assert_eq!(config.n_threads_batch, 4);
    assert_eq!(config.n_gpu_layers, 999);
    assert!(config.mutable_tensors);
    assert!(config.add_special);
    assert!(config.parse_special);
    assert!(!arguments(None).config(false).mutable_tensors);
}

#[test]
fn a_model_path_must_be_utf8() {
    assert_eq!(arguments(Some("m.gguf")).model_str().unwrap(), "m.gguf");
    assert!(matches!(
        arguments(None).model_str(),
        Err(Error::InvalidSearch(text)) if text == "model path is not valid UTF-8"
    ));
}

fn probe(name: &str) -> Probe {
    Probe::new("q", "yes", "no", name, "test")
}

#[test]
fn a_selector_is_a_built_in_set_or_a_file() {
    assert_eq!(load_selector("math", None).unwrap().len(), math_probes().len());
    assert_eq!(
        load_selector("math", Some(Ok(vec![probe("mine")]))).unwrap().len(),
        math_probes().len()
    );
    assert_eq!(load_selector("mine.json", Some(Ok(vec![probe("mine")]))).unwrap()[0].name, "mine");
    assert!(matches!(
        load_selector("mine.json", Some(Err(Error::EmptyProbeSet))),
        Err(Error::EmptyProbeSet)
    ));
    assert!(matches!(
        load_selector("no \"such\"\n", None),
        Err(Error::InvalidSearch(text)) if text == "unknown probe selector \"no \\\"such\\\"\\n\""
    ));
    assert!(matches!(
        unknown_selector("\"x\""),
        Error::InvalidSearch(text) if text == "unknown probe selector \"x\""
    ));
}

#[test]
fn selectors_are_joined_in_order() {
    let joined = load_selectors(vec![
        Ok(vec![probe("a"), probe("b")]),
        Ok(Vec::new()),
        Ok(vec![probe("c")]),
    ])
    .unwrap();
    let names: Vec<&str> = joined.iter().map(|probe| probe.name.as_str()).collect();
    assert_eq!(names, vec!["a", "b", "c"]);
    assert!(matches!(
        load_selectors(vec![
            Ok(vec![probe("a")]),
            Err(Error::EmptyProbeSet),
            Err(Error::SearchCancelled),
        ]),
        Err(Error::EmptyProbeSet)
    ));
    assert!(load_selectors(Vec::new()).unwrap().is_empty());
}

#[test]
fn the_other_built_in_sets_are_the_controls() {
    let controls = default_controls("math").unwrap();
    assert_eq!(controls.len(), code_probes().len() + knowledge_probes().len());
    assert_eq!(controls[0].name, code_probes()[0].name);
    let controls = default_controls("mine.json").unwrap();
    assert_eq!(
        controls.len(),
        math_probes().len() + code_probes().len() + knowledge_probes().len()
    );
    validate_probe_set(&controls).unwrap();
}

#[test]
fn projections_are_read_by_name() {
    let names = ["gate_proj".to_owned(), "down".to_owned()];
    assert_eq!(parse_projections(&names).unwrap(), vec![Projection::Gate, Projection::Down]);
    let names = ["up".to_owned(), "left".to_owned(), "right".to_owned()];
    assert!(matches!(
        parse_projections(&names),
        Err(Error::InvalidProjection(name)) if name == "left"
    ));
}

#[test]
fn named_layers_win_over_the_default() {
    assert_eq!(chosen_layers(Some(vec![5]), 64), vec![5]);
    assert_eq!(chosen_layers(Some(Vec::new()), 64), Vec::<usize>::new());
    assert_eq!(chosen_layers(None, 3), vec![0, 1, 2]);
}

#[test]
fn a_pattern_must_capture_something() {
    let regex = compile_capture_regex(r"####\s*([\-\d,]+)").unwrap();
    assert_eq!(regex.as_str(), r"####\s*([\-\d,]+)");
    assert_eq!(&regex.captures("#### 12").unwrap()[1], "12");
    assert!(matches!(
        compile_capture_regex(r"\d+"),
        Err(Error::MissingRegexCapture(pattern)) if pattern == r"\d+"
    ));
    assert!(matches!(
        compile_capture_regex(r"(?:\d+)"),
        Err(Error::MissingRegexCapture(_))
    ));
    match compile_capture_regex("(") {
        Err(Error::InvalidSearch(text)) => {
            assert!(text.starts_with("invalid regex \"(\": "));
            assert!(text.contains("unclosed group"));
        }
        other => panic!("unexpected {other:?}"),
    }
}

#[test]
fn the_complaints_about_patterns_are_exact() {
    assert!(matches!(
        invalid_regex("\"(\"", "why"),
        Error::InvalidSearch(text) if text == "invalid regex \"(\": why"
    ));
    assert!(require_group("p", 2).is_ok());
    assert!(matches!(require_group("p", 1), Err(Error::MissingRegexCapture(text)) if text == "p"));
}

#[test]
fn a_tensor_is_shown_in_one_line() {
    let map = architecture();
    assert_eq!(
        tensor_line(map.tensor(0, Projection::Up).unwrap()),
        "  L0.up_proj -> blk.0.ffn_up.weight rows=3 width=128 backend=CPU"
    );
}

#[test]
fn a_patch_is_described_with_and_without_a_model() {
    let patch = |row: usize| {
        Patch::new(
            "p".to_owned(),
            String::new(),
            "m".to_owned(),
            vec![PatchFlip { layer: 0, proj: Projection::Gate, row }],
        )
    };
    let alone = patch_info(patch(9), None, PatchValidation::default()).unwrap();
    assert!(!alone.live_model_validated);
    assert!(alone.logical_bits_flipped.is_none());
    assert!(alone.architecture_signature.is_none());
    let map = architecture();
    let live = patch_info(patch(1), Some(&map), PatchValidation::default()).unwrap();
    assert!(live.live_model_validated);
    assert_eq!(live.logical_bits_flipped, Some(128));
    assert_eq!(live.patch.stats.n_flips, 1);
    assert_eq!(live.patch.stats.logical_bits_flipped, Some(128));
    assert_eq!(live.architecture_signature.as_deref(), Some(map.signature()));
    assert!(matches!(
        patch_info(patch(9), Some(&map), PatchValidation::default()),
        Err(Error::RowOutOfBounds { row: 9, .. })
    ));
}

#[test]
fn what_comes_of_compiling_a_pattern_is_settled() {
    let message = "too large".to_owned();
    match accept_regex("a\"b", Err(message)) {
        Err(Error::InvalidSearch(text)) => {
            assert_eq!(text, "invalid regex \"a\\\"b\": too large");
        }
        other => panic!("{other:?}"),
    }
    let plain = regex::Regex::new("x+").unwrap();
    assert!(matches!(
        accept_regex("x+", Ok(plain)),
        Err(Error::MissingRegexCapture(text)) if text == "x+"
    ));
    let grouped = regex::Regex::new("(x+)y").unwrap();
    assert_eq!(accept_regex("(x+)y", Ok(grouped)).unwrap().as_str(), "(x+)y");
}
