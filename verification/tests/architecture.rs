//! The map of a model's tensors.

use miyagi::architecture::{ArchitectureMap, Projection, TensorDescriptor, TensorInfo, Q1_0_TYPE_ID};
use miyagi::error::Error;

fn descriptor(name: &str, width: u64, rows: u64) -> TensorDescriptor {
    TensorDescriptor {
        name: name.to_owned(),
        type_id: Q1_0_TYPE_ID,
        type_label: "Q1_0".to_owned(),
        dimensions: [width, rows, 1, 1],
        strides: [18, (width as usize / 128) * 18, 0, 0],
        n_dims: 2,
        nbytes: (width as usize / 128) * 18 * rows as usize,
        backend: "CPU".to_owned(),
    }
}

fn two_layers() -> Vec<TensorDescriptor> {
    let mut descriptors = Vec::new();
    for layer in 0..2 {
        descriptors.push(descriptor(
            &format!("blk.{layer}.ffn_gate.weight"),
            4096,
            12288,
        ));
        descriptors.push(descriptor(
            &format!("blk.{layer}.ffn_up.weight"),
            4096,
            12288,
        ));
        descriptors.push(descriptor(
            &format!("blk.{layer}.ffn_down.weight"),
            12288,
            4096,
        ));
    }
    descriptors
}

#[test]
fn discovers_contiguous_qwen_layers() {
    let descriptors = two_layers();
    let map = ArchitectureMap::discover(&descriptors).unwrap();
    assert_eq!(map.layer_count(), 2);
    assert_eq!(map.tensor(1, Projection::Down).unwrap().rows, 4096);
    assert_eq!(map.tensor(1, Projection::Down).unwrap().width, 12288);
    assert!(map.signature().starts_with("fnv1a64:"));
}

#[test]
fn rejects_sparse_or_incomplete_maps() {
    let descriptors = [descriptor("blk.1.ffn_gate.weight", 4096, 12288)];
    assert!(matches!(
        ArchitectureMap::discover(&descriptors),
        Err(Error::UnsupportedArchitecture(_))
    ));
}

#[test]
fn projection_aliases_round_trip() {
    assert_eq!("gate_proj".parse::<Projection>().unwrap(), Projection::Gate);
    assert_eq!("ffn_up".parse::<Projection>().unwrap(), Projection::Up);
    assert_eq!(
        serde_json::to_string(Projection::Down.projection_name()).unwrap(),
        "\"down_proj\""
    );
}

#[test]
fn signature_is_the_hash_of_the_tensors() {
    let map = ArchitectureMap::discover(&two_layers()).unwrap();
    assert_eq!(map.signature(), "fnv1a64:e96117fb9439f82d");
}

#[test]
fn discovery_ignores_the_order_of_the_tensors() {
    let mut descriptors = two_layers();
    let map = ArchitectureMap::discover(&descriptors).unwrap();
    descriptors.reverse();
    let again = ArchitectureMap::discover(&descriptors).unwrap();
    assert_eq!(map.signature(), again.signature());
    let names: Vec<&str> = again.tensors().iter().map(|tensor| tensor.name.as_str()).collect();
    assert_eq!(
        names,
        vec![
            "blk.0.ffn_gate.weight",
            "blk.0.ffn_up.weight",
            "blk.0.ffn_down.weight",
            "blk.1.ffn_gate.weight",
            "blk.1.ffn_up.weight",
            "blk.1.ffn_down.weight",
        ]
    );
    assert_eq!(again.layers(), 0..2);
}

#[test]
fn tensors_of_other_names_are_passed_over() {
    let mut descriptors = two_layers();
    for name in [
        "token_embd.weight",
        "blk.0.attn_q.weight",
        "blk.x.ffn_up.weight",
        "blk.0.ffn_up.weight.extra",
        "blk..ffn_up.weight",
        "blk.-1.ffn_up.weight",
    ] {
        descriptors.push(descriptor(name, 4096, 4096));
    }
    let map = ArchitectureMap::discover(&descriptors).unwrap();
    assert_eq!(map.signature(), "fnv1a64:e96117fb9439f82d");
}

#[test]
fn a_layer_number_may_carry_a_plus_and_zeros() {
    let mut descriptors = two_layers();
    descriptors[5].name = "blk.+01.ffn_down.weight".to_owned();
    let map = ArchitectureMap::discover(&descriptors).unwrap();
    assert_eq!(
        map.tensor(1, Projection::Down).unwrap().name,
        "blk.+01.ffn_down.weight"
    );
}

fn discovery_error(descriptors: &[TensorDescriptor]) -> Error {
    match ArchitectureMap::discover(descriptors) {
        Err(error) => error,
        Ok(_) => panic!("the map must be refused"),
    }
}

#[test]
fn each_fault_of_a_map_has_its_error() {
    let mut twice = two_layers();
    twice.push(descriptor("blk.0.ffn_up.weight", 4096, 12288));
    assert!(matches!(discovery_error(&twice), Error::DuplicateTensor(at) if at == "L0.up_proj"));

    let mut gap = two_layers();
    gap.remove(4);
    assert!(matches!(discovery_error(&gap), Error::MissingTensor(at) if at == "L1.up_proj"));

    let mut other = two_layers();
    other[1].type_id = 2;
    assert!(matches!(
        discovery_error(&other),
        Error::UnsupportedTensor { coordinate, .. } if coordinate == "L0.up_proj"
    ));

    let none: Vec<TensorDescriptor> = Vec::new();
    assert!(matches!(discovery_error(&none), Error::UnsupportedArchitecture(_)));

    let map = ArchitectureMap::discover(&two_layers()).unwrap();
    assert!(matches!(
        map.tensor(2, Projection::Gate),
        Err(Error::MissingTensor(at)) if at == "L2.gate_proj"
    ));
    assert!(matches!(
        "sideways".parse::<Projection>(),
        Err(Error::InvalidProjection(name)) if name == "sideways"
    ));
}

#[test]
fn projection_names_read_back() {
    for projection in Projection::all() {
        assert_eq!(Projection::parse(projection.projection_name()).unwrap(), projection);
    }
    assert_eq!(Projection::parse("down").unwrap(), Projection::Down);
    assert_eq!(Projection::Up.gguf_suffix(), ".ffn_up.weight");
}

#[test]
fn a_coordinate_names_layer_and_projection() {
    let map = ArchitectureMap::discover(&two_layers()).unwrap();
    let tensor: &TensorInfo = map.tensor(1, Projection::Gate).unwrap();
    assert_eq!(tensor.coordinate(), "L1.gate_proj");
}
