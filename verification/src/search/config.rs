//! What a search is asked to do.

use vstd::prelude::*;

use crate::architecture::{ArchitectureMap, ArchitectureModel, Projection};
use crate::error::{Error, ErrorModel};
use crate::fitness::FitnessMode;
use crate::float::Binary32;

verus! {

#[derive(Debug)]
pub struct SearchConfig {
    /// The layers to look at. Without any, the model's depth decides.
    pub search_layers: Vec<usize>,
    pub search_projections: Vec<Projection>,
    pub max_iters: usize,
    pub control_penalty: Binary32,
    pub fitness_mode: FitnessMode,
    pub seed: u64,
    pub screen_probe_count: usize,
    pub patch_name: String,
    pub patch_description: String,
    pub base_model: String,
}

pub struct ConfigModel {
    pub search_layers: Seq<usize>,
    pub search_projections: Seq<Projection>,
    pub max_iters: usize,
    pub control_penalty: Binary32,
    pub fitness_mode: FitnessMode,
    pub seed: u64,
    pub screen_probe_count: usize,
    pub patch_name: Seq<char>,
    pub patch_description: Seq<char>,
    pub base_model: Seq<char>,
}

impl View for SearchConfig {
    type V = ConfigModel;

    open spec fn view(&self) -> ConfigModel {
        ConfigModel {
            search_layers: self.search_layers@,
            search_projections: self.search_projections@,
            max_iters: self.max_iters,
            control_penalty: self.control_penalty,
            fitness_mode: self.fitness_mode,
            seed: self.seed,
            screen_probe_count: self.screen_probe_count,
            patch_name: self.patch_name@,
            patch_description: self.patch_description@,
            base_model: self.base_model@,
        }
    }
}

impl Default for SearchConfig {
    fn default() -> (r: SearchConfig)
        ensures
            r@ == (ConfigModel {
                search_layers: seq![],
                search_projections: seq![Projection::Gate, Projection::Up],
                max_iters: 200,
                // The number 2.
                control_penalty: (Binary32 { bits: 0x4000_0000 }),
                fitness_mode: FitnessMode::Mean,
                seed: 42,
                screen_probe_count: 2,
                patch_name: "untitled"@,
                patch_description: seq![],
                base_model: "unknown"@,
            }),
    {
        let mut search_projections: Vec<Projection> = Vec::new();
        search_projections.push(Projection::Gate);
        search_projections.push(Projection::Up);
        assert(search_projections@ =~= seq![Projection::Gate, Projection::Up]);
        SearchConfig {
            search_layers: Vec::new(),
            search_projections,
            max_iters: 200,
            control_penalty: Binary32 { bits: 0x4000_0000 },
            fitness_mode: FitnessMode::Mean,
            seed: 42,
            screen_probe_count: 2,
            patch_name: "untitled".to_owned(),
            patch_description: String::new(),
            base_model: "unknown".to_owned(),
        }
    }
}

impl Clone for SearchConfig {
    fn clone(&self) -> (r: SearchConfig)
        ensures
            r@ == self@,
    {
        let search_layers: Vec<usize> = self.search_layers.clone();
        let search_projections: Vec<Projection> = self.search_projections.clone();
        assert(search_layers@ =~= self.search_layers@);
        assert(search_projections@ =~= self.search_projections@);
        SearchConfig {
            search_layers,
            search_projections,
            max_iters: self.max_iters,
            control_penalty: self.control_penalty,
            fitness_mode: self.fitness_mode,
            seed: self.seed,
            screen_probe_count: self.screen_probe_count,
            patch_name: self.patch_name.clone(),
            patch_description: self.patch_description.clone(),
            base_model: self.base_model.clone(),
        }
    }
}

impl ConfigModel {
    /// The configuration with its layers settled for a model.
    pub open spec fn resolved(self, layer_count: nat) -> ConfigModel {
        ConfigModel {
            search_layers: crate::search::layers::resolved_layers(layer_count, self.search_layers),
            ..self
        }
    }

    /// The coordinates to look at: each projection of the first layer, then of the
    /// second, and so on.
    pub open spec fn coordinates(self) -> Seq<(usize, Projection)> {
        let width = self.search_projections.len();
        Seq::new(
            self.search_layers.len() * width,
            |i: int| (self.search_layers[i / width as int], self.search_projections[i % width as int]),
        )
    }

    /// The two configurations ask for the same search, but for the number of
    /// iterations.
    pub open spec fn agrees(self, other: ConfigModel) -> bool {
        &&& self.search_layers == other.search_layers
        &&& self.search_projections == other.search_projections
        &&& self.control_penalty.same(other.control_penalty)
        &&& self.fitness_mode == other.fitness_mode
        &&& self.seed == other.seed
        &&& self.screen_probe_count == other.screen_probe_count
        &&& self.patch_name == other.patch_name
        &&& self.patch_description == other.patch_description
        &&& self.base_model == other.base_model
    }

    /// What is wrong with a search of this configuration over a model, with so many
    /// target and control probes.
    pub open spec fn fault(self, map: ArchitectureModel, targets: nat, controls: nat) -> Option<
        ErrorModel,
    > {
        if targets == 0 || controls == 0 {
            Some(ErrorModel::InvalidSearch("target and control probes must both be non-empty"@))
        } else if self.search_layers.len() == 0 || self.search_projections.len() == 0 {
            Some(
                ErrorModel::InvalidSearch("search layers and projections must both be non-empty"@),
            )
        } else if self.max_iters == 0 {
            Some(ErrorModel::InvalidSearch("max_iters must be greater than zero"@))
        } else if self.screen_probe_count == 0 {
            Some(ErrorModel::InvalidSearch("screen_probe_count must be greater than zero"@))
        } else if !self.control_penalty.finite() || self.control_penalty.units() < 0 {
            Some(ErrorModel::InvalidSearch("control penalty must be finite and non-negative"@))
        } else {
            missing(map, self.coordinates(), 0)
        }
    }
}

/// The complaint about a coordinate that the map does not have.
pub open spec fn absent(map: ArchitectureModel, coordinate: (usize, Projection)) -> Option<
    ErrorModel,
> {
    if coordinate.0 >= map.layer_count {
        Some(
            ErrorModel::MissingTensor(
                crate::architecture::coordinate_text(coordinate.0 as nat, coordinate.1),
            ),
        )
    } else {
        None
    }
}

/// The complaint about the first coordinate, from `from` on, that the map does
/// not have.
pub open spec fn missing(
    map: ArchitectureModel,
    coordinates: Seq<(usize, Projection)>,
    from: int,
) -> Option<ErrorModel>
    decreases coordinates.len() - from,
{
    if from < 0 || from >= coordinates.len() {
        None
    } else if absent(map, coordinates[from]) is Some {
        absent(map, coordinates[from])
    } else {
        missing(map, coordinates, from + 1)
    }
}

pub proof fn lemma_none_missing(
    map: ArchitectureModel,
    coordinates: Seq<(usize, Projection)>,
    from: int,
)
    requires
        0 <= from,
    ensures
        missing(map, coordinates, from) is None <==> forall|i: int|
            from <= i < coordinates.len() ==> (#[trigger] coordinates[i]).0 < map.layer_count,
    decreases coordinates.len() - from,
{
    if from < coordinates.len() {
        lemma_none_missing(map, coordinates, from + 1);
    }
}

fn same_numbers(a: &[usize], b: &[usize]) -> (r: bool)
    ensures
        r == (a@ == b@),
{
    if a.len() != b.len() {
        return false;
    }
    let mut next: usize = 0;
    while next < a.len()
        invariant
            next <= a@.len(),
            a@.len() == b@.len(),
            forall|i: int| 0 <= i < next ==> a@[i] == b@[i],
        decreases a@.len() - next,
    {
        if a[next] != b[next] {
            return false;
        }
        next = next + 1;
    }
    assert(a@ =~= b@);
    true
}

fn same_projections(a: &[Projection], b: &[Projection]) -> (r: bool)
    ensures
        r == (a@ == b@),
{
    if a.len() != b.len() {
        return false;
    }
    let mut next: usize = 0;
    while next < a.len()
        invariant
            next <= a@.len(),
            a@.len() == b@.len(),
            forall|i: int| 0 <= i < next ==> a@[i] == b@[i],
        decreases a@.len() - next,
    {
        if a[next] != b[next] {
            return false;
        }
        next = next + 1;
    }
    assert(a@ =~= b@);
    true
}

impl SearchConfig {
    /// Whether the two configurations ask for the same search, but for the number
    /// of iterations.
    pub fn agrees_with(&self, other: &SearchConfig) -> (r: bool)
        ensures
            r == self@.agrees(other@),
    {
        same_numbers(self.search_layers.as_slice(), other.search_layers.as_slice())
            && same_projections(
            self.search_projections.as_slice(),
            other.search_projections.as_slice(),
        ) && self.control_penalty.equals(other.control_penalty) && self.fitness_mode
            == other.fitness_mode && self.seed == other.seed && self.screen_probe_count
            == other.screen_probe_count && self.patch_name == other.patch_name
            && self.patch_description == other.patch_description && self.base_model
            == other.base_model
    }

    /// The coordinates to look at, in order.
    pub fn coordinates(&self) -> (r: Vec<(usize, Projection)>)
        ensures
            r@ == self@.coordinates(),
    {
        let ghost all = self@.coordinates();
        let ghost width = self.search_projections@.len() as int;
        let mut out: Vec<(usize, Projection)> = Vec::new();
        let mut layer: usize = 0;
        while layer < self.search_layers.len()
            invariant
                layer <= self.search_layers@.len(),
                width == self.search_projections@.len(),
                all == self@.coordinates(),
                out@.len() == layer * width,
                forall|i: int| 0 <= i < out@.len() ==> #[trigger] out@[i] == all[i],
                out@.len() <= all.len(),
            decreases self.search_layers@.len() - layer,
        {
            let mut projection: usize = 0;
            assert((layer + 1) * width == layer * width + width) by (nonlinear_arith);
            assert((layer + 1) * width <= self.search_layers@.len() * width) by (nonlinear_arith)
                requires
                    layer + 1 <= self.search_layers@.len(),
                    width >= 0,
            ;
            while projection < self.search_projections.len()
                invariant
                    projection <= self.search_projections@.len(),
                    layer < self.search_layers@.len(),
                    width == self.search_projections@.len(),
                    all == self@.coordinates(),
                    out@.len() == layer * width + projection,
                    (layer + 1) * width == layer * width + width,
                    (layer + 1) * width <= self.search_layers@.len() * width,
                    forall|i: int| 0 <= i < out@.len() ==> #[trigger] out@[i] == all[i],
                decreases self.search_projections@.len() - projection,
            {
                proof {
                    let i = layer * width + projection;
                    vstd::arithmetic::div_mod::lemma_fundamental_div_mod_converse(
                        i,
                        width,
                        layer as int,
                        projection as int,
                    );
                }
                out.push((self.search_layers[layer], self.search_projections[projection]));
                projection = projection + 1;
            }
            layer = layer + 1;
        }
        assert(out@ =~= all);
        out
    }
}

/// Refuses a search that cannot be run.
pub fn validate_config(
    architecture: &ArchitectureMap,
    targets: usize,
    controls: usize,
    config: &SearchConfig,
) -> (r: Result<(), Error>)
    ensures
        match config@.fault(architecture@, targets as nat, controls as nat) {
            None => r is Ok,
            Some(error) => r matches Err(e) && e@ == error,
        },
{
    if targets == 0 || controls == 0 {
        return Err(
            Error::InvalidSearch("target and control probes must both be non-empty".to_owned()),
        );
    }
    if config.search_layers.len() == 0 || config.search_projections.len() == 0 {
        return Err(
            Error::InvalidSearch("search layers and projections must both be non-empty".to_owned()),
        );
    }
    if config.max_iters == 0 {
        return Err(Error::InvalidSearch("max_iters must be greater than zero".to_owned()));
    }
    if config.screen_probe_count == 0 {
        return Err(Error::InvalidSearch("screen_probe_count must be greater than zero".to_owned()));
    }
    if !config.control_penalty.is_finite() || Binary32::zero().is_greater_than(
        config.control_penalty,
    ) {
        return Err(
            Error::InvalidSearch("control penalty must be finite and non-negative".to_owned()),
        );
    }
    let coordinates: Vec<(usize, Projection)> = config.coordinates();
    let mut next: usize = 0;
    while next < coordinates.len()
        invariant
            next <= coordinates@.len(),
            coordinates@ == config@.coordinates(),
            config@.fault(architecture@, targets as nat, controls as nat) == missing(
                architecture@,
                coordinates@,
                next as int,
            ),
        decreases coordinates@.len() - next,
    {
        let (layer, projection) = coordinates[next];
        if let Err(error) = architecture.tensor(layer, projection) {
            return Err(error);
        }
        next = next + 1;
    }
    Ok(())
}

} // verus!
