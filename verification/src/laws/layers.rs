//! Which layers are searched.

use vstd::prelude::*;

verus! {

/// The layers of a deep model that are searched without being named are evenly spaced
/// over its whole depth: each is the layer nearest to its point on the line from layer
/// 1 to the last layer, so that the distances of neighbours differ by one at most.
pub proof fn law_default_layers_are_evenly_spaced(layer_count: nat)
    requires
        12 < layer_count <= usize::MAX,
    ensures
        ({
            let layers = crate::search::layers::default_layers(layer_count);
            &&& layers.len() == 12
            &&& forall|i: int|
                0 <= i < 12 ==> {
                    let off = 11 * ((#[trigger] layers[i]) - 1) - i * (layer_count - 2);
                    -5 <= off <= 5
                }
            &&& forall|i: int, j: int|
                #![trigger layers[i], layers[j]]
                0 <= i < 11 && 0 <= j < 11 ==> {
                    let difference = (layers[i + 1] - layers[i]) - (layers[j + 1] - layers[j]);
                    -1 <= difference <= 1
                }
        }),
{
    let layers = crate::search::layers::default_layers(layer_count);
    let span = layer_count - 2;
    assert forall|i: int| 0 <= i < 12 implies {
        let off = 11 * ((#[trigger] layers[i]) - 1) - i * span;
        -5 <= off <= 5
    } by {
        crate::search::layers::lemma_spread(layer_count, i);
        assert(span * i == i * span) by (nonlinear_arith);
        assert(layers[i] == 1 + (span * i + 5) / 11);
    }
    assert forall|i: int, j: int|
        #![trigger layers[i], layers[j]]
        0 <= i < 11 && 0 <= j < 11 implies {
        let difference = (layers[i + 1] - layers[i]) - (layers[j + 1] - layers[j]);
        -1 <= difference <= 1
    } by {
        assert((i + 1) * span == i * span + span) by (nonlinear_arith);
        assert((j + 1) * span == j * span + span) by (nonlinear_arith);
        let a = 11 * (layers[i] - 1) - i * span;
        let b = 11 * (layers[i + 1] - 1) - (i + 1) * span;
        let c = 11 * (layers[j] - 1) - j * span;
        let d = 11 * (layers[j + 1] - 1) - (j + 1) * span;
        assert(-5 <= a <= 5 && -5 <= b <= 5 && -5 <= c <= 5 && -5 <= d <= 5);
    }
}

/// A model of twelve layers or fewer is searched in every layer, each once and in order.
pub proof fn law_shallow_models_are_searched_whole(layer_count: nat)
    requires
        layer_count <= 12,
    ensures
        ({
            let layers = crate::search::layers::default_layers(layer_count);
            &&& layers.len() == layer_count
            &&& forall|i: int| 0 <= i < layer_count ==> #[trigger] layers[i] == i
        }),
{
}

/// Layers that are named are searched as they are named; the others stand in only where
/// none is. Nothing else of a configuration changes.
pub proof fn law_named_layers_are_kept(
    config: crate::search::config::ConfigModel,
    layer_count: nat,
)
    ensures
        ({
            let settled = config.resolved(layer_count);
            &&& config.search_layers.len() > 0 ==> settled.search_layers == config.search_layers
            &&& config.search_layers.len() == 0 ==> settled.search_layers
                == crate::search::layers::default_layers(layer_count)
            &&& settled.search_projections == config.search_projections
            &&& settled.max_iters == config.max_iters
            &&& settled.control_penalty == config.control_penalty
            &&& settled.fitness_mode == config.fitness_mode
            &&& settled.seed == config.seed
            &&& settled.screen_probe_count == config.screen_probe_count
            &&& settled.patch_name == config.patch_name
            &&& settled.patch_description == config.patch_description
            &&& settled.base_model == config.base_model
        }),
{
}

/// Every projection is looked at in every layer: the pairs come layer by layer, and
/// within a layer in the order of the projections.
pub proof fn law_every_pair_is_looked_at(
    config: crate::search::config::ConfigModel,
    layer: int,
    projection: int,
)
    requires
        0 <= layer < config.search_layers.len(),
        0 <= projection < config.search_projections.len(),
    ensures
        ({
            let width = config.search_projections.len() as int;
            let place = layer * width + projection;
            &&& config.coordinates().len() == config.search_layers.len() * width
            &&& 0 <= place < config.coordinates().len()
            &&& config.coordinates()[place] == (
                config.search_layers[layer],
                config.search_projections[projection],
            )
        }),
{
    let width = config.search_projections.len() as int;
    let place = layer * width + projection;
    vstd::arithmetic::div_mod::lemma_fundamental_div_mod_converse(
        place,
        width,
        layer,
        projection,
    );
    assert(0 <= place < config.search_layers.len() * width) by (nonlinear_arith)
        requires
            0 <= layer < config.search_layers.len(),
            0 <= projection < width,
            place == layer * width + projection,
    ;
}

} // verus!
