//! Which layers a search looks at where nobody says.

use vstd::prelude::*;

verus! {

/// The most layers that are looked at without being asked for.
pub const MAX_DEFAULT_LAYERS: usize = 12;

/// The layer at one of the twelve points that are spread evenly from layer 1 to
/// the last layer of a model, rounded to the nearest.
pub open spec fn spread_layer(layer_count: nat, point: int) -> int {
    1 + ((layer_count - 2) * point + 5) / 11
}

/// The layers that are looked at without being asked for: all of a small model,
/// twelve of a large one.
pub open spec fn default_layers(layer_count: nat) -> Seq<usize> {
    if layer_count <= MAX_DEFAULT_LAYERS {
        Seq::new(layer_count, |i: int| i as usize)
    } else {
        Seq::new(12, |i: int| spread_layer(layer_count, i) as usize)
    }
}

pub proof fn lemma_spread(layer_count: nat, point: int)
    requires
        layer_count > MAX_DEFAULT_LAYERS,
        0 <= point < 12,
    ensures
        1 <= spread_layer(layer_count, point) < layer_count,
        point < 11 ==> spread_layer(layer_count, point) < spread_layer(layer_count, point + 1),
        point == 0 ==> spread_layer(layer_count, point) == 1,
        point == 11 ==> spread_layer(layer_count, point) == layer_count - 1,
{
    let span = layer_count - 2;
    assert(span * (point + 1) == span * point + span) by (nonlinear_arith);
    assert(0 <= span * point <= span * 11) by (nonlinear_arith)
        requires
            span >= 0,
            0 <= point < 12,
    ;
    if point == 11 {
        assert(span * point == span * 11) by (nonlinear_arith)
            requires
                point == 11,
        ;
    }
    if point == 0 {
        assert(span * point == 0) by (nonlinear_arith)
            requires
                point == 0,
        ;
    }
}

proof fn lemma_spread_grows(layer_count: nat, i: int, j: int)
    requires
        layer_count > MAX_DEFAULT_LAYERS,
        0 <= i < j < 12,
    ensures
        spread_layer(layer_count, i) < spread_layer(layer_count, j),
    decreases j - i,
{
    lemma_spread(layer_count, i);
    if i + 1 < j {
        lemma_spread_grows(layer_count, i + 1, j);
    }
}

/// The layers that are looked at without being asked for are layers of the model,
/// in growing order and each once. A small model is looked at as a whole. In a large
/// one there are twelve, from layer 1 to the last.
pub proof fn law_default_layers_span_the_model(layer_count: nat)
    requires
        layer_count <= usize::MAX,
    ensures
        ({
            let layers = default_layers(layer_count);
            &&& forall|i: int| 0 <= i < layers.len() ==> (#[trigger] layers[i]) < layer_count
            &&& forall|i: int, j: int|
                0 <= i < j < layers.len() ==> (#[trigger] layers[i]) < (#[trigger] layers[j])
            &&& layer_count <= MAX_DEFAULT_LAYERS ==> forall|layer: usize|
                layer < layer_count ==> #[trigger] layers.contains(layer)
            &&& layer_count > MAX_DEFAULT_LAYERS ==> {
                &&& layers.len() == MAX_DEFAULT_LAYERS
                &&& layers[0] == 1
                &&& layers[11] == layer_count - 1
            }
        }),
{
    let layers = default_layers(layer_count);
    if layer_count <= MAX_DEFAULT_LAYERS {
        assert forall|layer: usize| layer < layer_count implies #[trigger] layers.contains(layer) by {
            assert(layers[layer as int] == layer);
        }
    } else {
        assert forall|i: int| 0 <= i < layers.len() implies (#[trigger] layers[i])
            < layer_count && layers[i] == spread_layer(layer_count, i) by {
            lemma_spread(layer_count, i);
        }
        assert forall|i: int, j: int| 0 <= i < j < layers.len() implies (#[trigger] layers[i]) < (
        #[trigger] layers[j]) by {
            lemma_spread_grows(layer_count, i, j);
        }
        lemma_spread(layer_count, 0);
        lemma_spread(layer_count, 11);
    }
}

/// The layers to look at in a model of `layer_count` layers.
///
/// A fixed list would look at the upper end of a deep model only, so the points
/// are spread over the whole depth. A small model is taken as a whole, layer 0
/// included; in a large one layer 0 is left out.
pub fn default_search_layers(layer_count: usize) -> (r: Vec<usize>)
    ensures
        r@ == default_layers(layer_count as nat),
{
    let mut layers: Vec<usize> = Vec::new();
    if layer_count <= MAX_DEFAULT_LAYERS {
        let mut layer: usize = 0;
        while layer < layer_count
            invariant
                layer <= layer_count <= MAX_DEFAULT_LAYERS,
                layers@ == default_layers(layer_count as nat).take(layer as int),
            decreases layer_count - layer,
        {
            layers.push(layer);
            layer = layer + 1;
            assert(layers@ =~= default_layers(layer_count as nat).take(layer as int));
        }
        assert(layers@ =~= default_layers(layer_count as nat));
        return layers;
    }
    let span: u128 = (layer_count - 2) as u128;
    let mut point: u128 = 0;
    while point < 12
        invariant
            point <= 12,
            layer_count > MAX_DEFAULT_LAYERS,
            span == layer_count - 2,
            layers@ == default_layers(layer_count as nat).take(point as int),
        decreases 12 - point,
    {
        assert(span * point <= span * 12) by (nonlinear_arith)
            requires
                span >= 0,
                point < 12,
        ;
        proof {
            lemma_spread(layer_count as nat, point as int);
        }
        layers.push((1 + (span * point + 5) / 11) as usize);
        point = point + 1;
        assert(layers@ =~= default_layers(layer_count as nat).take(point as int));
    }
    assert(layers@ =~= default_layers(layer_count as nat));
    layers
}

/// The layers to look at, from those asked for.
pub open spec fn resolved_layers(layer_count: nat, search_layers: Seq<usize>) -> Seq<usize> {
    if search_layers.len() == 0 {
        default_layers(layer_count)
    } else {
        search_layers
    }
}

/// Takes the default where no layers are asked for.
pub fn resolve_search_layers(layer_count: usize, search_layers: &[usize]) -> (r: Vec<usize>)
    ensures
        r@ == resolved_layers(layer_count as nat, search_layers@),
{
    if search_layers.len() == 0 {
        default_search_layers(layer_count)
    } else {
        let mut out: Vec<usize> = Vec::new();
        out.extend_from_slice(search_layers);
        assert(out@ =~= search_layers@);
        out
    }
}

} // verus!
