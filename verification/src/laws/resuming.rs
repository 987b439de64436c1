//! Which searches can be run, and which checkpoints they take up.

use vstd::prelude::*;

use crate::architecture::{ArchitectureModel, Projection};
use crate::error::ErrorModel;
use crate::probe::MeasurementModel;
use crate::search::checkpoint::CheckpointModel;
use crate::search::config::ConfigModel;

verus! {

/// Every setting that decides what a search does is the same in both. The ceiling on the
/// iterations is no such setting, and the penalty counts as a number.
pub open spec fn same_settings(a: ConfigModel, b: ConfigModel) -> bool {
    &&& a.fitness_mode == b.fitness_mode
    &&& a.seed == b.seed
    &&& a.screen_probe_count == b.screen_probe_count
    &&& a.search_layers == b.search_layers
    &&& a.search_projections == b.search_projections
    &&& a.patch_name == b.patch_name
    &&& a.patch_description == b.patch_description
    &&& a.base_model == b.base_model
    &&& a.control_penalty.units() == b.control_penalty.units()
    &&& !a.control_penalty.nan()
    &&& !b.control_penalty.nan()
}

/// Two baselines have the same probes in the same order, and no gap has moved.
pub open spec fn same_baseline(a: Seq<MeasurementModel>, b: Seq<MeasurementModel>) -> bool {
    &&& a.len() == b.len()
    &&& forall|i: int| 0 <= i < a.len() ==> (#[trigger] a[i]).name == b[i].name
    &&& forall|i: int| 0 <= i < a.len() ==> !(#[trigger] a[i]).gap.apart(b[i].gap)
}

/// A checkpoint is taken up exactly if it is of the first version, was written by a
/// search with the same settings on a model of the same architecture with the same
/// baselines, and has done no more iterations than are allowed now.
pub proof fn law_checkpoints_continue_the_same_search(
    checkpoint: CheckpointModel,
    config: ConfigModel,
    signature: Seq<char>,
    target: Seq<MeasurementModel>,
    control: Seq<MeasurementModel>,
)
    ensures
        checkpoint.fault(config, signature, target, control) is None <==> {
            &&& checkpoint.version == 1
            &&& same_settings(checkpoint.config, config)
            &&& checkpoint.completed_iterations <= config.max_iters
            &&& checkpoint.architecture_signature == signature
            &&& same_baseline(checkpoint.target_baseline, target)
            &&& same_baseline(checkpoint.control_baseline, control)
        },
        checkpoint.fault(config, signature, target, control) matches Some(error) ==> error
            is IncompatibleCheckpoint,
{
    lemma_baseline_fault(checkpoint.target_baseline, target);
    lemma_baseline_fault(checkpoint.control_baseline, control);
}

/// An accepted checkpoint agrees with the search in every setting but the ceiling on the
/// iterations.
pub proof fn law_accepted_checkpoints_agree_in_every_setting(
    checkpoint: CheckpointModel,
    config: ConfigModel,
    signature: Seq<char>,
    target: Seq<MeasurementModel>,
    control: Seq<MeasurementModel>,
)
    requires
        checkpoint.fault(config, signature, target, control) is None,
    ensures
        checkpoint.config.search_layers == config.search_layers,
        checkpoint.config.search_projections == config.search_projections,
        checkpoint.config.control_penalty.units() == config.control_penalty.units(),
        checkpoint.config.fitness_mode == config.fitness_mode,
        checkpoint.config.seed == config.seed,
        checkpoint.config.screen_probe_count == config.screen_probe_count,
        checkpoint.config.patch_name == config.patch_name,
        checkpoint.config.patch_description == config.patch_description,
        checkpoint.config.base_model == config.base_model,
        checkpoint.completed_iterations <= config.max_iters,
{
}

proof fn lemma_baseline_fault(expected: Seq<MeasurementModel>, actual: Seq<MeasurementModel>)
    ensures
        crate::search::checkpoint::baseline_fault(expected, actual) is None <==> same_baseline(
            expected,
            actual,
        ),
        crate::search::checkpoint::baseline_fault(expected, actual) matches Some(error) ==> error
            is IncompatibleCheckpoint,
{
    if expected.len() == actual.len() {
        lemma_drift(expected, actual, 0);
    }
}

proof fn lemma_drift(expected: Seq<MeasurementModel>, actual: Seq<MeasurementModel>, from: int)
    requires
        expected.len() == actual.len(),
        0 <= from,
    ensures
        crate::search::checkpoint::drift(expected, actual, from) is None <==> forall|i: int|
            from <= i < expected.len() ==> (#[trigger] expected[i]).name == actual[i].name
                && !expected[i].gap.apart(actual[i].gap),
        crate::search::checkpoint::drift(expected, actual, from) matches Some(error) ==> error
            is IncompatibleCheckpoint,
    decreases expected.len() - from,
{
    if from < expected.len() {
        lemma_drift(expected, actual, from + 1);
    }
}

/// The complaint about a checkpoint names what is wrong: its version, the settings, the
/// architecture, or the first probe whose gap has moved.
pub proof fn law_complaints_about_checkpoints(
    checkpoint: CheckpointModel,
    config: ConfigModel,
    signature: Seq<char>,
    target: Seq<MeasurementModel>,
    control: Seq<MeasurementModel>,
)
    ensures
        ({
            let fault = checkpoint.fault(config, signature, target, control);
            let settled = checkpoint.version == 1 && same_settings(checkpoint.config, config)
                && checkpoint.completed_iterations <= config.max_iters;
            let known = settled && checkpoint.architecture_signature == signature;
            &&& checkpoint.version != 1 ==> fault == Some(
                ErrorModel::IncompatibleCheckpoint(
                    "unsupported checkpoint version "@ + crate::text::decimal(
                        checkpoint.version as nat,
                    ),
                ),
            )
            &&& checkpoint.version == 1 && !settled ==> fault == Some(
                ErrorModel::IncompatibleCheckpoint("search configuration changed"@),
            )
            &&& settled && !known ==> fault == Some(
                ErrorModel::IncompatibleCheckpoint("model architecture signature changed"@),
            )
            &&& known && checkpoint.target_baseline.len() != target.len() ==> fault == Some(
                ErrorModel::IncompatibleCheckpoint("probe count changed"@),
            )
            &&& known && !same_baseline(checkpoint.target_baseline, target) ==> fault
                == crate::search::checkpoint::baseline_fault(checkpoint.target_baseline, target)
            &&& known && same_baseline(checkpoint.target_baseline, target) ==> fault
                == crate::search::checkpoint::baseline_fault(checkpoint.control_baseline, control)
            &&& known && same_baseline(checkpoint.target_baseline, target)
                && checkpoint.control_baseline.len() != control.len() ==> fault == Some(
                ErrorModel::IncompatibleCheckpoint("probe count changed"@),
            )
        }),
{
    lemma_baseline_fault(checkpoint.target_baseline, target);
}

/// Of two lists with as many probes, the first probe that has another name or a gap that
/// has moved is complained about, by the name it had.
pub proof fn law_first_moved_probe_is_named(
    expected: Seq<MeasurementModel>,
    actual: Seq<MeasurementModel>,
    place: int,
)
    requires
        expected.len() == actual.len(),
        0 <= place < expected.len(),
        same_baseline(expected.take(place), actual.take(place)),
        expected[place].name != actual[place].name || expected[place].gap.apart(actual[place].gap),
    ensures
        crate::search::checkpoint::baseline_fault(expected, actual) == Some(
            ErrorModel::IncompatibleCheckpoint(
                "baseline changed for probe "@ + expected[place].name,
            ),
        ),
{
    assert forall|i: int| 0 <= i < place implies (#[trigger] expected[i]).name == actual[i].name
        && !expected[i].gap.apart(actual[i].gap) by {
        assert(expected.take(place)[i] == expected[i]);
        assert(actual.take(place)[i] == actual[i]);
    }
    lemma_first_drift(expected, actual, 0, place);
}

proof fn lemma_first_drift(
    expected: Seq<MeasurementModel>,
    actual: Seq<MeasurementModel>,
    from: int,
    place: int,
)
    requires
        expected.len() == actual.len(),
        0 <= from <= place < expected.len(),
        forall|i: int|
            from <= i < place ==> (#[trigger] expected[i]).name == actual[i].name
                && !expected[i].gap.apart(actual[i].gap),
        expected[place].name != actual[place].name || expected[place].gap.apart(actual[place].gap),
    ensures
        crate::search::checkpoint::drift(expected, actual, from) == Some(
            ErrorModel::IncompatibleCheckpoint(
                "baseline changed for probe "@ + expected[place].name,
            ),
        ),
    decreases place - from,
{
    if from < place {
        lemma_first_drift(expected, actual, from + 1, place);
    }
}

/// A search can be run exactly if there are targets and controls, layers and projections,
/// iterations and probes to screen with, a penalty that is finite and not negative, and no
/// layer that the model does not have.
pub proof fn law_searches_that_can_be_run(
    config: ConfigModel,
    map: ArchitectureModel,
    targets: nat,
    controls: nat,
)
    ensures
        config.fault(map, targets, controls) is None <==> {
            &&& targets > 0 && controls > 0
            &&& config.search_layers.len() > 0 && config.search_projections.len() > 0
            &&& config.max_iters > 0
            &&& config.screen_probe_count > 0
            &&& config.control_penalty.finite() && config.control_penalty.units() >= 0
            &&& forall|i: int|
                0 <= i < config.search_layers.len() ==> (#[trigger] config.search_layers[i])
                    < map.layer_count
        },
        config.fault(map, targets, controls) matches Some(error) ==> error is InvalidSearch || error
            is MissingTensor,
{
    let coordinates = config.coordinates();
    crate::search::config::lemma_none_missing(map, coordinates, 0);
    lemma_missing_kind(map, coordinates, 0);
    let width = config.search_projections.len() as int;
    if config.search_layers.len() > 0 && width > 0 {
        if forall|i: int|
            0 <= i < coordinates.len() ==> (#[trigger] coordinates[i]).0 < map.layer_count {
            assert forall|i: int| 0 <= i < config.search_layers.len() implies (
            #[trigger] config.search_layers[i]) < map.layer_count by {
                let at = i * width;
                assert(0 <= at < coordinates.len() && at / width == i) by {
                    assert(0 <= i * width) by (nonlinear_arith)
                        requires
                            0 <= i,
                            width > 0,
                    ;
                    assert(i * width < config.search_layers.len() * width) by (nonlinear_arith)
                        requires
                            i < config.search_layers.len(),
                            width > 0,
                    ;
                    vstd::arithmetic::div_mod::lemma_div_multiples_vanish(i, width);
                    assert(i * width == width * i) by (nonlinear_arith);
                }
                assert(coordinates[at].0 == config.search_layers[i]);
            }
        }
        if forall|i: int|
            0 <= i < config.search_layers.len() ==> (#[trigger] config.search_layers[i])
                < map.layer_count {
            assert forall|i: int| 0 <= i < coordinates.len() implies (#[trigger] coordinates[i]).0
                < map.layer_count by {
                assert(0 <= i / width < config.search_layers.len()) by (nonlinear_arith)
                    requires
                        0 <= i < config.search_layers.len() * width,
                        width > 0,
                ;
                assert(coordinates[i].0 == config.search_layers[i / width]);
            }
        }
    }
}

proof fn lemma_missing_kind(
    map: ArchitectureModel,
    coordinates: Seq<(usize, Projection)>,
    from: int,
)
    ensures
        crate::search::config::missing(map, coordinates, from) matches Some(error) ==> error
            is MissingTensor,
    decreases coordinates.len() - from,
{
    if 0 <= from < coordinates.len() {
        lemma_missing_kind(map, coordinates, from + 1);
    }
}

/// A search that cannot be run is refused with what it lacks, in this order.
pub proof fn law_complaints_about_searches(
    config: ConfigModel,
    map: ArchitectureModel,
    targets: nat,
    controls: nat,
)
    ensures
        ({
            let fault = config.fault(map, targets, controls);
            let probed = targets > 0 && controls > 0;
            let placed = probed && config.search_layers.len() > 0
                && config.search_projections.len() > 0;
            let limited = placed && config.max_iters > 0;
            let screened = limited && config.screen_probe_count > 0;
            &&& !probed ==> fault == Some(
                ErrorModel::InvalidSearch("target and control probes must both be non-empty"@),
            )
            &&& probed && !placed ==> fault == Some(
                ErrorModel::InvalidSearch("search layers and projections must both be non-empty"@),
            )
            &&& placed && !limited ==> fault == Some(
                ErrorModel::InvalidSearch("max_iters must be greater than zero"@),
            )
            &&& limited && !screened ==> fault == Some(
                ErrorModel::InvalidSearch("screen_probe_count must be greater than zero"@),
            )
            &&& screened && (!config.control_penalty.finite() || config.control_penalty.units() < 0)
                ==> fault == Some(
                ErrorModel::InvalidSearch("control penalty must be finite and non-negative"@),
            )
            &&& screened && config.control_penalty.finite() && config.control_penalty.units() >= 0
                ==> fault == crate::search::config::missing(map, config.coordinates(), 0)
        }),
{
}

/// The first coordinate that the model does not have is the one that is missed.
pub proof fn law_first_absent_coordinate_is_missed(
    map: ArchitectureModel,
    coordinates: Seq<(usize, Projection)>,
    place: int,
)
    requires
        0 <= place < coordinates.len(),
        forall|i: int| 0 <= i < place ==> (#[trigger] coordinates[i]).0 < map.layer_count,
        coordinates[place].0 >= map.layer_count,
    ensures
        crate::search::config::missing(map, coordinates, 0) == Some(
            ErrorModel::MissingTensor(
                crate::architecture::coordinate_text(
                    coordinates[place].0 as nat,
                    coordinates[place].1,
                ),
            ),
        ),
{
    lemma_first_missing(map, coordinates, 0, place);
}

proof fn lemma_first_missing(
    map: ArchitectureModel,
    coordinates: Seq<(usize, Projection)>,
    from: int,
    place: int,
)
    requires
        0 <= from <= place < coordinates.len(),
        forall|i: int| from <= i < place ==> (#[trigger] coordinates[i]).0 < map.layer_count,
        coordinates[place].0 >= map.layer_count,
    ensures
        crate::search::config::missing(map, coordinates, from)
            == crate::search::config::absent(map, coordinates[place]),
    decreases place - from,
{
    if from < place {
        lemma_first_missing(map, coordinates, from + 1, place);
    }
}

} // verus!
