//! The state of a search that can be taken up again.

use vstd::prelude::*;

use crate::error::{Error, ErrorModel};
use crate::float::Binary32;
use crate::patch::PatchFlip;
use crate::probe::{MeasurementModel, ProbeMeasurement};
use crate::search::config::{ConfigModel, SearchConfig};
use crate::flip_set::FlipSet;

verus! {

/// The version of the checkpoints that this library writes and reads.
pub const CHECKPOINT_VERSION: u32 = 1;

#[derive(Debug)]
pub struct SearchCheckpoint {
    pub version: u32,
    pub architecture_signature: String,
    pub model_label: String,
    pub config: SearchConfig,
    pub completed_iterations: usize,
    pub accepted: Vec<PatchFlip>,
    pub tried: FlipSet,
    pub current_fitness: Binary32,
    pub rng_state: u64,
    pub target_baseline: Vec<ProbeMeasurement>,
    pub control_baseline: Vec<ProbeMeasurement>,
}

pub struct CheckpointModel {
    pub version: u32,
    pub architecture_signature: Seq<char>,
    pub model_label: Seq<char>,
    pub config: ConfigModel,
    pub completed_iterations: nat,
    pub accepted: Seq<PatchFlip>,
    pub tried: Set<PatchFlip>,
    pub current_fitness: Binary32,
    pub rng_state: u64,
    pub target_baseline: Seq<MeasurementModel>,
    pub control_baseline: Seq<MeasurementModel>,
}

impl View for SearchCheckpoint {
    type V = CheckpointModel;

    open spec fn view(&self) -> CheckpointModel {
        CheckpointModel {
            version: self.version,
            architecture_signature: self.architecture_signature@,
            model_label: self.model_label@,
            config: self.config@,
            completed_iterations: self.completed_iterations as nat,
            accepted: self.accepted@,
            tried: self.tried@,
            current_fitness: self.current_fitness,
            rng_state: self.rng_state,
            target_baseline: crate::probe::measurement_models(self.target_baseline@),
            control_baseline: crate::probe::measurement_models(self.control_baseline@),
        }
    }
}

impl Clone for SearchCheckpoint {
    fn clone(&self) -> (r: SearchCheckpoint)
        ensures
            r@ == self@,
    {
        SearchCheckpoint {
            version: self.version,
            architecture_signature: self.architecture_signature.clone(),
            model_label: self.model_label.clone(),
            config: self.config.clone(),
            completed_iterations: self.completed_iterations,
            accepted: crate::patch::copy_flips(self.accepted.as_slice()),
            tried: self.tried.clone(),
            current_fitness: self.current_fitness,
            rng_state: self.rng_state,
            target_baseline: crate::probe::copy_measurements(self.target_baseline.as_slice()),
            control_baseline: crate::probe::copy_measurements(self.control_baseline.as_slice()),
        }
    }
}

/// The complaint about the first probe, from `from` on, that has another name or a
/// gap too far from the expected one.
pub open spec fn drift(
    expected: Seq<MeasurementModel>,
    actual: Seq<MeasurementModel>,
    from: int,
) -> Option<ErrorModel>
    decreases expected.len() - from,
{
    if from < 0 || from >= expected.len() {
        None
    } else if expected[from].name != actual[from].name || expected[from].gap.apart(
        actual[from].gap,
    ) {
        Some(
            ErrorModel::IncompatibleCheckpoint(
                "baseline changed for probe "@ + expected[from].name,
            ),
        )
    } else {
        drift(expected, actual, from + 1)
    }
}

/// What tells a baseline from the expected one.
pub open spec fn baseline_fault(
    expected: Seq<MeasurementModel>,
    actual: Seq<MeasurementModel>,
) -> Option<ErrorModel> {
    if expected.len() != actual.len() {
        Some(ErrorModel::IncompatibleCheckpoint("probe count changed"@))
    } else {
        drift(expected, actual, 0)
    }
}

impl CheckpointModel {
    /// Why a search of the configuration, on a model of the signature and the
    /// baselines, cannot take up the checkpoint.
    pub open spec fn fault(
        self,
        config: ConfigModel,
        signature: Seq<char>,
        target: Seq<MeasurementModel>,
        control: Seq<MeasurementModel>,
    ) -> Option<ErrorModel> {
        if self.version != CHECKPOINT_VERSION {
            Some(
                ErrorModel::IncompatibleCheckpoint(
                    "unsupported checkpoint version "@ + crate::text::decimal(self.version as nat),
                ),
            )
        } else if !self.config.agrees(config) || config.max_iters < self.completed_iterations {
            Some(ErrorModel::IncompatibleCheckpoint("search configuration changed"@))
        } else if self.architecture_signature != signature {
            Some(ErrorModel::IncompatibleCheckpoint("model architecture signature changed"@))
        } else if baseline_fault(self.target_baseline, target) is Some {
            baseline_fault(self.target_baseline, target)
        } else {
            baseline_fault(self.control_baseline, control)
        }
    }
}

/// Refuses a baseline that is not the expected one.
pub fn compare_baselines(expected: &[ProbeMeasurement], actual: &[ProbeMeasurement]) -> (r: Result<
    (),
    Error,
>)
    ensures
        match baseline_fault(
            crate::probe::measurement_models(expected@),
            crate::probe::measurement_models(actual@),
        ) {
            None => r is Ok,
            Some(error) => r matches Err(e) && e@ == error,
        },
{
    if expected.len() != actual.len() {
        return Err(Error::IncompatibleCheckpoint("probe count changed".to_owned()));
    }
    let ghost before = crate::probe::measurement_models(expected@);
    let ghost now = crate::probe::measurement_models(actual@);
    let mut next: usize = 0;
    while next < expected.len()
        invariant
            next <= expected@.len(),
            expected@.len() == actual@.len(),
            before == crate::probe::measurement_models(expected@),
            now == crate::probe::measurement_models(actual@),
            baseline_fault(before, now) == drift(before, now, next as int),
        decreases expected@.len() - next,
    {
        assert(before[next as int] == expected@[next as int]@);
        assert(now[next as int] == actual@[next as int]@);
        if expected[next].name != actual[next].name || expected[next].gap.is_apart_from(
            actual[next].gap,
        ) {
            let mut text: String = "baseline changed for probe ".to_owned();
            text.append(expected[next].name.as_str());
            return Err(Error::IncompatibleCheckpoint(text));
        }
        next = next + 1;
    }
    Ok(())
}

/// Refuses a checkpoint of another search.
pub fn validate_checkpoint(
    checkpoint: &SearchCheckpoint,
    config: &SearchConfig,
    architecture_signature: &str,
    target_baseline: &[ProbeMeasurement],
    control_baseline: &[ProbeMeasurement],
) -> (r: Result<(), Error>)
    ensures
        match checkpoint@.fault(
            config@,
            architecture_signature@,
            crate::probe::measurement_models(target_baseline@),
            crate::probe::measurement_models(control_baseline@),
        ) {
            None => r is Ok,
            Some(error) => r matches Err(e) && e@ == error,
        },
{
    if checkpoint.version != CHECKPOINT_VERSION {
        let mut text: String = "unsupported checkpoint version ".to_owned();
        crate::text::push_decimal(&mut text, checkpoint.version as u64);
        return Err(Error::IncompatibleCheckpoint(text));
    }
    if !checkpoint.config.agrees_with(config) || config.max_iters
        < checkpoint.completed_iterations {
        return Err(Error::IncompatibleCheckpoint("search configuration changed".to_owned()));
    }
    if !crate::text::same_text(
        checkpoint.architecture_signature.as_str(),
        architecture_signature,
    ) {
        return Err(
            Error::IncompatibleCheckpoint("model architecture signature changed".to_owned()),
        );
    }
    if let Err(error) = compare_baselines(checkpoint.target_baseline.as_slice(), target_baseline) {
        return Err(error);
    }
    compare_baselines(checkpoint.control_baseline.as_slice(), control_baseline)
}

proof fn lemma_no_drift(measurements: Seq<MeasurementModel>, from: int)
    requires
        0 <= from,
    ensures
        drift(measurements, measurements, from) is None,
    decreases measurements.len() - from,
{
    if from < measurements.len() {
        lemma_no_drift(measurements, from + 1);
    }
}

/// A baseline that is measured again without any change is the expected one.
pub proof fn law_baseline_agrees_with_itself(measurements: Seq<MeasurementModel>)
    ensures
        baseline_fault(measurements, measurements) is None,
{
    lemma_no_drift(measurements, 0);
}

/// On an unchanged model a checkpoint is taken up by the search that wrote it, and
/// by one with another ceiling on the iterations, as long as the ceiling is not below
/// the iterations already done. A search that differs in anything else is refused.
pub proof fn law_only_the_ceiling_may_change(checkpoint: CheckpointModel, config: ConfigModel)
    requires
        checkpoint.version == CHECKPOINT_VERSION,
    ensures
        checkpoint.fault(
            config,
            checkpoint.architecture_signature,
            checkpoint.target_baseline,
            checkpoint.control_baseline,
        ) is None <==> checkpoint.config.agrees(config) && config.max_iters
            >= checkpoint.completed_iterations,
{
    law_baseline_agrees_with_itself(checkpoint.target_baseline);
    law_baseline_agrees_with_itself(checkpoint.control_baseline);
}

} // verus!
