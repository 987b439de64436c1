//! What is said of a value is said of what it holds.

use vstd::prelude::*;

use crate::architecture::{TensorDescriptor, TensorInfo};
use crate::error::{Error, ErrorModel};
use crate::fitness::FitnessMode;
use crate::patch::{MetadataModel, MetadataValue, Patch, PatchFlip};
use crate::probe::{CompiledProbe, Probe, ProbeMeasurement};
use crate::search::checkpoint::SearchCheckpoint;
use crate::search::config::SearchConfig;
use crate::search::evaluate::{CandidateReading, ReadingModel};
use crate::search::report::{EventModel, SearchEvent, SearchResult};

verus! {

/// A descriptor and a tensor are known by all that they hold.
pub proof fn law_tensors_are_what_they_hold(descriptor: TensorDescriptor, tensor: TensorInfo)
    ensures
        descriptor@.name == descriptor.name@,
        descriptor@.type_id == descriptor.type_id,
        descriptor@.type_label == descriptor.type_label@,
        descriptor@.dimensions == descriptor.dimensions,
        descriptor@.strides == descriptor.strides,
        descriptor@.n_dims == descriptor.n_dims,
        descriptor@.nbytes == descriptor.nbytes,
        descriptor@.backend == descriptor.backend@,
        tensor@.layer == tensor.layer,
        tensor@.projection == tensor.projection,
        tensor@.name == tensor.name@,
        tensor@.type_id == tensor.type_id,
        tensor@.type_label == tensor.type_label@,
        tensor@.width == tensor.width,
        tensor@.rows == tensor.rows,
        tensor@.strides == tensor.strides,
        tensor@.nbytes == tensor.nbytes,
        tensor@.backend == tensor.backend@,
{
}

/// A probe is known by its texts, a compiled one by its tokens too, and a measurement by
/// its gap as well.
pub proof fn law_probes_are_what_they_hold(
    probe: Probe,
    compiled: CompiledProbe,
    measurement: ProbeMeasurement,
)
    ensures
        probe@.prompt == probe.prompt@,
        probe@.correct_token == probe.correct_token@,
        probe@.wrong_token == probe.wrong_token@,
        probe@.name == probe.name@,
        probe@.category == probe.category@,
        compiled@.probe == compiled.probe@,
        compiled@.prompt_tokens == compiled.prompt_tokens@,
        compiled@.correct_id == compiled.correct_id,
        compiled@.wrong_id == compiled.wrong_id,
        measurement@.name == measurement.name@,
        measurement@.category == measurement.category@,
        measurement@.prompt == measurement.prompt@,
        measurement@.correct_token == measurement.correct_token@,
        measurement@.wrong_token == measurement.wrong_token@,
        measurement@.correct_id == measurement.correct_id,
        measurement@.wrong_id == measurement.wrong_id,
        measurement@.gap == measurement.gap,
{
}

/// Lists are known item by item.
pub proof fn law_lists_are_what_they_hold(
    tensors: Seq<TensorInfo>,
    descriptors: Seq<TensorDescriptor>,
    probes: Seq<Probe>,
    compiled: Seq<CompiledProbe>,
    measurements: Seq<ProbeMeasurement>,
    patches: Seq<Patch>,
    texts: Seq<String>,
    i: int,
)
    ensures
        crate::architecture::tensor_models(tensors).len() == tensors.len(),
        crate::architecture::descriptor_models(descriptors).len() == descriptors.len(),
        crate::probe::probe_models(probes).len() == probes.len(),
        crate::probe::compiled_models(compiled).len() == compiled.len(),
        crate::probe::measurement_models(measurements).len() == measurements.len(),
        crate::patch::patch_models(patches).len() == patches.len(),
        crate::patched::text_models(texts).len() == texts.len(),
        0 <= i < tensors.len() ==> crate::architecture::tensor_models(tensors)[i] == tensors[i]@,
        0 <= i < descriptors.len() ==> crate::architecture::descriptor_models(descriptors)[i]
            == descriptors[i]@,
        0 <= i < probes.len() ==> crate::probe::probe_models(probes)[i] == probes[i]@,
        0 <= i < compiled.len() ==> crate::probe::compiled_models(compiled)[i] == compiled[i]@,
        0 <= i < measurements.len() ==> crate::probe::measurement_models(measurements)[i]
            == measurements[i]@,
        0 <= i < patches.len() ==> crate::patch::patch_models(patches)[i] == patches[i]@,
        0 <= i < texts.len() ==> crate::patched::text_models(texts)[i] == texts[i]@,
{
}

/// A patch is known by all that it holds.
pub proof fn law_patches_are_what_they_hold(
    patch: Patch,
    text: String,
    count: u64,
    number: crate::float::Binary32,
)
    ensures
        patch@.version == patch.version,
        patch@.format == patch.format@,
        patch@.name == patch.name@,
        patch@.description == patch.description@,
        patch@.base_model == patch.base_model@,
        patch@.flips == patch.flips@,
        patch@.stats == patch.stats,
        patch@.metadata == crate::patch::metadata_of(patch.metadata@),
        MetadataValue::Text(text)@ == MetadataModel::Text(text@),
        MetadataValue::Count(count)@ == MetadataModel::Count(count),
        MetadataValue::Number(number)@ == MetadataModel::Number(number),
        MetadataValue::Json(text)@ == MetadataModel::Json(text@),
{
}

/// A configuration is known by all its settings, and a checkpoint by all that it saves.
pub proof fn law_checkpoints_are_what_they_hold(config: SearchConfig, checkpoint: SearchCheckpoint)
    ensures
        config@.search_layers == config.search_layers@,
        config@.search_projections == config.search_projections@,
        config@.max_iters == config.max_iters,
        config@.control_penalty == config.control_penalty,
        config@.fitness_mode == config.fitness_mode,
        config@.seed == config.seed,
        config@.screen_probe_count == config.screen_probe_count,
        config@.patch_name == config.patch_name@,
        config@.patch_description == config.patch_description@,
        config@.base_model == config.base_model@,
        checkpoint@.version == checkpoint.version,
        checkpoint@.architecture_signature == checkpoint.architecture_signature@,
        checkpoint@.model_label == checkpoint.model_label@,
        checkpoint@.config == checkpoint.config@,
        checkpoint@.completed_iterations == checkpoint.completed_iterations,
        checkpoint@.accepted == checkpoint.accepted@,
        checkpoint@.tried == checkpoint.tried@,
        checkpoint@.current_fitness == checkpoint.current_fitness,
        checkpoint@.rng_state == checkpoint.rng_state,
        checkpoint@.target_baseline == crate::probe::measurement_models(
            checkpoint.target_baseline@,
        ),
        checkpoint@.control_baseline == crate::probe::measurement_models(
            checkpoint.control_baseline@,
        ),
        FitnessMode::Mean.name() == "mean"@,
        FitnessMode::Min.name() == "min"@,
{
}

/// A result is known by all that it reports.
pub proof fn law_results_are_what_they_hold(result: SearchResult)
    ensures
        result@.patch == result.patch@,
        result@.target_baseline == crate::probe::measurement_models(result.target_baseline@),
        result@.control_baseline == crate::probe::measurement_models(result.control_baseline@),
        result@.final_target == crate::probe::measurement_models(result.final_target@),
        result@.final_control == crate::probe::measurement_models(result.final_control@),
        result@.final_fitness == result.final_fitness,
        result@.completed_iterations == result.completed_iterations,
        result@.tried_candidates == result.tried_candidates,
        result@.screened_out == result.screened_out,
        result@.model_state == result.model_state,
{
}

/// A reading and an event are known by what they are and by all that they hold.
pub proof fn law_events_are_what_they_hold(
    target: Vec<ProbeMeasurement>,
    control: Vec<ProbeMeasurement>,
    iteration: usize,
    accepted: usize,
    flip: PatchFlip,
    fitness: crate::float::Binary32,
    best_fitness: crate::float::Binary32,
)
    ensures
        ({
            let targets = crate::probe::measurement_models(target@);
            let controls = crate::probe::measurement_models(control@);
            &&& CandidateReading::ScreenedOut@ == ReadingModel::ScreenedOut
            &&& CandidateReading::NonFinite@ == ReadingModel::NonFinite
            &&& (CandidateReading::Measured { target, control })@ == (ReadingModel::Measured {
                target: targets,
                control: controls,
            })
            &&& (SearchEvent::Baseline { target, control })@ == (EventModel::Baseline {
                target: targets,
                control: controls,
            })
            &&& (SearchEvent::Candidate { iteration, flip })@ == (EventModel::Candidate {
                iteration: iteration as nat,
                flip,
            })
            &&& (SearchEvent::ScreenedOut { iteration, flip })@ == (EventModel::ScreenedOut {
                iteration: iteration as nat,
                flip,
            })
            &&& (SearchEvent::Rejected { iteration, flip, fitness, best_fitness })@ == (
            EventModel::Rejected { iteration: iteration as nat, flip, fitness, best_fitness })
            &&& (SearchEvent::Accepted { iteration, flip, fitness, accepted })@ == (
            EventModel::Accepted {
                iteration: iteration as nat,
                flip,
                fitness,
                accepted: accepted as nat,
            })
            &&& (SearchEvent::Checkpoint { iteration })@ == (EventModel::Checkpoint {
                iteration: iteration as nat,
            })
            &&& (SearchEvent::Completed { iterations: iteration, accepted, fitness })@ == (
            EventModel::Completed {
                iterations: iteration as nat,
                accepted: accepted as nat,
                fitness,
            })
        }),
{
}

/// An error is known by what it is and by all that it holds.
pub proof fn law_errors_are_what_they_hold(
    a: String,
    b: String,
    field: &'static str,
    count: usize,
    more: usize,
    source: Box<Error>,
)
    ensures
        Error::InvalidProjection(a)@ == ErrorModel::InvalidProjection(a@),
        (Error::UnsupportedTensor { coordinate: a, reason: b })@ == (ErrorModel::UnsupportedTensor {
            coordinate: a@,
            reason: b@,
        }),
        Error::DuplicateTensor(a)@ == ErrorModel::DuplicateTensor(a@),
        Error::MissingTensor(a)@ == ErrorModel::MissingTensor(a@),
        Error::UnsupportedArchitecture(a)@ == ErrorModel::UnsupportedArchitecture(a@),
        Error::Backend(a)@ == ErrorModel::Backend(a@),
        Error::Io(a)@ == ErrorModel::Io(a@),
        Error::Json(a)@ == ErrorModel::Json(a@),
        (Error::EmptyProbeField { probe: a, field })@ == (ErrorModel::EmptyProbeField {
            probe: a@,
            field: field@,
        }),
        Error::EmptyProbeSet@ == ErrorModel::EmptyProbeSet,
        Error::DuplicateProbe(a)@ == ErrorModel::DuplicateProbe(a@),
        (Error::EmptyAnswerToken { probe: a })@ == (ErrorModel::EmptyAnswerToken { probe: a@ }),
        (Error::AmbiguousAnswerToken { probe: a, count })@ == (ErrorModel::AmbiguousAnswerToken {
            probe: a@,
            count: count as nat,
        }),
        Error::MeasurementMismatch(a)@ == ErrorModel::MeasurementMismatch(a@),
        Error::InvalidSearch(a)@ == ErrorModel::InvalidSearch(a@),
        Error::SearchCancelled@ == ErrorModel::SearchCancelled,
        Error::IncompatibleCheckpoint(a)@ == ErrorModel::IncompatibleCheckpoint(a@),
        (Error::RestorationFailed { operation: a, source })@ == (ErrorModel::RestorationFailed {
            operation: a@,
            source: Box::new((*source)@),
        }),
        Error::MissingRegexCapture(a)@ == ErrorModel::MissingRegexCapture(a@),
        Error::InvalidPatch(a)@ == ErrorModel::InvalidPatch(a@),
        Error::DuplicateFlip(a)@ == ErrorModel::DuplicateFlip(a@),
        (Error::RowOutOfBounds { coordinate: a, row: count, rows: more })@ == (
        ErrorModel::RowOutOfBounds { coordinate: a@, row: count as nat, rows: more as nat }),
        (Error::ArchitectureMismatch { expected: a, actual: b })@ == (
        ErrorModel::ArchitectureMismatch { expected: a@, actual: b@ }),
        Error::IncompatiblePatches(a)@ == ErrorModel::IncompatiblePatches(a@),
{
}

/// The answers of a model and the outcomes of operations are known by their values, or by
/// their errors.
pub proof fn law_outcomes_are_what_they_hold(
    tokens: Vec<i32>,
    text: String,
    other: String,
    texts: Vec<String>,
    target: Vec<ProbeMeasurement>,
    control: Vec<ProbeMeasurement>,
    compiled: CompiledProbe,
    probes: Vec<Probe>,
    reading: CandidateReading,
    error: Error,
)
    ensures
        crate::backend::answer::<()>(Ok(())) is Ok,
        crate::backend::answer::<()>(Err(error)) == Err::<(), ErrorModel>(error@),
        crate::backend::list_answer(Ok::<Vec<i32>, Error>(tokens)) == Ok::<Seq<i32>, ErrorModel>(
            tokens@,
        ),
        crate::backend::list_answer(Err::<Vec<i32>, Error>(error)) == Err::<Seq<i32>, ErrorModel>(
            error@,
        ),
        crate::backend::text_answer(Ok(text)) == Ok::<Seq<char>, ErrorModel>(text@),
        crate::backend::text_answer(Err(error)) == Err::<Seq<char>, ErrorModel>(error@),
        crate::patched::texts_view(Ok((text, other))) == Ok::<(Seq<char>, Seq<char>), ErrorModel>(
            (text@, other@),
        ),
        crate::patched::texts_view(Err(error)) == Err::<(Seq<char>, Seq<char>), ErrorModel>(error@),
        crate::patched::answers_view(Ok(texts)) == Ok::<Seq<Seq<char>>, ErrorModel>(
            crate::patched::text_models(texts@),
        ),
        crate::patched::answers_view(Err(error)) == Err::<Seq<Seq<char>>, ErrorModel>(error@),
        crate::probe::compiled_view(Ok(compiled)) == Ok::<
            crate::probe::CompiledModel,
            ErrorModel,
        >(compiled@),
        crate::probe::compiled_view(Err(error)) == Err::<crate::probe::CompiledModel, ErrorModel>(
            error@,
        ),
        crate::probe::measured_view(Ok(target)) == Ok::<
            Seq<crate::probe::MeasurementModel>,
            ErrorModel,
        >(crate::probe::measurement_models(target@)),
        crate::probe::measured_view(Err(error)) == Err::<
            Seq<crate::probe::MeasurementModel>,
            ErrorModel,
        >(error@),
        crate::probe::pair_view(Ok((target, control))) == Ok::<
            (Seq<crate::probe::MeasurementModel>, Seq<crate::probe::MeasurementModel>),
            ErrorModel,
        >(
            (
                crate::probe::measurement_models(target@),
                crate::probe::measurement_models(control@),
            ),
        ),
        crate::probe::pair_view(Err(error)) == Err::<
            (Seq<crate::probe::MeasurementModel>, Seq<crate::probe::MeasurementModel>),
            ErrorModel,
        >(error@),
        crate::cli::probes_view(Ok(probes)) == Ok::<Seq<crate::probe::ProbeModel>, ErrorModel>(
            crate::probe::probe_models(probes@),
        ),
        crate::cli::probes_view(Err(error)) == Err::<Seq<crate::probe::ProbeModel>, ErrorModel>(
            error@,
        ),
        crate::search::evaluate::reading_view(Ok(reading)) == Ok::<ReadingModel, ErrorModel>(
            reading@,
        ),
        crate::search::evaluate::reading_view(Err(error)) == Err::<ReadingModel, ErrorModel>(
            error@,
        ),
{
}

/// The outcomes of a search and of its parts are known by their values, or by their errors.
pub proof fn law_searches_are_what_they_hold(
    result: SearchResult,
    event: SearchEvent,
    session: crate::search::session::SearchSession,
    pool: Vec<crate::search::pool::Candidate>,
    checkpoint: SearchCheckpoint,
    error: Error,
)
    ensures
        crate::search::run::result_view(Ok(result)) == Ok::<
            crate::search::report::ResultModel,
            ErrorModel,
        >(result@),
        crate::search::run::result_view(Err(error)) == Err::<
            crate::search::report::ResultModel,
            ErrorModel,
        >(error@),
        crate::search::session::event_view(Ok(event)) == Ok::<EventModel, ErrorModel>(event@),
        crate::search::session::event_view(Err(error)) == Err::<EventModel, ErrorModel>(error@),
        crate::search::session::session_view(Ok(session)) == Ok::<
            crate::search::state::SessionModel,
            ErrorModel,
        >(session@),
        crate::search::session::session_view(Err(error)) == Err::<
            crate::search::state::SessionModel,
            ErrorModel,
        >(error@),
        crate::search::session::resume_view(Some(checkpoint)) == Some(checkpoint@),
        crate::search::session::resume_view(None) is None,
        crate::search::pool::pool_view(Ok(pool)) == Ok::<
            Seq<crate::search::pool::Candidate>,
            ErrorModel,
        >(pool@),
        crate::search::pool::pool_view(Err(error)) == Err::<
            Seq<crate::search::pool::Candidate>,
            ErrorModel,
        >(error@),
{
}

} // verus!
