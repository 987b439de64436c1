//! How a search begins, what it does with a row, and what it leaves behind.

use vstd::prelude::*;

use crate::architecture::ArchitectureModel;
use crate::backend::{BackendCall, Sight};
use crate::error::ErrorModel;
use crate::fitness::FitnessMode;
use crate::float::Binary32;
use crate::patch::{MetadataModel, PatchFlip};
use crate::probe::MeasurementModel;
use crate::search::checkpoint::CheckpointModel;
use crate::search::evaluate::ReadingModel;
use crate::search::pool::Candidate;
use crate::search::report::{EventModel, ModelPatchState};
use crate::search::state::{CandidateEvaluation, SessionModel, Setup};

verus! {

/// The fitness is a larger number than the best so far.
pub open spec fn better(session: SessionModel, fitness: Binary32) -> bool {
    !fitness.nan() && !session.current_fitness.nan() && fitness.units()
        > session.current_fitness.units()
}

/// What a search was set up with, and which rows it has tried, is the same in both.
pub open spec fn same_search(a: SessionModel, b: SessionModel) -> bool {
    &&& a.targets == b.targets
    &&& a.controls == b.controls
    &&& a.config == b.config
    &&& a.architecture_signature == b.architecture_signature
    &&& a.model_label == b.model_label
    &&& a.pool == b.pool
    &&& a.target_baseline == b.target_baseline
    &&& a.control_baseline == b.control_baseline
    &&& a.screen == b.screen
    &&& a.tried == b.tried
    &&& a.completed_iterations == b.completed_iterations
    &&& a.rng == b.rng
}

/// A measured row is accepted exactly if its fitness is better than the best so far, which
/// it then is itself. A row that was screened out is counted as such, and not accepted.
pub proof fn law_better_rows_are_accepted(session: SessionModel, fitness: Binary32, flip: PatchFlip)
    requires
        session.pending == Some(flip),
    ensures
        ({
            let measured = CandidateEvaluation::Measured { fitness };
            let after = session.settled(measured);
            &&& session.accepts(measured) <==> better(session, fitness)
            &&& same_search(session, after)
            &&& after.pending is None
            &&& after.screened_out == session.screened_out
            &&& better(session, fitness) ==> after.accepted == session.accepted.push(flip)
                && after.current_fitness == fitness && session.verdict(measured)
                == (EventModel::Accepted {
                iteration: session.completed_iterations,
                flip,
                fitness,
                accepted: session.accepted.len() + 1,
            })
            &&& !better(session, fitness) ==> after.accepted == session.accepted
                && after.current_fitness == session.current_fitness && session.verdict(measured)
                == (EventModel::Rejected {
                iteration: session.completed_iterations,
                flip,
                fitness,
                best_fitness: session.current_fitness,
            })
        }),
        ({
            let after = session.settled(CandidateEvaluation::ScreenedOut);
            &&& !session.accepts(CandidateEvaluation::ScreenedOut)
            &&& same_search(session, after)
            &&& after.pending is None
            &&& after.screened_out == session.screened_out + 1
            &&& after.accepted == session.accepted
            &&& after.current_fitness == session.current_fitness
            &&& session.verdict(CandidateEvaluation::ScreenedOut) == (EventModel::ScreenedOut {
                iteration: session.completed_iterations,
                flip,
            })
        }),
{
}

/// A reading is worth the fitness of its measurements. One with a gap that is not finite
/// is worth nothing that could be better than anything.
pub proof fn law_readings_are_worth_their_fitness(
    target: Seq<MeasurementModel>,
    control: Seq<MeasurementModel>,
    fitness: Result<Binary32, ErrorModel>,
)
    ensures
        crate::search::state::worth(ReadingModel::ScreenedOut, fitness) == Ok::<
            CandidateEvaluation,
            ErrorModel,
        >(CandidateEvaluation::ScreenedOut),
        fitness matches Ok(number) ==> crate::search::state::worth(
            ReadingModel::Measured { target, control },
            fitness,
        ) == Ok::<CandidateEvaluation, ErrorModel>(
            CandidateEvaluation::Measured { fitness: number },
        ),
        fitness matches Err(error) ==> crate::search::state::worth(
            ReadingModel::Measured { target, control },
            fitness,
        ) == Err::<CandidateEvaluation, ErrorModel>(error),
        ({
            let spoilt = crate::search::state::worth(ReadingModel::NonFinite, fitness);
            spoilt is Ok && spoilt->Ok_0 is Measured && spoilt->Ok_0->fitness.nan()
        }),
{
}

/// Settling a row leaves it flipped where it is accepted. In every other case the model
/// is asked to flip it back, once: where that fails, so does the search, and nothing is
/// settled.
pub proof fn law_rows_not_accepted_are_flipped_back(
    session: SessionModel,
    flip: PatchFlip,
    evaluation: Result<CandidateEvaluation, ErrorModel>,
    calls: Seq<BackendCall>,
    after: SessionModel,
    outcome: Result<EventModel, ErrorModel>,
)
    requires
        session.pending == Some(flip),
        session.settles(evaluation, calls, after, outcome),
    ensures
        ({
            let kept = evaluation is Ok && evaluation->Ok_0 is Measured && better(
                session,
                evaluation->Ok_0->fitness,
            );
            &&& kept ==> calls.len() == 0 && outcome is Ok && outcome->Ok_0 is Accepted
                && after.accepted == session.accepted.push(flip)
            &&& !kept ==> calls.len() == 1 && calls[0] is FlipRow && calls[0]->flip == flip
            &&& !kept && calls[0]->FlipRow_reply is Err ==> after == session && outcome == Err::<
                EventModel,
                ErrorModel,
            >(
                ErrorModel::RestorationFailed {
                    operation: match evaluation {
                        Err(_) => "failed candidate evaluation"@,
                        Ok(CandidateEvaluation::ScreenedOut) => "screened candidate"@,
                        Ok(CandidateEvaluation::Measured { .. }) => "rejected candidate"@,
                    },
                    source: Box::new(calls[0]->FlipRow_reply->Err_0),
                },
            )
            &&& !kept && calls[0]->FlipRow_reply is Ok && evaluation is Err ==> after == session
                && outcome == Err::<EventModel, ErrorModel>(evaluation->Err_0)
            &&& !kept && calls[0]->FlipRow_reply is Ok && evaluation is Ok ==> outcome is Ok
                && !(outcome->Ok_0 is Accepted) && after.accepted == session.accepted
                && after.current_fitness == session.current_fitness && after.pending is None
                && same_search(session, after)
            &&& evaluation is Ok && outcome is Ok ==> after == session.settled(evaluation->Ok_0)
                && outcome->Ok_0 == session.verdict(evaluation->Ok_0)
        }),
{
}

/// Trying a row flips it first. Once it is flipped, the search's own probes are measured.
/// Where that succeeds, the row stays flipped, and where it fails, the model is asked to
/// flip it back.
pub proof fn law_trying_a_row_flips_and_measures(
    session: SessionModel,
    flip: PatchFlip,
    calls: Seq<BackendCall>,
    outcome: Result<ReadingModel, ErrorModel>,
)
    requires
        session.evaluates(flip, calls, outcome),
    ensures
        session.trial().targets == session.targets,
        session.trial().controls == session.controls,
        session.trial().screen == session.screen,
        session.trial().baseline == session.target_baseline,
        calls.len() > 0,
        calls[0] is FlipRow && calls[0]->flip == flip,
        calls[0]->FlipRow_reply matches Err(error) ==> calls.len() == 1 && outcome == Err::<
            ReadingModel,
            ErrorModel,
        >(error),
        outcome is Ok ==> calls[0]->FlipRow_reply is Ok && session.trial().requests(calls.skip(1))
            && session.trial().outcome(calls.skip(1)) == outcome,
        outcome is Err && calls[0]->FlipRow_reply is Ok ==> {
            let between = calls.subrange(1, calls.len() - 1);
            &&& calls.len() > 1
            &&& calls.last() is FlipRow && calls.last()->flip == flip
            &&& session.trial().requests(between)
            &&& session.trial().outcome(between) is Err
            &&& calls.last()->FlipRow_reply is Ok ==> outcome == session.trial().outcome(between)
            &&& calls.last()->FlipRow_reply matches Err(source) ==> outcome == Err::<
                ReadingModel,
                ErrorModel,
            >(
                ErrorModel::RestorationFailed {
                    operation: "failed candidate evaluation"@,
                    source: Box::new(source),
                },
            )
        },
{
    let rest = calls.skip(1);
    if rest.len() > 0 {
        assert(rest.drop_last() =~= calls.subrange(1, calls.len() - 1));
        assert(rest.last() == calls.last());
    }
}

/// A checkpoint holds all that a search needs to go on.
pub proof fn law_checkpoints_hold_the_search(session: SessionModel)
    ensures
        session.checkpoint().version == 1,
        session.checkpoint().architecture_signature == session.architecture_signature,
        session.checkpoint().model_label == session.model_label,
        session.checkpoint().config == session.config,
        session.checkpoint().completed_iterations == session.completed_iterations,
        session.checkpoint().accepted == session.accepted,
        session.checkpoint().tried == session.tried,
        session.checkpoint().current_fitness == session.current_fitness,
        session.checkpoint().rng_state == session.rng.state,
        session.checkpoint().target_baseline == session.target_baseline,
        session.checkpoint().control_baseline == session.control_baseline,
{
}

/// The patch of a search flips the accepted rows in the order in which they were accepted,
/// is named as was asked, and says how it was found.
pub proof fn law_patches_tell_how_they_were_found(session: SessionModel)
    requires
        session.completed_iterations <= u64::MAX,
    ensures
        ({
            let patch = session.patch();
            &&& patch.version == 1
            &&& patch.format == "miyagi_row_xor_v1"@
            &&& patch.name == session.config.patch_name
            &&& patch.description == session.config.patch_description
            &&& patch.base_model == session.config.base_model
            &&& patch.flips == session.accepted
            &&& patch.stats == crate::patch::counted(session.accepted)
            &&& patch.metadata.dom() =~= set![
                "architecture_signature"@,
                "search_algorithm"@,
                "seed"@,
                "completed_iterations"@,
                "control_penalty"@,
            ]
            &&& patch.metadata["architecture_signature"@] == MetadataModel::Text(
                session.architecture_signature,
            )
            &&& patch.metadata["search_algorithm"@] == MetadataModel::Text(
                match session.config.fitness_mode {
                    FitnessMode::Mean => "greedy_hill_climbing_screened_"@ + "mean"@,
                    FitnessMode::Min => "greedy_hill_climbing_screened_"@ + "min"@,
                },
            )
            &&& patch.metadata["seed"@] == MetadataModel::Count(session.config.seed)
            &&& patch.metadata["completed_iterations"@] == MetadataModel::Count(
                session.completed_iterations as u64,
            )
            &&& patch.metadata["control_penalty"@] == MetadataModel::Number(
                session.config.control_penalty,
            )
        }),
{
    reveal_strlit("architecture_signature");
    reveal_strlit("search_algorithm");
    reveal_strlit("seed");
    reveal_strlit("completed_iterations");
    reveal_strlit("control_penalty");
    assert("architecture_signature"@.len() == 22);
    assert("search_algorithm"@.len() == 16);
    assert("seed"@.len() == 4);
    assert("completed_iterations"@.len() == 20);
    assert("control_penalty"@.len() == 15);
}

/// The result of a search is its patch, measured on the model, with the gaps before and
/// after it.
pub proof fn law_results_tell_what_was_done(
    session: SessionModel,
    map: ArchitectureModel,
    target: Seq<MeasurementModel>,
    control: Seq<MeasurementModel>,
    fitness: Binary32,
)
    ensures
        ({
            let result = session.result(map, target, control, fitness);
            &&& result.patch == session.patch().measured(map)
            &&& result.patch.flips == session.accepted
            &&& result.target_baseline == session.target_baseline
            &&& result.control_baseline == session.control_baseline
            &&& result.final_target == target
            &&& result.final_control == control
            &&& result.final_fitness == fitness
            &&& result.completed_iterations == session.completed_iterations
            &&& result.tried_candidates == session.tried.len()
            &&& result.screened_out == session.screened_out
            &&& result.model_state == ModelPatchState::AcceptedPatchApplied
        }),
{
}

/// A new search has tried and accepted nothing, starts from a fitness of zero and from the
/// seed, and holds what the model shows and gave.
pub proof fn law_new_searches_begin_empty(
    setup: Setup,
    sight: Sight,
    pool: Seq<Candidate>,
    target: Seq<MeasurementModel>,
    control: Seq<MeasurementModel>,
    screen: Seq<usize>,
)
    requires
        setup.resume is None,
    ensures
        ({
            let begun = crate::search::state::begun(setup, sight, pool, target, control, screen);
            &&& begun.targets == setup.targets
            &&& begun.controls == setup.controls
            &&& begun.config == setup.config
            &&& begun.architecture_signature == sight.map.signature
            &&& begun.model_label == sight.label
            &&& begun.pool == pool
            &&& begun.target_baseline == target
            &&& begun.control_baseline == control
            &&& begun.screen == screen
            &&& begun.accepted.len() == 0
            &&& forall|flip: PatchFlip| !(#[trigger] begun.tried.contains(flip))
            &&& begun.current_fitness.bits == 0
            &&& begun.completed_iterations == 0
            &&& begun.screened_out == 0
            &&& begun.rng.state == setup.config.seed
            &&& begun.pending is None
        }),
{
}

/// A search that is taken up has what its checkpoint holds, and the rest from the model.
pub proof fn law_resumed_searches_begin_where_they_stopped(
    setup: Setup,
    sight: Sight,
    pool: Seq<Candidate>,
    target: Seq<MeasurementModel>,
    control: Seq<MeasurementModel>,
    screen: Seq<usize>,
    checkpoint: CheckpointModel,
)
    requires
        setup.resume == Some(checkpoint),
    ensures
        ({
            let begun = crate::search::state::begun(setup, sight, pool, target, control, screen);
            &&& begun.targets == setup.targets
            &&& begun.controls == setup.controls
            &&& begun.config == setup.config
            &&& begun.architecture_signature == sight.map.signature
            &&& begun.model_label == sight.label
            &&& begun.pool == pool
            &&& begun.target_baseline == checkpoint.target_baseline
            &&& begun.control_baseline == checkpoint.control_baseline
            &&& begun.screen == screen
            &&& begun.accepted == checkpoint.accepted
            &&& begun.tried == checkpoint.tried
            &&& begun.current_fitness == checkpoint.current_fitness
            &&& begun.completed_iterations == checkpoint.completed_iterations
            &&& begun.screened_out == 0
            &&& begun.rng.state == checkpoint.rng_state
            &&& begun.pending is None
        }),
{
}

/// Targets and controls are measured one after the other, the targets first, and all gaps
/// are those that the model gave, all of them finite.
pub proof fn law_targets_and_controls_are_measured(
    targets: Seq<crate::probe::CompiledModel>,
    controls: Seq<crate::probe::CompiledModel>,
    calls: Seq<BackendCall>,
)
    requires
        crate::search::state::both_requests(targets, controls, calls),
        crate::search::state::both_outcome(targets, controls, calls) is Ok,
    ensures
        ({
            let (target, control) = crate::search::state::both_outcome(
                targets,
                controls,
                calls,
            )->Ok_0;
            &&& calls.len() == targets.len() + controls.len()
            &&& target.len() == targets.len()
            &&& control.len() == controls.len()
            &&& forall|i: int|
                0 <= i < targets.len() ==> crate::laws::evaluating::replied(
                    calls[i],
                    targets[i],
                    (#[trigger] target[i]).gap,
                ) && target[i].gap.finite() && crate::laws::probing::kept_of(targets[i], target[i])
            &&& forall|j: int|
                0 <= j < controls.len() ==> crate::laws::evaluating::replied(
                    calls[targets.len() + j],
                    controls[j],
                    (#[trigger] control[j]).gap,
                ) && control[j].gap.finite() && crate::laws::probing::kept_of(
                    controls[j],
                    control[j],
                )
        }),
{
    let first = crate::backend::head(calls, targets.len());
    let second = crate::backend::tail(calls, targets.len());
    let (target, control) = crate::search::state::both_outcome(targets, controls, calls)->Ok_0;
    crate::laws::probing::law_measurements_hold_the_gaps_given(targets, first);
    crate::laws::probing::law_measurements_hold_the_gaps_given(controls, second);
    crate::probe::law_accepted_measurements_are_finite(targets, first);
    crate::probe::law_accepted_measurements_are_finite(controls, second);
    assert(first.len() == targets.len());
    assert(second.len() == controls.len());
    assert forall|i: int| 0 <= i < targets.len() implies crate::laws::evaluating::replied(
        calls[i],
        targets[i],
        (#[trigger] target[i]).gap,
    ) && target[i].gap.finite() && crate::laws::probing::kept_of(targets[i], target[i]) by {
        assert(first[i] == calls[i]);
    }
    assert forall|j: int| 0 <= j < controls.len() implies crate::laws::evaluating::replied(
        calls[targets.len() + j],
        controls[j],
        (#[trigger] control[j]).gap,
    ) && control[j].gap.finite() && crate::laws::probing::kept_of(controls[j], control[j]) by {
        assert(second[j] == calls[targets.len() + j]);
    }
}

proof fn lemma_begins(setup: Setup, calls: Seq<BackendCall>, session: SessionModel) -> (pool: Seq<
    Candidate,
>)
    requires
        setup.begins(calls, Ok(session)),
    ensures
        ({
            let coordinates = setup.config.coordinates();
            let scales = crate::backend::head(calls, coordinates.len());
            let after_scales = crate::backend::tail(calls, coordinates.len());
            &&& setup.config.fault(
                setup.sight.map,
                setup.targets.len(),
                setup.controls.len(),
            ) is None
            &&& scales.len() == coordinates.len()
            &&& crate::search::pool::scale_requests(setup.sight, coordinates, scales)
            &&& crate::search::pool::pool_outcome(setup.sight, coordinates, scales) == Ok::<
                Seq<Candidate>,
                ErrorModel,
            >(pool)
            &&& setup.measures(
                crate::backend::seen(setup.sight, scales),
                pool,
                after_scales,
                Ok(session),
            )
        }),
{
    reveal(Setup::begins);
    let coordinates = setup.config.coordinates();
    let scales = crate::backend::head(calls, coordinates.len());
    crate::laws::choosing::law_pool_needs_every_scale(setup.sight, coordinates, scales);
    crate::search::pool::pool_outcome(setup.sight, coordinates, scales)->Ok_0
}

proof fn lemma_measures(
    setup: Setup,
    sight: Sight,
    pool: Seq<Candidate>,
    calls: Seq<BackendCall>,
    session: SessionModel,
)
    requires
        setup.measures(sight, pool, calls, Ok(session)),
    ensures
        ({
            let count = setup.targets.len() + setup.controls.len();
            let gaps = crate::backend::head(calls, count);
            let after_gaps = crate::backend::tail(calls, count);
            let outcome = crate::search::state::both_outcome(setup.targets, setup.controls, gaps);
            &&& gaps.len() == count
            &&& crate::search::state::both_requests(setup.targets, setup.controls, gaps)
            &&& outcome is Ok
            &&& setup.takes_up(
                crate::backend::seen(sight, gaps),
                pool,
                outcome->Ok_0.0,
                outcome->Ok_0.1,
                after_gaps,
                Ok(session),
            )
        }),
{
    reveal(Setup::measures);
    let gaps = crate::backend::head(calls, setup.targets.len() + setup.controls.len());
    law_targets_and_controls_are_measured(setup.targets, setup.controls, gaps);
}

proof fn lemma_takes_up(
    setup: Setup,
    sight: Sight,
    pool: Seq<Candidate>,
    target: Seq<MeasurementModel>,
    control: Seq<MeasurementModel>,
    calls: Seq<BackendCall>,
    session: SessionModel,
)
    requires
        setup.takes_up(sight, pool, target, control, calls, Ok(session)),
    ensures
        session.pool == pool,
        session.targets == setup.targets,
        session.controls == setup.controls,
        session.config == setup.config,
        session.architecture_signature == sight.map.signature,
        session.model_label == sight.label,
        crate::search::screen::is_screen(
            session.target_baseline,
            setup.config.screen_probe_count as nat,
            session.screen,
        ),
        session.pending is None && session.screened_out == 0,
        setup.resume is None ==> session.target_baseline == target && session.control_baseline
            == control && calls.len() == 0 && session.accepted.len() == 0 && session.tried
            == Set::<PatchFlip>::empty() && session.current_fitness.bits == 0
            && session.completed_iterations == 0 && session.rng.state == setup.config.seed,
        setup.resume matches Some(checkpoint) ==> {
            &&& checkpoint.fault(setup.config, sight.map.signature, target, control) is None
            &&& session.accepted == checkpoint.accepted
            &&& session.target_baseline == checkpoint.target_baseline
            &&& session.control_baseline == checkpoint.control_baseline
            &&& session.tried == checkpoint.tried
            &&& session.current_fitness == checkpoint.current_fitness
            &&& session.completed_iterations == checkpoint.completed_iterations
            &&& session.rng.state == checkpoint.rng_state
            &&& calls.len() == checkpoint.accepted.len()
            &&& forall|i: int|
                0 <= i < calls.len() ==> (#[trigger] calls[i]) is FlipRow && calls[i]->flip
                    == checkpoint.accepted[i] && calls[i]->FlipRow_reply is Ok
        },
{
    reveal(Setup::takes_up);
    if let Some(checkpoint) = setup.resume {
        assert forall|i: int| 0 <= i < calls.len() implies (#[trigger] calls[i]) is FlipRow
            && calls[i]->flip == checkpoint.accepted[i] && calls[i]->FlipRow_reply is Ok by {
            assert(crate::restore::asks_flip(checkpoint.accepted[i], calls[i]));
        }
    }
}

/// A search begins with the rows of its coordinates and with the gaps of its probes, all
/// given by the model. A search that is taken up must agree with them, and its accepted
/// rows are flipped at once, in their order; a new search flips nothing.
pub proof fn law_searches_begin_with_what_the_model_gives(
    setup: Setup,
    calls: Seq<BackendCall>,
    session: SessionModel,
)
    requires
        setup.begins(calls, Ok(session)),
    ensures
        ({
            let coordinates = setup.config.coordinates();
            let scales = calls.take(coordinates.len() as int);
            let gaps = calls.subrange(
                coordinates.len() as int,
                (coordinates.len() + setup.targets.len() + setup.controls.len()) as int,
            );
            let flips = calls.skip(
                (coordinates.len() + setup.targets.len() + setup.controls.len()) as int,
            );
            let (target, control) = crate::search::state::both_outcome(
                setup.targets,
                setup.controls,
                gaps,
            )->Ok_0;
            &&& setup.config.fault(
                setup.sight.map,
                setup.targets.len(),
                setup.controls.len(),
            ) is None
            &&& calls.len() >= coordinates.len() + setup.targets.len() + setup.controls.len()
            &&& crate::search::pool::scale_requests(setup.sight, coordinates, scales)
            &&& crate::search::pool::pool_outcome(setup.sight, coordinates, scales) == Ok::<
                Seq<Candidate>,
                ErrorModel,
            >(session.pool)
            &&& crate::search::state::both_requests(setup.targets, setup.controls, gaps)
            &&& crate::search::state::both_outcome(setup.targets, setup.controls, gaps) is Ok
            &&& session.targets == setup.targets
            &&& session.controls == setup.controls
            &&& session.config == setup.config
            &&& session.architecture_signature == gaps.last().sight().map.signature
            &&& session.model_label == gaps.last().sight().label
            &&& crate::search::screen::is_screen(
                session.target_baseline,
                setup.config.screen_probe_count as nat,
                session.screen,
            )
            &&& session.pending is None && session.screened_out == 0
            &&& setup.resume is None ==> session.target_baseline == target
                && session.control_baseline == control && flips.len() == 0
                && session.accepted.len() == 0 && session.tried == Set::<PatchFlip>::empty()
                && session.current_fitness.bits == 0 && session.completed_iterations == 0
                && session.rng.state == setup.config.seed
            &&& setup.resume matches Some(checkpoint) ==> {
                &&& checkpoint.fault(
                    setup.config,
                    session.architecture_signature,
                    target,
                    control,
                ) is None
                &&& session.accepted == checkpoint.accepted
                &&& session.target_baseline == checkpoint.target_baseline
                &&& session.control_baseline == checkpoint.control_baseline
                &&& session.tried == checkpoint.tried
                &&& session.current_fitness == checkpoint.current_fitness
                &&& session.completed_iterations == checkpoint.completed_iterations
                &&& session.rng.state == checkpoint.rng_state
                &&& flips.len() == checkpoint.accepted.len()
                &&& forall|i: int|
                    0 <= i < flips.len() ==> (#[trigger] flips[i]) is FlipRow && flips[i]->flip
                        == checkpoint.accepted[i] && flips[i]->FlipRow_reply is Ok
            }
        }),
{
    let coordinates = setup.config.coordinates();
    let scales = crate::backend::head(calls, coordinates.len());
    let after_scales = crate::backend::tail(calls, coordinates.len());
    let pool = lemma_begins(setup, calls, session);
    let sight = crate::backend::seen(setup.sight, scales);
    lemma_measures(setup, sight, pool, after_scales, session);
    let count = setup.targets.len() + setup.controls.len();
    let gaps = crate::backend::head(after_scales, count);
    let after_gaps = crate::backend::tail(after_scales, count);
    let (target, control) = crate::search::state::both_outcome(
        setup.targets,
        setup.controls,
        gaps,
    )->Ok_0;
    lemma_takes_up(
        setup,
        crate::backend::seen(sight, gaps),
        pool,
        target,
        control,
        after_gaps,
        session,
    );
    assert(gaps.len() > 0);
    assert(scales =~= calls.take(coordinates.len() as int));
    assert(gaps =~= calls.subrange(
        coordinates.len() as int,
        (coordinates.len() + setup.targets.len() + setup.controls.len()) as int,
    ));
    assert(after_gaps =~= calls.skip(
        (coordinates.len() + setup.targets.len() + setup.controls.len()) as int,
    ));
}

/// Measuring targets and controls fails with the first thing that fails, and controls are
/// asked for only once all targets have finite gaps.
pub proof fn law_measuring_both_fails_in_order(
    targets: Seq<crate::probe::CompiledModel>,
    controls: Seq<crate::probe::CompiledModel>,
    calls: Seq<BackendCall>,
    error: ErrorModel,
)
    requires
        crate::search::state::both_requests(targets, controls, calls),
        crate::search::state::both_outcome(targets, controls, calls) == Err::<
            (Seq<MeasurementModel>, Seq<MeasurementModel>),
            ErrorModel,
        >(error),
    ensures
        ({
            ||| {
                &&& calls.len() <= targets.len()
                &&& crate::probe::gap_requests(targets, calls)
                &&& crate::probe::finite_gap_outcome(targets, calls) == Err::<
                    Seq<MeasurementModel>,
                    ErrorModel,
                >(error)
            }
            ||| {
                &&& calls.len() >= targets.len()
                &&& crate::probe::gap_requests(targets, calls.take(targets.len() as int))
                &&& crate::probe::finite_gap_outcome(
                    targets,
                    calls.take(targets.len() as int),
                ) is Ok
                &&& crate::probe::gap_requests(controls, calls.skip(targets.len() as int))
                &&& crate::probe::finite_gap_outcome(
                    controls,
                    calls.skip(targets.len() as int),
                ) == Err::<Seq<MeasurementModel>, ErrorModel>(error)
            }
        }),
{
    let first = crate::backend::head(calls, targets.len());
    crate::laws::flipping::law_requests_are_split(calls, targets.len());
    if crate::probe::finite_gap_outcome(targets, first) is Ok {
        crate::laws::probing::law_measurements_hold_the_gaps_given(targets, first);
        assert(first.len() == targets.len());
    } else if targets.len() < calls.len() {
        assert(crate::backend::tail(calls, targets.len()).len() > 0);
    } else if targets.len() == calls.len() {
        assert(calls.take(calls.len() as int) =~= calls);
    }
}

/// A search that cannot begin is refused for what is wrong: its configuration, before the
/// model is asked anything; the scales of its rows; the gaps of its probes; or its
/// checkpoint, before any row is flipped.
pub proof fn law_searches_that_cannot_begin(
    setup: Setup,
    calls: Seq<BackendCall>,
    error: ErrorModel,
)
    requires
        setup.begins(calls, Err(error)),
    ensures
        ({
            let coordinates = setup.config.coordinates();
            let scales = crate::backend::head(calls, coordinates.len());
            let after_scales = crate::backend::tail(calls, coordinates.len());
            let count = setup.targets.len() + setup.controls.len();
            let gaps = crate::backend::head(after_scales, count);
            let flips = crate::backend::tail(after_scales, count);
            let fault = setup.config.fault(
                setup.sight.map,
                setup.targets.len(),
                setup.controls.len(),
            );
            let pool = crate::search::pool::pool_outcome(setup.sight, coordinates, scales);
            let measured = crate::search::state::both_outcome(
                setup.targets,
                setup.controls,
                gaps,
            );
            let signature = crate::backend::seen(
                crate::backend::seen(setup.sight, scales),
                gaps,
            ).map.signature;
            &&& fault is Some ==> fault == Some(error) && calls.len() == 0
            &&& fault is None && pool is Err ==> pool->Err_0 == error && after_scales.len() == 0
            &&& fault is None && pool is Ok && measured is Err ==> measured->Err_0 == error
                && flips.len() == 0
            &&& fault is None && pool is Ok && measured is Ok ==> {
                &&& setup.resume matches Some(checkpoint)
                &&& match checkpoint.fault(
                    setup.config,
                    signature,
                    measured->Ok_0.0,
                    measured->Ok_0.1,
                ) {
                    Some(complaint) => error == complaint && flips.len() == 0,
                    None => crate::restore::applies(
                        checkpoint.accepted,
                        "checkpoint restoration"@,
                        flips,
                        Err(error),
                    ),
                }
            }
        }),
{
    reveal(Setup::begins);
    reveal(Setup::measures);
    reveal(Setup::takes_up);
}

} // verus!
