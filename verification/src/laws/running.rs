//! What happens in the course of a search, and how it ends.

use vstd::prelude::*;

use crate::architecture::ArchitectureModel;
use crate::backend::BackendCall;
use crate::error::ErrorModel;
use crate::float::Binary32;
use crate::patch::PatchValidation;
use crate::probe::MeasurementModel;
use crate::search::evaluate::ReadingModel;
use crate::search::host::HostCall;
use crate::search::report::{EventModel, ResultModel};
use crate::search::run::{Iteration, Run};
use crate::search::state::{CandidateEvaluation, SessionModel, Setup};

verus! {

/// The host's pick counts where it is on offer. Any other reply is no pick.
pub proof fn law_picks_are_on_offer(session: SessionModel, reply: Option<usize>)
    ensures
        reply matches Some(place) ==> place < session.available().len()
            ==> crate::search::run::pick_of(session, reply) == Some(place),
        reply matches Some(place) ==> place >= session.available().len()
            ==> crate::search::run::pick_of(session, reply) is None,
        reply is None ==> crate::search::run::pick_of(session, reply) is None,
{
}

/// A search goes on while it has iterations left, no row under trial, and rows that it has
/// not tried.
pub proof fn law_searches_go_on_while_they_can(session: SessionModel)
    requires
        session.pool.len() <= usize::MAX,
    ensures
        crate::search::run::may_go_on(session) <==> {
            &&& session.pending is None
            &&& session.completed_iterations < session.config.max_iters
            &&& exists|k: int|
                0 <= k < session.pool.len() && !session.tried.contains(
                    (#[trigger] session.pool[k]).flip,
                )
        },
{
    if session.available().len() > 0 {
        let place = session.available()[0];
        assert(session.available().contains(place));
        crate::laws::choosing::law_untried_rows_are_on_offer(session, place);
        assert(!session.tried.contains(session.pool[place as int].flip));
    }
    if exists|k: int|
        0 <= k < session.pool.len() && !session.tried.contains(
            (#[trigger] session.pool[k]).flip,
        ) {
        let k = choose|k: int|
            0 <= k < session.pool.len() && !session.tried.contains(
                (#[trigger] session.pool[k]).flip,
            );
        crate::laws::choosing::law_untried_rows_are_on_offer(session, k as usize);
        assert(session.available().contains(k as usize));
    }
}

/// What the host is asked in an iteration, in order: whether to stop; which row to take, by
/// the weights of the rows on offer and the next ticket; once the row is announced and its
/// gaps are measured, how fit they are, by the mode and the penalty that were set and
/// against the baselines; and, once it is told what became of the row, to save the search
/// as it then stands.
pub proof fn law_iterations_ask_the_host(iteration: Iteration, before: SessionModel)
    requires
        iteration.follows(before),
    ensures
        ({
            let record = iteration.record(before);
            let trying = iteration.trying(before);
            let after = iteration.after(before);
            let judged: int = if iteration.reading is Measured {
                1
            } else {
                0
            };
            &&& record[0] == (HostCall::Cancelled { reply: false })
            &&& record[1] == (HostCall::Weigh {
                weights: before.weights(),
                ticket: before.ticket(),
                reply: iteration.reply,
            })
            &&& record[2] == (HostCall::Event {
                event: EventModel::Candidate {
                    iteration: before.completed_iterations + 1,
                    flip: trying.pending->Some_0,
                },
            })
            &&& iteration.reading matches ReadingModel::Measured { target, control } ==> record[3]
                == (HostCall::Fitness {
                mode: before.config.fitness_mode,
                control_penalty: before.config.control_penalty,
                target,
                control,
                target_baseline: before.target_baseline,
                control_baseline: before.control_baseline,
                reply: Ok(iteration.fitness),
            })
            &&& record[3 + judged] == (HostCall::Event {
                event: trying.verdict(iteration.evaluation()),
            })
            &&& record[4 + judged] == (HostCall::Save {
                checkpoint: after.checkpoint(),
                reply: iteration.saved,
            })
            &&& iteration.saved == Ok::<bool, ErrorModel>(true) ==> record.len() == 6 + judged
                && record[5 + judged] == (HostCall::Event {
                event: EventModel::Checkpoint { iteration: after.completed_iterations },
            })
            &&& iteration.saved != Ok::<bool, ErrorModel>(true) ==> record.len() == 5 + judged
        }),
{
}

/// An iteration takes a row, tries it on the model and settles it. A row with measured
/// gaps is judged by its fitness.
pub proof fn law_iterations_try_one_row(iteration: Iteration, before: SessionModel)
    requires
        iteration.follows(before),
    ensures
        ({
            let pick = crate::search::run::pick_of(before, iteration.reply);
            let trying = before.taken(pick);
            let evaluation = match iteration.reading {
                ReadingModel::ScreenedOut => CandidateEvaluation::ScreenedOut,
                ReadingModel::NonFinite => CandidateEvaluation::Measured {
                    fitness: Binary32 { bits: 0x7fc0_0000 },
                },
                ReadingModel::Measured { .. } => CandidateEvaluation::Measured {
                    fitness: iteration.fitness,
                },
            };
            &&& crate::search::run::may_go_on(before)
            &&& iteration.trying(before) == trying
            &&& iteration.evaluation() == evaluation
            &&& iteration.after(before) == trying.settled(evaluation)
            &&& trying.evaluates(before.drawn(pick), iteration.measured, Ok(iteration.reading))
            &&& trying.settles(
                Ok(evaluation),
                iteration.settled,
                trying.settled(evaluation),
                Ok(trying.verdict(evaluation)),
            )
        }),
{
    reveal(Iteration::follows);
}

/// Iterations follow one another: each starts from where the one before it ended, and what
/// the model and the host were asked adds up.
pub proof fn law_iterations_follow_one_another(
    begun: SessionModel,
    iterations: Seq<Iteration>,
    iteration: Iteration,
)
    ensures
        crate::search::run::after_iterations(begun, Seq::empty()) == begun,
        crate::search::run::iteration_calls(Seq::empty()) == Seq::<BackendCall>::empty(),
        crate::search::run::iteration_records(begun, Seq::empty()) == Seq::<HostCall>::empty(),
        ({
            let before = crate::search::run::after_iterations(begun, iterations);
            let more = iterations.push(iteration);
            &&& crate::search::run::after_iterations(begun, more) == iteration.after(before)
            &&& crate::search::run::iteration_calls(more) == crate::search::run::iteration_calls(
                iterations,
            ) + iteration.measured + iteration.settled
            &&& crate::search::run::iteration_records(begun, more)
                == crate::search::run::iteration_records(begun, iterations) + iteration.record(
                before,
            )
            &&& crate::search::run::iterations_follow(begun, more)
                <==> crate::search::run::iterations_follow(begun, iterations) && iteration.follows(
                before,
            )
        }),
{
    assert(iterations.push(iteration).drop_last() =~= iterations);
    assert(crate::search::run::iteration_calls(iterations.push(iteration))
        =~= crate::search::run::iteration_calls(iterations) + iteration.measured
        + iteration.settled);
}

/// A search that completes has used up its iterations or its rows. It measures its probes
/// once more on the patched model, has the host weigh them against the baselines, and
/// reports its patch, which the model accepts, and the end.
pub proof fn law_completed_searches_have_nothing_left(setup: Setup, run: Run, result: ResultModel)
    requires
        run.completes(setup, result),
        run.last().pool.len() <= usize::MAX,
        run.last().pending is None,
    ensures
        ({
            let last = run.last();
            let map = run.map(setup);
            let asked = if last.completed_iterations < last.config.max_iters {
                1int
            } else {
                0int
            };
            let measured = crate::search::state::both_outcome(
                last.targets,
                last.controls,
                run.ending,
            );
            &&& last.completed_iterations >= last.config.max_iters || forall|k: int|
                0 <= k < last.pool.len() ==> last.tried.contains((#[trigger] last.pool[k]).flip)
            &&& crate::search::state::both_requests(last.targets, last.controls, run.ending)
            &&& measured == Ok::<(Seq<MeasurementModel>, Seq<MeasurementModel>), ErrorModel>(
                (result.final_target, result.final_control),
            )
            &&& result == last.result(
                map,
                result.final_target,
                result.final_control,
                result.final_fitness,
            )
            &&& last.patch().fault(
                map,
                (PatchValidation { allow_model_signature_mismatch: false }),
            ) is None
            &&& run.closing.len() == asked + 2
            &&& asked == 1 ==> run.closing[0] == (HostCall::Cancelled { reply: false })
            &&& run.closing[asked] == (HostCall::Fitness {
                mode: last.config.fitness_mode,
                control_penalty: last.config.control_penalty,
                target: result.final_target,
                control: result.final_control,
                target_baseline: last.target_baseline,
                control_baseline: last.control_baseline,
                reply: Ok(result.final_fitness),
            })
            &&& run.closing[asked + 1] == (HostCall::Event {
                event: EventModel::Completed {
                    iterations: last.completed_iterations,
                    accepted: last.accepted.len(),
                    fitness: result.final_fitness,
                },
            })
        }),
{
    reveal(crate::search::run::closes);
    reveal(crate::search::run::concluding);
    let last = run.last();
    law_searches_go_on_while_they_can(last);
    let question = crate::search::run::last_question(last);
    let asked = run.closing.skip(question.len() as int);
    assert(run.closing == question + asked);
    assert(asked.len() == 2);
    assert(run.closing[question.len() as int] == asked[0]);
    assert(run.closing[question.len() as int + 1] == asked[1]);
}

/// A whole search first asks the model what it begins with, then what its iterations ask,
/// then what its end asks. The host hears of the baselines first.
pub proof fn law_searches_are_recorded_whole(run: Run)
    ensures
        run.calls() == run.beginning + crate::search::run::iteration_calls(run.iterations)
            + run.ending,
        run.record() == seq![
            HostCall::Event {
                event: EventModel::Baseline {
                    target: run.begun.target_baseline,
                    control: run.begun.control_baseline,
                },
            },
        ] + crate::search::run::iteration_records(run.begun, run.iterations) + run.closing,
{
    assert(run.calls() =~= run.beginning + crate::search::run::iteration_calls(run.iterations)
        + run.ending);
}

/// A search that the host stops asks nothing more of the model, saves itself as it stands,
/// and ends as cancelled, or with the error of the saving.
pub proof fn law_stopped_searches_save_themselves(
    last: SessionModel,
    calls: Seq<BackendCall>,
    asked: Seq<HostCall>,
    error: ErrorModel,
)
    requires
        crate::search::run::advance_fails(last, calls, asked, error),
    ensures
        asked.len() > 0,
        asked[0] is Cancelled,
        asked[0] == (HostCall::Cancelled { reply: true }) ==> {
            &&& calls.len() == 0
            &&& asked.len() == 2
            &&& asked[1] is Save
            &&& asked[1]->checkpoint == last.checkpoint()
            &&& asked[1]->Save_reply is Ok ==> error == ErrorModel::SearchCancelled
            &&& asked[1]->Save_reply matches Err(failure) ==> error == failure
        },
        asked[0] == (HostCall::Cancelled { reply: false }) ==> crate::search::run::may_go_on(last)
            && asked.len() >= 3 && asked[1] is Weigh && asked[1]->weights == last.weights()
            && asked[1]->ticket == last.ticket(),
{
    reveal(crate::search::run::advance_fails);
    reveal(Iteration::follows);
    if exists|iteration: Iteration| #[trigger]
        crate::search::run::goes_unsaved(last, calls, asked, iteration, error) {
        let iteration = choose|iteration: Iteration| #[trigger]
            crate::search::run::goes_unsaved(last, calls, asked, iteration, error);
        law_iterations_ask_the_host(iteration, last);
    }
}

/// An iteration that fails ends the search with the error of what failed: of the model,
/// of the host's fitness, of flipping back, or of the saving.
pub proof fn law_failed_iterations_end_the_search(
    last: SessionModel,
    calls: Seq<BackendCall>,
    asked: Seq<HostCall>,
    error: ErrorModel,
)
    requires
        crate::search::run::advance_fails(last, calls, asked, error),
        asked[0] == (HostCall::Cancelled { reply: false }),
    ensures
        ({
            let pick = crate::search::run::pick_of(last, asked[1]->Weigh_reply);
            let trying = last.taken(pick);
            ||| trying.evaluates(last.drawn(pick), calls, Err(error))
            ||| exists|
                split: int,
                reading: ReadingModel,
                fitness: Result<Binary32, ErrorModel>,
            |
                #![trigger calls.take(split), crate::search::state::worth(reading, fitness)]
                0 <= split <= calls.len() && trying.evaluates(
                    last.drawn(pick),
                    calls.take(split),
                    Ok(reading),
                ) && trying.settles(
                    crate::search::state::worth(reading, fitness),
                    calls.skip(split),
                    trying,
                    Err(error),
                )
            ||| asked.last() is Save && asked.last()->Save_reply == Err::<bool, ErrorModel>(error)
        }),
{
    reveal(crate::search::run::advance_fails);
    if exists|iteration: Iteration| #[trigger]
        crate::search::run::goes_unsaved(last, calls, asked, iteration, error) {
        let iteration = choose|iteration: Iteration| #[trigger]
            crate::search::run::goes_unsaved(last, calls, asked, iteration, error);
        law_iterations_ask_the_host(iteration, last);
    } else if crate::search::run::iteration_fails(last, calls, asked, error) {
        if exists|reply: Option<usize>| #[trigger]
            crate::search::run::fails_to_measure(last, reply, calls, asked, error) {
            let reply = choose|reply: Option<usize>| #[trigger]
                crate::search::run::fails_to_measure(last, reply, calls, asked, error);
            assert(asked[1] == crate::search::run::drawing(last, reply)[0]);
        } else {
            let (reply, measured, reading, fitness, settled) = choose|
                reply: Option<usize>,
                measured: Seq<BackendCall>,
                reading: ReadingModel,
                fitness: Result<Binary32, ErrorModel>,
                settled: Seq<BackendCall>,
            |
                calls == measured + settled && #[trigger] crate::search::run::fails_to_settle(
                    last,
                    reply,
                    measured,
                    reading,
                    fitness,
                    settled,
                    asked,
                    error,
                );
            assert(asked[1] == crate::search::run::drawing(last, reply)[0]);
            let split = measured.len() as int;
            assert(calls.take(split) =~= measured);
            assert(calls.skip(split) =~= settled);
            let outcome = crate::search::state::worth(reading, fitness);
            assert(last.taken(crate::search::run::pick_of(last, reply)).settles(
                outcome,
                calls.skip(split),
                last.taken(crate::search::run::pick_of(last, reply)),
                Err(error),
            ));
        }
    }
}

/// A search that fails at its end fails with the error of the last measurement or of the
/// host's fitness, or because the model no longer accepts the patch.
pub proof fn law_failed_ends(
    last: SessionModel,
    calls: Seq<BackendCall>,
    asked: Seq<HostCall>,
    map: ArchitectureModel,
    error: ErrorModel,
)
    requires
        crate::search::run::concluding(last, calls, asked, map, Err(error)),
    ensures
        ({
            let measured = crate::search::state::both_outcome(last.targets, last.controls, calls);
            &&& crate::search::state::both_requests(last.targets, last.controls, calls)
            &&& measured matches Err(failure) ==> error == failure && asked.len() == 0
            &&& measured is Ok ==> asked.len() == 1 && asked[0] is Fitness && asked[0]->target
                == measured->Ok_0.0 && asked[0]->control == measured->Ok_0.1
                && match asked[0]->Fitness_reply {
                Err(failure) => error == failure,
                Ok(_) => last.patch().fault(
                    map,
                    (PatchValidation { allow_model_signature_mismatch: false }),
                ) == Some(error),
            }
        }),
{
    reveal(crate::search::run::concluding);
}

/// A search that gives a result has begun, has gone through iterations of which each
/// followed the one before and was saved, and has come to its end. Nothing else was asked
/// of the model or of the host.
pub proof fn law_results_come_from_whole_searches(
    setup: Setup,
    calls: Seq<BackendCall>,
    asked: Seq<HostCall>,
    result: ResultModel,
)
    requires
        crate::search::run::searches(setup, calls, asked, Ok(result)),
    ensures
        exists|run: Run|
            {
                &&& #[trigger] run.completes(setup, result)
                &&& calls == run.calls()
                &&& asked == run.record()
                &&& setup.begins(run.beginning, Ok(run.begun))
                &&& crate::search::run::iterations_follow(run.begun, run.iterations)
                &&& forall|i: int|
                    0 <= i < run.iterations.len() ==> (#[trigger] run.iterations[i]).saved is Ok
                &&& run.last() == crate::search::run::after_iterations(run.begun, run.iterations)
                &&& run.map(setup) == crate::backend::seen(setup.sight, calls).map
            },
{
    let run = choose|run: Run| #[trigger]
        crate::search::run::ends(run, setup, calls, asked, Ok(result));
    assert(run.completes(setup, result));
}

/// A search that fails could not begin, and then asked nothing of the host; or it went
/// through iterations that followed one another, and failed in the next or at the end.
pub proof fn law_failures_come_from_searches(
    setup: Setup,
    calls: Seq<BackendCall>,
    asked: Seq<HostCall>,
    error: ErrorModel,
)
    requires
        crate::search::run::searches(setup, calls, asked, Err(error)),
    ensures
        ({
            ||| setup.begins(calls, Err(error)) && asked.len() == 0
            ||| exists|run: Run|
                {
                    &&& #[trigger] run.breaks_off(setup, error)
                    &&& calls == run.calls()
                    &&& asked == run.record()
                    &&& setup.begins(run.beginning, Ok(run.begun))
                    &&& crate::search::run::iterations_follow(run.begun, run.iterations)
                    &&& forall|i: int|
                        0 <= i < run.iterations.len() ==> (
                        #[trigger] run.iterations[i]).saved is Ok
                    &&& crate::search::run::advance_fails(
                        run.last(),
                        run.ending,
                        run.closing,
                        error,
                    ) || crate::search::run::concluding(
                        run.last(),
                        run.ending,
                        run.closing.skip(
                            if run.last().pending is None && run.last().completed_iterations
                                < run.last().config.max_iters {
                                1
                            } else {
                                0
                            },
                        ),
                        run.map(setup),
                        Err(error),
                    )
                }
        }),
{
    if !(setup.begins(calls, Err(error)) && asked.len() == 0) {
        reveal(crate::search::run::closes);
        let run = choose|run: Run| #[trigger]
            crate::search::run::ends(run, setup, calls, asked, Err(error));
        assert(run.breaks_off(setup, error));
    }
}

/// What a host was asked since an earlier time is what its record has after it.
pub proof fn law_records_go_on(before: Seq<HostCall>, more: Seq<HostCall>)
    ensures
        crate::search::run::asked_since(before, before + more) == more,
{
    assert((before + more).skip(before.len() as int) =~= more);
}

} // verus!
