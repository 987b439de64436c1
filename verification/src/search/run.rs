//! The search as a whole.

use vstd::prelude::*;

use crate::architecture::ArchitectureModel;
use crate::backend::{BackendCall, MiyagiBackend};
use crate::error::{Error, ErrorModel};
use crate::float::Binary32;
use crate::patch::PatchValidation;
use crate::probe::{CompiledProbe, MeasurementModel, ProbeMeasurement};
use crate::search::checkpoint::SearchCheckpoint;
use crate::search::config::SearchConfig;
use crate::search::evaluate::{CandidateReading, ReadingModel};
use crate::search::host::{HostCall, SearchHost, Watched};
use crate::search::report::{EventModel, ResultModel, SearchEvent, SearchResult};
use crate::search::session::{Draw, SearchSession};
use crate::search::state::{CandidateEvaluation, SessionModel, Setup, Step};

verus! {

/// The pick that the host's answer stands for.
pub open spec fn pick_of(before: SessionModel, reply: Option<usize>) -> Option<usize> {
    match reply {
        Some(place) => if place < before.available().len() {
            Some(place)
        } else {
            None
        },
        None => None,
    }
}

/// There is an iteration left and a row to draw.
pub open spec fn may_go_on(session: SessionModel) -> bool {
    session.wants_more() && session.available().len() > 0
}

/// What the host is asked when a row is drawn.
pub open spec fn drawing(before: SessionModel, reply: Option<usize>) -> Seq<HostCall> {
    seq![
        HostCall::Weigh { weights: before.weights(), ticket: before.ticket(), reply },
        HostCall::Event {
            event: EventModel::Candidate {
                iteration: before.completed_iterations + 1,
                flip: before.drawn(pick_of(before, reply)),
            },
        },
    ]
}

/// What the host is asked about measurements: their fitness.
pub open spec fn weighing(
    session: SessionModel,
    target: Seq<MeasurementModel>,
    control: Seq<MeasurementModel>,
    reply: Result<Binary32, ErrorModel>,
) -> HostCall {
    HostCall::Fitness {
        mode: session.config.fitness_mode,
        control_penalty: session.config.control_penalty,
        target,
        control,
        target_baseline: session.target_baseline,
        control_baseline: session.control_baseline,
        reply,
    }
}

/// What the host is asked about a candidate: the fitness of its measurements, where
/// there are any.
pub open spec fn judging(
    session: SessionModel,
    reading: ReadingModel,
    reply: Result<Binary32, ErrorModel>,
) -> Seq<HostCall> {
    match reading {
        ReadingModel::Measured { target, control } => seq![
            weighing(session, target, control, reply),
        ],
        _ => seq![],
    }
}

/// One iteration of a search: how the host and the model answered.
pub struct Iteration {
    pub reply: Option<usize>,
    pub measured: Seq<BackendCall>,
    pub reading: ReadingModel,
    /// The fitness of the measurements; zero where there are none.
    pub fitness: Binary32,
    pub settled: Seq<BackendCall>,
    pub saved: Result<bool, ErrorModel>,
}

impl Iteration {
    /// What the candidate was worth.
    pub open spec fn evaluation(self) -> CandidateEvaluation {
        crate::search::state::worth(self.reading, Ok(self.fitness))->Ok_0
    }

    pub open spec fn step(self, before: SessionModel) -> Step {
        Step { pick: pick_of(before, self.reply), evaluation: self.evaluation() }
    }

    /// The search while the candidate is tried.
    pub open spec fn trying(self, before: SessionModel) -> SessionModel {
        before.taken(pick_of(before, self.reply))
    }

    /// The search after the iteration.
    pub open spec fn after(self, before: SessionModel) -> SessionModel {
        self.trying(before).settled(self.evaluation())
    }

    /// The iteration follows on `before`.
    #[verifier::opaque]
    pub open spec fn follows(self, before: SessionModel) -> bool {
        let trying = self.trying(before);
        &&& may_go_on(before)
        &&& !(self.reading is Measured) ==> self.fitness == (Binary32 { bits: 0 })
        &&& trying.evaluates(
            before.drawn(pick_of(before, self.reply)),
            self.measured,
            Ok(self.reading),
        )
        &&& trying.settles(
            Ok(self.evaluation()),
            self.settled,
            self.after(before),
            Ok(trying.verdict(self.evaluation())),
        )
    }

    /// What the host was asked until the candidate was settled.
    pub open spec fn deciding(self, before: SessionModel) -> Seq<HostCall> {
        drawing(before, self.reply) + judging(
            self.trying(before),
            self.reading,
            Ok(self.fitness),
        ) + seq![HostCall::Event { event: self.trying(before).verdict(self.evaluation()) }]
    }

    /// What the host was asked when the checkpoint was saved.
    pub open spec fn saving(self, before: SessionModel) -> Seq<HostCall> {
        let after = self.after(before);
        let save = HostCall::Save { checkpoint: after.checkpoint(), reply: self.saved };
        if self.saved == Ok::<bool, ErrorModel>(true) {
            seq![
                save,
                HostCall::Event {
                    event: EventModel::Checkpoint { iteration: after.completed_iterations },
                },
            ]
        } else {
            seq![save]
        }
    }

    /// What the host was asked.
    pub open spec fn record(self, before: SessionModel) -> Seq<HostCall> {
        seq![HostCall::Cancelled { reply: false }] + (self.deciding(before) + self.saving(before))
    }
}

/// The search after the iterations.
pub open spec fn after_iterations(begun: SessionModel, iterations: Seq<Iteration>) -> SessionModel
    decreases iterations.len(),
{
    if iterations.len() == 0 {
        begun
    } else {
        iterations.last().after(after_iterations(begun, iterations.drop_last()))
    }
}

/// The iterations follow on each other.
pub open spec fn iterations_follow(begun: SessionModel, iterations: Seq<Iteration>) -> bool
    decreases iterations.len(),
{
    iterations.len() > 0 ==> {
        &&& iterations_follow(begun, iterations.drop_last())
        &&& iterations.last().follows(after_iterations(begun, iterations.drop_last()))
    }
}

/// What the model was asked in the iterations.
pub open spec fn iteration_calls(iterations: Seq<Iteration>) -> Seq<BackendCall>
    decreases iterations.len(),
{
    if iterations.len() == 0 {
        seq![]
    } else {
        iteration_calls(iterations.drop_last()) + (iterations.last().measured
            + iterations.last().settled)
    }
}

/// What the host was asked in the iterations.
pub open spec fn iteration_records(begun: SessionModel, iterations: Seq<Iteration>) -> Seq<HostCall>
    decreases iterations.len(),
{
    if iterations.len() == 0 {
        seq![]
    } else {
        iteration_records(begun, iterations.drop_last()) + iterations.last().record(
            after_iterations(begun, iterations.drop_last()),
        )
    }
}

/// The host asks the search to stop, and is given the checkpoint to save.
pub open spec fn cancels(
    last: SessionModel,
    calls: Seq<BackendCall>,
    asked: Seq<HostCall>,
    reply: Result<bool, ErrorModel>,
    error: ErrorModel,
) -> bool {
    &&& calls.len() == 0
    &&& asked == seq![
        HostCall::Cancelled { reply: true },
        HostCall::Save { checkpoint: last.checkpoint(), reply },
    ]
    &&& error == match reply {
        Ok(_) => ErrorModel::SearchCancelled,
        Err(failure) => failure,
    }
}

/// The next iteration is completed, but its checkpoint cannot be saved.
pub open spec fn goes_unsaved(
    last: SessionModel,
    calls: Seq<BackendCall>,
    asked: Seq<HostCall>,
    iteration: Iteration,
    error: ErrorModel,
) -> bool {
    &&& iteration.follows(last)
    &&& iteration.saved == Err::<bool, ErrorModel>(error)
    &&& calls == iteration.measured + iteration.settled
    &&& asked == iteration.record(last)
}

/// The next iteration ends the search with the error.
#[verifier::opaque]
pub open spec fn advance_fails(
    last: SessionModel,
    calls: Seq<BackendCall>,
    asked: Seq<HostCall>,
    error: ErrorModel,
) -> bool {
    ||| exists|reply: Result<bool, ErrorModel>| #[trigger] cancels(last, calls, asked, reply, error)
    ||| exists|iteration: Iteration| #[trigger] goes_unsaved(last, calls, asked, iteration, error)
    ||| iteration_fails(last, calls, asked, error)
}

/// The model is measured once more, and the result is that of the accepted rows.
pub open spec fn concludes(
    last: SessionModel,
    calls: Seq<BackendCall>,
    asked: Seq<HostCall>,
    map: ArchitectureModel,
    result: ResultModel,
) -> bool {
    &&& crate::search::state::both_requests(last.targets, last.controls, calls)
    &&& match crate::search::state::both_outcome(last.targets, last.controls, calls) {
        Err(_) => false,
        Ok((target, control)) => {
            &&& result == last.result(map, target, control, result.final_fitness)
            &&& last.patch().fault(
                map,
                (PatchValidation { allow_model_signature_mismatch: false }),
            ) is None
            &&& asked == seq![
                weighing(last, target, control, Ok(result.final_fitness)),
                HostCall::Event {
                    event: EventModel::Completed {
                        iterations: last.completed_iterations,
                        accepted: last.accepted.len(),
                        fitness: result.final_fitness,
                    },
                },
            ]
        },
    }
}

/// The last measurement fails, or its fitness cannot be computed, or the patch does
/// not fit the model.
pub open spec fn conclusion_fails(
    last: SessionModel,
    calls: Seq<BackendCall>,
    asked: Seq<HostCall>,
    map: ArchitectureModel,
    error: ErrorModel,
) -> bool {
    &&& crate::search::state::both_requests(last.targets, last.controls, calls)
    &&& match crate::search::state::both_outcome(last.targets, last.controls, calls) {
        Err(failure) => error == failure && asked.len() == 0,
        Ok((target, control)) => exists|reply: Result<Binary32, ErrorModel>|
            asked == seq![#[trigger] weighing(last, target, control, reply)] && match reply {
                Err(failure) => error == failure,
                Ok(_) => last.patch().fault(
                    map,
                    (PatchValidation { allow_model_signature_mismatch: false }),
                ) == Some(error),
            },
    }
}

/// `outcome` is what comes of the last measurement.
#[verifier::opaque]
pub open spec fn concluding(
    last: SessionModel,
    calls: Seq<BackendCall>,
    asked: Seq<HostCall>,
    map: ArchitectureModel,
    outcome: Result<ResultModel, ErrorModel>,
) -> bool {
    match outcome {
        Ok(result) => concludes(last, calls, asked, map, result),
        Err(error) => conclusion_fails(last, calls, asked, map, error),
    }
}

/// A search from its beginning to where it ended.
pub struct Run {
    pub beginning: Seq<BackendCall>,
    pub begun: SessionModel,
    pub iterations: Seq<Iteration>,
    /// What the model was asked after these iterations.
    pub ending: Seq<BackendCall>,
    /// What the host was asked after these iterations.
    pub closing: Seq<HostCall>,
}

impl Run {
    /// What the model was asked.
    pub open spec fn calls(self) -> Seq<BackendCall> {
        self.beginning + (iteration_calls(self.iterations) + self.ending)
    }

    /// What the host was asked.
    pub open spec fn record(self) -> Seq<HostCall> {
        asked_so_far(self.begun, self.iterations) + self.closing
    }

    /// The map that the model shows at the end.
    pub open spec fn map(self, setup: Setup) -> ArchitectureModel {
        crate::backend::seen(setup.sight, self.calls()).map
    }

    /// The search after the iterations.
    pub open spec fn last(self) -> SessionModel {
        after_iterations(self.begun, self.iterations)
    }

    /// The search began as it should, and the iterations follow on each other.
    pub open spec fn runs(self, setup: Setup) -> bool {
        &&& setup.begins(self.beginning, Ok(self.begun))
        &&& iterations_follow(self.begun, self.iterations)
        &&& forall|i: int|
            0 <= i < self.iterations.len() ==> (#[trigger] self.iterations[i]).saved is Ok
    }

    /// The search came to its end: no iteration was left, or no row to draw.
    pub open spec fn completes(self, setup: Setup, result: ResultModel) -> bool {
        &&& self.runs(setup)
        &&& closes(self.last(), self.ending, self.closing, self.map(setup), Ok(result))
    }

    /// The search was broken off with the error, in an iteration or after the last.
    pub open spec fn breaks_off(self, setup: Setup, error: ErrorModel) -> bool {
        &&& self.runs(setup)
        &&& closes(self.last(), self.ending, self.closing, self.map(setup), Err(error))
    }
}

/// What the host is asked once there is nothing left to do: whether to stop, where it
/// is the rows and not the iterations that have run out.
pub open spec fn last_question(last: SessionModel) -> Seq<HostCall> {
    if last.wants_more() {
        seq![HostCall::Cancelled { reply: false }]
    } else {
        seq![]
    }
}

/// `outcome` is what comes of a search after its last full iteration. Where no
/// iteration is left, or no row to draw, the model is measured once more; otherwise
/// the next iteration ends the search.
#[verifier::opaque]
pub open spec fn closes(
    last: SessionModel,
    ending: Seq<BackendCall>,
    closing: Seq<HostCall>,
    map: ArchitectureModel,
    outcome: Result<ResultModel, ErrorModel>,
) -> bool {
    let question = last_question(last);
    let asked = closing.skip(question.len() as int);
    ||| {
        &&& last.wants_more()
        &&& outcome matches Err(error)
        &&& advance_fails(last, ending, closing, error)
    }
    ||| {
        &&& !may_go_on(last)
        &&& closing == question + asked
        &&& concluding(last, ending, asked, map, outcome)
    }
}

/// The iterations of the run and what came after them.
pub open spec fn plays_out(
    run: Run,
    begun: SessionModel,
    calls: Seq<BackendCall>,
    asked: Seq<HostCall>,
    map: ArchitectureModel,
    outcome: Result<ResultModel, ErrorModel>,
) -> bool {
    &&& run.begun == begun
    &&& iterations_follow(begun, run.iterations)
    &&& forall|i: int|
        0 <= i < run.iterations.len() ==> (#[trigger] run.iterations[i]).saved is Ok
    &&& calls == iteration_calls(run.iterations) + run.ending
    &&& asked == iteration_records(begun, run.iterations) + run.closing
    &&& closes(run.last(), run.ending, run.closing, map, outcome)
}

/// The search came to its end with the result, or was broken off with the error.
pub open spec fn ends(
    run: Run,
    setup: Setup,
    calls: Seq<BackendCall>,
    asked: Seq<HostCall>,
    outcome: Result<ResultModel, ErrorModel>,
) -> bool {
    &&& calls == run.calls()
    &&& asked == run.record()
    &&& match outcome {
        Ok(result) => run.completes(setup, result),
        Err(error) => run.breaks_off(setup, error),
    }
}

/// `outcome` is what comes of a search in which the model and the host were asked so.
pub open spec fn searches(
    setup: Setup,
    calls: Seq<BackendCall>,
    asked: Seq<HostCall>,
    outcome: Result<ResultModel, ErrorModel>,
) -> bool {
    ||| {
        &&& outcome matches Err(error)
        &&& setup.begins(calls, Err(error))
        &&& asked.len() == 0
    }
    ||| exists|run: Run| #[trigger] ends(run, setup, calls, asked, outcome)
}

/// The view of a result or of the error in its place.
pub open spec fn result_view(result: Result<SearchResult, Error>) -> Result<
    ResultModel,
    ErrorModel,
> {
    match result {
        Ok(result) => Ok(result@),
        Err(error) => Err(error@),
    }
}

/// What the host has been asked from the beginning of the search to the end of the
/// iterations.
pub open spec fn asked_so_far(begun: SessionModel, iterations: Seq<Iteration>) -> Seq<HostCall> {
    let baseline = EventModel::Baseline {
        target: begun.target_baseline,
        control: begun.control_baseline,
    };
    seq![HostCall::Event { event: baseline }] + iteration_records(begun, iterations)
}

/// The next iteration fails.
pub open spec fn iteration_fails(
    last: SessionModel,
    calls: Seq<BackendCall>,
    asked: Seq<HostCall>,
    error: ErrorModel,
) -> bool {
    ||| exists|reply: Option<usize>| #[trigger] fails_to_measure(last, reply, calls, asked, error)
    ||| exists|
        reply: Option<usize>,
        measured: Seq<BackendCall>,
        reading: ReadingModel,
        fitness: Result<Binary32, ErrorModel>,
        settled: Seq<BackendCall>,
    |
        calls == measured + settled && #[trigger] fails_to_settle(
            last,
            reply,
            measured,
            reading,
            fitness,
            settled,
            asked,
            error,
        )
}

/// The measurement of the next candidate fails.
pub open spec fn fails_to_measure(
    last: SessionModel,
    reply: Option<usize>,
    calls: Seq<BackendCall>,
    asked: Seq<HostCall>,
    error: ErrorModel,
) -> bool {
    let pick = pick_of(last, reply);
    &&& may_go_on(last)
    &&& asked == seq![HostCall::Cancelled { reply: false }] + drawing(last, reply)
    &&& last.taken(pick).evaluates(last.drawn(pick), calls, Err(error))
}

/// The next candidate cannot be judged, or not be flipped back.
pub open spec fn fails_to_settle(
    last: SessionModel,
    reply: Option<usize>,
    measured: Seq<BackendCall>,
    reading: ReadingModel,
    fitness: Result<Binary32, ErrorModel>,
    settled: Seq<BackendCall>,
    asked: Seq<HostCall>,
    error: ErrorModel,
) -> bool {
    let pick = pick_of(last, reply);
    let trying = last.taken(pick);
    &&& may_go_on(last)
    &&& asked == seq![HostCall::Cancelled { reply: false }] + (drawing(last, reply) + judging(
        trying,
        reading,
        fitness,
    ))
    &&& trying.evaluates(last.drawn(pick), measured, Ok(reading))
    &&& trying.settles(
        crate::search::state::worth(reading, fitness),
        settled,
        trying,
        Err(error),
    )
}

/// Tries one row.
#[verifier::spinoff_prover]
fn iterate<B: MiyagiBackend, H: SearchHost>(
    session: &mut SearchSession,
    backend: &mut B,
    host: &mut Watched<H>,
    draw: &Draw,
) -> (r: Result<(), Error>)
    requires
        may_go_on(old(session)@),
        draw.weights@ == old(session)@.weights(),
        draw.ticket == old(session)@.ticket(),
    ensures
        crate::backend::continues(old(backend).history(), final(backend).history()),
        ({
            let before = old(session)@;
            let calls = crate::backend::calls_since(
                old(backend).history(),
                final(backend).history(),
            );
            let asked = final(host).record().skip(old(host).record().len() as int);
            &&& final(host).record() == old(host).record() + asked
            &&& match r {
                Ok(()) => exists|iteration: Iteration|
                    {
                        &&& #[trigger] iteration.follows(before)
                        &&& calls == iteration.measured + iteration.settled
                        &&& asked == iteration.deciding(before)
                        &&& final(session)@ == iteration.after(before)
                    },
                Err(error) => iteration_fails(
                    before,
                    calls,
                    seq![HostCall::Cancelled { reply: false }] + asked,
                    error@,
                ),
            }
        }),
{
    let ghost before = session@;
    let ghost start = backend.history();
    let ghost record = host.record();
    let total: usize = draw.weights.len();
    let reply: Option<usize> = host.weigh(draw);
    let pick: Option<usize> = match reply {
        Some(place) => if place < total {
            Some(place)
        } else {
            None
        },
        None => None,
    };
    assert(pick == pick_of(before, reply));
    let event: SearchEvent = session.take(pick);
    host.on_event(&event);
    let ghost trying = session@;
    let ghost opened = drawing(before, reply);
    assert(host.record() =~= record + opened);
    let measured: Result<CandidateReading, Error> = session.evaluate(backend);
    let ghost middle = backend.history();
    let ghost first = crate::backend::calls_since(start, middle);
    let reading: CandidateReading = match measured {
        Err(error) => {
            proof {
                assert(host.record().skip(record.len() as int) =~= opened);
                let asked = seq![HostCall::Cancelled { reply: false }] + opened;
                assert(fails_to_measure(before, reply, first, asked, error@));
            }
            return Err(error);
        },
        Ok(reading) => reading,
    };
    let fitness: Result<Binary32, Error> = match &reading {
        CandidateReading::Measured { target, control } => host.fitness(
            session.config().fitness_mode,
            session.config().control_penalty,
            target.as_slice(),
            control.as_slice(),
            session.target_baseline(),
            session.control_baseline(),
        ),
        _ => Ok(Binary32::zero()),
    };
    let ghost answered = crate::backend::answer(fitness);
    let ghost judged = opened + judging(trying, reading@, answered);
    assert(host.record() =~= record + judged);
    let worth: Result<CandidateEvaluation, Error> = crate::search::session::judge(
        &reading,
        fitness,
    );
    let ghost valued = crate::backend::answer(worth);
    let settled: Result<SearchEvent, Error> = session.settle(backend, worth);
    let ghost second = crate::backend::calls_since(middle, backend.history());
    proof {
        crate::backend::lemma_calls_concat(start, middle, backend.history());
    }
    match settled {
        Err(error) => {
            proof {
                assert(host.record().skip(record.len() as int) =~= judged);
                let asked = seq![HostCall::Cancelled { reply: false }] + judged;
                assert(fails_to_settle(
                    before,
                    reply,
                    first,
                    reading@,
                    answered,
                    second,
                    asked,
                    error@,
                ));
            }
            Err(error)
        },
        Ok(event) => {
            host.on_event(&event);
            proof {
                let iteration = Iteration {
                    reply,
                    measured: first,
                    reading: reading@,
                    fitness: match answered {
                        Ok(number) => number,
                        Err(_) => Binary32 { bits: 0 },
                    },
                    settled: second,
                    saved: Ok(false),
                };
                assert(valued == Ok::<CandidateEvaluation, ErrorModel>(iteration.evaluation()));
                assert(host.record() =~= record + iteration.deciding(before));
                assert(host.record().skip(record.len() as int) =~= iteration.deciding(before));
                reveal(Iteration::follows);
                assert(iteration.follows(before));
            }
            Ok(())
        },
    }
}

proof fn lemma_iterations_grow(
    begun: SessionModel,
    iterations: Seq<Iteration>,
    iteration: Iteration,
)
    requires
        iterations_follow(begun, iterations),
        iteration.follows(after_iterations(begun, iterations)),
    ensures
        ({
            let before = after_iterations(begun, iterations);
            let more = iterations.push(iteration);
            &&& iterations_follow(begun, more)
            &&& after_iterations(begun, more) == iteration.after(before)
            &&& iteration_calls(more) == iteration_calls(iterations) + (iteration.measured
                + iteration.settled)
            &&& iteration_records(begun, more) == iteration_records(begun, iterations)
                + iteration.record(before)
        }),
{
    assert(iterations.push(iteration).drop_last() =~= iterations);
}

/// What the host was asked since it had been asked `before`.
pub open spec fn asked_since(before: Seq<HostCall>, now: Seq<HostCall>) -> Seq<HostCall> {
    now.skip(before.len() as int)
}

/// Goes on by one row, unless the host asks to stop. Where no row is left to draw,
/// nothing happens and the answer is `false`.
#[verifier::spinoff_prover]
fn advance<B: MiyagiBackend, H: SearchHost>(
    session: &mut SearchSession,
    backend: &mut B,
    host: &mut Watched<H>,
) -> (r: Result<bool, Error>)
    requires
        old(session)@.wants_more(),
    ensures
        crate::backend::continues(old(backend).history(), final(backend).history()),
        ({
            let before = old(session)@;
            let calls = crate::backend::calls_since(
                old(backend).history(),
                final(backend).history(),
            );
            let asked = asked_since(old(host).record(), final(host).record());
            &&& final(host).record() == old(host).record() + asked
            &&& match r {
                Ok(true) => exists|iteration: Iteration|
                    {
                        &&& #[trigger] iteration.follows(before)
                        &&& iteration.saved is Ok
                        &&& calls == iteration.measured + iteration.settled
                        &&& asked == iteration.record(before)
                        &&& final(session)@ == iteration.after(before)
                    },
                Ok(false) => {
                    &&& before.available().len() == 0
                    &&& calls.len() == 0
                    &&& asked == seq![HostCall::Cancelled { reply: false }]
                    &&& final(session)@ == before
                },
                Err(error) => advance_fails(before, calls, asked, error@),
            }
        }),
{
    let ghost before = session@;
    let ghost record = host.record();
    let ghost question = HostCall::Cancelled { reply: false };
    proof {
        reveal(advance_fails);
        crate::backend::lemma_no_calls(backend.history());
    }
    if host.cancelled() {
        let saved: Result<bool, Error> = host.save(&session.checkpoint());
        proof {
            let reply = crate::backend::answer(saved);
            let asked = seq![
                HostCall::Cancelled { reply: true },
                HostCall::Save { checkpoint: before.checkpoint(), reply },
            ];
            let error = match reply {
                Ok(_) => ErrorModel::SearchCancelled,
                Err(failure) => failure,
            };
            assert(host.record() =~= record + asked);
            assert(asked_since(record, host.record()) =~= asked);
            assert(cancels(
                before,
                crate::backend::calls_since(old(backend).history(), backend.history()),
                asked,
                reply,
                error,
            ));
        }
        if let Err(error) = saved {
            return Err(error);
        }
        return Err(Error::SearchCancelled);
    }
    assert(host.record() =~= record + seq![question]);
    let draw: Draw = match session.offer() {
        None => {
            assert(asked_since(record, host.record()) =~= seq![question]);
            return Ok(false);
        },
        Some(draw) => draw,
    };
    let ghost asked = host.record();
    let tried: Result<(), Error> = iterate(session, backend, host, &draw);
    let ghost calls = crate::backend::calls_since(old(backend).history(), backend.history());
    let ghost decided = asked_since(asked, host.record());
    if let Err(error) = tried {
        proof {
            let all = seq![question] + decided;
            assert(host.record() =~= record + all);
            assert(asked_since(record, host.record()) =~= all);
        }
        return Err(error);
    }
    let ghost found = choose|iteration: Iteration|
        {
            &&& #[trigger] iteration.follows(before)
            &&& calls == iteration.measured + iteration.settled
            &&& decided == iteration.deciding(before)
            &&& session@ == iteration.after(before)
        };
    let saved: Result<bool, Error> = host.save(&session.checkpoint());
    let ghost iteration = Iteration { saved: crate::backend::answer(saved), ..found };
    proof {
        reveal(Iteration::follows);
        assert(iteration.after(before) == found.after(before));
        assert(iteration.deciding(before) == found.deciding(before));
        assert(iteration.follows(before));
    }
    let kept: bool = match saved {
        Err(error) => {
            proof {
                assert(host.record() =~= record + iteration.record(before));
                assert(asked_since(record, host.record()) =~= iteration.record(before));
                assert(goes_unsaved(before, calls, iteration.record(before), iteration, error@));
            }
            return Err(error);
        },
        Ok(kept) => kept,
    };
    if kept {
        host.on_event(&SearchEvent::Checkpoint { iteration: session.completed_iterations() });
    }
    proof {
        assert(host.record() =~= record + iteration.record(before));
        assert(asked_since(record, host.record()) =~= iteration.record(before));
    }
    Ok(true)
}

/// Measures the model once more and makes the result.
#[verifier::rlimit(100)]
#[verifier::spinoff_prover]
fn conclude<B: MiyagiBackend, H: SearchHost>(
    session: SearchSession,
    backend: &mut B,
    host: &mut Watched<H>,
) -> (r: Result<SearchResult, Error>)
    ensures
        crate::backend::continues(old(backend).history(), final(backend).history()),
        ({
            let calls = crate::backend::calls_since(
                old(backend).history(),
                final(backend).history(),
            );
            let asked = asked_since(old(host).record(), final(host).record());
            let map = crate::backend::shown(final(backend).history()).map;
            &&& final(host).record() == old(host).record() + asked
            &&& concluding(session@, calls, asked, map, result_view(r))
        }),
{
    proof {
        reveal(concluding);
    }
    let ghost last = session@;
    let ghost record = host.record();
    let measured: Result<(Vec<ProbeMeasurement>, Vec<ProbeMeasurement>), Error> =
        session.measure_final(backend);
    let (target, control): (Vec<ProbeMeasurement>, Vec<ProbeMeasurement>) = match measured {
        Err(error) => {
            proof {
                lemma_nothing_asked(record);
            }
            return Err(error);
        },
        Ok(pair) => pair,
    };
    let computed: Result<Binary32, Error> = host.fitness(
        session.config().fitness_mode,
        session.config().control_penalty,
        target.as_slice(),
        control.as_slice(),
        session.target_baseline(),
        session.control_baseline(),
    );
    let ghost weighed = weighing(
        last,
        crate::probe::measurement_models(target@),
        crate::probe::measurement_models(control@),
        crate::backend::answer(computed),
    );
    proof {
        assert(host.record() =~= record + seq![weighed]);
        assert(asked_since(record, host.record()) =~= seq![weighed]);
    }
    let fitness: Binary32 = match computed {
        Err(error) => {
            return Err(error);
        },
        Ok(fitness) => fitness,
    };
    match session.finish(backend.architecture(), target, control, fitness) {
        Err(error) => Err(error),
        Ok((result, event)) => {
            host.on_event(&event);
            proof {
                let asked = seq![weighed, HostCall::Event { event: event@ }];
                assert(host.record() =~= record + asked);
                assert(asked_since(record, host.record()) =~= asked);
            }
            Ok(result)
        },
    }
}

proof fn lemma_ends_early(
    last: SessionModel,
    calls: Seq<BackendCall>,
    asked: Seq<HostCall>,
    map: ArchitectureModel,
    error: ErrorModel,
)
    requires
        last.wants_more(),
        advance_fails(last, calls, asked, error),
    ensures
        closes(last, calls, asked, map, Err(error)),
{
    reveal(closes);
}

proof fn lemma_ends_late(
    last: SessionModel,
    calls: Seq<BackendCall>,
    asked: Seq<HostCall>,
    map: ArchitectureModel,
    outcome: Result<ResultModel, ErrorModel>,
)
    requires
        !may_go_on(last),
        concluding(last, calls, asked, map, outcome),
    ensures
        closes(last, calls, last_question(last) + asked, map, outcome),
{
    reveal(closes);
    let question = last_question(last);
    assert((question + asked).skip(question.len() as int) =~= asked);
}

/// The host was asked in two parts.
proof fn lemma_asked_concat(before: Seq<HostCall>, middle: Seq<HostCall>, now: Seq<HostCall>)
    requires
        middle == before + asked_since(before, middle),
        now == middle + asked_since(middle, now),
    ensures
        now == before + asked_since(before, now),
        asked_since(before, now) == asked_since(before, middle) + asked_since(middle, now),
{
    let first = asked_since(before, middle);
    let second = asked_since(middle, now);
    assert(now =~= before + (first + second));
    assert(asked_since(before, now) =~= first + second);
}

proof fn lemma_nothing_asked(record: Seq<HostCall>)
    ensures
        record == record + asked_since(record, record),
        asked_since(record, record) == Seq::<HostCall>::empty(),
{
    assert(asked_since(record, record) =~= Seq::<HostCall>::empty());
    assert(record =~= record + asked_since(record, record));
}

/// The search has come so far in the iterations.
#[verifier::opaque]
spec fn comes_to(
    begun: SessionModel,
    iterations: Seq<Iteration>,
    calls: Seq<BackendCall>,
    asked: Seq<HostCall>,
    session: SessionModel,
) -> bool {
    &&& iterations_follow(begun, iterations)
    &&& forall|i: int| 0 <= i < iterations.len() ==> (#[trigger] iterations[i]).saved is Ok
    &&& calls == iteration_calls(iterations)
    &&& asked == iteration_records(begun, iterations)
    &&& session == after_iterations(begun, iterations)
}

proof fn lemma_comes_to_begin(begun: SessionModel)
    ensures
        comes_to(begun, seq![], seq![], seq![], begun),
{
    reveal(comes_to);
}

/// One more iteration.
proof fn lemma_comes_on(
    begun: SessionModel,
    iterations: Seq<Iteration>,
    calls: Seq<BackendCall>,
    asked: Seq<HostCall>,
    session: SessionModel,
    iteration: Iteration,
)
    requires
        comes_to(begun, iterations, calls, asked, session),
        iteration.follows(session),
        iteration.saved is Ok,
    ensures
        comes_to(
            begun,
            iterations.push(iteration),
            calls + (iteration.measured + iteration.settled),
            asked + iteration.record(session),
            iteration.after(session),
        ),
{
    reveal(comes_to);
    lemma_iterations_grow(begun, iterations, iteration);
}

/// The search ends where it has come to.
proof fn lemma_comes_to_end(
    begun: SessionModel,
    iterations: Seq<Iteration>,
    calls: Seq<BackendCall>,
    asked: Seq<HostCall>,
    session: SessionModel,
    ending: Seq<BackendCall>,
    closing: Seq<HostCall>,
    map: ArchitectureModel,
    outcome: Result<ResultModel, ErrorModel>,
)
    requires
        comes_to(begun, iterations, calls, asked, session),
        closes(session, ending, closing, map, outcome),
    ensures
        exists|run: Run| #[trigger]
            plays_out(run, begun, calls + ending, asked + closing, map, outcome),
{
    reveal(comes_to);
    let run = Run { beginning: seq![], begun, iterations, ending, closing };
    assert(plays_out(run, begun, calls + ending, asked + closing, map, outcome));
}

/// Tries rows as long as there are any and iterations left.
#[verifier::rlimit(100)]
#[verifier::spinoff_prover]
fn try_rows<B: MiyagiBackend, H: SearchHost>(
    session: &mut SearchSession,
    backend: &mut B,
    host: &mut Watched<H>,
) -> (r: Result<(), Error>)
    ensures
        crate::backend::continues(old(backend).history(), final(backend).history()),
        final(host).record() == old(host).record() + asked_since(
            old(host).record(),
            final(host).record(),
        ),
        ({
            let begun = old(session)@;
            let calls = crate::backend::calls_since(
                old(backend).history(),
                final(backend).history(),
            );
            let asked = asked_since(old(host).record(), final(host).record());
            let map = crate::backend::shown(final(backend).history()).map;
            match r {
                Err(error) => exists|run: Run| #[trigger]
                    plays_out(run, begun, calls, asked, map, Err(error@)),
                Ok(()) => {
                    let last = final(session)@;
                    &&& !may_go_on(last)
                    &&& exists|iterations: Seq<Iteration>, told: Seq<HostCall>| #[trigger]
                        comes_to(begun, iterations, calls, told, last) && asked == told
                            + last_question(last)
                },
            }
        }),
{
    let ghost begun = session@;
    let ghost start = backend.history();
    let ghost record = host.record();
    let ghost mut iterations: Seq<Iteration> = Seq::empty();
    proof {
        crate::backend::lemma_no_calls(start);
        lemma_nothing_asked(record);
        lemma_comes_to_begin(begun);
    }
    while session.wants_more()
        invariant
            start == old(backend).history(),
            record == old(host).record(),
            begun == old(session)@,
            crate::backend::continues(start, backend.history()),
            host.record() == record + asked_since(record, host.record()),
            comes_to(
                begun,
                iterations,
                crate::backend::calls_since(start, backend.history()),
                asked_since(record, host.record()),
                session@,
            ),
        decreases session@.config.max_iters - session@.completed_iterations,
    {
        let ghost before = backend.history();
        let ghost told = host.record();
        let ghost last = session@;
        let advanced: Result<bool, Error> = advance(session, backend, host);
        let ghost calls = crate::backend::calls_since(before, backend.history());
        let ghost answers = asked_since(told, host.record());
        proof {
            crate::backend::lemma_calls_concat(start, before, backend.history());
            lemma_asked_concat(record, told, host.record());
        }
        match advanced {
            Err(error) => {
                proof {
                    let map = crate::backend::shown(backend.history()).map;
                    lemma_ends_early(last, calls, answers, map, error@);
                    lemma_comes_to_end(
                        begun,
                        iterations,
                        crate::backend::calls_since(start, before),
                        asked_since(record, told),
                        last,
                        calls,
                        answers,
                        map,
                        Err(error@),
                    );
                }
                return Err(error);
            },
            Ok(false) => {
                assert(crate::backend::calls_since(start, backend.history())
                    =~= crate::backend::calls_since(start, before));
                return Ok(());
            },
            Ok(true) => {
                proof {
                    let iteration = choose|iteration: Iteration|
                        {
                            &&& #[trigger] iteration.follows(last)
                            &&& iteration.saved is Ok
                            &&& calls == iteration.measured + iteration.settled
                            &&& answers == iteration.record(last)
                            &&& session@ == iteration.after(last)
                        };
                    lemma_comes_on(
                        begun,
                        iterations,
                        crate::backend::calls_since(start, before),
                        asked_since(record, told),
                        last,
                        iteration,
                    );
                    iterations = iterations.push(iteration);
                }
            },
        }
    }
    proof {
        let told = asked_since(record, host.record());
        assert(told + last_question(session@) =~= told);
    }
    Ok(())
}

/// Takes a search that has begun to its end.
#[verifier::spinoff_prover]
fn carry_on<B: MiyagiBackend, H: SearchHost>(
    session: SearchSession,
    backend: &mut B,
    host: &mut Watched<H>,
) -> (r: Result<SearchResult, Error>)
    ensures
        crate::backend::continues(old(backend).history(), final(backend).history()),
        final(host).record() == old(host).record() + asked_since(
            old(host).record(),
            final(host).record(),
        ),
        ({
            let calls = crate::backend::calls_since(
                old(backend).history(),
                final(backend).history(),
            );
            let asked = asked_since(old(host).record(), final(host).record());
            let map = crate::backend::shown(final(backend).history()).map;
            exists|run: Run| #[trigger]
                plays_out(run, session@, calls, asked, map, result_view(r))
        }),
{
    let ghost begun = session@;
    let ghost start = backend.history();
    let ghost record = host.record();
    let mut session: SearchSession = session;
    if let Err(error) = try_rows(&mut session, backend, host) {
        return Err(error);
    }
    let ghost last = session@;
    let ghost before = backend.history();
    let ghost asked = host.record();
    let r: Result<SearchResult, Error> = conclude(session, backend, host);
    proof {
        let calls = crate::backend::calls_since(start, before);
        let (iterations, told) = choose|iterations: Seq<Iteration>, told: Seq<HostCall>|
            #[trigger] comes_to(begun, iterations, calls, told, last) && asked_since(record, asked)
                == told + last_question(last);
        let ending = crate::backend::calls_since(before, backend.history());
        let answers = asked_since(asked, host.record());
        let map = crate::backend::shown(backend.history()).map;
        let outcome = result_view(r);
        crate::backend::lemma_calls_concat(start, before, backend.history());
        lemma_asked_concat(record, asked, host.record());
        lemma_ends_late(last, ending, answers, map, outcome);
        let closing = last_question(last) + answers;
        lemma_comes_to_end(begun, iterations, calls, told, last, ending, closing, map, outcome);
        assert((told + last_question(last)) + answers =~= told + closing);
    }
    r
}

/// A search that has begun and was taken to its end.
proof fn lemma_whole_run(
    setup: Setup,
    beginning: Seq<BackendCall>,
    begun: SessionModel,
    calls: Seq<BackendCall>,
    asked: Seq<HostCall>,
    outcome: Result<ResultModel, ErrorModel>,
)
    requires
        setup.begins(beginning, Ok(begun)),
        exists|run: Run| #[trigger]
            plays_out(
                run,
                begun,
                calls,
                asked,
                crate::backend::seen(setup.sight, beginning + calls).map,
                outcome,
            ),
    ensures
        searches(
            setup,
            beginning + calls,
            seq![
                HostCall::Event {
                    event: EventModel::Baseline {
                        target: begun.target_baseline,
                        control: begun.control_baseline,
                    },
                },
            ] + asked,
            outcome,
        ),
{
    let map = crate::backend::seen(setup.sight, beginning + calls).map;
    let rest = choose|run: Run| #[trigger] plays_out(run, begun, calls, asked, map, outcome);
    let run = Run { beginning, ..rest };
    let baseline = EventModel::Baseline {
        target: begun.target_baseline,
        control: begun.control_baseline,
    };
    let all = seq![HostCall::Event { event: baseline }] + asked;
    assert(run.record() =~= all);
    assert(run.last() == rest.last());
    assert(ends(run, setup, beginning + calls, all, outcome));
}

/// Searches for rows that make the model better on the target probes, and leaves it
/// with the rows that were accepted.
#[verifier::spinoff_prover]
pub fn run_search<B: MiyagiBackend, H: SearchHost>(
    backend: &mut B,
    host: &mut Watched<H>,
    targets: &[CompiledProbe],
    controls: &[CompiledProbe],
    config: SearchConfig,
    resume: Option<SearchCheckpoint>,
) -> (r: Result<SearchResult, Error>)
    ensures
        crate::backend::continues(old(backend).history(), final(backend).history()),
        ({
            let sight = crate::backend::shown(old(backend).history());
            let setup = Setup {
                sight,
                targets: crate::probe::compiled_models(targets@),
                controls: crate::probe::compiled_models(controls@),
                config: config@.resolved(sight.map.layer_count),
                resume: crate::search::session::resume_view(resume),
            };
            let asked = asked_since(old(host).record(), final(host).record());
            &&& final(host).record() == old(host).record() + asked
            &&& searches(
                setup,
                crate::backend::calls_since(old(backend).history(), final(backend).history()),
                asked,
                result_view(r),
            )
        }),
{
    let ghost sight = crate::backend::shown(backend.history());
    let ghost setup = Setup {
        sight,
        targets: crate::probe::compiled_models(targets@),
        controls: crate::probe::compiled_models(controls@),
        config: config@.resolved(sight.map.layer_count),
        resume: crate::search::session::resume_view(resume),
    };
    let ghost start = backend.history();
    let ghost record = host.record();
    let started: Result<SearchSession, Error> = SearchSession::begin(
        backend,
        crate::probe::copy_compiled(targets),
        crate::probe::copy_compiled(controls),
        config,
        resume,
    );
    let ghost beginning = crate::backend::calls_since(start, backend.history());
    let session: SearchSession = match started {
        Err(error) => {
            proof {
                lemma_nothing_asked(record);
            }
            return Err(error);
        },
        Ok(session) => session,
    };
    let ghost begun = session@;
    let event: SearchEvent = session.baseline_event();
    host.on_event(&event);
    let ghost middle = backend.history();
    let ghost told = host.record();
    let r: Result<SearchResult, Error> = carry_on(session, backend, host);
    proof {
        crate::backend::lemma_calls_concat(start, middle, backend.history());
        crate::backend::lemma_shown(start, backend.history());
        assert(asked_since(record, told) =~= seq![HostCall::Event { event: event@ }]);
        assert(told =~= record + asked_since(record, told));
        lemma_asked_concat(record, told, host.record());
        assert(crate::backend::seen(
            setup.sight,
            beginning + crate::backend::calls_since(middle, backend.history()),
        ) == crate::backend::shown(backend.history()));
        lemma_whole_run(
            setup,
            beginning,
            begun,
            crate::backend::calls_since(middle, backend.history()),
            asked_since(told, host.record()),
            result_view(r),
        );
    }
    r
}

} // verus!
