//! The state of a search, and what each step makes of it.

use vstd::prelude::*;

use crate::architecture::ArchitectureModel;
use crate::backend::{BackendCall, Sight};
use crate::error::ErrorModel;
use crate::float::Binary32;
use crate::patch::{MetadataModel, PatchFlip, PatchModel, PatchValidation};
use crate::probe::{CompiledModel, MeasurementModel};
use crate::search::checkpoint::CheckpointModel;
use crate::search::config::ConfigModel;
use crate::search::evaluate::{ReadingModel, Trial};
use crate::search::pool::Candidate;
use crate::search::report::{EventModel, ModelPatchState, ResultModel};
use crate::search::sampling::SplitMix64;

verus! {

/// What a candidate is worth.
#[derive(Clone, Copy, Debug, PartialEq, Eq, Structural)]
pub enum CandidateEvaluation {
    /// It did not pass the screen.
    ScreenedOut,
    Measured { fitness: Binary32 },
}

/// The worth of a candidate from what was measured of it. `fitness` is that of the
/// measurements. A gap that is not finite is worth no number, which is greater than
/// none.
pub open spec fn worth(reading: ReadingModel, fitness: Result<Binary32, ErrorModel>) -> Result<
    CandidateEvaluation,
    ErrorModel,
> {
    match reading {
        ReadingModel::ScreenedOut => Ok(CandidateEvaluation::ScreenedOut),
        ReadingModel::NonFinite => Ok(
            CandidateEvaluation::Measured { fitness: Binary32 { bits: 0x7fc0_0000 } },
        ),
        ReadingModel::Measured { .. } => match fitness {
            Ok(fitness) => Ok(CandidateEvaluation::Measured { fitness }),
            Err(error) => Err(error),
        },
    }
}

/// The places of the pool before `count` whose rows have not been tried, in order.
pub open spec fn untried(
    pool: Seq<Candidate>,
    tried: Set<PatchFlip>,
    count: nat,
) -> Seq<usize>
    decreases count,
{
    if count == 0 {
        seq![]
    } else {
        let less = untried(pool, tried, (count - 1) as nat);
        if tried.contains(pool[count - 1].flip) {
            less
        } else {
            less.push((count - 1) as usize)
        }
    }
}

/// A search on its way.
pub struct SessionModel {
    pub targets: Seq<CompiledModel>,
    pub controls: Seq<CompiledModel>,
    pub config: ConfigModel,
    pub architecture_signature: Seq<char>,
    pub model_label: Seq<char>,
    /// The rows that may be tried.
    pub pool: Seq<Candidate>,
    pub target_baseline: Seq<MeasurementModel>,
    pub control_baseline: Seq<MeasurementModel>,
    /// The targets that are measured first.
    pub screen: Seq<usize>,
    pub accepted: Seq<PatchFlip>,
    pub tried: Set<PatchFlip>,
    pub current_fitness: Binary32,
    pub completed_iterations: nat,
    pub screened_out: nat,
    pub rng: SplitMix64,
    /// The row that is being tried.
    pub pending: Option<PatchFlip>,
}

impl SessionModel {
    /// The probes, the baselines and the counters fit together.
    pub open spec fn consistent(self) -> bool {
        &&& 0 < self.targets.len() <= usize::MAX
        &&& 0 < self.controls.len()
        &&& self.pool.len() <= usize::MAX
        &&& self.target_baseline.len() == self.targets.len()
        &&& self.control_baseline.len() == self.controls.len()
        &&& crate::search::screen::is_screen(
            self.target_baseline,
            self.config.screen_probe_count as nat,
            self.screen,
        )
        &&& self.completed_iterations <= self.config.max_iters
        &&& self.screened_out + (if self.pending is Some {
            1nat
        } else {
            0nat
        }) <= self.completed_iterations
    }

    /// The places of the pool from which the next row is drawn.
    pub open spec fn available(self) -> Seq<usize> {
        untried(self.pool, self.tried, self.pool.len())
    }

    /// The weights of the rows from which the next is drawn.
    pub open spec fn weights(self) -> Seq<Binary32> {
        Seq::new(
            self.available().len(),
            |i: int| self.pool[self.available()[i] as int].weight,
        )
    }

    /// The next random fraction of one, in units of 2^-53.
    pub open spec fn ticket(self) -> u64 {
        self.rng.drawn() / 2048
    }

    /// There are iterations left and no row is being tried.
    pub open spec fn wants_more(self) -> bool {
        self.pending is None && self.completed_iterations < self.config.max_iters
    }

    /// The row that is drawn: the picked one of those available or, where none is
    /// picked, the one that the next random number falls on.
    pub open spec fn drawn(self, pick: Option<usize>) -> PatchFlip {
        let available = self.available();
        let place = match pick {
            Some(place) => available[place as int],
            None => available[(self.rng.drawn() as usize) as int % available.len() as int],
        };
        self.pool[place as int].flip
    }

    /// The search with the drawn row about to be tried.
    pub open spec fn taken(self, pick: Option<usize>) -> SessionModel {
        SessionModel {
            tried: self.tried.insert(self.drawn(pick)),
            completed_iterations: self.completed_iterations + 1,
            rng: self.rng.advanced(),
            pending: Some(self.drawn(pick)),
            ..self
        }
    }

    /// What a candidate is measured with.
    pub open spec fn trial(self) -> Trial {
        Trial {
            targets: self.targets,
            controls: self.controls,
            screen: self.screen,
            baseline: self.target_baseline,
        }
    }

    /// The row is flipped and the candidate measured; where a measurement fails,
    /// the row is flipped back.
    pub open spec fn evaluates(
        self,
        flip: PatchFlip,
        calls: Seq<BackendCall>,
        outcome: Result<ReadingModel, ErrorModel>,
    ) -> bool {
        let rest = calls.skip(1);
        &&& calls.len() > 0
        &&& crate::restore::asks_flip(flip, calls[0])
        &&& match crate::restore::flip_reply(calls[0]) {
            Err(error) => rest.len() == 0 && outcome == Err::<ReadingModel, ErrorModel>(error),
            Ok(()) => {
                ||| {
                    &&& self.trial().requests(rest)
                    &&& self.trial().outcome(rest) is Ok
                    &&& outcome == self.trial().outcome(rest)
                }
                ||| {
                    &&& rest.len() > 0
                    &&& self.trial().requests(rest.drop_last())
                    &&& self.trial().outcome(rest.drop_last()) is Err
                    &&& crate::restore::asks_flip(flip, rest.last())
                    &&& outcome == match crate::restore::flip_reply(rest.last()) {
                        Ok(()) => self.trial().outcome(rest.drop_last()),
                        Err(source) => Err(
                            ErrorModel::RestorationFailed {
                                operation: "failed candidate evaluation"@,
                                source: Box::new(source),
                            },
                        ),
                    }
                }
            },
        }
    }

    /// The candidate is better than what the search has.
    pub open spec fn accepts(self, evaluation: CandidateEvaluation) -> bool {
        match evaluation {
            CandidateEvaluation::ScreenedOut => false,
            CandidateEvaluation::Measured { fitness } => fitness.exceeds(self.current_fitness),
        }
    }

    /// The search after the candidate has been kept or flipped back.
    pub open spec fn settled(self, evaluation: CandidateEvaluation) -> SessionModel {
        match evaluation {
            CandidateEvaluation::ScreenedOut => SessionModel {
                screened_out: self.screened_out + 1,
                pending: None,
                ..self
            },
            CandidateEvaluation::Measured { fitness } => if fitness.exceeds(
                self.current_fitness,
            ) {
                SessionModel {
                    accepted: self.accepted.push(self.pending->Some_0),
                    current_fitness: fitness,
                    pending: None,
                    ..self
                }
            } else {
                SessionModel { pending: None, ..self }
            },
        }
    }

    /// What is reported of the candidate.
    pub open spec fn verdict(self, evaluation: CandidateEvaluation) -> EventModel {
        let iteration = self.completed_iterations;
        let flip = self.pending->Some_0;
        match evaluation {
            CandidateEvaluation::ScreenedOut => EventModel::ScreenedOut { iteration, flip },
            CandidateEvaluation::Measured { fitness } => if fitness.exceeds(
                self.current_fitness,
            ) {
                EventModel::Accepted {
                    iteration,
                    flip,
                    fitness,
                    accepted: self.accepted.len() + 1,
                }
            } else {
                EventModel::Rejected {
                    iteration,
                    flip,
                    fitness,
                    best_fitness: self.current_fitness,
                }
            },
        }
    }

    /// What the candidate is flipped back for.
    pub open spec fn occasion(self, evaluation: Result<CandidateEvaluation, ErrorModel>) -> Seq<
        char,
    > {
        match evaluation {
            Ok(CandidateEvaluation::ScreenedOut) => "screened candidate"@,
            Ok(CandidateEvaluation::Measured { .. }) => "rejected candidate"@,
            Err(_) => "failed candidate evaluation"@,
        }
    }

    /// A candidate that is accepted stays flipped; any other is flipped back.
    pub open spec fn settles(
        self,
        evaluation: Result<CandidateEvaluation, ErrorModel>,
        calls: Seq<BackendCall>,
        after: SessionModel,
        outcome: Result<EventModel, ErrorModel>,
    ) -> bool {
        if evaluation is Ok && self.accepts(evaluation->Ok_0) {
            &&& calls.len() == 0
            &&& after == self.settled(evaluation->Ok_0)
            &&& outcome == Ok::<EventModel, ErrorModel>(self.verdict(evaluation->Ok_0))
        } else {
            &&& calls.len() == 1
            &&& crate::restore::asks_flip(self.pending->Some_0, calls[0])
            &&& match crate::restore::flip_reply(calls[0]) {
                Err(source) => {
                    &&& after == self
                    &&& outcome == Err::<EventModel, ErrorModel>(
                        ErrorModel::RestorationFailed {
                            operation: self.occasion(evaluation),
                            source: Box::new(source),
                        },
                    )
                },
                Ok(()) => match evaluation {
                    Err(error) => {
                        &&& after == self
                        &&& outcome == Err::<EventModel, ErrorModel>(error)
                    },
                    Ok(evaluation) => {
                        &&& after == self.settled(evaluation)
                        &&& outcome == Ok::<EventModel, ErrorModel>(self.verdict(evaluation))
                    },
                },
            }
        }
    }

    /// The state that a later search can take up.
    pub open spec fn checkpoint(self) -> CheckpointModel {
        CheckpointModel {
            version: crate::search::checkpoint::CHECKPOINT_VERSION,
            architecture_signature: self.architecture_signature,
            model_label: self.model_label,
            config: self.config,
            completed_iterations: self.completed_iterations,
            accepted: self.accepted,
            tried: self.tried,
            current_fitness: self.current_fitness,
            rng_state: self.rng.state,
            target_baseline: self.target_baseline,
            control_baseline: self.control_baseline,
        }
    }

    /// The patch of the accepted rows.
    pub open spec fn patch(self) -> PatchModel {
        PatchModel {
            version: crate::patch::PATCH_VERSION,
            format: "miyagi_row_xor_v1"@,
            name: self.config.patch_name,
            description: self.config.patch_description,
            base_model: self.config.base_model,
            flips: self.accepted,
            stats: crate::patch::counted(self.accepted),
            metadata: Map::<Seq<char>, MetadataModel>::empty().insert(
                "architecture_signature"@,
                MetadataModel::Text(self.architecture_signature),
            ).insert(
                "search_algorithm"@,
                MetadataModel::Text(
                    "greedy_hill_climbing_screened_"@ + self.config.fitness_mode.name(),
                ),
            ).insert("seed"@, MetadataModel::Count(self.config.seed)).insert(
                "completed_iterations"@,
                MetadataModel::Count(self.completed_iterations as u64),
            ).insert("control_penalty"@, MetadataModel::Number(self.config.control_penalty)),
        }
    }

    /// What the search has found on a model of the map, with the last measurements and
    /// their fitness.
    pub open spec fn result(
        self,
        map: ArchitectureModel,
        final_target: Seq<MeasurementModel>,
        final_control: Seq<MeasurementModel>,
        final_fitness: Binary32,
    ) -> ResultModel {
        ResultModel {
            patch: self.patch().measured(map),
            target_baseline: self.target_baseline,
            control_baseline: self.control_baseline,
            final_target,
            final_control,
            final_fitness,
            completed_iterations: self.completed_iterations,
            tried_candidates: self.tried.len(),
            screened_out: self.screened_out,
            model_state: ModelPatchState::AcceptedPatchApplied,
        }
    }

    /// Every row that was tried was offered and counted once, and every accepted row
    /// was tried.
    pub open spec fn sound(self) -> bool {
        &&& self.tried.finite()
        &&& self.tried.len() == self.completed_iterations
        &&& self.accepted.no_duplicates()
        &&& forall|i: int|
            0 <= i < self.accepted.len() ==> self.tried.contains(#[trigger] self.accepted[i])
        &&& forall|flip: PatchFlip| #[trigger]
            self.tried.contains(flip) ==> crate::search::pool::offered(self.pool, flip)
        &&& self.pending matches Some(flip) ==> self.tried.contains(flip)
            && !self.accepted.contains(flip)
    }
}

/// One iteration: the row that was picked, and what it was worth.
pub struct Step {
    pub pick: Option<usize>,
    pub evaluation: CandidateEvaluation,
}

/// The search after several iterations.
pub open spec fn after_steps(session: SessionModel, steps: Seq<Step>) -> SessionModel
    decreases steps.len(),
{
    if steps.len() == 0 {
        session
    } else {
        after_steps(session, steps.drop_last()).taken(steps.last().pick).settled(
            steps.last().evaluation,
        )
    }
}

/// Before each iteration there was one left and a row to draw.
pub open spec fn steps_follow(session: SessionModel, steps: Seq<Step>) -> bool
    decreases steps.len(),
{
    steps.len() > 0 ==> {
        let before = after_steps(session, steps.drop_last());
        &&& steps_follow(session, steps.drop_last())
        &&& before.wants_more()
        &&& before.available().len() > 0
        &&& steps.last().pick matches Some(place) ==> place < before.available().len()
    }
}

/// The targets are measured, and then the controls. A request that fails is the
/// last, and so is the last target where a gap is not finite.
pub open spec fn both_requests(
    targets: Seq<CompiledModel>,
    controls: Seq<CompiledModel>,
    calls: Seq<BackendCall>,
) -> bool {
    let first = crate::backend::head(calls, targets.len());
    let second = crate::backend::tail(calls, targets.len());
    &&& crate::probe::gap_requests(targets, first)
    &&& if crate::probe::finite_gap_outcome(targets, first) is Ok {
        crate::probe::gap_requests(controls, second)
    } else {
        second.len() == 0
    }
}

/// What the answers make of the targets and the controls, where every gap must be
/// finite.
pub open spec fn both_outcome(
    targets: Seq<CompiledModel>,
    controls: Seq<CompiledModel>,
    calls: Seq<BackendCall>,
) -> Result<(Seq<MeasurementModel>, Seq<MeasurementModel>), ErrorModel> {
    let first = crate::backend::head(calls, targets.len());
    let second = crate::backend::tail(calls, targets.len());
    match crate::probe::finite_gap_outcome(targets, first) {
        Err(error) => Err(error),
        Ok(target) => match crate::probe::finite_gap_outcome(controls, second) {
            Err(error) => Err(error),
            Ok(control) => Ok((target, control)),
        },
    }
}

/// A search as it begins, from what was measured, or as a checkpoint left it. `sight`
/// is what the model showed of itself once the baselines were measured.
pub open spec fn begun(
    setup: Setup,
    sight: Sight,
    pool: Seq<Candidate>,
    target_baseline: Seq<MeasurementModel>,
    control_baseline: Seq<MeasurementModel>,
    screen: Seq<usize>,
) -> SessionModel {
    match setup.resume {
        None => SessionModel {
            targets: setup.targets,
            controls: setup.controls,
            config: setup.config,
            architecture_signature: sight.map.signature,
            model_label: sight.label,
            pool,
            target_baseline,
            control_baseline,
            screen,
            accepted: seq![],
            tried: Set::empty(),
            current_fitness: Binary32 { bits: 0 },
            completed_iterations: 0,
            screened_out: 0,
            rng: SplitMix64 { state: setup.config.seed },
            pending: None,
        },
        Some(checkpoint) => SessionModel {
            targets: setup.targets,
            controls: setup.controls,
            config: setup.config,
            architecture_signature: sight.map.signature,
            model_label: sight.label,
            pool,
            target_baseline: checkpoint.target_baseline,
            control_baseline: checkpoint.control_baseline,
            screen,
            accepted: checkpoint.accepted,
            tried: checkpoint.tried,
            current_fitness: checkpoint.current_fitness,
            completed_iterations: checkpoint.completed_iterations,
            screened_out: 0,
            rng: SplitMix64 { state: checkpoint.rng_state },
            pending: None,
        },
    }
}

/// What a search begins with.
pub struct Setup {
    /// What the model showed of itself before the search.
    pub sight: Sight,
    pub targets: Seq<CompiledModel>,
    pub controls: Seq<CompiledModel>,
    /// The configuration with its layers settled.
    pub config: ConfigModel,
    pub resume: Option<CheckpointModel>,
}

impl Setup {
    /// `outcome` is what comes of beginning the search. The configuration is
    /// checked, the scales of the tensors are asked for, and the baselines measured.
    /// Where a checkpoint is taken up, it is checked next and its rows are flipped.
    #[verifier::opaque]
    pub open spec fn begins(
        self,
        calls: Seq<BackendCall>,
        outcome: Result<SessionModel, ErrorModel>,
    ) -> bool {
        let coordinates = self.config.coordinates();
        let scales = crate::backend::head(calls, coordinates.len());
        let after_scales = crate::backend::tail(calls, coordinates.len());
        match self.config.fault(self.sight.map, self.targets.len(), self.controls.len()) {
            Some(error) => calls.len() == 0 && outcome == Err::<SessionModel, ErrorModel>(error),
            None => {
                &&& crate::search::pool::scale_requests(self.sight, coordinates, scales)
                &&& match crate::search::pool::pool_outcome(self.sight, coordinates, scales) {
                    Err(error) => after_scales.len() == 0 && outcome == Err::<
                        SessionModel,
                        ErrorModel,
                    >(error),
                    Ok(pool) => self.measures(
                        crate::backend::seen(self.sight, scales),
                        pool,
                        after_scales,
                        outcome,
                    ),
                }
            },
        }
    }

    /// The beginning once the rows that may be tried are known. `sight` is what the
    /// model shows of itself then.
    #[verifier::opaque]
    pub open spec fn measures(
        self,
        sight: Sight,
        pool: Seq<Candidate>,
        calls: Seq<BackendCall>,
        outcome: Result<SessionModel, ErrorModel>,
    ) -> bool {
        let count = self.targets.len() + self.controls.len();
        let gaps = crate::backend::head(calls, count);
        let after_gaps = crate::backend::tail(calls, count);
        &&& both_requests(self.targets, self.controls, gaps)
        &&& match both_outcome(self.targets, self.controls, gaps) {
            Err(error) => after_gaps.len() == 0 && outcome == Err::<SessionModel, ErrorModel>(
                error,
            ),
            Ok((target, control)) => self.takes_up(
                crate::backend::seen(sight, gaps),
                pool,
                target,
                control,
                after_gaps,
                outcome,
            ),
        }
    }

    /// The beginning once the baselines are measured. `sight` is what the model shows
    /// of itself then.
    #[verifier::opaque]
    pub open spec fn takes_up(
        self,
        sight: Sight,
        pool: Seq<Candidate>,
        target: Seq<MeasurementModel>,
        control: Seq<MeasurementModel>,
        calls: Seq<BackendCall>,
        outcome: Result<SessionModel, ErrorModel>,
    ) -> bool {
        match self.resume {
            None => {
                &&& calls.len() == 0
                &&& outcome matches Ok(session)
                &&& session.consistent()
                &&& session == begun(self, sight, pool, target, control, session.screen)
            },
            Some(checkpoint) => match checkpoint.fault(
                self.config,
                sight.map.signature,
                target,
                control,
            ) {
                Some(error) => calls.len() == 0 && outcome == Err::<SessionModel, ErrorModel>(
                    error,
                ),
                None => match outcome {
                    Err(error) => crate::restore::applies(
                        checkpoint.accepted,
                        "checkpoint restoration"@,
                        calls,
                        Err(error),
                    ),
                    Ok(session) => {
                        &&& crate::restore::applies(
                            checkpoint.accepted,
                            "checkpoint restoration"@,
                            calls,
                            Ok(()),
                        )
                        &&& session.consistent()
                        &&& session == begun(self, sight, pool, target, control, session.screen)
                    },
                },
            },
        }
    }
}

} // verus!
