//! A search, step by step.
//!
//! The search owns its decisions; whoever drives it weighs the candidates, computes
//! the fitness of measurements, saves checkpoints and decides when to stop:
//!
//! - `SearchSession::begin` checks everything and measures the baselines;
//! - as long as `wants_more` and `offer` has something to draw from, `take` settles
//!   on a row, `evaluate` measures the model with it, and `settle` keeps it or flips
//!   it back;
//! - `checkpoint` may be taken between two rows;
//! - `measure_final` and `finish` make the result.

use vstd::prelude::*;

use crate::architecture::{ArchitectureMap, Projection};
use crate::backend::{BackendCall, MiyagiBackend};
use crate::error::{Error, ErrorModel};
use crate::flip_set::FlipSet;
use crate::float::Binary32;
use crate::patch::{MetadataValue, Patch, PatchFlip, PatchValidation, ValidatedPatch};
use crate::probe::{CompiledProbe, MeasurementModel, ProbeMeasurement};
use crate::search::checkpoint::{CheckpointModel, SearchCheckpoint};
use crate::search::config::SearchConfig;
use crate::search::evaluate::{CandidateReading, ReadingModel};
use crate::search::pool::Candidate;
use crate::search::report::{EventModel, ModelPatchState, ResultModel, SearchEvent, SearchResult};
use crate::search::sampling::SplitMix64;
use crate::search::state::{CandidateEvaluation, SessionModel, Setup};

verus! {

/// A search on its way.
#[derive(Debug)]
pub struct SearchSession {
    targets: Vec<CompiledProbe>,
    controls: Vec<CompiledProbe>,
    config: SearchConfig,
    architecture_signature: String,
    model_label: String,
    pool: Vec<Candidate>,
    target_baseline: Vec<ProbeMeasurement>,
    control_baseline: Vec<ProbeMeasurement>,
    screen: Vec<usize>,
    accepted: Vec<PatchFlip>,
    tried: FlipSet,
    current_fitness: Binary32,
    completed_iterations: usize,
    screened_out: usize,
    rng: SplitMix64,
    pending: Option<PatchFlip>,
}

impl View for SearchSession {
    type V = SessionModel;

    closed spec fn view(&self) -> SessionModel {
        SessionModel {
            targets: crate::probe::compiled_models(self.targets@),
            controls: crate::probe::compiled_models(self.controls@),
            config: self.config@,
            architecture_signature: self.architecture_signature@,
            model_label: self.model_label@,
            pool: self.pool@,
            target_baseline: crate::probe::measurement_models(self.target_baseline@),
            control_baseline: crate::probe::measurement_models(self.control_baseline@),
            screen: self.screen@,
            accepted: self.accepted@,
            tried: self.tried@,
            current_fitness: self.current_fitness,
            completed_iterations: self.completed_iterations as nat,
            screened_out: self.screened_out as nat,
            rng: self.rng,
            pending: self.pending,
        }
    }
}

/// The view of a search or of the error in its place.
pub open spec fn session_view(result: Result<SearchSession, Error>) -> Result<
    SessionModel,
    ErrorModel,
> {
    match result {
        Ok(session) => Ok(session@),
        Err(error) => Err(error@),
    }
}

/// The view of an event or of the error in its place.
pub open spec fn event_view(result: Result<SearchEvent, Error>) -> Result<EventModel, ErrorModel> {
    match result {
        Ok(event) => Ok(event@),
        Err(error) => Err(error@),
    }
}

pub open spec fn resume_view(resume: Option<SearchCheckpoint>) -> Option<CheckpointModel> {
    match resume {
        Some(checkpoint) => Some(checkpoint@),
        None => None,
    }
}

/// What the next row is drawn from.
#[derive(Debug)]
pub struct Draw {
    /// The weights of the rows that have not been tried.
    pub weights: Vec<Binary32>,
    /// A random fraction of one, in units of 2^-53.
    pub ticket: u64,
}

/// The worth of a candidate from what was measured of it.
pub fn judge(reading: &CandidateReading, fitness: Result<Binary32, Error>) -> (r: Result<
    CandidateEvaluation,
    Error,
>)
    ensures
        crate::backend::answer(r) == crate::search::state::worth(
            reading@,
            crate::backend::answer(fitness),
        ),
{
    match reading {
        CandidateReading::ScreenedOut => Ok(CandidateEvaluation::ScreenedOut),
        CandidateReading::NonFinite => Ok(
            CandidateEvaluation::Measured { fitness: Binary32::quiet_nan() },
        ),
        CandidateReading::Measured { .. } => match fitness {
            Ok(fitness) => Ok(CandidateEvaluation::Measured { fitness }),
            Err(error) => Err(error),
        },
    }
}

/// Measures the targets, and then the controls.
fn measure_both<B: MiyagiBackend>(
    backend: &mut B,
    targets: &[CompiledProbe],
    controls: &[CompiledProbe],
) -> (r: Result<(Vec<ProbeMeasurement>, Vec<ProbeMeasurement>), Error>)
    ensures
        crate::backend::continues(old(backend).history(), final(backend).history()),
        ({
            let target_models = crate::probe::compiled_models(targets@);
            let control_models = crate::probe::compiled_models(controls@);
            let calls = crate::backend::calls_since(
                old(backend).history(),
                final(backend).history(),
            );
            &&& calls.len() <= targets@.len() + controls@.len()
            &&& crate::search::state::both_requests(target_models, control_models, calls)
            &&& crate::probe::pair_view(r) == crate::search::state::both_outcome(
                target_models,
                control_models,
                calls,
            )
            &&& r matches Ok((target, control)) ==> {
                &&& calls.len() == targets@.len() + controls@.len()
                &&& target@.len() == targets@.len()
                &&& control@.len() == controls@.len()
            }
        }),
{
    let ghost before = backend.history();
    let ghost none: Seq<BackendCall> = Seq::empty();
    let measured: Result<Vec<ProbeMeasurement>, Error> = crate::probe::measure_probes(
        backend,
        targets,
    );
    let ghost middle = backend.history();
    let ghost first = crate::backend::calls_since(before, middle);
    let target: Vec<ProbeMeasurement> = match measured {
        Err(error) => {
            proof {
                crate::backend::lemma_head_tail(first, none, targets@.len());
            }
            return Err(error);
        },
        Ok(measurements) => measurements,
    };
    proof {
        assert(crate::probe::measurement_models(target@).len() == targets@.len());
    }
    let measured: Result<Vec<ProbeMeasurement>, Error> = crate::probe::measure_probes(
        backend,
        controls,
    );
    proof {
        let now = backend.history();
        let second = crate::backend::calls_since(middle, now);
        crate::backend::lemma_calls_concat(before, middle, now);
        crate::backend::lemma_head_tail(first, second, targets@.len());
    }
    match measured {
        Err(error) => Err(error),
        Ok(control) => {
            assert(crate::probe::measurement_models(control@).len() == controls@.len());
            Ok((target, control))
        },
    }
}

impl SearchSession {
    #[verifier::type_invariant]
    spec fn fits_together(self) -> bool {
        self@.consistent()
    }

    /// Makes the search of what was found about the model. A checkpoint is checked
    /// first, and its rows are flipped.
    #[verifier::spinoff_prover]
    fn take_up<B: MiyagiBackend>(
        backend: &mut B,
        targets: Vec<CompiledProbe>,
        controls: Vec<CompiledProbe>,
        config: SearchConfig,
        pool: Vec<Candidate>,
        target: Vec<ProbeMeasurement>,
        control: Vec<ProbeMeasurement>,
        resume: Option<SearchCheckpoint>,
    ) -> (r: Result<SearchSession, Error>)
        requires
            0 < targets@.len(),
            0 < controls@.len(),
            target@.len() == targets@.len(),
            control@.len() == controls@.len(),
        ensures
            crate::backend::continues(old(backend).history(), final(backend).history()),
            forall|setup: Setup|
                ({
                    &&& setup.targets == crate::probe::compiled_models(targets@)
                    &&& setup.controls == crate::probe::compiled_models(controls@)
                    &&& setup.config == config@
                    &&& setup.resume == resume_view(resume)
                }) ==> #[trigger] setup.takes_up(
                    crate::backend::shown(old(backend).history()),
                    pool@,
                    crate::probe::measurement_models(target@),
                    crate::probe::measurement_models(control@),
                    crate::backend::calls_since(old(backend).history(), final(backend).history()),
                    session_view(r),
                ),
    {
        let ghost before = backend.history();
        let architecture_signature: String = backend.architecture().signature().to_owned();
        let model_label: String = backend.model_label().to_owned();
        proof {
            crate::backend::lemma_no_calls(before);
        }
        assert(targets.len() == targets@.len());
        assert(pool.len() == pool@.len());
        proof {
            reveal(Setup::takes_up);
        }
        match resume {
            None => {
                let screen: Vec<usize> = crate::search::screen::screen_indices(
                    target.as_slice(),
                    config.screen_probe_count,
                );
                let rng: SplitMix64 = SplitMix64::new(config.seed);
                let accepted: Vec<PatchFlip> = Vec::new();
                let session = SearchSession {
                    targets,
                    controls,
                    config,
                    architecture_signature,
                    model_label,
                    pool,
                    target_baseline: target,
                    control_baseline: control,
                    screen,
                    accepted,
                    tried: FlipSet::new(),
                    current_fitness: Binary32::zero(),
                    completed_iterations: 0,
                    screened_out: 0,
                    rng,
                    pending: None,
                };
                assert(session@.accepted =~= Seq::<PatchFlip>::empty());
                Ok(session)
            },
            Some(checkpoint) => {
                if let Err(error) = crate::search::checkpoint::validate_checkpoint(
                    &checkpoint,
                    &config,
                    architecture_signature.as_str(),
                    target.as_slice(),
                    control.as_slice(),
                ) {
                    return Err(error);
                }
                if let Err(error) = crate::restore::apply_coordinates(
                    backend,
                    checkpoint.accepted.as_slice(),
                    "checkpoint restoration",
                ) {
                    return Err(error);
                }
                let screen: Vec<usize> = crate::search::screen::screen_indices(
                    checkpoint.target_baseline.as_slice(),
                    config.screen_probe_count,
                );
                let rng: SplitMix64 = SplitMix64::from_state(checkpoint.rng_state);
                Ok(
                    SearchSession {
                        targets,
                        controls,
                        config,
                        architecture_signature,
                        model_label,
                        pool,
                        target_baseline: checkpoint.target_baseline,
                        control_baseline: checkpoint.control_baseline,
                        screen,
                        accepted: checkpoint.accepted,
                        tried: checkpoint.tried,
                        current_fitness: checkpoint.current_fitness,
                        completed_iterations: checkpoint.completed_iterations,
                        screened_out: 0,
                        rng,
                        pending: None,
                    },
                )
            },
        }
    }

    /// Measures the baselines and makes the search of them.
    #[verifier::spinoff_prover]
    fn measure<B: MiyagiBackend>(
        backend: &mut B,
        targets: Vec<CompiledProbe>,
        controls: Vec<CompiledProbe>,
        config: SearchConfig,
        pool: Vec<Candidate>,
        resume: Option<SearchCheckpoint>,
    ) -> (r: Result<SearchSession, Error>)
        requires
            0 < targets@.len(),
            0 < controls@.len(),
        ensures
            crate::backend::continues(old(backend).history(), final(backend).history()),
            forall|setup: Setup|
                ({
                    &&& setup.targets == crate::probe::compiled_models(targets@)
                    &&& setup.controls == crate::probe::compiled_models(controls@)
                    &&& setup.config == config@
                    &&& setup.resume == resume_view(resume)
                }) ==> #[trigger] setup.measures(
                    crate::backend::shown(old(backend).history()),
                    pool@,
                    crate::backend::calls_since(old(backend).history(), final(backend).history()),
                    session_view(r),
                ),
    {
        let ghost before = backend.history();
        let ghost none: Seq<BackendCall> = Seq::empty();
        let ghost count = targets@.len() + controls@.len();
        let measured: Result<(Vec<ProbeMeasurement>, Vec<ProbeMeasurement>), Error> =
            measure_both(backend, targets.as_slice(), controls.as_slice());
        let ghost middle = backend.history();
        let ghost gaps = crate::backend::calls_since(before, middle);
        proof {
            reveal(Setup::measures);
            crate::backend::lemma_head_tail(gaps, none, count);
            crate::backend::lemma_shown(before, middle);
        }
        let (target, control): (Vec<ProbeMeasurement>, Vec<ProbeMeasurement>) = match measured {
            Err(error) => {
                return Err(error);
            },
            Ok(pair) => pair,
        };
        let r: Result<SearchSession, Error> = SearchSession::take_up(
            backend,
            targets,
            controls,
            config,
            pool,
            target,
            control,
            resume,
        );
        proof {
            let now = backend.history();
            let rest = crate::backend::calls_since(middle, now);
            crate::backend::lemma_calls_concat(before, middle, now);
            crate::backend::lemma_head_tail(gaps, rest, count);
        }
        r
    }

    /// Begins a search, or takes one up where a checkpoint left it.
    #[verifier::spinoff_prover]
    pub fn begin<B: MiyagiBackend>(
        backend: &mut B,
        targets: Vec<CompiledProbe>,
        controls: Vec<CompiledProbe>,
        config: SearchConfig,
        resume: Option<SearchCheckpoint>,
    ) -> (r: Result<SearchSession, Error>)
        ensures
            crate::backend::continues(old(backend).history(), final(backend).history()),
            ({
                let setup = Setup {
                    sight: crate::backend::shown(old(backend).history()),
                    targets: crate::probe::compiled_models(targets@),
                    controls: crate::probe::compiled_models(controls@),
                    config: config@.resolved(
                        crate::backend::shown(old(backend).history()).map.layer_count,
                    ),
                    resume: resume_view(resume),
                };
                setup.begins(
                    crate::backend::calls_since(old(backend).history(), final(backend).history()),
                    session_view(r),
                )
            }),
    {
        proof {
            reveal(Setup::begins);
        }
        let ghost before = backend.history();
        let ghost none: Seq<BackendCall> = Seq::empty();
        let ghost setup = Setup {
            sight: crate::backend::shown(before),
            targets: crate::probe::compiled_models(targets@),
            controls: crate::probe::compiled_models(controls@),
            config: config@.resolved(crate::backend::shown(before).map.layer_count),
            resume: resume_view(resume),
        };
        let layers: Vec<usize> = crate::search::layers::resolve_search_layers(
            backend.architecture().layer_count(),
            config.search_layers.as_slice(),
        );
        let mut config: SearchConfig = config;
        config.search_layers = layers;
        assert(config@ == setup.config);
        proof {
            crate::backend::lemma_no_calls(before);
        }
        if let Err(error) = crate::search::config::validate_config(
            backend.architecture(),
            targets.len(),
            controls.len(),
            &config,
        ) {
            return Err(error);
        }
        let coordinates: Vec<(usize, Projection)> = config.coordinates();
        let offered: Result<Vec<Candidate>, Error> = crate::search::pool::build_candidates(
            backend,
            coordinates.as_slice(),
        );
        let ghost first_stop = backend.history();
        let ghost scales = crate::backend::calls_since(before, first_stop);
        let pool: Vec<Candidate> = match offered {
            Err(error) => {
                proof {
                    crate::backend::lemma_head_tail(scales, none, coordinates@.len());
                }
                return Err(error);
            },
            Ok(pool) => pool,
        };
        let r: Result<SearchSession, Error> = SearchSession::measure(
            backend,
            targets,
            controls,
            config,
            pool,
            resume,
        );
        proof {
            let now = backend.history();
            let rest = crate::backend::calls_since(first_stop, now);
            crate::backend::lemma_calls_concat(before, first_stop, now);
            crate::backend::lemma_head_tail(scales, rest, coordinates@.len());
            crate::backend::lemma_shown(before, first_stop);
            assert(setup.measures(
                crate::backend::shown(first_stop),
                pool@,
                rest,
                session_view(r),
            ));
        }
        r
    }

    pub fn config(&self) -> (r: &SearchConfig)
        ensures
            r@ == self@.config,
    {
        &self.config
    }

    pub fn target_baseline(&self) -> (r: &[ProbeMeasurement])
        ensures
            crate::probe::measurement_models(r@) == self@.target_baseline,
    {
        self.target_baseline.as_slice()
    }

    pub fn control_baseline(&self) -> (r: &[ProbeMeasurement])
        ensures
            crate::probe::measurement_models(r@) == self@.control_baseline,
    {
        self.control_baseline.as_slice()
    }

    pub fn completed_iterations(&self) -> (r: usize)
        ensures
            r == self@.completed_iterations,
            self@.consistent(),
    {
        proof {
            use_type_invariant(self);
        }
        self.completed_iterations
    }

    /// Whether there are iterations left and no row is being tried.
    pub fn wants_more(&self) -> (r: bool)
        ensures
            r == self@.wants_more(),
    {
        self.pending.is_none() && self.completed_iterations < self.config.max_iters
    }

    /// The report of the baselines.
    pub fn baseline_event(&self) -> (r: SearchEvent)
        ensures
            r@ == (EventModel::Baseline {
                target: self@.target_baseline,
                control: self@.control_baseline,
            }),
    {
        SearchEvent::Baseline {
            target: crate::probe::copy_measurements(self.target_baseline.as_slice()),
            control: crate::probe::copy_measurements(self.control_baseline.as_slice()),
        }
    }

    /// The places of the pool whose rows have not been tried.
    fn available(&self) -> (r: Vec<usize>)
        ensures
            r@ == self@.available(),
            forall|i: int| 0 <= i < r@.len() ==> (#[trigger] r@[i]) < self@.pool.len(),
    {
        let mut out: Vec<usize> = Vec::new();
        let mut next: usize = 0;
        while next < self.pool.len()
            invariant
                next <= self.pool@.len(),
                out@ == crate::search::state::untried(self.pool@, self.tried@, next as nat),
                forall|i: int| 0 <= i < out@.len() ==> (#[trigger] out@[i]) < next,
            decreases self.pool@.len() - next,
        {
            if !self.tried.contains(self.pool[next].flip) {
                out.push(next);
            }
            next = next + 1;
        }
        out
    }

    /// What the next row is drawn from. Where every row has been tried, there is
    /// nothing to draw.
    pub fn offer(&self) -> (r: Option<Draw>)
        ensures
            match r {
                None => self@.available().len() == 0,
                Some(draw) => {
                    &&& self@.available().len() > 0
                    &&& draw.weights@ == self@.weights()
                    &&& draw.ticket == self@.ticket()
                },
            },
    {
        let places: Vec<usize> = self.available();
        if places.len() == 0 {
            return None;
        }
        let mut weights: Vec<Binary32> = Vec::new();
        let mut next: usize = 0;
        while next < places.len()
            invariant
                next <= places@.len(),
                weights@.len() == next,
                forall|i: int| 0 <= i < places@.len() ==> (#[trigger] places@[i]) < self.pool@.len(),
                forall|i: int|
                    0 <= i < next ==> #[trigger] weights@[i] == self.pool@[places@[i] as int].weight,
            decreases places@.len() - next,
        {
            weights.push(self.pool[places[next]].weight);
            next = next + 1;
        }
        let mut rng: SplitMix64 = self.rng;
        let ticket: u64 = crate::search::sampling::unit_numerator(rng.next_u64());
        assert(weights@ =~= self@.weights());
        Some(Draw { weights, ticket })
    }

    /// Settles on the next row to try: the picked one of those on offer or, without
    /// a pick, one at random.
    pub fn take(&mut self, pick: Option<usize>) -> (r: SearchEvent)
        requires
            old(self)@.wants_more(),
            old(self)@.available().len() > 0,
            pick matches Some(place) ==> place < old(self)@.available().len(),
        ensures
            final(self)@ == old(self)@.taken(pick),
            final(self)@.consistent(),
            r@ == (EventModel::Candidate {
                iteration: old(self)@.completed_iterations + 1,
                flip: old(self)@.drawn(pick),
            }),
    {
        proof {
            use_type_invariant(&*self);
        }
        let places: Vec<usize> = self.available();
        let mut rng: SplitMix64 = self.rng;
        let random: u64 = rng.next_u64();
        let place: usize = match pick {
            Some(place) => place,
            None => (random as usize) % places.len(),
        };
        let flip: PatchFlip = self.pool[places[place]].flip;
        let mut tried: FlipSet = FlipSet::new();
        std::mem::swap(&mut tried, &mut self.tried);
        tried.insert(flip);
        self.tried = tried;
        self.rng = rng;
        self.completed_iterations = self.completed_iterations + 1;
        self.pending = Some(flip);
        SearchEvent::Candidate { iteration: self.completed_iterations, flip }
    }

    /// Flips the row that is being tried and measures the model with it.
    #[verifier::spinoff_prover]
    pub fn evaluate<B: MiyagiBackend>(&self, backend: &mut B) -> (r: Result<
        CandidateReading,
        Error,
    >)
        requires
            self@.pending is Some,
        ensures
            crate::backend::continues(old(backend).history(), final(backend).history()),
            self@.evaluates(
                self@.pending->Some_0,
                crate::backend::calls_since(old(backend).history(), final(backend).history()),
                crate::search::evaluate::reading_view(r),
            ),
    {
        proof {
            use_type_invariant(self);
        }
        let ghost before = backend.history();
        let flip: PatchFlip = match self.pending {
            Some(flip) => flip,
            None => {
                return Ok(CandidateReading::ScreenedOut);
            },
        };
        let reply: Result<(), Error> = backend.flip_row(flip.layer, flip.proj, flip.row);
        let ghost flipped = backend.history();
        let ghost call = flipped.last();
        proof {
            assert(flipped.skip(before.len() as int) =~= seq![call]);
            assert(flipped =~= before + seq![call]);
        }
        if let Err(error) = reply {
            assert(seq![call].skip(1) =~= Seq::<BackendCall>::empty());
            return Err(error);
        }
        proof {
            crate::search::screen::lemma_screen_in_range(
                self@.target_baseline,
                self@.config.screen_probe_count as nat,
                self@.screen,
            );
        }
        let reading: Result<CandidateReading, Error> = crate::search::evaluate::measure_candidate(
            backend,
            self.targets.as_slice(),
            self.controls.as_slice(),
            self.screen.as_slice(),
            self.target_baseline.as_slice(),
        );
        let ghost measured = backend.history();
        let ghost gaps = crate::backend::calls_since(flipped, measured);
        proof {
            crate::backend::lemma_calls_concat(before, flipped, measured);
            assert((seq![call] + gaps).skip(1) =~= gaps);
        }
        match reading {
            Ok(reading) => Ok(reading),
            Err(error) => {
                let restored: Result<(), Error> = crate::restore::revert_candidate(
                    backend,
                    flip,
                    "failed candidate evaluation",
                );
                proof {
                    let now = backend.history();
                    let back = crate::backend::calls_since(measured, now);
                    crate::backend::lemma_calls_concat(flipped, measured, now);
                    crate::backend::lemma_calls_concat(before, flipped, now);
                    let rest = gaps + back;
                    assert((seq![call] + rest).skip(1) =~= rest);
                    assert(rest.drop_last() =~= gaps);
                    assert(rest.last() == back[0]);
                }
                if let Err(failure) = restored {
                    return Err(failure);
                }
                Err(error)
            },
        }
    }

    /// Keeps the row that is being tried where it makes the model better, and flips
    /// it back otherwise.
    pub fn settle<B: MiyagiBackend>(
        &mut self,
        backend: &mut B,
        evaluation: Result<CandidateEvaluation, Error>,
    ) -> (r: Result<SearchEvent, Error>)
        requires
            old(self)@.pending is Some,
        ensures
            crate::backend::continues(old(backend).history(), final(backend).history()),
            old(self)@.settles(
                crate::backend::answer(evaluation),
                crate::backend::calls_since(old(backend).history(), final(backend).history()),
                final(self)@,
                event_view(r),
            ),
            final(self)@.consistent(),
    {
        proof {
            use_type_invariant(&*self);
            crate::backend::lemma_no_calls(backend.history());
        }
        let iteration: usize = self.completed_iterations;
        let flip: PatchFlip = match self.pending {
            Some(flip) => flip,
            None => {
                return Ok(SearchEvent::Checkpoint { iteration });
            },
        };
        match evaluation {
            Err(error) => {
                if let Err(failure) = crate::restore::revert_candidate(
                    backend,
                    flip,
                    "failed candidate evaluation",
                ) {
                    return Err(failure);
                }
                Err(error)
            },
            Ok(CandidateEvaluation::ScreenedOut) => {
                if let Err(failure) = crate::restore::revert_candidate(
                    backend,
                    flip,
                    "screened candidate",
                ) {
                    return Err(failure);
                }
                self.pending = None;
                self.screened_out = self.screened_out + 1;
                Ok(SearchEvent::ScreenedOut { iteration, flip })
            },
            Ok(CandidateEvaluation::Measured { fitness }) => {
                if fitness.is_greater_than(self.current_fitness) {
                    let mut accepted: Vec<PatchFlip> = Vec::new();
                    std::mem::swap(&mut accepted, &mut self.accepted);
                    accepted.push(flip);
                    let count: usize = accepted.len();
                    self.accepted = accepted;
                    self.current_fitness = fitness;
                    self.pending = None;
                    Ok(SearchEvent::Accepted { iteration, flip, fitness, accepted: count })
                } else {
                    if let Err(failure) = crate::restore::revert_candidate(
                        backend,
                        flip,
                        "rejected candidate",
                    ) {
                        return Err(failure);
                    }
                    self.pending = None;
                    Ok(
                        SearchEvent::Rejected {
                            iteration,
                            flip,
                            fitness,
                            best_fitness: self.current_fitness,
                        },
                    )
                }
            },
        }
    }

    /// The state that a later search can take up.
    pub fn checkpoint(&self) -> (r: SearchCheckpoint)
        ensures
            r@ == self@.checkpoint(),
    {
        SearchCheckpoint {
            version: crate::search::checkpoint::CHECKPOINT_VERSION,
            architecture_signature: self.architecture_signature.clone(),
            model_label: self.model_label.clone(),
            config: self.config.clone(),
            completed_iterations: self.completed_iterations,
            accepted: crate::patch::copy_flips(self.accepted.as_slice()),
            tried: self.tried.clone(),
            current_fitness: self.current_fitness,
            rng_state: self.rng.state(),
            target_baseline: crate::probe::copy_measurements(self.target_baseline.as_slice()),
            control_baseline: crate::probe::copy_measurements(self.control_baseline.as_slice()),
        }
    }

    /// Measures the model as the search leaves it.
    pub fn measure_final<B: MiyagiBackend>(&self, backend: &mut B) -> (r: Result<
        (Vec<ProbeMeasurement>, Vec<ProbeMeasurement>),
        Error,
    >)
        ensures
            crate::backend::continues(old(backend).history(), final(backend).history()),
            ({
                let calls = crate::backend::calls_since(
                    old(backend).history(),
                    final(backend).history(),
                );
                &&& crate::search::state::both_requests(self@.targets, self@.controls, calls)
                &&& crate::probe::pair_view(r) == crate::search::state::both_outcome(
                    self@.targets,
                    self@.controls,
                    calls,
                )
            }),
    {
        measure_both(backend, self.targets.as_slice(), self.controls.as_slice())
    }

    /// The patch of the accepted rows.
    pub fn patch(&self) -> (r: Patch)
        ensures
            r@ == self@.patch(),
    {
        let mut patch: Patch = Patch::new(
            self.config.patch_name.clone(),
            self.config.patch_description.clone(),
            self.config.base_model.clone(),
            crate::patch::copy_flips(self.accepted.as_slice()),
        );
        let mut algorithm: String = "greedy_hill_climbing_screened_".to_owned();
        algorithm.append(self.config.fitness_mode.word());
        patch.keep(
            "architecture_signature",
            MetadataValue::Text(self.architecture_signature.clone()),
        );
        patch.keep("search_algorithm", MetadataValue::Text(algorithm));
        patch.keep("seed", MetadataValue::Count(self.config.seed));
        patch.keep(
            "completed_iterations",
            MetadataValue::Count(self.completed_iterations as u64),
        );
        patch.keep("control_penalty", MetadataValue::Number(self.config.control_penalty));
        patch
    }

    /// Makes the result of the search, with the last measurements and their fitness,
    /// and the report that it is complete. The patch has to fit the model.
    pub fn finish(
        self,
        architecture: &ArchitectureMap,
        final_target: Vec<ProbeMeasurement>,
        final_control: Vec<ProbeMeasurement>,
        final_fitness: Binary32,
    ) -> (r: Result<(SearchResult, SearchEvent), Error>)
        ensures
            match self@.patch().fault(
                architecture@,
                (PatchValidation { allow_model_signature_mismatch: false }),
            ) {
                Some(error) => r matches Err(e) && e@ == error,
                None => {
                    &&& r matches Ok((result, event))
                    &&& result@ == self@.result(
                        architecture@,
                        crate::probe::measurement_models(final_target@),
                        crate::probe::measurement_models(final_control@),
                        final_fitness,
                    )
                    &&& event@ == (EventModel::Completed {
                        iterations: self@.completed_iterations,
                        accepted: self@.accepted.len(),
                        fitness: final_fitness,
                    })
                },
            },
    {
        let patch: Patch = self.patch();
        let validated: ValidatedPatch = match patch.validate(
            architecture,
            PatchValidation::default(),
        ) {
            Err(error) => {
                return Err(error);
            },
            Ok(validated) => validated,
        };
        let patch: Patch = validated.into_patch();
        let event = SearchEvent::Completed {
            iterations: self.completed_iterations,
            accepted: patch.flips.len(),
            fitness: final_fitness,
        };
        let result = SearchResult {
            patch,
            target_baseline: crate::probe::copy_measurements(self.target_baseline.as_slice()),
            control_baseline: crate::probe::copy_measurements(self.control_baseline.as_slice()),
            final_target,
            final_control,
            final_fitness,
            completed_iterations: self.completed_iterations,
            tried_candidates: self.tried.len(),
            screened_out: self.screened_out,
            model_state: ModelPatchState::AcceptedPatchApplied,
        };
        Ok((result, event))
    }
}

} // verus!
