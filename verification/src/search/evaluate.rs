//! The measurement of a model with one more row flipped.

use vstd::prelude::*;

use crate::backend::{BackendCall, MiyagiBackend};
use crate::error::{Error, ErrorModel};
use crate::float::Binary32;
use crate::patch::PatchFlip;
use crate::probe::{CompiledModel, CompiledProbe, MeasurementModel, ProbeMeasurement};

verus! {

/// What was measured of a candidate.
#[derive(Debug)]
pub enum CandidateReading {
    /// No probe of the screen got better.
    ScreenedOut,
    /// A gap is not finite.
    NonFinite,
    /// The gaps of all probes, all finite.
    Measured { target: Vec<ProbeMeasurement>, control: Vec<ProbeMeasurement> },
}

pub enum ReadingModel {
    ScreenedOut,
    NonFinite,
    Measured { target: Seq<MeasurementModel>, control: Seq<MeasurementModel> },
}

impl View for CandidateReading {
    type V = ReadingModel;

    open spec fn view(&self) -> ReadingModel {
        match self {
            CandidateReading::ScreenedOut => ReadingModel::ScreenedOut,
            CandidateReading::NonFinite => ReadingModel::NonFinite,
            CandidateReading::Measured { target, control } => ReadingModel::Measured {
                target: crate::probe::measurement_models(target@),
                control: crate::probe::measurement_models(control@),
            },
        }
    }
}

/// The view of a reading or of the error in its place.
pub open spec fn reading_view(result: Result<CandidateReading, Error>) -> Result<
    ReadingModel,
    ErrorModel,
> {
    match result {
        Ok(reading) => Ok(reading@),
        Err(error) => Err(error@),
    }
}

/// The gap of the last measurement of the name.
pub open spec fn gap_of(measurements: Seq<MeasurementModel>, name: Seq<char>) -> Option<Binary32>
    decreases measurements.len(),
{
    if measurements.len() == 0 {
        None
    } else if measurements.last().name == name {
        Some(measurements.last().gap)
    } else {
        gap_of(measurements.drop_last(), name)
    }
}

/// The measurement is better than the baseline has it: its gap is finite and
/// greater.
pub open spec fn improves(baseline: Seq<MeasurementModel>, measurement: MeasurementModel) -> bool {
    match gap_of(baseline, measurement.name) {
        None => false,
        Some(gap) => measurement.gap.finite() && measurement.gap.exceeds(gap),
    }
}

/// One of the measurements is better than the baseline has it.
pub open spec fn any_improves(
    baseline: Seq<MeasurementModel>,
    measurements: Seq<MeasurementModel>,
) -> bool {
    exists|i: int| 0 <= i < measurements.len() && improves(baseline, #[trigger] measurements[i])
}

/// Every gap is finite.
pub open spec fn all_finite(measurements: Seq<MeasurementModel>) -> bool {
    forall|i: int| 0 <= i < measurements.len() ==> (#[trigger] measurements[i]).gap.finite()
}

/// The items at the given places.
pub open spec fn picked<A>(items: Seq<A>, places: Seq<usize>) -> Seq<A> {
    Seq::new(places.len(), |k: int| items[places[k] as int])
}

/// The places before `count` that are not in `taken`, in order.
pub open spec fn others(taken: Seq<usize>, count: nat) -> Seq<usize>
    decreases count,
{
    if count == 0 {
        seq![]
    } else {
        let place = (count - 1) as usize;
        let less = others(taken, (count - 1) as nat);
        if taken.contains(place) {
            less
        } else {
            less.push(place)
        }
    }
}

/// The items `first` and `second`, put at the places `taken` and at the others.
pub open spec fn merged<A>(
    count: nat,
    taken: Seq<usize>,
    first: Seq<A>,
    second: Seq<A>,
) -> Seq<A> {
    Seq::new(
        count,
        |i: int|
            if taken.contains(i as usize) {
                first[taken.index_of(i as usize)]
            } else {
                second[others(taken, i as nat).len() as int]
            },
    )
}

/// What the answers make of probes of which there may be none.
pub open spec fn any_gap_outcome(probes: Seq<CompiledModel>, calls: Seq<BackendCall>) -> Result<
    Seq<MeasurementModel>,
    ErrorModel,
> {
    if probes.len() == 0 {
        Ok(seq![])
    } else {
        crate::probe::gap_outcome(probes, calls)
    }
}

/// What a candidate is measured with.
pub struct Trial {
    pub targets: Seq<CompiledModel>,
    pub controls: Seq<CompiledModel>,
    /// The targets that are measured first.
    pub screen: Seq<usize>,
    pub baseline: Seq<MeasurementModel>,
}

impl Trial {
    pub open spec fn screened(self) -> Seq<CompiledModel> {
        picked(self.targets, self.screen)
    }

    pub open spec fn unscreened(self) -> Seq<CompiledModel> {
        picked(self.targets, others(self.screen, self.targets.len()))
    }

    /// The screen is put to the model first. If it improves on the baseline, the
    /// other targets follow, in order, and then the controls. A request that fails
    /// is the last.
    #[verifier::opaque]
    pub open spec fn requests(self, calls: Seq<BackendCall>) -> bool {
        let screen = crate::backend::head(calls, self.screened().len());
        let after_screen = crate::backend::tail(calls, self.screened().len());
        let rest = crate::backend::head(after_screen, self.unscreened().len());
        let after_rest = crate::backend::tail(after_screen, self.unscreened().len());
        &&& crate::probe::gap_requests(self.screened(), screen)
        &&& match crate::probe::gap_outcome(self.screened(), screen) {
            Err(_) => after_screen.len() == 0,
            Ok(first) => if !any_improves(self.baseline, first) {
                after_screen.len() == 0
            } else {
                &&& crate::probe::gap_requests(self.unscreened(), rest)
                &&& match any_gap_outcome(self.unscreened(), rest) {
                    Err(_) => after_rest.len() == 0,
                    Ok(_) => crate::probe::gap_requests(self.controls, after_rest),
                }
            },
        }
    }

    /// What the answers make of the candidate.
    #[verifier::opaque]
    pub open spec fn outcome(self, calls: Seq<BackendCall>) -> Result<ReadingModel, ErrorModel> {
        let screen = crate::backend::head(calls, self.screened().len());
        let after_screen = crate::backend::tail(calls, self.screened().len());
        let rest = crate::backend::head(after_screen, self.unscreened().len());
        let after_rest = crate::backend::tail(after_screen, self.unscreened().len());
        match crate::probe::gap_outcome(self.screened(), screen) {
            Err(error) => Err(error),
            Ok(first) => if !any_improves(self.baseline, first) {
                Ok(ReadingModel::ScreenedOut)
            } else {
                match any_gap_outcome(self.unscreened(), rest) {
                    Err(error) => Err(error),
                    Ok(second) => match crate::probe::gap_outcome(self.controls, after_rest) {
                        Err(error) => Err(error),
                        Ok(control) => {
                            let target = merged(self.targets.len(), self.screen, first, second);
                            if all_finite(target) && all_finite(control) {
                                Ok(ReadingModel::Measured { target, control })
                            } else {
                                Ok(ReadingModel::NonFinite)
                            }
                        },
                    },
                }
            },
        }
    }
}

/// The gap of the last measurement of the name.
fn find_gap(measurements: &[ProbeMeasurement], name: &String) -> (r: Option<Binary32>)
    ensures
        r == gap_of(crate::probe::measurement_models(measurements@), name@),
{
    let ghost models = crate::probe::measurement_models(measurements@);
    let mut left: usize = measurements.len();
    assert(models.take(left as int) =~= models);
    while left > 0
        invariant
            left <= measurements@.len(),
            models == crate::probe::measurement_models(measurements@),
            gap_of(models, name@) == gap_of(models.take(left as int), name@),
        decreases left,
    {
        assert(models.take(left as int).last() == measurements@[left - 1]@);
        assert(models.take(left as int).drop_last() =~= models.take(left - 1));
        if measurements[left - 1].name == *name {
            return Some(measurements[left - 1].gap);
        }
        left = left - 1;
    }
    None
}

fn is_any_better(baseline: &[ProbeMeasurement], measurements: &[ProbeMeasurement]) -> (r: bool)
    ensures
        r == any_improves(
            crate::probe::measurement_models(baseline@),
            crate::probe::measurement_models(measurements@),
        ),
{
    let ghost before = crate::probe::measurement_models(baseline@);
    let ghost models = crate::probe::measurement_models(measurements@);
    let mut next: usize = 0;
    while next < measurements.len()
        invariant
            next <= measurements@.len(),
            before == crate::probe::measurement_models(baseline@),
            models == crate::probe::measurement_models(measurements@),
            forall|i: int| 0 <= i < next ==> !improves(before, #[trigger] models[i]),
        decreases measurements@.len() - next,
    {
        let measurement: &ProbeMeasurement = &measurements[next];
        assert(models[next as int] == measurement@);
        if let Some(gap) = find_gap(baseline, &measurement.name) {
            if measurement.gap.is_finite() && measurement.gap.is_greater_than(gap) {
                assert(improves(before, models[next as int]));
                return true;
            }
        }
        next = next + 1;
    }
    false
}

fn are_all_finite(measurements: &[ProbeMeasurement]) -> (r: bool)
    ensures
        r == all_finite(crate::probe::measurement_models(measurements@)),
{
    let ghost models = crate::probe::measurement_models(measurements@);
    let mut next: usize = 0;
    while next < measurements.len()
        invariant
            next <= measurements@.len(),
            models == crate::probe::measurement_models(measurements@),
            forall|i: int| 0 <= i < next ==> (#[trigger] models[i]).gap.finite(),
        decreases measurements@.len() - next,
    {
        assert(models[next as int] == measurements@[next as int]@);
        if !measurements[next].gap.is_finite() {
            return false;
        }
        next = next + 1;
    }
    true
}

/// Copies the probes at the given places.
fn pick_probes(probes: &[CompiledProbe], places: &[usize]) -> (r: Vec<CompiledProbe>)
    requires
        forall|k: int| 0 <= k < places@.len() ==> (#[trigger] places@[k]) < probes@.len(),
    ensures
        crate::probe::compiled_models(r@) == picked(
            crate::probe::compiled_models(probes@),
            places@,
        ),
{
    let mut out: Vec<CompiledProbe> = Vec::new();
    let mut next: usize = 0;
    while next < places.len()
        invariant
            next <= places@.len(),
            out@.len() == next,
            forall|k: int| 0 <= k < places@.len() ==> (#[trigger] places@[k]) < probes@.len(),
            forall|k: int| 0 <= k < next ==> (#[trigger] out@[k])@ == probes@[places@[k] as int]@,
        decreases places@.len() - next,
    {
        out.push(probes[places[next]].clone());
        next = next + 1;
    }
    assert(crate::probe::compiled_models(out@) =~= picked(
        crate::probe::compiled_models(probes@),
        places@,
    ));
    out
}

/// Where `place` stands in the list.
fn find_place(places: &[usize], place: usize) -> (r: Option<usize>)
    ensures
        match r {
            Some(k) => k < places@.len() && places@[k as int] == place,
            None => !places@.contains(place),
        },
{
    let mut next: usize = 0;
    while next < places.len()
        invariant
            next <= places@.len(),
            forall|k: int| 0 <= k < next ==> places@[k] != place,
        decreases places@.len() - next,
    {
        if places[next] == place {
            return Some(next);
        }
        next = next + 1;
    }
    None
}

proof fn lemma_others_in_range(taken: Seq<usize>, count: nat)
    requires
        count <= usize::MAX,
    ensures
        others(taken, count).len() <= count,
        forall|k: int|
            0 <= k < others(taken, count).len() ==> (#[trigger] others(taken, count)[k]) < count,
    decreases count,
{
    if count > 0 {
        lemma_others_in_range(taken, (count - 1) as nat);
    }
}

fn other_places(taken: &[usize], count: usize) -> (r: Vec<usize>)
    ensures
        r@ == others(taken@, count as nat),
{
    let mut out: Vec<usize> = Vec::new();
    let mut next: usize = 0;
    while next < count
        invariant
            next <= count,
            out@ == others(taken@, next as nat),
        decreases count - next,
    {
        if find_place(taken, next).is_none() {
            out.push(next);
        } else {
            assert(taken@.contains(next));
        }
        next = next + 1;
    }
    out
}

proof fn lemma_others_grow(taken: Seq<usize>, less: nat, more: nat)
    requires
        less <= more,
    ensures
        others(taken, less).len() <= others(taken, more).len(),
    decreases more,
{
    if less < more {
        lemma_others_grow(taken, less, (more - 1) as nat);
    }
}

/// Puts two lists of measurements into one.
fn merge_measurements(
    count: usize,
    taken: &[usize],
    first: &[ProbeMeasurement],
    second: &[ProbeMeasurement],
) -> (r: Vec<ProbeMeasurement>)
    requires
        first@.len() == taken@.len(),
        taken@.no_duplicates(),
        second@.len() == others(taken@, count as nat).len(),
    ensures
        crate::probe::measurement_models(r@) == merged(
            count as nat,
            taken@,
            crate::probe::measurement_models(first@),
            crate::probe::measurement_models(second@),
        ),
{
    let ghost all = merged(
        count as nat,
        taken@,
        crate::probe::measurement_models(first@),
        crate::probe::measurement_models(second@),
    );
    let mut out: Vec<ProbeMeasurement> = Vec::new();
    let mut next: usize = 0;
    let mut passed: usize = 0;
    while next < count
        invariant
            next <= count,
            first@.len() == taken@.len(),
            taken@.no_duplicates(),
            second@.len() == others(taken@, count as nat).len(),
            passed == others(taken@, next as nat).len(),
            all == merged(
                count as nat,
                taken@,
                crate::probe::measurement_models(first@),
                crate::probe::measurement_models(second@),
            ),
            out@.len() == next,
            forall|i: int| 0 <= i < next ==> (#[trigger] out@[i])@ == all[i],
        decreases count - next,
    {
        match find_place(taken, next) {
            Some(k) => {
                assert(taken@.contains(next));
                assert(taken@.index_of(next) == k);
                out.push(first[k].clone());
            },
            None => {
                proof {
                    lemma_others_grow(taken@, (next + 1) as nat, count as nat);
                }
                out.push(second[passed].clone());
                passed = passed + 1;
            },
        }
        next = next + 1;
    }
    assert(crate::probe::measurement_models(out@) =~= all);
    out
}

/// Measures probes of which there may be none.
fn measure_any<B: MiyagiBackend>(backend: &mut B, probes: &[CompiledProbe]) -> (r: Result<
    Vec<ProbeMeasurement>,
    Error,
>)
    ensures
        crate::backend::continues(old(backend).history(), final(backend).history()),
        ({
            let models = crate::probe::compiled_models(probes@);
            let calls = crate::backend::calls_since(
                old(backend).history(),
                final(backend).history(),
            );
            &&& crate::probe::gap_requests(models, calls)
            &&& crate::probe::measured_view(r) == any_gap_outcome(models, calls)
            &&& r matches Ok(measurements) ==> measurements@.len() == probes@.len()
        }),
{
    if probes.len() == 0 {
        let none: Vec<ProbeMeasurement> = Vec::new();
        proof {
            crate::backend::lemma_no_calls(backend.history());
            assert(crate::probe::measurement_models(none@) =~= Seq::<MeasurementModel>::empty());
        }
        return Ok(none);
    }
    match crate::probe::measure_probes_allowing_non_finite(backend, probes) {
        Err(error) => Err(error),
        Ok(measurements) => {
            assert(crate::probe::measurement_models(measurements@).len() == measurements@.len());
            Ok(measurements)
        },
    }
}

/// A candidate whose screen fails or does not improve on the baseline is measured no
/// further.
proof fn lemma_ends_at_screen(trial: Trial, screen: Seq<BackendCall>)
    requires
        crate::probe::gap_requests(trial.screened(), screen),
        crate::probe::gap_outcome(trial.screened(), screen) matches Ok(first) ==> !any_improves(
            trial.baseline,
            first,
        ),
    ensures
        trial.requests(screen),
        trial.outcome(screen) == match crate::probe::gap_outcome(trial.screened(), screen) {
            Err(error) => Err(error),
            Ok(_) => Ok(ReadingModel::ScreenedOut),
        },
{
    reveal(Trial::requests);
    reveal(Trial::outcome);
    let none: Seq<BackendCall> = Seq::empty();
    let wide = trial.screened().len();
    assert(crate::backend::head(screen, wide) =~= screen);
    assert(crate::backend::tail(screen, wide) =~= none);
}

/// A candidate whose other targets fail is not measured on the controls.
proof fn lemma_ends_at_rest(trial: Trial, screen: Seq<BackendCall>, rest: Seq<BackendCall>)
    requires
        crate::probe::gap_requests(trial.screened(), screen),
        crate::probe::gap_outcome(trial.screened(), screen) is Ok,
        any_improves(
            trial.baseline,
            crate::probe::gap_outcome(trial.screened(), screen)->Ok_0,
        ),
        crate::probe::gap_requests(trial.unscreened(), rest),
        any_gap_outcome(trial.unscreened(), rest) is Err,
    ensures
        trial.requests(screen + rest),
        trial.outcome(screen + rest) == Err::<ReadingModel, ErrorModel>(
            any_gap_outcome(trial.unscreened(), rest)->Err_0,
        ),
{
    reveal(Trial::requests);
    reveal(Trial::outcome);
    let none: Seq<BackendCall> = Seq::empty();
    let wide = trial.screened().len();
    let more = trial.unscreened().len();
    assert(screen.len() == wide);
    crate::backend::lemma_head_tail(screen, rest, wide);
    assert(crate::backend::head(rest, more) =~= rest);
    assert(crate::backend::tail(rest, more) =~= none);
}

/// A candidate whose targets are measured is measured on the controls too.
proof fn lemma_reaches_controls(
    trial: Trial,
    screen: Seq<BackendCall>,
    rest: Seq<BackendCall>,
    last: Seq<BackendCall>,
)
    requires
        crate::probe::gap_requests(trial.screened(), screen),
        crate::probe::gap_outcome(trial.screened(), screen) is Ok,
        any_improves(
            trial.baseline,
            crate::probe::gap_outcome(trial.screened(), screen)->Ok_0,
        ),
        crate::probe::gap_requests(trial.unscreened(), rest),
        any_gap_outcome(trial.unscreened(), rest) is Ok,
        crate::probe::gap_requests(trial.controls, last),
    ensures
        trial.requests(screen + (rest + last)),
        ({
            let target = merged(
                trial.targets.len(),
                trial.screen,
                crate::probe::gap_outcome(trial.screened(), screen)->Ok_0,
                any_gap_outcome(trial.unscreened(), rest)->Ok_0,
            );
            trial.outcome(screen + (rest + last)) == match crate::probe::gap_outcome(
                trial.controls,
                last,
            ) {
                Err(error) => Err(error),
                Ok(control) => if all_finite(target) && all_finite(control) {
                    Ok(ReadingModel::Measured { target, control })
                } else {
                    Ok(ReadingModel::NonFinite)
                },
            }
        }),
{
    reveal(Trial::requests);
    reveal(Trial::outcome);
    let wide = trial.screened().len();
    let more = trial.unscreened().len();
    assert(screen.len() == wide);
    assert(rest.len() == more);
    crate::backend::lemma_head_tail(screen, rest + last, wide);
    crate::backend::lemma_head_tail(rest, last, more);
}

/// Measures a candidate whose row has been flipped.
pub fn measure_candidate<B: MiyagiBackend>(
    backend: &mut B,
    targets: &[CompiledProbe],
    controls: &[CompiledProbe],
    screen: &[usize],
    baseline: &[ProbeMeasurement],
) -> (r: Result<CandidateReading, Error>)
    requires
        screen@.no_duplicates(),
        forall|k: int| 0 <= k < screen@.len() ==> (#[trigger] screen@[k]) < targets@.len(),
    ensures
        crate::backend::continues(old(backend).history(), final(backend).history()),
        ({
            let trial = Trial {
                targets: crate::probe::compiled_models(targets@),
                controls: crate::probe::compiled_models(controls@),
                screen: screen@,
                baseline: crate::probe::measurement_models(baseline@),
            };
            let calls = crate::backend::calls_since(
                old(backend).history(),
                final(backend).history(),
            );
            &&& trial.requests(calls)
            &&& reading_view(r) == trial.outcome(calls)
        }),
{
    let ghost trial = Trial {
        targets: crate::probe::compiled_models(targets@),
        controls: crate::probe::compiled_models(controls@),
        screen: screen@,
        baseline: crate::probe::measurement_models(baseline@),
    };
    let ghost before = backend.history();
    let screen_probes: Vec<CompiledProbe> = pick_probes(targets, screen);
    let places: Vec<usize> = other_places(screen, targets.len());
    proof {
        lemma_others_in_range(screen@, targets@.len());
    }
    let rest_probes: Vec<CompiledProbe> = pick_probes(targets, places.as_slice());
    let screened: Result<Vec<ProbeMeasurement>, Error> =
        crate::probe::measure_probes_allowing_non_finite(backend, screen_probes.as_slice());
    let ghost middle = backend.history();
    let ghost s = crate::backend::calls_since(before, middle);
    let first: Vec<ProbeMeasurement> = match screened {
        Err(error) => {
            proof {
                lemma_ends_at_screen(trial, s);
            }
            return Err(error);
        },
        Ok(first) => first,
    };
    if !is_any_better(baseline, first.as_slice()) {
        proof {
            lemma_ends_at_screen(trial, s);
        }
        return Ok(CandidateReading::ScreenedOut);
    }
    let rest: Result<Vec<ProbeMeasurement>, Error> = measure_any(backend, rest_probes.as_slice());
    let ghost after = backend.history();
    let ghost t = crate::backend::calls_since(middle, after);
    let second: Vec<ProbeMeasurement> = match rest {
        Err(error) => {
            proof {
                crate::backend::lemma_calls_concat(before, middle, after);
                lemma_ends_at_rest(trial, s, t);
            }
            return Err(error);
        },
        Ok(second) => second,
    };
    let controlled: Result<Vec<ProbeMeasurement>, Error> =
        crate::probe::measure_probes_allowing_non_finite(backend, controls);
    proof {
        let now = backend.history();
        let u = crate::backend::calls_since(after, now);
        crate::backend::lemma_calls_concat(middle, after, now);
        crate::backend::lemma_calls_concat(before, middle, now);
        lemma_reaches_controls(trial, s, t, u);
    }
    let control: Vec<ProbeMeasurement> = match controlled {
        Err(error) => {
            return Err(error);
        },
        Ok(control) => control,
    };
    let target: Vec<ProbeMeasurement> = merge_measurements(
        targets.len(),
        screen,
        first.as_slice(),
        second.as_slice(),
    );
    if are_all_finite(target.as_slice()) && are_all_finite(control.as_slice()) {
        Ok(CandidateReading::Measured { target, control })
    } else {
        Ok(CandidateReading::NonFinite)
    }
}

pub proof fn lemma_other_found(taken: Seq<usize>, count: nat, place: usize)
    requires
        place < count <= usize::MAX,
        !taken.contains(place),
    ensures
        others(taken, place as nat).len() < others(taken, count).len(),
        others(taken, count)[others(taken, place as nat).len() as int] == place,
    decreases count,
{
    if place < count - 1 {
        lemma_other_found(taken, (count - 1) as nat, place);
    }
}

/// A candidate that was measured has one finite gap for every probe, under the
/// probe's own name and in the order of the probes, however the screen was chosen.
pub proof fn law_reading_covers_every_probe(trial: Trial, calls: Seq<BackendCall>)
    requires
        trial.targets.len() <= usize::MAX,
        trial.screen.no_duplicates(),
        forall|k: int|
            0 <= k < trial.screen.len() ==> (#[trigger] trial.screen[k]) < trial.targets.len(),
        trial.requests(calls),
    ensures
        trial.outcome(calls) matches Ok(ReadingModel::Measured { target, control }) ==> {
            &&& target.len() == trial.targets.len()
            &&& control.len() == trial.controls.len()
            &&& all_finite(target)
            &&& all_finite(control)
            &&& forall|i: int|
                0 <= i < target.len() ==> #[trigger] target[i] == trial.targets[i].measured(
                    target[i].gap,
                )
            &&& forall|i: int|
                0 <= i < control.len() ==> #[trigger] control[i] == trial.controls[i].measured(
                    control[i].gap,
                )
        },
{
    reveal(Trial::requests);
    reveal(Trial::outcome);
    if let Ok(ReadingModel::Measured { target, control }) = trial.outcome(calls) {
        assert forall|i: int| 0 <= i < target.len() implies #[trigger] target[i]
            == trial.targets[i].measured(target[i].gap) by {
            let place = i as usize;
            if trial.screen.contains(place) {
                let k = trial.screen.index_of(place);
                assert(trial.screen[k] == place);
                assert(trial.screened()[k] == trial.targets[i]);
            } else {
                lemma_other_found(trial.screen, trial.targets.len(), place);
                let k = others(trial.screen, place as nat).len() as int;
                assert(trial.unscreened()[k] == trial.targets[i]);
            }
        }
    }
}

/// Measuring a candidate flips no row.
pub proof fn law_measuring_a_candidate_flips_nothing(
    trial: Trial,
    calls: Seq<BackendCall>,
    rows: Set<PatchFlip>,
)
    requires
        trial.requests(calls),
    ensures
        crate::backend::flipped(rows, calls) == rows,
{
    reveal(Trial::requests);
    let wide = trial.screened().len();
    let screen = crate::backend::head(calls, wide);
    let after_screen = crate::backend::tail(calls, wide);
    let rest = crate::backend::head(after_screen, trial.unscreened().len());
    let after_rest = crate::backend::tail(after_screen, trial.unscreened().len());
    assert forall|i: int| 0 <= i < calls.len() implies !(#[trigger] calls[i] is FlipRow) by {
        if i < screen.len() {
            assert(screen[i] == calls[i]);
        } else {
            let j = i - screen.len();
            assert(after_screen[j] == calls[i]);
            if j < rest.len() {
                assert(rest[j] == calls[i]);
            } else {
                assert(after_rest[j - rest.len()] == calls[i]);
            }
        }
    }
    crate::backend::lemma_flipped_unchanged(rows, calls);
}

} // verus!
