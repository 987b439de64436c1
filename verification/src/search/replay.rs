//! What the answers of the model and of the host determine of a search: all of it.

use vstd::prelude::*;

use crate::architecture::{ArchitectureModel, Projection};
use crate::backend::{BackendCall, Sight};
use crate::error::ErrorModel;
use crate::float::Binary32;
use crate::patch::PatchFlip;
use crate::probe::{CompiledModel, MeasurementModel};
use crate::search::config::ConfigModel;
use crate::search::evaluate::{ReadingModel, Trial};
use crate::search::host::HostCall;
use crate::search::pool::Candidate;
use crate::search::report::{EventModel, ResultModel};
use crate::search::run::{Iteration, Run};
use crate::search::state::{CandidateEvaluation, SessionModel, Setup};

verus! {

proof fn lemma_gaps_no_longer(
    probes: Seq<CompiledModel>,
    a: Seq<BackendCall>,
    b: Seq<BackendCall>,
)
    requires
        crate::probe::gap_requests(probes, a),
        crate::probe::gap_requests(probes, b),
        crate::backend::alike(a, b),
        a.len() <= b.len(),
    ensures
        a == b,
{
    assert forall|i: int| 0 <= i < a.len() implies #[trigger] crate::backend::same_request(
        a[i],
        b[i],
    ) by {
        assert(probes[i].asks(a[i]) && probes[i].asks(b[i]));
    }
    crate::backend::lemma_alike_answers(a, b, a.len());
    let count = a.len() as int;
    assert(a.take(count) =~= a);
    if a.len() < b.len() {
        assert(a.last() == b.take(count)[count - 1]);
        assert(a.last() == b[count - 1]);
        assert(crate::probe::gap_reply(b[count - 1]) is Ok);
    }
    assert(b.take(count) =~= b);
}

proof fn lemma_alike_swapped(a: Seq<BackendCall>, b: Seq<BackendCall>)
    requires
        crate::backend::alike(a, b),
    ensures
        crate::backend::alike(b, a),
{
    assert forall|i: int|
        0 <= i < b.len() && i < a.len() && b.take(i) == a.take(i)
            && #[trigger] crate::backend::same_request(b[i], a[i]) implies b[i] == a[i] by {
        assert(crate::backend::same_request(a[i], b[i]));
    }
}

/// The answers determine how probes are measured.
proof fn lemma_gaps_determined(
    probes: Seq<CompiledModel>,
    a: Seq<BackendCall>,
    b: Seq<BackendCall>,
)
    requires
        crate::probe::gap_requests(probes, a),
        crate::probe::gap_requests(probes, b),
        crate::backend::alike(a, b),
    ensures
        a == b,
{
    if a.len() <= b.len() {
        lemma_gaps_no_longer(probes, a, b);
    } else {
        lemma_alike_swapped(a, b);
        lemma_gaps_no_longer(probes, b, a);
    }
}

pub proof fn lemma_split(calls: Seq<BackendCall>, count: nat)
    ensures
        calls == crate::backend::head(calls, count) + crate::backend::tail(calls, count),
{
    assert(calls =~= crate::backend::head(calls, count) + crate::backend::tail(calls, count));
}

/// The answers determine how targets and controls are measured.
pub proof fn lemma_both_determined(
    targets: Seq<CompiledModel>,
    controls: Seq<CompiledModel>,
    a: Seq<BackendCall>,
    b: Seq<BackendCall>,
)
    requires
        crate::search::state::both_requests(targets, controls, a),
        crate::search::state::both_requests(targets, controls, b),
        crate::backend::alike(a, b),
    ensures
        a == b,
{
    let count = targets.len();
    let first_a = crate::backend::head(a, count);
    let first_b = crate::backend::head(b, count);
    let second_a = crate::backend::tail(a, count);
    let second_b = crate::backend::tail(b, count);
    lemma_split(a, count);
    lemma_split(b, count);
    crate::backend::lemma_alike_parts(first_a, second_a, first_b, second_b);
    lemma_gaps_determined(targets, first_a, first_b);
    if crate::probe::finite_gap_outcome(targets, first_a) is Ok {
        lemma_gaps_determined(controls, second_a, second_b);
    } else {
        assert(second_a =~= second_b);
    }
}

/// The answers determine how a candidate is measured.
proof fn lemma_trial_determined(trial: Trial, a: Seq<BackendCall>, b: Seq<BackendCall>)
    requires
        trial.requests(a),
        trial.requests(b),
        crate::backend::alike(a, b),
    ensures
        a == b,
{
    reveal(Trial::requests);
    let wide = trial.screened().len();
    let rest_wide = trial.unscreened().len();
    let screen_a = crate::backend::head(a, wide);
    let screen_b = crate::backend::head(b, wide);
    let after_a = crate::backend::tail(a, wide);
    let after_b = crate::backend::tail(b, wide);
    lemma_split(a, wide);
    lemma_split(b, wide);
    crate::backend::lemma_alike_parts(screen_a, after_a, screen_b, after_b);
    lemma_gaps_determined(trial.screened(), screen_a, screen_b);
    if after_a.len() == 0 && after_b.len() == 0 {
        assert(after_a =~= after_b);
    } else {
        let rest_a = crate::backend::head(after_a, rest_wide);
        let rest_b = crate::backend::head(after_b, rest_wide);
        let last_a = crate::backend::tail(after_a, rest_wide);
        let last_b = crate::backend::tail(after_b, rest_wide);
        lemma_split(after_a, rest_wide);
        lemma_split(after_b, rest_wide);
        crate::backend::lemma_alike_parts(rest_a, last_a, rest_b, last_b);
        lemma_gaps_determined(trial.unscreened(), rest_a, rest_b);
        if last_a.len() == 0 && last_b.len() == 0 {
            assert(last_a =~= last_b);
        } else {
            lemma_gaps_determined(trial.controls, last_a, last_b);
        }
    }
}

/// The answer to one flip that is asked for in both courses.
pub proof fn lemma_flip_determined(
    flip: PatchFlip,
    a: BackendCall,
    more_a: Seq<BackendCall>,
    b: BackendCall,
    more_b: Seq<BackendCall>,
)
    requires
        crate::restore::asks_flip(flip, a),
        crate::restore::asks_flip(flip, b),
        crate::backend::alike(seq![a] + more_a, seq![b] + more_b),
    ensures
        a == b,
        crate::backend::alike(more_a, more_b),
{
    let all_a = seq![a] + more_a;
    let all_b = seq![b] + more_b;
    assert(all_a.take(0) =~= all_b.take(0));
    assert(crate::backend::same_request(all_a[0], all_b[0]));
    crate::backend::lemma_alike_parts(seq![a], more_a, seq![b], more_b);
}

/// What is measured of a candidate before its row is flipped back, if it is.
spec fn readings(
    rest: Seq<BackendCall>,
    outcome: Result<ReadingModel, ErrorModel>,
) -> Seq<BackendCall> {
    if outcome is Ok {
        rest
    } else {
        rest.drop_last()
    }
}

/// The answers determine how a candidate is tried.
pub proof fn lemma_evaluating_determined(
    session: SessionModel,
    flip: PatchFlip,
    a: Seq<BackendCall>,
    outcome_a: Result<ReadingModel, ErrorModel>,
    b: Seq<BackendCall>,
    outcome_b: Result<ReadingModel, ErrorModel>,
)
    requires
        session.evaluates(flip, a, outcome_a),
        session.evaluates(flip, b, outcome_b),
        crate::backend::alike(a, b),
    ensures
        a == b,
        outcome_a == outcome_b,
{
    let rest_a = a.skip(1);
    let rest_b = b.skip(1);
    assert(a =~= seq![a[0]] + rest_a);
    assert(b =~= seq![b[0]] + rest_b);
    lemma_flip_determined(flip, a[0], rest_a, b[0], rest_b);
    if crate::restore::flip_reply(a[0]) is Err {
        assert(rest_a =~= rest_b);
    } else {
        let gaps_a = readings(rest_a, outcome_a);
        let gaps_b = readings(rest_b, outcome_b);
        let back_a = rest_a.skip(gaps_a.len() as int);
        let back_b = rest_b.skip(gaps_b.len() as int);
        assert(rest_a =~= gaps_a + back_a);
        assert(rest_b =~= gaps_b + back_b);
        crate::backend::lemma_alike_parts(gaps_a, back_a, gaps_b, back_b);
        lemma_trial_determined(session.trial(), gaps_a, gaps_b);
        if session.trial().outcome(gaps_a) is Ok {
            assert(back_a =~= back_b);
        } else {
            assert(back_a =~= seq![rest_a.last()] + Seq::<BackendCall>::empty());
            assert(back_b =~= seq![rest_b.last()] + Seq::<BackendCall>::empty());
            lemma_flip_determined(flip, rest_a.last(), seq![], rest_b.last(), seq![]);
        }
    }
}

/// The answers determine how a candidate is settled.
proof fn lemma_settling_determined(
    session: SessionModel,
    evaluation: Result<CandidateEvaluation, ErrorModel>,
    a: Seq<BackendCall>,
    after_a: SessionModel,
    outcome_a: Result<EventModel, ErrorModel>,
    b: Seq<BackendCall>,
    after_b: SessionModel,
    outcome_b: Result<EventModel, ErrorModel>,
)
    requires
        session.settles(evaluation, a, after_a, outcome_a),
        session.settles(evaluation, b, after_b, outcome_b),
        crate::backend::alike(a, b),
    ensures
        a == b,
        after_a == after_b,
        outcome_a == outcome_b,
{
    if evaluation is Ok && session.accepts(evaluation->Ok_0) {
        assert(a =~= b);
    } else {
        assert(a =~= seq![a[0]] + Seq::<BackendCall>::empty());
        assert(b =~= seq![b[0]] + Seq::<BackendCall>::empty());
        lemma_flip_determined(session.pending->Some_0, a[0], seq![], b[0], seq![]);
    }
}

proof fn lemma_scales_no_longer(
    first: Sight,
    coordinates: Seq<(usize, Projection)>,
    a: Seq<BackendCall>,
    b: Seq<BackendCall>,
)
    requires
        crate::search::pool::scale_requests(first, coordinates, a),
        crate::search::pool::scale_requests(first, coordinates, b),
        crate::backend::alike(a, b),
        a.len() <= b.len(),
    ensures
        a == b,
{
    assert forall|i: int| 0 <= i < a.len() implies #[trigger] crate::backend::same_request(
        a[i],
        b[i],
    ) by {
        assert(crate::search::pool::asks_scales(coordinates[i], a[i]));
        assert(crate::search::pool::asks_scales(coordinates[i], b[i]));
    }
    crate::backend::lemma_alike_answers(a, b, a.len());
    let count = a.len() as int;
    assert(a.take(count) =~= a);
    if a.len() < b.len() {
        assert(crate::search::pool::scale_stop(first, coordinates, b.take(count)) is None);
    }
    assert(b.take(count) =~= b);
}

/// The answers determine how the scales are asked for.
pub proof fn lemma_scales_determined(
    first: Sight,
    coordinates: Seq<(usize, Projection)>,
    a: Seq<BackendCall>,
    b: Seq<BackendCall>,
)
    requires
        crate::search::pool::scale_requests(first, coordinates, a),
        crate::search::pool::scale_requests(first, coordinates, b),
        crate::backend::alike(a, b),
    ensures
        a == b,
{
    if a.len() <= b.len() {
        lemma_scales_no_longer(first, coordinates, a, b);
    } else {
        lemma_alike_swapped(a, b);
        lemma_scales_no_longer(first, coordinates, b, a);
    }
}

/// The rows are flipped one after the other, up to the first flip that fails.
spec fn flip_requests(flips: Seq<PatchFlip>, calls: Seq<BackendCall>) -> bool {
    &&& calls.len() <= flips.len()
    &&& forall|i: int|
        0 <= i < calls.len() ==> crate::restore::asks_flip(flips[i], #[trigger] calls[i])
    &&& forall|i: int|
        0 <= i < calls.len() - 1 ==> crate::restore::flip_reply(#[trigger] calls[i]) is Ok
    &&& calls.len() < flips.len() ==> calls.len() > 0 && crate::restore::flip_reply(
        calls.last(),
    ) is Err
}

proof fn lemma_flips_no_longer(
    flips: Seq<PatchFlip>,
    a: Seq<BackendCall>,
    b: Seq<BackendCall>,
)
    requires
        flip_requests(flips, a),
        flip_requests(flips, b),
        crate::backend::alike(a, b),
        a.len() <= b.len(),
    ensures
        a == b,
{
    assert forall|i: int| 0 <= i < a.len() implies #[trigger] crate::backend::same_request(
        a[i],
        b[i],
    ) by {
        assert(crate::restore::asks_flip(flips[i], a[i]));
        assert(crate::restore::asks_flip(flips[i], b[i]));
    }
    crate::backend::lemma_alike_answers(a, b, a.len());
    let count = a.len() as int;
    assert(a.take(count) =~= a);
    if a.len() < b.len() {
        assert(a.last() == b.take(count)[count - 1]);
        assert(a.last() == b[count - 1]);
        assert(crate::restore::flip_reply(b[count - 1]) is Ok);
    }
    assert(b.take(count) =~= b);
}

proof fn lemma_flips_determined(flips: Seq<PatchFlip>, a: Seq<BackendCall>, b: Seq<BackendCall>)
    requires
        flip_requests(flips, a),
        flip_requests(flips, b),
        crate::backend::alike(a, b),
    ensures
        a == b,
{
    if a.len() <= b.len() {
        lemma_flips_no_longer(flips, a, b);
    } else {
        lemma_alike_swapped(a, b);
        lemma_flips_no_longer(flips, b, a);
    }
}

/// The last of the flips failed.
spec fn fails(calls: Seq<BackendCall>) -> bool {
    calls.len() > 0 && crate::restore::flip_reply(calls.last()) is Err
}

/// What is wrong after flipping rows forth, and back where a flip failed.
spec fn there_and_back(
    operation: Seq<char>,
    there: Seq<BackendCall>,
    back: Seq<BackendCall>,
) -> Option<ErrorModel> {
    if !fails(there) {
        None
    } else if !fails(back) {
        Some(crate::restore::flip_reply(there.last())->Err_0)
    } else {
        Some(
            ErrorModel::RestorationFailed {
                operation,
                source: Box::new(crate::restore::flip_reply(back.last())->Err_0),
            },
        )
    }
}

/// Flipping several rows has two parts: there and, where a flip failed, back.
proof fn lemma_applying_parts(
    flips: Seq<PatchFlip>,
    operation: Seq<char>,
    calls: Seq<BackendCall>,
    outcome: Result<(), ErrorModel>,
) -> (there: Seq<BackendCall>)
    requires
        crate::restore::applies(flips, operation, calls, outcome),
    ensures
        there.len() <= calls.len(),
        ({
            let back = calls.skip(there.len() as int);
            &&& calls == there + back
            &&& flip_requests(flips, there)
            &&& if fails(there) {
                flip_requests(flips.take(there.len() - 1).reverse(), back)
            } else {
                back.len() == 0
            }
            &&& match outcome {
                Ok(()) => there_and_back(operation, there, back) is None,
                Err(error) => there_and_back(operation, there, back) == Some(error),
            }
        }),
{
    match outcome {
        Ok(()) => {
            assert(calls =~= calls + calls.skip(calls.len() as int));
            if calls.len() > 0 {
                assert(crate::restore::flip_reply(calls[calls.len() - 1]) is Ok);
            }
            assert(flip_requests(flips, calls));
            assert(!fails(calls));
            calls
        },
        Err(error) => {
            let done = if exists|done: int| #[trigger]
                crate::restore::rolls_back(flips, calls, done, error) {
                choose|done: int| #[trigger] crate::restore::rolls_back(flips, calls, done, error)
            } else {
                let (done, first, source) = choose|
                    done: int,
                    first: ErrorModel,
                    source: ErrorModel,
                | #[trigger]
                    crate::restore::gets_stuck(flips, calls, done, first, source) && error
                        == (ErrorModel::RestorationFailed { operation, source: Box::new(source) });
                done
            };
            let there = calls.take(done + 1);
            let back = calls.skip(done + 1);
            assert(calls =~= there + back);
            lemma_until(flips, there);
            let rows = flips.take(done).reverse();
            assert(flips.take(there.len() - 1) =~= flips.take(done));
            if crate::restore::rolls_back(flips, calls, done, error) {
                if back.len() > 0 {
                    assert(crate::restore::flip_reply(back[back.len() - 1]) is Ok);
                }
                assert(flip_requests(rows, back));
                assert(!fails(back));
            } else {
                lemma_until(rows, back);
            }
            assert(calls.skip(there.len() as int) == back);
            there
        },
    }
}

proof fn lemma_until(flips: Seq<PatchFlip>, calls: Seq<BackendCall>)
    requires
        exists|error: ErrorModel| #[trigger] crate::restore::flips_until(flips, calls, error),
    ensures
        flip_requests(flips, calls),
        fails(calls),
{
    let less = calls.drop_last();
    assert forall|i: int| 0 <= i < calls.len() implies crate::restore::asks_flip(
        flips[i],
        #[trigger] calls[i],
    ) && (i < calls.len() - 1 ==> crate::restore::flip_reply(calls[i]) is Ok) by {
        if i < calls.len() - 1 {
            assert(less[i] == calls[i]);
            assert(flips.take(calls.len() - 1)[i] == flips[i]);
        }
    }
}

/// The answers determine how several rows are flipped.
proof fn lemma_applying_determined(
    flips: Seq<PatchFlip>,
    operation: Seq<char>,
    a: Seq<BackendCall>,
    outcome_a: Result<(), ErrorModel>,
    b: Seq<BackendCall>,
    outcome_b: Result<(), ErrorModel>,
)
    requires
        crate::restore::applies(flips, operation, a, outcome_a),
        crate::restore::applies(flips, operation, b, outcome_b),
        crate::backend::alike(a, b),
    ensures
        a == b,
        match outcome_a {
            Ok(()) => outcome_b is Ok,
            Err(error) => outcome_b == Err::<(), ErrorModel>(error),
        },
{
    let there_a = lemma_applying_parts(flips, operation, a, outcome_a);
    let there_b = lemma_applying_parts(flips, operation, b, outcome_b);
    let back_a = a.skip(there_a.len() as int);
    let back_b = b.skip(there_b.len() as int);
    crate::backend::lemma_alike_parts(there_a, back_a, there_b, back_b);
    lemma_flips_determined(flips, there_a, there_b);
    if fails(there_a) {
        lemma_flips_determined(flips.take(there_a.len() - 1).reverse(), back_a, back_b);
    } else {
        assert(back_a =~= back_b);
    }
}

proof fn lemma_taking_up_determined(
    setup: Setup,
    sight: Sight,
    pool: Seq<Candidate>,
    target: Seq<MeasurementModel>,
    control: Seq<MeasurementModel>,
    a: Seq<BackendCall>,
    outcome_a: Result<SessionModel, ErrorModel>,
    b: Seq<BackendCall>,
    outcome_b: Result<SessionModel, ErrorModel>,
)
    requires
        setup.takes_up(sight, pool, target, control, a, outcome_a),
        setup.takes_up(sight, pool, target, control, b, outcome_b),
        crate::backend::alike(a, b),
    ensures
        a == b,
        outcome_a == outcome_b,
{
    reveal(Setup::takes_up);
    match setup.resume {
        None => {
            assert(a =~= b);
        },
        Some(checkpoint) => {
            if checkpoint.fault(setup.config, sight.map.signature, target, control) is Some {
                assert(a =~= b);
            } else {
                let applied_a = match outcome_a {
                    Ok(_) => Ok(()),
                    Err(error) => Err(error),
                };
                let applied_b = match outcome_b {
                    Ok(_) => Ok(()),
                    Err(error) => Err(error),
                };
                lemma_applying_determined(
                    checkpoint.accepted,
                    "checkpoint restoration"@,
                    a,
                    applied_a,
                    b,
                    applied_b,
                );
            }
        },
    }
    if outcome_a is Ok && outcome_b is Ok {
        let first = outcome_a->Ok_0;
        let second = outcome_b->Ok_0;
        crate::search::screen::law_screen_is_determined(
            first.target_baseline,
            first.config.screen_probe_count as nat,
            first.screen,
            second.screen,
        );
    }
}

proof fn lemma_measuring_determined(
    setup: Setup,
    sight: Sight,
    pool: Seq<Candidate>,
    a: Seq<BackendCall>,
    outcome_a: Result<SessionModel, ErrorModel>,
    b: Seq<BackendCall>,
    outcome_b: Result<SessionModel, ErrorModel>,
)
    requires
        setup.measures(sight, pool, a, outcome_a),
        setup.measures(sight, pool, b, outcome_b),
        crate::backend::alike(a, b),
    ensures
        a == b,
        outcome_a == outcome_b,
{
    reveal(Setup::measures);
    let count = setup.targets.len() + setup.controls.len();
    let gaps_a = crate::backend::head(a, count);
    let gaps_b = crate::backend::head(b, count);
    let rest_a = crate::backend::tail(a, count);
    let rest_b = crate::backend::tail(b, count);
    lemma_split(a, count);
    lemma_split(b, count);
    crate::backend::lemma_alike_parts(gaps_a, rest_a, gaps_b, rest_b);
    lemma_both_determined(setup.targets, setup.controls, gaps_a, gaps_b);
    match crate::search::state::both_outcome(setup.targets, setup.controls, gaps_a) {
        Err(_) => {
            assert(rest_a =~= rest_b);
        },
        Ok((target, control)) => {
            lemma_taking_up_determined(
                setup,
                crate::backend::seen(sight, gaps_a),
                pool,
                target,
                control,
                rest_a,
                outcome_a,
                rest_b,
                outcome_b,
            );
        },
    }
}

/// The answers determine how a search begins.
proof fn lemma_beginning_determined(
    setup: Setup,
    a: Seq<BackendCall>,
    outcome_a: Result<SessionModel, ErrorModel>,
    b: Seq<BackendCall>,
    outcome_b: Result<SessionModel, ErrorModel>,
)
    requires
        setup.begins(a, outcome_a),
        setup.begins(b, outcome_b),
        crate::backend::alike(a, b),
    ensures
        a == b,
        outcome_a == outcome_b,
{
    reveal(Setup::begins);
    let coordinates = setup.config.coordinates();
    let count = coordinates.len();
    let scales_a = crate::backend::head(a, count);
    let scales_b = crate::backend::head(b, count);
    let rest_a = crate::backend::tail(a, count);
    let rest_b = crate::backend::tail(b, count);
    lemma_split(a, count);
    lemma_split(b, count);
    crate::backend::lemma_alike_parts(scales_a, rest_a, scales_b, rest_b);
    if setup.config.fault(setup.sight.map, setup.targets.len(), setup.controls.len()) is Some {
        assert(a =~= b);
    } else {
        lemma_scales_determined(setup.sight, coordinates, scales_a, scales_b);
        match crate::search::pool::pool_outcome(setup.sight, coordinates, scales_a) {
            Err(_) => {
                assert(rest_a =~= rest_b);
            },
            Ok(pool) => {
                lemma_measuring_determined(
                    setup,
                    crate::backend::seen(setup.sight, scales_a),
                    pool,
                    rest_a,
                    outcome_a,
                    rest_b,
                    outcome_b,
                );
            },
        }
    }
}

/// What comes of one turn of a search that wants more.
pub enum Turn {
    Went { iteration: Iteration },
    /// There was no row left to draw.
    Ended,
    Failed { error: ErrorModel },
}

/// `turn` is what comes of the next turn.
pub open spec fn turns(
    last: SessionModel,
    calls: Seq<BackendCall>,
    asked: Seq<HostCall>,
    turn: Turn,
) -> bool {
    match turn {
        Turn::Went { iteration } => {
            &&& iteration.follows(last)
            &&& iteration.saved is Ok
            &&& calls == iteration.measured + iteration.settled
            &&& asked == iteration.record(last)
        },
        Turn::Ended => {
            &&& last.available().len() == 0
            &&& calls.len() == 0
            &&& asked == seq![HostCall::Cancelled { reply: false }]
        },
        Turn::Failed { error } => crate::search::run::advance_fails(last, calls, asked, error),
    }
}

/// A turn in which a row was drawn, in its parts.
struct Play {
    reply: Option<usize>,
    measured: Seq<BackendCall>,
    reading: Result<ReadingModel, ErrorModel>,
    fitness: Result<Binary32, ErrorModel>,
    settled: Seq<BackendCall>,
    after: SessionModel,
    event: Result<EventModel, ErrorModel>,
    saved: Result<bool, ErrorModel>,
}

impl Play {
    spec fn trying(self, last: SessionModel) -> SessionModel {
        last.taken(crate::search::run::pick_of(last, self.reply))
    }

    /// What the host was asked once the candidate was measured.
    spec fn judged(self, last: SessionModel) -> Seq<HostCall> {
        match self.reading {
            Err(_) => seq![],
            Ok(reading) => crate::search::run::judging(self.trying(last), reading, self.fitness),
        }
    }

    /// What the host was told and asked once the candidate was settled.
    spec fn reported(self) -> Seq<HostCall> {
        if self.reading is Err || self.event is Err {
            seq![]
        } else {
            let save = HostCall::Save { checkpoint: self.after.checkpoint(), reply: self.saved };
            let told = seq![HostCall::Event { event: self.event->Ok_0 }, save];
            if self.saved == Ok::<bool, ErrorModel>(true) {
                told.push(
                    HostCall::Event {
                        event: EventModel::Checkpoint {
                            iteration: self.after.completed_iterations,
                        },
                    },
                )
            } else {
                told
            }
        }
    }

    spec fn turn(self) -> Turn {
        if self.reading is Err {
            Turn::Failed { error: self.reading->Err_0 }
        } else if self.event is Err {
            Turn::Failed { error: self.event->Err_0 }
        } else if self.saved is Err {
            Turn::Failed { error: self.saved->Err_0 }
        } else {
            Turn::Went {
                iteration: Iteration {
                    reply: self.reply,
                    measured: self.measured,
                    reading: self.reading->Ok_0,
                    fitness: self.fitness->Ok_0,
                    settled: self.settled,
                    saved: self.saved,
                },
            }
        }
    }

    spec fn plays(
        self,
        last: SessionModel,
        calls: Seq<BackendCall>,
        asked: Seq<HostCall>,
    ) -> bool {
        &&& calls == self.measured + self.settled
        &&& asked == seq![HostCall::Cancelled { reply: false }] + (crate::search::run::drawing(
            last,
            self.reply,
        ) + (self.judged(last) + self.reported()))
        &&& self.trying(last).evaluates(
            last.drawn(crate::search::run::pick_of(last, self.reply)),
            self.measured,
            self.reading,
        )
        &&& match self.reading {
            Err(_) => self.settled.len() == 0,
            Ok(reading) => {
                &&& !(reading is Measured) ==> self.fitness == Ok::<Binary32, ErrorModel>(
                    Binary32 { bits: 0 },
                )
                &&& self.trying(last).settles(
                    crate::search::state::worth(reading, self.fitness),
                    self.settled,
                    self.after,
                    self.event,
                )
            },
        }
    }
}

/// A completed iteration in its parts.
proof fn lemma_iteration_plays(last: SessionModel, iteration: Iteration) -> (play: Play)
    requires
        iteration.follows(last),
    ensures
        play.plays(last, iteration.measured + iteration.settled, iteration.record(last)),
        match iteration.saved {
            Ok(_) => play.turn() == (Turn::Went { iteration }),
            Err(error) => play.turn() == (Turn::Failed { error }),
        },
{
    reveal(Iteration::follows);
    let trying = iteration.trying(last);
    let play = Play {
        reply: iteration.reply,
        measured: iteration.measured,
        reading: Ok(iteration.reading),
        fitness: Ok(iteration.fitness),
        settled: iteration.settled,
        after: iteration.after(last),
        event: Ok(trying.verdict(iteration.evaluation())),
        saved: iteration.saved,
    };
    assert(crate::search::state::worth(iteration.reading, Ok(iteration.fitness)) == Ok::<
        CandidateEvaluation,
        ErrorModel,
    >(iteration.evaluation()));
    assert(iteration.record(last) =~= seq![HostCall::Cancelled { reply: false }] + (
    crate::search::run::drawing(last, play.reply) + (play.judged(last) + play.reported())));
    play
}

/// A turn in which a row was drawn, in its parts.
#[verifier::spinoff_prover]
proof fn lemma_turn_plays(
    last: SessionModel,
    calls: Seq<BackendCall>,
    asked: Seq<HostCall>,
    turn: Turn,
) -> (play: Play)
    requires
        turns(last, calls, asked, turn),
        !(turn is Ended),
        asked[0] == (HostCall::Cancelled { reply: false }),
    ensures
        play.plays(last, calls, asked),
        play.turn() == turn,
{
    match turn {
        Turn::Went { iteration } => lemma_iteration_plays(last, iteration),
        Turn::Ended => arbitrary(),
        Turn::Failed { error } => {
            reveal(crate::search::run::advance_fails);
            if exists|iteration: Iteration| #[trigger]
                crate::search::run::goes_unsaved(last, calls, asked, iteration, error) {
                let iteration = choose|iteration: Iteration| #[trigger]
                    crate::search::run::goes_unsaved(last, calls, asked, iteration, error);
                lemma_iteration_plays(last, iteration)
            } else if exists|reply: Option<usize>| #[trigger]
                crate::search::run::fails_to_measure(last, reply, calls, asked, error) {
                let reply = choose|reply: Option<usize>| #[trigger]
                    crate::search::run::fails_to_measure(last, reply, calls, asked, error);
                let play = Play {
                    reply,
                    measured: calls,
                    reading: Err(error),
                    fitness: Err(error),
                    settled: seq![],
                    after: last,
                    event: Err(error),
                    saved: Err(error),
                };
                assert(calls =~= play.measured + play.settled);
                assert(asked =~= seq![HostCall::Cancelled { reply: false }] + (
                crate::search::run::drawing(last, play.reply) + (play.judged(last)
                    + play.reported())));
                play
            } else {
                assert(!exists|reply: Result<bool, ErrorModel>| #[trigger]
                    crate::search::run::cancels(last, calls, asked, reply, error));
                let (reply, measured, reading, fitness, settled) = choose|
                    reply: Option<usize>,
                    measured: Seq<BackendCall>,
                    reading: ReadingModel,
                    fitness: Result<Binary32, ErrorModel>,
                    settled: Seq<BackendCall>,
                |
                    calls == measured + settled && #[trigger] crate::search::run::fails_to_settle(
                        last,
                        reply,
                        measured,
                        reading,
                        fitness,
                        settled,
                        asked,
                        error,
                    );
                let play = Play {
                    reply,
                    measured,
                    reading: Ok(reading),
                    fitness: if reading is Measured {
                        fitness
                    } else {
                        Ok(Binary32 { bits: 0 })
                    },
                    settled,
                    after: last.taken(crate::search::run::pick_of(last, reply)),
                    event: Err(error),
                    saved: Err(error),
                };
                assert(crate::search::state::worth(reading, fitness) == crate::search::state::worth(
                    reading,
                    play.fitness,
                ));
                assert(asked =~= seq![HostCall::Cancelled { reply: false }] + (
                crate::search::run::drawing(last, play.reply) + (play.judged(last)
                    + play.reported())));
                play
            }
        },
    }
}

/// The answers determine a turn in which a row is drawn.
#[verifier::spinoff_prover]
proof fn lemma_plays_determined(
    last: SessionModel,
    p: Play,
    a: Seq<BackendCall>,
    asked_a: Seq<HostCall>,
    q: Play,
    b: Seq<BackendCall>,
    asked_b: Seq<HostCall>,
)
    requires
        p.plays(last, a, asked_a),
        q.plays(last, b, asked_b),
        crate::backend::alike(a, b),
        crate::search::host::replies_alike(asked_a, asked_b),
    ensures
        a == b,
        asked_a == asked_b,
        p.turn() == q.turn(),
{
    let first = HostCall::Cancelled { reply: false };
    let drawn_a = crate::search::run::drawing(last, p.reply);
    let drawn_b = crate::search::run::drawing(last, q.reply);
    let rest_a = p.judged(last) + p.reported();
    let rest_b = q.judged(last) + q.reported();
    crate::search::host::lemma_first_reply(first, drawn_a + rest_a, first, drawn_b + rest_b);
    assert(drawn_a + rest_a =~= seq![drawn_a[0]] + (seq![drawn_a[1]] + rest_a));
    assert(drawn_b + rest_b =~= seq![drawn_b[0]] + (seq![drawn_b[1]] + rest_b));
    crate::search::host::lemma_first_reply(
        drawn_a[0],
        seq![drawn_a[1]] + rest_a,
        drawn_b[0],
        seq![drawn_b[1]] + rest_b,
    );
    assert(p.reply == q.reply);
    crate::search::host::lemma_first_reply(drawn_a[1], rest_a, drawn_b[1], rest_b);
    crate::backend::lemma_alike_parts(p.measured, p.settled, q.measured, q.settled);
    lemma_evaluating_determined(
        p.trying(last),
        last.drawn(crate::search::run::pick_of(last, p.reply)),
        p.measured,
        p.reading,
        q.measured,
        q.reading,
    );
    if p.reading is Err {
        assert(p.settled =~= q.settled);
        assert(rest_a =~= rest_b);
    } else {
        if p.reading->Ok_0 is Measured {
            crate::search::host::lemma_first_reply(
                p.judged(last)[0],
                p.reported(),
                q.judged(last)[0],
                q.reported(),
            );
            assert(p.fitness == q.fitness);
        } else {
            assert(rest_a =~= p.reported());
            assert(rest_b =~= q.reported());
        }
        lemma_settling_determined(
            p.trying(last),
            crate::search::state::worth(p.reading->Ok_0, p.fitness),
            p.settled,
            p.after,
            p.event,
            q.settled,
            q.after,
            q.event,
        );
        if p.event is Ok {
            let told_a = p.reported();
            let told_b = q.reported();
            assert(told_a =~= seq![told_a[0]] + (seq![told_a[1]] + told_a.skip(2)));
            assert(told_b =~= seq![told_b[0]] + (seq![told_b[1]] + told_b.skip(2)));
            crate::search::host::lemma_first_reply(
                told_a[0],
                seq![told_a[1]] + told_a.skip(2),
                told_b[0],
                seq![told_b[1]] + told_b.skip(2),
            );
            crate::search::host::lemma_first_reply(
                told_a[1],
                told_a.skip(2),
                told_b[1],
                told_b.skip(2),
            );
            assert(p.saved == q.saved);
        }
    }
}

/// The answers determine each turn.
proof fn lemma_turn_determined(
    last: SessionModel,
    a: Seq<BackendCall>,
    asked_a: Seq<HostCall>,
    turn_a: Turn,
    b: Seq<BackendCall>,
    asked_b: Seq<HostCall>,
    turn_b: Turn,
)
    requires
        turns(last, a, asked_a, turn_a),
        turns(last, b, asked_b, turn_b),
        crate::backend::alike(a, b),
        crate::search::host::replies_alike(asked_a, asked_b),
    ensures
        a == b,
        asked_a == asked_b,
        turn_a == turn_b,
{
    lemma_turn_begins(last, a, asked_a, turn_a);
    lemma_turn_begins(last, b, asked_b, turn_b);
    assert(asked_a =~= seq![asked_a[0]] + asked_a.skip(1));
    assert(asked_b =~= seq![asked_b[0]] + asked_b.skip(1));
    crate::search::host::lemma_first_reply(
        asked_a[0],
        asked_a.skip(1),
        asked_b[0],
        asked_b.skip(1),
    );
    if asked_a[0]->Cancelled_reply {
        let save_a = asked_a[1];
        let save_b = asked_b[1];
        assert(asked_a.skip(1) =~= seq![save_a] + Seq::<HostCall>::empty());
        assert(asked_b.skip(1) =~= seq![save_b] + Seq::<HostCall>::empty());
        crate::search::host::lemma_first_reply(save_a, seq![], save_b, seq![]);
        assert(a =~= b);
    } else if last.available().len() == 0 {
        assert(a =~= b);
    } else {
        let p = lemma_turn_plays(last, a, asked_a, turn_a);
        let q = lemma_turn_plays(last, b, asked_b, turn_b);
        lemma_plays_determined(last, p, a, asked_a, q, b, asked_b);
    }
}

/// A turn begins with the question whether to stop. Where the host asks to stop, it is
/// given the checkpoint and the search ends; where no row is left, the turn ends.
pub proof fn lemma_turn_begins(
    last: SessionModel,
    calls: Seq<BackendCall>,
    asked: Seq<HostCall>,
    turn: Turn,
)
    requires
        turns(last, calls, asked, turn),
    ensures
        asked.len() > 0,
        asked[0] is Cancelled,
        asked[0]->Cancelled_reply ==> {
            &&& calls.len() == 0
            &&& asked.len() == 2
            &&& asked[1] is Save
            &&& asked[1]->checkpoint == last.checkpoint()
            &&& turn == (Turn::Failed {
                error: match asked[1]->Save_reply {
                    Ok(_) => ErrorModel::SearchCancelled,
                    Err(failure) => failure,
                },
            })
        },
        !asked[0]->Cancelled_reply ==> (turn is Ended <==> last.available().len() == 0),
{
    reveal(crate::search::run::advance_fails);
    reveal(Iteration::follows);
}

/// Iterations, the first of them apart.
pub proof fn lemma_first_iteration(begun: SessionModel, iterations: Seq<Iteration>)
    requires
        crate::search::run::iterations_follow(begun, iterations),
        iterations.len() > 0,
    ensures
        ({
            let first = iterations[0];
            let next = first.after(begun);
            let rest = iterations.drop_first();
            &&& first.follows(begun)
            &&& crate::search::run::iterations_follow(next, rest)
            &&& crate::search::run::after_iterations(begun, iterations)
                == crate::search::run::after_iterations(next, rest)
            &&& crate::search::run::iteration_calls(iterations) == (first.measured
                + first.settled) + crate::search::run::iteration_calls(rest)
            &&& crate::search::run::iteration_records(begun, iterations) == first.record(begun)
                + crate::search::run::iteration_records(next, rest)
        }),
    decreases iterations.len(),
{
    let first = iterations[0];
    let next = first.after(begun);
    let less = iterations.drop_last();
    let last = iterations.last();
    let rest = iterations.drop_first();
    let none = Seq::<Iteration>::empty();
    reveal_with_fuel(crate::search::run::iterations_follow, 2);
    reveal_with_fuel(crate::search::run::after_iterations, 2);
    reveal_with_fuel(crate::search::run::iteration_calls, 2);
    reveal_with_fuel(crate::search::run::iteration_records, 2);
    if iterations.len() == 1 {
        assert(less =~= none);
        assert(rest =~= none);
        assert(crate::search::run::iteration_calls(iterations) =~= (first.measured
            + first.settled) + crate::search::run::iteration_calls(rest));
        assert(crate::search::run::iteration_records(begun, iterations) =~= first.record(begun)
            + crate::search::run::iteration_records(next, rest));
    } else {
        lemma_first_iteration(begun, less);
        assert(less[0] == first);
        assert(rest.drop_last() =~= less.drop_first());
        assert(rest.last() == last);
        assert(crate::search::run::iteration_calls(iterations) =~= (first.measured
            + first.settled) + crate::search::run::iteration_calls(rest));
        assert(crate::search::run::iteration_records(begun, iterations) =~= first.record(begun)
            + crate::search::run::iteration_records(next, rest));
    }
}

/// The answers determine how a search is concluded.
proof fn lemma_conclusion_determined(
    last: SessionModel,
    sight: Sight,
    a: Seq<BackendCall>,
    asked_a: Seq<HostCall>,
    outcome_a: Result<ResultModel, ErrorModel>,
    b: Seq<BackendCall>,
    asked_b: Seq<HostCall>,
    outcome_b: Result<ResultModel, ErrorModel>,
)
    requires
        crate::search::run::concluding(last, a, asked_a, crate::backend::seen(sight, a).map, outcome_a),
        crate::search::run::concluding(last, b, asked_b, crate::backend::seen(sight, b).map, outcome_b),
        crate::backend::alike(a, b),
        crate::search::host::replies_alike(asked_a, asked_b),
    ensures
        a == b,
        asked_a == asked_b,
        outcome_a == outcome_b,
{
    reveal(crate::search::run::concluding);
    lemma_both_determined(last.targets, last.controls, a, b);
    match crate::search::state::both_outcome(last.targets, last.controls, a) {
        Err(_) => {
            assert(asked_a =~= asked_b);
        },
        Ok((target, control)) => {
            assert(asked_a =~= seq![asked_a[0]] + asked_a.skip(1));
            assert(asked_b =~= seq![asked_b[0]] + asked_b.skip(1));
            crate::search::host::lemma_first_reply(
                asked_a[0],
                asked_a.skip(1),
                asked_b[0],
                asked_b.skip(1),
            );
            assert(asked_a =~= asked_b);
        },
    }
}

/// The answers determine how a search ends once its last full iteration is over.
proof fn lemma_closing_determined(
    last: SessionModel,
    sight: Sight,
    a: Seq<BackendCall>,
    asked_a: Seq<HostCall>,
    outcome_a: Result<ResultModel, ErrorModel>,
    b: Seq<BackendCall>,
    asked_b: Seq<HostCall>,
    outcome_b: Result<ResultModel, ErrorModel>,
)
    requires
        crate::search::run::closes(
            last,
            a,
            asked_a,
            crate::backend::seen(sight, a).map,
            outcome_a,
        ),
        crate::search::run::closes(
            last,
            b,
            asked_b,
            crate::backend::seen(sight, b).map,
            outcome_b,
        ),
        crate::backend::alike(a, b),
        crate::search::host::replies_alike(asked_a, asked_b),
    ensures
        a == b,
        asked_a == asked_b,
        outcome_a == outcome_b,
{
    reveal(crate::search::run::closes);
    if !last.wants_more() {
        assert(asked_a.skip(0) =~= asked_a);
        assert(asked_b.skip(0) =~= asked_b);
        lemma_conclusion_determined(last, sight, a, asked_a, outcome_a, b, asked_b, outcome_b);
    } else {
        lemma_asked_to_stop(last, a, asked_a, crate::backend::seen(sight, a).map, outcome_a);
        lemma_asked_to_stop(last, b, asked_b, crate::backend::seen(sight, b).map, outcome_b);
        let rest_a = asked_a.skip(1);
        let rest_b = asked_b.skip(1);
        assert(asked_a =~= seq![asked_a[0]] + rest_a);
        assert(asked_b =~= seq![asked_b[0]] + rest_b);
        crate::search::host::lemma_first_reply(asked_a[0], rest_a, asked_b[0], rest_b);
        if asked_a[0]->Cancelled_reply || last.available().len() > 0 {
            lemma_turn_determined(
                last,
                a,
                asked_a,
                Turn::Failed { error: outcome_a->Err_0 },
                b,
                asked_b,
                Turn::Failed { error: outcome_b->Err_0 },
            );
        } else {
            lemma_conclusion_determined(last, sight, a, rest_a, outcome_a, b, rest_b, outcome_b);
        }
    }
}

/// Where iterations are left, the host is first asked whether to stop. The search
/// ends in the turn where it is to, or where there is a row to draw.
pub proof fn lemma_asked_to_stop(
    last: SessionModel,
    calls: Seq<BackendCall>,
    asked: Seq<HostCall>,
    map: ArchitectureModel,
    outcome: Result<ResultModel, ErrorModel>,
)
    requires
        last.wants_more(),
        crate::search::run::closes(last, calls, asked, map, outcome),
    ensures
        asked.len() > 0,
        asked[0] is Cancelled,
        if asked[0]->Cancelled_reply || last.available().len() > 0 {
            outcome matches Err(error) && turns(last, calls, asked, Turn::Failed { error })
        } else {
            crate::search::run::concluding(last, calls, asked.skip(1), map, outcome)
        },
{
    reveal(crate::search::run::closes);
    let question = crate::search::run::last_question(last);
    if outcome is Err && crate::search::run::advance_fails(
        last,
        calls,
        asked,
        outcome->Err_0,
    ) {
        lemma_turn_begins(last, calls, asked, Turn::Failed { error: outcome->Err_0 });
    } else {
        assert(asked[0] == question[0]);
    }
}

/// The answers determine the rest of a search that has begun.
proof fn lemma_rest_determined(
    begun: SessionModel,
    sight: Sight,
    run_a: Run,
    outcome_a: Result<ResultModel, ErrorModel>,
    run_b: Run,
    outcome_b: Result<ResultModel, ErrorModel>,
)
    requires
        rest_of(begun, sight, run_a, outcome_a),
        rest_of(begun, sight, run_b, outcome_b),
        crate::backend::alike(calls_of(run_a), calls_of(run_b)),
        crate::search::host::replies_alike(record_of(begun, run_a), record_of(begun, run_b)),
    ensures
        run_a.iterations == run_b.iterations,
        run_a.ending == run_b.ending,
        run_a.closing == run_b.closing,
        outcome_a == outcome_b,
    decreases run_a.iterations.len(),
{
    let ia = run_a.iterations;
    let ib = run_b.iterations;
    if ia.len() == 0 && ib.len() == 0 {
        assert(calls_of(run_a) =~= run_a.ending);
        assert(calls_of(run_b) =~= run_b.ending);
        assert(record_of(begun, run_a) =~= run_a.closing);
        assert(record_of(begun, run_b) =~= run_b.closing);
        lemma_closing_determined(
            begun,
            sight,
            run_a.ending,
            run_a.closing,
            outcome_a,
            run_b.ending,
            run_b.closing,
            outcome_b,
        );
        assert(ia =~= ib);
    } else if ia.len() == 0 {
        lemma_no_end_before(begun, sight, run_a, outcome_a, run_b, outcome_b);
    } else if ib.len() == 0 {
        lemma_alike_swapped(calls_of(run_a), calls_of(run_b));
        lemma_replies_swapped(record_of(begun, run_a), record_of(begun, run_b));
        lemma_no_end_before(begun, sight, run_b, outcome_b, run_a, outcome_a);
    } else {
        let rest_a = lemma_rest_shorter(begun, sight, run_a, outcome_a);
        let rest_b = lemma_rest_shorter(begun, sight, run_b, outcome_b);
        let xa = ia[0].measured + ia[0].settled;
        let xb = ib[0].measured + ib[0].settled;
        let next = ia[0].after(begun);
        crate::backend::lemma_alike_parts(xa, calls_of(rest_a), xb, calls_of(rest_b));
        crate::search::host::lemma_replies_parts(
            ia[0].record(begun),
            record_of(ia[0].after(begun), rest_a),
            ib[0].record(begun),
            record_of(ib[0].after(begun), rest_b),
        );
        lemma_turn_determined(
            begun,
            xa,
            ia[0].record(begun),
            Turn::Went { iteration: ia[0] },
            xb,
            ib[0].record(begun),
            Turn::Went { iteration: ib[0] },
        );
        let now = crate::backend::seen(sight, xa);
        lemma_rest_determined(next, now, rest_a, outcome_a, rest_b, outcome_b);
        assert(ia =~= seq![ia[0]] + rest_a.iterations);
        assert(ib =~= seq![ib[0]] + rest_b.iterations);
    }
}

proof fn lemma_replies_swapped(a: Seq<HostCall>, b: Seq<HostCall>)
    requires
        crate::search::host::replies_alike(a, b),
    ensures
        crate::search::host::replies_alike(b, a),
{
    assert forall|i: int|
        0 <= i < b.len() && i < a.len() && b.take(i) == a.take(i)
            && #[trigger] crate::search::host::same_question(b[i], a[i]) implies b[i]
        == a[i] by {
        assert(crate::search::host::same_question(a[i], b[i]));
    }
}

/// What the model was asked after the beginning.
spec fn calls_of(run: Run) -> Seq<BackendCall> {
    crate::search::run::iteration_calls(run.iterations) + run.ending
}

/// What the host was asked after the report of the baselines.
spec fn record_of(begun: SessionModel, run: Run) -> Seq<HostCall> {
    crate::search::run::iteration_records(begun, run.iterations) + run.closing
}

/// The run is what comes after `begun`, where the model shows `sight` of itself.
spec fn rest_of(
    begun: SessionModel,
    sight: Sight,
    run: Run,
    outcome: Result<ResultModel, ErrorModel>,
) -> bool {
    &&& crate::search::run::iterations_follow(begun, run.iterations)
    &&& forall|i: int|
        0 <= i < run.iterations.len() ==> (#[trigger] run.iterations[i]).saved is Ok
    &&& crate::search::run::closes(
        crate::search::run::after_iterations(begun, run.iterations),
        run.ending,
        run.closing,
        crate::backend::seen(sight, calls_of(run)).map,
        outcome,
    )
}

/// The rest of a search without its first iteration.
proof fn lemma_rest_shorter(
    begun: SessionModel,
    sight: Sight,
    run: Run,
    outcome: Result<ResultModel, ErrorModel>,
) -> (rest: Run)
    requires
        rest_of(begun, sight, run, outcome),
        run.iterations.len() > 0,
    ensures
        ({
            let first = run.iterations[0];
            let calls = first.measured + first.settled;
            let next = first.after(begun);
            &&& rest.iterations == run.iterations.drop_first()
            &&& rest.ending == run.ending
            &&& rest.closing == run.closing
            &&& turns(begun, calls, first.record(begun), Turn::Went { iteration: first })
            &&& rest_of(next, crate::backend::seen(sight, calls), rest, outcome)
            &&& calls_of(run) == calls + calls_of(rest)
            &&& record_of(begun, run) == first.record(begun) + record_of(next, rest)
        }),
{
    let first = run.iterations[0];
    let calls = first.measured + first.settled;
    let next = first.after(begun);
    let rest = Run { iterations: run.iterations.drop_first(), ..run };
    lemma_first_iteration(begun, run.iterations);
    assert(calls_of(run) =~= calls + calls_of(rest));
    assert(record_of(begun, run) =~= first.record(begun) + record_of(next, rest));
    crate::backend::lemma_seen_concat(sight, calls, calls_of(rest));
    assert forall|i: int| 0 <= i < rest.iterations.len() implies (
    #[trigger] rest.iterations[i]).saved is Ok by {
        assert(rest.iterations[i] == run.iterations[i + 1]);
    }
    rest
}

/// A search does not end where the same answers let another go on.
proof fn lemma_no_end_before(
    begun: SessionModel,
    sight: Sight,
    run_a: Run,
    outcome_a: Result<ResultModel, ErrorModel>,
    run_b: Run,
    outcome_b: Result<ResultModel, ErrorModel>,
)
    requires
        rest_of(begun, sight, run_a, outcome_a),
        rest_of(begun, sight, run_b, outcome_b),
        crate::backend::alike(calls_of(run_a), calls_of(run_b)),
        crate::search::host::replies_alike(record_of(begun, run_a), record_of(begun, run_b)),
        run_a.iterations.len() == 0,
    ensures
        run_b.iterations.len() == 0,
{
    if run_b.iterations.len() > 0 {
        let first = run_b.iterations[0];
        let calls = first.measured + first.settled;
        let rest = lemma_rest_shorter(begun, sight, run_b, outcome_b);
        assert(crate::search::run::may_go_on(begun)) by {
            reveal(Iteration::follows);
        }
        assert(calls_of(run_a) =~= run_a.ending + Seq::<BackendCall>::empty());
        assert(record_of(begun, run_a) =~= run_a.closing + Seq::<HostCall>::empty());
        crate::backend::lemma_alike_parts(run_a.ending, seq![], calls, calls_of(rest));
        crate::search::host::lemma_replies_parts(
            run_a.closing,
            seq![],
            first.record(begun),
            record_of(first.after(begun), rest),
        );
        let map = crate::backend::seen(sight, calls_of(run_a)).map;
        lemma_asked_to_stop(begun, run_a.ending, run_a.closing, map, outcome_a);
        lemma_turn_determined(
            begun,
            run_a.ending,
            run_a.closing,
            Turn::Failed { error: outcome_a->Err_0 },
            calls,
            first.record(begun),
            Turn::Went { iteration: first },
        );
    }
}

/// A run in its parts.
proof fn lemma_run_parts(
    run: Run,
    setup: Setup,
    calls: Seq<BackendCall>,
    asked: Seq<HostCall>,
    outcome: Result<ResultModel, ErrorModel>,
)
    requires
        crate::search::run::ends(run, setup, calls, asked, outcome),
    ensures
        calls == run.beginning + calls_of(run),
        asked == seq![baseline_report(run.begun)] + record_of(run.begun, run),
        rest_of(run.begun, crate::backend::seen(setup.sight, run.beginning), run, outcome),
{
    assert(asked =~= seq![baseline_report(run.begun)] + record_of(run.begun, run));
    crate::backend::lemma_seen_concat(setup.sight, run.beginning, calls_of(run));
}

/// The report of the baselines.
spec fn baseline_report(begun: SessionModel) -> HostCall {
    HostCall::Event {
        event: EventModel::Baseline {
            target: begun.target_baseline,
            control: begun.control_baseline,
        },
    }
}

/// A search that does not begin has no run.
proof fn lemma_no_run(
    setup: Setup,
    a: Seq<BackendCall>,
    error: ErrorModel,
    run: Run,
    b: Seq<BackendCall>,
    asked: Seq<HostCall>,
    outcome: Result<ResultModel, ErrorModel>,
)
    requires
        setup.begins(a, Err(error)),
        crate::search::run::ends(run, setup, b, asked, outcome),
    ensures
        !crate::backend::alike(a, b),
{
    if crate::backend::alike(a, b) {
        lemma_run_parts(run, setup, b, asked, outcome);
        assert(a =~= a + Seq::<BackendCall>::empty());
        crate::backend::lemma_alike_parts(a, seq![], run.beginning, calls_of(run));
        lemma_beginning_determined(setup, a, Err(error), run.beginning, Ok(run.begun));
    }
}

/// A search is determined by its arguments and by the answers: two searches with the
/// same arguments, on models and for hosts that answer alike, ask the same of the
/// model and of the host, report the same events, and have the same outcome.
#[verifier::spinoff_prover]
pub proof fn law_same_answers_give_the_same_search(
    setup: Setup,
    a: Seq<BackendCall>,
    asked_a: Seq<HostCall>,
    outcome_a: Result<ResultModel, ErrorModel>,
    b: Seq<BackendCall>,
    asked_b: Seq<HostCall>,
    outcome_b: Result<ResultModel, ErrorModel>,
)
    requires
        crate::search::run::searches(setup, a, asked_a, outcome_a),
        crate::search::run::searches(setup, b, asked_b, outcome_b),
        crate::backend::alike(a, b),
        crate::search::host::replies_alike(asked_a, asked_b),
    ensures
        a == b,
        asked_a == asked_b,
        outcome_a == outcome_b,
{
    let begun_a = exists|run: Run| #[trigger]
        crate::search::run::ends(run, setup, a, asked_a, outcome_a);
    let begun_b = exists|run: Run| #[trigger]
        crate::search::run::ends(run, setup, b, asked_b, outcome_b);
    let run_a = choose|run: Run| #[trigger]
        crate::search::run::ends(run, setup, a, asked_a, outcome_a);
    let run_b = choose|run: Run| #[trigger]
        crate::search::run::ends(run, setup, b, asked_b, outcome_b);
    if begun_a && begun_b {
        lemma_run_parts(run_a, setup, a, asked_a, outcome_a);
        lemma_run_parts(run_b, setup, b, asked_b, outcome_b);
        crate::backend::lemma_alike_parts(
            run_a.beginning,
            calls_of(run_a),
            run_b.beginning,
            calls_of(run_b),
        );
        lemma_beginning_determined(
            setup,
            run_a.beginning,
            Ok(run_a.begun),
            run_b.beginning,
            Ok(run_b.begun),
        );
        let begun = run_a.begun;
        crate::search::host::lemma_first_reply(
            baseline_report(begun),
            record_of(begun, run_a),
            baseline_report(begun),
            record_of(begun, run_b),
        );
        let sight = crate::backend::seen(setup.sight, run_a.beginning);
        lemma_rest_determined(begun, sight, run_a, outcome_a, run_b, outcome_b);
    } else if begun_a {
        lemma_alike_swapped(a, b);
        lemma_no_run(setup, b, outcome_b->Err_0, run_a, a, asked_a, outcome_a);
    } else if begun_b {
        lemma_no_run(setup, a, outcome_a->Err_0, run_b, b, asked_b, outcome_b);
    } else {
        lemma_beginning_determined(setup, a, Err(outcome_a->Err_0), b, Err(outcome_b->Err_0));
        assert(asked_a =~= asked_b);
    }
}

/// Every checkpoint that the host is given holds the configuration.
pub open spec fn saves_config(config: ConfigModel, asked: Seq<HostCall>) -> bool {
    forall|i: int|
        0 <= i < asked.len() && (#[trigger] asked[i]) is Save ==> asked[i]->checkpoint.config
            == config
}

proof fn lemma_saves_concat(config: ConfigModel, first: Seq<HostCall>, second: Seq<HostCall>)
    requires
        saves_config(config, first),
        saves_config(config, second),
    ensures
        saves_config(config, first + second),
{
}

proof fn lemma_iterations_save_config(begun: SessionModel, iterations: Seq<Iteration>)
    ensures
        crate::search::run::after_iterations(begun, iterations).config == begun.config,
        saves_config(begun.config, crate::search::run::iteration_records(begun, iterations)),
    decreases iterations.len(),
{
    if iterations.len() > 0 {
        let less = iterations.drop_last();
        let before = crate::search::run::after_iterations(begun, less);
        lemma_iterations_save_config(begun, less);
        lemma_saves_concat(
            begun.config,
            crate::search::run::iteration_records(begun, less),
            iterations.last().record(before),
        );
    }
}

proof fn lemma_turn_saves_config(
    last: SessionModel,
    calls: Seq<BackendCall>,
    asked: Seq<HostCall>,
    error: ErrorModel,
)
    requires
        crate::search::run::advance_fails(last, calls, asked, error),
    ensures
        saves_config(last.config, asked),
{
    let turn = Turn::Failed { error };
    lemma_turn_begins(last, calls, asked, turn);
    if !asked[0]->Cancelled_reply {
        let play = lemma_turn_plays(last, calls, asked, turn);
        let rest = play.judged(last) + play.reported();
        assert(saves_config(last.config, play.reported()));
        lemma_saves_concat(last.config, play.judged(last), play.reported());
        lemma_saves_concat(last.config, crate::search::run::drawing(last, play.reply), rest);
    }
}

proof fn lemma_closing_saves_config(
    last: SessionModel,
    calls: Seq<BackendCall>,
    asked: Seq<HostCall>,
    map: ArchitectureModel,
    outcome: Result<ResultModel, ErrorModel>,
)
    requires
        crate::search::run::closes(last, calls, asked, map, outcome),
    ensures
        saves_config(last.config, asked),
{
    if last.wants_more() {
        lemma_asked_to_stop(last, calls, asked, map, outcome);
        if asked[0]->Cancelled_reply || last.available().len() > 0 {
            lemma_turn_saves_config(last, calls, asked, outcome->Err_0);
        } else {
            lemma_concluding_saves_nothing(last, calls, asked.skip(1), map, outcome);
            assert(asked =~= seq![asked[0]] + asked.skip(1));
        }
    } else {
        reveal(crate::search::run::closes);
        assert(asked.skip(0) =~= asked);
        lemma_concluding_saves_nothing(last, calls, asked, map, outcome);
    }
}

proof fn lemma_concluding_saves_nothing(
    last: SessionModel,
    calls: Seq<BackendCall>,
    asked: Seq<HostCall>,
    map: ArchitectureModel,
    outcome: Result<ResultModel, ErrorModel>,
)
    requires
        crate::search::run::concluding(last, calls, asked, map, outcome),
    ensures
        saves_config(last.config, asked),
{
    reveal(crate::search::run::concluding);
}

/// Every checkpoint of a search holds its configuration, with the layers settled.
pub proof fn law_checkpoints_hold_the_configuration(
    setup: Setup,
    calls: Seq<BackendCall>,
    asked: Seq<HostCall>,
    outcome: Result<ResultModel, ErrorModel>,
)
    requires
        crate::search::run::searches(setup, calls, asked, outcome),
    ensures
        saves_config(setup.config, asked),
{
    if exists|run: Run| #[trigger] crate::search::run::ends(run, setup, calls, asked, outcome) {
        let run = choose|run: Run| #[trigger]
            crate::search::run::ends(run, setup, calls, asked, outcome);
        assert(run.begun.config == setup.config) by {
            reveal(Setup::begins);
            reveal(Setup::measures);
            reveal(Setup::takes_up);
        }
        lemma_iterations_save_config(run.begun, run.iterations);
        lemma_closing_saves_config(run.last(), run.ending, run.closing, run.map(setup), outcome);
        lemma_saves_concat(
            setup.config,
            crate::search::run::asked_so_far(run.begun, run.iterations),
            run.closing,
        );
    }
}

/// Naming no layers is naming the default ones: the two searches are the same, and so
/// are their checkpoints, each of which either may take up.
pub proof fn law_no_layers_stand_for_the_default_ones(
    setup: Setup,
    config: ConfigModel,
    named: ConfigModel,
    a: Seq<BackendCall>,
    asked_a: Seq<HostCall>,
    outcome_a: Result<ResultModel, ErrorModel>,
    b: Seq<BackendCall>,
    asked_b: Seq<HostCall>,
    outcome_b: Result<ResultModel, ErrorModel>,
)
    requires
        config.search_layers.len() == 0,
        named == (ConfigModel {
            search_layers: crate::search::layers::default_layers(setup.sight.map.layer_count),
            ..config
        }),
        crate::search::run::searches(
            (Setup { config: config.resolved(setup.sight.map.layer_count), ..setup }),
            a,
            asked_a,
            outcome_a,
        ),
        crate::search::run::searches(
            (Setup { config: named.resolved(setup.sight.map.layer_count), ..setup }),
            b,
            asked_b,
            outcome_b,
        ),
        crate::backend::alike(a, b),
        crate::search::host::replies_alike(asked_a, asked_b),
    ensures
        a == b,
        asked_a == asked_b,
        outcome_a == outcome_b,
        config.resolved(setup.sight.map.layer_count) == named.resolved(
            setup.sight.map.layer_count,
        ),
        forall|i: int|
            0 <= i < asked_a.len() && (#[trigger] asked_a[i]) is Save
                ==> asked_a[i]->checkpoint.config.search_layers == named.search_layers,
{
    let count = setup.sight.map.layer_count;
    let same = Setup { config: config.resolved(count), ..setup };
    assert(config.resolved(count) == named.resolved(count));
    law_same_answers_give_the_same_search(same, a, asked_a, outcome_a, b, asked_b, outcome_b);
    law_checkpoints_hold_the_configuration(same, a, asked_a, outcome_a);
}

} // verus!
