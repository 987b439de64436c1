//! What holds of every search.

use vstd::prelude::*;

use crate::architecture::ArchitectureModel;
use crate::backend::{BackendCall, Sight};
use crate::error::ErrorModel;
use crate::float::Binary32;
use crate::patch::{PatchFlip, PatchValidation};
use crate::probe::{CompiledModel, MeasurementModel};
use crate::search::config::ConfigModel;
use crate::search::evaluate::ReadingModel;
use crate::search::host::HostCall;
use crate::search::pool::Candidate;
use crate::search::report::{EventModel, ResultModel};
use crate::search::run::{Iteration, Run};
use crate::search::state::{CandidateEvaluation, SessionModel, Setup, Step};

verus! {

proof fn lemma_untried(pool: Seq<Candidate>, tried: Set<PatchFlip>, count: nat)
    requires
        count <= pool.len() <= usize::MAX,
    ensures
        forall|i: int|
            #![trigger crate::search::state::untried(pool, tried, count)[i]]
            0 <= i < crate::search::state::untried(pool, tried, count).len() ==> {
                let place = crate::search::state::untried(pool, tried, count)[i];
                place < count && !tried.contains(pool[place as int].flip)
            },
        forall|k: int|
            0 <= k < count && !tried.contains((#[trigger] pool[k]).flip)
                ==> crate::search::state::untried(pool, tried, count).contains(k as usize),
    decreases count,
{
    if count > 0 {
        let less = crate::search::state::untried(pool, tried, (count - 1) as nat);
        let all = crate::search::state::untried(pool, tried, count);
        lemma_untried(pool, tried, (count - 1) as nat);
        assert forall|k: int| 0 <= k < count && !tried.contains(
            (#[trigger] pool[k]).flip,
        ) implies all.contains(k as usize) by {
            if k < count - 1 {
                let i = choose|i: int| 0 <= i < less.len() && less[i] == k as usize;
                assert(all[i] == k as usize);
            } else {
                assert(all[less.len() as int] == k as usize);
            }
        }
    }
}

/// A row is tried once at most, and only where it was offered.
pub proof fn law_next_row_is_new(session: SessionModel, pick: Option<usize>)
    requires
        session.consistent(),
        session.available().len() > 0,
        pick matches Some(place) ==> place < session.available().len(),
    ensures
        !session.tried.contains(session.drawn(pick)),
        crate::search::pool::offered(session.pool, session.drawn(pick)),
{
    lemma_untried(session.pool, session.tried, session.pool.len());
    let available = session.available();
    let i = match pick {
        Some(place) => place as int,
        None => (session.rng.drawn() as usize) as int % available.len() as int,
    };
    assert(0 <= i < available.len());
    let place = available[i];
    assert(crate::search::state::untried(session.pool, session.tried, session.pool.len())[i]
        == place);
    assert(session.pool[place as int].flip == session.drawn(pick));
}

/// Nothing is left to draw exactly where every row has been tried.
pub proof fn law_nothing_left_when_all_are_tried(session: SessionModel)
    requires
        session.consistent(),
    ensures
        session.available().len() == 0 <==> forall|flip: PatchFlip| #[trigger]
            crate::search::pool::offered(session.pool, flip) ==> session.tried.contains(flip),
{
    lemma_untried(session.pool, session.tried, session.pool.len());
    let available = session.available();
    if available.len() == 0 {
        assert forall|flip: PatchFlip| #[trigger]
            crate::search::pool::offered(session.pool, flip) implies session.tried.contains(
            flip,
        ) by {
            let k = choose|k: int|
                0 <= k < session.pool.len() && (#[trigger] session.pool[k]).flip == flip;
            if !session.tried.contains(session.pool[k].flip) {
                assert(available.contains(k as usize));
            }
        }
    } else {
        let place = available[0];
        assert(crate::search::state::untried(session.pool, session.tried, session.pool.len())[0]
            == place);
        let flip = session.pool[place as int].flip;
        assert(crate::search::pool::offered(session.pool, flip));
    }
}

/// A new search is sound.
pub proof fn law_new_search_is_sound(
    setup: Setup,
    sight: Sight,
    pool: Seq<Candidate>,
    target: Seq<MeasurementModel>,
    control: Seq<MeasurementModel>,
    screen: Seq<usize>,
)
    requires
        setup.resume is None,
    ensures
        crate::search::state::begun(setup, sight, pool, target, control, screen).sound(),
{
}

/// Settling on a row keeps a search sound.
pub proof fn law_taking_keeps_the_search_sound(session: SessionModel, pick: Option<usize>)
    requires
        session.sound(),
        session.consistent(),
        session.wants_more(),
        session.available().len() > 0,
        pick matches Some(place) ==> place < session.available().len(),
    ensures
        session.taken(pick).sound(),
        session.taken(pick).consistent(),
{
    law_next_row_is_new(session, pick);
    let flip = session.drawn(pick);
    if session.accepted.contains(flip) {
        let i = choose|i: int| 0 <= i < session.accepted.len() && session.accepted[i] == flip;
        assert(session.tried.contains(session.accepted[i]));
    }
}

/// Keeping a row or flipping it back keeps a search sound.
pub proof fn law_settling_keeps_the_search_sound(
    session: SessionModel,
    evaluation: CandidateEvaluation,
)
    requires
        session.sound(),
        session.consistent(),
        session.pending is Some,
    ensures
        session.settled(evaluation).sound(),
        session.settled(evaluation).consistent(),
{
    let after = session.settled(evaluation);
    if session.accepts(evaluation) {
        let flip = session.pending->Some_0;
        assert forall|i: int, j: int|
            0 <= i < after.accepted.len() && 0 <= j < after.accepted.len() && i
                != j implies after.accepted[i] != after.accepted[j] by {
            if i < session.accepted.len() {
                assert(session.accepted.contains(session.accepted[i]));
            }
            if j < session.accepted.len() {
                assert(session.accepted.contains(session.accepted[j]));
            }
        }
    }
}

/// A row is accepted exactly where its fitness is greater than the best so far, and
/// is the best from then on; the fitness of a search never falls. Any other row
/// leaves the accepted rows and the fitness as they were.
pub proof fn law_only_improvements_are_accepted(
    session: SessionModel,
    evaluation: CandidateEvaluation,
)
    requires
        session.pending is Some,
    ensures
        ({
            let after = session.settled(evaluation);
            if session.accepts(evaluation) {
                &&& after.accepted == session.accepted.push(session.pending->Some_0)
                &&& evaluation == (CandidateEvaluation::Measured {
                    fitness: after.current_fitness,
                })
                &&& after.current_fitness.exceeds(session.current_fitness)
            } else {
                &&& after.accepted == session.accepted
                &&& after.current_fitness == session.current_fitness
            }
        }),
{
}

/// A candidate with a gap that is not finite is never accepted.
pub proof fn law_non_finite_candidates_are_rejected(
    session: SessionModel,
    fitness: Result<Binary32, ErrorModel>,
)
    ensures
        crate::search::state::worth(ReadingModel::NonFinite, fitness) matches Ok(evaluation)
            ==> !session.accepts(evaluation),
        crate::search::state::worth(ReadingModel::NonFinite, fitness) is Ok,
{
}

/// The two searches differ in the ceiling on the iterations and in the count of
/// screened rows at most.
pub open spec fn same_course(first: SessionModel, second: SessionModel) -> bool {
    second == (SessionModel {
        config: ConfigModel { max_iters: second.config.max_iters, ..first.config },
        screened_out: second.screened_out,
        ..first
    })
}

/// On an unchanged model a search accepts its own checkpoint, with the same ceiling on
/// the iterations or any other that is not below those already done.
pub proof fn law_own_checkpoint_is_accepted(session: SessionModel, max_iters: usize)
    requires
        session.consistent(),
        session.config.control_penalty.finite(),
        max_iters >= session.completed_iterations,
    ensures
        session.checkpoint().fault(
            (ConfigModel { max_iters, ..session.config }),
            session.architecture_signature,
            session.target_baseline,
            session.control_baseline,
        ) is None,
{
    crate::search::checkpoint::law_only_the_ceiling_may_change(
        session.checkpoint(),
        ConfigModel { max_iters, ..session.config },
    );
}

/// A checkpoint that is taken up again gives the search that wrote it: the same rows
/// are accepted and tried, and the same random numbers follow. Only the ceiling on
/// the iterations may be another, and the count of screened rows starts anew.
pub proof fn law_resumed_search_goes_on(
    session: SessionModel,
    setup: Setup,
    sight: Sight,
    target: Seq<MeasurementModel>,
    control: Seq<MeasurementModel>,
    resumed: SessionModel,
)
    requires
        session.consistent(),
        session.pending is None,
        setup.targets == session.targets,
        setup.controls == session.controls,
        setup.config == (ConfigModel { max_iters: setup.config.max_iters, ..session.config }),
        sight.map.signature == session.architecture_signature,
        sight.label == session.model_label,
        setup.resume == Some(session.checkpoint()),
        resumed.consistent(),
        resumed == crate::search::state::begun(
            setup,
            sight,
            session.pool,
            target,
            control,
            resumed.screen,
        ),
    ensures
        same_course(session, resumed),
{
    crate::search::screen::law_screen_is_determined(
        session.target_baseline,
        session.config.screen_probe_count as nat,
        session.screen,
        resumed.screen,
    );
}

/// A sound search is sound after any number of iterations, has counted each of them,
/// and never exceeds its ceiling.
pub proof fn law_every_search_stays_sound(session: SessionModel, steps: Seq<Step>)
    requires
        session.sound(),
        session.consistent(),
        crate::search::state::steps_follow(session, steps),
    ensures
        crate::search::state::after_steps(session, steps).sound(),
        crate::search::state::after_steps(session, steps).consistent(),
        crate::search::state::after_steps(session, steps).completed_iterations == session.completed_iterations
            + steps.len(),
        crate::search::state::after_steps(session, steps).pool == session.pool,
    decreases steps.len(),
{
    if steps.len() > 0 {
        law_every_search_stays_sound(session, steps.drop_last());
        let before = crate::search::state::after_steps(session, steps.drop_last());
        law_taking_keeps_the_search_sound(before, steps.last().pick);
        law_settling_keeps_the_search_sound(
            before.taken(steps.last().pick),
            steps.last().evaluation,
        );
    }
}

/// A search that was interrupted and taken up again goes the way it would have gone
/// without the interruption: the same rows are on offer, drawn, accepted and
/// rejected, with the same fitness.
pub proof fn law_interrupted_search_ends_the_same(
    first: SessionModel,
    second: SessionModel,
    steps: Seq<Step>,
)
    requires
        same_course(first, second),
    ensures
        same_course(crate::search::state::after_steps(first, steps), crate::search::state::after_steps(second, steps)),
        crate::search::state::after_steps(first, steps).available() == crate::search::state::after_steps(second, steps).available(),
    decreases steps.len(),
{
    if steps.len() > 0 {
        law_interrupted_search_ends_the_same(first, second, steps.drop_last());
        let a = crate::search::state::after_steps(first, steps.drop_last());
        let b = crate::search::state::after_steps(second, steps.drop_last());
        let pick = steps.last().pick;
        assert(a.drawn(pick) == b.drawn(pick));
        assert(same_course(a.taken(pick), b.taken(pick)));
    }
}

proof fn lemma_one_flip(rows: Set<PatchFlip>, flip: PatchFlip, call: BackendCall)
    requires
        crate::restore::asks_flip(flip, call),
    ensures
        crate::backend::flipped(rows, seq![call]) == if crate::restore::flip_reply(call) is Ok {
            crate::patch::toggled(rows, flip)
        } else {
            rows
        },
{
    let calls = seq![call];
    assert(calls.drop_last() =~= Seq::<BackendCall>::empty());
    reveal_with_fuel(crate::backend::flipped, 2);
}

/// After a candidate has been measured its row is flipped; where that failed, the
/// model is as it was, unless the error says that it could not be brought back.
pub proof fn law_evaluating_flips_the_row(
    session: SessionModel,
    rows: Set<PatchFlip>,
    flip: PatchFlip,
    calls: Seq<BackendCall>,
    outcome: Result<ReadingModel, ErrorModel>,
)
    requires
        session.evaluates(flip, calls, outcome),
    ensures
        outcome is Ok ==> crate::backend::flipped(rows, calls) == crate::patch::toggled(
            rows,
            flip,
        ),
        outcome matches Err(error) ==> {
            ||| crate::backend::flipped(rows, calls) == rows
            ||| (error is RestorationFailed && error->operation == "failed candidate evaluation"@)
        },
{
    let rest = calls.skip(1);
    let first = seq![calls[0]];
    assert(calls =~= first + rest);
    lemma_one_flip(rows, flip, calls[0]);
    crate::backend::lemma_flipped_concat(rows, first, rest);
    let middle = crate::backend::flipped(rows, first);
    if crate::restore::flip_reply(calls[0]) is Err {
        assert(rest =~= Seq::<BackendCall>::empty());
        assert(crate::backend::flipped(middle, rest) == middle);
    } else if outcome is Ok {
        crate::search::evaluate::law_measuring_a_candidate_flips_nothing(
            session.trial(),
            rest,
            middle,
        );
    } else if rest.len() > 0 && session.trial().requests(rest.drop_last())
        && session.trial().outcome(rest.drop_last()) is Err {
        crate::search::evaluate::law_measuring_a_candidate_flips_nothing(
            session.trial(),
            rest.drop_last(),
            middle,
        );
        if crate::restore::flip_reply(rest.last()) is Ok {
            crate::patch::law_flip_undoes_itself(rows, flip);
        }
    }
}

/// After a candidate has been settled its row stays flipped where it was accepted,
/// and is as before it was tried otherwise, unless the error says that it could not
/// be brought back.
pub proof fn law_settling_flips_back_what_is_not_accepted(
    session: SessionModel,
    rows: Set<PatchFlip>,
    evaluation: Result<CandidateEvaluation, ErrorModel>,
    calls: Seq<BackendCall>,
    after: SessionModel,
    outcome: Result<EventModel, ErrorModel>,
)
    requires
        session.pending is Some,
        session.settles(evaluation, calls, after, outcome),
    ensures
        ({
            let flip = session.pending->Some_0;
            let now = crate::backend::flipped(crate::patch::toggled(rows, flip), calls);
            if evaluation is Ok && session.accepts(evaluation->Ok_0) {
                now == crate::patch::toggled(rows, flip)
            } else {
                ||| now == rows
                ||| (outcome matches Err(error) && error is RestorationFailed && error->operation
                    == session.occasion(evaluation))
            }
        }),
{
    let flip = session.pending->Some_0;
    let before = crate::patch::toggled(rows, flip);
    if evaluation is Ok && session.accepts(evaluation->Ok_0) {
        assert(calls =~= Seq::<BackendCall>::empty());
    } else {
        assert(calls =~= seq![calls[0]]);
        lemma_one_flip(before, flip, calls[0]);
        crate::patch::law_flip_undoes_itself(rows, flip);
    }
}

/// At the end of each iteration the model carries the accepted rows and no others:
/// where it did before a row was tried, it does after the row was settled.
pub proof fn law_model_carries_the_accepted_rows(
    base: Set<PatchFlip>,
    session: SessionModel,
    measured: Seq<BackendCall>,
    reading: ReadingModel,
    evaluation: CandidateEvaluation,
    settled: Seq<BackendCall>,
    after: SessionModel,
    event: EventModel,
)
    requires
        session.pending is Some,
        session.evaluates(session.pending->Some_0, measured, Ok(reading)),
        session.settles(Ok(evaluation), settled, after, Ok(event)),
    ensures
        ({
            let rows = crate::patch::toggled_all(base, session.accepted);
            crate::backend::flipped(rows, measured + settled) == crate::patch::toggled_all(
                base,
                after.accepted,
            )
        }),
{
    let flip = session.pending->Some_0;
    let rows = crate::patch::toggled_all(base, session.accepted);
    law_evaluating_flips_the_row(session, rows, flip, measured, Ok(reading));
    law_settling_flips_back_what_is_not_accepted(
        session,
        rows,
        Ok(evaluation),
        settled,
        after,
        Ok(event),
    );
    crate::backend::lemma_flipped_concat(rows, measured, settled);
    if session.accepts(evaluation) {
        assert(after.accepted.drop_last() =~= session.accepted);
    }
}

/// The model begins with the rows of the checkpoint flipped, and with none without
/// one. Where the beginning fails the model is as it was, unless the error says that
/// it could not be brought back.
pub proof fn law_search_begins_with_the_accepted_rows(
    setup: Setup,
    rows: Set<PatchFlip>,
    calls: Seq<BackendCall>,
    outcome: Result<SessionModel, ErrorModel>,
)
    requires
        setup.begins(calls, outcome),
    ensures
        outcome matches Ok(session) ==> crate::backend::flipped(rows, calls)
            == crate::patch::toggled_all(rows, session.accepted),
        outcome matches Err(error) ==> {
            ||| crate::backend::flipped(rows, calls) == rows
            ||| (error is RestorationFailed && error->operation == "checkpoint restoration"@)
        },
{
    reveal(Setup::begins);
    let many = setup.config.coordinates().len();
    let scales = crate::backend::head(calls, many);
    let after_scales = crate::backend::tail(calls, many);
    let fault = setup.config.fault(setup.sight.map, setup.targets.len(), setup.controls.len());
    let none = Seq::<BackendCall>::empty();
    if fault is Some {
        assert(calls =~= none);
    } else {
        assert(calls =~= scales + after_scales);
        crate::backend::lemma_flipped_concat(rows, scales, after_scales);
        crate::backend::lemma_flipped_unchanged(rows, scales);
        match crate::search::pool::pool_outcome(
            setup.sight,
            setup.config.coordinates(),
            scales,
        ) {
            Err(_) => {
                assert(after_scales =~= none);
            },
            Ok(pool) => {
                let sight = crate::backend::seen(setup.sight, scales);
                lemma_measuring(setup, rows, sight, pool, after_scales, outcome);
            },
        }
    }
}

proof fn lemma_measuring(
    setup: Setup,
    rows: Set<PatchFlip>,
    sight: Sight,
    pool: Seq<Candidate>,
    calls: Seq<BackendCall>,
    outcome: Result<SessionModel, ErrorModel>,
)
    requires
        setup.measures(sight, pool, calls, outcome),
    ensures
        outcome matches Ok(session) ==> crate::backend::flipped(rows, calls)
            == crate::patch::toggled_all(rows, session.accepted),
        outcome matches Err(error) ==> {
            ||| crate::backend::flipped(rows, calls) == rows
            ||| (error is RestorationFailed && error->operation == "checkpoint restoration"@)
        },
{
    reveal(Setup::measures);
    let count = setup.targets.len() + setup.controls.len();
    let gaps = crate::backend::head(calls, count);
    let rest = crate::backend::tail(calls, count);
    assert(calls =~= gaps + rest);
    crate::backend::lemma_flipped_concat(rows, gaps, rest);
    lemma_both_flip_nothing(setup.targets, setup.controls, rows, gaps);
    match crate::search::state::both_outcome(setup.targets, setup.controls, gaps) {
        Err(_) => {
            assert(rest =~= Seq::<BackendCall>::empty());
        },
        Ok((target, control)) => {
            let now = crate::backend::seen(sight, gaps);
            lemma_taking_up(setup, rows, now, pool, target, control, rest, outcome);
        },
    }
}

proof fn lemma_taking_up(
    setup: Setup,
    rows: Set<PatchFlip>,
    sight: Sight,
    pool: Seq<Candidate>,
    target: Seq<MeasurementModel>,
    control: Seq<MeasurementModel>,
    calls: Seq<BackendCall>,
    outcome: Result<SessionModel, ErrorModel>,
)
    requires
        setup.takes_up(sight, pool, target, control, calls, outcome),
    ensures
        outcome matches Ok(session) ==> crate::backend::flipped(rows, calls)
            == crate::patch::toggled_all(rows, session.accepted),
        outcome matches Err(error) ==> {
            ||| crate::backend::flipped(rows, calls) == rows
            ||| (error is RestorationFailed && error->operation == "checkpoint restoration"@)
        },
{
    reveal(Setup::takes_up);
    let none = Seq::<BackendCall>::empty();
    match setup.resume {
        None => {
            assert(calls =~= none);
        },
        Some(checkpoint) => {
            if checkpoint.fault(setup.config, sight.map.signature, target, control) is Some {
                assert(calls =~= none);
            } else {
                let applied = match outcome {
                    Ok(_) => Ok(()),
                    Err(error) => Err(error),
                };
                crate::restore::law_applying_is_all_or_nothing(
                    rows,
                    checkpoint.accepted,
                    "checkpoint restoration"@,
                    calls,
                    applied,
                );
            }
        },
    }
}

/// What the model answers determines how a search begins.
pub proof fn law_beginning_is_determined(
    setup: Setup,
    calls: Seq<BackendCall>,
    first: SessionModel,
    second: SessionModel,
)
    requires
        setup.begins(calls, Ok(first)),
        setup.begins(calls, Ok(second)),
    ensures
        first == second,
{
    reveal(Setup::begins);
    reveal(Setup::measures);
    reveal(Setup::takes_up);
    crate::search::screen::law_screen_is_determined(
        first.target_baseline,
        first.config.screen_probe_count as nat,
        first.screen,
        second.screen,
    );
}

proof fn lemma_metadata_names()
    ensures
        "search_algorithm"@ != "architecture_signature"@,
        "seed"@ != "architecture_signature"@,
        "completed_iterations"@ != "architecture_signature"@,
        "control_penalty"@ != "architecture_signature"@,
{
    reveal_strlit("architecture_signature");
    reveal_strlit("search_algorithm");
    reveal_strlit("seed");
    reveal_strlit("completed_iterations");
    reveal_strlit("control_penalty");
    assert("search_algorithm"@.len() == 16);
    assert("seed"@.len() == 4);
    assert("completed_iterations"@.len() == 20);
    assert("control_penalty"@.len() == 15);
    assert("architecture_signature"@.len() == 22);
}

/// The model shows the map after each of the requests.
pub open spec fn keeps_map(map: ArchitectureModel, calls: Seq<BackendCall>) -> bool {
    forall|i: int| 0 <= i < calls.len() ==> (#[trigger] calls[i]).sight().map == map
}

/// The patch that a search finds fits the model on which the search was begun, where
/// the model kept its map meanwhile.
pub proof fn law_found_patch_fits(
    setup: Setup,
    calls: Seq<BackendCall>,
    begun: SessionModel,
    session: SessionModel,
    validation: PatchValidation,
)
    requires
        setup.sight.map.complete(),
        setup.begins(calls, Ok(begun)),
        keeps_map(setup.sight.map, calls),
        session.sound(),
        session.pool == begun.pool,
        session.architecture_signature == begun.architecture_signature,
    ensures
        session.patch().fault(setup.sight.map, validation) is None,
{
    reveal(Setup::begins);
    reveal(Setup::measures);
    reveal(Setup::takes_up);
    let map = setup.sight.map;
    let coordinates = setup.config.coordinates();
    let count = setup.targets.len() + setup.controls.len();
    let scales = crate::backend::head(calls, coordinates.len());
    let rest = crate::backend::tail(calls, coordinates.len());
    let gaps = crate::backend::head(rest, count);
    assert forall|i: int| 0 <= i < scales.len() implies (#[trigger] scales[i]).sight().map
        == map by {
        assert(scales[i] == calls[i]);
    }
    if gaps.len() > 0 {
        assert(gaps.last() == calls[scales.len() + gaps.len() - 1]);
    }
    assert(crate::search::pool::pool_outcome(setup.sight, coordinates, scales) is Ok);
    assert(session.architecture_signature == map.signature);
    assert forall|i: int| 0 <= i < session.accepted.len() implies crate::patch::has_row(
        map,
        #[trigger] session.accepted[i],
    ) by {
        let flip = session.accepted[i];
        assert(session.tried.contains(flip));
        assert(crate::search::pool::offered(session.pool, flip));
        crate::search::pool::law_pool_holds_the_rows(setup.sight, coordinates, scales, flip);
    }
    crate::patch::law_accepted_rows(map, session.accepted);
    lemma_metadata_names();
}

/// Iterations keep a search sound, and what it was begun with.
pub proof fn lemma_iterations_keep(begun: SessionModel, iterations: Seq<Iteration>)
    requires
        begun.sound(),
        begun.consistent(),
        begun.pending is None,
        crate::search::run::iterations_follow(begun, iterations),
    ensures
        ({
            let after = crate::search::run::after_iterations(begun, iterations);
            &&& after.sound()
            &&& after.consistent()
            &&& after.pool == begun.pool
            &&& after.config == begun.config
            &&& after.targets == begun.targets
            &&& after.controls == begun.controls
            &&& after.architecture_signature == begun.architecture_signature
            &&& after.model_label == begun.model_label
            &&& after.pending == begun.pending
            &&& after.completed_iterations == begun.completed_iterations + iterations.len()
        }),
    decreases iterations.len(),
{
    if iterations.len() > 0 {
        reveal(Iteration::follows);
        lemma_iterations_keep(begun, iterations.drop_last());
        let before = crate::search::run::after_iterations(begun, iterations.drop_last());
        let last = iterations.last();
        let pick = crate::search::run::pick_of(before, last.reply);
        law_taking_keeps_the_search_sound(before, pick);
        law_settling_keeps_the_search_sound(before.taken(pick), last.evaluation());
    }
}

/// One iteration takes a model with the accepted rows to a model with the accepted
/// rows.
proof fn lemma_iteration_carries(
    base: Set<PatchFlip>,
    before: SessionModel,
    iteration: Iteration,
)
    requires
        iteration.follows(before),
    ensures
        crate::backend::flipped(
            crate::patch::toggled_all(base, before.accepted),
            iteration.measured + iteration.settled,
        ) == crate::patch::toggled_all(base, iteration.after(before).accepted),
{
    reveal(Iteration::follows);
    let trying = iteration.trying(before);
    law_model_carries_the_accepted_rows(
        base,
        trying,
        iteration.measured,
        iteration.reading,
        iteration.evaluation(),
        iteration.settled,
        iteration.after(before),
        trying.verdict(iteration.evaluation()),
    );
}

pub proof fn lemma_iterations_carry(
    base: Set<PatchFlip>,
    begun: SessionModel,
    iterations: Seq<Iteration>,
)
    requires
        crate::search::run::iterations_follow(begun, iterations),
    ensures
        crate::backend::flipped(
            crate::patch::toggled_all(base, begun.accepted),
            crate::search::run::iteration_calls(iterations),
        ) == crate::patch::toggled_all(
            base,
            crate::search::run::after_iterations(begun, iterations).accepted,
        ),
    decreases iterations.len(),
{
    if iterations.len() > 0 {
        let less = iterations.drop_last();
        let last = iterations.last();
        let before = crate::search::run::after_iterations(begun, less);
        lemma_iterations_carry(base, begun, less);
        lemma_iteration_carries(base, before, last);
        crate::backend::lemma_flipped_concat(
            crate::patch::toggled_all(base, begun.accepted),
            crate::search::run::iteration_calls(less),
            last.measured + last.settled,
        );
    }
}

/// What the model carries when the last full iteration is over.
proof fn lemma_run_carries(rows: Set<PatchFlip>, setup: Setup, run: Run)
    requires
        run.runs(setup),
    ensures
        crate::backend::flipped(rows, run.calls()) == crate::backend::flipped(
            crate::patch::toggled_all(rows, run.last().accepted),
            run.ending,
        ),
{
    let middle = crate::search::run::iteration_calls(run.iterations);
    law_search_begins_with_the_accepted_rows(setup, rows, run.beginning, Ok(run.begun));
    let first = crate::patch::toggled_all(rows, run.begun.accepted);
    crate::backend::lemma_flipped_concat(rows, run.beginning, middle + run.ending);
    crate::backend::lemma_flipped_concat(first, middle, run.ending);
    lemma_iterations_carry(rows, run.begun, run.iterations);
}

proof fn lemma_both_flip_nothing(
    targets: Seq<CompiledModel>,
    controls: Seq<CompiledModel>,
    rows: Set<PatchFlip>,
    calls: Seq<BackendCall>,
)
    requires
        crate::search::state::both_requests(targets, controls, calls),
    ensures
        crate::backend::flipped(rows, calls) == rows,
{
    let first = crate::backend::head(calls, targets.len());
    let second = crate::backend::tail(calls, targets.len());
    assert forall|i: int| 0 <= i < calls.len() implies !(#[trigger] calls[i] is FlipRow) by {
        if i < first.len() {
            assert(first[i] == calls[i]);
        } else {
            assert(second[i - first.len()] == calls[i]);
        }
    }
    crate::backend::lemma_flipped_unchanged(rows, calls);
}

/// A search that comes to its end leaves the model with the rows of its patch
/// flipped, and no others.
pub proof fn law_search_leaves_its_patch_applied(
    rows: Set<PatchFlip>,
    setup: Setup,
    run: Run,
    result: ResultModel,
)
    requires
        run.completes(setup, result),
    ensures
        crate::backend::flipped(rows, run.calls()) == crate::patch::toggled_all(
            rows,
            result.patch.flips,
        ),
{
    reveal(crate::search::run::closes);
    reveal(crate::search::run::concluding);
    lemma_run_carries(rows, setup, run);
    lemma_both_flip_nothing(
        run.last().targets,
        run.last().controls,
        crate::patch::toggled_all(rows, run.last().accepted),
        run.ending,
    );
}

/// A search that is broken off leaves the model with the rows that it had accepted
/// flipped, and no others, unless the error says that the model could not be brought
/// back. Where the last checkpoint could not be saved, its iteration counts.
pub proof fn law_broken_off_search_leaves_the_accepted_rows(
    rows: Set<PatchFlip>,
    setup: Setup,
    run: Run,
    error: ErrorModel,
)
    requires
        run.breaks_off(setup, error),
        !(error is RestorationFailed),
    ensures
        ({
            let now = crate::backend::flipped(rows, run.calls());
            ||| now == crate::patch::toggled_all(rows, run.last().accepted)
            ||| exists|iteration: Iteration|
                {
                    &&& #[trigger] crate::search::run::goes_unsaved(
                        run.last(),
                        run.ending,
                        run.closing,
                        iteration,
                        error,
                    )
                    &&& now == crate::patch::toggled_all(
                        rows,
                        iteration.after(run.last()).accepted,
                    )
                }
        }),
{
    reveal(crate::search::run::closes);
    reveal(crate::search::run::concluding);
    reveal(crate::search::run::advance_fails);
    lemma_run_carries(rows, setup, run);
    let last = run.last();
    let carried = crate::patch::toggled_all(rows, last.accepted);
    if last.wants_more() && crate::search::run::advance_fails(
        last,
        run.ending,
        run.closing,
        error,
    ) {
        if crate::search::run::iteration_fails(last, run.ending, run.closing, error) {
            lemma_failed_iteration(carried, last, run.ending, run.closing, error);
        } else if exists|iteration: Iteration| #[trigger]
            crate::search::run::goes_unsaved(last, run.ending, run.closing, iteration, error) {
            let iteration = choose|iteration: Iteration| #[trigger]
                crate::search::run::goes_unsaved(last, run.ending, run.closing, iteration, error);
            lemma_iteration_carries(rows, last, iteration);
        } else {
            assert(run.ending =~= Seq::<BackendCall>::empty());
        }
    } else {
        lemma_both_flip_nothing(last.targets, last.controls, carried, run.ending);
    }
}

proof fn lemma_failed_iteration(
    rows: Set<PatchFlip>,
    last: SessionModel,
    calls: Seq<BackendCall>,
    asked: Seq<HostCall>,
    error: ErrorModel,
)
    requires
        crate::search::run::iteration_fails(last, calls, asked, error),
        !(error is RestorationFailed),
    ensures
        crate::backend::flipped(rows, calls) == rows,
{
    if exists|reply: Option<usize>| #[trigger]
        crate::search::run::fails_to_measure(last, reply, calls, asked, error) {
        let reply = choose|reply: Option<usize>| #[trigger]
            crate::search::run::fails_to_measure(last, reply, calls, asked, error);
        let pick = crate::search::run::pick_of(last, reply);
        law_evaluating_flips_the_row(
            last.taken(pick),
            rows,
            last.drawn(pick),
            calls,
            Err(error),
        );
    } else {
        let (reply, measured, reading, fitness, settled) = choose|
            reply: Option<usize>,
            measured: Seq<BackendCall>,
            reading: ReadingModel,
            fitness: Result<Binary32, ErrorModel>,
            settled: Seq<BackendCall>,
        |
            calls == measured + settled && #[trigger] crate::search::run::fails_to_settle(
                last,
                reply,
                measured,
                reading,
                fitness,
                settled,
                asked,
                error,
            );
        let pick = crate::search::run::pick_of(last, reply);
        let trying = last.taken(pick);
        law_evaluating_flips_the_row(trying, rows, last.drawn(pick), measured, Ok(reading));
        law_settling_flips_back_what_is_not_accepted(
            trying,
            rows,
            crate::search::state::worth(reading, fitness),
            settled,
            trying,
            Err(error),
        );
        crate::backend::lemma_flipped_concat(rows, measured, settled);
    }
}

/// The result of a new search: every iteration tried a row of its own, the ceiling is
/// kept, no row is in the patch twice, and the patch fits the model as it was before
/// the search, where the model kept its map while the search began.
pub proof fn law_new_search_gives_a_sound_result(setup: Setup, run: Run, result: ResultModel)
    requires
        setup.sight.map.complete(),
        setup.resume is None,
        run.completes(setup, result),
    ensures
        result.tried_candidates == result.completed_iterations,
        result.completed_iterations <= setup.config.max_iters,
        result.screened_out <= result.completed_iterations,
        result.patch.flips.no_duplicates(),
        result.patch.flips.len() <= result.completed_iterations,
        keeps_map(setup.sight.map, run.beginning) ==> result.patch.fault(
            setup.sight.map,
            (PatchValidation { allow_model_signature_mismatch: false }),
        ) is None,
{
    reveal(Setup::begins);
    reveal(Setup::measures);
    reveal(Setup::takes_up);
    reveal(crate::search::run::closes);
    reveal(crate::search::run::concluding);
    assert(run.begun.sound() && run.begun.consistent());
    lemma_iterations_keep(run.begun, run.iterations);
    let last = run.last();
    if keeps_map(setup.sight.map, run.beginning) {
        law_found_patch_fits(
            setup,
            run.beginning,
            run.begun,
            last,
            PatchValidation { allow_model_signature_mismatch: false },
        );
    }
    last.accepted.unique_seq_to_set();
    assert(last.accepted.to_set().subset_of(last.tried)) by {
        assert forall|flip: PatchFlip| last.accepted.to_set().contains(
            flip,
        ) implies last.tried.contains(flip) by {
            let i = choose|i: int| 0 <= i < last.accepted.len() && last.accepted[i] == flip;
            assert(last.tried.contains(last.accepted[i]));
        }
    }
    vstd::set_lib::lemma_len_subset(last.accepted.to_set(), last.tried);
}

} // verus!
