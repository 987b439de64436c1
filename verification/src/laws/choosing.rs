//! Which probes a candidate is screened with, which rows are on offer, and how they weigh.

use vstd::prelude::*;

use crate::architecture::Projection;
use crate::backend::{BackendCall, Sight};
use crate::error::ErrorModel;
use crate::float::Binary32;
use crate::patch::PatchFlip;
use crate::probe::MeasurementModel;
use crate::search::pool::Candidate;
use crate::search::state::SessionModel;

verus! {

proof fn lemma_rank_order(x: Binary32, y: Binary32)
    requires
        x.rank() <= y.rank(),
    ensures
        !x.exceeds(y),
        x.rank() == y.rank() ==> x.bits == y.bits,
{
    crate::float::lemma_magnitude_order(x.magnitude(), y.magnitude());
    crate::float::lemma_magnitude_order(y.magnitude(), x.magnitude());
}

/// Candidates are screened with as many targets as asked for, or with all where there are
/// fewer: with different ones, and with those that the model is worst at. No gap in the
/// screen is larger than a later one or than one that was left out.
pub proof fn law_screen_takes_the_worst_gaps(
    baseline: Seq<MeasurementModel>,
    count: nat,
    chosen: Seq<usize>,
)
    requires
        crate::search::screen::is_screen(baseline, count, chosen),
    ensures
        count <= baseline.len() ==> chosen.len() == count,
        count >= baseline.len() ==> chosen.len() == baseline.len(),
        forall|k: int| 0 <= k < chosen.len() ==> (#[trigger] chosen[k]) < baseline.len(),
        forall|k: int, l: int|
            0 <= k < l < chosen.len() ==> #[trigger] chosen[k] != #[trigger] chosen[l],
        forall|k: int, l: int|
            0 <= k < l < chosen.len() ==> !baseline[#[trigger] chosen[k] as int].gap.exceeds(
                baseline[#[trigger] chosen[l] as int].gap,
            ),
        forall|k: int, j: usize|
            0 <= k < chosen.len() && j < baseline.len() && !(#[trigger] chosen.contains(j))
                ==> !baseline[#[trigger] chosen[k] as int].gap.exceeds(baseline[j as int].gap),
        forall|k: int, l: int|
            0 <= k < l < chosen.len() ==> baseline[#[trigger] chosen[k] as int].gap.rank()
                <= baseline[#[trigger] chosen[l] as int].gap.rank(),
        forall|k: int, j: usize|
            0 <= k < chosen.len() && j < baseline.len() && !(#[trigger] chosen.contains(j))
                ==> baseline[#[trigger] chosen[k] as int].gap.rank()
                <= baseline[j as int].gap.rank(),
{
    crate::search::screen::lemma_screen_in_range(baseline, count, chosen);
    assert forall|k: int, l: int| 0 <= k < l < chosen.len() implies !baseline[
        #[trigger] chosen[k] as int
    ].gap.exceeds(baseline[#[trigger] chosen[l] as int].gap) by {
        assert(crate::search::screen::screens_before(
            baseline,
            chosen[k] as int,
            chosen[l] as int,
        ));
        lemma_rank_order(baseline[chosen[k] as int].gap, baseline[chosen[l] as int].gap);
    }
    assert forall|k: int, j: usize|
        0 <= k < chosen.len() && j < baseline.len() && !(#[trigger] chosen.contains(j)) implies !baseline[
        #[trigger] chosen[k] as int
    ].gap.exceeds(baseline[j as int].gap) by {
        assert(crate::search::screen::screens_before(baseline, chosen[k] as int, j as int));
        lemma_rank_order(baseline[chosen[k] as int].gap, baseline[j as int].gap);
    }
}

/// Of two targets with the same gap, the one whose name comes first is screened with
/// first, and of two with the same name too, the earlier one.
pub proof fn law_equal_gaps_are_screened_by_name(
    baseline: Seq<MeasurementModel>,
    count: nat,
    chosen: Seq<usize>,
    k: int,
    l: int,
)
    requires
        crate::search::screen::is_screen(baseline, count, chosen),
        0 <= k < l < chosen.len(),
        baseline[chosen[k] as int].gap == baseline[chosen[l] as int].gap,
    ensures
        ({
            let a = baseline[chosen[k] as int].name;
            let b = baseline[chosen[l] as int].name;
            if a == b {
                chosen[k] < chosen[l]
            } else {
                crate::text::text_before(a, b)
            }
        }),
{
    assert(crate::search::screen::screens_before(
        baseline,
        chosen[k] as int,
        chosen[l] as int,
    ));
}

/// A target that was left out has no smaller gap than those in the screen, and where it
/// has the same gap as one of them, no earlier name.
pub proof fn law_left_out_targets_come_later(
    baseline: Seq<MeasurementModel>,
    count: nat,
    chosen: Seq<usize>,
    k: int,
    j: usize,
)
    requires
        crate::search::screen::is_screen(baseline, count, chosen),
        0 <= k < chosen.len(),
        j < baseline.len(),
        !chosen.contains(j),
        baseline[chosen[k] as int].gap == baseline[j as int].gap,
    ensures
        ({
            let a = baseline[chosen[k] as int].name;
            let b = baseline[j as int].name;
            if a == b {
                chosen[k] < j
            } else {
                crate::text::text_before(a, b)
            }
        }),
{
    assert(crate::search::screen::screens_before(baseline, chosen[k] as int, j as int));
}

/// A row weighs what its scale is where that is a positive number, and else nothing.
pub proof fn law_rows_weigh_their_scales(scale: Binary32)
    ensures
        scale.finite() && scale.units() > 0 ==> crate::search::pool::weight_of(scale) == scale,
        !(scale.finite() && scale.units() > 0) ==> crate::search::pool::weight_of(scale).bits == 0,
        crate::search::pool::weight_of(scale).finite(),
        crate::search::pool::weight_of(scale).units() >= 0,
{
}

/// The rows on offer are those of the coordinates, one coordinate after the other, each
/// row of a coordinate in turn and with the weight of its own scale.
pub proof fn law_pool_lists_every_row(
    coordinates: Seq<(usize, Projection)>,
    calls: Seq<BackendCall>,
    call: BackendCall,
    scales: Seq<Binary32>,
)
    requires
        calls.len() < coordinates.len(),
        call is RowScales,
        call->RowScales_reply == Ok::<Seq<Binary32>, ErrorModel>(scales),
    ensures
        crate::search::pool::pool_of(coordinates, Seq::empty()) == Seq::<Candidate>::empty(),
        ({
            let before = crate::search::pool::pool_of(coordinates, calls);
            let after = crate::search::pool::pool_of(coordinates, calls.push(call));
            let coordinate = coordinates[calls.len() as int];
            &&& after.len() == before.len() + scales.len()
            &&& after.take(before.len() as int) == before
            &&& forall|row: usize|
                row < scales.len() ==> (#[trigger] after[before.len() + row]).flip == (PatchFlip {
                    layer: coordinate.0,
                    proj: coordinate.1,
                    row,
                })
            &&& forall|row: usize|
                row < scales.len() ==> (#[trigger] after[before.len() + row]).weight
                    == crate::search::pool::weight_of(scales[row as int])
        }),
{
    assert(calls.push(call).drop_last() =~= calls);
    let before = crate::search::pool::pool_of(coordinates, calls);
    let after = crate::search::pool::pool_of(coordinates, calls.push(call));
    assert(after.take(before.len() as int) =~= before);
}

/// The rows are on offer only once the model has given, for each coordinate in turn, as
/// many scales as it has rows there.
pub proof fn law_pool_needs_every_scale(
    first: Sight,
    coordinates: Seq<(usize, Projection)>,
    calls: Seq<BackendCall>,
)
    requires
        crate::search::pool::scale_requests(first, coordinates, calls),
        crate::search::pool::pool_outcome(first, coordinates, calls) is Ok,
    ensures
        calls.len() == coordinates.len(),
        crate::search::pool::pool_outcome(first, coordinates, calls)->Ok_0
            == crate::search::pool::pool_of(coordinates, calls),
        forall|i: int|
            0 <= i < calls.len() ==> {
                let shown = if i == 0 {
                    first.map
                } else {
                    calls[i - 1].sight().map
                };
                &&& (#[trigger] calls[i]) is RowScales
                &&& calls[i]->RowScales_layer == coordinates[i].0
                &&& calls[i]->RowScales_projection == coordinates[i].1
                &&& calls[i]->RowScales_reply is Ok
                &&& calls[i]->RowScales_reply->Ok_0.len() == shown.tensor(
                    coordinates[i].0 as nat,
                    coordinates[i].1,
                ).rows
            },
{
    assert forall|i: int| 0 <= i < calls.len() implies ({
        let shown = if i == 0 {
            first.map
        } else {
            calls[i - 1].sight().map
        };
        &&& (#[trigger] calls[i]) is RowScales
        &&& calls[i]->RowScales_layer == coordinates[i].0
        &&& calls[i]->RowScales_projection == coordinates[i].1
        &&& calls[i]->RowScales_reply is Ok
        &&& calls[i]->RowScales_reply->Ok_0.len() == shown.tensor(
            coordinates[i].0 as nat,
            coordinates[i].1,
        ).rows
    }) by {
        let shown = calls.take(i + 1);
        assert(shown.take(i) =~= calls.take(i));
        assert(shown.last() == calls[i]);
        if i > 0 {
            assert(calls.take(i).last() == calls[i - 1]);
        }
        if i + 1 == calls.len() {
            assert(shown =~= calls);
        }
        assert(crate::search::pool::scale_stop(first, coordinates, calls.take(i + 1)) is None);
    }
}

/// A reply that is an error, or that has another number of scales than the coordinate has
/// rows, is the last, and is what the search is refused for.
pub proof fn law_bad_scales_are_refused(
    first: Sight,
    coordinates: Seq<(usize, Projection)>,
    calls: Seq<BackendCall>,
    place: int,
)
    requires
        crate::search::pool::scale_requests(first, coordinates, calls),
        0 <= place < calls.len(),
    ensures
        ({
            let coordinate = coordinates[place];
            let shown = if place == 0 {
                first.map
            } else {
                calls[place - 1].sight().map
            };
            let rows = shown.tensor(coordinate.0 as nat, coordinate.1).rows;
            let reply = calls[place]->RowScales_reply;
            let outcome = crate::search::pool::pool_outcome(first, coordinates, calls);
            &&& reply is Err ==> place == calls.len() - 1 && outcome == Err::<
                Seq<Candidate>,
                ErrorModel,
            >(reply->Err_0)
            &&& reply is Ok && reply->Ok_0.len() != rows ==> place == calls.len() - 1 && outcome
                == Err::<Seq<Candidate>, ErrorModel>(
                ErrorModel::InvalidSearch(
                    crate::architecture::coordinate_text(coordinate.0 as nat, coordinate.1)
                        + " returned "@ + crate::text::decimal(reply->Ok_0.len())
                        + " scales for "@ + crate::text::decimal(rows) + " rows"@,
                ),
            )
        }),
{
    let shown = calls.take(place + 1);
    assert(shown.take(place) =~= calls.take(place));
    assert(shown.last() == calls[place]);
    if place > 0 {
        assert(calls.take(place).last() == calls[place - 1]);
    }
    if place + 1 == calls.len() {
        assert(shown =~= calls);
    } else {
        assert(crate::search::pool::scale_stop(first, coordinates, calls.take(place + 1)) is None);
    }
}

/// The rows on offer are exactly those that have not been tried, each once and in order.
pub proof fn law_untried_rows_are_on_offer(session: SessionModel, place: usize)
    requires
        session.pool.len() <= usize::MAX,
    ensures
        session.available().contains(place) <==> place < session.pool.len()
            && !session.tried.contains(session.pool[place as int].flip),
        forall|i: int, j: int|
            0 <= i < j < session.available().len() ==> (#[trigger] session.available()[i]) < (
            #[trigger] session.available()[j]),
{
    lemma_untried(session.pool, session.tried, session.pool.len(), place);
}

proof fn lemma_untried(pool: Seq<Candidate>, tried: Set<PatchFlip>, count: nat, place: usize)
    requires
        count <= pool.len() <= usize::MAX,
    ensures
        crate::search::state::untried(pool, tried, count).contains(place) <==> place < count
            && !tried.contains(pool[place as int].flip),
        forall|i: int|
            0 <= i < crate::search::state::untried(pool, tried, count).len() ==> (
            #[trigger] crate::search::state::untried(pool, tried, count)[i]) < count,
        forall|i: int, j: int|
            0 <= i < j < crate::search::state::untried(pool, tried, count).len() ==> (
            #[trigger] crate::search::state::untried(pool, tried, count)[i]) < (
            #[trigger] crate::search::state::untried(pool, tried, count)[j]),
    decreases count,
{
    if count > 0 {
        let less = crate::search::state::untried(pool, tried, (count - 1) as nat);
        let all = crate::search::state::untried(pool, tried, count);
        lemma_untried(pool, tried, (count - 1) as nat, place);
        if !tried.contains(pool[count - 1].flip) {
            assert(all == less.push((count - 1) as usize));
            assert(all[less.len() as int] == count - 1);
            if less.contains(place) {
                let k = less.index_of(place);
                assert(all[k] == place);
            }
            if all.contains(place) && place < count - 1 {
                let k = all.index_of(place);
                assert(less[k] == place);
            }
        }
    }
}

/// The weights that a row is drawn by are those of the rows on offer, in their order.
pub proof fn law_rows_on_offer_are_weighed(session: SessionModel, i: int)
    requires
        0 <= i < session.available().len(),
    ensures
        session.weights().len() == session.available().len(),
        session.weights()[i] == session.pool[session.available()[i] as int].weight,
{
}

/// A row is drawn with the first 53 of the 64 bits of the next random number.
pub proof fn law_tickets_are_cut_from_the_draw(session: SessionModel)
    ensures
        session.ticket() * 2048 <= session.rng.drawn(),
        session.rng.drawn() < (session.ticket() + 1) * 2048,
        session.ticket() < 0x20_0000_0000_0000,
{
}

/// A row that is drawn is one on offer: the one that was picked by weight, and without a
/// pick the one that the random number falls on. It counts as tried from then on, is the
/// one under trial, and uses up an iteration and a random number. All else stays.
pub proof fn law_drawn_rows_are_taken(session: SessionModel, pick: Option<usize>)
    requires
        session.pool.len() <= usize::MAX,
        session.available().len() > 0,
        pick matches Some(place) ==> place < session.available().len(),
    ensures
        ({
            let flip = session.drawn(pick);
            let after = session.taken(pick);
            &&& !session.tried.contains(flip)
            &&& exists|k: int| 0 <= k < session.pool.len() && (#[trigger] session.pool[k]).flip
                == flip
            &&& pick matches Some(place) ==> flip
                == session.pool[session.available()[place as int] as int].flip
            &&& pick is None && session.rng.drawn() <= usize::MAX ==> flip
                == session.pool[session.available()[session.rng.drawn() as int
                % session.available().len() as int] as int].flip
            &&& after.pending == Some(flip)
            &&& forall|other: PatchFlip| #[trigger]
                after.tried.contains(other) <==> session.tried.contains(other) || other == flip
            &&& after.completed_iterations == session.completed_iterations + 1
            &&& after.rng.state == (session.rng.state + 0x9e37_79b9_7f4a_7c15)
                % 0x1_0000_0000_0000_0000
            &&& after.accepted == session.accepted
            &&& after.current_fitness == session.current_fitness
            &&& after.screened_out == session.screened_out
            &&& after.pool == session.pool
            &&& after.screen == session.screen
            &&& after.config == session.config
            &&& after.targets == session.targets
            &&& after.controls == session.controls
            &&& after.target_baseline == session.target_baseline
            &&& after.control_baseline == session.control_baseline
            &&& after.architecture_signature == session.architecture_signature
            &&& after.model_label == session.model_label
        }),
{
    crate::laws::numbers::law_draws_follow_splitmix(session.rng);
    let available = session.available();
    let at = match pick {
        Some(place) => place as int,
        None => (session.rng.drawn() as usize) as int % available.len() as int,
    };
    assert(0 <= at < available.len());
    assert(available.contains(available[at]));
    law_untried_rows_are_on_offer(session, available[at]);
    assert(session.pool[available[at] as int].flip == session.drawn(pick));
}

} // verus!
