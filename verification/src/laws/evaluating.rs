//! What is measured of a candidate, and when it is passed over.

use vstd::prelude::*;

use crate::backend::BackendCall;
use crate::error::ErrorModel;
use crate::float::Binary32;
use crate::probe::{CompiledModel, MeasurementModel};
use crate::search::evaluate::{ReadingModel, Trial};

verus! {

/// The model was asked for the gap of the probe.
pub open spec fn asked(call: BackendCall, probe: CompiledModel) -> bool {
    &&& call is LogitGap
    &&& call->LogitGap_prompt == probe.prompt_tokens
    &&& call->correct == probe.correct_id
    &&& call->wrong == probe.wrong_id
}

/// The model was asked for the gap of the probe, and gave it.
pub open spec fn replied(call: BackendCall, probe: CompiledModel, gap: Binary32) -> bool {
    asked(call, probe) && call->LogitGap_reply == Ok::<Binary32, ErrorModel>(gap)
}

/// The gap is finite and larger than the one that the baseline has, last of all, for a
/// probe of the name.
pub open spec fn beats(baseline: Seq<MeasurementModel>, name: Seq<char>, gap: Binary32) -> bool {
    gap.finite() && exists|j: int|
        0 <= j < baseline.len() && (#[trigger] baseline[j]).name == name && !baseline[j].gap.nan()
            && gap.units() > baseline[j].gap.units() && forall|l: int|
            j < l < baseline.len() ==> (#[trigger] baseline[l]).name != name
}

/// The gap that a baseline has for a name is that of its last measurement of the name.
pub proof fn law_last_gap_counts(baseline: Seq<MeasurementModel>, name: Seq<char>)
    ensures
        crate::search::evaluate::gap_of(baseline, name) matches Some(gap) ==> exists|j: int|
            0 <= j < baseline.len() && (#[trigger] baseline[j]).name == name && baseline[j].gap
                == gap && forall|l: int|
                j < l < baseline.len() ==> (#[trigger] baseline[l]).name != name,
        crate::search::evaluate::gap_of(baseline, name) is None ==> forall|j: int|
            0 <= j < baseline.len() ==> (#[trigger] baseline[j]).name != name,
    decreases baseline.len(),
{
    if baseline.len() > 0 {
        let less = baseline.drop_last();
        law_last_gap_counts(less, name);
        if baseline.last().name == name {
            assert(baseline[baseline.len() - 1].name == name);
        } else {
            if crate::search::evaluate::gap_of(less, name) is Some {
                let j = choose|j: int|
                    0 <= j < less.len() && (#[trigger] less[j]).name == name && less[j].gap
                        == crate::search::evaluate::gap_of(less, name)->Some_0 && forall|l: int|
                        j < l < less.len() ==> (#[trigger] less[l]).name != name;
                assert(baseline[j] == less[j]);
                assert forall|l: int| j < l < baseline.len() implies (#[trigger] baseline[l]).name
                    != name by {
                    if l < less.len() {
                        assert(baseline[l] == less[l]);
                    }
                }
            } else {
                assert forall|j: int| 0 <= j < baseline.len() implies (#[trigger] baseline[j]).name
                    != name by {
                    if j < less.len() {
                        assert(baseline[j] == less[j]);
                    }
                }
            }
        }
    }
}

proof fn lemma_improves(baseline: Seq<MeasurementModel>, measurement: MeasurementModel)
    ensures
        crate::search::evaluate::improves(baseline, measurement) <==> beats(
            baseline,
            measurement.name,
            measurement.gap,
        ),
{
    let name = measurement.name;
    law_last_gap_counts(baseline, name);
    if beats(baseline, name, measurement.gap) {
        let i = choose|j: int|
            0 <= j < baseline.len() && (#[trigger] baseline[j]).name == name
                && !baseline[j].gap.nan() && measurement.gap.units() > baseline[j].gap.units()
                && forall|l: int| j < l < baseline.len() ==> (#[trigger] baseline[l]).name != name;
        assert(baseline[i].name == name);
        let gap = crate::search::evaluate::gap_of(baseline, name)->Some_0;
        let j = choose|j: int|
            0 <= j < baseline.len() && (#[trigger] baseline[j]).name == name && baseline[j].gap
                == gap && forall|l: int|
                j < l < baseline.len() ==> (#[trigger] baseline[l]).name != name;
        assert(i == j);
    }
}

/// How many places below `count` are among those taken.
spec fn hits(taken: Seq<usize>, count: nat) -> nat
    decreases count,
{
    if count == 0 {
        0
    } else {
        hits(taken, (count - 1) as nat) + if taken.contains((count - 1) as usize) {
            1nat
        } else {
            0nat
        }
    }
}

proof fn lemma_one_more_hit(taken: Seq<usize>, place: usize, count: nat)
    requires
        !taken.contains(place),
        count <= usize::MAX,
    ensures
        hits(taken.push(place), count) == hits(taken, count) + if place < count {
            1nat
        } else {
            0nat
        },
    decreases count,
{
    if count > 0 {
        lemma_one_more_hit(taken, place, (count - 1) as nat);
        let last = (count - 1) as usize;
        let more = taken.push(place);
        if taken.contains(last) {
            let k = taken.index_of(last);
            assert(more[k] == last);
        }
        if last == place {
            assert(more[taken.len() as int] == place);
        }
        if more.contains(last) && last != place {
            let k = more.index_of(last);
            assert(taken[k] == last);
        }
    }
}

proof fn lemma_all_hit(taken: Seq<usize>, count: nat)
    requires
        taken.no_duplicates(),
        count <= usize::MAX,
        forall|k: int| 0 <= k < taken.len() ==> (#[trigger] taken[k]) < count,
    ensures
        hits(taken, count) == taken.len(),
    decreases taken.len(),
{
    if taken.len() > 0 {
        let less = taken.drop_last();
        lemma_all_hit(less, count);
        if less.contains(taken.last()) {
            let k = less.index_of(taken.last());
            assert(taken[k] == taken.last());
        }
        lemma_one_more_hit(less, taken.last(), count);
        assert(less.push(taken.last()) =~= taken);
    } else {
        lemma_none_hit(taken, count);
    }
}

proof fn lemma_none_hit(taken: Seq<usize>, count: nat)
    requires
        taken.len() == 0,
    ensures
        hits(taken, count) == 0,
    decreases count,
{
    if count > 0 {
        lemma_none_hit(taken, (count - 1) as nat);
    }
}

proof fn lemma_others_count(taken: Seq<usize>, count: nat)
    requires
        count <= usize::MAX,
    ensures
        crate::search::evaluate::others(taken, count).len() + hits(taken, count) == count,
    decreases count,
{
    if count > 0 {
        lemma_others_count(taken, (count - 1) as nat);
    }
}

/// The screen is a choice among the targets.
pub open spec fn well_screened(trial: Trial) -> bool {
    &&& trial.targets.len() <= usize::MAX
    &&& trial.screen.len() > 0
    &&& trial.screen.no_duplicates()
    &&& forall|k: int|
        0 <= k < trial.screen.len() ==> (#[trigger] trial.screen[k]) < trial.targets.len()
}

/// Every probe of the screen was asked for first, in order, and the model gave all the
/// gaps.
pub open spec fn screen_answered(trial: Trial, calls: Seq<BackendCall>) -> bool {
    &&& calls.len() >= trial.screen.len()
    &&& forall|k: int|
        0 <= k < trial.screen.len() ==> (#[trigger] calls[k])->LogitGap_reply is Ok
}

/// Some probe of the screen beats the baseline.
pub open spec fn screen_beats(trial: Trial, calls: Seq<BackendCall>) -> bool {
    exists|k: int|
        0 <= k < trial.screen.len() && beats(
            trial.baseline,
            trial.targets[trial.screen[k] as int].probe.name,
            (#[trigger] calls[k])->LogitGap_reply->Ok_0,
        )
}

/// The screen is put to the model first, each of its probes by its own tokens, and no
/// probe twice.
pub proof fn law_screen_is_asked_first(trial: Trial, calls: Seq<BackendCall>)
    requires
        well_screened(trial),
        trial.requests(calls),
    ensures
        calls.len() > 0,
        forall|k: int|
            0 <= k < trial.screen.len() && k < calls.len() ==> asked(
                #[trigger] calls[k],
                trial.targets[trial.screen[k] as int],
            ),
        !screen_answered(trial, calls) ==> calls.len() <= trial.screen.len()
            && calls.last()->LogitGap_reply is Err && trial.outcome(calls) == Err::<
            ReadingModel,
            ErrorModel,
        >(calls.last()->LogitGap_reply->Err_0),
{
    reveal(Trial::requests);
    reveal(Trial::outcome);
    let n = trial.screen.len();
    let screen = crate::backend::head(calls, n);
    assert(trial.screened().len() == n);
    assert(forall|k: int| 0 <= k < screen.len() ==> #[trigger] calls[k] == screen[k]);
    if !screen_answered(trial, calls) {
        if calls.len() >= n {
            assert(screen.len() == n);
            let k = choose|k: int| 0 <= k < n && !((#[trigger] calls[k])->LogitGap_reply is Ok);
            assert(crate::probe::gap_reply(screen[k]) is Err);
            assert(k == n - 1);
        }
        assert(screen.last() == calls[screen.len() - 1]);
    }
}

/// A candidate is screened out exactly if no probe of the screen beats the baseline: then
/// nothing else is measured. Where one does, the other targets and the controls are
/// measured as well.
pub proof fn law_one_better_probe_passes_the_screen(trial: Trial, calls: Seq<BackendCall>)
    requires
        well_screened(trial),
        trial.requests(calls),
        screen_answered(trial, calls),
    ensures
        trial.outcome(calls) == Ok::<ReadingModel, ErrorModel>(ReadingModel::ScreenedOut)
            <==> !screen_beats(trial, calls),
        !screen_beats(trial, calls) ==> calls.len() == trial.screen.len(),
        screen_beats(trial, calls) && trial.outcome(calls) is Ok ==> calls.len()
            == trial.targets.len() + trial.controls.len() && trial.controls.len() > 0,
        screen_beats(trial, calls) && trial.outcome(calls) is Err ==> {
            ||| trial.controls.len() == 0 && trial.outcome(calls) == Err::<
                ReadingModel,
                ErrorModel,
            >(ErrorModel::EmptyProbeSet)
            ||| trial.outcome(calls) == Err::<ReadingModel, ErrorModel>(
                calls.last()->LogitGap_reply->Err_0,
            ) && calls.last()->LogitGap_reply is Err && calls.len() > trial.screen.len()
        },
{
    reveal(Trial::requests);
    reveal(Trial::outcome);
    lemma_stages(trial, calls);
}

spec fn screen_calls(trial: Trial, calls: Seq<BackendCall>) -> Seq<BackendCall> {
    crate::backend::head(calls, trial.screen.len())
}

spec fn later_calls(trial: Trial, calls: Seq<BackendCall>) -> Seq<BackendCall> {
    crate::backend::tail(calls, trial.screen.len())
}

spec fn rest_calls(trial: Trial, calls: Seq<BackendCall>) -> Seq<BackendCall> {
    crate::backend::head(later_calls(trial, calls), trial.unscreened().len())
}

spec fn control_calls(trial: Trial, calls: Seq<BackendCall>) -> Seq<BackendCall> {
    crate::backend::tail(later_calls(trial, calls), trial.unscreened().len())
}

/// The requests of a candidate fall into those of the screen, of the other targets and
/// of the controls.
proof fn lemma_stages(trial: Trial, calls: Seq<BackendCall>)
    requires
        well_screened(trial),
        trial.requests(calls),
        screen_answered(trial, calls),
    ensures
        trial.screened().len() == trial.screen.len(),
        trial.unscreened().len() + trial.screen.len() == trial.targets.len(),
        screen_calls(trial, calls).len() == trial.screen.len(),
        crate::probe::gap_requests(trial.screened(), screen_calls(trial, calls)),
        ({
            let first = crate::probe::gap_outcome(trial.screened(), screen_calls(trial, calls));
            &&& first is Ok
            &&& crate::search::evaluate::any_improves(trial.baseline, first->Ok_0) <==> screen_beats(
                trial,
                calls,
            )
        }),
        calls == screen_calls(trial, calls) + rest_calls(trial, calls) + control_calls(
            trial,
            calls,
        ),
        !screen_beats(trial, calls) ==> calls.len() == trial.screen.len(),
        screen_beats(trial, calls) ==> {
            let rest = rest_calls(trial, calls);
            let control = control_calls(trial, calls);
            let second = crate::search::evaluate::any_gap_outcome(trial.unscreened(), rest);
            &&& crate::probe::gap_requests(trial.unscreened(), rest)
            &&& second is Ok ==> rest.len() == trial.unscreened().len()
                && crate::probe::gap_requests(trial.controls, control)
            &&& second is Err ==> control.len() == 0 && rest.len() > 0 && second->Err_0
                == crate::probe::gap_reply(rest.last())->Err_0 && crate::probe::gap_reply(
                rest.last(),
            ) is Err
        },
{
    reveal(Trial::requests);
    reveal(Trial::outcome);
    let n = trial.screen.len();
    lemma_others_count(trial.screen, trial.targets.len());
    lemma_all_hit(trial.screen, trial.targets.len());
    let screen = screen_calls(trial, calls);
    let later = later_calls(trial, calls);
    let rest = rest_calls(trial, calls);
    let control = control_calls(trial, calls);
    assert(trial.screened().len() == n);
    assert(screen.len() == n);
    assert(screen.last() == calls[n - 1]);
    assert(calls =~= screen + later);
    assert(later =~= rest + control);
    assert(calls =~= screen + rest + control);
    let first = crate::probe::gap_outcome(trial.screened(), screen);
    assert(first is Ok);
    let gaps = first->Ok_0;
    assert forall|k: int| 0 <= k < n implies (#[trigger] gaps[k]).name
        == trial.targets[trial.screen[k] as int].probe.name && gaps[k].gap
        == calls[k]->LogitGap_reply->Ok_0 by {
        assert(screen[k] == calls[k]);
        assert(trial.screened()[k] == trial.targets[trial.screen[k] as int]);
    }
    if crate::search::evaluate::any_improves(trial.baseline, gaps) {
        let k = choose|k: int|
            0 <= k < gaps.len() && crate::search::evaluate::improves(
                trial.baseline,
                #[trigger] gaps[k],
            );
        lemma_improves(trial.baseline, gaps[k]);
        assert(beats(
            trial.baseline,
            trial.targets[trial.screen[k] as int].probe.name,
            calls[k]->LogitGap_reply->Ok_0,
        ));
        assert(screen_beats(trial, calls));
    }
    if screen_beats(trial, calls) {
        let k = choose|k: int|
            0 <= k < trial.screen.len() && beats(
                trial.baseline,
                trial.targets[trial.screen[k] as int].probe.name,
                (#[trigger] calls[k])->LogitGap_reply->Ok_0,
            );
        lemma_improves(trial.baseline, gaps[k]);
        assert(crate::search::evaluate::improves(trial.baseline, gaps[k]));
    }
}

/// The gaps of a candidate that was measured are those that the model gave: for the
/// probes of the screen at once, for the other targets and the controls after them. They
/// stand in the order of the probes, under the names of the probes, and all are finite.
pub proof fn law_readings_hold_the_gaps_given(trial: Trial, calls: Seq<BackendCall>)
    requires
        well_screened(trial),
        trial.requests(calls),
        trial.outcome(calls) is Ok,
        trial.outcome(calls)->Ok_0 is Measured,
    ensures
        ({
            let target = trial.outcome(calls)->Ok_0->target;
            let control = trial.outcome(calls)->Ok_0->control;
            &&& target.len() == trial.targets.len()
            &&& control.len() == trial.controls.len()
            &&& calls.len() == target.len() + control.len()
            &&& screen_answered(trial, calls) && screen_beats(trial, calls)
            &&& forall|k: int|
                #![trigger trial.screen[k]]
                0 <= k < trial.screen.len() ==> replied(
                    calls[k],
                    trial.targets[trial.screen[k] as int],
                    target[trial.screen[k] as int].gap,
                )
            &&& forall|i: int|
                0 <= i < target.len() ==> exists|c: int|
                    #![trigger calls[c]]
                    0 <= c < target.len() && replied(
                        calls[c],
                        trial.targets[i],
                        (#[trigger] target[i]).gap,
                    )
            &&& forall|j: int|
                0 <= j < control.len() ==> replied(
                    calls[trial.targets.len() + j],
                    trial.controls[j],
                    (#[trigger] control[j]).gap,
                )
            &&& forall|i: int|
                0 <= i < target.len() ==> (#[trigger] target[i]).gap.finite() && target[i].name
                    == trial.targets[i].probe.name
            &&& forall|j: int|
                0 <= j < control.len() ==> (#[trigger] control[j]).gap.finite() && control[j].name
                    == trial.controls[j].probe.name
        }),
{
    if !screen_answered(trial, calls) {
        law_screen_is_asked_first(trial, calls);
    }
    lemma_stages(trial, calls);
    lemma_gaps_given(trial, calls);
    reveal(Trial::outcome);
    let target = trial.outcome(calls)->Ok_0->target;
    let control = trial.outcome(calls)->Ok_0->control;
    assert forall|i: int| 0 <= i < target.len() implies (#[trigger] target[i]).gap.finite()
        && target[i].name == trial.targets[i].probe.name && exists|c: int|
        #![trigger calls[c]]
        0 <= c < target.len() && replied(calls[c], trial.targets[i], target[i].gap) by {
        let c = lemma_target_given(trial, calls, i);
        assert(replied(calls[c], trial.targets[i], target[i].gap));
    }
    assert forall|k: int|
        #![trigger trial.screen[k]]
        0 <= k < trial.screen.len() implies replied(
        calls[k],
        trial.targets[trial.screen[k] as int],
        target[trial.screen[k] as int].gap,
    ) by {
        let c = lemma_target_given(trial, calls, trial.screen[k] as int);
        assert(trial.screen.contains(trial.screen[k]));
        assert(trial.screen.index_of(trial.screen[k]) == k);
    }
}

/// A candidate of which everything was asked is measured exactly if all gaps are finite.
pub proof fn law_non_finite_gaps_spoil_the_reading(trial: Trial, calls: Seq<BackendCall>)
    requires
        well_screened(trial),
        trial.requests(calls),
        screen_answered(trial, calls),
        screen_beats(trial, calls),
        trial.outcome(calls) is Ok,
    ensures
        trial.outcome(calls)->Ok_0 is Measured || trial.outcome(calls)->Ok_0 is NonFinite,
        trial.outcome(calls)->Ok_0 is Measured <==> forall|c: int|
            0 <= c < calls.len() ==> (#[trigger] calls[c])->LogitGap_reply is Ok
                && calls[c]->LogitGap_reply->Ok_0.finite(),
{
    reveal(Trial::outcome);
    lemma_stages(trial, calls);
    lemma_gaps_given(trial, calls);
    let first = crate::probe::gap_outcome(trial.screened(), screen_calls(trial, calls))->Ok_0;
    let second = crate::search::evaluate::any_gap_outcome(
        trial.unscreened(),
        rest_calls(trial, calls),
    )->Ok_0;
    let control = crate::probe::gap_outcome(trial.controls, control_calls(trial, calls))->Ok_0;
    let target = crate::search::evaluate::merged(
        trial.targets.len(),
        trial.screen,
        first,
        second,
    );
    let n = trial.screen.len() as int;
    let t = trial.targets.len() as int;
    if trial.outcome(calls)->Ok_0 is Measured {
        assert forall|c: int| 0 <= c < calls.len() implies (
        #[trigger] calls[c])->LogitGap_reply is Ok && calls[c]->LogitGap_reply->Ok_0.finite() by {
            if c < n {
                let i = trial.screen[c] as int;
                assert(trial.screen.contains(trial.screen[c]));
                assert(trial.screen.index_of(trial.screen[c]) == c);
                assert(target[i] == first[c]);
                assert(target[i].gap.finite());
            } else if c < t {
                let k = c - n;
                let places = crate::search::evaluate::others(trial.screen, trial.targets.len());
                lemma_others_back(trial.screen, trial.targets.len(), k);
                let i = places[k] as int;
                assert(target[i] == second[k]);
                assert(target[i].gap.finite());
            } else {
                assert(control[c - t].gap.finite());
            }
        }
    }
    if forall|c: int|
        0 <= c < calls.len() ==> (#[trigger] calls[c])->LogitGap_reply is Ok
            && calls[c]->LogitGap_reply->Ok_0.finite() {
        assert forall|i: int| 0 <= i < target.len() implies (#[trigger] target[i]).gap.finite() by {
            let c = lemma_target_given(trial, calls, i);
            assert(calls[c]->LogitGap_reply->Ok_0.finite());
        }
        assert forall|j: int| 0 <= j < control.len() implies (
        #[trigger] control[j]).gap.finite() by {
            assert(calls[t + j]->LogitGap_reply->Ok_0.finite());
        }
    }
}

/// Where each of the other places comes from.
proof fn lemma_others_back(taken: Seq<usize>, count: nat, k: int)
    requires
        count <= usize::MAX,
        0 <= k < crate::search::evaluate::others(taken, count).len(),
    ensures
        ({
            let place = crate::search::evaluate::others(taken, count)[k];
            &&& place < count
            &&& !taken.contains(place)
            &&& crate::search::evaluate::others(taken, place as nat).len() == k
        }),
    decreases count,
{
    if count > 0 {
        let less = crate::search::evaluate::others(taken, (count - 1) as nat);
        if k < less.len() {
            lemma_others_back(taken, (count - 1) as nat, k);
        }
    }
}

/// What the stages of a fully measured candidate hold.
proof fn lemma_gaps_given(trial: Trial, calls: Seq<BackendCall>)
    requires
        well_screened(trial),
        trial.requests(calls),
        screen_answered(trial, calls),
        trial.outcome(calls) is Ok,
        !(trial.outcome(calls)->Ok_0 is ScreenedOut),
    ensures
        screen_beats(trial, calls),
        calls.len() == trial.targets.len() + trial.controls.len(),
        ({
            let first = crate::probe::gap_outcome(
                trial.screened(),
                screen_calls(trial, calls),
            )->Ok_0;
            let second = crate::search::evaluate::any_gap_outcome(
                trial.unscreened(),
                rest_calls(trial, calls),
            )->Ok_0;
            let control = crate::probe::gap_outcome(
                trial.controls,
                control_calls(trial, calls),
            )->Ok_0;
            &&& first.len() == trial.screen.len()
            &&& second.len() == trial.unscreened().len()
            &&& control.len() == trial.controls.len()
            &&& forall|k: int|
                0 <= k < first.len() ==> replied(
                    calls[k],
                    trial.screened()[k],
                    (#[trigger] first[k]).gap,
                ) && first[k].name == trial.screened()[k].probe.name
            &&& forall|k: int|
                0 <= k < second.len() ==> replied(
                    calls[trial.screen.len() + k],
                    trial.unscreened()[k],
                    (#[trigger] second[k]).gap,
                ) && second[k].name == trial.unscreened()[k].probe.name
            &&& forall|j: int|
                0 <= j < control.len() ==> replied(
                    calls[trial.targets.len() + j],
                    trial.controls[j],
                    (#[trigger] control[j]).gap,
                ) && control[j].name == trial.controls[j].probe.name
        }),
{
    reveal(Trial::outcome);
    lemma_stages(trial, calls);
    let screen = screen_calls(trial, calls);
    let rest = rest_calls(trial, calls);
    let third = control_calls(trial, calls);
    let first = crate::probe::gap_outcome(trial.screened(), screen)->Ok_0;
    let second = crate::search::evaluate::any_gap_outcome(trial.unscreened(), rest)->Ok_0;
    let control = crate::probe::gap_outcome(trial.controls, third)->Ok_0;
    assert(screen_beats(trial, calls));
    assert(third.len() == trial.controls.len());
    lemma_gap_outcome(trial.screened(), screen);
    if trial.unscreened().len() > 0 {
        lemma_gap_outcome(trial.unscreened(), rest);
    }
    lemma_gap_outcome(trial.controls, third);
    assert forall|k: int| 0 <= k < first.len() implies replied(
        calls[k],
        trial.screened()[k],
        (#[trigger] first[k]).gap,
    ) && first[k].name == trial.screened()[k].probe.name by {
        assert(calls[k] == screen[k]);
    }
    assert forall|k: int| 0 <= k < second.len() implies replied(
        calls[trial.screen.len() + k],
        trial.unscreened()[k],
        (#[trigger] second[k]).gap,
    ) && second[k].name == trial.unscreened()[k].probe.name by {
        assert(calls[trial.screen.len() + k] == rest[k]);
    }
    assert forall|j: int| 0 <= j < control.len() implies replied(
        calls[trial.targets.len() + j],
        trial.controls[j],
        (#[trigger] control[j]).gap,
    ) && control[j].name == trial.controls[j].probe.name by {
        assert(calls[trial.targets.len() + j] == third[j]);
    }
}

proof fn lemma_gap_outcome(probes: Seq<CompiledModel>, calls: Seq<BackendCall>)
    requires
        crate::probe::gap_requests(probes, calls),
        crate::probe::gap_outcome(probes, calls) is Ok,
    ensures
        calls.len() == probes.len(),
        crate::probe::gap_outcome(probes, calls)->Ok_0.len() == probes.len(),
        forall|i: int|
            0 <= i < probes.len() ==> replied(
                #[trigger] calls[i],
                probes[i],
                crate::probe::gap_outcome(probes, calls)->Ok_0[i].gap,
            ) && crate::probe::gap_outcome(probes, calls)->Ok_0[i].name == probes[i].probe.name,
{
    assert(calls.len() == probes.len());
    assert(calls.last() == calls[calls.len() - 1]);
    assert forall|i: int| 0 <= i < probes.len() implies replied(
        #[trigger] calls[i],
        probes[i],
        crate::probe::gap_outcome(probes, calls)->Ok_0[i].gap,
    ) && crate::probe::gap_outcome(probes, calls)->Ok_0[i].name == probes[i].probe.name by {
        assert(crate::probe::gap_reply(calls[i]) is Ok);
    }
}

/// The call that gave the gap of a target.
proof fn lemma_target_given(trial: Trial, calls: Seq<BackendCall>, i: int) -> (c: int)
    requires
        well_screened(trial),
        trial.requests(calls),
        screen_answered(trial, calls),
        trial.outcome(calls) is Ok,
        !(trial.outcome(calls)->Ok_0 is ScreenedOut),
        0 <= i < trial.targets.len(),
    ensures
        0 <= c < trial.targets.len(),
        ({
            let first = crate::probe::gap_outcome(
                trial.screened(),
                screen_calls(trial, calls),
            )->Ok_0;
            let second = crate::search::evaluate::any_gap_outcome(
                trial.unscreened(),
                rest_calls(trial, calls),
            )->Ok_0;
            let target = crate::search::evaluate::merged(
                trial.targets.len(),
                trial.screen,
                first,
                second,
            );
            &&& replied(calls[c], trial.targets[i], target[i].gap)
            &&& target[i].name == trial.targets[i].probe.name
        }),
        trial.screen.contains(i as usize) ==> c == trial.screen.index_of(i as usize),
{
    lemma_stages(trial, calls);
    lemma_gaps_given(trial, calls);
    let first = crate::probe::gap_outcome(trial.screened(), screen_calls(trial, calls))->Ok_0;
    let second = crate::search::evaluate::any_gap_outcome(
        trial.unscreened(),
        rest_calls(trial, calls),
    )->Ok_0;
    let place = i as usize;
    if trial.screen.contains(place) {
        let k = trial.screen.index_of(place);
        assert(trial.screen[k] == place);
        assert(replied(calls[k], trial.screened()[k], first[k].gap));
        k
    } else {
        crate::search::evaluate::lemma_other_found(trial.screen, trial.targets.len(), place);
        let k = crate::search::evaluate::others(trial.screen, place as nat).len() as int;
        assert(trial.unscreened()[k] == trial.targets[i]);
        assert(replied(
            calls[trial.screen.len() + k],
            trial.unscreened()[k],
            second[k].gap,
        ));
        trial.screen.len() + k
    }
}

/// The other targets are exactly those that the screen leaves out, in their order.
pub proof fn law_other_targets_are_in_order(taken: Seq<usize>, count: nat, place: usize)
    requires
        count <= usize::MAX,
    ensures
        crate::search::evaluate::others(taken, count).contains(place) <==> place < count
            && !taken.contains(place),
        forall|i: int, j: int|
            0 <= i < j < crate::search::evaluate::others(taken, count).len() ==> (
            #[trigger] crate::search::evaluate::others(taken, count)[i]) < (
            #[trigger] crate::search::evaluate::others(taken, count)[j]),
    decreases count,
{
    let all = crate::search::evaluate::others(taken, count);
    if count > 0 {
        let less = crate::search::evaluate::others(taken, (count - 1) as nat);
        law_other_targets_are_in_order(taken, (count - 1) as nat, place);
        assert forall|k: int| 0 <= k < less.len() implies (#[trigger] less[k]) < count - 1 by {
            lemma_others_back(taken, (count - 1) as nat, k);
        }
        if !taken.contains((count - 1) as usize) {
            assert(all == less.push((count - 1) as usize));
            assert(all[less.len() as int] == count - 1);
            if less.contains(place) {
                let k = less.index_of(place);
                assert(all[k] == place);
            }
            if all.contains(place) && place < count - 1 {
                let k = all.index_of(place);
                assert(less[k] == place);
            }
        }
    }
}

/// Once the screen is passed, the other targets are asked for in their order, and after
/// them the controls in theirs, as far as the model answers.
pub proof fn law_the_rest_is_asked_in_order(trial: Trial, calls: Seq<BackendCall>)
    requires
        well_screened(trial),
        trial.requests(calls),
        screen_answered(trial, calls),
        screen_beats(trial, calls),
    ensures
        ({
            let n = trial.screen.len() as int;
            let t = trial.targets.len() as int;
            let places = crate::search::evaluate::others(trial.screen, trial.targets.len());
            &&& places.len() == t - n
            &&& calls.len() <= t + trial.controls.len()
            &&& forall|c: int|
                n <= c < calls.len() && c < t ==> asked(
                    #[trigger] calls[c],
                    trial.targets[places[c - n] as int],
                )
            &&& forall|c: int|
                t <= c < calls.len() ==> asked(#[trigger] calls[c], trial.controls[c - t])
            &&& calls.len() < t + trial.controls.len() ==> trial.outcome(calls) is Err
        }),
{
    reveal(Trial::outcome);
    lemma_stages(trial, calls);
    let n = trial.screen.len() as int;
    let t = trial.targets.len() as int;
    let rest = rest_calls(trial, calls);
    let control = control_calls(trial, calls);
    let places = crate::search::evaluate::others(trial.screen, trial.targets.len());
    assert forall|c: int| n <= c < calls.len() && c < t implies asked(
        #[trigger] calls[c],
        trial.targets[places[c - n] as int],
    ) by {
        assert(c - n < rest.len());
        assert(calls[c] == rest[c - n]);
        assert(trial.unscreened()[c - n].asks(rest[c - n]));
    }
    assert forall|c: int| t <= c < calls.len() implies asked(
        #[trigger] calls[c],
        trial.controls[c - t],
    ) by {
        assert(calls[c] == control[c - t]);
        assert(trial.controls[c - t].asks(control[c - t]));
    }
}

} // verus!
