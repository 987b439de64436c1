//! What a model does with and without a patch.

use vstd::prelude::*;

use crate::backend::{BackendCall, GenerateConfig};
use crate::error::ErrorModel;
use crate::patch::PatchFlip;
use crate::patched::Course;
use crate::probe::{CompiledModel, MeasurementModel};

verus! {

/// What was done on a patched model counts once the patch is removed. Where it cannot be
/// removed, that is reported, whatever was done.
pub proof fn law_removal_comes_first<T>(
    operation: Result<T, ErrorModel>,
    removal: Result<(), ErrorModel>,
    name: Seq<char>,
)
    ensures
        removal is Ok ==> crate::patched::finished(operation, removal, name) == operation,
        removal matches Err(source) ==> crate::patched::finished(operation, removal, name) == Err::<
            T,
            ErrorModel,
        >(ErrorModel::RestorationFailed { operation: name, source: Box::new(source) }),
{
}

proof fn lemma_states(
    rows: Set<PatchFlip>,
    flips: Seq<PatchFlip>,
    plain: Seq<BackendCall>,
    applying: Seq<BackendCall>,
)
    requires
        forall|i: int| 0 <= i < plain.len() ==> !(#[trigger] plain[i] is FlipRow),
        crate::restore::applies(flips, "patch application"@, applying, Ok(())),
    ensures
        crate::backend::flipped(rows, plain) == rows,
        crate::backend::flipped(rows, plain + applying) == crate::patch::toggled_all(rows, flips),
{
    crate::backend::lemma_flipped_unchanged(rows, plain);
    crate::backend::lemma_flipped_concat(rows, plain, applying);
    crate::restore::law_applied_rows_are_flipped(rows, flips, applying);
}

/// Probes are compared by measuring all of them on the model as it is, and again with
/// exactly the rows of the patch flipped. The first gaps are those without the patch, the
/// second those with it.
pub proof fn law_probes_are_measured_without_and_with_the_patch(
    course: Course,
    rows: Set<PatchFlip>,
    flips: Seq<PatchFlip>,
    probes: Seq<CompiledModel>,
    plain: Seq<MeasurementModel>,
    patched: Seq<MeasurementModel>,
)
    requires
        course.compares_probes(flips, probes, Ok((plain, patched))),
    ensures
        course.plain.len() == probes.len() && plain.len() == probes.len(),
        course.patched.len() == probes.len() && patched.len() == probes.len(),
        forall|i: int|
            0 <= i < probes.len() ==> crate::laws::evaluating::replied(
                #[trigger] course.plain[i],
                probes[i],
                plain[i].gap,
            ) && plain[i].gap.finite() && crate::laws::probing::kept_of(probes[i], plain[i]),
        forall|i: int|
            0 <= i < probes.len() ==> crate::laws::evaluating::replied(
                #[trigger] course.patched[i],
                probes[i],
                patched[i].gap,
            ) && patched[i].gap.finite() && crate::laws::probing::kept_of(probes[i], patched[i]),
        crate::backend::flipped(rows, course.plain) == rows,
        crate::backend::flipped(rows, course.plain + course.applying)
            == crate::patch::toggled_all(rows, flips),
        crate::backend::flipped(rows, course.calls()) == rows,
        course.applied is Ok && course.removed is Ok,
{
    crate::laws::probing::law_measurements_hold_the_gaps_given(probes, course.plain);
    crate::laws::probing::law_measurements_hold_the_gaps_given(probes, course.patched);
    crate::probe::law_accepted_measurements_are_finite(probes, course.plain);
    crate::probe::law_accepted_measurements_are_finite(probes, course.patched);
    assert forall|i: int| 0 <= i < course.plain.len() implies !(
    #[trigger] course.plain[i] is FlipRow) by {
        assert(probes[i].asks(course.plain[i]));
    }
    lemma_states(rows, flips, course.plain, course.applying);
    crate::patched::law_comparing_probes_restores_the_model(
        rows,
        flips,
        probes,
        course,
        Ok((plain, patched)),
    );
}

/// Comparing probes fails with the first thing that fails: the measurement without the
/// patch, then the application of the patch, then its removal, then the measurement with
/// it.
pub proof fn law_comparing_probes_fails_in_order(
    course: Course,
    flips: Seq<PatchFlip>,
    probes: Seq<CompiledModel>,
    error: ErrorModel,
)
    requires
        course.compares_probes(flips, probes, Err(error)),
    ensures
        ({
            let plain = crate::probe::finite_gap_outcome(probes, course.plain);
            let patched = crate::probe::finite_gap_outcome(probes, course.patched);
            &&& plain matches Err(failure) ==> error == failure && course.calls() == course.plain
            &&& plain is Ok && course.applied is Err ==> error == course.applied->Err_0
                && course.calls() == course.plain + course.applying
            &&& plain is Ok && course.applied is Ok && course.removed is Err ==> error == (
            ErrorModel::RestorationFailed {
                operation: "patch evaluation"@,
                source: Box::new(course.removed->Err_0),
            })
            &&& plain is Ok && course.applied is Ok && course.removed is Ok ==> patched == Err::<
                Seq<MeasurementModel>,
                ErrorModel,
            >(error)
        }),
{
    if crate::probe::finite_gap_outcome(probes, course.plain) is Err {
        assert(course.calls() =~= course.plain);
    } else if course.applied is Err {
        assert(course.calls() =~= course.plain + course.applying);
    }
}

/// Texts are compared by putting the same prompt to the model as it is, and again with
/// exactly the rows of the patch flipped.
pub proof fn law_texts_are_generated_without_and_with_the_patch(
    course: Course,
    rows: Set<PatchFlip>,
    flips: Seq<PatchFlip>,
    prompt: Seq<char>,
    config: GenerateConfig,
    plain: Seq<char>,
    patched: Seq<char>,
)
    requires
        course.compares_texts(flips, prompt, config, Ok((plain, patched))),
    ensures
        course.plain.len() == 1 && generated(course.plain[0], prompt, config, plain),
        course.patched.len() == 1 && generated(course.patched[0], prompt, config, patched),
        crate::backend::flipped(rows, course.plain) == rows,
        crate::backend::flipped(rows, course.plain + course.applying)
            == crate::patch::toggled_all(rows, flips),
        crate::backend::flipped(rows, course.calls()) == rows,
        course.applied is Ok && course.removed is Ok,
{
    lemma_states(rows, flips, course.plain, course.applying);
    crate::patched::law_comparing_texts_restores_the_model(
        rows,
        flips,
        prompt,
        config,
        course,
        Ok((plain, patched)),
    );
}

/// The model was given the prompt, and generated the text.
pub open spec fn generated(
    call: BackendCall,
    prompt: Seq<char>,
    config: GenerateConfig,
    text: Seq<char>,
) -> bool {
    &&& call is Generate
    &&& call->Generate_prompt == prompt
    &&& call->Generate_config == config
    &&& call->Generate_reply == Ok::<Seq<char>, ErrorModel>(text)
}

/// Comparing texts fails with the first thing that fails: the text without the patch, then
/// the application of the patch, then its removal, then the text with it.
pub proof fn law_comparing_texts_fails_in_order(
    course: Course,
    flips: Seq<PatchFlip>,
    prompt: Seq<char>,
    config: GenerateConfig,
    error: ErrorModel,
)
    requires
        course.compares_texts(flips, prompt, config, Err(error)),
    ensures
        ({
            let plain = course.plain[0]->Generate_reply;
            let patched = course.patched[0]->Generate_reply;
            &&& plain matches Err(failure) ==> error == failure && course.calls() == course.plain
            &&& plain is Ok && course.applied is Err ==> error == course.applied->Err_0
                && course.calls() == course.plain + course.applying
            &&& plain is Ok && course.applied is Ok && course.removed is Err ==> error == (
            ErrorModel::RestorationFailed {
                operation: "patched generation"@,
                source: Box::new(course.removed->Err_0),
            })
            &&& plain is Ok && course.applied is Ok && course.removed is Ok ==> patched == Err::<
                Seq<char>,
                ErrorModel,
            >(error)
        }),
{
    if course.plain[0]->Generate_reply is Err {
        assert(course.calls() =~= course.plain);
    } else if course.applied is Err {
        assert(course.calls() =~= course.plain + course.applying);
    }
}

/// Prompts are put to the model one by one, and the texts that it generates are kept in
/// their order. The first error ends it.
pub proof fn law_prompts_are_answered_in_order(
    prompts: Seq<Seq<char>>,
    config: GenerateConfig,
    calls: Seq<BackendCall>,
)
    requires
        crate::patched::text_requests(prompts, config, calls),
    ensures
        crate::patched::text_outcome(prompts, calls) matches Ok(texts) ==> {
            &&& calls.len() == prompts.len()
            &&& texts.len() == prompts.len()
            &&& forall|i: int|
                0 <= i < prompts.len() ==> generated(
                    #[trigger] calls[i],
                    prompts[i],
                    config,
                    texts[i],
                )
        },
        crate::patched::text_outcome(prompts, calls) matches Err(error) ==> {
            &&& calls.len() > 0
            &&& calls.last() is Generate
            &&& calls.last()->Generate_reply == Err::<Seq<char>, ErrorModel>(error)
        },
        forall|i: int|
            0 <= i < calls.len() && (#[trigger] calls[i])->Generate_reply is Err ==> i
                == calls.len() - 1 && crate::patched::text_outcome(prompts, calls) is Err,
{
    if calls.len() > 0 {
        assert(calls.last() == calls[calls.len() - 1]);
        assert(crate::patched::asks_text(
            prompts[calls.len() - 1],
            config,
            calls[calls.len() - 1],
        ));
    }
    assert forall|i: int|
        0 <= i < calls.len() && (#[trigger] calls[i])->Generate_reply is Err implies i
        == calls.len() - 1 by {
        if i < calls.len() - 1 {
            assert(crate::patched::text_reply(calls[i]) is Ok);
        }
    }
    if crate::patched::text_outcome(prompts, calls) is Ok {
        assert forall|i: int| 0 <= i < prompts.len() implies generated(
            #[trigger] calls[i],
            prompts[i],
            config,
            crate::patched::text_outcome(prompts, calls)->Ok_0[i],
        ) by {
            assert(crate::patched::asks_text(prompts[i], config, calls[i]));
            assert(crate::patched::text_reply(calls[i]) is Ok);
        }
    }
}

/// The prompts of a dataset are put to the model with exactly the rows of the patch
/// flipped, and the model is left as it was.
pub proof fn law_datasets_are_answered_with_the_patch(
    course: Course,
    rows: Set<PatchFlip>,
    flips: Seq<PatchFlip>,
    prompts: Seq<Seq<char>>,
    config: GenerateConfig,
    outcome: Result<Seq<Seq<char>>, ErrorModel>,
)
    requires
        course.answers_prompts(flips, prompts, config, outcome),
    ensures
        course.plain.len() == 0,
        course.applied matches Err(error) ==> outcome == Err::<Seq<Seq<char>>, ErrorModel>(error)
            && course.calls() == course.applying,
        course.applied is Ok ==> crate::backend::flipped(rows, course.applying)
            == crate::patch::toggled_all(rows, flips),
        course.applied is Ok && course.removed is Err ==> outcome == Err::<
            Seq<Seq<char>>,
            ErrorModel,
        >(
            ErrorModel::RestorationFailed {
                operation: "dataset evaluation"@,
                source: Box::new(course.removed->Err_0),
            },
        ),
        course.applied is Ok && course.removed is Ok ==> outcome == crate::patched::text_outcome(
            prompts,
            course.patched,
        ) && crate::backend::flipped(rows, course.calls()) == rows,
        course.applied is Ok ==> crate::patched::text_requests(prompts, config, course.patched),
        outcome matches Ok(texts) ==> course.patched.len() == prompts.len() && texts.len()
            == prompts.len() && forall|i: int|
            0 <= i < prompts.len() ==> generated(
                #[trigger] course.patched[i],
                prompts[i],
                config,
                texts[i],
            ),
{
    if course.applied is Ok {
        crate::restore::law_applied_rows_are_flipped(rows, flips, course.applying);
        law_prompts_are_answered_in_order(prompts, config, course.patched);
        if course.removed is Ok {
            lemma_dataset_restores(course, rows, flips, prompts, config);
        }
    } else {
        assert(course.calls() =~= course.applying);
    }
}

proof fn lemma_dataset_restores(
    course: Course,
    rows: Set<PatchFlip>,
    flips: Seq<PatchFlip>,
    prompts: Seq<Seq<char>>,
    config: GenerateConfig,
)
    requires
        course.plain.len() == 0,
        crate::restore::applies(flips, "patch application"@, course.applying, Ok(())),
        crate::patched::text_requests(prompts, config, course.patched),
        crate::restore::applies(flips, "patch removal"@, course.removing, Ok(())),
    ensures
        crate::backend::flipped(rows, course.calls()) == rows,
{
    let changed = crate::patch::toggled_all(rows, flips);
    assert(course.calls() =~= course.applying + (course.patched + course.removing));
    crate::backend::lemma_flipped_concat(
        rows,
        course.applying,
        course.patched + course.removing,
    );
    crate::backend::lemma_flipped_concat(changed, course.patched, course.removing);
    crate::restore::law_applied_rows_are_flipped(rows, flips, course.applying);
    assert forall|i: int| 0 <= i < course.patched.len() implies !(
    #[trigger] course.patched[i] is FlipRow) by {
        assert(crate::patched::asks_text(prompts[i], config, course.patched[i]));
    }
    crate::backend::lemma_flipped_unchanged(changed, course.patched);
    crate::restore::law_applied_rows_are_flipped(changed, flips, course.removing);
    crate::patch::law_patch_undoes_itself(rows, flips);
}

/// A comparison asks the model first without the patch, then flips the rows, then asks
/// with the patch, then flips the rows back.
pub proof fn law_comparisons_go_in_order(course: Course)
    ensures
        course.calls() == course.plain + course.applying + course.patched + course.removing,
{
    assert(course.calls() =~= course.plain + course.applying + course.patched + course.removing);
}

} // verus!
