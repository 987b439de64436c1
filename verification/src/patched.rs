//! Trying a patch out and taking it back.

use vstd::prelude::*;

use crate::backend::{BackendCall, GenerateConfig, MiyagiBackend};
use crate::error::{Error, ErrorModel};
use crate::patch::{PatchFlip, ValidatedPatch};
use crate::probe::{CompiledModel, CompiledProbe, MeasurementModel, ProbeMeasurement};

verus! {

/// What comes of an operation on a patched model once the patch has been taken back.
/// A model that could not be brought back outweighs everything else.
pub open spec fn finished<T>(
    operation: Result<T, ErrorModel>,
    removal: Result<(), ErrorModel>,
    name: Seq<char>,
) -> Result<T, ErrorModel> {
    match removal {
        Err(source) => Err(
            ErrorModel::RestorationFailed { operation: name, source: Box::new(source) },
        ),
        Ok(()) => operation,
    }
}

/// Ends an operation on a patched model.
pub fn finish_patched_operation<T>(
    operation: Result<T, Error>,
    removal: Result<(), Error>,
    name: &str,
) -> (r: Result<T, Error>)
    ensures
        crate::backend::answer(r) == finished(
            crate::backend::answer(operation),
            crate::backend::answer(removal),
            name@,
        ),
{
    if let Err(source) = removal {
        return Err(
            Error::RestorationFailed { operation: name.to_owned(), source: Box::new(source) },
        );
    }
    operation
}

/// The course of an operation with and without a patch: the requests without it,
/// those that apply it, those with it, and those that remove it.
pub struct Course {
    pub plain: Seq<BackendCall>,
    pub applying: Seq<BackendCall>,
    pub applied: Result<(), ErrorModel>,
    pub patched: Seq<BackendCall>,
    pub removing: Seq<BackendCall>,
    pub removed: Result<(), ErrorModel>,
}

impl Course {
    pub open spec fn calls(self) -> Seq<BackendCall> {
        self.plain + (self.applying + (self.patched + self.removing))
    }

    /// Nothing was done after the requests without the patch.
    pub open spec fn ends_plain(self) -> bool {
        self.applying.len() == 0 && self.ends_applying()
    }

    /// Nothing was done after the patch was applied.
    pub open spec fn ends_applying(self) -> bool {
        self.patched.len() == 0 && self.removing.len() == 0
    }

    /// The probes are measured, the patch is applied, the probes are measured again,
    /// and the patch is removed. What fails ends it, but an applied patch is removed
    /// in any case.
    pub open spec fn compares_probes(
        self,
        flips: Seq<PatchFlip>,
        probes: Seq<CompiledModel>,
        outcome: Result<(Seq<MeasurementModel>, Seq<MeasurementModel>), ErrorModel>,
    ) -> bool {
        &&& crate::probe::gap_requests(probes, self.plain)
        &&& match crate::probe::finite_gap_outcome(probes, self.plain) {
            Err(error) => self.ends_plain() && outcome == Err::<
                (Seq<MeasurementModel>, Seq<MeasurementModel>),
                ErrorModel,
            >(error),
            Ok(baseline) => {
                &&& crate::restore::applies(
                    flips,
                    "patch application"@,
                    self.applying,
                    self.applied,
                )
                &&& match self.applied {
                    Err(error) => self.ends_applying() && outcome == Err::<
                        (Seq<MeasurementModel>, Seq<MeasurementModel>),
                        ErrorModel,
                    >(error),
                    Ok(()) => {
                        &&& crate::probe::gap_requests(probes, self.patched)
                        &&& crate::restore::applies(
                            flips,
                            "patch removal"@,
                            self.removing,
                            self.removed,
                        )
                        &&& outcome == match finished(
                            crate::probe::finite_gap_outcome(probes, self.patched),
                            self.removed,
                            "patch evaluation"@,
                        ) {
                            Err(error) => Err(error),
                            Ok(patched) => Ok((baseline, patched)),
                        }
                    },
                }
            },
        }
    }

    /// The model is asked for a text, the patch is applied, the model is asked again,
    /// and the patch is removed.
    pub open spec fn compares_texts(
        self,
        flips: Seq<PatchFlip>,
        prompt: Seq<char>,
        config: GenerateConfig,
        outcome: Result<(Seq<char>, Seq<char>), ErrorModel>,
    ) -> bool {
        &&& self.plain.len() == 1
        &&& asks_text(prompt, config, self.plain[0])
        &&& match text_reply(self.plain[0]) {
            Err(error) => self.ends_plain() && outcome == Err::<
                (Seq<char>, Seq<char>),
                ErrorModel,
            >(error),
            Ok(baseline) => {
                &&& crate::restore::applies(
                    flips,
                    "patch application"@,
                    self.applying,
                    self.applied,
                )
                &&& match self.applied {
                    Err(error) => self.ends_applying() && outcome == Err::<
                        (Seq<char>, Seq<char>),
                        ErrorModel,
                    >(error),
                    Ok(()) => {
                        &&& self.patched.len() == 1
                        &&& asks_text(prompt, config, self.patched[0])
                        &&& crate::restore::applies(
                            flips,
                            "patch removal"@,
                            self.removing,
                            self.removed,
                        )
                        &&& outcome == match finished(
                            text_reply(self.patched[0]),
                            self.removed,
                            "patched generation"@,
                        ) {
                            Err(error) => Err(error),
                            Ok(patched) => Ok((baseline, patched)),
                        }
                    },
                }
            },
        }
    }
}

impl Course {
    /// The patch is applied, the model is asked for the texts, and the patch is removed.
    /// What fails ends it, but an applied patch is removed in any case.
    pub open spec fn answers_prompts(
        self,
        flips: Seq<PatchFlip>,
        prompts: Seq<Seq<char>>,
        config: GenerateConfig,
        outcome: Result<Seq<Seq<char>>, ErrorModel>,
    ) -> bool {
        &&& self.plain.len() == 0
        &&& crate::restore::applies(flips, "patch application"@, self.applying, self.applied)
        &&& match self.applied {
            Err(error) => self.ends_applying() && outcome == Err::<Seq<Seq<char>>, ErrorModel>(
                error,
            ),
            Ok(()) => {
                &&& text_requests(prompts, config, self.patched)
                &&& crate::restore::applies(flips, "patch removal"@, self.removing, self.removed)
                &&& outcome == finished(
                    text_outcome(prompts, self.patched),
                    self.removed,
                    "dataset evaluation"@,
                )
            },
        }
    }
}

/// The texts are asked for one after the other, up to the first request that fails.
pub open spec fn text_requests(
    prompts: Seq<Seq<char>>,
    config: GenerateConfig,
    calls: Seq<BackendCall>,
) -> bool {
    &&& calls.len() <= prompts.len()
    &&& forall|i: int|
        0 <= i < calls.len() ==> asks_text(prompts[i], config, #[trigger] calls[i])
    &&& forall|i: int| 0 <= i < calls.len() - 1 ==> text_reply(#[trigger] calls[i]) is Ok
    &&& calls.len() < prompts.len() ==> calls.len() > 0 && text_reply(calls.last()) is Err
}

/// What the answers make of the prompts: a text for each, or the error of the request
/// that failed.
pub open spec fn text_outcome(prompts: Seq<Seq<char>>, calls: Seq<BackendCall>) -> Result<
    Seq<Seq<char>>,
    ErrorModel,
> {
    if calls.len() > 0 && text_reply(calls.last()) is Err {
        Err(text_reply(calls.last())->Err_0)
    } else {
        Ok(Seq::new(prompts.len(), |i: int| text_reply(calls[i])->Ok_0))
    }
}

/// The texts of strings.
pub open spec fn text_models(texts: Seq<String>) -> Seq<Seq<char>> {
    Seq::new(texts.len(), |i: int| texts[i]@)
}

/// The view of texts or of the error in their place.
pub open spec fn answers_view(result: Result<Vec<String>, Error>) -> Result<
    Seq<Seq<char>>,
    ErrorModel,
> {
    match result {
        Ok(texts) => Ok(text_models(texts@)),
        Err(error) => Err(error@),
    }
}

/// The request asks for a text.
pub open spec fn asks_text(prompt: Seq<char>, config: GenerateConfig, call: BackendCall) -> bool {
    call is Generate && call->Generate_prompt == prompt && call->Generate_config == config
}

/// The answer to a request for a text.
pub open spec fn text_reply(call: BackendCall) -> Result<Seq<char>, ErrorModel> {
    call->Generate_reply
}

/// The view of two texts or of the error in their place.
pub open spec fn texts_view(result: Result<(String, String), Error>) -> Result<
    (Seq<char>, Seq<char>),
    ErrorModel,
> {
    match result {
        Ok((baseline, patched)) => Ok((baseline@, patched@)),
        Err(error) => Err(error@),
    }
}

/// Measures probes without and with a patch.
pub fn compare_probes<B: MiyagiBackend>(
    backend: &mut B,
    patch: &ValidatedPatch,
    probes: &[CompiledProbe],
) -> (r: Result<(Vec<ProbeMeasurement>, Vec<ProbeMeasurement>), Error>)
    ensures
        crate::backend::continues(old(backend).history(), final(backend).history()),
        exists|course: Course| #[trigger]
            course.calls() == crate::backend::calls_since(
                old(backend).history(),
                final(backend).history(),
            ) && course.compares_probes(
                patch@.patch.flips,
                crate::probe::compiled_models(probes@),
                crate::probe::pair_view(r),
            ),
{
    let ghost none: Seq<BackendCall> = Seq::empty();
    let ghost flips = patch@.patch.flips;
    let ghost models = crate::probe::compiled_models(probes@);
    let ghost start = backend.history();
    let baseline: Result<Vec<ProbeMeasurement>, Error> = crate::probe::measure_probes(
        backend,
        probes,
    );
    let ghost first = backend.history();
    let ghost plain = crate::backend::calls_since(start, first);
    let baseline: Vec<ProbeMeasurement> = match baseline {
        Err(error) => {
            proof {
                let course = Course {
                    plain,
                    applying: none,
                    applied: Ok(()),
                    patched: none,
                    removing: none,
                    removed: Ok(()),
                };
                assert(course.calls() =~= plain);
                assert(course.compares_probes(flips, models, Err(error@)));
            }
            return Err(error);
        },
        Ok(baseline) => baseline,
    };
    let applied: Result<(), Error> = patch.apply(backend);
    let ghost second = backend.history();
    let ghost applying = crate::backend::calls_since(first, second);
    proof {
        crate::backend::lemma_calls_concat(start, first, second);
    }
    if let Err(error) = applied {
        proof {
            let course = Course {
                plain,
                applying,
                applied: Err(error@),
                patched: none,
                removing: none,
                removed: Ok(()),
            };
            assert(course.calls() =~= plain + applying);
            assert(course.compares_probes(flips, models, Err(error@)));
        }
        return Err(error);
    }
    let measured: Result<Vec<ProbeMeasurement>, Error> = crate::probe::measure_probes(
        backend,
        probes,
    );
    let ghost third = backend.history();
    let ghost patched = crate::backend::calls_since(second, third);
    let removal: Result<(), Error> = patch.remove(backend);
    let ghost last = backend.history();
    let ghost removing = crate::backend::calls_since(third, last);
    let ghost course = Course {
        plain,
        applying,
        applied: Ok(()),
        patched,
        removing,
        removed: crate::backend::answer(removal),
    };
    proof {
        crate::backend::lemma_calls_concat(second, third, last);
        crate::backend::lemma_calls_concat(first, second, last);
        crate::backend::lemma_calls_concat(start, first, last);
        assert(course.calls() == crate::backend::calls_since(start, last));
    }
    match finish_patched_operation(measured, removal, "patch evaluation") {
        Err(error) => {
            assert(course.compares_probes(flips, models, Err(error@)));
            Err(error)
        },
        Ok(measurements) => Ok((baseline, measurements)),
    }
}

/// Asks a model for a text without and with a patch.
pub fn compare_texts<B: MiyagiBackend>(
    backend: &mut B,
    patch: &ValidatedPatch,
    prompt: &str,
    config: &GenerateConfig,
) -> (r: Result<(String, String), Error>)
    ensures
        crate::backend::continues(old(backend).history(), final(backend).history()),
        exists|course: Course| #[trigger]
            course.calls() == crate::backend::calls_since(
                old(backend).history(),
                final(backend).history(),
            ) && course.compares_texts(patch@.patch.flips, prompt@, *config, texts_view(r)),
{
    let ghost none: Seq<BackendCall> = Seq::empty();
    let ghost flips = patch@.patch.flips;
    let ghost start = backend.history();
    let baseline: Result<String, Error> = backend.generate(prompt, config);
    let ghost first = backend.history();
    let ghost plain = crate::backend::calls_since(start, first);
    proof {
        let call = backend.history().last();
        assert(plain =~= seq![call]);
        assert(first =~= start + plain);
    }
    let baseline: String = match baseline {
        Err(error) => {
            proof {
                let course = Course {
                    plain,
                    applying: none,
                    applied: Ok(()),
                    patched: none,
                    removing: none,
                    removed: Ok(()),
                };
                assert(course.calls() =~= plain);
                assert(course.compares_texts(flips, prompt@, *config, Err(error@)));
            }
            return Err(error);
        },
        Ok(baseline) => baseline,
    };
    let applied: Result<(), Error> = patch.apply(backend);
    let ghost second = backend.history();
    let ghost applying = crate::backend::calls_since(first, second);
    proof {
        crate::backend::lemma_calls_concat(start, first, second);
    }
    if let Err(error) = applied {
        proof {
            let course = Course {
                plain,
                applying,
                applied: Err(error@),
                patched: none,
                removing: none,
                removed: Ok(()),
            };
            assert(course.calls() =~= plain + applying);
            assert(course.compares_texts(flips, prompt@, *config, Err(error@)));
        }
        return Err(error);
    }
    let generated: Result<String, Error> = backend.generate(prompt, config);
    let ghost third = backend.history();
    let ghost patched = crate::backend::calls_since(second, third);
    proof {
        let call = backend.history().last();
        assert(patched =~= seq![call]);
        assert(third =~= second + patched);
    }
    let removal: Result<(), Error> = patch.remove(backend);
    let ghost last = backend.history();
    let ghost removing = crate::backend::calls_since(third, last);
    let ghost course = Course {
        plain,
        applying,
        applied: Ok(()),
        patched,
        removing,
        removed: crate::backend::answer(removal),
    };
    proof {
        crate::backend::lemma_calls_concat(second, third, last);
        crate::backend::lemma_calls_concat(first, second, last);
        crate::backend::lemma_calls_concat(start, first, last);
        assert(course.calls() == crate::backend::calls_since(start, last));
    }
    match finish_patched_operation(generated, removal, "patched generation") {
        Err(error) => {
            assert(course.compares_texts(flips, prompt@, *config, Err(error@)));
            Err(error)
        },
        Ok(text) => Ok((baseline, text)),
    }
}

/// Asks a model for one text after the other.
pub fn generate_all<B: MiyagiBackend>(
    backend: &mut B,
    prompts: &[String],
    config: &GenerateConfig,
) -> (r: Result<Vec<String>, Error>)
    ensures
        crate::backend::continues(old(backend).history(), final(backend).history()),
        ({
            let models = text_models(prompts@);
            let calls = crate::backend::calls_since(
                old(backend).history(),
                final(backend).history(),
            );
            &&& text_requests(models, *config, calls)
            &&& answers_view(r) == text_outcome(models, calls)
        }),
{
    let ghost models = text_models(prompts@);
    let ghost before = backend.history();
    let mut out: Vec<String> = Vec::new();
    let mut next: usize = 0;
    let ghost mut calls: Seq<BackendCall> = Seq::empty();
    assert(before =~= before + calls);
    while next < prompts.len()
        invariant
            next <= prompts@.len(),
            models == text_models(prompts@),
            before == old(backend).history(),
            backend.history() == before + calls,
            calls.len() == next,
            out@.len() == next,
            forall|i: int|
                0 <= i < next ==> asks_text(models[i], *config, #[trigger] calls[i])
                    && text_reply(calls[i]) is Ok,
            forall|i: int|
                0 <= i < next ==> (#[trigger] out@[i])@ == text_reply(calls[i])->Ok_0,
        decreases prompts@.len() - next,
    {
        let reply: Result<String, Error> = backend.generate(prompts[next].as_str(), config);
        proof {
            let call = backend.history().last();
            assert((before + calls).push(call) =~= before + calls.push(call));
            calls = calls.push(call);
        }
        match reply {
            Err(error) => {
                assert(backend.history().skip(before.len() as int) =~= calls);
                return Err(error);
            },
            Ok(text) => {
                out.push(text);
            },
        }
        next = next + 1;
    }
    proof {
        assert(backend.history().skip(before.len() as int) =~= calls);
        let outcome = text_outcome(models, calls)->Ok_0;
        assert(text_models(out@) =~= outcome);
    }
    Ok(out)
}

/// Asks a patched model for one text after the other, and takes the patch back.
pub fn generate_patched<B: MiyagiBackend>(
    backend: &mut B,
    patch: &ValidatedPatch,
    prompts: &[String],
    config: &GenerateConfig,
) -> (r: Result<Vec<String>, Error>)
    ensures
        crate::backend::continues(old(backend).history(), final(backend).history()),
        exists|course: Course| #[trigger]
            course.calls() == crate::backend::calls_since(
                old(backend).history(),
                final(backend).history(),
            ) && course.answers_prompts(
                patch@.patch.flips,
                text_models(prompts@),
                *config,
                answers_view(r),
            ),
{
    let ghost none: Seq<BackendCall> = Seq::empty();
    let ghost flips = patch@.patch.flips;
    let ghost models = text_models(prompts@);
    let ghost start = backend.history();
    let applied: Result<(), Error> = patch.apply(backend);
    let ghost first = backend.history();
    let ghost applying = crate::backend::calls_since(start, first);
    if let Err(error) = applied {
        proof {
            let course = Course {
                plain: none,
                applying,
                applied: Err(error@),
                patched: none,
                removing: none,
                removed: Ok(()),
            };
            assert(course.calls() =~= applying);
            assert(course.answers_prompts(flips, models, *config, Err(error@)));
        }
        return Err(error);
    }
    let generated: Result<Vec<String>, Error> = generate_all(backend, prompts, config);
    let ghost second = backend.history();
    let ghost patched = crate::backend::calls_since(first, second);
    let ghost answered = answers_view(generated);
    let removal: Result<(), Error> = patch.remove(backend);
    let ghost last = backend.history();
    let ghost removing = crate::backend::calls_since(second, last);
    let ghost removed = crate::backend::answer(removal);
    let r: Result<Vec<String>, Error> = finish_patched_operation(
        generated,
        removal,
        "dataset evaluation",
    );
    proof {
        let course = Course {
            plain: none,
            applying,
            applied: Ok(()),
            patched,
            removing,
            removed,
        };
        crate::backend::lemma_calls_concat(first, second, last);
        crate::backend::lemma_calls_concat(start, first, last);
        assert(course.calls() =~= crate::backend::calls_since(start, last));
        assert(answers_view(r) == finished(answered, removed, "dataset evaluation"@));
        assert(course.answers_prompts(flips, models, *config, answers_view(r)));
    }
    r
}

/// Applying a patch, doing something that flips nothing, and removing the patch.
proof fn lemma_course(rows: Set<PatchFlip>, flips: Seq<PatchFlip>, course: Course)
    requires
        forall|i: int| 0 <= i < course.plain.len() ==> !(#[trigger] course.plain[i] is FlipRow),
        forall|i: int| 0 <= i < course.patched.len() ==> !(#[trigger] course.patched[i] is FlipRow),
        crate::restore::applies(flips, "patch application"@, course.applying, course.applied),
        course.applied is Ok ==> crate::restore::applies(
            flips,
            "patch removal"@,
            course.removing,
            course.removed,
        ),
        course.applied is Err ==> course.ends_applying(),
    ensures
        course.applied is Ok && course.removed is Ok ==> crate::backend::flipped(
            rows,
            course.calls(),
        ) == rows,
        course.applied matches Err(error) ==> {
            ||| crate::backend::flipped(rows, course.calls()) == rows
            ||| error is RestorationFailed
        },
{
    let tail = course.patched + course.removing;
    crate::backend::lemma_flipped_concat(rows, course.plain, course.applying + tail);
    crate::backend::lemma_flipped_unchanged(rows, course.plain);
    crate::backend::lemma_flipped_concat(rows, course.applying, tail);
    crate::restore::law_applying_is_all_or_nothing(
        rows,
        flips,
        "patch application"@,
        course.applying,
        course.applied,
    );
    let middle = crate::backend::flipped(rows, course.applying);
    crate::backend::lemma_flipped_concat(middle, course.patched, course.removing);
    crate::backend::lemma_flipped_unchanged(middle, course.patched);
    if course.applied is Ok {
        crate::restore::law_applying_is_all_or_nothing(
            middle,
            flips,
            "patch removal"@,
            course.removing,
            course.removed,
        );
        crate::patch::law_patch_undoes_itself(rows, flips);
    }
}

/// Measuring probes without and with a patch leaves the model as it was, whether it
/// succeeds or fails, unless the error says that it could not be brought back.
pub proof fn law_comparing_probes_restores_the_model(
    rows: Set<PatchFlip>,
    flips: Seq<PatchFlip>,
    probes: Seq<CompiledModel>,
    course: Course,
    outcome: Result<(Seq<MeasurementModel>, Seq<MeasurementModel>), ErrorModel>,
)
    requires
        course.compares_probes(flips, probes, outcome),
    ensures
        crate::backend::flipped(rows, course.calls()) == rows || (outcome matches Err(error)
            && error is RestorationFailed),
{
    if crate::probe::finite_gap_outcome(probes, course.plain) is Err {
        assert(course.calls() =~= course.plain);
        crate::backend::lemma_flipped_unchanged(rows, course.plain);
    } else {
        lemma_course(rows, flips, course);
    }
}

/// Asking for a text without and with a patch leaves the model as it was, whether it
/// succeeds or fails, unless the error says that it could not be brought back.
pub proof fn law_comparing_texts_restores_the_model(
    rows: Set<PatchFlip>,
    flips: Seq<PatchFlip>,
    prompt: Seq<char>,
    config: GenerateConfig,
    course: Course,
    outcome: Result<(Seq<char>, Seq<char>), ErrorModel>,
)
    requires
        course.compares_texts(flips, prompt, config, outcome),
    ensures
        crate::backend::flipped(rows, course.calls()) == rows || (outcome matches Err(error)
            && error is RestorationFailed),
{
    if text_reply(course.plain[0]) is Err {
        assert(course.calls() =~= course.plain);
        crate::backend::lemma_flipped_unchanged(rows, course.plain);
    } else {
        lemma_course(rows, flips, course);
    }
}

/// Asking a patched model for texts leaves the model as it was, whether it succeeds or
/// fails, unless the error says that it could not be brought back.
pub proof fn law_patched_texts_restore_the_model(
    rows: Set<PatchFlip>,
    flips: Seq<PatchFlip>,
    prompts: Seq<Seq<char>>,
    config: GenerateConfig,
    course: Course,
    outcome: Result<Seq<Seq<char>>, ErrorModel>,
)
    requires
        course.answers_prompts(flips, prompts, config, outcome),
    ensures
        crate::backend::flipped(rows, course.calls()) == rows || (outcome matches Err(error)
            && error is RestorationFailed),
{
    lemma_course(rows, flips, course);
}

} // verus!
