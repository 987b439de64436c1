//! Which probes are accepted, how they are put to a model, and what is kept of its answers.

use vstd::prelude::*;

use crate::backend::{BackendCall, MiyagiBackend, TokenMode};
use crate::error::ErrorModel;
use crate::probe::{CompiledModel, MeasurementModel, ProbeModel};

verus! {

/// A probe has a name, a prompt and two answers.
pub open spec fn whole(probe: ProbeModel) -> bool {
    &&& probe.name.len() > 0
    &&& probe.prompt.len() > 0
    &&& probe.correct_token.len() > 0
    &&& probe.wrong_token.len() > 0
}

/// A probe is at fault exactly if one of its texts is empty. Its category may be. The
/// complaint names the first text that is empty.
pub proof fn law_whole_probes_are_accepted(probe: ProbeModel)
    ensures
        probe.fault() is None <==> whole(probe),
        probe.fault() matches Some(error) ==> {
            &&& error is EmptyProbeField
            &&& error->EmptyProbeField_probe == probe.name
            &&& error->field == if probe.name.len() == 0 {
                "name"@
            } else if probe.prompt.len() == 0 {
                "prompt"@
            } else if probe.correct_token.len() == 0 {
                "correct"@
            } else {
                "wrong"@
            }
        },
{
}

/// Probes of different names, all of them whole.
pub open spec fn sound(probes: Seq<ProbeModel>) -> bool {
    &&& forall|i: int| 0 <= i < probes.len() ==> whole(#[trigger] probes[i])
    &&& forall|i: int, j: int|
        0 <= i < j < probes.len() ==> (#[trigger] probes[i]).name != (#[trigger] probes[j]).name
}

/// A set is accepted exactly if it has a probe, all its probes are whole, and no two have
/// the same name.
pub proof fn law_sound_sets_are_accepted(probes: Seq<ProbeModel>)
    ensures
        crate::probe::set_fault(probes) is None <==> probes.len() > 0 && sound(probes),
        probes.len() == 0 ==> crate::probe::set_fault(probes) == Some(ErrorModel::EmptyProbeSet),
{
    crate::probe::law_accepted_probe_sets(probes);
}

/// The first probe that is not whole, or has the name of one before it, is the one that a
/// set is refused for.
pub proof fn law_first_bad_probe_is_reported(probes: Seq<ProbeModel>, place: int)
    requires
        0 <= place < probes.len(),
        sound(probes.take(place)),
    ensures
        !whole(probes[place]) ==> crate::probe::set_fault(probes) == probes[place].fault(),
        whole(probes[place]) && (exists|i: int|
            0 <= i < place && (#[trigger] probes[i]).name == probes[place].name)
            ==> crate::probe::set_fault(probes) == Some(
            ErrorModel::DuplicateProbe(probes[place].name),
        ),
{
    let shown = probes.take(place + 1);
    let less = probes.take(place);
    assert(shown.drop_last() =~= less);
    assert(shown.last() == probes[place]);
    crate::probe::law_accepted_probe_sets(less);
    assert(crate::probe::list_fault(less) is None);
    if exists|i: int| 0 <= i < place && (#[trigger] probes[i]).name == probes[place].name {
        let i = choose|i: int| 0 <= i < place && (#[trigger] probes[i]).name == probes[place].name;
        assert(less[i].name == probes[place].name);
        assert(crate::probe::has_name(less, probes[place].name));
    }
    if crate::probe::list_fault(shown) is Some {
        crate::probe::lemma_list_fault_stays(probes, place + 1);
    }
}

/// An answer is its last token. Where single tokens are asked for, it must be the only
/// one.
pub proof fn law_last_token_stands_for_an_answer(
    name: Seq<char>,
    tokens: Seq<i32>,
    mode: TokenMode,
    error: ErrorModel,
)
    ensures
        tokens.len() == 0 ==> crate::probe::chosen_token(name, tokens, mode) == Err::<
            i32,
            ErrorModel,
        >(ErrorModel::EmptyAnswerToken { probe: name }),
        tokens.len() == 1 ==> crate::probe::chosen_token(name, tokens, mode) == Ok::<
            i32,
            ErrorModel,
        >(tokens[0]),
        tokens.len() > 1 && mode == TokenMode::LastTokenCompatibility
            ==> crate::probe::chosen_token(name, tokens, mode) == Ok::<i32, ErrorModel>(
            tokens[tokens.len() - 1],
        ),
        tokens.len() > 1 && mode == TokenMode::StrictSingle ==> crate::probe::chosen_token(
            name,
            tokens,
            mode,
        ) == Err::<i32, ErrorModel>(
            ErrorModel::AmbiguousAnswerToken { probe: name, count: tokens.len() },
        ),
        crate::probe::answer_token(name, Ok(tokens), mode) == crate::probe::chosen_token(
            name,
            tokens,
            mode,
        ),
        crate::probe::answer_token(name, Err(error), mode) == Err::<i32, ErrorModel>(error),
{
}

/// A probe that was compiled is whole, keeps its texts, and holds the tokens that the
/// model gave for its prompt and the last tokens of its answers, the right answer's first.
pub proof fn law_compiled_probes_hold_the_tokens<B: MiyagiBackend>(
    probe: ProbeModel,
    backend: B,
    mode: TokenMode,
    compiled: CompiledModel,
)
    requires
        probe.compiles(backend, mode, Ok(compiled)),
    ensures
        whole(probe),
        compiled.probe == probe,
        compiled.prompt_tokens.len() > 0,
        backend.tokenizes(probe.prompt, Ok(compiled.prompt_tokens)),
        exists|tokens: Seq<i32>| #[trigger]
            backend.tokenizes(probe.correct_token, Ok(tokens)) && tokens.len() > 0 && tokens.last()
                == compiled.correct_id && (mode == TokenMode::StrictSingle ==> tokens.len() == 1),
        exists|tokens: Seq<i32>| #[trigger]
            backend.tokenizes(probe.wrong_token, Ok(tokens)) && tokens.len() > 0 && tokens.last()
                == compiled.wrong_id && (mode == TokenMode::StrictSingle ==> tokens.len() == 1),
{
    let (prompt, correct, wrong) = choose|
        prompt: Result<Seq<i32>, ErrorModel>,
        correct: Result<Seq<i32>, ErrorModel>,
        wrong: Result<Seq<i32>, ErrorModel>,
    | #[trigger]
        probe.compile_requests(backend, prompt, correct, wrong, mode) && Ok::<
            CompiledModel,
            ErrorModel,
        >(compiled) == probe.compile_outcome(prompt, correct, wrong, mode);
    assert(backend.tokenizes(probe.correct_token, Ok(correct->Ok_0)));
    assert(backend.tokenizes(probe.wrong_token, Ok(wrong->Ok_0)));
}

/// A probe that was not compiled is not whole, or the model refused one of its texts, or
/// gave no tokens for it, or several for an answer that must be a single one.
pub proof fn law_probes_that_do_not_compile<B: MiyagiBackend>(
    probe: ProbeModel,
    backend: B,
    mode: TokenMode,
    error: ErrorModel,
)
    requires
        probe.compiles(backend, mode, Err(error)),
    ensures
        !whole(probe) ==> Some(error) == probe.fault(),
        whole(probe) ==> {
            ||| backend.tokenizes(probe.prompt, Err(error))
            ||| backend.tokenizes(probe.prompt, Ok(Seq::empty())) && error
                == (ErrorModel::EmptyProbeField {
                probe: probe.name,
                field: "tokenized prompt"@,
            })
            ||| backend.tokenizes(probe.correct_token, Err(error))
            ||| backend.tokenizes(probe.wrong_token, Err(error))
            ||| backend.tokenizes(probe.correct_token, Ok(Seq::empty())) && error
                == (ErrorModel::EmptyAnswerToken { probe: probe.name })
            ||| backend.tokenizes(probe.wrong_token, Ok(Seq::empty())) && error
                == (ErrorModel::EmptyAnswerToken { probe: probe.name })
            ||| mode == TokenMode::StrictSingle && exists|tokens: Seq<i32>| #[trigger]
                backend.tokenizes(probe.correct_token, Ok(tokens)) && tokens.len() > 1 && error == (
                ErrorModel::AmbiguousAnswerToken { probe: probe.name, count: tokens.len() })
            ||| mode == TokenMode::StrictSingle && exists|tokens: Seq<i32>| #[trigger]
                backend.tokenizes(probe.wrong_token, Ok(tokens)) && tokens.len() > 1 && error == (
                ErrorModel::AmbiguousAnswerToken { probe: probe.name, count: tokens.len() })
        },
{
    let (prompt, correct, wrong) = choose|
        prompt: Result<Seq<i32>, ErrorModel>,
        correct: Result<Seq<i32>, ErrorModel>,
        wrong: Result<Seq<i32>, ErrorModel>,
    | #[trigger]
        probe.compile_requests(backend, prompt, correct, wrong, mode) && Err::<
            CompiledModel,
            ErrorModel,
        >(error) == probe.compile_outcome(prompt, correct, wrong, mode);
    if whole(probe) {
        if prompt is Ok && prompt->Ok_0.len() == 0 {
            assert(prompt->Ok_0 =~= Seq::empty());
        }
        if correct is Ok && correct->Ok_0.len() == 0 {
            assert(correct->Ok_0 =~= Seq::empty());
        }
        if wrong is Ok && wrong->Ok_0.len() == 0 {
            assert(wrong->Ok_0 =~= Seq::empty());
        }
        if crate::probe::prompt_tokens(probe.name, prompt) is Ok {
            if crate::probe::answer_token(probe.name, correct, mode) is Ok {
                assert(backend.tokenizes(probe.wrong_token, wrong));
                if wrong is Ok {
                    assert(backend.tokenizes(probe.wrong_token, Ok(wrong->Ok_0)));
                }
            } else if correct is Ok {
                assert(backend.tokenizes(probe.correct_token, Ok(correct->Ok_0)));
            }
        }
    }
}

/// Measuring asks the model for each probe in turn, by the probe's own tokens, and keeps
/// the gap that it gives, under the probe's texts.
pub proof fn law_measurements_hold_the_gaps_given(
    probes: Seq<CompiledModel>,
    calls: Seq<BackendCall>,
)
    requires
        crate::probe::gap_requests(probes, calls),
    ensures
        crate::probe::gap_outcome(probes, calls) matches Ok(measurements) ==> {
            &&& probes.len() > 0
            &&& calls.len() == probes.len()
            &&& measurements.len() == probes.len()
            &&& forall|i: int|
                0 <= i < probes.len() ==> crate::laws::evaluating::replied(
                    #[trigger] calls[i],
                    probes[i],
                    measurements[i].gap,
                )
            &&& forall|i: int|
                0 <= i < probes.len() ==> kept_of(#[trigger] probes[i], measurements[i])
        },
{
    if crate::probe::gap_outcome(probes, calls) is Ok {
        assert(calls.len() == probes.len());
        assert(calls.last() == calls[calls.len() - 1]);
        assert forall|i: int| 0 <= i < probes.len() implies crate::laws::evaluating::replied(
            #[trigger] calls[i],
            probes[i],
            crate::probe::gap_outcome(probes, calls)->Ok_0[i].gap,
        ) by {
            assert(crate::probe::gap_reply(calls[i]) is Ok);
        }
    }
}

/// The measurement keeps what the probe is.
pub open spec fn kept_of(probe: CompiledModel, measurement: MeasurementModel) -> bool {
    &&& measurement.name == probe.probe.name
    &&& measurement.category == probe.probe.category
    &&& measurement.prompt == probe.probe.prompt
    &&& measurement.correct_token == probe.probe.correct_token
    &&& measurement.wrong_token == probe.probe.wrong_token
    &&& measurement.correct_id == probe.correct_id
    &&& measurement.wrong_id == probe.wrong_id
}

/// Measuring fails where there is no probe, or with the first error that the model gives,
/// after which it is asked no more.
pub proof fn law_measuring_stops_at_the_first_error(
    probes: Seq<CompiledModel>,
    calls: Seq<BackendCall>,
)
    requires
        crate::probe::gap_requests(probes, calls),
    ensures
        probes.len() == 0 ==> calls.len() == 0 && crate::probe::gap_outcome(probes, calls) == Err::<
            Seq<MeasurementModel>,
            ErrorModel,
        >(ErrorModel::EmptyProbeSet),
        probes.len() > 0 ==> calls.len() > 0,
        probes.len() > 0 ==> (crate::probe::gap_outcome(probes, calls) is Err <==> exists|i: int|
            0 <= i < calls.len() && (#[trigger] calls[i])->LogitGap_reply is Err),
        forall|i: int|
            0 <= i < calls.len() && (#[trigger] calls[i])->LogitGap_reply is Err ==> i
                == calls.len() - 1 && crate::probe::gap_outcome(probes, calls) == Err::<
                Seq<MeasurementModel>,
                ErrorModel,
            >(calls[i]->LogitGap_reply->Err_0),
{
    if probes.len() > 0 {
        assert(calls.len() > 0);
        assert(calls.last() == calls[calls.len() - 1]);
        assert forall|i: int|
            0 <= i < calls.len() && (#[trigger] calls[i])->LogitGap_reply is Err implies i
            == calls.len() - 1 by {
            if i < calls.len() - 1 {
                assert(crate::probe::gap_reply(calls[i]) is Ok);
            }
        }
    }
}

/// Where only finite gaps are asked for, the first that is not is complained about, under
/// the name of its probe.
pub proof fn law_first_non_finite_gap_is_reported(
    probes: Seq<CompiledModel>,
    calls: Seq<BackendCall>,
    place: int,
)
    requires
        crate::probe::gap_outcome(probes, calls) is Ok,
        0 <= place < probes.len(),
        forall|i: int|
            0 <= i < place ==> (#[trigger] crate::probe::gap_outcome(
                probes,
                calls,
            )->Ok_0[i]).gap.finite(),
        !crate::probe::gap_outcome(probes, calls)->Ok_0[place].gap.finite(),
    ensures
        ({
            let gap = crate::probe::gap_outcome(probes, calls)->Ok_0[place].gap;
            crate::probe::finite_gap_outcome(probes, calls) == Err::<
                Seq<MeasurementModel>,
                ErrorModel,
            >(
                ErrorModel::MeasurementMismatch(
                    "probe "@ + probes[place].probe.name + " produced non-finite gap "@
                        + if gap.nan() {
                        "NaN"@
                    } else if gap.bits < 0x8000_0000 {
                        "inf"@
                    } else {
                        "-inf"@
                    },
                ),
            )
        }),
{
    lemma_first_non_finite(crate::probe::gap_outcome(probes, calls)->Ok_0, 0, place);
}

proof fn lemma_first_non_finite(measurements: Seq<MeasurementModel>, from: int, place: int)
    requires
        0 <= from <= place < measurements.len(),
        forall|i: int| from <= i < place ==> (#[trigger] measurements[i]).gap.finite(),
        !measurements[place].gap.finite(),
    ensures
        crate::probe::non_finite_fault(measurements, from) == Some(
            ErrorModel::MeasurementMismatch(
                "probe "@ + measurements[place].name + " produced non-finite gap "@
                    + crate::probe::non_finite_text(measurements[place].gap),
            ),
        ),
    decreases place - from,
{
    if from < place {
        lemma_first_non_finite(measurements, from + 1, place);
    }
}

/// What a built-in probe asks.
pub open spec fn puts(
    probe: ProbeModel,
    name: Seq<char>,
    prompt: Seq<char>,
    right: Seq<char>,
    wrong: Seq<char>,
) -> bool {
    &&& probe.name == name
    &&& probe.prompt == prompt
    &&& probe.correct_token == right
    &&& probe.wrong_token == wrong
}

/// The questions of the set `math`, with the right and the wrong answer to each.
pub proof fn law_math_questions()
    ensures
        crate::probe::math_set().len() == 6,
        puts(crate::probe::math_set()[0], "add_1"@, "1 + 1 ="@, " 2"@, " 3"@),
        puts(crate::probe::math_set()[1], "add_2"@, "2 + 2 ="@, " 4"@, " 5"@),
        puts(crate::probe::math_set()[2], "mul_1"@, "7 * 8 ="@, " 56"@, " 54"@),
        puts(crate::probe::math_set()[3], "sqrt_1"@, "The square root of 144 is"@, " 12"@, " 14"@),
        puts(crate::probe::math_set()[4], "algebra_1"@, "If x = 3, then x^2 ="@, " 9"@, " 8"@),
        puts(crate::probe::math_set()[5], "div_1"@, "100 / 4 ="@, " 25"@, " 20"@),
        forall|i: int|
            0 <= i < 6 ==> (#[trigger] crate::probe::math_set()[i]).category == "math"@,
{
}

/// The questions of the set `code`, with the right and the wrong answer to each.
pub proof fn law_code_questions()
    ensures
        crate::probe::code_set().len() == 4,
        puts(crate::probe::code_set()[0], "hello_world"@, "def hello():\n    print(\"Hello"@, " World"@, " Goodbye"@),
        puts(crate::probe::code_set()[1], "python_open"@, "In Python, to open a file you use the"@, " open"@, " close"@),
        puts(crate::probe::code_set()[2], "for_loop"@, "for i in range(10):\n    print("@, "i"@, "x"@),
        puts(crate::probe::code_set()[3], "json_loads"@, "import json\ndata = json."@, "loads"@, "dump"@),
        forall|i: int|
            0 <= i < 4 ==> (#[trigger] crate::probe::code_set()[i]).category == "code"@,
{
}

/// The questions of the set `knowledge`, with the right and the wrong answer to each.
pub proof fn law_knowledge_questions()
    ensures
        crate::probe::knowledge_set().len() == 5,
        puts(crate::probe::knowledge_set()[0], "france_capital"@, "The capital of France is"@, " Paris"@, " London"@),
        puts(crate::probe::knowledge_set()[1], "japan_capital"@, "The capital of Japan is"@, " Tokyo"@, " Beijing"@),
        puts(crate::probe::knowledge_set()[2], "sky_color"@, "The color of the sky is"@, " blue"@, " red"@),
        puts(crate::probe::knowledge_set()[3], "einstein"@, "Einstein is famous for the theory of"@, " relativity"@, " evolution"@),
        puts(crate::probe::knowledge_set()[4], "water_formula"@, "The chemical formula for water is H"@, "2"@, "3"@),
        forall|i: int|
            0 <= i < 5 ==> (#[trigger] crate::probe::knowledge_set()[i]).category == "knowledge"@,
{
}

/// There are three built-in sets, each found under its own name only.
pub proof fn law_built_in_sets_are_found_by_name(name: Seq<char>)
    ensures
        crate::probe::built_in_set("math"@) == Some(crate::probe::math_set()),
        crate::probe::built_in_set("code"@) == Some(crate::probe::code_set()),
        crate::probe::built_in_set("knowledge"@) == Some(crate::probe::knowledge_set()),
        crate::probe::built_in_set(name) is Some <==> (name == "math"@ || name == "code"@ || name
            == "knowledge"@),
{
    reveal_strlit("math");
    reveal_strlit("code");
    reveal_strlit("knowledge");
    assert("math"@[0] == 'm' && "code"@[0] == 'c' && "knowledge"@[0] == 'k');
}

/// Probes are compiled in their order, and the first that does not compile ends it.
pub proof fn law_compiling_stops_at_the_first_failure<B: MiyagiBackend>(
    backend: B,
    mode: TokenMode,
    probes: Seq<ProbeModel>,
    done: Seq<CompiledModel>,
    error: ErrorModel,
)
    requires
        crate::probe::compile_stops(backend, mode, probes, done, error),
    ensures
        done.len() < probes.len(),
        probes[done.len() as int].compiles(backend, mode, Err(error)),
        forall|i: int|
            0 <= i < done.len() ==> (#[trigger] probes[i]).compiles(backend, mode, Ok(done[i])),
{
    assert forall|i: int| 0 <= i < done.len() implies (#[trigger] probes[i]).compiles(
        backend,
        mode,
        Ok(done[i]),
    ) by {
        let one = done[i];
    }
}

} // verus!
