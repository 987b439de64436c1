//! Probes: prompts whose preferred answer is measured.

use vstd::prelude::*;

use crate::backend::{BackendCall, MiyagiBackend, TokenMode};
use crate::error::{Error, ErrorModel};
use crate::float::Binary32;

verus! {

/// A prompt with a right and a wrong answer.
#[derive(Debug, PartialEq, Eq)]
pub struct Probe {
    pub prompt: String,
    pub correct_token: String,
    pub wrong_token: String,
    pub name: String,
    pub category: String,
}

pub struct ProbeModel {
    pub prompt: Seq<char>,
    pub correct_token: Seq<char>,
    pub wrong_token: Seq<char>,
    pub name: Seq<char>,
    pub category: Seq<char>,
}

impl View for Probe {
    type V = ProbeModel;

    open spec fn view(&self) -> ProbeModel {
        ProbeModel {
            prompt: self.prompt@,
            correct_token: self.correct_token@,
            wrong_token: self.wrong_token@,
            name: self.name@,
            category: self.category@,
        }
    }
}

impl Clone for Probe {
    fn clone(&self) -> (r: Probe)
        ensures
            r == *self,
    {
        Probe {
            prompt: self.prompt.clone(),
            correct_token: self.correct_token.clone(),
            wrong_token: self.wrong_token.clone(),
            name: self.name.clone(),
            category: self.category.clone(),
        }
    }
}

pub open spec fn probe_models(probes: Seq<Probe>) -> Seq<ProbeModel> {
    Seq::new(probes.len(), |i: int| probes[i]@)
}

/// A probe in the tokens of a model.
#[derive(Debug)]
pub struct CompiledProbe {
    pub probe: Probe,
    pub prompt_tokens: Vec<i32>,
    pub correct_id: i32,
    pub wrong_id: i32,
}

pub struct CompiledModel {
    pub probe: ProbeModel,
    pub prompt_tokens: Seq<i32>,
    pub correct_id: i32,
    pub wrong_id: i32,
}

impl View for CompiledProbe {
    type V = CompiledModel;

    open spec fn view(&self) -> CompiledModel {
        CompiledModel {
            probe: self.probe@,
            prompt_tokens: self.prompt_tokens@,
            correct_id: self.correct_id,
            wrong_id: self.wrong_id,
        }
    }
}

impl Clone for CompiledProbe {
    fn clone(&self) -> (r: CompiledProbe)
        ensures
            r@ == self@,
    {
        let prompt_tokens: Vec<i32> = self.prompt_tokens.clone();
        assert(prompt_tokens@ =~= self.prompt_tokens@);
        CompiledProbe {
            probe: self.probe.clone(),
            prompt_tokens,
            correct_id: self.correct_id,
            wrong_id: self.wrong_id,
        }
    }
}

pub open spec fn compiled_models(probes: Seq<CompiledProbe>) -> Seq<CompiledModel> {
    Seq::new(probes.len(), |i: int| probes[i]@)
}

/// A list of compiled probes, copied.
pub fn copy_compiled(probes: &[CompiledProbe]) -> (r: Vec<CompiledProbe>)
    ensures
        compiled_models(r@) == compiled_models(probes@),
{
    let mut out: Vec<CompiledProbe> = Vec::new();
    let mut next: usize = 0;
    while next < probes.len()
        invariant
            next <= probes@.len(),
            out@.len() == next,
            forall|i: int| 0 <= i < next ==> (#[trigger] out@[i])@ == probes@[i]@,
        decreases probes@.len() - next,
    {
        out.push(probes[next].clone());
        next = next + 1;
    }
    assert(compiled_models(out@) =~= compiled_models(probes@));
    out
}

/// A probe with the measured gap between its right and its wrong answer.
#[derive(Debug)]
pub struct ProbeMeasurement {
    pub name: String,
    pub category: String,
    pub prompt: String,
    pub correct_token: String,
    pub wrong_token: String,
    pub correct_id: i32,
    pub wrong_id: i32,
    pub gap: Binary32,
}

pub struct MeasurementModel {
    pub name: Seq<char>,
    pub category: Seq<char>,
    pub prompt: Seq<char>,
    pub correct_token: Seq<char>,
    pub wrong_token: Seq<char>,
    pub correct_id: i32,
    pub wrong_id: i32,
    pub gap: Binary32,
}

impl View for ProbeMeasurement {
    type V = MeasurementModel;

    open spec fn view(&self) -> MeasurementModel {
        MeasurementModel {
            name: self.name@,
            category: self.category@,
            prompt: self.prompt@,
            correct_token: self.correct_token@,
            wrong_token: self.wrong_token@,
            correct_id: self.correct_id,
            wrong_id: self.wrong_id,
            gap: self.gap,
        }
    }
}

impl Clone for ProbeMeasurement {
    fn clone(&self) -> (r: ProbeMeasurement)
        ensures
            r == *self,
    {
        ProbeMeasurement {
            name: self.name.clone(),
            category: self.category.clone(),
            prompt: self.prompt.clone(),
            correct_token: self.correct_token.clone(),
            wrong_token: self.wrong_token.clone(),
            correct_id: self.correct_id,
            wrong_id: self.wrong_id,
            gap: self.gap,
        }
    }
}

pub open spec fn measurement_models(measurements: Seq<ProbeMeasurement>) -> Seq<
    MeasurementModel,
> {
    Seq::new(measurements.len(), |i: int| measurements[i]@)
}

/// A list of measurements, copied.
pub fn copy_measurements(measurements: &[ProbeMeasurement]) -> (r: Vec<ProbeMeasurement>)
    ensures
        r@ == measurements@,
{
    let mut out: Vec<ProbeMeasurement> = Vec::new();
    let mut next: usize = 0;
    while next < measurements.len()
        invariant
            next <= measurements@.len(),
            out@ == measurements@.take(next as int),
        decreases measurements@.len() - next,
    {
        out.push(measurements[next].clone());
        next = next + 1;
        assert(out@ =~= measurements@.take(next as int));
    }
    assert(out@ =~= measurements@);
    out
}

/// The category of a probe that names none.
pub fn default_category() -> (r: String)
    ensures
        r@ == "general"@,
{
    "general".to_owned()
}

impl ProbeModel {
    /// The first field that must not be empty and is.
    pub open spec fn fault(self) -> Option<ErrorModel> {
        if self.name.len() == 0 {
            Some(ErrorModel::EmptyProbeField { probe: self.name, field: "name"@ })
        } else if self.prompt.len() == 0 {
            Some(ErrorModel::EmptyProbeField { probe: self.name, field: "prompt"@ })
        } else if self.correct_token.len() == 0 {
            Some(ErrorModel::EmptyProbeField { probe: self.name, field: "correct"@ })
        } else if self.wrong_token.len() == 0 {
            Some(ErrorModel::EmptyProbeField { probe: self.name, field: "wrong"@ })
        } else {
            None
        }
    }

    /// The probe with its tokens.
    pub open spec fn compiled(self, prompt: Seq<i32>, correct: i32, wrong: i32) -> CompiledModel {
        CompiledModel { probe: self, prompt_tokens: prompt, correct_id: correct, wrong_id: wrong }
    }
}

/// Whether one of the probes has the name.
pub open spec fn has_name(probes: Seq<ProbeModel>, name: Seq<char>) -> bool {
    exists|i: int| 0 <= i < probes.len() && (#[trigger] probes[i]).name == name
}

/// The first thing wrong with the probes: one of them has an empty field, or the
/// name of one before it.
pub open spec fn list_fault(probes: Seq<ProbeModel>) -> Option<ErrorModel>
    decreases probes.len(),
{
    if probes.len() == 0 {
        None
    } else {
        match list_fault(probes.drop_last()) {
            Some(error) => Some(error),
            None => match probes.last().fault() {
                Some(error) => Some(error),
                None => if has_name(probes.drop_last(), probes.last().name) {
                    Some(ErrorModel::DuplicateProbe(probes.last().name))
                } else {
                    None
                },
            },
        }
    }
}

/// What is wrong with a set of probes, which must have at least one.
pub open spec fn set_fault(probes: Seq<ProbeModel>) -> Option<ErrorModel> {
    if probes.len() == 0 {
        Some(ErrorModel::EmptyProbeSet)
    } else {
        list_fault(probes)
    }
}

/// Refuses a probe with an empty field.
pub fn validate_probe(probe: &Probe) -> (r: Result<(), Error>)
    ensures
        match probe@.fault() {
            None => r is Ok,
            Some(error) => r matches Err(e) && e@ == error,
        },
{
    if probe.name.as_str().is_empty() {
        return Err(Error::EmptyProbeField { probe: probe.name.clone(), field: "name" });
    }
    if probe.prompt.as_str().is_empty() {
        return Err(Error::EmptyProbeField { probe: probe.name.clone(), field: "prompt" });
    }
    if probe.correct_token.as_str().is_empty() {
        return Err(Error::EmptyProbeField { probe: probe.name.clone(), field: "correct" });
    }
    if probe.wrong_token.as_str().is_empty() {
        return Err(Error::EmptyProbeField { probe: probe.name.clone(), field: "wrong" });
    }
    Ok(())
}

/// Whether one of the first `count` probes has the name.
fn name_taken(probes: &[Probe], count: usize, name: &String) -> (r: bool)
    requires
        count <= probes@.len(),
    ensures
        r == has_name(probe_models(probes@).take(count as int), name@),
{
    let ghost shown = probe_models(probes@).take(count as int);
    let mut next: usize = 0;
    while next < count
        invariant
            next <= count <= probes@.len(),
            shown == probe_models(probes@).take(count as int),
            forall|i: int| 0 <= i < next ==> (#[trigger] shown[i]).name != name@,
        decreases count - next,
    {
        assert(shown[next as int] == probes@[next as int]@);
        if probes[next].name == *name {
            return true;
        }
        next = next + 1;
    }
    false
}

pub proof fn lemma_list_fault_stays(probes: Seq<ProbeModel>, shown: int)
    requires
        0 <= shown <= probes.len(),
        list_fault(probes.take(shown)) is Some,
    ensures
        list_fault(probes) == list_fault(probes.take(shown)),
    decreases probes.len(),
{
    if shown < probes.len() {
        assert(probes.drop_last().take(shown) =~= probes.take(shown));
        lemma_list_fault_stays(probes.drop_last(), shown);
    } else {
        assert(probes.take(shown) =~= probes);
    }
}

/// Refuses an empty set of probes, a probe with an empty field, and a name that
/// occurs twice.
pub fn validate_probe_set(probes: &[Probe]) -> (r: Result<(), Error>)
    ensures
        match set_fault(probe_models(probes@)) {
            None => r is Ok,
            Some(error) => r matches Err(e) && e@ == error,
        },
{
    if probes.len() == 0 {
        return Err(Error::EmptyProbeSet);
    }
    let ghost models = probe_models(probes@);
    let mut next: usize = 0;
    assert(models.take(0) =~= Seq::<ProbeModel>::empty());
    while next < probes.len()
        invariant
            next <= probes@.len(),
            models == probe_models(probes@),
            models.len() > 0,
            list_fault(models.take(next as int)) is None,
        decreases probes@.len() - next,
    {
        let ghost shown = models.take(next + 1);
        proof {
            assert(shown.drop_last() =~= models.take(next as int));
            assert(shown.last() == probes@[next as int]@);
        }
        if let Err(error) = validate_probe(&probes[next]) {
            proof {
                lemma_list_fault_stays(models, next + 1);
            }
            return Err(error);
        }
        if name_taken(probes, next, &probes[next].name) {
            proof {
                lemma_list_fault_stays(models, next + 1);
            }
            return Err(Error::DuplicateProbe(probes[next].name.clone()));
        }
        next = next + 1;
    }
    assert(models.take(next as int) =~= models);
    Ok(())
}

/// A set of probes is accepted exactly where it has a probe, every probe has all
/// its fields, and no two probes share a name.
pub proof fn law_accepted_probe_sets(probes: Seq<ProbeModel>)
    ensures
        set_fault(probes) is None <==> {
            &&& probes.len() > 0
            &&& forall|i: int| 0 <= i < probes.len() ==> (#[trigger] probes[i]).fault() is None
            &&& forall|i: int, j: int|
                0 <= i < j < probes.len() ==> (#[trigger] probes[i]).name != (
                #[trigger] probes[j]).name
        },
{
    lemma_accepted_list(probes);
}

proof fn lemma_accepted_list(probes: Seq<ProbeModel>)
    ensures
        list_fault(probes) is None <==> {
            &&& forall|i: int| 0 <= i < probes.len() ==> (#[trigger] probes[i]).fault() is None
            &&& forall|i: int, j: int|
                0 <= i < j < probes.len() ==> (#[trigger] probes[i]).name != (
                #[trigger] probes[j]).name
        },
    decreases probes.len(),
{
    if probes.len() > 0 {
        let less = probes.drop_last();
        lemma_accepted_list(less);
        assert(forall|i: int| 0 <= i < less.len() ==> #[trigger] probes[i] == less[i]);
        assert(probes.last() == probes[probes.len() - 1]);
        if list_fault(probes) is None {
            assert forall|i: int, j: int| 0 <= i < j < probes.len() implies (
            #[trigger] probes[i]).name != (#[trigger] probes[j]).name by {
                assert(probes[i] == less[i]);
                if j < less.len() {
                    assert(probes[j] == less[j]);
                }
            }
        } else if list_fault(less) is Some {
            assert(!(forall|i: int| 0 <= i < less.len() ==> (#[trigger] less[i]).fault() is None)
                || !(forall|i: int, j: int|
                0 <= i < j < less.len() ==> (#[trigger] less[i]).name != (
                #[trigger] less[j]).name));
            if forall|i: int| 0 <= i < less.len() ==> (#[trigger] less[i]).fault() is None {
                let (i, j) = choose|i: int, j: int|
                    0 <= i < j < less.len() && (#[trigger] less[i]).name == (
                    #[trigger] less[j]).name;
                assert(probes[i] == less[i] && probes[j] == less[j]);
            } else {
                let i = choose|i: int|
                    0 <= i < less.len() && (#[trigger] less[i]).fault() is Some;
                assert(probes[i] == less[i]);
            }
        } else if probes.last().fault() is None {
            let i = choose|i: int|
                0 <= i < less.len() && (#[trigger] less[i]).name == probes.last().name;
            assert(probes[i] == less[i]);
            assert(probes[i].name == probes[probes.len() - 1].name);
        }
    }
}

/// The token that stands for an answer of the tokens `tokens`.
pub open spec fn chosen_token(name: Seq<char>, tokens: Seq<i32>, mode: TokenMode) -> Result<
    i32,
    ErrorModel,
> {
    if tokens.len() == 0 {
        Err(ErrorModel::EmptyAnswerToken { probe: name })
    } else if mode == TokenMode::StrictSingle && tokens.len() != 1 {
        Err(ErrorModel::AmbiguousAnswerToken { probe: name, count: tokens.len() })
    } else {
        Ok(tokens.last())
    }
}

/// The token that stands for an answer, from what the model made of its text.
pub open spec fn answer_token(
    name: Seq<char>,
    reply: Result<Seq<i32>, ErrorModel>,
    mode: TokenMode,
) -> Result<i32, ErrorModel> {
    match reply {
        Err(error) => Err(error),
        Ok(tokens) => chosen_token(name, tokens, mode),
    }
}

/// The tokens of a prompt, from what the model made of its text. There must be
/// one at least.
pub open spec fn prompt_tokens(name: Seq<char>, reply: Result<Seq<i32>, ErrorModel>) -> Result<
    Seq<i32>,
    ErrorModel,
> {
    match reply {
        Err(error) => Err(error),
        Ok(tokens) => if tokens.len() == 0 {
            Err(ErrorModel::EmptyProbeField { probe: name, field: "tokenized prompt"@ })
        } else {
            Ok(tokens)
        },
    }
}

impl ProbeModel {
    /// What becomes of the probe where the model makes `prompt`, `correct` and
    /// `wrong` of its three texts.
    pub open spec fn compile_outcome(
        self,
        prompt: Result<Seq<i32>, ErrorModel>,
        correct: Result<Seq<i32>, ErrorModel>,
        wrong: Result<Seq<i32>, ErrorModel>,
        mode: TokenMode,
    ) -> Result<CompiledModel, ErrorModel> {
        match self.fault() {
            Some(error) => Err(error),
            None => match prompt_tokens(self.name, prompt) {
                Err(error) => Err(error),
                Ok(tokens) => match answer_token(self.name, correct, mode) {
                    Err(error) => Err(error),
                    Ok(correct_id) => match answer_token(self.name, wrong, mode) {
                        Err(error) => Err(error),
                        Ok(wrong_id) => Ok(self.compiled(tokens, correct_id, wrong_id)),
                    },
                },
            },
        }
    }

    /// Each text that is needed is put to the model, in turn.
    pub open spec fn compile_requests<B: MiyagiBackend>(
        self,
        backend: B,
        prompt: Result<Seq<i32>, ErrorModel>,
        correct: Result<Seq<i32>, ErrorModel>,
        wrong: Result<Seq<i32>, ErrorModel>,
        mode: TokenMode,
    ) -> bool {
        self.fault() is None ==> {
            &&& backend.tokenizes(self.prompt, prompt)
            &&& prompt_tokens(self.name, prompt) is Ok ==> {
                &&& backend.tokenizes(self.correct_token, correct)
                &&& answer_token(self.name, correct, mode) is Ok ==> backend.tokenizes(
                    self.wrong_token,
                    wrong,
                )
            }
        }
    }

    /// `outcome` is what the model's answers make of the probe.
    pub open spec fn compiles<B: MiyagiBackend>(
        self,
        backend: B,
        mode: TokenMode,
        outcome: Result<CompiledModel, ErrorModel>,
    ) -> bool {
        exists|
            prompt: Result<Seq<i32>, ErrorModel>,
            correct: Result<Seq<i32>, ErrorModel>,
            wrong: Result<Seq<i32>, ErrorModel>,
        |
            #[trigger] self.compile_requests(backend, prompt, correct, wrong, mode) && outcome
                == self.compile_outcome(prompt, correct, wrong, mode)
    }
}

/// The view of a compiled probe or of the error in its place.
pub open spec fn compiled_view(result: Result<CompiledProbe, Error>) -> Result<
    CompiledModel,
    ErrorModel,
> {
    match result {
        Ok(probe) => Ok(probe@),
        Err(error) => Err(error@),
    }
}

/// Chooses the token that stands for an answer.
pub fn choose_token(probe_name: &str, tokens: &[i32], mode: TokenMode) -> (r: Result<i32, Error>)
    ensures
        crate::backend::answer(r) == chosen_token(probe_name@, tokens@, mode),
{
    if tokens.len() == 0 {
        return Err(Error::EmptyAnswerToken { probe: probe_name.to_owned() });
    }
    if mode == TokenMode::StrictSingle && tokens.len() != 1 {
        return Err(
            Error::AmbiguousAnswerToken { probe: probe_name.to_owned(), count: tokens.len() },
        );
    }
    Ok(tokens[tokens.len() - 1])
}

/// The token that the model has for an answer.
pub fn resolve_answer<B: MiyagiBackend>(
    backend: &B,
    probe_name: &str,
    text: &str,
    mode: TokenMode,
) -> (r: Result<i32, Error>)
    ensures
        exists|reply: Result<Seq<i32>, ErrorModel>|
            #[trigger] backend.tokenizes(text@, reply) && crate::backend::answer(r)
                == answer_token(probe_name@, reply, mode),
{
    let reply: Result<Vec<i32>, Error> = backend.tokenize(text);
    let ghost answered = crate::backend::list_answer(reply);
    assert(backend.tokenizes(text@, answered));
    match reply {
        Err(error) => Err(error),
        Ok(tokens) => choose_token(probe_name, tokens.as_slice(), mode),
    }
}

impl Probe {
    pub fn new(
        prompt: &str,
        correct_token: &str,
        wrong_token: &str,
        name: &str,
        category: &str,
    ) -> (r: Probe)
        ensures
            r@ == (ProbeModel {
                prompt: prompt@,
                correct_token: correct_token@,
                wrong_token: wrong_token@,
                name: name@,
                category: category@,
            }),
    {
        Probe {
            prompt: prompt.to_owned(),
            correct_token: correct_token.to_owned(),
            wrong_token: wrong_token.to_owned(),
            name: name.to_owned(),
            category: category.to_owned(),
        }
    }

    /// Puts the probe into the tokens of a model.
    pub fn compile<B: MiyagiBackend>(&self, backend: &B, mode: TokenMode) -> (r: Result<
        CompiledProbe,
        Error,
    >)
        ensures
            self@.compiles(*backend, mode, compiled_view(r)),
    {
        let ghost none: Result<Seq<i32>, ErrorModel> = Err(ErrorModel::EmptyProbeSet);
        if let Err(error) = validate_probe(self) {
            assert(self@.compile_requests(*backend, none, none, none, mode));
            return Err(error);
        }
        let reply: Result<Vec<i32>, Error> = backend.tokenize(self.prompt.as_str());
        let ghost prompt = crate::backend::list_answer(reply);
        assert(backend.tokenizes(self@.prompt, prompt));
        let tokens: Vec<i32> = match reply {
            Err(error) => {
                assert(self@.compile_requests(*backend, prompt, none, none, mode));
                return Err(error);
            },
            Ok(tokens) => tokens,
        };
        if tokens.len() == 0 {
            assert(self@.compile_requests(*backend, prompt, none, none, mode));
            return Err(
                Error::EmptyProbeField { probe: self.name.clone(), field: "tokenized prompt" },
            );
        }
        let correct_id: Result<i32, Error> = resolve_answer(
            backend,
            self.name.as_str(),
            self.correct_token.as_str(),
            mode,
        );
        let ghost correct = choose|reply: Result<Seq<i32>, ErrorModel>|
            #[trigger] backend.tokenizes(self@.correct_token, reply) && crate::backend::answer(
                correct_id,
            ) == answer_token(self@.name, reply, mode);
        let correct_id: i32 = match correct_id {
            Err(error) => {
                assert(self@.compile_requests(*backend, prompt, correct, none, mode));
                return Err(error);
            },
            Ok(correct_id) => correct_id,
        };
        let wrong_id: Result<i32, Error> = resolve_answer(
            backend,
            self.name.as_str(),
            self.wrong_token.as_str(),
            mode,
        );
        let ghost wrong = choose|reply: Result<Seq<i32>, ErrorModel>|
            #[trigger] backend.tokenizes(self@.wrong_token, reply) && crate::backend::answer(
                wrong_id,
            ) == answer_token(self@.name, reply, mode);
        assert(self@.compile_requests(*backend, prompt, correct, wrong, mode));
        let wrong_id: i32 = match wrong_id {
            Err(error) => {
                return Err(error);
            },
            Ok(wrong_id) => wrong_id,
        };
        Ok(CompiledProbe { probe: self.clone(), prompt_tokens: tokens, correct_id, wrong_id })
    }
}

/// The model takes the first probes as `done` and refuses the one after them.
pub open spec fn compile_stops<B: MiyagiBackend>(
    backend: B,
    mode: TokenMode,
    probes: Seq<ProbeModel>,
    done: Seq<CompiledModel>,
    error: ErrorModel,
) -> bool {
    &&& done.len() < probes.len()
    &&& forall|i: int|
        0 <= i < done.len() ==> probes[i].compiles(backend, mode, Ok(#[trigger] done[i]))
    &&& probes[done.len() as int].compiles(backend, mode, Err(error))
}

/// Puts a set of probes into the tokens of a model. The probes must make a set
/// that is accepted; the first that the model cannot take ends it.
pub fn compile_probes<B: MiyagiBackend>(backend: &B, probes: &[Probe], mode: TokenMode) -> (r:
    Result<Vec<CompiledProbe>, Error>)
    ensures
        match set_fault(probe_models(probes@)) {
            Some(error) => r matches Err(e) && e@ == error,
            None => match r {
                Ok(compiled) => {
                    &&& compiled@.len() == probes@.len()
                    &&& forall|i: int|
                        0 <= i < probes@.len() ==> (#[trigger] probes@[i])@.compiles(
                            *backend,
                            mode,
                            Ok(compiled@[i]@),
                        )
                },
                Err(error) => exists|done: Seq<CompiledModel>|
                    #[trigger] compile_stops(
                        *backend,
                        mode,
                        probe_models(probes@),
                        done,
                        error@,
                    ),
            },
        },
{
    if let Err(error) = validate_probe_set(probes) {
        return Err(error);
    }
    let mut out: Vec<CompiledProbe> = Vec::new();
    let mut next: usize = 0;
    while next < probes.len()
        invariant
            next <= probes@.len(),
            out@.len() == next,
            set_fault(probe_models(probes@)) is None,
            forall|i: int|
                0 <= i < next ==> (#[trigger] probes@[i])@.compiles(
                    *backend,
                    mode,
                    Ok(out@[i]@),
                ),
        decreases probes@.len() - next,
    {
        match probes[next].compile(backend, mode) {
            Err(error) => {
                proof {
                    let done = compiled_models(out@);
                    assert forall|i: int| 0 <= i < done.len() implies probe_models(
                        probes@,
                    )[i].compiles(*backend, mode, Ok(#[trigger] done[i])) by {
                        assert(probes@[i]@.compiles(*backend, mode, Ok(out@[i]@)));
                    }
                    assert(compile_stops(
                        *backend,
                        mode,
                        probe_models(probes@),
                        done,
                        error@,
                    ));
                }
                return Err(error);
            },
            Ok(compiled) => {
                out.push(compiled);
            },
        }
        next = next + 1;
    }
    Ok(out)
}

impl CompiledModel {
    /// The probe with a measured gap.
    pub open spec fn measured(self, gap: Binary32) -> MeasurementModel {
        MeasurementModel {
            name: self.probe.name,
            category: self.probe.category,
            prompt: self.probe.prompt,
            correct_token: self.probe.correct_token,
            wrong_token: self.probe.wrong_token,
            correct_id: self.correct_id,
            wrong_id: self.wrong_id,
            gap,
        }
    }

    /// The request asks for the gap of this probe.
    pub open spec fn asks(self, call: BackendCall) -> bool {
        call matches BackendCall::LogitGap { prompt, correct, wrong, .. } && prompt
            == self.prompt_tokens && correct == self.correct_id && wrong == self.wrong_id
    }
}

/// The answer to a request for a gap.
pub open spec fn gap_reply(call: BackendCall) -> Result<Binary32, ErrorModel> {
    call->LogitGap_reply
}

/// The gaps of the probes are asked for one after the other, up to the first
/// request that fails.
pub open spec fn gap_requests(probes: Seq<CompiledModel>, calls: Seq<BackendCall>) -> bool {
    &&& calls.len() <= probes.len()
    &&& forall|i: int| 0 <= i < calls.len() ==> probes[i].asks(#[trigger] calls[i])
    &&& forall|i: int| 0 <= i < calls.len() - 1 ==> gap_reply(#[trigger] calls[i]) is Ok
    &&& calls.len() < probes.len() ==> calls.len() > 0 && gap_reply(calls.last()) is Err
}

/// What the answers make of the probes: their measurements, or the error of the
/// request that failed. At least one probe is needed.
pub open spec fn gap_outcome(probes: Seq<CompiledModel>, calls: Seq<BackendCall>) -> Result<
    Seq<MeasurementModel>,
    ErrorModel,
> {
    if probes.len() == 0 {
        Err(ErrorModel::EmptyProbeSet)
    } else if gap_reply(calls.last()) is Err {
        Err(gap_reply(calls.last())->Err_0)
    } else {
        Ok(Seq::new(probes.len(), |i: int| probes[i].measured(gap_reply(calls[i])->Ok_0)))
    }
}

/// How a gap that is not finite is written.
pub open spec fn non_finite_text(gap: Binary32) -> Seq<char> {
    if gap.nan() {
        "NaN"@
    } else if gap.negative() {
        "-inf"@
    } else {
        "inf"@
    }
}

/// The complaint about the first gap that is not finite, from the measurement
/// `from` on.
pub open spec fn non_finite_fault(measurements: Seq<MeasurementModel>, from: int) -> Option<
    ErrorModel,
>
    decreases measurements.len() - from,
{
    if from < 0 || from >= measurements.len() {
        None
    } else if !measurements[from].gap.finite() {
        Some(
            ErrorModel::MeasurementMismatch(
                "probe "@ + measurements[from].name + " produced non-finite gap "@
                    + non_finite_text(measurements[from].gap),
            ),
        )
    } else {
        non_finite_fault(measurements, from + 1)
    }
}

/// What the answers make of the probes where every gap must be finite.
pub open spec fn finite_gap_outcome(probes: Seq<CompiledModel>, calls: Seq<BackendCall>) -> Result<
    Seq<MeasurementModel>,
    ErrorModel,
> {
    match gap_outcome(probes, calls) {
        Err(error) => Err(error),
        Ok(measurements) => match non_finite_fault(measurements, 0) {
            Some(error) => Err(error),
            None => Ok(measurements),
        },
    }
}

/// The view of measurements or of the error in their place.
pub open spec fn measured_view(result: Result<Vec<ProbeMeasurement>, Error>) -> Result<
    Seq<MeasurementModel>,
    ErrorModel,
> {
    match result {
        Ok(measurements) => Ok(measurement_models(measurements@)),
        Err(error) => Err(error@),
    }
}

/// The view of two lists of measurements or of the error in their place.
pub open spec fn pair_view(
    result: Result<(Vec<ProbeMeasurement>, Vec<ProbeMeasurement>), Error>,
) -> Result<(Seq<MeasurementModel>, Seq<MeasurementModel>), ErrorModel> {
    match result {
        Ok((target, control)) => Ok(
            (
                measurement_models(target@),
                measurement_models(control@),
            ),
        ),
        Err(error) => Err(error@),
    }
}

/// Measures the gaps of probes. A gap that is not finite is reported like any
/// other: whoever looks at the gaps has to expect it.
pub fn measure_probes_allowing_non_finite<B: MiyagiBackend>(
    backend: &mut B,
    probes: &[CompiledProbe],
) -> (r: Result<Vec<ProbeMeasurement>, Error>)
    ensures
        crate::backend::continues(old(backend).history(), final(backend).history()),
        ({
            let models = compiled_models(probes@);
            let calls = crate::backend::calls_since(
                old(backend).history(),
                final(backend).history(),
            );
            &&& gap_requests(models, calls)
            &&& measured_view(r) == gap_outcome(models, calls)
        }),
{
    let ghost models = compiled_models(probes@);
    let ghost before = backend.history();
    if probes.len() == 0 {
        assert(before.skip(before.len() as int) =~= Seq::<BackendCall>::empty());
        assert(before =~= before + before.skip(before.len() as int));
        return Err(Error::EmptyProbeSet);
    }
    let mut out: Vec<ProbeMeasurement> = Vec::new();
    let mut next: usize = 0;
    let ghost mut calls: Seq<BackendCall> = Seq::empty();
    assert(before =~= before + calls);
    while next < probes.len()
        invariant
            next <= probes@.len(),
            models == compiled_models(probes@),
            before == old(backend).history(),
            backend.history() == before + calls,
            calls.len() == next,
            out@.len() == next,
            forall|i: int|
                0 <= i < next ==> models[i].asks(#[trigger] calls[i]) && gap_reply(calls[i])
                    is Ok,
            forall|i: int|
                0 <= i < next ==> (#[trigger] out@[i])@ == models[i].measured(
                    gap_reply(calls[i])->Ok_0,
                ),
        decreases probes@.len() - next,
    {
        let probe: &CompiledProbe = &probes[next];
        let reply: Result<Binary32, Error> = backend.logit_gap(
            probe.prompt_tokens.as_slice(),
            probe.correct_id,
            probe.wrong_id,
        );
        proof {
            let call = backend.history().last();
            assert((before + calls).push(call) =~= before + calls.push(call));
            calls = calls.push(call);
        }
        match reply {
            Err(error) => {
                assert(backend.history().skip(before.len() as int) =~= calls);
                return Err(error);
            },
            Ok(gap) => {
                out.push(
                    ProbeMeasurement {
                        name: probe.probe.name.clone(),
                        category: probe.probe.category.clone(),
                        prompt: probe.probe.prompt.clone(),
                        correct_token: probe.probe.correct_token.clone(),
                        wrong_token: probe.probe.wrong_token.clone(),
                        correct_id: probe.correct_id,
                        wrong_id: probe.wrong_id,
                        gap,
                    },
                );
            },
        }
        next = next + 1;
    }
    proof {
        assert(backend.history().skip(before.len() as int) =~= calls);
        let outcome = gap_outcome(models, calls)->Ok_0;
        assert(measurement_models(out@) =~= outcome);
    }
    Ok(out)
}

/// The text of a gap that is not finite.
fn non_finite_word(gap: Binary32) -> (r: &'static str)
    ensures
        r@ == non_finite_text(gap),
{
    if gap.is_nan() {
        "NaN"
    } else if gap.bits >= 0x8000_0000 {
        "-inf"
    } else {
        "inf"
    }
}

/// Refuses measurements of which one is not finite.
pub fn require_finite(measurements: &[ProbeMeasurement]) -> (r: Result<(), Error>)
    ensures
        match non_finite_fault(measurement_models(measurements@), 0) {
            None => r is Ok,
            Some(error) => r matches Err(e) && e@ == error,
        },
{
    let ghost models = measurement_models(measurements@);
    let mut next: usize = 0;
    while next < measurements.len()
        invariant
            next <= measurements@.len(),
            models == measurement_models(measurements@),
            non_finite_fault(models, 0) == non_finite_fault(models, next as int),
        decreases measurements@.len() - next,
    {
        let measurement: &ProbeMeasurement = &measurements[next];
        assert(models[next as int] == measurement@);
        if !measurement.gap.is_finite() {
            let mut text: String = "probe ".to_owned();
            text.append(measurement.name.as_str());
            text.append(" produced non-finite gap ");
            text.append(non_finite_word(measurement.gap));
            return Err(Error::MeasurementMismatch(text));
        }
        next = next + 1;
    }
    Ok(())
}

/// Measures the gaps of probes. A gap that is not finite is an error, so that no
/// report ever holds one.
pub fn measure_probes<B: MiyagiBackend>(backend: &mut B, probes: &[CompiledProbe]) -> (r: Result<
    Vec<ProbeMeasurement>,
    Error,
>)
    ensures
        crate::backend::continues(old(backend).history(), final(backend).history()),
        ({
            let models = compiled_models(probes@);
            let calls = crate::backend::calls_since(
                old(backend).history(),
                final(backend).history(),
            );
            &&& gap_requests(models, calls)
            &&& measured_view(r) == finite_gap_outcome(models, calls)
        }),
{
    match measure_probes_allowing_non_finite(backend, probes) {
        Err(error) => Err(error),
        Ok(measurements) => match require_finite(measurements.as_slice()) {
            Err(error) => Err(error),
            Ok(()) => Ok(measurements),
        },
    }
}

proof fn lemma_finite_from(measurements: Seq<MeasurementModel>, from: int)
    requires
        0 <= from <= measurements.len(),
    ensures
        non_finite_fault(measurements, from) is None <==> forall|i: int|
            from <= i < measurements.len() ==> (#[trigger] measurements[i]).gap.finite(),
    decreases measurements.len() - from,
{
    if from < measurements.len() {
        lemma_finite_from(measurements, from + 1);
    }
}

/// Measurements that are accepted hold finite gaps only, one for each probe and
/// under its name, and every measurement with finite gaps only is accepted.
pub proof fn law_accepted_measurements_are_finite(
    probes: Seq<CompiledModel>,
    calls: Seq<BackendCall>,
)
    requires
        gap_requests(probes, calls),
    ensures
        finite_gap_outcome(probes, calls) matches Ok(measurements) ==> {
            &&& measurements.len() == probes.len()
            &&& forall|i: int|
                0 <= i < probes.len() ==> {
                    &&& (#[trigger] measurements[i]).gap.finite()
                    &&& measurements[i].name == probes[i].probe.name
                }
        },
        gap_outcome(probes, calls) matches Ok(measurements) ==> (forall|i: int|
            0 <= i < measurements.len() ==> (#[trigger] measurements[i]).gap.finite())
            ==> finite_gap_outcome(probes, calls) == Ok::<Seq<MeasurementModel>, ErrorModel>(
            measurements,
        ),
{
    if let Ok(measurements) = gap_outcome(probes, calls) {
        lemma_finite_from(measurements, 0);
    }
}

/// Measuring flips nothing.
pub proof fn law_measuring_flips_nothing(
    rows: Set<crate::patch::PatchFlip>,
    probes: Seq<CompiledModel>,
    calls: Seq<BackendCall>,
)
    requires
        gap_requests(probes, calls),
    ensures
        crate::backend::flipped(rows, calls) == rows,
{
    assert forall|i: int| 0 <= i < calls.len() implies !(#[trigger] calls[i] is FlipRow) by {
        assert(probes[i].asks(calls[i]));
    }
    crate::backend::lemma_flipped_unchanged(rows, calls);
}

/// A probe of the built-in sets.
pub open spec fn built_in_probe(
    prompt: Seq<char>,
    correct_token: Seq<char>,
    wrong_token: Seq<char>,
    name: Seq<char>,
    category: Seq<char>,
) -> ProbeModel {
    ProbeModel { prompt, correct_token, wrong_token, name, category }
}

/// The probes of the set `math`.
pub open spec fn math_set() -> Seq<ProbeModel> {
    seq![
        built_in_probe(
            "1 + 1 ="@,
            " 2"@,
            " 3"@,
            "add_1"@,
            "math"@,
        ),
        built_in_probe(
            "2 + 2 ="@,
            " 4"@,
            " 5"@,
            "add_2"@,
            "math"@,
        ),
        built_in_probe(
            "7 * 8 ="@,
            " 56"@,
            " 54"@,
            "mul_1"@,
            "math"@,
        ),
        built_in_probe(
            "The square root of 144 is"@,
            " 12"@,
            " 14"@,
            "sqrt_1"@,
            "math"@,
        ),
        built_in_probe(
            "If x = 3, then x^2 ="@,
            " 9"@,
            " 8"@,
            "algebra_1"@,
            "math"@,
        ),
        built_in_probe(
            "100 / 4 ="@,
            " 25"@,
            " 20"@,
            "div_1"@,
            "math"@,
        ),
    ]
}

pub fn math_probes() -> (r: Vec<Probe>)
    ensures
        probe_models(r@) == math_set(),
{
    let mut out: Vec<Probe> = Vec::new();
    out.push(Probe::new("1 + 1 =", " 2", " 3", "add_1", "math"));
    out.push(Probe::new("2 + 2 =", " 4", " 5", "add_2", "math"));
    out.push(Probe::new("7 * 8 =", " 56", " 54", "mul_1", "math"));
    out.push(Probe::new("The square root of 144 is", " 12", " 14", "sqrt_1", "math"));
    out.push(Probe::new("If x = 3, then x^2 =", " 9", " 8", "algebra_1", "math"));
    out.push(Probe::new("100 / 4 =", " 25", " 20", "div_1", "math"));
    assert(probe_models(out@) =~= math_set());
    out
}

/// The probes of the set `code`.
pub open spec fn code_set() -> Seq<ProbeModel> {
    seq![
        built_in_probe(
            "def hello():\n    print(\"Hello"@,
            " World"@,
            " Goodbye"@,
            "hello_world"@,
            "code"@,
        ),
        built_in_probe(
            "In Python, to open a file you use the"@,
            " open"@,
            " close"@,
            "python_open"@,
            "code"@,
        ),
        built_in_probe(
            "for i in range(10):\n    print("@,
            "i"@,
            "x"@,
            "for_loop"@,
            "code"@,
        ),
        built_in_probe(
            "import json\ndata = json."@,
            "loads"@,
            "dump"@,
            "json_loads"@,
            "code"@,
        ),
    ]
}

pub fn code_probes() -> (r: Vec<Probe>)
    ensures
        probe_models(r@) == code_set(),
{
    let mut out: Vec<Probe> = Vec::new();
    out.push(
        Probe::new(
            "def hello():\n    print(\"Hello",
            " World",
            " Goodbye",
            "hello_world",
            "code",
        ),
    );
    out.push(
        Probe::new(
            "In Python, to open a file you use the",
            " open",
            " close",
            "python_open",
            "code",
        ),
    );
    out.push(Probe::new("for i in range(10):\n    print(", "i", "x", "for_loop", "code"));
    out.push(Probe::new("import json\ndata = json.", "loads", "dump", "json_loads", "code"));
    assert(probe_models(out@) =~= code_set());
    out
}

/// The probes of the set `knowledge`.
pub open spec fn knowledge_set() -> Seq<ProbeModel> {
    seq![
        built_in_probe(
            "The capital of France is"@,
            " Paris"@,
            " London"@,
            "france_capital"@,
            "knowledge"@,
        ),
        built_in_probe(
            "The capital of Japan is"@,
            " Tokyo"@,
            " Beijing"@,
            "japan_capital"@,
            "knowledge"@,
        ),
        built_in_probe(
            "The color of the sky is"@,
            " blue"@,
            " red"@,
            "sky_color"@,
            "knowledge"@,
        ),
        built_in_probe(
            "Einstein is famous for the theory of"@,
            " relativity"@,
            " evolution"@,
            "einstein"@,
            "knowledge"@,
        ),
        built_in_probe(
            "The chemical formula for water is H"@,
            "2"@,
            "3"@,
            "water_formula"@,
            "knowledge"@,
        ),
    ]
}

pub fn knowledge_probes() -> (r: Vec<Probe>)
    ensures
        probe_models(r@) == knowledge_set(),
{
    let mut out: Vec<Probe> = Vec::new();
    out.push(
        Probe::new(
            "The capital of France is",
            " Paris",
            " London",
            "france_capital",
            "knowledge",
        ),
    );
    out.push(
        Probe::new(
            "The capital of Japan is",
            " Tokyo",
            " Beijing",
            "japan_capital",
            "knowledge",
        ),
    );
    out.push(Probe::new("The color of the sky is", " blue", " red", "sky_color", "knowledge"));
    out.push(
        Probe::new(
            "Einstein is famous for the theory of",
            " relativity",
            " evolution",
            "einstein",
            "knowledge",
        ),
    );
    out.push(
        Probe::new(
            "The chemical formula for water is H",
            "2",
            "3",
            "water_formula",
            "knowledge",
        ),
    );
    assert(probe_models(out@) =~= knowledge_set());
    out
}

/// The built-in set of a name.
pub open spec fn built_in_set(name: Seq<char>) -> Option<Seq<ProbeModel>> {
    if name == "math"@ {
        Some(math_set())
    } else if name == "code"@ {
        Some(code_set())
    } else if name == "knowledge"@ {
        Some(knowledge_set())
    } else {
        None
    }
}

pub fn built_in(name: &str) -> (r: Option<Vec<Probe>>)
    ensures
        match built_in_set(name@) {
            Some(probes) => r matches Some(found) && probe_models(found@) == probes,
            None => r is None,
        },
{
    if crate::text::same_text(name, "math") {
        Some(math_probes())
    } else if crate::text::same_text(name, "code") {
        Some(code_probes())
    } else if crate::text::same_text(name, "knowledge") {
        Some(knowledge_probes())
    } else {
        None
    }
}

proof fn lemma_math_set_is_accepted()
    ensures
        set_fault(math_set()) is None,
{
    reveal_strlit("1 + 1 =");
    reveal_strlit(" 2");
    reveal_strlit(" 3");
    reveal_strlit("add_1");
    reveal_strlit("2 + 2 =");
    reveal_strlit(" 4");
    reveal_strlit(" 5");
    reveal_strlit("add_2");
    reveal_strlit("7 * 8 =");
    reveal_strlit(" 56");
    reveal_strlit(" 54");
    reveal_strlit("mul_1");
    reveal_strlit("The square root of 144 is");
    reveal_strlit(" 12");
    reveal_strlit(" 14");
    reveal_strlit("sqrt_1");
    reveal_strlit("If x = 3, then x^2 =");
    reveal_strlit(" 9");
    reveal_strlit(" 8");
    reveal_strlit("algebra_1");
    reveal_strlit("100 / 4 =");
    reveal_strlit(" 25");
    reveal_strlit(" 20");
    reveal_strlit("div_1");
    let probes = math_set();
    assert(probes[0].name.len() == 5);
    assert(probes[0].name[0] == 'a');
    assert(probes[0].name[4] == '1');
    assert(probes[1].name.len() == 5);
    assert(probes[1].name[0] == 'a');
    assert(probes[1].name[4] == '2');
    assert(probes[2].name.len() == 5);
    assert(probes[2].name[0] == 'm');
    assert(probes[3].name.len() == 6);
    assert(probes[4].name.len() == 9);
    assert(probes[5].name.len() == 5);
    assert(probes[5].name[0] == 'd');
    law_accepted_probe_sets(probes);
}

proof fn lemma_code_set_is_accepted()
    ensures
        set_fault(code_set()) is None,
{
    reveal_strlit("def hello():\n    print(\"Hello");
    reveal_strlit(" World");
    reveal_strlit(" Goodbye");
    reveal_strlit("hello_world");
    reveal_strlit("In Python, to open a file you use the");
    reveal_strlit(" open");
    reveal_strlit(" close");
    reveal_strlit("python_open");
    reveal_strlit("for i in range(10):\n    print(");
    reveal_strlit("i");
    reveal_strlit("x");
    reveal_strlit("for_loop");
    reveal_strlit("import json\ndata = json.");
    reveal_strlit("loads");
    reveal_strlit("dump");
    reveal_strlit("json_loads");
    let probes = code_set();
    assert(probes[0].name.len() == 11);
    assert(probes[0].name[0] == 'h');
    assert(probes[1].name.len() == 11);
    assert(probes[1].name[0] == 'p');
    assert(probes[2].name.len() == 8);
    assert(probes[3].name.len() == 10);
    law_accepted_probe_sets(probes);
}

proof fn lemma_knowledge_set_is_accepted()
    ensures
        set_fault(knowledge_set()) is None,
{
    reveal_strlit("The capital of France is");
    reveal_strlit(" Paris");
    reveal_strlit(" London");
    reveal_strlit("france_capital");
    reveal_strlit("The capital of Japan is");
    reveal_strlit(" Tokyo");
    reveal_strlit(" Beijing");
    reveal_strlit("japan_capital");
    reveal_strlit("The color of the sky is");
    reveal_strlit(" blue");
    reveal_strlit(" red");
    reveal_strlit("sky_color");
    reveal_strlit("Einstein is famous for the theory of");
    reveal_strlit(" relativity");
    reveal_strlit(" evolution");
    reveal_strlit("einstein");
    reveal_strlit("The chemical formula for water is H");
    reveal_strlit("2");
    reveal_strlit("3");
    reveal_strlit("water_formula");
    let probes = knowledge_set();
    assert(probes[0].name.len() == 14);
    assert(probes[1].name.len() == 13);
    assert(probes[1].name[0] == 'j');
    assert(probes[2].name.len() == 9);
    assert(probes[3].name.len() == 8);
    assert(probes[4].name.len() == 13);
    assert(probes[4].name[0] == 'w');
    law_accepted_probe_sets(probes);
}

/// Every built-in set is accepted as a set of probes.
pub proof fn law_built_in_sets_are_accepted(name: Seq<char>)
    ensures
        built_in_set(name) matches Some(probes) ==> set_fault(probes) is None,
{
    lemma_math_set_is_accepted();
    lemma_code_set_is_accepted();
    lemma_knowledge_set_is_accepted();
}

} // verus!
