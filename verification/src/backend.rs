//! What the library asks of a model, and the record of the answers.

use vstd::prelude::*;

use crate::architecture::{ArchitectureMap, ArchitectureModel, Projection};
use crate::error::{Error, ErrorModel};
use crate::float::Binary32;
use crate::patch::PatchFlip;

verus! {

/// How an answer text becomes one token.
#[derive(Clone, Copy, Debug, PartialEq, Eq, Structural)]
pub enum TokenMode {
    /// The last token stands for the whole text.
    LastTokenCompatibility,
    /// The text must be a single token.
    StrictSingle,
}

/// How a model is loaded.
#[derive(Clone, Copy, Debug, PartialEq, Eq, Structural)]
pub struct BackendConfig {
    pub n_ctx: u32,
    pub n_batch: u32,
    pub n_ubatch: u32,
    pub n_threads: i32,
    pub n_threads_batch: i32,
    pub n_gpu_layers: i32,
    pub mutable_tensors: bool,
    pub add_special: bool,
    pub parse_special: bool,
}

/// How a model generates text.
#[derive(Clone, Copy, Debug, PartialEq, Eq, Structural)]
pub struct GenerateConfig {
    pub max_new_tokens: usize,
    pub seed: u32,
}

/// The answer of a model.
pub open spec fn answer<T>(result: Result<T, Error>) -> Result<T, ErrorModel> {
    match result {
        Ok(value) => Ok(value),
        Err(error) => Err(error@),
    }
}

/// The answer of a model that is a list.
pub open spec fn list_answer<T>(result: Result<Vec<T>, Error>) -> Result<Seq<T>, ErrorModel> {
    match result {
        Ok(value) => Ok(value@),
        Err(error) => Err(error@),
    }
}

/// The answer of a model that is a text.
pub open spec fn text_answer(result: Result<String, Error>) -> Result<Seq<char>, ErrorModel> {
    match result {
        Ok(value) => Ok(value@),
        Err(error) => Err(error@),
    }
}

/// What a model shows of itself.
pub struct Sight {
    /// What `architecture` hands out.
    pub map: ArchitectureModel,
    /// What `model_label` hands out.
    pub label: Seq<char>,
}

/// A request to a model that may change it, the answer, and what the model shows of
/// itself from then on.
#[allow(inconsistent_fields)]
pub enum BackendCall {
    /// The model was loaded.
    Loaded { sight: Sight },
    RowScales {
        layer: usize,
        projection: Projection,
        reply: Result<Seq<Binary32>, ErrorModel>,
        sight: Sight,
    },
    FlipRow { flip: PatchFlip, reply: Result<(), ErrorModel>, sight: Sight },
    LogitGap {
        prompt: Seq<i32>,
        correct: i32,
        wrong: i32,
        reply: Result<Binary32, ErrorModel>,
        sight: Sight,
    },
    Generate {
        prompt: Seq<char>,
        config: GenerateConfig,
        reply: Result<Seq<char>, ErrorModel>,
        sight: Sight,
    },
}

impl BackendCall {
    /// What the model shows of itself after the request.
    pub open spec fn sight(self) -> Sight {
        match self {
            BackendCall::Loaded { sight } => sight,
            BackendCall::RowScales { sight, .. } => sight,
            BackendCall::FlipRow { sight, .. } => sight,
            BackendCall::LogitGap { sight, .. } => sight,
            BackendCall::Generate { sight, .. } => sight,
        }
    }
}

/// What a model with this history shows of itself.
pub open spec fn shown(history: Seq<BackendCall>) -> Sight {
    history.last().sight()
}

/// What a model shows of itself after the requests, where it showed `first` before
/// them.
pub open spec fn seen(first: Sight, calls: Seq<BackendCall>) -> Sight {
    if calls.len() == 0 {
        first
    } else {
        calls.last().sight()
    }
}

/// A model that can be measured and whose rows can be flipped.
///
/// The specification functions record what was asked and answered. They are not
/// there when the library runs, and a model need not define them unless it is itself
/// to be verified. Nothing is promised of the answers: the same request may be
/// answered differently the next time, and each may fail.
pub trait MiyagiBackend: Sized {
    /// How the model was loaded, and all requests since then that may have changed it,
    /// with their answers.
    closed spec fn history(&self) -> Seq<BackendCall> {
        arbitrary()
    }

    /// Whether `reply` is an answer that `tokenize` may give.
    closed spec fn tokenizes(&self, text: Seq<char>, reply: Result<Seq<i32>, ErrorModel>) -> bool {
        arbitrary()
    }

    fn architecture(&self) -> (r: &ArchitectureMap)
        ensures
            r@ == shown(self.history()).map,
    ;

    fn model_label(&self) -> (r: &str)
        ensures
            r@ == shown(self.history()).label,
    ;

    fn tokenize(&self, text: &str) -> (r: Result<Vec<i32>, Error>)
        ensures
            self.tokenizes(text@, list_answer(r)),
    ;

    fn row_scales(&mut self, layer: usize, projection: Projection) -> (r: Result<
        Vec<Binary32>,
        Error,
    >)
        ensures
            final(self).history() == old(self).history().push(
                BackendCall::RowScales {
                    layer,
                    projection,
                    reply: list_answer(r),
                    sight: shown(final(self).history()),
                },
            ),
    ;

    fn flip_row(&mut self, layer: usize, projection: Projection, row: usize) -> (r: Result<
        (),
        Error,
    >)
        ensures
            final(self).history() == old(self).history().push(
                BackendCall::FlipRow {
                    flip: (PatchFlip { layer, proj: projection, row }),
                    reply: answer(r),
                    sight: shown(final(self).history()),
                },
            ),
    ;

    fn logit_gap(&mut self, prompt: &[i32], correct: i32, wrong: i32) -> (r: Result<
        Binary32,
        Error,
    >)
        ensures
            final(self).history() == old(self).history().push(
                BackendCall::LogitGap {
                    prompt: prompt@,
                    correct,
                    wrong,
                    reply: answer(r),
                    sight: shown(final(self).history()),
                },
            ),
    ;

    fn generate(&mut self, prompt: &str, config: &GenerateConfig) -> (r: Result<String, Error>)
        ensures
            final(self).history() == old(self).history().push(
                BackendCall::Generate {
                    prompt: prompt@,
                    config: *config,
                    reply: text_answer(r),
                    sight: shown(final(self).history()),
                },
            ),
    ;
}

/// The requests of `now` that came after those of `before`.
pub open spec fn calls_since(before: Seq<BackendCall>, now: Seq<BackendCall>) -> Seq<BackendCall> {
    now.skip(before.len() as int)
}

/// `now` continues `before`.
pub open spec fn continues(before: Seq<BackendCall>, now: Seq<BackendCall>) -> bool {
    now == before + calls_since(before, now)
}

/// Requests that came in two parts.
pub proof fn lemma_calls_concat(
    before: Seq<BackendCall>,
    middle: Seq<BackendCall>,
    now: Seq<BackendCall>,
)
    requires
        continues(before, middle),
        continues(middle, now),
    ensures
        continues(before, now),
        calls_since(before, now) == calls_since(before, middle) + calls_since(middle, now),
{
    let first = calls_since(before, middle);
    let second = calls_since(middle, now);
    assert(now =~= before + (first + second));
    assert(calls_since(before, now) =~= first + second);
}

/// What a model shows of itself follows from what it showed before and from the
/// requests since.
pub proof fn lemma_shown(before: Seq<BackendCall>, now: Seq<BackendCall>)
    requires
        continues(before, now),
    ensures
        shown(now) == seen(shown(before), calls_since(before, now)),
{
    let calls = calls_since(before, now);
    if calls.len() == 0 {
        assert(now =~= before);
    } else {
        assert(now.last() == calls.last());
    }
}

pub proof fn lemma_seen_concat(first: Sight, a: Seq<BackendCall>, b: Seq<BackendCall>)
    ensures
        seen(first, a + b) == seen(seen(first, a), b),
{
    if b.len() == 0 {
        assert(a + b =~= a);
    }
}

/// No requests at all.
pub proof fn lemma_no_calls(history: Seq<BackendCall>)
    ensures
        continues(history, history),
        calls_since(history, history) == Seq::<BackendCall>::empty(),
{
    assert(calls_since(history, history) =~= Seq::<BackendCall>::empty());
    assert(history =~= history + calls_since(history, history));
}

/// The first `count` requests, or all where there are fewer.
pub open spec fn head(calls: Seq<BackendCall>, count: nat) -> Seq<BackendCall> {
    if count < calls.len() {
        calls.take(count as int)
    } else {
        calls
    }
}

/// The requests after the first `count`.
pub open spec fn tail(calls: Seq<BackendCall>, count: nat) -> Seq<BackendCall> {
    if count < calls.len() {
        calls.skip(count as int)
    } else {
        seq![]
    }
}

pub proof fn lemma_head_tail(first: Seq<BackendCall>, second: Seq<BackendCall>, count: nat)
    requires
        first.len() == count || (first.len() < count && second.len() == 0),
    ensures
        head(first + second, count) == first,
        tail(first + second, count) == second,
        second.len() == 0 ==> first + second == first,
{
    if second.len() == 0 {
        assert(first + second =~= first);
    }
    assert(head(first + second, count) =~= first);
    assert(tail(first + second, count) =~= second);
}

/// The rows that are flipped after the requests, where those in `rows` were
/// flipped before them. A flip that failed does not count.
pub open spec fn flipped(rows: Set<PatchFlip>, calls: Seq<BackendCall>) -> Set<PatchFlip>
    decreases calls.len(),
{
    if calls.len() == 0 {
        rows
    } else {
        let before = flipped(rows, calls.drop_last());
        match calls.last() {
            BackendCall::FlipRow { flip, reply, .. } => if reply is Ok {
                crate::patch::toggled(before, flip)
            } else {
                before
            },
            _ => before,
        }
    }
}

pub proof fn lemma_flipped_concat(
    rows: Set<PatchFlip>,
    first: Seq<BackendCall>,
    second: Seq<BackendCall>,
)
    ensures
        flipped(rows, first + second) == flipped(flipped(rows, first), second),
    decreases second.len(),
{
    if second.len() == 0 {
        assert(first + second =~= first);
    } else {
        assert((first + second).drop_last() =~= first + second.drop_last());
        lemma_flipped_concat(rows, first, second.drop_last());
    }
}

/// Requests that flip nothing leave the flipped rows as they are.
pub proof fn lemma_flipped_unchanged(rows: Set<PatchFlip>, calls: Seq<BackendCall>)
    requires
        forall|i: int| 0 <= i < calls.len() ==> !(#[trigger] calls[i] is FlipRow),
    ensures
        flipped(rows, calls) == rows,
    decreases calls.len(),
{
    if calls.len() > 0 {
        lemma_flipped_unchanged(rows, calls.drop_last());
        assert(calls.last() == calls[calls.len() - 1]);
    }
}

/// The two entries are the same request.
pub open spec fn same_request(a: BackendCall, b: BackendCall) -> bool {
    match a {
        BackendCall::Loaded { .. } => false,
        BackendCall::RowScales { layer, projection, .. } => b is RowScales && b->layer == layer
            && b->projection == projection,
        BackendCall::FlipRow { flip, .. } => b is FlipRow && b->flip == flip,
        BackendCall::LogitGap { prompt, correct, wrong, .. } => b is LogitGap
            && b->LogitGap_prompt == prompt && b->correct == correct && b->wrong == wrong,
        BackendCall::Generate { prompt, config, .. } => b is Generate && b->Generate_prompt
            == prompt && b->config == config,
    }
}

/// The two courses are answered alike: the same request after the same requests has
/// the same answer.
pub open spec fn alike(a: Seq<BackendCall>, b: Seq<BackendCall>) -> bool {
    forall|i: int|
        0 <= i < a.len() && i < b.len() && a.take(i) == b.take(i) && #[trigger] same_request(
            a[i],
            b[i],
        ) ==> a[i] == b[i]
}

pub proof fn lemma_alike_parts(
    a: Seq<BackendCall>,
    more_a: Seq<BackendCall>,
    b: Seq<BackendCall>,
    more_b: Seq<BackendCall>,
)
    requires
        alike(a + more_a, b + more_b),
    ensures
        alike(a, b),
        a == b ==> alike(more_a, more_b),
{
    let all_a = a + more_a;
    let all_b = b + more_b;
    assert forall|i: int|
        0 <= i < a.len() && i < b.len() && a.take(i) == b.take(i) && #[trigger] same_request(
            a[i],
            b[i],
        ) implies a[i] == b[i] by {
        assert(all_a.take(i) =~= a.take(i));
        assert(all_b.take(i) =~= b.take(i));
        assert(same_request(all_a[i], all_b[i]));
    }
    if a == b {
        assert forall|i: int|
            0 <= i < more_a.len() && i < more_b.len() && more_a.take(i) == more_b.take(i)
                && #[trigger] same_request(more_a[i], more_b[i]) implies more_a[i]
            == more_b[i] by {
            let j = a.len() + i;
            assert(all_a.take(j) =~= a + more_a.take(i));
            assert(all_b.take(j) =~= b + more_b.take(i));
            assert(all_a[j] == more_a[i] && all_b[j] == more_b[i]);
            assert(same_request(all_a[j], all_b[j]));
        }
    }
}

/// The same requests have the same answers where they are answered alike.
pub proof fn lemma_alike_answers(a: Seq<BackendCall>, b: Seq<BackendCall>, count: nat)
    requires
        alike(a, b),
        count <= a.len(),
        count <= b.len(),
        forall|i: int| 0 <= i < count ==> #[trigger] same_request(a[i], b[i]),
    ensures
        a.take(count as int) == b.take(count as int),
    decreases count,
{
    if count > 0 {
        let last = count - 1;
        lemma_alike_answers(a, b, last as nat);
        assert(same_request(a[last], b[last]));
        assert(a.take(count as int) =~= a.take(last).push(a[last]));
        assert(b.take(count as int) =~= b.take(last).push(b[last]));
    } else {
        assert(a.take(0) =~= b.take(0));
    }
}

} // verus!
