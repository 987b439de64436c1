//! A search that was interrupted and taken up again, against one that was not.

use vstd::prelude::*;

use crate::architecture::{ArchitectureModel, Projection};
use crate::backend::{BackendCall, GenerateConfig, Sight};
use crate::error::ErrorModel;
use crate::fitness::FitnessMode;
use crate::float::Binary32;
use crate::patch::PatchFlip;
use crate::probe::MeasurementModel;
use crate::search::checkpoint::CheckpointModel;
use crate::search::config::ConfigModel;
use crate::search::evaluate::ReadingModel;
use crate::search::host::HostCall;
use crate::search::pool::Candidate;
use crate::search::report::ResultModel;
use crate::search::run::{Iteration, Run};
use crate::search::state::{SessionModel, Setup};

verus! {

/// A model whose answers follow from the rows that are flipped in it, and which shows
/// the same of itself whatever is flipped.
pub struct RowModel {
    pub sight: Sight,
    pub scales: spec_fn(Set<PatchFlip>, usize, Projection) -> Result<Seq<Binary32>, ErrorModel>,
    pub flip: spec_fn(Set<PatchFlip>, PatchFlip) -> Result<(), ErrorModel>,
    pub gap: spec_fn(Set<PatchFlip>, Seq<i32>, i32, i32) -> Result<Binary32, ErrorModel>,
    pub text: spec_fn(Set<PatchFlip>, Seq<char>, GenerateConfig) -> Result<Seq<char>, ErrorModel>,
}

impl RowModel {
    /// The model answers so where the rows are flipped.
    pub open spec fn answers(self, rows: Set<PatchFlip>, call: BackendCall) -> bool {
        &&& call.sight() == self.sight
        &&& match call {
            BackendCall::Loaded { .. } => true,
            BackendCall::RowScales { layer, projection, reply, .. } => reply == (self.scales)(
                rows,
                layer,
                projection,
            ),
            BackendCall::FlipRow { flip, reply, .. } => reply == (self.flip)(rows, flip),
            BackendCall::LogitGap { prompt, correct, wrong, reply, .. } => reply == (self.gap)(
                rows,
                prompt,
                correct,
                wrong,
            ),
            BackendCall::Generate { prompt, config, reply, .. } => reply == (self.text)(
                rows,
                prompt,
                config,
            ),
        }
    }

    /// The model gives the answer with the number `i`, where the rows are flipped before
    /// all of them.
    #[verifier::opaque]
    pub open spec fn gives_one(
        self,
        rows: Set<PatchFlip>,
        calls: Seq<BackendCall>,
        i: int,
    ) -> bool {
        self.answers(crate::backend::flipped(rows, calls.take(i)), calls[i])
    }

    /// The model gives all of these answers, where the rows are flipped before.
    pub open spec fn gives(self, rows: Set<PatchFlip>, calls: Seq<BackendCall>) -> bool {
        forall|i: int| 0 <= i < calls.len() ==> #[trigger] self.gives_one(rows, calls, i)
    }
}

/// A host that picks rows by the weights and the ticket alone, and computes the fitness
/// from the measurements alone. When it asks to stop and what it saves is left open.
pub struct SteadyHost {
    pub weigh: spec_fn(Seq<Binary32>, u64) -> Option<usize>,
    pub fitness: spec_fn(
        FitnessMode,
        Binary32,
        Seq<MeasurementModel>,
        Seq<MeasurementModel>,
        Seq<MeasurementModel>,
        Seq<MeasurementModel>,
    ) -> Result<Binary32, ErrorModel>,
}

impl SteadyHost {
    pub open spec fn answers(self, call: HostCall) -> bool {
        match call {
            HostCall::Weigh { weights, ticket, reply } => reply == (self.weigh)(weights, ticket),
            HostCall::Fitness {
                mode,
                control_penalty,
                target,
                control,
                target_baseline,
                control_baseline,
                reply,
            } => reply == (self.fitness)(
                mode,
                control_penalty,
                target,
                control,
                target_baseline,
                control_baseline,
            ),
            _ => true,
        }
    }

    /// The host gives all of these answers.
    pub open spec fn gives(self, asked: Seq<HostCall>) -> bool {
        forall|i: int| 0 <= i < asked.len() ==> self.answers(#[trigger] asked[i])
    }
}

proof fn lemma_gives_parts(
    model: RowModel,
    rows: Set<PatchFlip>,
    first: Seq<BackendCall>,
    second: Seq<BackendCall>,
)
    requires
        model.gives(rows, first + second),
    ensures
        model.gives(rows, first),
        model.gives(crate::backend::flipped(rows, first), second),
{
    let all = first + second;
    let middle = crate::backend::flipped(rows, first);
    assert forall|i: int| 0 <= i < first.len() implies #[trigger] model.gives_one(
        rows,
        first,
        i,
    ) by {
        assert(model.gives_one(rows, all, i));
        assert(all.take(i) =~= first.take(i));
        reveal(RowModel::gives_one);
    }
    assert forall|i: int| 0 <= i < second.len() implies #[trigger] model.gives_one(
        middle,
        second,
        i,
    ) by {
        let j = first.len() + i;
        assert(model.gives_one(rows, all, j));
        assert(all.take(j) =~= first + second.take(i));
        crate::backend::lemma_flipped_concat(rows, first, second.take(i));
        reveal(RowModel::gives_one);
    }
}

proof fn lemma_host_gives_parts(host: SteadyHost, first: Seq<HostCall>, second: Seq<HostCall>)
    requires
        host.gives(first + second),
    ensures
        host.gives(first),
        host.gives(second),
{
    let all = first + second;
    assert forall|i: int| 0 <= i < first.len() implies host.answers(#[trigger] first[i]) by {
        assert(all[i] == first[i]);
    }
    assert forall|i: int| 0 <= i < second.len() implies host.answers(#[trigger] second[i]) by {
        assert(all[first.len() + i] == second[i]);
    }
}

/// What such a model answers is answered alike.
proof fn lemma_gives_alike(
    model: RowModel,
    rows: Set<PatchFlip>,
    a: Seq<BackendCall>,
    b: Seq<BackendCall>,
)
    requires
        model.gives(rows, a),
        model.gives(rows, b),
    ensures
        crate::backend::alike(a, b),
{
    assert forall|i: int|
        0 <= i < a.len() && i < b.len() && a.take(i) == b.take(i)
            && #[trigger] crate::backend::same_request(a[i], b[i]) implies a[i] == b[i] by {
        assert(model.gives_one(rows, a, i));
        assert(model.gives_one(rows, b, i));
        reveal(RowModel::gives_one);
    }
}

/// Such a model shows the same of itself after all requests.
proof fn lemma_shows_the_same(model: RowModel, rows: Set<PatchFlip>, calls: Seq<BackendCall>)
    requires
        model.gives(rows, calls),
    ensures
        crate::backend::seen(model.sight, calls) == model.sight,
{
    if calls.len() > 0 {
        assert(model.gives_one(rows, calls, calls.len() - 1));
        reveal(RowModel::gives_one);
    }
}

/// Iterations in two parts.
proof fn lemma_iterations_split(begun: SessionModel, iterations: Seq<Iteration>, count: int)
    requires
        crate::search::run::iterations_follow(begun, iterations),
        0 <= count <= iterations.len(),
    ensures
        ({
            let first = iterations.take(count);
            let second = iterations.skip(count);
            let middle = crate::search::run::after_iterations(begun, first);
            &&& crate::search::run::iterations_follow(begun, first)
            &&& crate::search::run::iterations_follow(middle, second)
            &&& crate::search::run::after_iterations(begun, iterations)
                == crate::search::run::after_iterations(middle, second)
            &&& crate::search::run::iteration_calls(iterations)
                == crate::search::run::iteration_calls(first)
                + crate::search::run::iteration_calls(second)
            &&& crate::search::run::iteration_records(begun, iterations)
                == crate::search::run::iteration_records(begun, first)
                + crate::search::run::iteration_records(middle, second)
        }),
    decreases iterations.len(),
{
    let first = iterations.take(count);
    let second = iterations.skip(count);
    let middle = crate::search::run::after_iterations(begun, first);
    if count == iterations.len() {
        assert(first =~= iterations);
        assert(second =~= Seq::<Iteration>::empty());
    } else {
        let less = iterations.drop_last();
        lemma_iterations_split(begun, less, count);
        assert(less.take(count) =~= first);
        assert(second.drop_last() =~= less.skip(count));
        assert(second.last() == iterations.last());
    }
    assert(crate::search::run::iteration_calls(iterations)
        =~= crate::search::run::iteration_calls(first) + crate::search::run::iteration_calls(
        second,
    ));
    assert(crate::search::run::iteration_records(begun, iterations)
        =~= crate::search::run::iteration_records(begun, first)
        + crate::search::run::iteration_records(middle, second));
}

/// One iteration of each of two searches on the same course: the same row is drawn,
/// measured and settled.
#[verifier::spinoff_prover]
proof fn lemma_same_iteration(
    model: RowModel,
    host: SteadyHost,
    rows: Set<PatchFlip>,
    sa: SessionModel,
    ia: Iteration,
    sb: SessionModel,
    ib: Iteration,
)
    requires
        crate::search::laws::same_course(sa, sb),
        ia.follows(sa),
        ib.follows(sb),
        model.gives(rows, ia.measured + ia.settled),
        model.gives(rows, ib.measured + ib.settled),
        host.gives(ia.record(sa)),
        host.gives(ib.record(sb)),
    ensures
        ib == (Iteration { saved: ib.saved, ..ia }),
        crate::search::laws::same_course(ia.after(sa), ib.after(sb)),
        ia.after(sa).screened_out - sa.screened_out == ib.after(sb).screened_out - sb.screened_out,
{
    reveal(Iteration::follows);
    lemma_gives_alike(model, rows, ia.measured + ia.settled, ib.measured + ib.settled);
    crate::backend::lemma_alike_parts(ia.measured, ia.settled, ib.measured, ib.settled);
    assert(sa.available() == sb.available());
    assert(sa.weights() =~= sb.weights());
    assert(ia.record(sa)[1] == (HostCall::Weigh {
        weights: sa.weights(),
        ticket: sa.ticket(),
        reply: ia.reply,
    }));
    assert(ib.record(sb)[1] == (HostCall::Weigh {
        weights: sb.weights(),
        ticket: sb.ticket(),
        reply: ib.reply,
    }));
    assert(ia.reply == ib.reply);
    let pick = crate::search::run::pick_of(sa, ia.reply);
    let ta = ia.trying(sa);
    let tb = ib.trying(sb);
    assert(crate::search::laws::same_course(ta, tb));
    assert(ta.trial() == tb.trial());
    crate::search::replay::lemma_evaluating_determined(
        ta,
        sa.drawn(pick),
        ia.measured,
        Ok(ia.reading),
        ib.measured,
        Ok(ib.reading),
    );
    if let ReadingModel::Measured { target, control } = ia.reading {
        assert(ia.record(sa)[3] == crate::search::run::weighing(
            ta,
            target,
            control,
            Ok(ia.fitness),
        ));
        assert(ib.record(sb)[3] == crate::search::run::weighing(
            tb,
            target,
            control,
            Ok(ib.fitness),
        ));
    }
    assert(ia.fitness == ib.fitness);
    let evaluation = ia.evaluation();
    if ta.accepts(evaluation) {
        assert(ia.settled =~= ib.settled);
    } else {
        let none = Seq::<BackendCall>::empty();
        assert(ia.settled =~= seq![ia.settled[0]] + none);
        assert(ib.settled =~= seq![ib.settled[0]] + none);
        crate::search::replay::lemma_flip_determined(
            ta.pending->Some_0,
            ia.settled[0],
            none,
            ib.settled[0],
            none,
        );
    }
}

/// As many iterations of each of two searches on the same course.
proof fn lemma_same_iterations(
    model: RowModel,
    host: SteadyHost,
    rows: Set<PatchFlip>,
    sa: SessionModel,
    ia: Seq<Iteration>,
    sb: SessionModel,
    ib: Seq<Iteration>,
)
    requires
        crate::search::laws::same_course(sa, sb),
        ia.len() == ib.len(),
        crate::search::run::iterations_follow(sa, ia),
        crate::search::run::iterations_follow(sb, ib),
        model.gives(rows, crate::search::run::iteration_calls(ia)),
        model.gives(rows, crate::search::run::iteration_calls(ib)),
        host.gives(crate::search::run::iteration_records(sa, ia)),
        host.gives(crate::search::run::iteration_records(sb, ib)),
    ensures
        ({
            let after_a = crate::search::run::after_iterations(sa, ia);
            let after_b = crate::search::run::after_iterations(sb, ib);
            &&& crate::search::laws::same_course(after_a, after_b)
            &&& after_a.screened_out - sa.screened_out == after_b.screened_out - sb.screened_out
            &&& crate::search::run::iteration_calls(ia) == crate::search::run::iteration_calls(ib)
        }),
    decreases ia.len(),
{
    if ia.len() > 0 {
        let less_a = ia.drop_last();
        let less_b = ib.drop_last();
        let before_a = crate::search::run::after_iterations(sa, less_a);
        let before_b = crate::search::run::after_iterations(sb, less_b);
        let calls_a = crate::search::run::iteration_calls(less_a);
        let calls_b = crate::search::run::iteration_calls(less_b);
        let last_a = ia.last();
        let last_b = ib.last();
        lemma_gives_parts(model, rows, calls_a, last_a.measured + last_a.settled);
        lemma_gives_parts(model, rows, calls_b, last_b.measured + last_b.settled);
        lemma_host_gives_parts(
            host,
            crate::search::run::iteration_records(sa, less_a),
            last_a.record(before_a),
        );
        lemma_host_gives_parts(
            host,
            crate::search::run::iteration_records(sb, less_b),
            last_b.record(before_b),
        );
        lemma_same_iterations(model, host, rows, sa, less_a, sb, less_b);
        lemma_same_iteration(
            model,
            host,
            crate::backend::flipped(rows, calls_a),
            before_a,
            last_a,
            before_b,
            last_b,
        );
    }
}

/// Two searches that begin with the same answers find the same rows and baselines,
/// whether they take up a checkpoint or not and whatever their ceilings.
proof fn lemma_same_beginning(
    x: Setup,
    y: Setup,
    a: Seq<BackendCall>,
    sa: SessionModel,
    b: Seq<BackendCall>,
    sb: SessionModel,
) -> (found: (Sight, Seq<MeasurementModel>, Seq<MeasurementModel>))
    requires
        x.sight == y.sight,
        x.targets == y.targets,
        x.controls == y.controls,
        x.config == (ConfigModel { max_iters: x.config.max_iters, ..y.config }),
        x.begins(a, Ok(sa)),
        y.begins(b, Ok(sb)),
        crate::backend::alike(a, b),
    ensures
        sa.consistent(),
        sb.consistent(),
        sa == crate::search::state::begun(x, found.0, sa.pool, found.1, found.2, sa.screen),
        sb == crate::search::state::begun(y, found.0, sa.pool, found.1, found.2, sb.screen),
        y.resume matches Some(checkpoint) ==> checkpoint.fault(
            y.config,
            found.0.map.signature,
            found.1,
            found.2,
        ) is None,
{
    reveal(Setup::begins);
    reveal(Setup::measures);
    reveal(Setup::takes_up);
    let coordinates = x.config.coordinates();
    assert(coordinates =~= y.config.coordinates());
    let many = coordinates.len();
    let scales_a = crate::backend::head(a, many);
    let scales_b = crate::backend::head(b, many);
    let rest_a = crate::backend::tail(a, many);
    let rest_b = crate::backend::tail(b, many);
    crate::search::replay::lemma_split(a, many);
    crate::search::replay::lemma_split(b, many);
    crate::backend::lemma_alike_parts(scales_a, rest_a, scales_b, rest_b);
    crate::search::replay::lemma_scales_determined(x.sight, coordinates, scales_a, scales_b);
    let count = x.targets.len() + x.controls.len();
    let gaps_a = crate::backend::head(rest_a, count);
    let gaps_b = crate::backend::head(rest_b, count);
    let last_a = crate::backend::tail(rest_a, count);
    let last_b = crate::backend::tail(rest_b, count);
    crate::search::replay::lemma_split(rest_a, count);
    crate::search::replay::lemma_split(rest_b, count);
    crate::backend::lemma_alike_parts(gaps_a, last_a, gaps_b, last_b);
    crate::search::replay::lemma_both_determined(x.targets, x.controls, gaps_a, gaps_b);
    let sight = crate::backend::seen(crate::backend::seen(x.sight, scales_a), gaps_a);
    let (target, control) = crate::search::state::both_outcome(
        x.targets,
        x.controls,
        gaps_a,
    )->Ok_0;
    (sight, target, control)
}

/// A search that the host asked to stop has handed out the checkpoint of where it was.
proof fn lemma_stopped(
    setup: Setup,
    run: Run,
    error: ErrorModel,
    checkpoint: CheckpointModel,
    kept: bool,
)
    requires
        run.breaks_off(setup, error),
        run.closing == seq![
            HostCall::Cancelled { reply: true },
            HostCall::Save { checkpoint, reply: Ok(kept) },
        ],
    ensures
        error == ErrorModel::SearchCancelled,
        checkpoint == run.last().checkpoint(),
        run.last().wants_more(),
{
    let last = run.last();
    if last.wants_more() {
        crate::search::replay::lemma_asked_to_stop(
            last,
            run.ending,
            run.closing,
            run.map(setup),
            Err(error),
        );
        crate::search::replay::lemma_turn_begins(
            last,
            run.ending,
            run.closing,
            crate::search::replay::Turn::Failed { error },
        );
    } else {
        reveal(crate::search::run::closes);
        reveal(crate::search::run::concluding);
        assert(run.closing.skip(0) =~= run.closing);
    }
}

/// What was asked in a run, in its parts.
proof fn lemma_run_given(
    model: RowModel,
    host: SteadyHost,
    rows: Set<PatchFlip>,
    setup: Setup,
    run: Run,
)
    requires
        run.runs(setup),
        model.gives(rows, run.calls()),
        host.gives(run.record()),
    ensures
        ({
            let carried = crate::patch::toggled_all(rows, run.begun.accepted);
            let ended = crate::patch::toggled_all(rows, run.last().accepted);
            &&& model.gives(rows, run.beginning)
            &&& model.gives(carried, crate::search::run::iteration_calls(run.iterations))
            &&& model.gives(ended, run.ending)
            &&& host.gives(crate::search::run::iteration_records(run.begun, run.iterations))
            &&& host.gives(run.closing)
        }),
{
    let middle = crate::search::run::iteration_calls(run.iterations);
    let carried = crate::patch::toggled_all(rows, run.begun.accepted);
    lemma_gives_parts(model, rows, run.beginning, middle + run.ending);
    crate::search::laws::law_search_begins_with_the_accepted_rows(
        setup,
        rows,
        run.beginning,
        Ok(run.begun),
    );
    lemma_gives_parts(model, carried, middle, run.ending);
    crate::search::laws::lemma_iterations_carry(rows, run.begun, run.iterations);
    let so_far = crate::search::run::asked_so_far(run.begun, run.iterations);
    lemma_host_gives_parts(host, so_far, run.closing);
    let baseline = so_far.take(1);
    let records = crate::search::run::iteration_records(run.begun, run.iterations);
    assert(so_far =~= baseline + records);
    lemma_host_gives_parts(host, baseline, records);
}

/// What a conclusion says of the measurements and of the result.
#[verifier::opaque]
spec fn gathers(
    last: SessionModel,
    calls: Seq<BackendCall>,
    asked: Seq<HostCall>,
    result: ResultModel,
) -> bool {
    &&& asked.len() > 0
    &&& crate::search::state::both_requests(last.targets, last.controls, calls)
    &&& crate::search::state::both_outcome(last.targets, last.controls, calls) == Ok::<
        (Seq<MeasurementModel>, Seq<MeasurementModel>),
        ErrorModel,
    >((result.final_target, result.final_control))
    &&& asked[0] == crate::search::run::weighing(
        last,
        result.final_target,
        result.final_control,
        Ok(result.final_fitness),
    )
}

proof fn lemma_gathers(
    last: SessionModel,
    calls: Seq<BackendCall>,
    asked: Seq<HostCall>,
    map: ArchitectureModel,
    result: ResultModel,
)
    requires
        crate::search::run::concludes(last, calls, asked, map, result),
    ensures
        gathers(last, calls, asked, result),
        result == last.result(
            map,
            result.final_target,
            result.final_control,
            result.final_fitness,
        ),
{
    reveal(gathers);
}

/// The same measurements have the same fitness.
proof fn lemma_same_gathering(
    model: RowModel,
    host: SteadyHost,
    rows: Set<PatchFlip>,
    la: SessionModel,
    calls_a: Seq<BackendCall>,
    asked_a: Seq<HostCall>,
    result_a: ResultModel,
    lb: SessionModel,
    calls_b: Seq<BackendCall>,
    asked_b: Seq<HostCall>,
    result_b: ResultModel,
)
    requires
        gathers(la, calls_a, asked_a, result_a),
        gathers(lb, calls_b, asked_b, result_b),
        crate::search::laws::same_course(la, lb),
        la.config == lb.config,
        model.gives(rows, calls_a),
        model.gives(rows, calls_b),
        host.gives(asked_a),
        host.gives(asked_b),
    ensures
        result_a.final_target == result_b.final_target,
        result_a.final_control == result_b.final_control,
        result_a.final_fitness == result_b.final_fitness,
{
    reveal(gathers);
    lemma_gives_alike(model, rows, calls_a, calls_b);
    crate::search::replay::lemma_both_determined(la.targets, la.controls, calls_a, calls_b);
    assert(host.answers(asked_a[0]));
    assert(host.answers(asked_b[0]));
}

/// Two searches that came to the same end have the same result.
proof fn lemma_same_result(
    map: ArchitectureModel,
    la: SessionModel,
    result_a: ResultModel,
    lb: SessionModel,
    result_b: ResultModel,
)
    requires
        result_a == la.result(
            map,
            result_a.final_target,
            result_a.final_control,
            result_a.final_fitness,
        ),
        result_b == lb.result(
            map,
            result_a.final_target,
            result_a.final_control,
            result_a.final_fitness,
        ),
        crate::search::laws::same_course(la, lb),
        la.config == lb.config,
    ensures
        result_b == (ResultModel { screened_out: result_b.screened_out, ..result_a }),
        result_a.screened_out == la.screened_out,
        result_b.screened_out == lb.screened_out,
{
    let alike = SessionModel { screened_out: lb.screened_out, ..la };
    assert(lb == alike);
}

/// A search that came to its end was concluded, once the host was asked what was left.
proof fn lemma_concluded(host: SteadyHost, setup: Setup, run: Run, result: ResultModel) -> (asked:
    Seq<HostCall>)
    requires
        run.completes(setup, result),
        host.gives(run.closing),
    ensures
        crate::search::run::concludes(run.last(), run.ending, asked, run.map(setup), result),
        !crate::search::run::may_go_on(run.last()),
        host.gives(asked),
{
    reveal(crate::search::run::closes);
    reveal(crate::search::run::concluding);
    let question = crate::search::run::last_question(run.last());
    let asked = run.closing.skip(question.len() as int);
    lemma_host_gives_parts(host, question, asked);
    asked
}

/// A search that the host stops can be taken up again from the checkpoint, and then ends
/// as if it had never been stopped: on a model whose answers follow from the rows that
/// are flipped, and for a host that weighs and computes steadily, the result is the
/// same patch, measurements, fitness and counts. Only the rows that were screened out
/// are counted from where the search was taken up. The stopped search may have had any
/// other ceiling on its iterations.
#[verifier::spinoff_prover]
pub proof fn law_stopped_search_resumes_to_the_same_result(
    model: RowModel,
    host: SteadyHost,
    rows: Set<PatchFlip>,
    setup: Setup,
    max_iters: usize,
    whole: Run,
    result: ResultModel,
    stopped: Run,
    error: ErrorModel,
    checkpoint: CheckpointModel,
    kept: bool,
    resumed: Run,
    resumed_result: ResultModel,
)
    requires
        setup.resume is None,
        setup.sight == model.sight,
        whole.completes(setup, result),
        stopped.breaks_off(
            (Setup { config: ConfigModel { max_iters, ..setup.config }, ..setup }),
            error,
        ),
        stopped.closing == seq![
            HostCall::Cancelled { reply: true },
            HostCall::Save { checkpoint, reply: Ok(kept) },
        ],
        resumed.completes((Setup { resume: Some(checkpoint), ..setup }), resumed_result),
        model.gives(rows, whole.calls()),
        model.gives(rows, stopped.calls()),
        model.gives(rows, resumed.calls()),
        host.gives(whole.record()),
        host.gives(stopped.record()),
        host.gives(resumed.record()),
    ensures
        error == ErrorModel::SearchCancelled,
        checkpoint.completed_iterations == stopped.iterations.len(),
        resumed_result == (ResultModel { screened_out: resumed_result.screened_out, ..result }),
        result.screened_out == stopped.last().screened_out + resumed_result.screened_out,
{
    let other = Setup { config: ConfigModel { max_iters, ..setup.config }, ..setup };
    let again = Setup { resume: Some(checkpoint), ..setup };
    let a = whole.iterations;
    let b = stopped.iterations;
    let c = resumed.iterations;
    lemma_stopped(other, stopped, error, checkpoint, kept);
    lemma_run_given(model, host, rows, setup, whole);
    lemma_run_given(model, host, rows, other, stopped);
    lemma_run_given(model, host, rows, again, resumed);
    lemma_gives_alike(model, rows, whole.beginning, stopped.beginning);
    lemma_gives_alike(model, rows, whole.beginning, resumed.beginning);
    let found = lemma_same_beginning(
        setup,
        other,
        whole.beginning,
        whole.begun,
        stopped.beginning,
        stopped.begun,
    );
    let found_again = lemma_same_beginning(
        setup,
        again,
        whole.beginning,
        whole.begun,
        resumed.beginning,
        resumed.begun,
    );
    let pool = whole.begun.pool;
    crate::search::screen::law_screen_is_determined(
        whole.begun.target_baseline,
        setup.config.screen_probe_count as nat,
        whole.begun.screen,
        stopped.begun.screen,
    );
    assert(crate::search::laws::same_course(whole.begun, stopped.begun));
    assert(stopped.begun.sound());
    assert(whole.begun.sound());
    crate::search::laws::lemma_iterations_keep(whole.begun, a);
    crate::search::laws::lemma_iterations_keep(stopped.begun, b);
    let ended = whole.last();
    let asked = lemma_concluded(host, setup, whole, result);
    let asked_again = lemma_concluded(host, again, resumed, resumed_result);
    let base = crate::patch::toggled_all(rows, whole.begun.accepted);
    if a.len() < b.len() {
        lemma_goes_as_far(model, host, base, whole.begun, a, stopped.begun, b);
        assert(false);
    }
    let count = b.len() as int;
    let first = a.take(count);
    let second = a.skip(count);
    let middle = crate::search::run::after_iterations(whole.begun, first);
    lemma_iterations_split(whole.begun, a, count);
    lemma_gives_parts(
        model,
        base,
        crate::search::run::iteration_calls(first),
        crate::search::run::iteration_calls(second),
    );
    lemma_host_gives_parts(
        host,
        crate::search::run::iteration_records(whole.begun, first),
        crate::search::run::iteration_records(middle, second),
    );
    lemma_same_iterations(model, host, base, whole.begun, first, stopped.begun, b);
    crate::search::laws::lemma_iterations_carry(rows, whole.begun, first);
    crate::search::laws::law_resumed_search_goes_on(
        stopped.last(),
        again,
        found_again.0,
        found_again.1,
        found_again.2,
        resumed.begun,
    );
    assert(crate::search::laws::same_course(middle, resumed.begun));
    let now = crate::patch::toggled_all(rows, middle.accepted);
    crate::search::laws::lemma_iterations_keep(whole.begun, first);
    lemma_kept(middle, second);
    lemma_kept(resumed.begun, c);
    if second.len() < c.len() {
        lemma_goes_as_far(model, host, now, middle, second, resumed.begun, c);
        assert(false);
    }
    if c.len() < second.len() {
        assert(crate::search::laws::same_course(resumed.begun, middle));
        lemma_goes_as_far(model, host, now, resumed.begun, c, middle, second);
        assert(false);
    }
    lemma_same_iterations(model, host, now, middle, second, resumed.begun, c);
    let last = resumed.last();
    lemma_gathers(ended, whole.ending, asked, whole.map(setup), result);
    lemma_gathers(last, resumed.ending, asked_again, resumed.map(again), resumed_result);
    lemma_same_gathering(
        model,
        host,
        crate::patch::toggled_all(rows, ended.accepted),
        ended,
        whole.ending,
        asked,
        result,
        last,
        resumed.ending,
        asked_again,
        resumed_result,
    );
    lemma_shows_the_same(model, rows, whole.calls());
    lemma_shows_the_same(model, rows, resumed.calls());
    lemma_same_result(model.sight.map, ended, result, last, resumed_result);
}

/// Iterations keep the configuration.
proof fn lemma_kept(begun: SessionModel, iterations: Seq<Iteration>)
    ensures
        crate::search::run::after_iterations(begun, iterations).config == begun.config,
    decreases iterations.len(),
{
    if iterations.len() > 0 {
        lemma_kept(begun, iterations.drop_last());
    }
}

/// Where one of two searches on the same course goes further than the other, the other
/// had a row left to draw where it ended.
proof fn lemma_goes_as_far(
    model: RowModel,
    host: SteadyHost,
    rows: Set<PatchFlip>,
    sa: SessionModel,
    ia: Seq<Iteration>,
    sb: SessionModel,
    ib: Seq<Iteration>,
)
    requires
        crate::search::laws::same_course(sa, sb),
        ia.len() < ib.len(),
        crate::search::run::iterations_follow(sa, ia),
        crate::search::run::iterations_follow(sb, ib),
        model.gives(rows, crate::search::run::iteration_calls(ia)),
        model.gives(rows, crate::search::run::iteration_calls(ib)),
        host.gives(crate::search::run::iteration_records(sa, ia)),
        host.gives(crate::search::run::iteration_records(sb, ib)),
    ensures
        ({
            let after = crate::search::run::after_iterations(sa, ia);
            &&& after.available().len() > 0
            &&& after.pending is None
            &&& after.completed_iterations < sb.config.max_iters
        }),
{
    let count = ia.len() as int;
    let first = ib.take(count);
    let second = ib.skip(count);
    let middle = crate::search::run::after_iterations(sb, first);
    lemma_iterations_split(sb, ib, count);
    lemma_gives_parts(
        model,
        rows,
        crate::search::run::iteration_calls(first),
        crate::search::run::iteration_calls(second),
    );
    lemma_host_gives_parts(
        host,
        crate::search::run::iteration_records(sb, first),
        crate::search::run::iteration_records(middle, second),
    );
    lemma_same_iterations(model, host, rows, sa, ia, sb, first);
    crate::search::replay::lemma_first_iteration(middle, second);
    lemma_kept(sb, first);
    assert(crate::search::run::may_go_on(middle)) by {
        reveal(Iteration::follows);
    }
}

} // verus!
