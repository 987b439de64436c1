//! Which rows of a model are flipped, and how rows are flipped and flipped back.

use vstd::prelude::*;

use crate::backend::{BackendCall, Sight};
use crate::error::ErrorModel;
use crate::patch::PatchFlip;

verus! {

/// A request changes which rows are flipped exactly if it is one to flip a row and the
/// model did so: then that row changes, and no other.
pub proof fn law_only_flips_change_the_model(
    rows: Set<PatchFlip>,
    calls: Seq<BackendCall>,
    call: BackendCall,
    row: PatchFlip,
)
    ensures
        crate::backend::flipped(rows, Seq::empty()) == rows,
        ({
            let before = crate::backend::flipped(rows, calls);
            let after = crate::backend::flipped(rows, calls.push(call));
            let done = call is FlipRow && call->FlipRow_reply is Ok;
            &&& done ==> (after.contains(row) <==> before.contains(row) != (call->flip == row))
            &&& !done ==> after == before
        }),
{
    assert(calls.push(call).drop_last() =~= calls);
}

/// A model shows what it showed at its last request.
pub proof fn law_models_show_their_last_sight(
    first: Sight,
    calls: Seq<BackendCall>,
    call: BackendCall,
)
    ensures
        crate::backend::seen(first, Seq::empty()) == first,
        crate::backend::seen(first, calls.push(call)) == call.sight(),
        crate::backend::shown(calls.push(call)) == call.sight(),
{
}

/// The model was asked to flip the row, and did.
pub open spec fn was_flipped(call: BackendCall, flip: PatchFlip) -> bool {
    call is FlipRow && call->flip == flip && call->FlipRow_reply is Ok
}

/// Applying rows asks the model to flip each of them once, in order, and succeeds exactly
/// if the model does all of it.
pub proof fn law_applying_flips_each_row(
    flips: Seq<PatchFlip>,
    operation: Seq<char>,
    calls: Seq<BackendCall>,
)
    ensures
        crate::restore::applies(flips, operation, calls, Ok(())) <==> {
            &&& calls.len() == flips.len()
            &&& forall|i: int| 0 <= i < calls.len() ==> was_flipped(#[trigger] calls[i], flips[i])
        },
{
    if calls.len() == flips.len() && forall|i: int|
        0 <= i < calls.len() ==> was_flipped(#[trigger] calls[i], flips[i]) {
        assert forall|i: int| 0 <= i < calls.len() implies crate::restore::asks_flip(
            flips[i],
            #[trigger] calls[i],
        ) && crate::restore::flip_reply(calls[i]) is Ok by {
            assert(was_flipped(calls[i], flips[i]));
        }
    }
}

/// The first `done` rows were flipped, and the next one was not.
pub open spec fn stops_at(flips: Seq<PatchFlip>, calls: Seq<BackendCall>, done: int) -> bool {
    &&& 0 <= done < flips.len()
    &&& done < calls.len()
    &&& forall|i: int| 0 <= i < done ==> was_flipped(#[trigger] calls[i], flips[i])
    &&& calls[done] is FlipRow
    &&& calls[done]->flip == flips[done]
    &&& calls[done]->FlipRow_reply is Err
}

/// Applying that fails at a row flips the rows before it back, the last of them first. The
/// error is the one that the model gave for the row, or, where flipping back fails too,
/// one that says so with the error that the model gave then.
pub proof fn law_applying_that_fails_goes_back(
    flips: Seq<PatchFlip>,
    operation: Seq<char>,
    calls: Seq<BackendCall>,
    error: ErrorModel,
)
    requires
        crate::restore::applies(flips, operation, calls, Err(error)),
    ensures
        exists|done: int|
            {
                &&& #[trigger] stops_at(flips, calls, done)
                &&& calls.len() <= 2 * done + 1
                &&& forall|k: int|
                    done < k < calls.len() ==> (#[trigger] calls[k]) is FlipRow && calls[k]->flip
                        == flips[2 * done - k]
                &&& forall|k: int|
                    done < k < calls.len() - 1 ==> (#[trigger] calls[k])->FlipRow_reply is Ok
                &&& (calls.len() == 2 * done + 1 && (calls.len() == done + 1
                    || calls.last()->FlipRow_reply is Ok) && error
                    == calls[done]->FlipRow_reply->Err_0) || (calls.len() > done + 1
                    && calls.last()->FlipRow_reply is Err && error
                    == (ErrorModel::RestorationFailed {
                    operation,
                    source: Box::new(calls.last()->FlipRow_reply->Err_0),
                }))
            },
{
    if exists|done: int| #[trigger] crate::restore::rolls_back(flips, calls, done, error) {
        let done = choose|done: int| #[trigger]
            crate::restore::rolls_back(flips, calls, done, error);
        lemma_stops_at(flips, calls, done, error);
        let back = flips.take(done).reverse();
        let rest = calls.skip(done + 1);
        assert forall|k: int| done < k < calls.len() implies (#[trigger] calls[k]) is FlipRow
            && calls[k]->flip == flips[2 * done - k] && calls[k]->FlipRow_reply is Ok by {
            assert(rest[k - done - 1] == calls[k]);
            assert(back[k - done - 1] == flips[2 * done - k]);
            assert(crate::restore::asks_flip(back[k - done - 1], rest[k - done - 1]));
        }
        assert(stops_at(flips, calls, done));
    } else {
        let (done, first, source) = choose|done: int, first: ErrorModel, source: ErrorModel|
            #[trigger] crate::restore::gets_stuck(flips, calls, done, first, source) && error == (
            ErrorModel::RestorationFailed { operation, source: Box::new(source) });
        lemma_stops_at(flips, calls, done, first);
        let back = flips.take(done).reverse();
        let rest = calls.skip(done + 1);
        assert(rest.last() == calls.last());
        assert forall|k: int| done < k < calls.len() implies (#[trigger] calls[k]) is FlipRow
            && calls[k]->flip == flips[2 * done - k] by {
            assert(rest[k - done - 1] == calls[k]);
            assert(back[k - done - 1] == flips[2 * done - k]);
            if k < calls.len() - 1 {
                assert(rest.drop_last()[k - done - 1] == calls[k]);
                assert(back.take(rest.len() - 1)[k - done - 1] == back[k - done - 1]);
                assert(crate::restore::asks_flip(
                    back.take(rest.len() - 1)[k - done - 1],
                    rest.drop_last()[k - done - 1],
                ));
            }
        }
        assert forall|k: int| done < k < calls.len() - 1 implies (
        #[trigger] calls[k])->FlipRow_reply is Ok by {
            assert(rest.drop_last()[k - done - 1] == calls[k]);
            assert(crate::restore::flip_reply(rest.drop_last()[k - done - 1]) is Ok);
        }
        assert(stops_at(flips, calls, done));
    }
}

proof fn lemma_stops_at(
    flips: Seq<PatchFlip>,
    calls: Seq<BackendCall>,
    done: int,
    error: ErrorModel,
)
    requires
        0 <= done < calls.len(),
        crate::restore::flips_until(flips, calls.take(done + 1), error),
    ensures
        stops_at(flips, calls, done),
        calls[done]->FlipRow_reply == Err::<(), ErrorModel>(error),
{
    let shown = calls.take(done + 1);
    assert(shown.last() == calls[done]);
    assert forall|i: int| 0 <= i < done implies was_flipped(#[trigger] calls[i], flips[i]) by {
        assert(shown.drop_last()[i] == calls[i]);
        assert(flips.take(done)[i] == flips[i]);
        assert(crate::restore::asks_flip(flips.take(done)[i], shown.drop_last()[i]));
    }
}

/// A model that cannot be brought back is reported with what was going on.
pub proof fn law_failed_restorations_are_reported(
    operation: Seq<char>,
    reply: Result<(), ErrorModel>,
)
    ensures
        reply is Ok ==> crate::restore::restoration_outcome(operation, reply) is Ok,
        reply matches Err(source) ==> crate::restore::restoration_outcome(operation, reply)
            == Err::<(), ErrorModel>(
            ErrorModel::RestorationFailed { operation, source: Box::new(source) },
        ),
{
}

/// The first requests and the others make up all of them.
pub proof fn law_requests_are_split(calls: Seq<BackendCall>, count: nat)
    ensures
        count <= calls.len() ==> crate::backend::head(calls, count) == calls.take(count as int)
            && crate::backend::tail(calls, count) == calls.skip(count as int),
        count > calls.len() ==> crate::backend::head(calls, count) == calls
            && crate::backend::tail(calls, count).len() == 0,
        crate::backend::head(calls, count) + crate::backend::tail(calls, count) == calls,
{
    assert(calls.take(calls.len() as int) =~= calls);
    assert(crate::backend::head(calls, count) + crate::backend::tail(calls, count) =~= calls);
}

/// What was asked of a model since an earlier time is what its history has after it.
pub proof fn law_histories_go_on(before: Seq<BackendCall>, more: Seq<BackendCall>)
    ensures
        crate::backend::calls_since(before, before + more) == more,
        crate::backend::continues(before, before + more),
        forall|now: Seq<BackendCall>| #[trigger]
            crate::backend::continues(before, now) ==> now.len() >= before.len() && now.take(
                before.len() as int,
            ) == before && now.skip(before.len() as int) == crate::backend::calls_since(
                before,
                now,
            ),
{
    assert((before + more).skip(before.len() as int) =~= more);
    assert forall|now: Seq<BackendCall>| #[trigger]
        crate::backend::continues(before, now) implies now.len() >= before.len() && now.take(
        before.len() as int,
    ) == before by {
        let since = crate::backend::calls_since(before, now);
        assert(now == before + since);
        assert((before + since).take(before.len() as int) =~= before);
    }
}

} // verus!
