//! Flipping rows, and bringing a model back to where it was.

use vstd::prelude::*;

use crate::backend::{BackendCall, MiyagiBackend};
use crate::error::{Error, ErrorModel};
use crate::patch::PatchFlip;

verus! {

/// The request asks to flip the row.
pub open spec fn asks_flip(flip: PatchFlip, call: BackendCall) -> bool {
    call is FlipRow && call->flip == flip
}

/// The answer to a request to flip a row.
pub open spec fn flip_reply(call: BackendCall) -> Result<(), ErrorModel> {
    call->FlipRow_reply
}

/// The requests flip the rows one after the other, and none fails.
pub open spec fn flips_all(flips: Seq<PatchFlip>, calls: Seq<BackendCall>) -> bool {
    &&& calls.len() == flips.len()
    &&& forall|i: int|
        0 <= i < calls.len() ==> asks_flip(flips[i], #[trigger] calls[i]) && flip_reply(
            calls[i],
        ) is Ok
}

/// The requests flip rows one after the other up to one that fails.
pub open spec fn flips_until(
    flips: Seq<PatchFlip>,
    calls: Seq<BackendCall>,
    error: ErrorModel,
) -> bool {
    &&& 0 < calls.len() <= flips.len()
    &&& flips_all(flips.take(calls.len() - 1), calls.drop_last())
    &&& asks_flip(flips[calls.len() - 1], calls.last())
    &&& flip_reply(calls.last()) == Err::<(), ErrorModel>(error)
}

/// The first `done` rows were flipped, the next flip failed, and the rows were
/// flipped back, the last one first.
pub open spec fn rolls_back(
    flips: Seq<PatchFlip>,
    calls: Seq<BackendCall>,
    done: int,
    error: ErrorModel,
) -> bool {
    &&& 0 <= done < calls.len()
    &&& flips_until(flips, calls.take(done + 1), error)
    &&& flips_all(flips.take(done).reverse(), calls.skip(done + 1))
}

/// The first `done` rows were flipped, the next flip failed, and a row could not
/// be flipped back.
pub open spec fn gets_stuck(
    flips: Seq<PatchFlip>,
    calls: Seq<BackendCall>,
    done: int,
    first: ErrorModel,
    error: ErrorModel,
) -> bool {
    &&& 0 <= done < calls.len()
    &&& flips_until(flips, calls.take(done + 1), first)
    &&& flips_until(flips.take(done).reverse(), calls.skip(done + 1), error)
}

/// `outcome` is what comes of flipping the rows in turn. Where a flip fails, the
/// rows before it are flipped back; where that fails too, the error names the
/// operation.
pub open spec fn applies(
    flips: Seq<PatchFlip>,
    operation: Seq<char>,
    calls: Seq<BackendCall>,
    outcome: Result<(), ErrorModel>,
) -> bool {
    match outcome {
        Ok(()) => flips_all(flips, calls),
        Err(error) => {
            ||| exists|done: int| #[trigger] rolls_back(flips, calls, done, error)
            ||| exists|done: int, first: ErrorModel, source: ErrorModel| #[trigger]
                gets_stuck(flips, calls, done, first, source) && error
                    == (ErrorModel::RestorationFailed { operation, source: Box::new(source) })
        },
    }
}

/// Flips back the first `done` rows, the last one first.
fn flip_back<B: MiyagiBackend>(backend: &mut B, flips: &[PatchFlip], done: usize) -> (r: Result<
    (),
    Error,
>)
    requires
        done <= flips@.len(),
    ensures
        crate::backend::continues(old(backend).history(), final(backend).history()),
        ({
            let back = flips@.take(done as int).reverse();
            let calls = crate::backend::calls_since(
                old(backend).history(),
                final(backend).history(),
            );
            match r {
                Ok(()) => flips_all(back, calls),
                Err(error) => flips_until(back, calls, error@),
            }
        }),
{
    let ghost back = flips@.take(done as int).reverse();
    let ghost before = backend.history();
    let ghost mut calls: Seq<BackendCall> = Seq::empty();
    let mut left: usize = done;
    assert(before =~= before + calls);
    while left > 0
        invariant
            left <= done <= flips@.len(),
            back == flips@.take(done as int).reverse(),
            before == old(backend).history(),
            backend.history() == before + calls,
            flips_all(back.take(done - left), calls),
        decreases left,
    {
        let flip: PatchFlip = flips[left - 1];
        let reply: Result<(), Error> = backend.flip_row(flip.layer, flip.proj, flip.row);
        proof {
            let call = backend.history().last();
            assert(back[done - left] == flip);
            assert((before + calls).push(call) =~= before + calls.push(call));
            let more = calls.push(call);
            assert(more.drop_last() =~= calls);
            assert(backend.history().skip(before.len() as int) =~= more);
            assert(back.take(more.len() - 1) =~= back.take(done - left));
            calls = more;
        }
        if let Err(error) = reply {
            return Err(error);
        }
        left = left - 1;
    }
    assert(back.take(done as int) =~= back);
    assert(backend.history().skip(before.len() as int) =~= calls);
    Ok(())
}

/// Flips rows in turn. Where a flip fails, the rows flipped before it are flipped
/// back.
pub fn apply_coordinates<B: MiyagiBackend>(
    backend: &mut B,
    flips: &[PatchFlip],
    operation: &str,
) -> (r: Result<(), Error>)
    ensures
        crate::backend::continues(old(backend).history(), final(backend).history()),
        applies(
            flips@,
            operation@,
            crate::backend::calls_since(old(backend).history(), final(backend).history()),
            crate::backend::answer(r),
        ),
{
    let ghost before = backend.history();
    let ghost mut calls: Seq<BackendCall> = Seq::empty();
    let mut done: usize = 0;
    assert(before =~= before + calls);
    while done < flips.len()
        invariant
            done <= flips@.len(),
            before == old(backend).history(),
            backend.history() == before + calls,
            flips_all(flips@.take(done as int), calls),
        decreases flips@.len() - done,
    {
        let flip: PatchFlip = flips[done];
        let reply: Result<(), Error> = backend.flip_row(flip.layer, flip.proj, flip.row);
        let ghost answered = crate::backend::answer(reply);
        proof {
            let call = backend.history().last();
            assert((before + calls).push(call) =~= before + calls.push(call));
            let more = calls.push(call);
            assert(more.drop_last() =~= calls);
            calls = more;
        }
        if let Err(error) = reply {
            let ghost middle = backend.history();
            let reverted: Result<(), Error> = flip_back(backend, flips, done);
            proof {
                assert(flips@.take(calls.len() - 1) =~= flips@.take(done as int));
                assert(flips_until(flips@, calls, error@));
                let rest = crate::backend::calls_since(middle, backend.history());
                let all = crate::backend::calls_since(before, backend.history());
                assert(backend.history() =~= before + (calls + rest));
                assert(all =~= calls + rest);
                assert(all.take(done + 1) =~= calls);
                assert(all.skip(done + 1) =~= rest);
            }
            if let Err(source) = reverted {
                proof {
                    let all = crate::backend::calls_since(before, backend.history());
                    assert(gets_stuck(flips@, all, done as int, error@, source@));
                }
                return Err(
                    Error::RestorationFailed {
                        operation: operation.to_owned(),
                        source: Box::new(source),
                    },
                );
            }
            proof {
                let all = crate::backend::calls_since(before, backend.history());
                assert(rolls_back(flips@, all, done as int, error@));
            }
            return Err(error);
        }
        done = done + 1;
    }
    assert(flips@.take(done as int) =~= flips@);
    assert(backend.history().skip(before.len() as int) =~= calls);
    Ok(())
}

/// The error of a model that could not be brought back.
pub open spec fn restoration_outcome(
    operation: Seq<char>,
    reply: Result<(), ErrorModel>,
) -> Result<(), ErrorModel> {
    match reply {
        Ok(()) => Ok(()),
        Err(source) => Err(
            ErrorModel::RestorationFailed { operation, source: Box::new(source) },
        ),
    }
}

/// Flips a row back.
pub fn revert_candidate<B: MiyagiBackend>(
    backend: &mut B,
    flip: PatchFlip,
    operation: &str,
) -> (r: Result<(), Error>)
    ensures
        crate::backend::continues(old(backend).history(), final(backend).history()),
        ({
            let calls = crate::backend::calls_since(
                old(backend).history(),
                final(backend).history(),
            );
            &&& calls.len() == 1
            &&& asks_flip(flip, calls[0])
            &&& crate::backend::answer(r) == restoration_outcome(operation@, flip_reply(calls[0]))
        }),
{
    let reply: Result<(), Error> = backend.flip_row(flip.layer, flip.proj, flip.row);
    proof {
        let call = backend.history().last();
        let before = old(backend).history();
        assert(backend.history().skip(before.len() as int) =~= seq![call]);
        assert(backend.history() =~= before + seq![call]);
    }
    match reply {
        Ok(()) => Ok(()),
        Err(source) => Err(
            Error::RestorationFailed { operation: operation.to_owned(), source: Box::new(source) },
        ),
    }
}

/// Rows that were all flipped are the rows of the patch.
pub proof fn law_applied_rows_are_flipped(
    rows: Set<PatchFlip>,
    flips: Seq<PatchFlip>,
    calls: Seq<BackendCall>,
)
    requires
        flips_all(flips, calls),
    ensures
        crate::backend::flipped(rows, calls) == crate::patch::toggled_all(rows, flips),
    decreases calls.len(),
{
    if calls.len() > 0 {
        let less = calls.drop_last();
        assert forall|i: int| 0 <= i < less.len() implies asks_flip(
            flips.drop_last()[i],
            #[trigger] less[i],
        ) && flip_reply(less[i]) is Ok by {
            assert(less[i] == calls[i]);
        }
        law_applied_rows_are_flipped(rows, flips.drop_last(), less);
        assert(asks_flip(flips[calls.len() - 1], calls[calls.len() - 1]));
    }
}

/// Flipping several rows is all or nothing: where it succeeds, exactly these rows
/// are flipped, and where it fails, no row is, unless the error says that the model
/// could not be brought back.
pub proof fn law_applying_is_all_or_nothing(
    rows: Set<PatchFlip>,
    flips: Seq<PatchFlip>,
    operation: Seq<char>,
    calls: Seq<BackendCall>,
    outcome: Result<(), ErrorModel>,
)
    requires
        applies(flips, operation, calls, outcome),
    ensures
        outcome is Ok ==> crate::backend::flipped(rows, calls) == crate::patch::toggled_all(
            rows,
            flips,
        ),
        outcome matches Err(error) ==> {
            ||| crate::backend::flipped(rows, calls) == rows
            ||| (error is RestorationFailed && error->operation == operation)
        },
{
    match outcome {
        Ok(()) => {
            law_applied_rows_are_flipped(rows, flips, calls);
        },
        Err(error) => {
            if !(error is RestorationFailed && error->operation == operation) {
                let done = choose|done: int| #[trigger] rolls_back(flips, calls, done, error);
                let first = calls.take(done + 1);
                let there = first.drop_last();
                let back = calls.skip(done + 1);
                let some = flips.take(done);
                assert(flips.take(first.len() - 1) =~= some);
                law_applied_rows_are_flipped(rows, some, there);
                let middle = crate::patch::toggled_all(rows, some);
                assert(crate::backend::flipped(rows, first) == middle);
                law_applied_rows_are_flipped(middle, some.reverse(), back);
                crate::backend::lemma_flipped_concat(rows, first, back);
                assert(calls =~= first + back);
                crate::patch::law_backwards_undoes_forwards(rows, some);
            }
        },
    }
}

} // verus!
