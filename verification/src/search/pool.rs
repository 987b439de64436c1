//! The rows that a search may try, with what each weighs when one is drawn.

use vstd::prelude::*;

use crate::architecture::{ArchitectureModel, Projection};
use crate::backend::{BackendCall, MiyagiBackend, Sight};
use crate::error::{Error, ErrorModel};
use crate::float::Binary32;
use crate::patch::PatchFlip;

verus! {

/// A row that may be tried, and how much it weighs when one is drawn.
#[derive(Clone, Copy, Debug, PartialEq, Eq, Structural)]
pub struct Candidate {
    pub flip: PatchFlip,
    pub weight: Binary32,
}

/// The weight of a row of the given scale. A scale that is not a positive number
/// weighs nothing.
pub open spec fn weight_of(scale: Binary32) -> Binary32 {
    if scale.finite() && scale.units() > 0 {
        scale
    } else {
        Binary32 { bits: 0 }
    }
}

/// The rows of a tensor, with the weights that its scales give them.
pub open spec fn row_candidates(
    coordinate: (usize, Projection),
    scales: Seq<Binary32>,
) -> Seq<Candidate> {
    Seq::new(
        scales.len(),
        |row: int|
            Candidate {
                flip: PatchFlip {
                    layer: coordinate.0,
                    proj: coordinate.1,
                    row: row as usize,
                },
                weight: weight_of(scales[row]),
            },
    )
}

/// The request asks for the scales of the tensor.
pub open spec fn asks_scales(coordinate: (usize, Projection), call: BackendCall) -> bool {
    call matches BackendCall::RowScales { layer, projection, .. } && layer == coordinate.0
        && projection == coordinate.1
}

/// The answer to a request for scales.
pub open spec fn scale_reply(call: BackendCall) -> Result<Seq<Binary32>, ErrorModel> {
    call->RowScales_reply
}

/// What is wrong with the answer of a tensor of the map: the request failed, or
/// there is not one scale for each row.
pub open spec fn scale_fault(
    map: ArchitectureModel,
    coordinate: (usize, Projection),
    call: BackendCall,
) -> Option<ErrorModel> {
    let rows = map.tensor(coordinate.0 as nat, coordinate.1).rows;
    match scale_reply(call) {
        Err(error) => Some(error),
        Ok(scales) => if scales.len() != rows {
            Some(
                ErrorModel::InvalidSearch(
                    crate::architecture::coordinate_text(coordinate.0 as nat, coordinate.1)
                        + " returned "@ + crate::text::decimal(scales.len()) + " scales for "@
                        + crate::text::decimal(rows) + " rows"@,
                ),
            )
        } else {
            None
        },
    }
}

/// The map that the model shows once the first `count` requests are answered.
pub open spec fn map_after(first: Sight, calls: Seq<BackendCall>, count: int) -> ArchitectureModel {
    crate::backend::seen(first, calls.take(count)).map
}

/// What keeps the model from being asked on after the requests: something is wrong
/// with the last answer, or the map does not have the next tensor.
pub open spec fn scale_stop(
    first: Sight,
    coordinates: Seq<(usize, Projection)>,
    calls: Seq<BackendCall>,
) -> Option<ErrorModel> {
    let count = calls.len() as int;
    if calls.len() > 0 && scale_fault(
        map_after(first, calls, count - 1),
        coordinates[count - 1],
        calls.last(),
    ) is Some {
        scale_fault(map_after(first, calls, count - 1), coordinates[count - 1], calls.last())
    } else if calls.len() < coordinates.len() {
        crate::search::config::absent(map_after(first, calls, count), coordinates[count])
    } else {
        None
    }
}

/// The scales of the tensors are asked for one after the other, each against the map
/// that the model shows just before, up to where something keeps it from being asked
/// on.
pub open spec fn scale_requests(
    first: Sight,
    coordinates: Seq<(usize, Projection)>,
    calls: Seq<BackendCall>,
) -> bool {
    &&& calls.len() <= coordinates.len()
    &&& forall|i: int| 0 <= i < calls.len() ==> asks_scales(coordinates[i], #[trigger] calls[i])
    &&& forall|i: int|
        0 <= i < calls.len() ==> #[trigger] scale_stop(first, coordinates, calls.take(i)) is None
    &&& calls.len() < coordinates.len() ==> scale_stop(first, coordinates, calls) is Some
}

/// The rows of all tensors, one tensor after the other.
pub open spec fn pool_of(
    coordinates: Seq<(usize, Projection)>,
    calls: Seq<BackendCall>,
) -> Seq<Candidate>
    decreases calls.len(),
{
    if calls.len() == 0 {
        seq![]
    } else {
        pool_of(coordinates, calls.drop_last()) + row_candidates(
            coordinates[calls.len() - 1],
            scale_reply(calls.last())->Ok_0,
        )
    }
}

/// What the answers make of the tensors: the rows that may be tried, or the error.
pub open spec fn pool_outcome(
    first: Sight,
    coordinates: Seq<(usize, Projection)>,
    calls: Seq<BackendCall>,
) -> Result<Seq<Candidate>, ErrorModel> {
    match scale_stop(first, coordinates, calls) {
        Some(error) => Err(error),
        None => Ok(pool_of(coordinates, calls)),
    }
}

pub open spec fn pool_view(result: Result<Vec<Candidate>, Error>) -> Result<
    Seq<Candidate>,
    ErrorModel,
> {
    match result {
        Ok(pool) => Ok(pool@),
        Err(error) => Err(error@),
    }
}

/// The weight of a row of the given scale.
pub fn candidate_weight(scale: Binary32) -> (r: Binary32)
    ensures
        r == weight_of(scale),
{
    if scale.is_finite() && scale.is_greater_than(Binary32::zero()) {
        scale
    } else {
        Binary32::zero()
    }
}

fn push_rows(out: &mut Vec<Candidate>, layer: usize, projection: Projection, scales: &[Binary32])
    ensures
        final(out)@ == old(out)@ + row_candidates((layer, projection), scales@),
{
    let ghost before = out@;
    let ghost rows = row_candidates((layer, projection), scales@);
    let mut row: usize = 0;
    assert(out@ =~= before + rows.take(0));
    while row < scales.len()
        invariant
            row <= scales@.len(),
            rows == row_candidates((layer, projection), scales@),
            out@ == before + rows.take(row as int),
        decreases scales@.len() - row,
    {
        out.push(
            Candidate {
                flip: PatchFlip { layer, proj: projection, row },
                weight: candidate_weight(scales[row]),
            },
        );
        row = row + 1;
        assert(out@ =~= before + rows.take(row as int));
    }
    assert(rows.take(row as int) =~= rows);
}

fn scale_count_error(layer: usize, projection: Projection, scales: usize, rows: usize) -> (r: Error)
    ensures
        r@ == ErrorModel::InvalidSearch(
            crate::architecture::coordinate_text(layer as nat, projection) + " returned "@
                + crate::text::decimal(scales as nat) + " scales for "@ + crate::text::decimal(
                rows as nat,
            ) + " rows"@,
        ),
{
    let mut text: String = crate::architecture::coordinate_of(layer, projection);
    text.append(" returned ");
    crate::text::push_decimal(&mut text, scales as u64);
    text.append(" scales for ");
    crate::text::push_decimal(&mut text, rows as u64);
    text.append(" rows");
    Error::InvalidSearch(text)
}

/// Asks for the scales of the tensors and makes the rows that may be tried of them.
#[verifier::spinoff_prover]
pub fn build_candidates<B: MiyagiBackend>(
    backend: &mut B,
    coordinates: &[(usize, Projection)],
) -> (r: Result<Vec<Candidate>, Error>)
    ensures
        crate::backend::continues(old(backend).history(), final(backend).history()),
        ({
            let first = crate::backend::shown(old(backend).history());
            let calls = crate::backend::calls_since(
                old(backend).history(),
                final(backend).history(),
            );
            &&& scale_requests(first, coordinates@, calls)
            &&& pool_view(r) == pool_outcome(first, coordinates@, calls)
        }),
        coordinates@.len() > 0 ==> (r matches Ok(pool) ==> pool@.len() > 0),
{
    let ghost before = backend.history();
    let ghost first = crate::backend::shown(before);
    let mut out: Vec<Candidate> = Vec::new();
    let mut next: usize = 0;
    let ghost mut calls: Seq<BackendCall> = Seq::empty();
    assert(before =~= before + calls);
    while next < coordinates.len()
        invariant
            next <= coordinates@.len(),
            before == old(backend).history(),
            first == crate::backend::shown(before),
            backend.history() == before + calls,
            calls.len() == next,
            forall|i: int| 0 <= i < next ==> asks_scales(coordinates@[i], #[trigger] calls[i]),
            forall|i: int|
                0 <= i < next ==> #[trigger] scale_stop(first, coordinates@, calls.take(i)) is None,
            next > 0 ==> scale_fault(
                map_after(first, calls, next - 1),
                coordinates@[next - 1],
                calls.last(),
            ) is None,
            out@ == pool_of(coordinates@, calls),
            next > 0 ==> out@.len() > 0,
        decreases coordinates@.len() - next,
    {
        let (layer, projection) = coordinates[next];
        let ghost asked = calls;
        proof {
            assert(backend.history().skip(before.len() as int) =~= calls);
            crate::backend::lemma_shown(before, backend.history());
            assert(calls.take(next as int) =~= calls);
        }
        let ghost map = map_after(first, calls, next as int);
        let rows: usize = match backend.architecture().tensor(layer, projection) {
            Err(error) => {
                assert(scale_stop(first, coordinates@, calls) == Some(error@));
                return Err(error);
            },
            Ok(tensor) => tensor.rows,
        };
        assert(scale_stop(first, coordinates@, calls.take(next as int)) is None);
        let reply: Result<Vec<Binary32>, Error> = backend.row_scales(layer, projection);
        proof {
            let call = backend.history().last();
            assert((before + calls).push(call) =~= before + calls.push(call));
            calls = calls.push(call);
            assert(calls.drop_last() =~= asked);
            assert(calls.take(next as int) =~= asked);
            assert(map_after(first, calls, next as int) == map);
            assert forall|i: int| 0 <= i < next implies #[trigger] scale_stop(
                first,
                coordinates@,
                calls.take(i),
            ) is None by {
                assert(calls.take(i) =~= asked.take(i));
            }
        }
        match reply {
            Err(error) => {
                assert(backend.history().skip(before.len() as int) =~= calls);
                return Err(error);
            },
            Ok(scales) => {
                if scales.len() != rows {
                    assert(backend.history().skip(before.len() as int) =~= calls);
                    return Err(scale_count_error(layer, projection, scales.len(), rows));
                }
                push_rows(&mut out, layer, projection, scales.as_slice());
            },
        }
        next = next + 1;
    }
    assert(backend.history().skip(before.len() as int) =~= calls);
    Ok(out)
}

/// The row is among those that may be tried.
pub open spec fn offered(pool: Seq<Candidate>, flip: PatchFlip) -> bool {
    exists|k: int| 0 <= k < pool.len() && (#[trigger] pool[k]).flip == flip
}

proof fn lemma_pool(
    map: ArchitectureModel,
    coordinates: Seq<(usize, Projection)>,
    calls: Seq<BackendCall>,
    flip: PatchFlip,
)
    requires
        calls.len() <= coordinates.len(),
        forall|i: int|
            0 <= i < calls.len() ==> scale_fault(map, coordinates[i], #[trigger] calls[i]) is None,
        forall|i: int|
            0 <= i < coordinates.len() ==> (#[trigger] coordinates[i]).0 < map.layer_count,
        map.complete(),
    ensures
        offered(pool_of(coordinates, calls), flip) <==> crate::patch::has_row(map, flip) && coordinates.take(
            calls.len() as int,
        ).contains((flip.layer, flip.proj)),
    decreases calls.len(),
{
    let pool = pool_of(coordinates, calls);
    let shown = coordinates.take(calls.len() as int);
    let wanted = (flip.layer, flip.proj);
    if calls.len() > 0 {
        let less = calls.drop_last();
        let last = calls.len() - 1;
        assert forall|i: int| 0 <= i < less.len() implies scale_fault(
            map,
            coordinates[i],
            #[trigger] less[i],
        ) is None by {
            assert(less[i] == calls[i]);
        }
        lemma_pool(map, coordinates, less, flip);
        let front = pool_of(coordinates, less);
        let rows = row_candidates(coordinates[last], scale_reply(calls.last())->Ok_0);
        assert(pool == front + rows);
        assert(calls.last() == calls[last]);
        assert(scale_fault(map, coordinates[last], calls[last]) is None);
        let place = (3 * coordinates[last].0 + coordinates[last].1.place()) as int;
        assert(map.tensors[place].rows <= usize::MAX);
        assert(shown =~= coordinates.take(last).push(coordinates[last]));
        if offered(pool, flip) {
            let k = choose|k: int| 0 <= k < pool.len() && (#[trigger] pool[k]).flip == flip;
            if k < front.len() {
                assert(pool[k] == front[k]);
                assert(offered(front, flip));
                let i = choose|i: int| 0 <= i < last && coordinates.take(last)[i] == wanted;
                assert(shown[i] == wanted);
            } else {
                assert(pool[k] == rows[k - front.len()]);
                assert(shown[last] == wanted);
            }
        }
        if crate::patch::has_row(map, flip) && shown.contains(wanted) {
            let i = choose|i: int| 0 <= i < shown.len() && shown[i] == wanted;
            if i < last {
                assert(coordinates.take(last)[i] == wanted);
                let k = choose|k: int| 0 <= k < front.len() && (#[trigger] front[k]).flip == flip;
                assert(pool[k] == front[k]);
            } else {
                assert(pool[front.len() + flip.row] == rows[flip.row as int]);
            }
        }
    }
}

/// On a model that keeps its map, the rows that may be tried are the rows of the
/// tensors to look at, and no others.
pub proof fn law_pool_holds_the_rows(
    first: Sight,
    coordinates: Seq<(usize, Projection)>,
    calls: Seq<BackendCall>,
    flip: PatchFlip,
)
    requires
        first.map.complete(),
        forall|i: int| 0 <= i < calls.len() ==> (#[trigger] calls[i]).sight().map == first.map,
        scale_requests(first, coordinates, calls),
    ensures
        pool_outcome(first, coordinates, calls) matches Ok(pool) ==> (offered(pool, flip)
            <==> crate::patch::has_row(first.map, flip) && coordinates.contains(
            (flip.layer, flip.proj),
        )),
{
    if let Ok(pool) = pool_outcome(first, coordinates, calls) {
        assert(calls.take(calls.len() as int) =~= calls);
        assert forall|i: int| 0 <= i < calls.len() implies scale_fault(
            first.map,
            coordinates[i],
            #[trigger] calls[i],
        ) is None && coordinates[i].0 < first.map.layer_count by {
            let asked = calls.take(i + 1);
            assert(asked.last() == calls[i]);
            assert(asked.take(i) =~= calls.take(i));
            assert(scale_stop(first, coordinates, asked) is None);
            assert(scale_stop(first, coordinates, calls.take(i)) is None);
            assert(calls.take(i).take(i) =~= calls.take(i));
            if i > 0 {
                assert(calls.take(i).last() == calls[i - 1]);
            }
        }
        assert forall|i: int| 0 <= i < coordinates.len() implies (#[trigger] coordinates[i]).0
            < first.map.layer_count by {
            assert(scale_fault(first.map, coordinates[i], calls[i]) is None);
        }
        lemma_pool(first.map, coordinates, calls, flip);
        assert(coordinates.take(calls.len() as int) =~= coordinates);
    }
}

} // verus!
