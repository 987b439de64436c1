//! What a patch flips, which patches a model accepts, and how patches are put together.

use vstd::prelude::*;

use crate::architecture::{ArchitectureModel, Projection};
use crate::error::ErrorModel;
use crate::patch::{MetadataModel, MetadataValue, PatchFlip, PatchModel, PatchValidation};

verus! {

/// The bits of a patch are counted row by row: no row has no bits, one more row adds the
/// width of the tensor it lies in, and two lists of rows have the bits of both.
pub proof fn law_bits_add_up(
    map: ArchitectureModel,
    flips: Seq<PatchFlip>,
    flip: PatchFlip,
    more: Seq<PatchFlip>,
)
    ensures
        crate::patch::bits_in(map, Seq::empty()) == 0,
        crate::patch::bits_in(map, flips.push(flip)) == crate::patch::bits_in(map, flips)
            + map.tensor(flip.layer as nat, flip.proj).width,
        crate::patch::bits_in(map, flips + more) == crate::patch::bits_in(map, flips)
            + crate::patch::bits_in(map, more),
    decreases more.len(),
{
    assert(flips.push(flip).drop_last() =~= flips);
    if more.len() > 0 {
        law_bits_add_up(map, flips, flip, more.drop_last());
        assert((flips + more).drop_last() =~= flips + more.drop_last());
        assert((flips + more).last() == more.last());
    } else {
        assert(flips + more =~= flips);
    }
}

/// A single row has as many bits as the one tensor of its layer and projection is wide.
pub proof fn law_row_has_the_bits_of_its_tensor(map: ArchitectureModel, flip: PatchFlip, place: int)
    requires
        map.complete(),
        0 <= place < map.tensors.len(),
        map.tensors[place].layer == flip.layer,
        map.tensors[place].projection == flip.proj,
    ensures
        crate::patch::bits_in(map, seq![flip]) == map.tensors[place].width,
        map.tensor(flip.layer as nat, flip.proj) == map.tensors[place],
{
    assert(crate::architecture::stands_for(
        map.tensors[place],
        (place / 3) as nat,
        Projection::at(place % 3),
    ));
    assert(seq![flip].drop_last() =~= Seq::<PatchFlip>::empty());
    assert(crate::patch::bits_in(map, Seq::<PatchFlip>::empty()) == 0);
    assert(seq![flip].last() == flip);
}

/// What a model measures of a patch is how many rows it has and how many bits those have.
/// All else stays as it was.
pub proof fn law_measuring_keeps_the_patch(patch: PatchModel, map: ArchitectureModel)
    requires
        patch.flips.len() <= usize::MAX,
        crate::patch::bits_in(map, patch.flips) <= u128::MAX,
    ensures
        patch.measured(map).stats.n_flips == patch.flips.len(),
        patch.measured(map).stats.logical_bits_flipped == Some(
            crate::patch::bits_in(map, patch.flips) as u128,
        ),
        patch.measured(map).stats.compact_binary_estimate_bytes
            == patch.stats.compact_binary_estimate_bytes,
        patch.measured(map).version == patch.version,
        patch.measured(map).format == patch.format,
        patch.measured(map).name == patch.name,
        patch.measured(map).description == patch.description,
        patch.measured(map).base_model == patch.base_model,
        patch.measured(map).flips == patch.flips,
        patch.measured(map).metadata == patch.metadata,
{
}

/// The rows of a patch are counted before any model has been asked how wide they are.
pub proof fn law_new_patches_count_their_rows(flips: Seq<PatchFlip>)
    requires
        flips.len() <= usize::MAX,
    ensures
        crate::patch::counted(flips).n_flips == flips.len(),
        crate::patch::counted(flips).logical_bits_flipped is None,
        crate::patch::counted(flips).compact_binary_estimate_bytes is None,
{
}

/// One of the model's tensors holds the row.
pub open spec fn lies_in(map: ArchitectureModel, flip: PatchFlip) -> bool {
    exists|i: int|
        0 <= i < map.tensors.len() && (#[trigger] map.tensors[i]).layer == flip.layer
            && map.tensors[i].projection == flip.proj && flip.row < map.tensors[i].rows
}

/// The row lies in one of the model's tensors exactly if the model has it.
pub proof fn law_rows_lie_in_tensors(map: ArchitectureModel, flip: PatchFlip)
    requires
        map.complete(),
    ensures
        crate::patch::has_row(map, flip) <==> lies_in(map, flip),
{
    if crate::patch::has_row(map, flip) {
        crate::laws::inspection::law_maps_answer_by_layer_and_projection(
            map,
            flip.layer as nat,
            flip.proj,
        );
        let i: int = 3 * flip.layer as int + flip.proj.place() as int;
        assert(map.tensors[i] == map.tensor(flip.layer as nat, flip.proj));
    }
    if lies_in(map, flip) {
        let i = choose|i: int|
            0 <= i < map.tensors.len() && (#[trigger] map.tensors[i]).layer == flip.layer
                && map.tensors[i].projection == flip.proj && flip.row < map.tensors[i].rows;
        law_row_has_the_bits_of_its_tensor(map, flip, i);
        assert(crate::architecture::stands_for(
            map.tensors[i],
            (i / 3) as nat,
            Projection::at(i % 3),
        ));
    }
}

/// The architecture that the metadata of a patch names, where it is a text.
pub open spec fn names_architecture(patch: PatchModel, signature: Seq<char>) -> bool {
    patch.metadata.dom().contains("architecture_signature"@)
        && patch.metadata["architecture_signature"@] == MetadataModel::Text(signature)
}

/// A model accepts a patch exactly if it is of the first version and of the known
/// format, names no row twice and no row that the model does not have, and names no
/// other architecture, unless that is allowed.
pub proof fn law_accepted_patches(
    patch: PatchModel,
    map: ArchitectureModel,
    validation: PatchValidation,
)
    requires
        map.complete(),
    ensures
        patch.fault(map, validation) is None <==> {
            &&& patch.version == 1
            &&& patch.format == "miyagi_row_xor_v1"@
            &&& forall|i: int, j: int|
                0 <= i < j < patch.flips.len() ==> #[trigger] patch.flips[i]
                    != #[trigger] patch.flips[j]
            &&& forall|i: int|
                0 <= i < patch.flips.len() ==> lies_in(map, #[trigger] patch.flips[i])
            &&& validation.allow_model_signature_mismatch || forall|signature: Seq<char>| #[trigger]
                names_architecture(patch, signature) ==> signature == map.signature
        },
{
    crate::patch::law_accepted_rows(map, patch.flips);
    assert forall|i: int| 0 <= i < patch.flips.len() implies lies_in(map, #[trigger] patch.flips[i])
        == crate::patch::has_row(map, patch.flips[i]) by {
        law_rows_lie_in_tensors(map, patch.flips[i]);
    }
    if let Some(signature) = patch.signature() {
        assert(names_architecture(patch, signature));
    }
}

/// A patch that is refused for its rows is refused for the first of them that the model
/// does not have or that occurred before.
pub proof fn law_first_bad_row_is_reported(
    patch: PatchModel,
    map: ArchitectureModel,
    validation: PatchValidation,
    place: int,
)
    requires
        map.complete(),
        patch.version == 1,
        patch.format == "miyagi_row_xor_v1"@,
        0 <= place < patch.flips.len(),
        forall|i: int| 0 <= i < place ==> lies_in(map, #[trigger] patch.flips[i]),
        forall|i: int, j: int|
            0 <= i < j < place ==> #[trigger] patch.flips[i] != #[trigger] patch.flips[j],
    ensures
        patch.flips[place].layer >= map.layer_count ==> patch.fault(map, validation) == Some(
            ErrorModel::MissingTensor(
                crate::architecture::coordinate_text(
                    patch.flips[place].layer as nat,
                    patch.flips[place].proj,
                ),
            ),
        ),
        patch.flips[place].layer < map.layer_count && !lies_in(map, patch.flips[place])
            ==> patch.fault(map, validation) == Some(
            ErrorModel::RowOutOfBounds {
                coordinate: crate::architecture::coordinate_text(
                    patch.flips[place].layer as nat,
                    patch.flips[place].proj,
                ),
                row: patch.flips[place].row as nat,
                rows: map.tensor(patch.flips[place].layer as nat, patch.flips[place].proj).rows,
            },
        ),
        lies_in(map, patch.flips[place]) && (exists|i: int|
            0 <= i < place && #[trigger] patch.flips[i] == patch.flips[place]) ==> patch.fault(
            map,
            validation,
        ) == Some(ErrorModel::DuplicateFlip(crate::patch::row_text(patch.flips[place]))),
{
    assert forall|i: int| 0 <= i < place implies #[trigger] crate::patch::row_fault(
        map,
        patch.flips,
        i,
    ) is None by {
        law_rows_lie_in_tensors(map, patch.flips[i]);
        if patch.flips.take(i).contains(patch.flips[i]) {
            let j = choose|j: int|
                0 <= j < i && #[trigger] patch.flips.take(i)[j] == patch.flips[i];
            assert(patch.flips[j] == patch.flips[i]);
        }
    }
    law_rows_lie_in_tensors(map, patch.flips[place]);
    let flip = patch.flips[place];
    if exists|i: int| 0 <= i < place && #[trigger] patch.flips[i] == flip {
        let i = choose|i: int| 0 <= i < place && #[trigger] patch.flips[i] == flip;
        assert(patch.flips.take(place)[i] == flip);
        assert(patch.flips.take(place).contains(flip));
    }
    lemma_first_fault(map, patch.flips, 0, place);
}

proof fn lemma_first_fault(map: ArchitectureModel, flips: Seq<PatchFlip>, from: int, place: int)
    requires
        0 <= from <= place < flips.len(),
        forall|i: int|
            from <= i < place ==> #[trigger] crate::patch::row_fault(map, flips, i) is None,
    ensures
        crate::patch::row_fault(map, flips, place) is Some ==> crate::patch::rows_fault(
            map,
            flips,
            from,
        ) == crate::patch::row_fault(map, flips, place),
    decreases place - from,
{
    if from < place {
        assert(crate::patch::row_fault(map, flips, from) is None);
        lemma_first_fault(map, flips, from + 1, place);
    }
}

/// A patch of another version or another format, or for another architecture, is
/// refused with what it has in place of what was expected.
pub proof fn law_foreign_patches_are_refused(
    patch: PatchModel,
    map: ArchitectureModel,
    validation: PatchValidation,
    signature: Seq<char>,
)
    ensures
        patch.version != 1 ==> patch.fault(map, validation) == Some(
            ErrorModel::InvalidPatch(
                "unsupported patch version "@ + crate::text::decimal(patch.version as nat),
            ),
        ),
        patch.version == 1 && patch.format != "miyagi_row_xor_v1"@ ==> patch.fault(map, validation)
            == Some(ErrorModel::InvalidPatch("unsupported patch format "@ + patch.format)),
        patch.version == 1 && patch.format == "miyagi_row_xor_v1"@ && crate::patch::rows_fault(
            map,
            patch.flips,
            0,
        ) is None && !validation.allow_model_signature_mismatch && names_architecture(
            patch,
            signature,
        ) && signature != map.signature ==> patch.fault(map, validation) == Some(
            ErrorModel::ArchitectureMismatch { expected: signature, actual: map.signature },
        ),
{
}

/// Flipping a row changes that row, and no other.
pub proof fn law_flip_changes_one_row(rows: Set<PatchFlip>, flip: PatchFlip, other: PatchFlip)
    ensures
        crate::patch::toggled(rows, flip).contains(other) <==> rows.contains(other) != (flip
            == other),
{
}

/// A row that is flipped several times ends up changed exactly if it was flipped an odd
/// number of times.
pub proof fn law_odd_flips_change_a_row(
    rows: Set<PatchFlip>,
    flips: Seq<PatchFlip>,
    row: PatchFlip,
)
    ensures
        crate::patch::toggled_all(rows, flips).contains(row) <==> rows.contains(row) != (
        flips.filter(|flip: PatchFlip| flip == row).len() % 2 == 1),
    decreases flips.len(),
{
    reveal(Seq::filter);
    if flips.len() > 0 {
        law_odd_flips_change_a_row(rows, flips.drop_last(), row);
    }
}

/// Where a projection stands among the three.
pub open spec fn rank(projection: Projection) -> int {
    match projection {
        Projection::Gate => 0,
        Projection::Up => 1,
        Projection::Down => 2,
    }
}

/// Rows are ordered by layer, in a layer by projection, in a projection by row.
pub proof fn law_rows_are_ordered(flips: Seq<PatchFlip>, i: int, j: int)
    requires
        crate::flip_set::ascending(flips),
        0 <= i < j < flips.len(),
    ensures
        flips[i].layer <= flips[j].layer,
        flips[i].layer == flips[j].layer ==> rank(flips[i].proj) <= rank(flips[j].proj),
        flips[i].layer == flips[j].layer && flips[i].proj == flips[j].proj ==> flips[i].row
            < flips[j].row,
{
    assert(crate::flip_set::row_before(flips[i], flips[j]));
}

/// Rows in that order are in the order that a set of them hands out.
pub proof fn law_ordered_rows_are_ascending(flips: Seq<PatchFlip>)
    requires
        forall|i: int, j: int|
            #![trigger flips[i], flips[j]]
            0 <= i < j < flips.len() ==> flips[i].layer < flips[j].layer || (flips[i].layer
                == flips[j].layer && (rank(flips[i].proj) < rank(flips[j].proj) || (flips[i].proj
                == flips[j].proj && flips[i].row < flips[j].row))),
    ensures
        crate::flip_set::ascending(flips),
{
}

/// A row stands in the composition of several patches exactly if an odd number of them
/// name it, where none names a row twice.
pub proof fn law_composition_keeps_odd_rows(patches: Seq<PatchModel>, flip: PatchFlip)
    requires
        forall|i: int, j: int, k: int|
            #![trigger patches[i].flips[j], patches[i].flips[k]]
            0 <= i < patches.len() && 0 <= j < k < patches[i].flips.len() ==> patches[i].flips[j]
                != patches[i].flips[k],
    ensures
        crate::patch::toggled_all(
            Set::<PatchFlip>::empty(),
            crate::patch::all_flips(patches),
        ).contains(flip) <==> patches.filter(
            |patch: PatchModel| patch.flips.contains(flip),
        ).len() % 2 == 1,
{
    assert forall|i: int| 0 <= i < patches.len() implies (
    #[trigger] patches[i]).flips.no_duplicates() by {
        assert forall|j: int, k: int|
            0 <= j < k < patches[i].flips.len() implies #[trigger] patches[i].flips[j]
            != #[trigger] patches[i].flips[k] by {}
    }
    crate::patch::law_composition_cancels_even_rows(patches, flip);
    lemma_times_named(patches, flip);
}

proof fn lemma_times_named(patches: Seq<PatchModel>, flip: PatchFlip)
    ensures
        crate::patch::times_named(patches, flip) == patches.filter(
            |patch: PatchModel| patch.flips.contains(flip),
        ).len(),
    decreases patches.len(),
{
    reveal(Seq::filter);
    if patches.len() > 0 {
        lemma_times_named(patches.drop_last(), flip);
    }
}

/// Composing takes the rows of the patches one patch after the other, each patch whole.
pub proof fn law_composition_takes_every_patch(patches: Seq<PatchModel>, patch: PatchModel)
    ensures
        crate::patch::all_flips(Seq::empty()) == Seq::<PatchFlip>::empty(),
        crate::patch::all_flips(patches.push(patch)) == crate::patch::all_flips(patches)
            + patch.flips,
{
    assert(patches.push(patch).drop_last() =~= patches);
}

/// Patches can be composed exactly if any two of them are for the same base model.
pub proof fn law_composition_needs_one_base(patches: Seq<PatchModel>)
    ensures
        crate::patch::share_base(patches) <==> forall|i: int, j: int|
            0 <= i < patches.len() && 0 <= j < patches.len() ==> (
            #[trigger] patches[i]).base_model == (#[trigger] patches[j]).base_model,
{
    if crate::patch::share_base(patches) {
        assert forall|i: int, j: int|
            0 <= i < patches.len() && 0 <= j < patches.len() implies (
        #[trigger] patches[i]).base_model == (#[trigger] patches[j]).base_model by {}
    }
    if forall|i: int, j: int|
        0 <= i < patches.len() && 0 <= j < patches.len() ==> (#[trigger] patches[i]).base_model
            == (#[trigger] patches[j]).base_model {
        assert forall|i: int| 0 <= i < patches.len() implies (#[trigger] patches[i]).base_model
            == patches[0].base_model by {}
    }
}

/// Of several values under one name, the last is kept. Other names keep theirs.
pub proof fn law_last_value_is_kept(
    entries: Seq<(String, MetadataValue)>,
    entry: (String, MetadataValue),
    name: Seq<char>,
)
    ensures
        crate::patch::metadata_of(Seq::empty()).dom() == Set::<Seq<char>>::empty(),
        crate::patch::metadata_of(entries.push(entry)).dom().contains(entry.0@),
        crate::patch::metadata_of(entries.push(entry))[entry.0@] == entry.1@,
        name != entry.0@ ==> (crate::patch::metadata_of(entries.push(entry)).dom().contains(name)
            <==> crate::patch::metadata_of(entries).dom().contains(name)),
        name != entry.0@ && crate::patch::metadata_of(entries).dom().contains(name)
            ==> crate::patch::metadata_of(entries.push(entry))[name] == crate::patch::metadata_of(
            entries,
        )[name],
{
    assert(entries.push(entry).drop_last() =~= entries);
    assert(crate::patch::metadata_of(Seq::empty()).dom() =~= Set::<Seq<char>>::empty());
}

/// A row is written as its coordinate and its number in square brackets.
pub proof fn law_rows_are_written_out(flip: PatchFlip)
    ensures
        crate::patch::row_text(flip) == seq!['L'] + crate::text::decimal(flip.layer as nat) + seq![
            '.',
        ] + crate::laws::inspection::called(flip.proj) + seq!['['] + crate::text::decimal(
            flip.row as nat,
        ) + seq![']'],
{
    crate::laws::inspection::law_coordinates_are_written_out(flip.layer as nat, flip.proj);
    reveal_strlit("[");
    reveal_strlit("]");
    assert("["@ =~= seq!['[']);
    assert("]"@ =~= seq![']']);
}

} // verus!
