//! Which probes and projections are selected, and how things are put into words.

use vstd::prelude::*;

use crate::architecture::{Projection, TensorModel};
use crate::error::{Error, ErrorModel};
use crate::probe::{Probe, ProbeModel};

verus! {

/// The probes of several selectors are those of each, one after the other. The first
/// selector that cannot be read ends it with its own error.
pub proof fn law_selected_probes_are_joined(
    parts: Seq<Result<Vec<Probe>, Error>>,
    part: Result<Vec<Probe>, Error>,
)
    ensures
        crate::cli::joined(Seq::empty()) == Ok::<Seq<ProbeModel>, ErrorModel>(Seq::empty()),
        crate::cli::joined(parts) is Ok && part is Ok ==> crate::cli::joined(parts.push(part))
            == Ok::<Seq<ProbeModel>, ErrorModel>(
            crate::cli::joined(parts)->Ok_0 + crate::probe::probe_models(part->Ok_0@),
        ),
        crate::cli::joined(parts) is Ok && part is Err ==> crate::cli::joined(parts.push(part))
            == Err::<Seq<ProbeModel>, ErrorModel>(part->Err_0@),
        crate::cli::joined(parts) is Err ==> crate::cli::joined(parts.push(part))
            == crate::cli::joined(parts),
{
    assert(parts.push(part).drop_last() =~= parts);
}

/// Selectors can be joined exactly if each of them could be read.
pub proof fn law_every_selector_must_be_readable(parts: Seq<Result<Vec<Probe>, Error>>)
    ensures
        crate::cli::joined(parts) is Ok <==> forall|i: int|
            0 <= i < parts.len() ==> (#[trigger] parts[i]) is Ok,
    decreases parts.len(),
{
    if parts.len() > 0 {
        let less = parts.drop_last();
        law_every_selector_must_be_readable(less);
        let last = parts[parts.len() - 1];
        assert(parts.last() == last);
        if crate::cli::joined(parts) is Ok {
            assert forall|i: int| 0 <= i < parts.len() implies (#[trigger] parts[i]) is Ok by {
                if i < less.len() {
                    assert(less[i] is Ok);
                }
            }
        }
        if forall|i: int| 0 <= i < parts.len() ==> (#[trigger] parts[i]) is Ok {
            assert forall|i: int| 0 <= i < less.len() implies (#[trigger] less[i]) is Ok by {
                assert(parts[i] is Ok);
            }
            assert(last is Ok);
        }
    }
}

/// Where no controls are named, they are the built-in sets that the target is not, whole
/// and in their order. A target that is no built-in set has all of them.
pub proof fn law_controls_are_the_other_sets(target: Seq<char>)
    ensures
        crate::cli::other_sets("math"@) == crate::probe::code_set()
            + crate::probe::knowledge_set(),
        crate::cli::other_sets("code"@) == crate::probe::math_set()
            + crate::probe::knowledge_set(),
        crate::cli::other_sets("knowledge"@) == crate::probe::math_set()
            + crate::probe::code_set(),
        target != "math"@ && target != "code"@ && target != "knowledge"@ ==> crate::cli::other_sets(
            target,
        ) == crate::probe::math_set() + crate::probe::code_set() + crate::probe::knowledge_set(),
{
    reveal_strlit("math");
    reveal_strlit("code");
    reveal_strlit("knowledge");
    assert("math"@[0] == 'm' && "code"@[0] == 'c' && "knowledge"@[0] == 'k');
    assert(crate::cli::other_sets("math"@) =~= crate::probe::code_set()
        + crate::probe::knowledge_set());
    assert(crate::cli::other_sets("code"@) =~= crate::probe::math_set()
        + crate::probe::knowledge_set());
    assert(crate::cli::other_sets("knowledge"@) =~= crate::probe::math_set()
        + crate::probe::code_set());
}

/// No control is a probe of the target.
pub proof fn law_controls_are_not_targets(target: Seq<char>, i: int, j: int)
    requires
        crate::probe::built_in_set(target) is Some,
        0 <= i < crate::cli::other_sets(target).len(),
        0 <= j < crate::probe::built_in_set(target)->Some_0.len(),
    ensures
        crate::cli::other_sets(target)[i].category
            != crate::probe::built_in_set(target)->Some_0[j].category,
{
    law_controls_are_the_other_sets(target);
    crate::laws::probing::law_built_in_sets_are_found_by_name(target);
    crate::laws::probing::law_math_questions();
    crate::laws::probing::law_code_questions();
    crate::laws::probing::law_knowledge_questions();
    reveal_strlit("math");
    reveal_strlit("code");
    reveal_strlit("knowledge");
    assert("math"@[0] == 'm' && "code"@[0] == 'c' && "knowledge"@[0] == 'k');
    let sets = crate::cli::other_sets(target);
    let math = crate::probe::math_set();
    let code = crate::probe::code_set();
    let knowledge = crate::probe::knowledge_set();
    assert(crate::probe::built_in_set(target)->Some_0[j].category == target);
    if target == "math"@ {
        if i < code.len() {
            assert(sets[i] == code[i]);
        } else {
            assert(sets[i] == knowledge[i - code.len()]);
        }
    } else if target == "code"@ {
        if i < math.len() {
            assert(sets[i] == math[i]);
        } else {
            assert(sets[i] == knowledge[i - math.len()]);
        }
    } else {
        if i < math.len() {
            assert(sets[i] == math[i]);
        } else {
            assert(sets[i] == code[i - math.len()]);
        }
    }
}

/// Names of projections are read one by one. They are all read exactly if each is known,
/// and each gives the projection it names.
pub proof fn law_projections_are_read_by_name(names: Seq<String>)
    ensures
        crate::cli::named_projections(names, names.len()) is Ok <==> forall|i: int|
            0 <= i < names.len() ==> Projection::named((#[trigger] names[i])@) is Some,
        crate::cli::named_projections(names, names.len()) matches Ok(projections) ==> {
            &&& projections.len() == names.len()
            &&& forall|i: int|
                0 <= i < names.len() ==> Projection::named((#[trigger] names[i])@) == Some(
                    projections[i],
                )
        },
{
    lemma_named(names, names.len());
}

proof fn lemma_named(names: Seq<String>, shown: nat)
    requires
        shown <= names.len(),
    ensures
        crate::cli::named_projections(names, shown) is Ok <==> forall|i: int|
            0 <= i < shown ==> Projection::named((#[trigger] names[i])@) is Some,
        crate::cli::named_projections(names, shown) matches Ok(projections) ==> {
            &&& projections.len() == shown
            &&& forall|i: int|
                0 <= i < shown ==> Projection::named((#[trigger] names[i])@) == Some(
                    projections[i],
                )
        },
    decreases shown,
{
    if shown > 0 {
        lemma_named(names, (shown - 1) as nat);
    }
}

/// The first name that is not known is complained about.
pub proof fn law_first_unknown_projection_is_reported(names: Seq<String>, place: int)
    requires
        0 <= place < names.len(),
        forall|i: int| 0 <= i < place ==> Projection::named((#[trigger] names[i])@) is Some,
        Projection::named(names[place]@) is None,
    ensures
        crate::cli::named_projections(names, names.len()) == Err::<Seq<Projection>, ErrorModel>(
            ErrorModel::InvalidProjection(names[place]@),
        ),
{
    lemma_named(names, place as nat);
    crate::cli::lemma_unknown_name_stays(names, (place + 1) as nat, names.len());
}

/// A tensor is put into words by its coordinate, its name, its rows, its width and where it
/// lies.
pub proof fn law_tensors_in_words(tensor: TensorModel)
    ensures
        crate::cli::tensor_words(tensor) == seq![' ', ' ', 'L'] + crate::text::decimal(tensor.layer)
            + seq!['.'] + crate::laws::inspection::called(tensor.projection) + " -> "@ + tensor.name
            + " rows="@ + crate::text::decimal(tensor.rows) + " width="@ + crate::text::decimal(
            tensor.width,
        ) + " backend="@ + tensor.backend,
{
    crate::laws::inspection::law_coordinates_are_written_out(tensor.layer, tensor.projection);
    reveal_strlit("  ");
    assert("  "@ =~= seq![' ', ' ']);
    let place = crate::architecture::coordinate_text(tensor.layer, tensor.projection);
    assert("  "@ + place =~= seq![' ', ' ', 'L'] + crate::text::decimal(tensor.layer) + seq!['.']
        + crate::laws::inspection::called(tensor.projection));
}

/// A pattern that cannot be compiled is complained about in quotes, with the reason.
pub proof fn law_bad_patterns_are_quoted(pattern: Seq<char>, message: Seq<char>)
    ensures
        crate::cli::regex_complaint(pattern, message) == ErrorModel::InvalidSearch(
            "invalid regex "@ + crate::cli::debug_text(pattern) + ": "@ + message,
        ),
{
}

} // verus!
