//! What the names of tensors say, and what the signature of a model takes in.

use vstd::prelude::*;

use crate::architecture::{ArchitectureModel, Projection, TensorModel};

verus! {

/// What a tensor of the projection is called, after the number of its layer.
pub open spec fn ending(projection: Projection) -> Seq<char> {
    match projection {
        Projection::Gate => ".ffn_gate.weight"@,
        Projection::Up => ".ffn_up.weight"@,
        Projection::Down => ".ffn_down.weight"@,
    }
}

/// What patches and reports call the projection.
pub open spec fn called(projection: Projection) -> Seq<char> {
    match projection {
        Projection::Gate => "gate_proj"@,
        Projection::Up => "up_proj"@,
        Projection::Down => "down_proj"@,
    }
}

/// A projection is known by three names, and by no other.
pub proof fn law_projections_have_three_names(text: Seq<char>)
    ensures
        Projection::named(text) == Some(Projection::Gate) <==> (text == "gate"@ || text
            == "gate_proj"@ || text == "ffn_gate"@),
        Projection::named(text) == Some(Projection::Up) <==> (text == "up"@ || text == "up_proj"@
            || text == "ffn_up"@),
        Projection::named(text) == Some(Projection::Down) <==> (text == "down"@ || text
            == "down_proj"@ || text == "ffn_down"@),
{
    reveal_strlit("gate");
    reveal_strlit("gate_proj");
    reveal_strlit("ffn_gate");
    reveal_strlit("up");
    reveal_strlit("up_proj");
    reveal_strlit("ffn_up");
    reveal_strlit("down");
    reveal_strlit("down_proj");
    reveal_strlit("ffn_down");
    assert("gate"@[0] == 'g' && "gate_proj"@[0] == 'g' && "ffn_gate"@[4] == 'g');
    assert("up"@[0] == 'u' && "up_proj"@[0] == 'u' && "ffn_up"@[4] == 'u');
    assert("down"@[0] == 'd' && "down_proj"@[0] == 'd' && "ffn_down"@[4] == 'd');
    assert("ffn_gate"@[0] == 'f' && "ffn_up"@[0] == 'f' && "ffn_down"@[0] == 'f');
}

/// A coordinate is written as the letter L, the number of the layer, a dot and what the
/// projection is called.
pub proof fn law_coordinates_are_written_out(layer: nat, projection: Projection)
    ensures
        projection.name() == called(projection),
        crate::architecture::coordinate_text(layer, projection) == seq!['L']
            + crate::text::decimal(layer) + seq!['.'] + called(projection),
{
    reveal_strlit("L");
    reveal_strlit(".");
    assert("L"@ =~= seq!['L']);
    assert("."@ =~= seq!['.']);
}

/// A tensor belongs to a projection of a layer exactly if it is called `blk.`, a numeral
/// of the layer, and the ending of the projection.
pub proof fn law_tensors_are_placed_by_their_names(
    name: Seq<char>,
    numeral: Seq<char>,
    layer: nat,
    projection: Projection,
)
    ensures
        crate::architecture::tensor_place(name) == Some((layer, projection)) ==> exists|
            between: Seq<char>,
        |
            #![trigger crate::text::is_numeral(between)]
            name == "blk."@ + between + ending(projection) && crate::text::is_numeral(between)
                && crate::text::digits_value(crate::text::numeral_digits(between)) == layer && layer
                <= usize::MAX,
        name == "blk."@ + numeral + ending(projection) && crate::text::is_numeral(numeral)
            && crate::text::digits_value(crate::text::numeral_digits(numeral)) == layer && layer
            <= usize::MAX ==> crate::architecture::tensor_place(name) == Some((layer, projection)),
{
    reveal_strlit("blk.");
    reveal_strlit(".ffn_gate.weight");
    reveal_strlit(".ffn_up.weight");
    reveal_strlit(".ffn_down.weight");
    if crate::architecture::tensor_place(name) == Some((layer, projection)) {
        let between = crate::architecture::tensor_numeral(name, projection);
        assert(crate::architecture::is_tensor_name(name, projection));
        let suffix = projection.suffix();
        assert(name =~= name.subrange(0, 4) + between + name.subrange(
            name.len() - suffix.len(),
            name.len() as int,
        ));
        assert(crate::text::is_numeral(between));
    }
    if name == "blk."@ + numeral + ending(projection) && crate::text::is_numeral(numeral)
        && crate::text::digits_value(crate::text::numeral_digits(numeral)) == layer && layer
        <= usize::MAX {
        let suffix = projection.suffix();
        assert(name.subrange(0, 4) =~= "blk."@);
        assert(name.subrange(name.len() - suffix.len(), name.len() as int) =~= suffix);
        assert(crate::architecture::tensor_numeral(name, projection) =~= numeral);
        assert(crate::architecture::is_tensor_name(name, projection));
        if crate::architecture::is_tensor_name(name, Projection::Gate) {
            crate::architecture::law_tensor_names_are_unambiguous(
                name,
                projection,
                Projection::Gate,
            );
        }
        if crate::architecture::is_tensor_name(name, Projection::Up) {
            crate::architecture::law_tensor_names_are_unambiguous(name, projection, Projection::Up);
        }
        if crate::architecture::is_tensor_name(name, Projection::Down) {
            crate::architecture::law_tensor_names_are_unambiguous(
                name,
                projection,
                Projection::Down,
            );
        }
    }
}

/// The hash is FNV-1a of 64 bits: each byte in turn is put on by exclusive or, and the
/// whole multiplied by the prime, modulo two to the power of 64.
pub proof fn law_bytes_are_hashed_one_by_one(start: u64, bytes: Seq<u8>, byte: u8)
    ensures
        crate::architecture::fnv1a(start, Seq::empty()) == start,
        crate::architecture::fnv1a(start, bytes.push(byte)) as int == ((crate::architecture::fnv1a(
            start,
            bytes,
        ) ^ (byte as u64)) as int * 1_099_511_628_211) % 18_446_744_073_709_551_616,
{
    assert(bytes.push(byte).drop_last() =~= bytes);
}

/// Hashing one text and then another is hashing both together.
pub proof fn law_hashes_go_on(start: u64, first: Seq<u8>, second: Seq<u8>)
    ensures
        crate::architecture::fnv1a(crate::architecture::fnv1a(start, first), second)
            == crate::architecture::fnv1a(start, first + second),
    decreases second.len(),
{
    if second.len() > 0 {
        law_hashes_go_on(start, first, second.drop_last());
        assert((first + second).drop_last() =~= first + second.drop_last());
        assert((first + second).last() == second.last());
    } else {
        assert(first + second =~= first);
    }
}

/// What is written of a tensor into the signature.
pub open spec fn entry(tensor: TensorModel) -> Seq<char> {
    crate::text::decimal(tensor.layer) + seq!['|'] + called(tensor.projection) + seq!['|']
        + tensor.name + seq!['|'] + crate::text::signed_decimal(tensor.type_id as int) + seq!['|']
        + crate::text::decimal(tensor.width) + seq!['|'] + crate::text::decimal(tensor.rows)
        + seq![';']
}

/// The entries of all tensors, as bytes.
pub open spec fn entries(tensors: Seq<TensorModel>) -> Seq<u8>
    decreases tensors.len(),
{
    if tensors.len() == 0 {
        Seq::empty()
    } else {
        entries(tensors.drop_last()) + vstd::utf8::encode_utf8(entry(tensors.last()))
    }
}

/// Each tensor of a model counts in its signature, however many there are: the hash of
/// no tensor is the offset basis, and one more tensor goes on with the hash of those
/// before it. So the hash is that of all the entries together.
pub proof fn law_signature_takes_in_every_tensor(tensors: Seq<TensorModel>, tensor: TensorModel)
    ensures
        crate::architecture::signature_hash(Seq::empty()) == 14_695_981_039_346_656_037u64,
        crate::architecture::signature_hash(tensors.push(tensor)) == crate::architecture::fnv1a(
            crate::architecture::signature_hash(tensors),
            vstd::utf8::encode_utf8(entry(tensor)),
        ),
        crate::architecture::signature_hash(tensors) == crate::architecture::fnv1a(
            14_695_981_039_346_656_037u64,
            entries(tensors),
        ),
    decreases tensors.len(),
{
    reveal_strlit("|");
    reveal_strlit(";");
    assert("|"@ =~= seq!['|']);
    assert(";"@ =~= seq![';']);
    assert(tensors.push(tensor).drop_last() =~= tensors);
    assert(tensor.line() =~= entry(tensor));
    if tensors.len() > 0 {
        let less = tensors.drop_last();
        law_signature_takes_in_every_tensor(less, tensors.last());
        assert(less.push(tensors.last()) =~= tensors);
        law_hashes_go_on(
            14_695_981_039_346_656_037u64,
            entries(less),
            vstd::utf8::encode_utf8(entry(tensors.last())),
        );
    }
}

/// The signature of a map is `fnv1a64:` and the hash of all its tensors in sixteen
/// hexadecimal digits.
pub proof fn law_signatures_hold_the_hash(map: ArchitectureModel)
    requires
        map.complete(),
    ensures
        map.signature == "fnv1a64:"@ + crate::text::hexadecimal(
            crate::architecture::fnv1a(14_695_981_039_346_656_037u64, entries(map.tensors)) as nat,
            16,
        ),
{
    if map.tensors.len() > 0 {
        law_signature_takes_in_every_tensor(map.tensors, map.tensors.last());
    }
}

/// A map gives, for each projection of each of its layers, the tensor of that layer and
/// that projection.
pub proof fn law_maps_answer_by_layer_and_projection(
    map: ArchitectureModel,
    layer: nat,
    projection: Projection,
)
    requires
        map.complete(),
        layer < map.layer_count,
    ensures
        map.tensor(layer, projection).layer == layer,
        map.tensor(layer, projection).projection == projection,
        map.tensor(layer, projection).type_id == 41,
        map.tensor(layer, projection).rows > 0,
        map.tensor(layer, projection).width > 0,
        map.tensor(layer, projection) == map.tensors[match projection {
            Projection::Gate => 3 * layer as int,
            Projection::Up => 3 * layer as int + 1,
            Projection::Down => 3 * layer as int + 2,
        }],
{
    let i: int = 3 * layer as int + projection.place() as int;
    assert(i / 3 == layer && i % 3 == projection.place());
    assert(crate::architecture::stands_for(
        map.tensors[i],
        (i / 3) as nat,
        Projection::at(i % 3),
    ));
}

} // verus!
