//! The map from logical coordinates to the tensors of a model.

use std::str::FromStr;

use vstd::prelude::*;

use crate::error::{Error, ErrorModel};

verus! {

/// The type number of the one-bit quantisation that the map accepts.
pub const Q1_0_TYPE_ID: i32 = 41;

/// One of the three matrices of a feed-forward block.
#[derive(Clone, Copy, Debug, PartialEq, Eq, PartialOrd, Ord, Hash, Structural)]
pub enum Projection {
    Gate,
    Up,
    Down,
}

impl Projection {
    /// The name under which patches and reports know the projection.
    pub open spec fn name(self) -> Seq<char> {
        match self {
            Projection::Gate => "gate_proj"@,
            Projection::Up => "up_proj"@,
            Projection::Down => "down_proj"@,
        }
    }

    /// How the name of the projection's tensor ends.
    pub open spec fn suffix(self) -> Seq<char> {
        match self {
            Projection::Gate => ".ffn_gate.weight"@,
            Projection::Up => ".ffn_up.weight"@,
            Projection::Down => ".ffn_down.weight"@,
        }
    }

    /// The place of the projection among the three.
    pub open spec fn place(self) -> nat {
        match self {
            Projection::Gate => 0,
            Projection::Up => 1,
            Projection::Down => 2,
        }
    }

    pub open spec fn at(place: int) -> Projection {
        if place == 0 {
            Projection::Gate
        } else if place == 1 {
            Projection::Up
        } else {
            Projection::Down
        }
    }

    /// The projection that a text names, under its own name or one of the two
    /// others that are understood.
    pub open spec fn named(text: Seq<char>) -> Option<Projection> {
        if text == "gate"@ || text == "gate_proj"@ || text == "ffn_gate"@ {
            Some(Projection::Gate)
        } else if text == "up"@ || text == "up_proj"@ || text == "ffn_up"@ {
            Some(Projection::Up)
        } else if text == "down"@ || text == "down_proj"@ || text == "ffn_down"@ {
            Some(Projection::Down)
        } else {
            None
        }
    }

    /// The three projections, in their order.
    pub fn all() -> (r: [Projection; 3])
        ensures
            r@ == seq![Projection::Gate, Projection::Up, Projection::Down],
    {
        [Projection::Gate, Projection::Up, Projection::Down]
    }

    pub fn projection_name(self) -> (r: &'static str)
        ensures
            r@ == self.name(),
    {
        match self {
            Projection::Gate => "gate_proj",
            Projection::Up => "up_proj",
            Projection::Down => "down_proj",
        }
    }

    pub fn gguf_suffix(self) -> (r: &'static str)
        ensures
            r@ == self.suffix(),
    {
        match self {
            Projection::Gate => ".ffn_gate.weight",
            Projection::Up => ".ffn_up.weight",
            Projection::Down => ".ffn_down.weight",
        }
    }

    /// Reads the name of a projection.
    pub fn parse(value: &str) -> (r: Result<Projection, Error>)
        ensures
            match Projection::named(value@) {
                Some(projection) => r == Ok::<Projection, Error>(projection),
                None => r matches Err(error) && error@ == ErrorModel::InvalidProjection(value@),
            },
    {
        if is(value, "gate") || is(value, "gate_proj") || is(value, "ffn_gate") {
            Ok(Projection::Gate)
        } else if is(value, "up") || is(value, "up_proj") || is(value, "ffn_up") {
            Ok(Projection::Up)
        } else if is(value, "down") || is(value, "down_proj") || is(value, "ffn_down") {
            Ok(Projection::Down)
        } else {
            Err(Error::InvalidProjection(value.to_owned()))
        }
    }
}

fn is(value: &str, name: &str) -> (r: bool)
    ensures
        r == (value@ == name@),
{
    crate::text::same_text(value, name)
}

impl FromStr for Projection {
    type Err = Error;

    fn from_str(value: &str) -> (r: Result<Projection, Error>)
        ensures
            match Projection::named(value@) {
                Some(projection) => r == Ok::<Projection, Error>(projection),
                None => r matches Err(error) && error@ == ErrorModel::InvalidProjection(value@),
            },
    {
        Projection::parse(value)
    }
}

/// Reading the name of a projection gives the projection back, and so does looking
/// it up by its place.
pub proof fn law_projection_names_read_back(projection: Projection)
    ensures
        Projection::named(projection.name()) == Some(projection),
        Projection::at(projection.place() as int) == projection,
{
    reveal_strlit("gate");
    reveal_strlit("gate_proj");
    reveal_strlit("ffn_gate");
    reveal_strlit("up");
    reveal_strlit("up_proj");
    reveal_strlit("ffn_up");
    reveal_strlit("down");
    reveal_strlit("down_proj");
    reveal_strlit("ffn_down");
    let name = projection.name();
    match projection {
        Projection::Gate => {},
        Projection::Up => {
            assert(name.len() == 7 && name[0] == 'u');
            assert("gate"@[0] == 'g' && "gate_proj"@[0] == 'g' && "ffn_gate"@[0] == 'f');
        },
        Projection::Down => {
            assert(name.len() == 9 && name[0] == 'd');
            assert("gate"@[0] == 'g' && "gate_proj"@[0] == 'g' && "ffn_gate"@[0] == 'f');
            assert("up"@[0] == 'u' && "up_proj"@[0] == 'u' && "ffn_up"@[0] == 'f');
        },
    }
}

/// What a model says of one of its tensors.
#[derive(Debug, PartialEq, Eq)]
pub struct TensorDescriptor {
    pub name: String,
    pub type_id: i32,
    pub type_label: String,
    pub dimensions: [u64; 4],
    pub strides: [usize; 4],
    pub n_dims: usize,
    pub nbytes: usize,
    pub backend: String,
}

impl Clone for TensorDescriptor {
    fn clone(&self) -> (r: TensorDescriptor)
        ensures
            r == *self,
    {
        TensorDescriptor {
            name: self.name.clone(),
            type_id: self.type_id,
            type_label: self.type_label.clone(),
            dimensions: self.dimensions,
            strides: self.strides,
            n_dims: self.n_dims,
            nbytes: self.nbytes,
            backend: self.backend.clone(),
        }
    }
}

pub struct DescriptorModel {
    pub name: Seq<char>,
    pub type_id: i32,
    pub type_label: Seq<char>,
    pub dimensions: [u64; 4],
    pub strides: [usize; 4],
    pub n_dims: usize,
    pub nbytes: usize,
    pub backend: Seq<char>,
}

impl View for TensorDescriptor {
    type V = DescriptorModel;

    open spec fn view(&self) -> DescriptorModel {
        DescriptorModel {
            name: self.name@,
            type_id: self.type_id,
            type_label: self.type_label@,
            dimensions: self.dimensions,
            strides: self.strides,
            n_dims: self.n_dims,
            nbytes: self.nbytes,
            backend: self.backend@,
        }
    }
}

impl DescriptorModel {
    /// A matrix has two dimensions, and its rows can be counted.
    pub open spec fn is_matrix(self) -> bool {
        &&& self.n_dims == 2
        &&& self.dimensions[2] == 1
        &&& self.dimensions[3] == 1
        &&& self.dimensions[1] <= usize::MAX
    }
}

impl TensorDescriptor {
    /// The number of rows of a matrix.
    pub fn row_count(&self) -> (r: Option<usize>)
        ensures
            r is Some <==> self@.is_matrix(),
            r matches Some(rows) ==> rows == self.dimensions[1],
    {
        if self.n_dims != 2 || self.dimensions[2] != 1 || self.dimensions[3] != 1 {
            return None;
        }
        if self.dimensions[1] > usize::MAX as u64 {
            return None;
        }
        Some(self.dimensions[1] as usize)
    }
}

/// A tensor that the map holds.
#[derive(Debug, PartialEq, Eq)]
pub struct TensorInfo {
    pub layer: usize,
    pub projection: Projection,
    pub name: String,
    pub type_id: i32,
    pub type_label: String,
    pub width: usize,
    pub rows: usize,
    pub strides: [usize; 4],
    pub nbytes: usize,
    pub backend: String,
}

pub struct TensorModel {
    pub layer: nat,
    pub projection: Projection,
    pub name: Seq<char>,
    pub type_id: i32,
    pub type_label: Seq<char>,
    pub width: nat,
    pub rows: nat,
    pub strides: [usize; 4],
    pub nbytes: usize,
    pub backend: Seq<char>,
}

impl View for TensorInfo {
    type V = TensorModel;

    open spec fn view(&self) -> TensorModel {
        TensorModel {
            layer: self.layer as nat,
            projection: self.projection,
            name: self.name@,
            type_id: self.type_id,
            type_label: self.type_label@,
            width: self.width as nat,
            rows: self.rows as nat,
            strides: self.strides,
            nbytes: self.nbytes,
            backend: self.backend@,
        }
    }
}

impl Clone for TensorInfo {
    fn clone(&self) -> (r: TensorInfo)
        ensures
            r == *self,
    {
        TensorInfo {
            layer: self.layer,
            projection: self.projection,
            name: self.name.clone(),
            type_id: self.type_id,
            type_label: self.type_label.clone(),
            width: self.width,
            rows: self.rows,
            strides: self.strides,
            nbytes: self.nbytes,
            backend: self.backend.clone(),
        }
    }
}

/// The text of a coordinate, such as `L3.up_proj`.
pub open spec fn coordinate_text(layer: nat, projection: Projection) -> Seq<char> {
    "L"@ + crate::text::decimal(layer) + "."@ + projection.name()
}

pub fn coordinate_of(layer: usize, projection: Projection) -> (r: String)
    ensures
        r@ == coordinate_text(layer as nat, projection),
{
    let mut out: String = "L".to_owned();
    crate::text::push_decimal(&mut out, layer as u64);
    out.append(".");
    out.append(projection.projection_name());
    out
}

impl TensorInfo {
    pub fn coordinate(&self) -> (r: String)
        ensures
            r@ == coordinate_text(self.layer as nat, self.projection),
    {
        coordinate_of(self.layer, self.projection)
    }
}

/// What stands between `blk.` and the suffix of the projection.
pub open spec fn tensor_numeral(name: Seq<char>, projection: Projection) -> Seq<char> {
    name.subrange(4, name.len() - projection.suffix().len())
}

/// The layer that the numeral in a tensor's name counts.
pub open spec fn tensor_layer(name: Seq<char>, projection: Projection) -> nat {
    crate::text::digits_value(crate::text::numeral_digits(tensor_numeral(name, projection)))
}

/// A tensor of the projection is named `blk.`, the number of its layer, and the
/// projection's suffix.
pub open spec fn is_tensor_name(name: Seq<char>, projection: Projection) -> bool {
    let suffix = projection.suffix();
    &&& name.len() >= 4 + suffix.len()
    &&& name.subrange(0, 4) == "blk."@
    &&& name.subrange(name.len() - suffix.len(), name.len() as int) == suffix
    &&& crate::text::is_numeral(tensor_numeral(name, projection))
    &&& tensor_layer(name, projection) <= usize::MAX
}

/// The layer and the projection that a tensor's name gives, where it gives any.
pub open spec fn tensor_place(name: Seq<char>) -> Option<(nat, Projection)> {
    if is_tensor_name(name, Projection::Gate) {
        Some((tensor_layer(name, Projection::Gate), Projection::Gate))
    } else if is_tensor_name(name, Projection::Up) {
        Some((tensor_layer(name, Projection::Up), Projection::Up))
    } else if is_tensor_name(name, Projection::Down) {
        Some((tensor_layer(name, Projection::Down), Projection::Down))
    } else {
        None
    }
}

/// Whether `pattern` stands in `text` from the index `at` on.
fn stands_at(text: &[char], at: usize, pattern: &str) -> (r: bool)
    requires
        at + pattern@.len() <= text@.len(),
    ensures
        r == (text@.subrange(at as int, at + pattern@.len()) == pattern@),
{
    let wanted: Vec<char> = crate::text::characters(pattern);
    let total: usize = text.len();
    let mut next: usize = 0;
    while next < wanted.len()
        invariant
            next <= wanted@.len(),
            wanted@ == pattern@,
            total == text@.len(),
            at + pattern@.len() <= total,
            forall|i: int| 0 <= i < next ==> text@[at + i] == #[trigger] wanted@[i],
        decreases wanted@.len() - next,
    {
        if text[at + next] != wanted[next] {
            assert(text@.subrange(at as int, at + pattern@.len())[next as int] != pattern@[next as int]);
            return false;
        }
        next = next + 1;
    }
    assert(text@.subrange(at as int, at + pattern@.len()) =~= pattern@);
    true
}

/// The layer in a tensor's name, where the name is one of the projection's.
fn layer_in_name(name: &[char], projection: Projection) -> (r: Option<usize>)
    ensures
        r is Some <==> is_tensor_name(name@, projection),
        r matches Some(layer) ==> layer == tensor_layer(name@, projection),
{
    proof {
        reveal_strlit("blk.");
        reveal_strlit(".ffn_gate.weight");
        reveal_strlit(".ffn_up.weight");
        reveal_strlit(".ffn_down.weight");
    }
    let suffix: &str = projection.gguf_suffix();
    let length: usize = match projection {
        Projection::Gate => 16,
        Projection::Up => 14,
        Projection::Down => 16,
    };
    assert(suffix@.len() == length);
    if name.len() < 4 + length {
        return None;
    }
    let end: usize = name.len() - length;
    if !stands_at(name, 0, "blk.") || !stands_at(name, end, suffix) {
        return None;
    }
    crate::text::parse_number(vstd::slice::slice_subrange(name, 4, end))
}

/// Reads the name of a tensor.
pub fn parse_qwen_tensor_name(name: &str) -> (r: Option<(usize, Projection)>)
    ensures
        match tensor_place(name@) {
            Some((layer, projection)) => r matches Some(place) && place.0 == layer && place.1
                == projection,
            None => r is None,
        },
{
    let letters: Vec<char> = crate::text::characters(name);
    let mut next: usize = 0;
    let projections: [Projection; 3] = Projection::all();
    while next < 3
        invariant
            next <= 3,
            letters@ == name@,
            projections@ == seq![Projection::Gate, Projection::Up, Projection::Down],
            forall|i: int| 0 <= i < next ==> !is_tensor_name(name@, #[trigger] projections@[i]),
        decreases 3 - next,
    {
        let projection: Projection = projections[next];
        if let Some(layer) = layer_in_name(letters.as_slice(), projection) {
            assert(next == 1 ==> !is_tensor_name(name@, projections@[0]));
            assert(next == 2 ==> !is_tensor_name(name@, projections@[0]) && !is_tensor_name(
                name@,
                projections@[1],
            ));
            return Some((layer, projection));
        }
        next = next + 1;
    }
    assert(!is_tensor_name(name@, projections@[0]));
    assert(!is_tensor_name(name@, projections@[1]));
    assert(!is_tensor_name(name@, projections@[2]));
    None
}

/// Reading the name of a projection's tensor in a layer gives both back.
pub proof fn law_tensor_names_read_back(layer: nat, projection: Projection)
    requires
        layer <= usize::MAX,
    ensures
        tensor_place("blk."@ + crate::text::decimal(layer) + projection.suffix()) == Some(
            (layer, projection),
        ),
{
    reveal_strlit("blk.");
    reveal_strlit(".ffn_gate.weight");
    reveal_strlit(".ffn_up.weight");
    reveal_strlit(".ffn_down.weight");
    crate::text::law_decimal_reads_back(layer);
    let suffix = projection.suffix();
    let name = "blk."@ + crate::text::decimal(layer) + suffix;
    assert(name.subrange(0, 4) =~= "blk."@);
    assert(name.subrange(name.len() - suffix.len(), name.len() as int) =~= suffix);
    assert(tensor_numeral(name, projection) =~= crate::text::decimal(layer));
    if is_tensor_name(name, Projection::Gate) {
        law_tensor_names_are_unambiguous(name, projection, Projection::Gate);
    }
    if is_tensor_name(name, Projection::Up) {
        law_tensor_names_are_unambiguous(name, projection, Projection::Up);
    }
}

/// No name is that of a tensor of two projections.
pub proof fn law_tensor_names_are_unambiguous(
    name: Seq<char>,
    first: Projection,
    second: Projection,
)
    requires
        is_tensor_name(name, first),
        is_tensor_name(name, second),
    ensures
        first == second,
{
    reveal_strlit(".ffn_gate.weight");
    reveal_strlit(".ffn_up.weight");
    reveal_strlit(".ffn_down.weight");
    let a = name.subrange(name.len() - first.suffix().len(), name.len() as int);
    let b = name.subrange(name.len() - second.suffix().len(), name.len() as int);
    assert(a[first.suffix().len() - 8] == name[name.len() - 8]);
    assert(b[second.suffix().len() - 8] == name[name.len() - 8]);
    assert(Projection::Gate.suffix()[8] == 'e');
    assert(Projection::Up.suffix()[6] == 'p');
    assert(Projection::Down.suffix()[8] == 'n');
}

pub const FNV_OFFSET: u64 = 0xcbf2_9ce4_8422_2325;

pub const FNV_PRIME: u64 = 0x0000_0100_0000_01b3;

/// The 64-bit FNV-1a hash of `bytes`, begun at `start`.
pub open spec fn fnv1a(start: u64, bytes: Seq<u8>) -> u64
    decreases bytes.len(),
{
    if bytes.len() == 0 {
        start
    } else {
        (fnv1a(start, bytes.drop_last()) ^ (bytes.last() as u64)).wrapping_mul(FNV_PRIME)
    }
}

impl TensorModel {
    /// What the signature takes from a tensor.
    pub open spec fn line(self) -> Seq<char> {
        crate::text::decimal(self.layer) + "|"@ + self.projection.name() + "|"@ + self.name + "|"@
            + crate::text::signed_decimal(self.type_id as int) + "|"@ + crate::text::decimal(
            self.width,
        ) + "|"@ + crate::text::decimal(self.rows) + ";"@
    }
}

/// The hash of the lines of the tensors, one after the other.
pub open spec fn signature_hash(tensors: Seq<TensorModel>) -> u64
    decreases tensors.len(),
{
    if tensors.len() == 0 {
        FNV_OFFSET
    } else {
        fnv1a(
            signature_hash(tensors.drop_last()),
            vstd::utf8::encode_utf8(tensors.last().line()),
        )
    }
}

/// The text by which an architecture is recognised.
pub open spec fn signature_text(tensors: Seq<TensorModel>) -> Seq<char> {
    "fnv1a64:"@ + crate::text::hexadecimal(signature_hash(tensors) as nat, 16)
}

/// The tensors as models.
pub open spec fn tensor_models(tensors: Seq<TensorInfo>) -> Seq<TensorModel> {
    Seq::new(tensors.len(), |i: int| tensors[i]@)
}

fn fnv1a_continue(start: u64, bytes: &[u8]) -> (r: u64)
    ensures
        r == fnv1a(start, bytes@),
{
    let mut hash: u64 = start;
    let mut next: usize = 0;
    assert(bytes@.take(0) =~= Seq::<u8>::empty());
    while next < bytes.len()
        invariant
            next <= bytes@.len(),
            hash == fnv1a(start, bytes@.take(next as int)),
        decreases bytes@.len() - next,
    {
        assert(bytes@.take(next + 1).drop_last() =~= bytes@.take(next as int));
        hash = (hash ^ (bytes[next] as u64)).wrapping_mul(FNV_PRIME);
        next = next + 1;
    }
    assert(bytes@.take(next as int) =~= bytes@);
    hash
}

fn signature_line(tensor: &TensorInfo) -> (r: String)
    ensures
        r@ == tensor@.line(),
{
    let mut out: String = String::new();
    crate::text::push_decimal(&mut out, tensor.layer as u64);
    assert(out@ =~= crate::text::decimal(tensor.layer as nat));
    out.append("|");
    out.append(tensor.projection.projection_name());
    out.append("|");
    out.append(tensor.name.as_str());
    out.append("|");
    crate::text::push_signed(&mut out, tensor.type_id);
    out.append("|");
    crate::text::push_decimal(&mut out, tensor.width as u64);
    out.append("|");
    crate::text::push_decimal(&mut out, tensor.rows as u64);
    out.append(";");
    out
}

/// The signature of an architecture, from its tensors in their order.
pub fn architecture_signature(tensors: &[TensorInfo]) -> (r: String)
    ensures
        r@ == signature_text(tensor_models(tensors@)),
{
    let mut hash: u64 = FNV_OFFSET;
    let mut next: usize = 0;
    let ghost models = tensor_models(tensors@);
    assert(models.take(0) =~= Seq::<TensorModel>::empty());
    while next < tensors.len()
        invariant
            next <= tensors@.len(),
            models == tensor_models(tensors@),
            hash == signature_hash(models.take(next as int)),
        decreases tensors@.len() - next,
    {
        let line: String = signature_line(&tensors[next]);
        proof {
            let shown = models.take(next + 1);
            assert(shown.drop_last() =~= models.take(next as int));
            assert(shown.last() == tensors@[next as int]@);
        }
        hash = fnv1a_continue(hash, line.as_str().as_bytes());
        next = next + 1;
    }
    assert(models.take(next as int) =~= models);
    let mut out: String = "fnv1a64:".to_owned();
    crate::text::push_hexadecimal(&mut out, hash, 16);
    out
}

impl DescriptorModel {
    /// Why a tensor that the map would hold cannot be used, where it cannot.
    pub open spec fn fault(self) -> Option<Seq<char>> {
        if self.type_id != Q1_0_TYPE_ID {
            Some(
                "expected Q1_0 type id 41, got "@ + crate::text::signed_decimal(
                    self.type_id as int,
                ) + " ("@ + self.type_label + ")"@,
            )
        } else if !self.is_matrix() {
            Some("unsupported model tensor shape"@)
        } else if self.dimensions[0] > usize::MAX {
            Some("tensor width does not fit usize"@)
        } else if self.dimensions[0] == 0 || self.dimensions[1] == 0 {
            Some("tensor dimensions must be non-zero"@)
        } else {
            None
        }
    }

    /// The tensor as the map holds it.
    pub open spec fn tensor(self, layer: nat, projection: Projection) -> TensorModel {
        TensorModel {
            layer,
            projection,
            name: self.name,
            type_id: self.type_id,
            type_label: self.type_label,
            width: self.dimensions[0] as nat,
            rows: self.dimensions[1] as nat,
            strides: self.strides,
            nbytes: self.nbytes,
            backend: self.backend,
        }
    }
}

pub open spec fn descriptor_models(descriptors: Seq<TensorDescriptor>) -> Seq<DescriptorModel> {
    Seq::new(descriptors.len(), |i: int| descriptors[i]@)
}

pub open spec fn stands_for(tensor: TensorModel, layer: nat, projection: Projection) -> bool {
    tensor.layer == layer && tensor.projection == projection
}

/// Whether one of the tensors has the coordinate.
pub open spec fn holds(found: Seq<TensorModel>, layer: nat, projection: Projection) -> bool {
    exists|i: int| 0 <= i < found.len() && stands_for(#[trigger] found[i], layer, projection)
}

/// One of the tensors with the coordinate.
pub open spec fn tensor_at(
    found: Seq<TensorModel>,
    layer: nat,
    projection: Projection,
) -> TensorModel {
    found[choose|i: int|
        0 <= i < found.len() && stands_for(#[trigger] found[i], layer, projection)]
}

/// The tensors that belong into the map, as the model lists them. A tensor that
/// cannot be used ends the list with an error, and so does one whose coordinate
/// occurred before. Tensors with other names are passed over.
pub open spec fn listed(descriptors: Seq<DescriptorModel>) -> Result<Seq<TensorModel>, ErrorModel>
    decreases descriptors.len(),
{
    if descriptors.len() == 0 {
        Ok(seq![])
    } else {
        match listed(descriptors.drop_last()) {
            Err(error) => Err(error),
            Ok(found) => match tensor_place(descriptors.last().name) {
                None => Ok(found),
                Some((layer, projection)) => match descriptors.last().fault() {
                    Some(reason) => Err(
                        ErrorModel::UnsupportedTensor {
                            coordinate: coordinate_text(layer, projection),
                            reason,
                        },
                    ),
                    None => if holds(found, layer, projection) {
                        Err(ErrorModel::DuplicateTensor(coordinate_text(layer, projection)))
                    } else {
                        Ok(found.push(descriptors.last().tensor(layer, projection)))
                    },
                },
            },
        }
    }
}

/// The highest layer of the tensors.
pub open spec fn last_layer(found: Seq<TensorModel>) -> nat
    decreases found.len(),
{
    if found.len() <= 1 {
        found[0].layer
    } else if found.last().layer > last_layer(found.drop_last()) {
        found.last().layer
    } else {
        last_layer(found.drop_last())
    }
}

/// What a layer lacks, where it lacks anything.
pub open spec fn layer_gap(found: Seq<TensorModel>, layer: nat) -> Option<ErrorModel> {
    let gate = holds(found, layer, Projection::Gate);
    let up = holds(found, layer, Projection::Up);
    let down = holds(found, layer, Projection::Down);
    if !gate && !up && !down {
        Some(
            ErrorModel::UnsupportedArchitecture(
                "transformer layer "@ + crate::text::decimal(layer)
                    + " is missing from the MLP tensor map"@,
            ),
        )
    } else if !gate {
        Some(ErrorModel::MissingTensor(coordinate_text(layer, Projection::Gate)))
    } else if !up {
        Some(ErrorModel::MissingTensor(coordinate_text(layer, Projection::Up)))
    } else if !down {
        Some(ErrorModel::MissingTensor(coordinate_text(layer, Projection::Down)))
    } else {
        None
    }
}

/// What the first layer that lacks anything lacks, from the layer `from` up to
/// the highest.
pub open spec fn first_gap(found: Seq<TensorModel>, from: nat) -> Option<ErrorModel>
    decreases last_layer(found) + 1 - from,
{
    if from > last_layer(found) {
        None
    } else {
        match layer_gap(found, from) {
            Some(error) => Some(error),
            None => first_gap(found, from + 1),
        }
    }
}

/// The tensors of the layers below `layers`, by layer and then by projection.
pub open spec fn in_order(found: Seq<TensorModel>, layers: nat) -> Seq<TensorModel> {
    Seq::new(
        3 * layers,
        |i: int| tensor_at(found, (i / 3) as nat, Projection::at(i % 3)),
    )
}

/// A map with its texts as sequences of characters.
pub struct ArchitectureModel {
    pub tensors: Seq<TensorModel>,
    pub layer_count: nat,
    pub signature: Seq<char>,
}

impl ArchitectureModel {
    /// The map holds one tensor for each projection of each layer, in order, none
    /// of them empty, and the signature is that of its tensors.
    pub open spec fn complete(self) -> bool {
        &&& self.layer_count > 0
        &&& self.tensors.len() == 3 * self.layer_count
        &&& forall|i: int|
            0 <= i < self.tensors.len() ==> {
                &&& stands_for(
                    #[trigger] self.tensors[i],
                    (i / 3) as nat,
                    Projection::at(i % 3),
                )
                &&& 0 < self.tensors[i].rows <= usize::MAX
                &&& 0 < self.tensors[i].width <= usize::MAX
                &&& self.tensors[i].type_id == Q1_0_TYPE_ID
            }
        &&& self.signature == signature_text(self.tensors)
    }

    /// The tensor of a projection in a layer that the map has.
    pub open spec fn tensor(self, layer: nat, projection: Projection) -> TensorModel {
        self.tensors[(3 * layer + projection.place()) as int]
    }
}

/// The map of a model that lists the tensors `descriptors`, or what it lacks.
pub open spec fn discovered(descriptors: Seq<DescriptorModel>) -> Result<
    ArchitectureModel,
    ErrorModel,
> {
    match listed(descriptors) {
        Err(error) => Err(error),
        Ok(found) => if found.len() == 0 {
            Err(
                ErrorModel::UnsupportedArchitecture(
                    "no blk.<layer>.ffn_{gate,up,down}.weight Q1_0 tensors were found"@,
                ),
            )
        } else {
            match first_gap(found, 0) {
                Some(error) => Err(error),
                None => {
                    let layer_count = last_layer(found) + 1;
                    let tensors = in_order(found, layer_count);
                    Ok(
                        ArchitectureModel {
                            tensors,
                            layer_count,
                            signature: signature_text(tensors),
                        },
                    )
                },
            }
        },
    }
}

/// The tensors of a model, by layer and projection.
#[derive(Debug, PartialEq, Eq)]
pub struct ArchitectureMap {
    tensors: Vec<TensorInfo>,
    layer_count: usize,
    signature: String,
}

impl View for ArchitectureMap {
    type V = ArchitectureModel;

    closed spec fn view(&self) -> ArchitectureModel {
        ArchitectureModel {
            tensors: tensor_models(self.tensors@),
            layer_count: self.layer_count as nat,
            signature: self.signature@,
        }
    }
}

impl Clone for ArchitectureMap {
    fn clone(&self) -> (r: ArchitectureMap)
        ensures
            r@ == self@,
    {
        proof {
            use_type_invariant(self);
        }
        let mut tensors: Vec<TensorInfo> = Vec::new();
        let mut next: usize = 0;
        while next < self.tensors.len()
            invariant
                next <= self.tensors@.len(),
                tensors@ == self.tensors@.take(next as int),
            decreases self.tensors@.len() - next,
        {
            tensors.push(self.tensors[next].clone());
            next = next + 1;
            assert(tensors@ =~= self.tensors@.take(next as int));
        }
        assert(tensors@ =~= self.tensors@);
        ArchitectureMap {
            tensors,
            layer_count: self.layer_count,
            signature: self.signature.clone(),
        }
    }
}

/// No coordinate occurs twice, and every tensor can be used.
spec fn usable(found: Seq<TensorModel>) -> bool {
    &&& forall|i: int, j: int|
        0 <= i < j < found.len() ==> !stands_for(
            #[trigger] found[i],
            #[trigger] found[j].layer,
            found[j].projection,
        )
    &&& forall|i: int|
        0 <= i < found.len() ==> {
            &&& 0 < (#[trigger] found[i]).rows <= usize::MAX
            &&& 0 < found[i].width <= usize::MAX
            &&& found[i].layer <= usize::MAX
            &&& found[i].type_id == Q1_0_TYPE_ID
        }
}

/// The index of the tensor with the coordinate.
fn find_tensor(found: &[TensorInfo], layer: usize, projection: Projection) -> (r: Option<usize>)
    ensures
        r is Some <==> holds(tensor_models(found@), layer as nat, projection),
        r matches Some(i) ==> i < found@.len() && stands_for(
            tensor_models(found@)[i as int],
            layer as nat,
            projection,
        ),
        usable(tensor_models(found@)) ==> (r matches Some(i) ==> found@[i as int]@ == tensor_at(
            tensor_models(found@),
            layer as nat,
            projection,
        )),
{
    let ghost models = tensor_models(found@);
    let mut next: usize = 0;
    while next < found.len()
        invariant
            next <= found@.len(),
            models == tensor_models(found@),
            forall|i: int|
                0 <= i < next ==> !stands_for(#[trigger] models[i], layer as nat, projection),
        decreases found@.len() - next,
    {
        if found[next].layer == layer && found[next].projection == projection {
            assert(stands_for(models[next as int], layer as nat, projection));
            return Some(next);
        }
        assert(!stands_for(models[next as int], layer as nat, projection));
        next = next + 1;
    }
    None
}

/// Why a tensor that the map would hold cannot be used, where it cannot.
fn fault_of(descriptor: &TensorDescriptor) -> (r: Option<String>)
    ensures
        match descriptor@.fault() {
            Some(reason) => r matches Some(text) && text@ == reason,
            None => r is None,
        },
{
    if descriptor.type_id != Q1_0_TYPE_ID {
        let mut reason: String = "expected Q1_0 type id 41, got ".to_owned();
        crate::text::push_signed(&mut reason, descriptor.type_id);
        reason.append(" (");
        reason.append(descriptor.type_label.as_str());
        reason.append(")");
        return Some(reason);
    }
    match descriptor.row_count() {
        None => Some("unsupported model tensor shape".to_owned()),
        Some(rows) => {
            if descriptor.dimensions[0] > usize::MAX as u64 {
                Some("tensor width does not fit usize".to_owned())
            } else if descriptor.dimensions[0] == 0 || rows == 0 {
                Some("tensor dimensions must be non-zero".to_owned())
            } else {
                None
            }
        },
    }
}

/// The tensors that belong into the map, as the model lists them.
fn list_tensors(descriptors: &[TensorDescriptor]) -> (r: Result<Vec<TensorInfo>, Error>)
    ensures
        match listed(descriptor_models(descriptors@)) {
            Ok(found) => r matches Ok(tensors) && tensor_models(tensors@) == found && usable(found),
            Err(error) => r matches Err(e) && e@ == error,
        },
{
    let ghost models = descriptor_models(descriptors@);
    let mut found: Vec<TensorInfo> = Vec::new();
    let mut next: usize = 0;
    assert(models.take(0) =~= Seq::<DescriptorModel>::empty());
    assert(tensor_models(found@) =~= Seq::<TensorModel>::empty());
    while next < descriptors.len()
        invariant
            next <= descriptors@.len(),
            models == descriptor_models(descriptors@),
            listed(models.take(next as int)) == Ok::<Seq<TensorModel>, ErrorModel>(
                tensor_models(found@),
            ),
            usable(tensor_models(found@)),
        decreases descriptors@.len() - next,
    {
        let descriptor: &TensorDescriptor = &descriptors[next];
        let ghost shown = models.take(next + 1);
        proof {
            assert(shown.drop_last() =~= models.take(next as int));
            assert(shown.last() == descriptor@);
        }
        if let Some((layer, projection)) = parse_qwen_tensor_name(descriptor.name.as_str()) {
            let coordinate: String = coordinate_of(layer, projection);
            if let Some(reason) = fault_of(descriptor) {
                proof {
                    lemma_list_error_stays(models, next + 1);
                }
                return Err(Error::UnsupportedTensor { coordinate, reason });
            }
            if find_tensor(found.as_slice(), layer, projection).is_some() {
                proof {
                    lemma_list_error_stays(models, next + 1);
                }
                return Err(Error::DuplicateTensor(coordinate));
            }
            let info = TensorInfo {
                layer,
                projection,
                name: descriptor.name.clone(),
                type_id: descriptor.type_id,
                type_label: descriptor.type_label.clone(),
                width: descriptor.dimensions[0] as usize,
                rows: descriptor.dimensions[1] as usize,
                strides: descriptor.strides,
                nbytes: descriptor.nbytes,
                backend: descriptor.backend.clone(),
            };
            let ghost before = tensor_models(found@);
            found.push(info);
            proof {
                let after = tensor_models(found@);
                assert(after =~= before.push(info@));
                assert(info@ == descriptor@.tensor(layer as nat, projection));
                assert forall|i: int, j: int| 0 <= i < j < after.len() implies !stands_for(
                    #[trigger] after[i],
                    #[trigger] after[j].layer,
                    after[j].projection,
                ) by {
                    assert(after[i] == before[i]);
                    if j < before.len() {
                        assert(after[j] == before[j]);
                    }
                }
            }
        }
        next = next + 1;
    }
    assert(models.take(next as int) =~= models);
    Ok(found)
}

/// An error ends the list.
proof fn lemma_list_error_stays(descriptors: Seq<DescriptorModel>, shown: int)
    requires
        0 <= shown <= descriptors.len(),
        listed(descriptors.take(shown)) is Err,
    ensures
        listed(descriptors) == listed(descriptors.take(shown)),
    decreases descriptors.len(),
{
    if shown < descriptors.len() {
        assert(descriptors.drop_last().take(shown) =~= descriptors.take(shown));
        lemma_list_error_stays(descriptors.drop_last(), shown);
    } else {
        assert(descriptors.take(shown) =~= descriptors);
    }
}

/// The highest layer of the tensors.
fn find_last_layer(found: &[TensorInfo]) -> (r: usize)
    requires
        found@.len() > 0,
    ensures
        r == last_layer(tensor_models(found@)),
{
    let ghost models = tensor_models(found@);
    let mut last: usize = found[0].layer;
    let mut next: usize = 1;
    while next < found.len()
        invariant
            1 <= next <= found@.len(),
            models == tensor_models(found@),
            last == last_layer(models.take(next as int)),
        decreases found@.len() - next,
    {
        proof {
            assert(models.take(next + 1).drop_last() =~= models.take(next as int));
            assert(models.take(next + 1).last() == found@[next as int]@);
        }
        if found[next].layer > last {
            last = found[next].layer;
        }
        next = next + 1;
    }
    assert(models.take(next as int) =~= models);
    last
}

/// What a layer lacks, where it lacks anything.
fn find_layer_gap(found: &[TensorInfo], layer: usize) -> (r: Option<Error>)
    ensures
        match layer_gap(tensor_models(found@), layer as nat) {
            Some(error) => r matches Some(e) && e@ == error,
            None => r is None,
        },
{
    let gate: bool = find_tensor(found, layer, Projection::Gate).is_some();
    let up: bool = find_tensor(found, layer, Projection::Up).is_some();
    let down: bool = find_tensor(found, layer, Projection::Down).is_some();
    if !gate && !up && !down {
        let mut text: String = "transformer layer ".to_owned();
        crate::text::push_decimal(&mut text, layer as u64);
        text.append(" is missing from the MLP tensor map");
        Some(Error::UnsupportedArchitecture(text))
    } else if !gate {
        Some(Error::MissingTensor(coordinate_of(layer, Projection::Gate)))
    } else if !up {
        Some(Error::MissingTensor(coordinate_of(layer, Projection::Up)))
    } else if !down {
        Some(Error::MissingTensor(coordinate_of(layer, Projection::Down)))
    } else {
        None
    }
}

/// The tensors of the layers from the first to the highest, in order, or what
/// the first incomplete layer lacks.
fn order_tensors(found: &[TensorInfo]) -> (r: Result<Vec<TensorInfo>, Error>)
    requires
        found@.len() > 0,
        usable(tensor_models(found@)),
    ensures
        match first_gap(tensor_models(found@), 0) {
            Some(error) => r matches Err(e) && e@ == error,
            None => r matches Ok(tensors) && tensor_models(tensors@) == in_order(
                tensor_models(found@),
                last_layer(tensor_models(found@)) + 1,
            ) && tensors@.len() == 3 * (last_layer(tensor_models(found@)) + 1),
        },
{
    let ghost models = tensor_models(found@);
    let last: usize = find_last_layer(found);
    let mut tensors: Vec<TensorInfo> = Vec::new();
    let mut layer: usize = 0;
    assert(tensor_models(tensors@) =~= in_order(models, 0));
    while layer <= last
        invariant
            layer <= last + 1,
            models == tensor_models(found@),
            usable(models),
            last == last_layer(models),
            first_gap(models, 0) == first_gap(models, layer as nat),
            tensors@.len() == 3 * layer,
            tensor_models(tensors@) == in_order(models, layer as nat),
        decreases last + 1 - layer,
    {
        if let Some(error) = find_layer_gap(found, layer) {
            return Err(error);
        }
        let ghost before = tensors@;
        let projections: [Projection; 3] = Projection::all();
        let mut next: usize = 0;
        while next < 3
            invariant
                next <= 3,
                models == tensor_models(found@),
                usable(models),
                layer_gap(models, layer as nat) is None,
                projections@ == seq![Projection::Gate, Projection::Up, Projection::Down],
                before.len() == 3 * layer,
                tensors@.len() == before.len() + next,
                forall|i: int| 0 <= i < before.len() ==> #[trigger] tensors@[i] == before[i],
                forall|i: int|
                    before.len() <= i < tensors@.len() ==> (#[trigger] tensors@[i])@ == tensor_at(
                        models,
                        layer as nat,
                        Projection::at(i - before.len()),
                    ),
            decreases 3 - next,
        {
            match find_tensor(found, layer, projections[next]) {
                Some(i) => {
                    tensors.push(found[i].clone());
                },
                None => {
                    assert(false);
                },
            }
            next = next + 1;
        }
        proof {
            let after = tensor_models(tensors@);
            assert forall|i: int| 0 <= i < after.len() implies after[i] == in_order(
                models,
                (layer + 1) as nat,
            )[i] by {
                if i < before.len() {
                    assert(tensor_models(before)[i] == in_order(models, layer as nat)[i]);
                } else {
                    assert(i / 3 == layer && i % 3 == i - before.len());
                }
            }
            assert(after =~= in_order(models, (layer + 1) as nat));
        }
        assert(tensors.len() == 3 * layer + 3);
        layer = layer + 1;
    }
    Ok(tensors)
}

impl ArchitectureMap {
    #[verifier::type_invariant]
    closed spec fn type_inv(self) -> bool {
        self@.complete()
    }

    /// Maps the tensors of a model.
    pub fn discover(descriptors: &[TensorDescriptor]) -> (r: Result<ArchitectureMap, Error>)
        ensures
            match discovered(descriptor_models(descriptors@)) {
                Ok(model) => r matches Ok(map) && map@ == model && model.complete(),
                Err(error) => r matches Err(e) && e@ == error,
            },
    {
        let found: Vec<TensorInfo> = match list_tensors(descriptors) {
            Ok(found) => found,
            Err(error) => {
                return Err(error);
            },
        };
        if found.len() == 0 {
            return Err(
                Error::UnsupportedArchitecture(
                    "no blk.<layer>.ffn_{gate,up,down}.weight Q1_0 tensors were found".to_owned(),
                ),
            );
        }
        match order_tensors(found.as_slice()) {
            Err(error) => Err(error),
            Ok(tensors) => {
                let layer_count: usize = tensors.len() / 3;
                let signature: String = architecture_signature(tensors.as_slice());
                proof {
                    lemma_in_order_complete(tensor_models(found@));
                }
                Ok(ArchitectureMap { tensors, layer_count, signature })
            },
        }
    }

    pub fn layer_count(&self) -> (r: usize)
        ensures
            r == self@.layer_count,
            self@.complete(),
    {
        proof {
            use_type_invariant(self);
        }
        self.layer_count
    }

    pub fn signature(&self) -> (r: &str)
        ensures
            r@ == self@.signature,
            self@.complete(),
    {
        proof {
            use_type_invariant(self);
        }
        self.signature.as_str()
    }

    /// The tensor of a projection in a layer. The map has one exactly where it has
    /// the layer.
    pub fn tensor(&self, layer: usize, projection: Projection) -> (r: Result<&TensorInfo, Error>)
        ensures
            self@.complete(),
            if layer < self@.layer_count {
                &&& r matches Ok(tensor)
                &&& tensor@ == self@.tensor(layer as nat, projection)
                &&& stands_for(tensor@, layer as nat, projection)
            } else {
                &&& r matches Err(e)
                &&& e@ == ErrorModel::MissingTensor(coordinate_text(layer as nat, projection))
            },
    {
        proof {
            use_type_invariant(self);
        }
        if layer < self.layer_count {
            let place: usize = match projection {
                Projection::Gate => 0,
                Projection::Up => 1,
                Projection::Down => 2,
            };
            assert(self.tensors@.len() == self@.tensors.len());
            assert(3 * layer + place < self.tensors@.len());
            assert((3 * layer + place) / 3 == layer && (3 * layer + place) % 3 == place);
            assert(stands_for(
                self@.tensors[3 * layer + place],
                ((3 * layer + place) / 3) as nat,
                Projection::at((3 * layer + place) % 3),
            ));
            assert(self.tensors.len() == self.tensors@.len());
            Ok(&self.tensors[3 * layer + place])
        } else {
            Err(Error::MissingTensor(coordinate_of(layer, projection)))
        }
    }

    /// All tensors, by layer and then by projection.
    pub fn tensors(&self) -> (r: &[TensorInfo])
        ensures
            tensor_models(r@) == self@.tensors,
            self@.complete(),
    {
        proof {
            use_type_invariant(self);
        }
        self.tensors.as_slice()
    }

    pub fn layers(&self) -> (r: std::ops::Range<usize>)
        ensures
            r.start == 0,
            r.end == self@.layer_count,
    {
        0..self.layer_count
    }
}

proof fn lemma_no_gap(found: Seq<TensorModel>, from: nat, layer: nat)
    requires
        first_gap(found, from) is None,
        from <= layer <= last_layer(found),
    ensures
        layer_gap(found, layer) is None,
    decreases layer - from,
{
    if from < layer {
        lemma_no_gap(found, from + 1, layer);
    }
}

/// The ordered tensors of layers without a gap make a complete map.
proof fn lemma_in_order_complete(found: Seq<TensorModel>)
    requires
        usable(found),
        first_gap(found, 0) is None,
    ensures
        ({
            let layer_count = last_layer(found) + 1;
            let tensors = in_order(found, layer_count);
            ArchitectureModel {
                tensors,
                layer_count,
                signature: signature_text(tensors),
            }.complete()
        }),
{
    let layer_count = last_layer(found) + 1;
    let tensors = in_order(found, layer_count);
    assert forall|i: int| 0 <= i < tensors.len() implies {
        &&& stands_for(#[trigger] tensors[i], (i / 3) as nat, Projection::at(i % 3))
        &&& 0 < tensors[i].rows <= usize::MAX
        &&& 0 < tensors[i].width <= usize::MAX
        &&& tensors[i].type_id == Q1_0_TYPE_ID
    } by {
        let layer = (i / 3) as nat;
        let projection = Projection::at(i % 3);
        lemma_no_gap(found, 0, layer);
        assert(holds(found, layer, projection));
        let k = choose|k: int|
            0 <= k < found.len() && stands_for(#[trigger] found[k], layer, projection);
        assert(tensors[i] == found[k]);
    }
}

/// The descriptor belongs into the map, at the coordinate.
spec fn belongs(descriptor: DescriptorModel, layer: nat, projection: Projection) -> bool {
    tensor_place(descriptor.name) == Some((layer, projection))
}

/// No tensor that belongs into the map is at fault, and no two of them have the
/// same coordinate.
spec fn clean(descriptors: Seq<DescriptorModel>) -> bool {
    &&& forall|i: int|
        0 <= i < descriptors.len() && tensor_place((#[trigger] descriptors[i]).name) is Some
            ==> descriptors[i].fault() is None
    &&& forall|i: int, j: int|
        0 <= i < j < descriptors.len() && tensor_place((#[trigger] descriptors[i]).name) is Some
            ==> tensor_place(descriptors[i].name) != tensor_place(
            (#[trigger] descriptors[j]).name,
        )
}

/// The tensor is that of one of the descriptors.
spec fn comes_from(tensor: TensorModel, descriptors: Seq<DescriptorModel>) -> bool {
    exists|i: int|
        0 <= i < descriptors.len() && belongs(
            #[trigger] descriptors[i],
            tensor.layer,
            tensor.projection,
        ) && tensor == descriptors[i].tensor(tensor.layer, tensor.projection)
}

proof fn lemma_listed(descriptors: Seq<DescriptorModel>)
    ensures
        listed(descriptors) is Ok <==> clean(descriptors),
        listed(descriptors) matches Ok(found) ==> usable(found) && forall|tensor: TensorModel|
            #[trigger] found.contains(tensor) <==> comes_from(tensor, descriptors),
    decreases descriptors.len(),
{
    if descriptors.len() > 0 {
        let less = descriptors.drop_last();
        let last = descriptors.last();
        lemma_listed(less);
        assert(forall|i: int| 0 <= i < less.len() ==> #[trigger] descriptors[i] == less[i]);
        if clean(descriptors) {
            assert forall|i: int, j: int|
                0 <= i < j < less.len() && tensor_place((#[trigger] less[i]).name)
                    is Some implies tensor_place(less[i].name) != tensor_place(
                (#[trigger] less[j]).name,
            ) by {
                assert(descriptors[i] == less[i] && descriptors[j] == less[j]);
            }
            assert forall|i: int|
                0 <= i < less.len() && tensor_place((#[trigger] less[i]).name)
                    is Some implies less[i].fault() is None by {
                assert(descriptors[i] == less[i]);
            }
            assert(clean(less));
        }
        if let Ok(found) = listed(less) {
            match tensor_place(last.name) {
                None => {
                    lemma_unlisted(descriptors, found);
                },
                Some((layer, projection)) => {
                    lemma_listed_one_more(descriptors, found, layer, projection);
                },
            }
        }
    } else {
        assert forall|tensor: TensorModel| !comes_from(tensor, descriptors) by {}
    }
}

proof fn lemma_unlisted(descriptors: Seq<DescriptorModel>, found: Seq<TensorModel>)
    requires
        descriptors.len() > 0,
        tensor_place(descriptors.last().name) is None,
        clean(descriptors.drop_last()),
        forall|tensor: TensorModel| #[trigger]
            found.contains(tensor) <==> comes_from(tensor, descriptors.drop_last()),
    ensures
        clean(descriptors),
        forall|tensor: TensorModel| #[trigger]
            found.contains(tensor) <==> comes_from(tensor, descriptors),
{
    let less = descriptors.drop_last();
    assert(forall|i: int| 0 <= i < less.len() ==> #[trigger] descriptors[i] == less[i]);
    assert forall|tensor: TensorModel| comes_from(tensor, less) == comes_from(
        tensor,
        descriptors,
    ) by {
        if comes_from(tensor, less) {
            let i = choose|i: int|
                0 <= i < less.len() && belongs(#[trigger] less[i], tensor.layer, tensor.projection)
                    && tensor == less[i].tensor(tensor.layer, tensor.projection);
            assert(descriptors[i] == less[i]);
        }
        if comes_from(tensor, descriptors) {
            let i = choose|i: int|
                0 <= i < descriptors.len() && belongs(
                    #[trigger] descriptors[i],
                    tensor.layer,
                    tensor.projection,
                ) && tensor == descriptors[i].tensor(tensor.layer, tensor.projection);
            assert(descriptors[i] == less[i]);
        }
    }
}

proof fn lemma_listed_one_more(
    descriptors: Seq<DescriptorModel>,
    found: Seq<TensorModel>,
    layer: nat,
    projection: Projection,
)
    requires
        descriptors.len() > 0,
        belongs(descriptors.last(), layer, projection),
        clean(descriptors.drop_last()),
        usable(found),
        forall|tensor: TensorModel| #[trigger]
            found.contains(tensor) <==> comes_from(tensor, descriptors.drop_last()),
    ensures
        descriptors.last().fault() is Some || holds(found, layer, projection) ==> !clean(
            descriptors,
        ),
        descriptors.last().fault() is None && !holds(found, layer, projection) ==> {
            let more = found.push(descriptors.last().tensor(layer, projection));
            &&& clean(descriptors)
            &&& usable(more)
            &&& forall|tensor: TensorModel| #[trigger]
                more.contains(tensor) <==> comes_from(tensor, descriptors)
        },
{
    let less = descriptors.drop_last();
    let last = descriptors.last();
    let end = descriptors.len() - 1;
    assert(forall|i: int| 0 <= i < less.len() ==> #[trigger] descriptors[i] == less[i]);
    assert(descriptors[end] == last);
    if holds(found, layer, projection) {
        let k = choose|k: int|
            0 <= k < found.len() && stands_for(#[trigger] found[k], layer, projection);
        assert(found.contains(found[k]));
        let i = choose|i: int|
            0 <= i < less.len() && belongs(
                #[trigger] less[i],
                found[k].layer,
                found[k].projection,
            ) && found[k] == less[i].tensor(found[k].layer, found[k].projection);
        assert(descriptors[i] == less[i]);
        assert(tensor_place(descriptors[i].name) == tensor_place(descriptors[end].name));
        assert(!clean(descriptors));
    } else if last.fault() is None {
        let tensor = last.tensor(layer, projection);
        let more = found.push(tensor);
        assert forall|i: int, j: int|
            0 <= i < j < descriptors.len() && tensor_place((#[trigger] descriptors[i]).name)
                is Some implies tensor_place(descriptors[i].name) != tensor_place(
            (#[trigger] descriptors[j]).name,
        ) by {
            assert(descriptors[i] == less[i]);
            if j < end {
                assert(descriptors[j] == less[j]);
            } else if tensor_place(descriptors[i].name) == Some((layer, projection)) {
                let other = less[i].tensor(layer, projection);
                assert(belongs(less[i], other.layer, other.projection));
                assert(comes_from(other, less));
                assert(found.contains(other));
                let k = choose|k: int| 0 <= k < found.len() && found[k] == other;
                assert(stands_for(found[k], layer, projection));
            }
        }
        assert(clean(descriptors));
        assert forall|i: int, j: int| 0 <= i < j < more.len() implies !stands_for(
            #[trigger] more[i],
            #[trigger] more[j].layer,
            more[j].projection,
        ) by {
            assert(more[i] == found[i]);
            if j < found.len() {
                assert(more[j] == found[j]);
            } else {
                assert(!stands_for(found[i], layer, projection));
            }
        }
        assert forall|i: int| 0 <= i < more.len() implies {
            &&& 0 < (#[trigger] more[i]).rows <= usize::MAX
            &&& 0 < more[i].width <= usize::MAX
            &&& more[i].layer <= usize::MAX
            &&& more[i].type_id == Q1_0_TYPE_ID
        } by {
            if i < found.len() {
                assert(more[i] == found[i]);
            }
        }
        assert forall|t: TensorModel| #[trigger] more.contains(t) <==> comes_from(
            t,
            descriptors,
        ) by {
            if more.contains(t) {
                let k = choose|k: int| 0 <= k < more.len() && more[k] == t;
                if k < found.len() {
                    assert(found[k] == t);
                    assert(found.contains(t));
                    let i = choose|i: int|
                        0 <= i < less.len() && belongs(#[trigger] less[i], t.layer, t.projection)
                            && t == less[i].tensor(t.layer, t.projection);
                    assert(descriptors[i] == less[i]);
                    assert(comes_from(t, descriptors));
                } else {
                    assert(belongs(descriptors[end], t.layer, t.projection));
                    assert(comes_from(t, descriptors));
                }
            }
            if comes_from(t, descriptors) {
                let i = choose|i: int|
                    0 <= i < descriptors.len() && belongs(
                        #[trigger] descriptors[i],
                        t.layer,
                        t.projection,
                    ) && t == descriptors[i].tensor(t.layer, t.projection);
                if i < less.len() {
                    assert(descriptors[i] == less[i]);
                    assert(comes_from(t, less));
                    assert(found.contains(t));
                    let k = choose|k: int| 0 <= k < found.len() && found[k] == t;
                    assert(more[k] == t);
                } else {
                    assert(t == tensor);
                    assert(more[more.len() - 1] == t);
                }
            }
        }
    }
}

/// Whatever occurs in one listing occurs in another with the same contents.
proof fn lemma_occurs<A>(a: Seq<A>, b: Seq<A>, i: int) -> (r: int)
    requires
        a.to_multiset() == b.to_multiset(),
        0 <= i < b.len(),
    ensures
        0 <= r < a.len(),
        a[r] == b[i],
{
    a.to_multiset_ensures();
    b.to_multiset_ensures();
    assert(b.contains(b[i]));
    assert(b.to_multiset().count(b[i]) > 0);
    assert(a.contains(b[i]));
    choose|k: int| 0 <= k < a.len() && a[k] == b[i]
}

/// Whatever occurs twice in one listing occurs twice in another with the same
/// contents.
proof fn lemma_repeats<A>(a: Seq<A>, b: Seq<A>, i: int, j: int) -> (r: (int, int))
    requires
        a.to_multiset() == b.to_multiset(),
        0 <= i < j < b.len(),
    ensures
        0 <= r.0 < a.len(),
        0 <= r.1 < a.len(),
        r.0 != r.1,
        a[r.0] == b[i],
        a[r.1] == b[j],
{
    a.to_multiset_ensures();
    b.to_multiset_ensures();
    let k = lemma_occurs(a, b, i);
    let rest = a.remove(k);
    let other = b.remove(i);
    assert(rest.to_multiset() =~= other.to_multiset());
    assert(other[j - 1] == b[j]);
    let l = lemma_occurs(rest, other, j - 1);
    if l < k {
        (k, l)
    } else {
        (k, l + 1)
    }
}

proof fn lemma_last_layer(found: Seq<TensorModel>)
    requires
        found.len() > 0,
    ensures
        exists|i: int| 0 <= i < found.len() && (#[trigger] found[i]).layer == last_layer(found),
        forall|i: int| 0 <= i < found.len() ==> (#[trigger] found[i]).layer <= last_layer(found),
    decreases found.len(),
{
    if found.len() > 1 {
        let less = found.drop_last();
        lemma_last_layer(less);
        let k = choose|k: int|
            0 <= k < less.len() && (#[trigger] less[k]).layer == last_layer(less);
        assert(found[k] == less[k]);
        assert(found[found.len() - 1] == found.last());
        assert forall|i: int| 0 <= i < found.len() implies (#[trigger] found[i]).layer
            <= last_layer(found) by {
            if i < less.len() {
                assert(found[i] == less[i]);
            }
        }
    } else {
        assert(found[0].layer == last_layer(found));
    }
}

proof fn lemma_first_gap_agrees(a: Seq<TensorModel>, b: Seq<TensorModel>, from: nat)
    requires
        last_layer(a) == last_layer(b),
        forall|layer: nat, projection: Projection|
            holds(a, layer, projection) == holds(b, layer, projection),
    ensures
        first_gap(a, from) == first_gap(b, from),
    decreases last_layer(a) + 1 - from,
{
    if from <= last_layer(a) {
        lemma_first_gap_agrees(a, b, from + 1);
    }
}

/// Tensors with the same contents make the same map.
proof fn lemma_same_map(a: Seq<TensorModel>, b: Seq<TensorModel>)
    requires
        usable(a),
        usable(b),
        a.len() > 0,
        forall|tensor: TensorModel| #[trigger] a.contains(tensor) <==> b.contains(tensor),
    ensures
        b.len() > 0,
        last_layer(a) == last_layer(b),
        first_gap(a, 0) == first_gap(b, 0),
        first_gap(a, 0) is None ==> in_order(a, last_layer(a) + 1) == in_order(
            b,
            last_layer(b) + 1,
        ),
{
    assert(a.contains(a[0]));
    lemma_last_layer(a);
    lemma_last_layer(b);
    let i = choose|i: int| 0 <= i < a.len() && (#[trigger] a[i]).layer == last_layer(a);
    let j = choose|j: int| 0 <= j < b.len() && (#[trigger] b[j]).layer == last_layer(b);
    assert(a.contains(a[i]) && b.contains(b[j]));
    assert(b.contains(a[i]) && a.contains(b[j]));
    assert forall|layer: nat, projection: Projection| holds(a, layer, projection) == holds(
        b,
        layer,
        projection,
    ) by {
        if holds(a, layer, projection) {
            let k = choose|k: int|
                0 <= k < a.len() && stands_for(#[trigger] a[k], layer, projection);
            assert(a.contains(a[k]));
            let l = choose|l: int| 0 <= l < b.len() && b[l] == a[k];
            assert(stands_for(b[l], layer, projection));
        }
        if holds(b, layer, projection) {
            let k = choose|k: int|
                0 <= k < b.len() && stands_for(#[trigger] b[k], layer, projection);
            assert(b.contains(b[k]));
            assert(a.contains(b[k]));
            let l = choose|l: int| 0 <= l < a.len() && a[l] == b[k];
            assert(stands_for(a[l], layer, projection));
        }
    }
    lemma_first_gap_agrees(a, b, 0);
    if first_gap(a, 0) is None {
        let layers = last_layer(a) + 1;
        assert forall|n: int| 0 <= n < 3 * layers implies in_order(a, layers)[n] == in_order(
            b,
            layers,
        )[n] by {
            let layer = (n / 3) as nat;
            let projection = Projection::at(n % 3);
            lemma_no_gap(a, 0, layer);
            assert(holds(a, layer, projection));
            assert(holds(b, layer, projection));
            let k = choose|k: int|
                0 <= k < a.len() && stands_for(#[trigger] a[k], layer, projection);
            let m = choose|m: int|
                0 <= m < b.len() && stands_for(#[trigger] b[m], layer, projection);
            assert(a.contains(a[k]));
            let l = choose|l: int| 0 <= l < b.len() && b[l] == a[k];
            assert(stands_for(b[l], layer, projection));
            if l < m {
                assert(!stands_for(b[l], b[m].layer, b[m].projection));
            } else if m < l {
                assert(!stands_for(b[m], b[l].layer, b[l].projection));
            }
        }
        assert(in_order(a, layers) =~= in_order(b, layers));
    }
}

proof fn lemma_clean_ignores_order(a: Seq<DescriptorModel>, b: Seq<DescriptorModel>)
    requires
        a.to_multiset() == b.to_multiset(),
        clean(a),
    ensures
        clean(b),
{
    assert forall|i: int|
        0 <= i < b.len() && tensor_place((#[trigger] b[i]).name)
            is Some implies b[i].fault() is None by {
        let k = lemma_occurs(a, b, i);
        assert(tensor_place(a[k].name) is Some);
    }
    assert forall|i: int, j: int|
        0 <= i < j < b.len() && tensor_place((#[trigger] b[i]).name)
            is Some implies tensor_place(b[i].name) != tensor_place((#[trigger] b[j]).name) by {
        let (k, l) = lemma_repeats(a, b, i, j);
        if k < l {
            assert(tensor_place(a[k].name) != tensor_place(a[l].name));
        } else if tensor_place(a[l].name) is Some {
            assert(tensor_place(a[l].name) != tensor_place(a[k].name));
        }
    }
}

proof fn lemma_comes_from_ignores_order(
    tensor: TensorModel,
    a: Seq<DescriptorModel>,
    b: Seq<DescriptorModel>,
)
    requires
        a.to_multiset() == b.to_multiset(),
        comes_from(tensor, b),
    ensures
        comes_from(tensor, a),
{
    let i = choose|i: int|
        0 <= i < b.len() && belongs(#[trigger] b[i], tensor.layer, tensor.projection) && tensor
            == b[i].tensor(tensor.layer, tensor.projection);
    let k = lemma_occurs(a, b, i);
    assert(belongs(a[k], tensor.layer, tensor.projection));
}

/// The order in which a model lists its tensors does not matter: a model that
/// lists the same tensors in another order has the same map, signature included.
pub proof fn law_discovery_ignores_order(a: Seq<DescriptorModel>, b: Seq<DescriptorModel>)
    requires
        a.to_multiset() == b.to_multiset(),
        discovered(a) is Ok,
    ensures
        discovered(b) == discovered(a),
{
    lemma_listed(a);
    lemma_listed(b);
    lemma_clean_ignores_order(a, b);
    let found_a = listed(a)->Ok_0;
    let found_b = listed(b)->Ok_0;
    assert forall|t: TensorModel| #[trigger] found_a.contains(t) <==> found_b.contains(t) by {
        if found_a.contains(t) {
            lemma_comes_from_ignores_order(t, b, a);
        }
        if found_b.contains(t) {
            lemma_comes_from_ignores_order(t, a, b);
        }
    }
    lemma_same_map(found_a, found_b);
}

/// One of the descriptors is that of the projection in the layer.
pub open spec fn lists(
    descriptors: Seq<DescriptorModel>,
    layer: nat,
    projection: Projection,
) -> bool {
    exists|i: int|
        0 <= i < descriptors.len() && tensor_place((#[trigger] descriptors[i]).name) == Some(
            (layer, projection),
        )
}

/// The descriptor is that of a matrix of the type that can be flipped, and neither its
/// width nor its number of rows is zero or too large to count.
pub open spec fn flippable(descriptor: DescriptorModel) -> bool {
    &&& descriptor.type_id == 41
    &&& descriptor.n_dims == 2
    &&& 0 < descriptor.dimensions[0] <= usize::MAX
    &&& 0 < descriptor.dimensions[1] <= usize::MAX
    &&& descriptor.dimensions[2] == 1
    &&& descriptor.dimensions[3] == 1
}

/// Every tensor that belongs into the map can be flipped, and no two belong to the same
/// projection of the same layer.
pub open spec fn flippable_once(descriptors: Seq<DescriptorModel>) -> bool {
    &&& forall|i: int|
        0 <= i < descriptors.len() && tensor_place((#[trigger] descriptors[i]).name) is Some
            ==> flippable(descriptors[i])
    &&& forall|i: int, j: int|
        0 <= i < j < descriptors.len() && tensor_place((#[trigger] descriptors[i]).name) is Some
            ==> tensor_place(descriptors[i].name) != tensor_place(
            (#[trigger] descriptors[j]).name,
        )
}

proof fn lemma_clean(descriptors: Seq<DescriptorModel>)
    ensures
        clean(descriptors) <==> flippable_once(descriptors),
{
    assert forall|i: int| 0 <= i < descriptors.len() implies (#[trigger] descriptors[i].fault()
        is None) == flippable(descriptors[i]) by {}
    if clean(descriptors) {
        assert forall|i: int|
            0 <= i < descriptors.len() && tensor_place((#[trigger] descriptors[i]).name)
                is Some implies flippable(descriptors[i]) by {
            assert(descriptors[i].fault() is None);
        }
    }
    if flippable_once(descriptors) {
        assert forall|i: int|
            0 <= i < descriptors.len() && tensor_place((#[trigger] descriptors[i]).name)
                is Some implies descriptors[i].fault() is None by {
            assert(flippable(descriptors[i]));
        }
    }
}

/// Each tensor that was found is listed, and each that is listed was found.
proof fn lemma_found(descriptors: Seq<DescriptorModel>, layer: nat, projection: Projection)
    requires
        listed(descriptors) is Ok,
    ensures
        holds(listed(descriptors)->Ok_0, layer, projection) <==> lists(
            descriptors,
            layer,
            projection,
        ),
{
    lemma_listed(descriptors);
    let found = listed(descriptors)->Ok_0;
    if holds(found, layer, projection) {
        let k = choose|k: int|
            0 <= k < found.len() && stands_for(#[trigger] found[k], layer, projection);
        assert(found.contains(found[k]));
        assert(comes_from(found[k], descriptors));
        let i = choose|i: int|
            0 <= i < descriptors.len() && belongs(
                #[trigger] descriptors[i],
                found[k].layer,
                found[k].projection,
            ) && found[k] == descriptors[i].tensor(found[k].layer, found[k].projection);
        assert(tensor_place(descriptors[i].name) == Some((layer, projection)));
    }
    if lists(descriptors, layer, projection) {
        let i = choose|i: int|
            0 <= i < descriptors.len() && tensor_place((#[trigger] descriptors[i]).name) == Some(
                (layer, projection),
            );
        let tensor = descriptors[i].tensor(layer, projection);
        assert(belongs(descriptors[i], layer, projection));
        assert(comes_from(tensor, descriptors));
        assert(found.contains(tensor));
        let k = found.index_of(tensor);
        assert(stands_for(found[k], layer, projection));
    }
}

proof fn lemma_gaps(found: Seq<TensorModel>, from: nat)
    requires
        forall|layer: nat|
            from <= layer <= last_layer(found) ==> #[trigger] layer_gap(found, layer) is None,
    ensures
        first_gap(found, from) is None,
    decreases last_layer(found) + 1 - from,
{
    if from <= last_layer(found) {
        assert(layer_gap(found, from) is None);
        lemma_gaps(found, from + 1);
    }
}

/// A model can be mapped exactly if it lists a tensor that belongs into a map, all that do
/// can be flipped, none stands for the same projection of the same layer as another, and
/// each layer up to the highest has all three projections.
pub proof fn law_models_that_can_be_mapped(descriptors: Seq<DescriptorModel>)
    ensures
        discovered(descriptors) is Ok <==> {
            &&& flippable_once(descriptors)
            &&& exists|layer: nat, projection: Projection| #[trigger]
                lists(descriptors, layer, projection)
            &&& forall|high: nat, some: Projection, layer: nat, projection: Projection|
                #![trigger lists(descriptors, high, some), lists(descriptors, layer, projection)]
                lists(descriptors, high, some) && layer <= high ==> lists(
                    descriptors,
                    layer,
                    projection,
                )
        },
{
    lemma_listed(descriptors);
    lemma_clean(descriptors);
    if let Ok(found) = listed(descriptors) {
        assert forall|layer: nat, projection: Projection| #[trigger]
            lists(descriptors, layer, projection) == holds(found, layer, projection) by {
            lemma_found(descriptors, layer, projection);
        }
        if found.len() > 0 {
            lemma_last_layer(found);
            let top = choose|i: int|
                0 <= i < found.len() && (#[trigger] found[i]).layer == last_layer(found);
            assert(stands_for(found[top], last_layer(found), found[top].projection));
            assert(holds(found, last_layer(found), found[top].projection));
            assert(lists(descriptors, last_layer(found), found[top].projection));
            if first_gap(found, 0) is None {
                assert forall|high: nat, some: Projection, layer: nat, projection: Projection|
                    #![trigger lists(descriptors, high, some), lists(descriptors, layer, projection)]
                    lists(descriptors, high, some) && layer <= high implies lists(
                    descriptors,
                    layer,
                    projection,
                ) by {
                    let k = choose|k: int|
                        0 <= k < found.len() && stands_for(#[trigger] found[k], high, some);
                    assert(found[k].layer <= last_layer(found));
                    lemma_no_gap(found, 0, layer);
                    assert(holds(found, layer, projection));
                }
            }
            if forall|high: nat, some: Projection, layer: nat, projection: Projection|
                #![trigger lists(descriptors, high, some), lists(descriptors, layer, projection)]
                lists(descriptors, high, some) && layer <= high ==> lists(
                    descriptors,
                    layer,
                    projection,
                ) {
                assert forall|layer: nat| 0 <= layer <= last_layer(found) implies #[trigger]
                    layer_gap(found, layer) is None by {
                    assert(lists(descriptors, layer, Projection::Gate));
                    assert(lists(descriptors, layer, Projection::Up));
                    assert(lists(descriptors, layer, Projection::Down));
                }
                lemma_gaps(found, 0);
            }
        }
    }
}

/// The map holds every tensor that the model lists for it, with its own width and rows
/// and all else that is said of it, and it has no more layers than the highest needs.
pub proof fn law_maps_hold_what_models_list(
    descriptors: Seq<DescriptorModel>,
    place: int,
    layer: nat,
    projection: Projection,
)
    requires
        discovered(descriptors) is Ok,
        0 <= place < descriptors.len(),
        tensor_place(descriptors[place].name) == Some((layer, projection)),
    ensures
        ({
            let map = discovered(descriptors)->Ok_0;
            let tensor = map.tensor(layer, projection);
            &&& layer < map.layer_count
            &&& exists|some: Projection| #[trigger]
                lists(descriptors, (map.layer_count - 1) as nat, some)
            &&& map.tensors.len() == 3 * map.layer_count
            &&& tensor.layer == layer
            &&& tensor.projection == projection
            &&& tensor.name == descriptors[place].name
            &&& tensor.width == descriptors[place].dimensions[0]
            &&& tensor.rows == descriptors[place].dimensions[1]
            &&& tensor.type_id == descriptors[place].type_id
            &&& tensor.type_label == descriptors[place].type_label
            &&& tensor.strides == descriptors[place].strides
            &&& tensor.nbytes == descriptors[place].nbytes
            &&& tensor.backend == descriptors[place].backend
        }),
{
    lemma_listed(descriptors);
    lemma_found(descriptors, layer, projection);
    let found = listed(descriptors)->Ok_0;
    let map = discovered(descriptors)->Ok_0;
    let own = descriptors[place].tensor(layer, projection);
    assert(belongs(descriptors[place], layer, projection));
    assert(comes_from(own, descriptors));
    assert(found.contains(own));
    let k = found.index_of(own);
    lemma_last_layer(found);
    assert(found[k].layer <= last_layer(found));
    let top = choose|i: int|
        0 <= i < found.len() && (#[trigger] found[i]).layer == last_layer(found);
    assert(stands_for(found[top], last_layer(found), found[top].projection));
    lemma_found(descriptors, last_layer(found), found[top].projection);
    assert(lists(descriptors, (map.layer_count - 1) as nat, found[top].projection));
    let at: int = 3 * layer as int + projection.place() as int;
    assert(at / 3 == layer && at % 3 == projection.place());
    law_projection_names_read_back(projection);
    assert(map.tensors[at] == tensor_at(found, layer, projection));
    assert(stands_for(found[k], layer, projection));
    let m = choose|m: int|
        0 <= m < found.len() && stands_for(#[trigger] found[m], layer, projection);
    if k < m {
        assert(!stands_for(found[k], found[m].layer, found[m].projection));
    } else if m < k {
        assert(!stands_for(found[m], found[k].layer, found[k].projection));
    }
}

/// The first tensor that cannot be flipped, or that stands for the same as one before it,
/// is the one that a model is refused for.
pub proof fn law_first_bad_tensor_is_reported(
    descriptors: Seq<DescriptorModel>,
    place: int,
    layer: nat,
    projection: Projection,
)
    requires
        0 <= place < descriptors.len(),
        flippable_once(descriptors.take(place)),
        tensor_place(descriptors[place].name) == Some((layer, projection)),
    ensures
        ({
            let descriptor = descriptors[place];
            let unsupported = |reason: Seq<char>|
                Err::<ArchitectureModel, ErrorModel>(
                    ErrorModel::UnsupportedTensor {
                        coordinate: coordinate_text(layer, projection),
                        reason,
                    },
                );
            let typed = descriptor.type_id == 41;
            let shaped = typed && descriptor.n_dims == 2 && descriptor.dimensions[2] == 1
                && descriptor.dimensions[3] == 1 && descriptor.dimensions[1] <= usize::MAX;
            let narrow = shaped && descriptor.dimensions[0] <= usize::MAX;
            &&& !typed ==> discovered(descriptors) == unsupported(
                "expected Q1_0 type id 41, got "@ + crate::text::signed_decimal(
                    descriptor.type_id as int,
                ) + " ("@ + descriptor.type_label + ")"@,
            )
            &&& typed && !shaped ==> discovered(descriptors) == unsupported(
                "unsupported model tensor shape"@,
            )
            &&& shaped && !narrow ==> discovered(descriptors) == unsupported(
                "tensor width does not fit usize"@,
            )
            &&& narrow && !flippable(descriptor) ==> discovered(descriptors) == unsupported(
                "tensor dimensions must be non-zero"@,
            )
            &&& flippable(descriptor) && lists(descriptors.take(place), layer, projection)
                ==> discovered(descriptors) == Err::<ArchitectureModel, ErrorModel>(
                ErrorModel::DuplicateTensor(coordinate_text(layer, projection)),
            )
        }),
{
    let less = descriptors.take(place);
    let shown = descriptors.take(place + 1);
    lemma_clean(less);
    lemma_listed(less);
    lemma_found(less, layer, projection);
    assert(shown.drop_last() =~= less);
    assert(shown.last() == descriptors[place]);
    if listed(shown) is Err {
        lemma_list_error_stays(descriptors, place + 1);
    }
}

/// A model whose tensors can all be flipped lacks a map where it lists none of them, and
/// is refused for the first layer that lacks anything: for the whole layer, or for the
/// first projection that it lacks.
pub proof fn law_first_gap_is_reported(descriptors: Seq<DescriptorModel>, layer: nat, high: nat)
    requires
        flippable_once(descriptors),
    ensures
        (forall|i: int|
            0 <= i < descriptors.len() ==> tensor_place((#[trigger] descriptors[i]).name) is None)
            ==> discovered(descriptors) == Err::<ArchitectureModel, ErrorModel>(
            ErrorModel::UnsupportedArchitecture(
                "no blk.<layer>.ffn_{gate,up,down}.weight Q1_0 tensors were found"@,
            ),
        ),
        ({
            let gate = lists(descriptors, layer, Projection::Gate);
            let up = lists(descriptors, layer, Projection::Up);
            let down = lists(descriptors, layer, Projection::Down);
            let reached = layer <= high && (exists|some: Projection| #[trigger]
                lists(descriptors, high, some)) && forall|below: nat, projection: Projection|
                below < layer ==> #[trigger] lists(descriptors, below, projection);
            let missing = |projection: Projection|
                Err::<ArchitectureModel, ErrorModel>(
                    ErrorModel::MissingTensor(coordinate_text(layer, projection)),
                );
            &&& reached && !gate && !up && !down ==> discovered(descriptors) == Err::<
                ArchitectureModel,
                ErrorModel,
            >(
                ErrorModel::UnsupportedArchitecture(
                    "transformer layer "@ + crate::text::decimal(layer)
                        + " is missing from the MLP tensor map"@,
                ),
            )
            &&& reached && !gate && (up || down) ==> discovered(descriptors) == missing(
                Projection::Gate,
            )
            &&& reached && gate && !up ==> discovered(descriptors) == missing(Projection::Up)
            &&& reached && gate && up && !down ==> discovered(descriptors) == missing(
                Projection::Down,
            )
        }),
{
    lemma_clean(descriptors);
    lemma_listed(descriptors);
    let found = listed(descriptors)->Ok_0;
    assert forall|below: nat, projection: Projection| #[trigger]
        lists(descriptors, below, projection) == holds(found, below, projection) by {
        lemma_found(descriptors, below, projection);
    }
    if forall|i: int|
        0 <= i < descriptors.len() ==> tensor_place((#[trigger] descriptors[i]).name) is None {
        if found.len() > 0 {
            assert(found.contains(found[0]));
            assert(comes_from(found[0], descriptors));
        }
    }
    if layer <= high && (exists|some: Projection| #[trigger] lists(descriptors, high, some))
        && forall|below: nat, projection: Projection|
        below < layer ==> #[trigger] lists(descriptors, below, projection) {
        let some = choose|some: Projection| #[trigger] lists(descriptors, high, some);
        assert(holds(found, high, some));
        let k = choose|k: int|
            0 <= k < found.len() && stands_for(#[trigger] found[k], high, some);
        lemma_last_layer(found);
        assert(found[k].layer <= last_layer(found));
        assert forall|below: nat| 0 <= below < layer implies #[trigger] layer_gap(found, below)
            is None by {
            assert(lists(descriptors, below, Projection::Gate));
            assert(lists(descriptors, below, Projection::Up));
            assert(lists(descriptors, below, Projection::Down));
        }
        lemma_gap_reached(found, 0, layer);
    }
}

proof fn lemma_gap_reached(found: Seq<TensorModel>, from: nat, layer: nat)
    requires
        from <= layer <= last_layer(found),
        forall|below: nat| from <= below < layer ==> #[trigger] layer_gap(found, below) is None,
    ensures
        layer_gap(found, layer) is Some ==> first_gap(found, from) == layer_gap(found, layer),
    decreases layer - from,
{
    if from < layer {
        assert(layer_gap(found, from) is None);
        lemma_gap_reached(found, from + 1, layer);
    }
}

} // verus!
