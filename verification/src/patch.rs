//! Patches: rows to flip.

use vstd::prelude::*;

use crate::architecture::{ArchitectureMap, ArchitectureModel, Projection};
use crate::backend::{BackendCall, MiyagiBackend};
use crate::error::{Error, ErrorModel};
use crate::flip_set::FlipSet;
use crate::float::Binary32;

verus! {

/// A row of a tensor, by its coordinate.
#[derive(Clone, Copy, Debug, PartialEq, Eq, PartialOrd, Ord, Hash, Structural)]
pub struct PatchFlip {
    pub layer: usize,
    pub proj: Projection,
    pub row: usize,
}

/// The set with one row flipped: a row that was in it leaves, any other joins.
pub open spec fn toggled(rows: Set<PatchFlip>, flip: PatchFlip) -> Set<PatchFlip> {
    if rows.contains(flip) {
        rows.remove(flip)
    } else {
        rows.insert(flip)
    }
}

/// The set with several rows flipped, one after the other.
pub open spec fn toggled_all(rows: Set<PatchFlip>, flips: Seq<PatchFlip>) -> Set<PatchFlip>
    decreases flips.len(),
{
    if flips.len() == 0 {
        rows
    } else {
        toggled(toggled_all(rows, flips.drop_last()), flips.last())
    }
}

/// Flipping a row twice changes nothing.
pub proof fn law_flip_undoes_itself(rows: Set<PatchFlip>, flip: PatchFlip)
    ensures
        toggled(toggled(rows, flip), flip) == rows,
{
    assert(toggled(toggled(rows, flip), flip) =~= rows);
}

/// Two flips may change places.
pub proof fn law_flips_commute(rows: Set<PatchFlip>, a: PatchFlip, b: PatchFlip)
    ensures
        toggled(toggled(rows, a), b) == toggled(toggled(rows, b), a),
{
    assert(toggled(toggled(rows, a), b) =~= toggled(toggled(rows, b), a));
}

pub proof fn lemma_toggled_all_concat(
    rows: Set<PatchFlip>,
    first: Seq<PatchFlip>,
    second: Seq<PatchFlip>,
)
    ensures
        toggled_all(rows, first + second) == toggled_all(toggled_all(rows, first), second),
    decreases second.len(),
{
    if second.len() == 0 {
        assert(first + second =~= first);
    } else {
        assert((first + second).drop_last() =~= first + second.drop_last());
        lemma_toggled_all_concat(rows, first, second.drop_last());
    }
}

pub proof fn lemma_toggle_moves_in(rows: Set<PatchFlip>, flips: Seq<PatchFlip>, flip: PatchFlip)
    ensures
        toggled_all(toggled(rows, flip), flips) == toggled(toggled_all(rows, flips), flip),
    decreases flips.len(),
{
    if flips.len() > 0 {
        lemma_toggle_moves_in(rows, flips.drop_last(), flip);
        law_flips_commute(toggled_all(rows, flips.drop_last()), flip, flips.last());
    }
}

/// Flipping the same rows again undoes the first flipping: a patch is removed by
/// applying it once more.
pub proof fn law_patch_undoes_itself(rows: Set<PatchFlip>, flips: Seq<PatchFlip>)
    ensures
        toggled_all(toggled_all(rows, flips), flips) == rows,
    decreases flips.len(),
{
    if flips.len() > 0 {
        let less = flips.drop_last();
        let last = flips.last();
        lemma_toggle_moves_in(toggled_all(rows, less), less, last);
        law_patch_undoes_itself(rows, less);
        law_flip_undoes_itself(rows, last);
    }
}

/// Flipping rows backwards undoes flipping them forwards.
pub proof fn law_backwards_undoes_forwards(rows: Set<PatchFlip>, flips: Seq<PatchFlip>)
    ensures
        toggled_all(toggled_all(rows, flips), flips.reverse()) == rows,
    decreases flips.len(),
{
    if flips.len() > 0 {
        let less = flips.drop_last();
        let last = flips.last();
        assert(flips.reverse() =~= seq![last] + less.reverse());
        lemma_toggled_all_concat(toggled_all(rows, flips), seq![last], less.reverse());
        let first = seq![last];
        assert(first.drop_last() =~= Seq::<PatchFlip>::empty());
        reveal_with_fuel(toggled_all, 2);
        law_flip_undoes_itself(toggled_all(rows, less), last);
        law_backwards_undoes_forwards(rows, less);
    } else {
        assert(flips.reverse() =~= flips);
    }
}

/// The version of the patches that this library writes and reads.
pub const PATCH_VERSION: u32 = 1;

/// The coordinate of a row in words.
pub open spec fn row_text(flip: PatchFlip) -> Seq<char> {
    crate::architecture::coordinate_text(flip.layer as nat, flip.proj) + "["@
        + crate::text::decimal(flip.row as nat) + "]"@
}

impl PatchFlip {
    pub fn coordinate(&self) -> (r: String)
        ensures
            r@ == row_text(*self),
    {
        let mut out: String = crate::architecture::coordinate_of(self.layer, self.proj);
        out.append("[");
        crate::text::push_decimal(&mut out, self.row as u64);
        out.append("]");
        out
    }
}

/// A value that is kept with a patch.
#[derive(Debug, PartialEq, Eq)]
pub enum MetadataValue {
    Text(String),
    Count(u64),
    Number(Binary32),
    /// Any other value, as JSON.
    Json(String),
}

pub enum MetadataModel {
    Text(Seq<char>),
    Count(u64),
    Number(Binary32),
    Json(Seq<char>),
}

impl View for MetadataValue {
    type V = MetadataModel;

    open spec fn view(&self) -> MetadataModel {
        match self {
            MetadataValue::Text(text) => MetadataModel::Text(text@),
            MetadataValue::Count(count) => MetadataModel::Count(*count),
            MetadataValue::Number(number) => MetadataModel::Number(*number),
            MetadataValue::Json(text) => MetadataModel::Json(text@),
        }
    }
}

impl Clone for MetadataValue {
    fn clone(&self) -> (r: MetadataValue)
        ensures
            r == *self,
    {
        match self {
            MetadataValue::Text(text) => MetadataValue::Text(text.clone()),
            MetadataValue::Count(count) => MetadataValue::Count(*count),
            MetadataValue::Number(number) => MetadataValue::Number(*number),
            MetadataValue::Json(text) => MetadataValue::Json(text.clone()),
        }
    }
}

/// What is kept under each name. A later entry replaces an earlier one.
pub open spec fn metadata_of(entries: Seq<(String, MetadataValue)>) -> Map<
    Seq<char>,
    MetadataModel,
>
    decreases entries.len(),
{
    if entries.len() == 0 {
        Map::empty()
    } else {
        metadata_of(entries.drop_last()).insert(entries.last().0@, entries.last().1@)
    }
}

/// The figures that stand with a patch.
#[derive(Clone, Copy, Debug, PartialEq, Eq)]
pub struct PatchStats {
    /// The number of rows.
    pub n_flips: usize,
    /// The number of bits in the rows, once a model has been asked how wide they are.
    pub logical_bits_flipped: Option<u128>,
    /// The size of a compact form of the patch, where its file gives one.
    pub compact_binary_estimate_bytes: Option<u64>,
}

/// The figures of rows of which no model has been asked.
pub open spec fn counted(flips: Seq<PatchFlip>) -> PatchStats {
    PatchStats {
        n_flips: flips.len() as usize,
        logical_bits_flipped: None,
        compact_binary_estimate_bytes: None,
    }
}

/// Rows to flip in a model, with what is known about them.
#[derive(Debug, PartialEq, Eq)]
pub struct Patch {
    pub version: u32,
    pub format: String,
    pub name: String,
    pub description: String,
    pub base_model: String,
    pub flips: Vec<PatchFlip>,
    pub stats: PatchStats,
    pub metadata: Vec<(String, MetadataValue)>,
}

pub struct PatchModel {
    pub version: u32,
    pub format: Seq<char>,
    pub name: Seq<char>,
    pub description: Seq<char>,
    pub base_model: Seq<char>,
    pub flips: Seq<PatchFlip>,
    pub stats: PatchStats,
    pub metadata: Map<Seq<char>, MetadataModel>,
}

impl View for Patch {
    type V = PatchModel;

    open spec fn view(&self) -> PatchModel {
        PatchModel {
            version: self.version,
            format: self.format@,
            name: self.name@,
            description: self.description@,
            base_model: self.base_model@,
            flips: self.flips@,
            stats: self.stats,
            metadata: metadata_of(self.metadata@),
        }
    }
}

impl Clone for Patch {
    fn clone(&self) -> (r: Patch)
        ensures
            r@ == self@,
    {
        let mut metadata: Vec<(String, MetadataValue)> = Vec::new();
        let mut next: usize = 0;
        while next < self.metadata.len()
            invariant
                next <= self.metadata@.len(),
                metadata@ == self.metadata@.take(next as int),
            decreases self.metadata@.len() - next,
        {
            let (name, value) = &self.metadata[next];
            metadata.push((name.clone(), value.clone()));
            next = next + 1;
            assert(metadata@ =~= self.metadata@.take(next as int));
        }
        assert(metadata@ =~= self.metadata@);
        Patch {
            version: self.version,
            format: self.format.clone(),
            name: self.name.clone(),
            description: self.description.clone(),
            base_model: self.base_model.clone(),
            flips: copy_flips(self.flips.as_slice()),
            stats: self.stats,
            metadata,
        }
    }
}

/// What is let pass when a patch is held against a model.
#[derive(Clone, Copy, Debug, PartialEq, Eq, Structural)]
pub struct PatchValidation {
    /// A patch that names another architecture is accepted all the same.
    pub allow_model_signature_mismatch: bool,
}

impl Default for PatchValidation {
    fn default() -> (r: PatchValidation)
        ensures
            r == (PatchValidation { allow_model_signature_mismatch: false }),
    {
        PatchValidation { allow_model_signature_mismatch: false }
    }
}

/// The map has the row.
pub open spec fn has_row(map: ArchitectureModel, flip: PatchFlip) -> bool {
    &&& flip.layer < map.layer_count
    &&& flip.row < map.tensor(flip.layer as nat, flip.proj).rows
}

/// What is wrong with the row at `place`: the map does not have it, or the patch
/// has named it before.
pub open spec fn row_fault(
    map: ArchitectureModel,
    flips: Seq<PatchFlip>,
    place: int,
) -> Option<ErrorModel> {
    let flip = flips[place];
    if flip.layer >= map.layer_count {
        Some(
            ErrorModel::MissingTensor(
                crate::architecture::coordinate_text(flip.layer as nat, flip.proj),
            ),
        )
    } else if flip.row >= map.tensor(flip.layer as nat, flip.proj).rows {
        Some(
            ErrorModel::RowOutOfBounds {
                coordinate: crate::architecture::coordinate_text(flip.layer as nat, flip.proj),
                row: flip.row as nat,
                rows: map.tensor(flip.layer as nat, flip.proj).rows,
            },
        )
    } else if flips.take(place).contains(flip) {
        Some(ErrorModel::DuplicateFlip(row_text(flip)))
    } else {
        None
    }
}

/// The first thing wrong with the rows, from the place `from` on.
pub open spec fn rows_fault(
    map: ArchitectureModel,
    flips: Seq<PatchFlip>,
    from: int,
) -> Option<ErrorModel>
    decreases flips.len() - from,
{
    if from < 0 || from >= flips.len() {
        None
    } else if row_fault(map, flips, from) is Some {
        row_fault(map, flips, from)
    } else {
        rows_fault(map, flips, from + 1)
    }
}

/// The number of bits in the rows.
pub open spec fn bits_in(map: ArchitectureModel, flips: Seq<PatchFlip>) -> nat
    decreases flips.len(),
{
    if flips.len() == 0 {
        0
    } else {
        bits_in(map, flips.drop_last()) + map.tensor(
            flips.last().layer as nat,
            flips.last().proj,
        ).width
    }
}

impl PatchModel {
    /// The patch with the figures that a model gives it: the number of its rows, and
    /// that of their bits by the width of the model's own tensors.
    pub open spec fn measured(self, map: ArchitectureModel) -> PatchModel {
        PatchModel {
            stats: PatchStats {
                n_flips: self.flips.len() as usize,
                logical_bits_flipped: Some(bits_in(map, self.flips) as u128),
                ..self.stats
            },
            ..self
        }
    }

    /// The architecture that the patch says it is for.
    pub open spec fn signature(self) -> Option<Seq<char>> {
        if self.metadata.dom().contains("architecture_signature"@) {
            match self.metadata["architecture_signature"@] {
                MetadataModel::Text(text) => Some(text),
                _ => None,
            }
        } else {
            None
        }
    }

    /// What is wrong with the patch for a model.
    pub open spec fn fault(
        self,
        map: ArchitectureModel,
        validation: PatchValidation,
    ) -> Option<ErrorModel> {
        if self.version != PATCH_VERSION {
            Some(
                ErrorModel::InvalidPatch(
                    "unsupported patch version "@ + crate::text::decimal(self.version as nat),
                ),
            )
        } else if self.format != "miyagi_row_xor_v1"@ {
            Some(ErrorModel::InvalidPatch("unsupported patch format "@ + self.format))
        } else if rows_fault(map, self.flips, 0) is Some {
            rows_fault(map, self.flips, 0)
        } else if validation.allow_model_signature_mismatch {
            None
        } else {
            match self.signature() {
                None => None,
                Some(signature) => if signature == map.signature {
                    None
                } else {
                    Some(
                        ErrorModel::ArchitectureMismatch {
                            expected: signature,
                            actual: map.signature,
                        },
                    )
                },
            }
        }
    }
}

/// The format of a patch file that names it, or that names its type instead: the
/// type `row_flip` is the one format there is.
pub fn read_format(format: Option<String>, kind: Option<String>) -> (r: String)
    ensures
        r@ == match format {
            Some(name) => name@,
            None => match kind {
                Some(kind) => if kind@ == "row_flip"@ {
                    "miyagi_row_xor_v1"@
                } else {
                    kind@
                },
                None => seq![],
            },
        },
{
    match format {
        Some(name) => name,
        None => match kind {
            Some(kind) => {
                if crate::text::same_text(kind.as_str(), "row_flip") {
                    "miyagi_row_xor_v1".to_owned()
                } else {
                    kind
                }
            },
            None => String::new(),
        },
    }
}

impl Patch {
    pub fn new(
        name: String,
        description: String,
        base_model: String,
        flips: Vec<PatchFlip>,
    ) -> (r: Patch)
        ensures
            r@ == (PatchModel {
                version: PATCH_VERSION,
                format: "miyagi_row_xor_v1"@,
                name: name@,
                description: description@,
                base_model: base_model@,
                flips: flips@,
                stats: counted(flips@),
                metadata: Map::empty(),
            }),
    {
        let stats = PatchStats {
            n_flips: flips.len(),
            logical_bits_flipped: None,
            compact_binary_estimate_bytes: None,
        };
        Patch {
            version: PATCH_VERSION,
            format: "miyagi_row_xor_v1".to_owned(),
            name,
            description,
            base_model,
            flips,
            stats,
            metadata: Vec::new(),
        }
    }

    /// Keeps a value with the patch.
    pub fn keep(&mut self, name: &str, value: MetadataValue)
        ensures
            final(self)@ == (PatchModel {
                metadata: old(self)@.metadata.insert(name@, value@),
                ..old(self)@
            }),
    {
        let ghost before = self.metadata@;
        self.metadata.push((name.to_owned(), value));
        assert(self.metadata@.drop_last() =~= before);
    }

    /// The value that is kept under a name.
    pub fn kept(&self, name: &str) -> (r: Option<&MetadataValue>)
        ensures
            match r {
                None => !self@.metadata.dom().contains(name@),
                Some(value) => self@.metadata.dom().contains(name@) && self@.metadata[name@]
                    == value@,
            },
    {
        let mut left: usize = self.metadata.len();
        assert(self.metadata@.take(left as int) =~= self.metadata@);
        while left > 0
            invariant
                left <= self.metadata@.len(),
                ({
                    let all = metadata_of(self.metadata@);
                    let some = metadata_of(self.metadata@.take(left as int));
                    &&& all.dom().contains(name@) == some.dom().contains(name@)
                    &&& all.dom().contains(name@) ==> all[name@] == some[name@]
                }),
            decreases left,
        {
            assert(self.metadata@.take(left as int).drop_last() =~= self.metadata@.take(left - 1));
            let (key, value) = &self.metadata[left - 1];
            if crate::text::same_text(key.as_str(), name) {
                return Some(value);
            }
            left = left - 1;
        }
        None
    }

    /// Holds the patch against a model, and keeps with it the figures that the model
    /// gives it.
    pub fn validate(self, architecture: &ArchitectureMap, validation: PatchValidation) -> (r:
        Result<ValidatedPatch, Error>)
        ensures
            match self@.fault(architecture@, validation) {
                Some(error) => r matches Err(e) && e@ == error,
                None => r matches Ok(validated) && validated@ == (ValidatedModel {
                    patch: self@.measured(architecture@),
                    bits: bits_in(architecture@, self@.flips),
                }),
            },
    {
        if self.version != PATCH_VERSION {
            let mut text: String = "unsupported patch version ".to_owned();
            crate::text::push_decimal(&mut text, self.version as u64);
            return Err(Error::InvalidPatch(text));
        }
        if !crate::text::same_text(self.format.as_str(), "miyagi_row_xor_v1") {
            let mut text: String = "unsupported patch format ".to_owned();
            text.append(self.format.as_str());
            return Err(Error::InvalidPatch(text));
        }
        let bits: u128 = match count_bits(architecture, self.flips.as_slice()) {
            Err(error) => {
                return Err(error);
            },
            Ok(bits) => bits,
        };
        if !validation.allow_model_signature_mismatch {
            if let Some(MetadataValue::Text(signature)) = self.kept("architecture_signature") {
                if !crate::text::same_text(signature.as_str(), architecture.signature()) {
                    return Err(
                        Error::ArchitectureMismatch {
                            expected: signature.clone(),
                            actual: architecture.signature().to_owned(),
                        },
                    );
                }
            }
        }
        let mut patch: Patch = self;
        patch.stats = PatchStats {
            n_flips: patch.flips.len(),
            logical_bits_flipped: Some(bits),
            compact_binary_estimate_bytes: patch.stats.compact_binary_estimate_bytes,
        };
        Ok(ValidatedPatch { patch, bits })
    }
}

/// Refuses rows that the map does not have and rows that are named twice, and
/// counts the bits of the others.
fn count_bits(architecture: &ArchitectureMap, flips: &[PatchFlip]) -> (r: Result<u128, Error>)
    ensures
        match rows_fault(architecture@, flips@, 0) {
            Some(error) => r matches Err(e) && e@ == error,
            None => r matches Ok(bits) && bits == bits_in(architecture@, flips@),
        },
{
    let total: usize = flips.len();
    let mut seen: FlipSet = FlipSet::new();
    let mut bits: u128 = 0;
    let mut next: usize = 0;
    assert(flips@.take(0).to_set() =~= Set::<PatchFlip>::empty());
    while next < total
        invariant
            next <= total,
            total == flips@.len(),
            seen@ == flips@.take(next as int).to_set(),
            rows_fault(architecture@, flips@, 0) == rows_fault(architecture@, flips@, next as int),
            bits == bits_in(architecture@, flips@.take(next as int)),
            bits <= next * 0xffff_ffff_ffff_ffff,
        decreases total - next,
    {
        let flip: PatchFlip = flips[next];
        let ghost less = flips@.take(next as int);
        match architecture.tensor(flip.layer, flip.proj) {
            Err(error) => {
                return Err(error);
            },
            Ok(tensor) => {
                if flip.row >= tensor.rows {
                    return Err(
                        Error::RowOutOfBounds {
                            coordinate: crate::architecture::coordinate_of(flip.layer, flip.proj),
                            row: flip.row,
                            rows: tensor.rows,
                        },
                    );
                }
                if seen.contains(flip) {
                    assert(less.contains(flip));
                    return Err(Error::DuplicateFlip(flip.coordinate()));
                }
                assert(!less.contains(flip));
                assert(next * 0xffff_ffff_ffff_ffff + 0xffff_ffff_ffff_ffff <= u128::MAX)
                    by (nonlinear_arith)
                    requires
                        next <= 0xffff_ffff_ffff_ffff - 1,
                ;
                bits = bits + tensor.width as u128;
            },
        }
        seen.insert(flip);
        proof {
            let more = flips@.take(next + 1);
            assert(more.drop_last() =~= less);
            assert(more =~= less.push(flip));
            assert forall|x: PatchFlip| #[trigger] more.to_set().contains(x) == less.to_set().insert(
                flip,
            ).contains(x) by {
                if less.contains(x) {
                    let i = choose|i: int| 0 <= i < less.len() && less[i] == x;
                    assert(more[i] == x);
                }
                if x == flip {
                    assert(more[next as int] == x);
                }
            }
            assert(more.to_set() =~= less.to_set().insert(flip));
        }
        next = next + 1;
    }
    assert(flips@.take(next as int) =~= flips@);
    Ok(bits)
}

/// A patch that fits a model.
#[derive(Debug)]
pub struct ValidatedPatch {
    patch: Patch,
    bits: u128,
}

pub struct ValidatedModel {
    pub patch: PatchModel,
    pub bits: nat,
}

impl View for ValidatedPatch {
    type V = ValidatedModel;

    closed spec fn view(&self) -> ValidatedModel {
        ValidatedModel { patch: self.patch@, bits: self.bits as nat }
    }
}

impl ValidatedPatch {
    pub fn patch(&self) -> (r: &Patch)
        ensures
            r@ == self@.patch,
    {
        &self.patch
    }

    pub fn into_patch(self) -> (r: Patch)
        ensures
            r@ == self@.patch,
    {
        self.patch
    }

    /// The number of bits that the patch flips in the model.
    pub fn logical_bits_flipped(&self) -> (r: u128)
        ensures
            r == self@.bits,
    {
        self.bits
    }

    /// Flips the rows of the patch.
    pub fn apply<B: MiyagiBackend>(&self, backend: &mut B) -> (r: Result<(), Error>)
        ensures
            crate::backend::continues(old(backend).history(), final(backend).history()),
            crate::restore::applies(
                self@.patch.flips,
                "patch application"@,
                crate::backend::calls_since(old(backend).history(), final(backend).history()),
                crate::backend::answer(r),
            ),
    {
        crate::restore::apply_coordinates(
            backend,
            self.patch.flips.as_slice(),
            "patch application",
        )
    }

    /// Flips the rows of the patch back.
    pub fn remove<B: MiyagiBackend>(&self, backend: &mut B) -> (r: Result<(), Error>)
        ensures
            crate::backend::continues(old(backend).history(), final(backend).history()),
            crate::restore::applies(
                self@.patch.flips,
                "patch removal"@,
                crate::backend::calls_since(old(backend).history(), final(backend).history()),
                crate::backend::answer(r),
            ),
    {
        crate::restore::apply_coordinates(backend, self.patch.flips.as_slice(), "patch removal")
    }
}

proof fn lemma_rows_fault(map: ArchitectureModel, flips: Seq<PatchFlip>, from: int)
    requires
        0 <= from <= flips.len(),
    ensures
        rows_fault(map, flips, from) is None <==> forall|i: int|
            from <= i < flips.len() ==> #[trigger] row_fault(map, flips, i) is None,
    decreases flips.len() - from,
{
    if from < flips.len() {
        lemma_rows_fault(map, flips, from + 1);
        assert(row_fault(map, flips, from) is None || row_fault(map, flips, from) is Some);
    }
}

/// The rows of a patch are accepted exactly where the model has each of them and
/// none is named twice.
pub proof fn law_accepted_rows(map: ArchitectureModel, flips: Seq<PatchFlip>)
    ensures
        rows_fault(map, flips, 0) is None <==> {
            &&& flips.no_duplicates()
            &&& forall|i: int| 0 <= i < flips.len() ==> has_row(map, #[trigger] flips[i])
        },
{
    lemma_rows_fault(map, flips, 0);
    if rows_fault(map, flips, 0) is None {
        assert forall|i: int, j: int|
            0 <= i < flips.len() && 0 <= j < flips.len() && i != j implies flips[i] != flips[j] by {
            let (a, b) = if i < j {
                (i, j)
            } else {
                (j, i)
            };
            assert(row_fault(map, flips, b) is None);
            assert(flips.take(b)[a] == flips[a]);
        }
        assert forall|i: int| 0 <= i < flips.len() implies has_row(map, #[trigger] flips[i]) by {
            assert(row_fault(map, flips, i) is None);
        }
    } else if flips.no_duplicates() && forall|i: int|
        0 <= i < flips.len() ==> has_row(map, #[trigger] flips[i]) {
        assert forall|i: int| 0 <= i < flips.len() implies #[trigger] row_fault(
            map,
            flips,
            i,
        ) is None by {
            assert(has_row(map, flips[i]));
            if flips.take(i).contains(flips[i]) {
                let j = choose|j: int| 0 <= j < i && flips.take(i)[j] == flips[i];
                assert(flips[j] == flips[i]);
            }
        }
    }
}

/// A patch that was applied and removed again has changed nothing.
pub proof fn law_removing_undoes_applying(
    rows: Set<PatchFlip>,
    flips: Seq<PatchFlip>,
    applied: Seq<BackendCall>,
    removed: Seq<BackendCall>,
)
    requires
        crate::restore::applies(flips, "patch application"@, applied, Ok(())),
        crate::restore::applies(flips, "patch removal"@, removed, Ok(())),
    ensures
        crate::backend::flipped(rows, applied + removed) == rows,
{
    let middle = crate::backend::flipped(rows, applied);
    crate::restore::law_applied_rows_are_flipped(rows, flips, applied);
    crate::restore::law_applied_rows_are_flipped(middle, flips, removed);
    crate::backend::lemma_flipped_concat(rows, applied, removed);
    law_patch_undoes_itself(rows, flips);
}

/// The rows of all patches, one patch after the other.
pub open spec fn all_flips(patches: Seq<PatchModel>) -> Seq<PatchFlip>
    decreases patches.len(),
{
    if patches.len() == 0 {
        seq![]
    } else {
        all_flips(patches.drop_last()) + patches.last().flips
    }
}

pub open spec fn patch_models(patches: Seq<Patch>) -> Seq<PatchModel> {
    Seq::new(patches.len(), |i: int| patches[i]@)
}

/// The patches are for one base model.
pub open spec fn share_base(patches: Seq<PatchModel>) -> bool {
    forall|i: int|
        0 <= i < patches.len() ==> (#[trigger] patches[i]).base_model == patches[0].base_model
}

/// How many of the patches name the row.
pub open spec fn times_named(patches: Seq<PatchModel>, flip: PatchFlip) -> nat
    decreases patches.len(),
{
    if patches.len() == 0 {
        0
    } else {
        times_named(patches.drop_last(), flip) + if patches.last().flips.contains(flip) {
            1nat
        } else {
            0nat
        }
    }
}

impl Patch {
    /// Makes one patch of several: the rows that stay flipped when all are applied,
    /// in order.
    pub fn compose(name: String, patches: &[Patch]) -> (r: Result<Patch, Error>)
        ensures
            ({
                let models = patch_models(patches@);
                if patches@.len() == 0 {
                    r matches Err(e) && e@ == ErrorModel::IncompatiblePatches(
                        "there are no patches to compose"@,
                    )
                } else if !share_base(models) {
                    r matches Err(e) && e@ == ErrorModel::IncompatiblePatches(
                        "patches have different base models"@,
                    )
                } else {
                    &&& r matches Ok(patch)
                    &&& crate::flip_set::ascending(patch@.flips)
                    &&& patch@.flips.to_set() == toggled_all(
                        Set::<PatchFlip>::empty(),
                        all_flips(models),
                    )
                    &&& patch@ == (PatchModel {
                        version: PATCH_VERSION,
                        format: "miyagi_row_xor_v1"@,
                        name: name@,
                        description: seq![],
                        base_model: models[0].base_model,
                        flips: patch@.flips,
                        stats: counted(patch@.flips),
                        metadata: Map::empty(),
                    })
                }
            }),
    {
        let ghost models = patch_models(patches@);
        if patches.len() == 0 {
            return Err(
                Error::IncompatiblePatches("there are no patches to compose".to_owned()),
            );
        }
        let mut rows: FlipSet = FlipSet::new();
        let mut next: usize = 0;
        assert(models.take(0) =~= Seq::<PatchModel>::empty());
        while next < patches.len()
            invariant
                next <= patches@.len(),
                0 < patches@.len(),
                models == patch_models(patches@),
                share_base(models.take(next as int)),
                rows@ == toggled_all(
                    Set::<PatchFlip>::empty(),
                    all_flips(models.take(next as int)),
                ),
            decreases patches@.len() - next,
        {
            let patch: &Patch = &patches[next];
            assert(models[next as int] == patch@);
            assert(models[0] == patches@[0]@);
            if !crate::text::same_text(
                patch.base_model.as_str(),
                patches[0].base_model.as_str(),
            ) {
                assert(!share_base(models));
                return Err(
                    Error::IncompatiblePatches("patches have different base models".to_owned()),
                );
            }
            toggle_rows(&mut rows, patch.flips.as_slice());
            proof {
                let less = models.take(next as int);
                let more = models.take(next + 1);
                assert(more.drop_last() =~= less);
                lemma_toggled_all_concat(
                    Set::<PatchFlip>::empty(),
                    all_flips(less),
                    patch@.flips,
                );
                assert forall|i: int| 0 <= i < more.len() implies (#[trigger] more[i]).base_model
                    == more[0].base_model by {
                    if i < next {
                        assert(less[i] == more[i]);
                        assert(less[0] == more[0]);
                    }
                }
            }
            next = next + 1;
        }
        assert(models.take(next as int) =~= models);
        Ok(
            Patch::new(
                name,
                String::new(),
                patches[0].base_model.clone(),
                copy_flips(rows.as_slice()),
            ),
        )
    }
}

/// A list of rows, copied.
pub fn copy_flips(flips: &[PatchFlip]) -> (r: Vec<PatchFlip>)
    ensures
        r@ == flips@,
{
    let mut out: Vec<PatchFlip> = Vec::new();
    let mut next: usize = 0;
    while next < flips.len()
        invariant
            next <= flips@.len(),
            out@ == flips@.take(next as int),
        decreases flips@.len() - next,
    {
        out.push(flips[next]);
        next = next + 1;
        assert(out@ =~= flips@.take(next as int));
    }
    assert(out@ =~= flips@);
    out
}

/// Flips several rows of a set.
fn toggle_rows(rows: &mut FlipSet, flips: &[PatchFlip])
    ensures
        final(rows)@ == toggled_all(old(rows)@, flips@),
{
    let mut next: usize = 0;
    assert(flips@.take(0) =~= Seq::<PatchFlip>::empty());
    while next < flips.len()
        invariant
            next <= flips@.len(),
            rows@ == toggled_all(old(rows)@, flips@.take(next as int)),
        decreases flips@.len() - next,
    {
        rows.toggle(flips[next]);
        assert(flips@.take(next + 1).drop_last() =~= flips@.take(next as int));
        next = next + 1;
    }
    assert(flips@.take(next as int) =~= flips@);
}

proof fn lemma_toggled_once(rows: Set<PatchFlip>, flips: Seq<PatchFlip>, flip: PatchFlip)
    requires
        flips.no_duplicates(),
    ensures
        toggled_all(rows, flips).contains(flip) == (rows.contains(flip) != flips.contains(flip)),
    decreases flips.len(),
{
    if flips.len() > 0 {
        let less = flips.drop_last();
        assert(less.no_duplicates());
        lemma_toggled_once(rows, less, flip);
        assert(flips.last() == flips[flips.len() - 1]);
        if less.contains(flip) {
            let i = choose|i: int| 0 <= i < less.len() && less[i] == flip;
            assert(flips[i] == flip);
        } else if flips.contains(flip) {
            let i = choose|i: int| 0 <= i < flips.len() && flips[i] == flip;
            if i < less.len() {
                assert(less[i] == flip);
            }
        }
    }
}

/// A row that an even number of the patches name cancels out, and one that an odd
/// number name remains.
pub proof fn law_composition_cancels_even_rows(patches: Seq<PatchModel>, flip: PatchFlip)
    requires
        forall|i: int| 0 <= i < patches.len() ==> (#[trigger] patches[i]).flips.no_duplicates(),
    ensures
        toggled_all(Set::<PatchFlip>::empty(), all_flips(patches)).contains(flip) <==> times_named(
            patches,
            flip,
        ) % 2 == 1,
    decreases patches.len(),
{
    if patches.len() > 0 {
        let less = patches.drop_last();
        assert forall|i: int| 0 <= i < less.len() implies (
        #[trigger] less[i]).flips.no_duplicates() by {
            assert(less[i] == patches[i]);
        }
        law_composition_cancels_even_rows(less, flip);
        assert(patches.last() == patches[patches.len() - 1]);
        let before = toggled_all(Set::<PatchFlip>::empty(), all_flips(less));
        lemma_toggled_all_concat(
            Set::<PatchFlip>::empty(),
            all_flips(less),
            patches.last().flips,
        );
        lemma_toggled_once(before, patches.last().flips, flip);
    }
}

proof fn lemma_toggled_apart(rows: Set<PatchFlip>, flips: Seq<PatchFlip>, flip: PatchFlip)
    ensures
        toggled_all(rows, flips).contains(flip) == (rows.contains(flip) != toggled_all(
            Set::<PatchFlip>::empty(),
            flips,
        ).contains(flip)),
    decreases flips.len(),
{
    if flips.len() > 0 {
        lemma_toggled_apart(rows, flips.drop_last(), flip);
    }
}

/// The composed patch does to a model what the patches do one after the other.
pub proof fn law_composition_does_what_the_patches_do(
    rows: Set<PatchFlip>,
    patches: Seq<PatchModel>,
    composed: Seq<PatchFlip>,
)
    requires
        crate::flip_set::ascending(composed),
        composed.to_set() == toggled_all(Set::<PatchFlip>::empty(), all_flips(patches)),
    ensures
        toggled_all(rows, composed) == toggled_all(rows, all_flips(patches)),
{
    assert forall|i: int, j: int|
        0 <= i < composed.len() && 0 <= j < composed.len() && i != j implies composed[i]
        != composed[j] by {
        if i < j {
            assert(crate::flip_set::row_before(composed[i], composed[j]));
        } else {
            assert(crate::flip_set::row_before(composed[j], composed[i]));
        }
    }
    assert forall|flip: PatchFlip| #[trigger]
        toggled_all(rows, composed).contains(flip) == toggled_all(
            rows,
            all_flips(patches),
        ).contains(flip) by {
        lemma_toggled_once(rows, composed, flip);
        lemma_toggled_apart(rows, all_flips(patches), flip);
        assert(composed.contains(flip) == composed.to_set().contains(flip));
    }
    assert(toggled_all(rows, composed) =~= toggled_all(rows, all_flips(patches)));
}

} // verus!
