//! The decisions of the command line.

use vstd::prelude::*;

use crate::architecture::{ArchitectureMap, Projection, TensorInfo, TensorModel};
use crate::backend::BackendConfig;
use crate::error::{Error, ErrorModel};
use crate::patch::{Patch, PatchValidation, ValidatedPatch};
use crate::probe::{Probe, ProbeModel};

verus! {

/// Where the model is and how it is loaded.
#[derive(Debug)]
pub struct ModelArgs {
    /// The path of the model, where it is valid UTF-8.
    pub model: Option<String>,
    pub n_ctx: u32,
    pub n_batch: u32,
    pub n_ubatch: u32,
    pub n_threads: i32,
    pub n_threads_batch: i32,
    pub n_gpu_layers: i32,
    pub add_special: bool,
}

impl ModelArgs {
    pub fn config(&self, mutable_tensors: bool) -> (r: BackendConfig)
        ensures
            r == (BackendConfig {
                n_ctx: self.n_ctx,
                n_batch: self.n_batch,
                n_ubatch: self.n_ubatch,
                n_threads: self.n_threads,
                n_threads_batch: self.n_threads_batch,
                n_gpu_layers: self.n_gpu_layers,
                mutable_tensors,
                add_special: self.add_special,
                parse_special: true,
            }),
    {
        BackendConfig {
            n_ctx: self.n_ctx,
            n_batch: self.n_batch,
            n_ubatch: self.n_ubatch,
            n_threads: self.n_threads,
            n_threads_batch: self.n_threads_batch,
            n_gpu_layers: self.n_gpu_layers,
            mutable_tensors,
            add_special: self.add_special,
            parse_special: true,
        }
    }

    pub fn model_str(&self) -> (r: Result<&str, Error>)
        ensures
            match self.model {
                Some(model) => r matches Ok(text) && text@ == model@,
                None => r matches Err(e) && e@ == ErrorModel::InvalidSearch(
                    "model path is not valid UTF-8"@,
                ),
            },
    {
        match &self.model {
            Some(model) => Ok(model.as_str()),
            None => Err(Error::InvalidSearch("model path is not valid UTF-8".to_owned())),
        }
    }
}

/// How `{:?}` writes a text.
pub uninterp spec fn debug_text(text: Seq<char>) -> Seq<char>;

/// The standard library's `Debug` of `str`, through `format!`. The result is named,
/// not described: it is the text in quotes with some characters escaped.
#[verifier::external_body]
fn quoted(text: &str) -> (r: String)
    ensures
        r@ == debug_text(text@),
{
    format!("{text:?}")
}

/// The complaint about a selector that names no probes. `quoted` is the selector as
/// it is shown.
pub fn unknown_selector(quoted: &str) -> (r: Error)
    ensures
        r@ == ErrorModel::InvalidSearch("unknown probe selector "@ + quoted@),
{
    let mut text: String = "unknown probe selector ".to_owned();
    text.append(quoted);
    Error::InvalidSearch(text)
}

/// The view of probes or of the error in their place.
pub open spec fn probes_view(result: Result<Vec<Probe>, Error>) -> Result<
    Seq<ProbeModel>,
    ErrorModel,
> {
    match result {
        Ok(probes) => Ok(crate::probe::probe_models(probes@)),
        Err(error) => Err(error@),
    }
}

/// The probes of a selector: a built-in set where it is the name of one, or else
/// the probes of the file of that name. `file` is what reading that file gave, where
/// there is such a file.
pub fn load_selector(selector: &str, file: Option<Result<Vec<Probe>, Error>>) -> (r: Result<
    Vec<Probe>,
    Error,
>)
    ensures
        probes_view(r) == match crate::probe::built_in_set(selector@) {
            Some(probes) => Ok(probes),
            None => match file {
                Some(read) => probes_view(read),
                None => Err(
                    ErrorModel::InvalidSearch("unknown probe selector "@ + debug_text(selector@)),
                ),
            },
        },
{
    if let Some(probes) = crate::probe::built_in(selector) {
        return Ok(probes);
    }
    match file {
        Some(read) => read,
        None => Err(unknown_selector(quoted(selector).as_str())),
    }
}

/// The probes of several selectors, one after the other, or the first error.
pub open spec fn joined(parts: Seq<Result<Vec<Probe>, Error>>) -> Result<
    Seq<ProbeModel>,
    ErrorModel,
>
    decreases parts.len(),
{
    if parts.len() == 0 {
        Ok(seq![])
    } else {
        match joined(parts.drop_last()) {
            Err(error) => Err(error),
            Ok(before) => match probes_view(parts.last()) {
                Err(error) => Err(error),
                Ok(probes) => Ok(before + probes),
            },
        }
    }
}

proof fn lemma_joined_stays(parts: Seq<Result<Vec<Probe>, Error>>, shown: int)
    requires
        0 <= shown <= parts.len(),
        joined(parts.take(shown)) is Err,
    ensures
        joined(parts) == joined(parts.take(shown)),
    decreases parts.len(),
{
    if shown < parts.len() {
        assert(parts.drop_last().take(shown) =~= parts.take(shown));
        lemma_joined_stays(parts.drop_last(), shown);
    } else {
        assert(parts.take(shown) =~= parts);
    }
}

fn append_probes(out: &mut Vec<Probe>, probes: &[Probe])
    ensures
        crate::probe::probe_models(final(out)@) == crate::probe::probe_models(old(out)@)
            + crate::probe::probe_models(probes@),
{
    let ghost before = out@;
    let mut next: usize = 0;
    assert(out@ =~= before + probes@.take(0));
    while next < probes.len()
        invariant
            next <= probes@.len(),
            out@ == before + probes@.take(next as int),
        decreases probes@.len() - next,
    {
        out.push(probes[next].clone());
        next = next + 1;
        assert(out@ =~= before + probes@.take(next as int));
    }
    assert(probes@.take(next as int) =~= probes@);
    assert(crate::probe::probe_models(out@) =~= crate::probe::probe_models(before)
        + crate::probe::probe_models(probes@));
}

/// Puts the probes of several selectors together. The first error ends it.
pub fn load_selectors(parts: Vec<Result<Vec<Probe>, Error>>) -> (r: Result<Vec<Probe>, Error>)
    ensures
        probes_view(r) == joined(parts@),
{
    let ghost all = parts@;
    let mut out: Vec<Probe> = Vec::new();
    let mut left: Vec<Result<Vec<Probe>, Error>> = parts;
    let ghost mut shown: int = 0;
    assert(crate::probe::probe_models(out@) =~= Seq::<ProbeModel>::empty());
    assert(all.take(0) =~= Seq::<Result<Vec<Probe>, Error>>::empty());
    assert(all.skip(0) =~= all);
    while left.len() > 0
        invariant
            0 <= shown <= all.len(),
            all == parts@,
            left@ == all.skip(shown),
            joined(all.take(shown)) == Ok::<Seq<ProbeModel>, ErrorModel>(
                crate::probe::probe_models(out@),
            ),
        decreases left@.len(),
    {
        let part: Result<Vec<Probe>, Error> = left.remove(0);
        proof {
            assert(part == all[shown]);
            assert(all.take(shown + 1).drop_last() =~= all.take(shown));
            assert(all.take(shown + 1).last() == part);
            assert(left@ =~= all.skip(shown + 1));
        }
        match part {
            Err(error) => {
                proof {
                    lemma_joined_stays(all, shown + 1);
                }
                return Err(error);
            },
            Ok(probes) => {
                append_probes(&mut out, probes.as_slice());
            },
        }
        proof {
            shown = shown + 1;
        }
    }
    assert(all.take(shown) =~= all);
    Ok(out)
}

/// The built-in sets but the one of the name, one after the other.
pub open spec fn other_sets(target: Seq<char>) -> Seq<ProbeModel> {
    let math = if target == "math"@ {
        seq![]
    } else {
        crate::probe::math_set()
    };
    let code = if target == "code"@ {
        seq![]
    } else {
        crate::probe::code_set()
    };
    let knowledge = if target == "knowledge"@ {
        seq![]
    } else {
        crate::probe::knowledge_set()
    };
    math + code + knowledge
}

/// The probes that must not get worse where the user names none.
pub fn default_controls(target: &str) -> (r: Result<Vec<Probe>, Error>)
    ensures
        r matches Ok(probes) && crate::probe::probe_models(probes@) == other_sets(target@),
{
    let mut controls: Vec<Probe> = Vec::new();
    assert(crate::probe::probe_models(controls@) =~= Seq::<ProbeModel>::empty());
    if !crate::text::same_text(target, "math") {
        append_probes(&mut controls, crate::probe::math_probes().as_slice());
    }
    if !crate::text::same_text(target, "code") {
        append_probes(&mut controls, crate::probe::code_probes().as_slice());
    }
    if !crate::text::same_text(target, "knowledge") {
        append_probes(&mut controls, crate::probe::knowledge_probes().as_slice());
    }
    proof {
        reveal_strlit("math");
        reveal_strlit("code");
        assert("math"@[0] == 'm');
        assert("code"@[0] == 'c');
        assert(crate::probe::probe_models(controls@) =~= other_sets(target@));
        assert(crate::probe::probe_models(controls@).len() == controls@.len());
    }
    if controls.len() == 0 {
        return Err(Error::EmptyProbeSet);
    }
    Ok(controls)
}

/// The projections of the names, or the complaint about the first name that is not
/// known.
pub open spec fn named_projections(names: Seq<String>, shown: nat) -> Result<
    Seq<Projection>,
    ErrorModel,
>
    decreases shown,
{
    if shown == 0 {
        Ok(seq![])
    } else {
        match named_projections(names, (shown - 1) as nat) {
            Err(error) => Err(error),
            Ok(before) => match Projection::named(names[shown - 1]@) {
                Some(projection) => Ok(before.push(projection)),
                None => Err(ErrorModel::InvalidProjection(names[shown - 1]@)),
            },
        }
    }
}

pub proof fn lemma_unknown_name_stays(names: Seq<String>, shown: nat, all: nat)
    requires
        shown <= all,
        named_projections(names, shown) is Err,
    ensures
        named_projections(names, all) == named_projections(names, shown),
    decreases all,
{
    if shown < all {
        lemma_unknown_name_stays(names, shown, (all - 1) as nat);
    }
}

/// Reads the names of projections.
pub fn parse_projections(names: &[String]) -> (r: Result<Vec<Projection>, Error>)
    ensures
        crate::backend::list_answer(r) == named_projections(names@, names@.len()),
{
    let mut out: Vec<Projection> = Vec::new();
    let mut next: usize = 0;
    while next < names.len()
        invariant
            next <= names@.len(),
            named_projections(names@, next as nat) == Ok::<Seq<Projection>, ErrorModel>(out@),
        decreases names@.len() - next,
    {
        match Projection::parse(names[next].as_str()) {
            Err(error) => {
                proof {
                    lemma_unknown_name_stays(names@, (next + 1) as nat, names@.len());
                }
                return Err(error);
            },
            Ok(projection) => {
                out.push(projection);
            },
        }
        next = next + 1;
    }
    Ok(out)
}

/// The layers to search: those that the user names, or a spread over the model.
pub fn chosen_layers(layers: Option<Vec<usize>>, layer_count: usize) -> (r: Vec<usize>)
    ensures
        r@ == match layers {
            Some(named) => named@,
            None => crate::search::layers::default_layers(layer_count as nat),
        },
{
    match layers {
        Some(named) => named,
        None => crate::search::layers::default_search_layers(layer_count),
    }
}

/// `regex::Regex`, a compiled regular expression.
#[verifier::external_type_specification]
#[verifier::external_body]
pub struct ExRegex(regex::Regex);

/// A pattern from which `regex::Regex::new` makes the regular expression. Of one that
/// came out of `regex::Regex::new` it is the pattern that was given.
pub uninterp spec fn regex_source(regex: regex::Regex) -> Seq<char>;

/// How many groups the regular expression of a pattern captures, the whole match
/// among them.
pub uninterp spec fn regex_groups(pattern: Seq<char>) -> nat;

/// `regex::Regex::new` may refuse the pattern with these words. There may be others that
/// it refuses the pattern with on another machine, or it may accept it there.
pub uninterp spec fn regex_refuses(pattern: Seq<char>, message: Seq<char>) -> bool;

/// `regex::Regex::new`, with its error in words. A regular expression that comes out
/// is that of the pattern, and an error is one that the pattern may be refused with.
/// Which of the two comes is left open: the limit on the compiled size makes it depend
/// on the machine.
#[verifier::external_body]
fn new_regex(pattern: &str) -> (r: Result<regex::Regex, String>)
    ensures
        r matches Ok(regex) ==> regex_source(regex) == pattern@,
        r matches Err(message) ==> regex_refuses(pattern@, message@),
{
    regex::Regex::new(pattern).map_err(|error| error.to_string())
}

/// `regex::Regex::captures_len`: the number of groups of the pattern. The whole match
/// is always one.
#[verifier::external_body]
fn captures_len(regex: &regex::Regex) -> (r: usize)
    ensures
        r == regex_groups(regex_source(*regex)),
        r >= 1,
{
    regex.captures_len()
}

/// The complaint about a pattern that cannot be compiled, with the compiler's own
/// words. `quoted` is the pattern as it is shown.
pub fn invalid_regex(quoted: &str, message: &str) -> (r: Error)
    ensures
        r@ == ErrorModel::InvalidSearch("invalid regex "@ + quoted@ + ": "@ + message@),
{
    let mut text: String = "invalid regex ".to_owned();
    text.append(quoted);
    text.append(": ");
    text.append(message);
    Error::InvalidSearch(text)
}

/// Refuses a pattern with no group besides the whole match.
pub fn require_group(pattern: &str, groups: usize) -> (r: Result<(), Error>)
    ensures
        if groups < 2 {
            r matches Err(e) && e@ == ErrorModel::MissingRegexCapture(pattern@)
        } else {
            r is Ok
        },
{
    if groups < 2 {
        return Err(Error::MissingRegexCapture(pattern.to_owned()));
    }
    Ok(())
}

/// The complaint about a pattern that cannot be compiled.
pub open spec fn regex_complaint(pattern: Seq<char>, message: Seq<char>) -> ErrorModel {
    ErrorModel::InvalidSearch("invalid regex "@ + debug_text(pattern) + ": "@ + message)
}

/// Settles what comes of compiling a pattern: a regular expression is accepted exactly
/// where it has a group besides the whole match.
pub fn accept_regex(pattern: &str, compiled: Result<regex::Regex, String>) -> (r: Result<
    regex::Regex,
    Error,
>)
    ensures
        match compiled {
            Err(message) => r matches Err(e) && e@ == regex_complaint(pattern@, message@),
            Ok(regex) => if regex_groups(regex_source(regex)) < 2 {
                r matches Err(e) && e@ == ErrorModel::MissingRegexCapture(pattern@)
            } else {
                r == Ok::<regex::Regex, Error>(regex)
            },
        },
{
    let regex: regex::Regex = match compiled {
        Err(message) => {
            return Err(invalid_regex(quoted(pattern).as_str(), message.as_str()));
        },
        Ok(regex) => regex,
    };
    if let Err(error) = require_group(pattern, captures_len(&regex)) {
        return Err(error);
    }
    Ok(regex)
}

/// Compiles a pattern that captures something. A pattern that is compiled is accepted
/// exactly where it has a group besides the whole match; any other is refused with the
/// compiler's own words.
pub fn compile_capture_regex(pattern: &str) -> (r: Result<regex::Regex, Error>)
    ensures
        match r {
            Ok(regex) => regex_source(regex) == pattern@ && regex_groups(pattern@) >= 2,
            Err(error) => {
                ||| error@ == ErrorModel::MissingRegexCapture(pattern@) && regex_groups(pattern@)
                    < 2
                ||| exists|message: Seq<char>| #[trigger]
                    regex_refuses(pattern@, message) && error@ == regex_complaint(
                        pattern@,
                        message,
                    )
            },
        },
{
    accept_regex(pattern, new_regex(pattern))
}

/// A tensor of the map in words.
pub open spec fn tensor_words(tensor: TensorModel) -> Seq<char> {
    "  "@ + crate::architecture::coordinate_text(tensor.layer, tensor.projection) + " -> "@
        + tensor.name + " rows="@ + crate::text::decimal(tensor.rows) + " width="@
        + crate::text::decimal(tensor.width) + " backend="@ + tensor.backend
}

/// The line that is printed of a tensor.
pub fn tensor_line(tensor: &TensorInfo) -> (r: String)
    ensures
        r@ == tensor_words(tensor@),
{
    let mut out: String = "  ".to_owned();
    out.append(tensor.coordinate().as_str());
    out.append(" -> ");
    out.append(tensor.name.as_str());
    out.append(" rows=");
    crate::text::push_decimal(&mut out, tensor.rows as u64);
    out.append(" width=");
    crate::text::push_decimal(&mut out, tensor.width as u64);
    out.append(" backend=");
    out.append(tensor.backend.as_str());
    out
}

/// A patch, and what a model says of it where there is one.
#[derive(Debug)]
pub struct PatchInfo {
    pub patch: Patch,
    pub live_model_validated: bool,
    pub logical_bits_flipped: Option<u128>,
    pub architecture_signature: Option<String>,
}

/// Holds a patch against a model, where there is one.
pub fn patch_info(
    patch: Patch,
    architecture: Option<&ArchitectureMap>,
    validation: PatchValidation,
) -> (r: Result<PatchInfo, Error>)
    ensures
        match architecture {
            None => {
                &&& r matches Ok(info)
                &&& info.patch@ == patch@
                &&& !info.live_model_validated
                &&& info.logical_bits_flipped is None
                &&& info.architecture_signature is None
            },
            Some(map) => match patch@.fault(map@, validation) {
                Some(error) => r matches Err(e) && e@ == error,
                None => {
                    &&& r matches Ok(info)
                    &&& info.patch@ == patch@.measured(map@)
                    &&& info.live_model_validated
                    &&& info.logical_bits_flipped matches Some(bits) && bits
                        == crate::patch::bits_in(map@, patch@.flips)
                    &&& info.architecture_signature matches Some(signature) && signature@
                        == map@.signature
                },
            },
        },
{
    match architecture {
        None => Ok(
            PatchInfo {
                patch,
                live_model_validated: false,
                logical_bits_flipped: None,
                architecture_signature: None,
            },
        ),
        Some(map) => {
            let validated: ValidatedPatch = match patch.validate(map, validation) {
                Err(error) => {
                    return Err(error);
                },
                Ok(validated) => validated,
            };
            let bits: u128 = validated.logical_bits_flipped();
            Ok(
                PatchInfo {
                    patch: validated.into_patch(),
                    live_model_validated: true,
                    logical_bits_flipped: Some(bits),
                    architecture_signature: Some(map.signature().to_owned()),
                },
            )
        },
    }
}

} // verus!
