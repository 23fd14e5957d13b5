//! Base families of image and video models (what a LoRA was trained for),
//! how a source's base label maps onto one, and who decided it.

use vstd::prelude::*;

use crate::text::{eq_ci, eq_ignore_case, str_eq, trim, trim_str};

verus! {

/// Who decided a model's base family.
#[derive(Debug, Clone, Copy, PartialEq, Eq)]
pub enum FamilySource {
    /// Civitai's `baseModel` label.
    Civitai,
    /// Hugging Face's `base_model`.
    Hf,
    /// The curated catalog.
    Catalog,
    /// The file's own header.
    Header,
    /// The file name.
    Name,
    /// The user's own choice — only ever replaced by another user choice.
    User,
}

pub open spec fn family_source_name(s: FamilySource) -> Seq<char> {
    match s {
        FamilySource::Civitai => "civitai"@,
        FamilySource::Hf => "hf"@,
        FamilySource::Catalog => "catalog"@,
        FamilySource::Header => "header"@,
        FamilySource::Name => "name"@,
        FamilySource::User => "user"@,
    }
}

impl FamilySource {
    pub fn as_str(self) -> (r: &'static str)
        ensures
            r@ == family_source_name(self),
    {
        match self {
            FamilySource::Civitai => "civitai",
            FamilySource::Hf => "hf",
            FamilySource::Catalog => "catalog",
            FamilySource::Header => "header",
            FamilySource::Name => "name",
            FamilySource::User => "user",
        }
    }
}

/// The registry ids of the known base families.
pub open spec fn is_family_id(id: Seq<char>) -> bool {
    ||| id == "sd15"@
    ||| id == "sdxl"@
    ||| id == "pony"@
    ||| id == "illustrious"@
    ||| id == "noobai"@
    ||| id == "flux1"@
    ||| id == "flux2-klein-4b"@
    ||| id == "wan"@
    ||| id == "ltx"@
}

/// The registry entry of `id`, or `None` for an unknown family.
pub fn family_by_id(id: &str) -> (r: Option<&'static str>)
    ensures
        r matches Some(f) ==> f@ == id@,
        r is Some <==> is_family_id(id@),
{
    if str_eq(id, "sd15") {
        Some("sd15")
    } else if str_eq(id, "sdxl") {
        Some("sdxl")
    } else if str_eq(id, "pony") {
        Some("pony")
    } else if str_eq(id, "illustrious") {
        Some("illustrious")
    } else if str_eq(id, "noobai") {
        Some("noobai")
    } else if str_eq(id, "flux1") {
        Some("flux1")
    } else if str_eq(id, "flux2-klein-4b") {
        Some("flux2-klein-4b")
    } else if str_eq(id, "wan") {
        Some("wan")
    } else if str_eq(id, "ltx") {
        Some("ltx")
    } else {
        None
    }
}

/// The family a Civitai `baseModel` label names (any ASCII case,
/// surrounding whitespace ignored); `None` for a label the registry does not
/// know — never guessed.
pub open spec fn civitai_family(label: Seq<char>) -> Option<Seq<char>> {
    let l = trim(label);
    if eq_ignore_case(l, "SD 1.5"@) {
        Some("sd15"@)
    } else if eq_ignore_case(l, "SDXL 1.0"@) {
        Some("sdxl"@)
    } else if eq_ignore_case(l, "Pony"@) {
        Some("pony"@)
    } else if eq_ignore_case(l, "Illustrious"@) {
        Some("illustrious"@)
    } else if eq_ignore_case(l, "NoobAI"@) {
        Some("noobai"@)
    } else if eq_ignore_case(l, "Flux.1 D"@) || eq_ignore_case(l, "Flux.1 S"@) {
        Some("flux1"@)
    } else if eq_ignore_case(l, "Flux.2 Klein 4B"@) {
        Some("flux2-klein-4b"@)
    } else if eq_ignore_case(l, "Wan Video"@) {
        Some("wan"@)
    } else if eq_ignore_case(l, "LTXV"@) {
        Some("ltx"@)
    } else {
        None
    }
}

/// Map a Civitai `baseModel` label onto a family.
pub fn family_for_civitai(label: &str) -> (r: Option<&'static str>)
    ensures
        r matches Some(f) ==> civitai_family(label@) == Some(f@),
        r is None ==> civitai_family(label@) is None,
{
    let l = trim_str(label);
    if eq_ci(l, "SD 1.5") {
        Some("sd15")
    } else if eq_ci(l, "SDXL 1.0") {
        Some("sdxl")
    } else if eq_ci(l, "Pony") {
        Some("pony")
    } else if eq_ci(l, "Illustrious") {
        Some("illustrious")
    } else if eq_ci(l, "NoobAI") {
        Some("noobai")
    } else if eq_ci(l, "Flux.1 D") || eq_ci(l, "Flux.1 S") {
        Some("flux1")
    } else if eq_ci(l, "Flux.2 Klein 4B") {
        Some("flux2-klein-4b")
    } else if eq_ci(l, "Wan Video") {
        Some("wan")
    } else if eq_ci(l, "LTXV") {
        Some("ltx")
    } else {
        None
    }
}

/// A Hugging Face `base_model` without its tag form: `base_model:` and an
/// optional relation (`adapter:`, `finetune:`, `merge:`, `quantized:`)
/// dropped.
pub open spec fn hf_base_id(s: Seq<char>) -> Seq<char> {
    let t = trim(s);
    let body = if t.len() >= 11 && eq_ignore_case(t.take(11), "base_model:"@) {
        t.skip(11)
    } else {
        t
    };
    if body.len() >= 8 && eq_ignore_case(body.take(8), "adapter:"@) {
        body.skip(8)
    } else if body.len() >= 9 && eq_ignore_case(body.take(9), "finetune:"@) {
        body.skip(9)
    } else if body.len() >= 6 && eq_ignore_case(body.take(6), "merge:"@) {
        body.skip(6)
    } else if body.len() >= 10 && eq_ignore_case(body.take(10), "quantized:"@) {
        body.skip(10)
    } else {
        body
    }
}

/// The family a Hugging Face `base_model` (bare or in tag form) names.
pub open spec fn hf_family(base: Seq<char>) -> Option<Seq<char>> {
    let id = hf_base_id(base);
    if eq_ignore_case(id, "runwayml/stable-diffusion-v1-5"@) || eq_ignore_case(
        id,
        "stable-diffusion-v1-5/stable-diffusion-v1-5"@,
    ) {
        Some("sd15"@)
    } else if eq_ignore_case(id, "stabilityai/stable-diffusion-xl-base-1.0"@) {
        Some("sdxl"@)
    } else if eq_ignore_case(id, "black-forest-labs/FLUX.1-dev"@) || eq_ignore_case(
        id,
        "black-forest-labs/FLUX.1-schnell"@,
    ) {
        Some("flux1"@)
    } else if eq_ignore_case(id, "black-forest-labs/FLUX.2-klein-4B"@) {
        Some("flux2-klein-4b"@)
    } else if eq_ignore_case(id, "Lightricks/LTX-Video"@) {
        Some("ltx"@)
    } else {
        None
    }
}

/// Whether `s` starts with `prefix`, ASCII case ignored; and the rest.
fn strip_prefix_ci<'a>(s: &'a str, prefix: &str) -> (r: &'a str)
    ensures
        s@.len() >= prefix@.len() && eq_ignore_case(s@.take(prefix@.len() as int), prefix@) ==> r@
            == s@.skip(prefix@.len() as int),
        !(s@.len() >= prefix@.len() && eq_ignore_case(s@.take(prefix@.len() as int), prefix@))
            ==> r@ == s@,
{
    let n = s.unicode_len();
    let k = prefix.unicode_len();
    if n < k {
        return s;
    }
    let head = s.substring_char(0, k);
    if eq_ci(head, prefix) {
        s.substring_char(k, n)
    } else {
        assert(s@.subrange(0, n as int) =~= s@);
        s.substring_char(0, n)
    }
}

/// Map a Hugging Face `base_model` onto a family.
pub fn family_for_hf(base_model: &str) -> (r: Option<&'static str>)
    ensures
        r matches Some(f) ==> hf_family(base_model@) == Some(f@),
        r is None ==> hf_family(base_model@) is None,
{
    let t = trim_str(base_model);
    let body = strip_prefix_ci(t, "base_model:");
    let a = strip_prefix_ci(body, "adapter:");
    let id = if a.unicode_len() != body.unicode_len() {
        a
    } else {
        let f = strip_prefix_ci(body, "finetune:");
        if f.unicode_len() != body.unicode_len() {
            f
        } else {
            let m = strip_prefix_ci(body, "merge:");
            if m.unicode_len() != body.unicode_len() {
                m
            } else {
                strip_prefix_ci(body, "quantized:")
            }
        }
    };
    proof {
        reveal_strlit("base_model:");
        reveal_strlit("adapter:");
        reveal_strlit("finetune:");
        reveal_strlit("merge:");
        reveal_strlit("quantized:");
        assert(id@ == hf_base_id(base_model@));
    }
    if eq_ci(id, "runwayml/stable-diffusion-v1-5") || eq_ci(
        id,
        "stable-diffusion-v1-5/stable-diffusion-v1-5",
    ) {
        Some("sd15")
    } else if eq_ci(id, "stabilityai/stable-diffusion-xl-base-1.0") {
        Some("sdxl")
    } else if eq_ci(id, "black-forest-labs/FLUX.1-dev") || eq_ci(
        id,
        "black-forest-labs/FLUX.1-schnell",
    ) {
        Some("flux1")
    } else if eq_ci(id, "black-forest-labs/FLUX.2-klein-4B") {
        Some("flux2-klein-4b")
    } else if eq_ci(id, "Lightricks/LTX-Video") {
        Some("ltx")
    } else {
        None
    }
}

} // verus!
