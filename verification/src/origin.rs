//! What a download is — where it comes from and which base family it is made
//! for — carried through the queue so the import can record it on the model.

use vstd::prelude::*;

use crate::error::CoreError;
use crate::family::{civitai_family, family_for_civitai, family_for_hf, hf_family, FamilySource};
use crate::text::{debug_quoted, debug_string, lower, str_eq, to_ascii_lower, trim, trim_str};

verus! {

/// Recorded on the imported model. The default is "nothing known".
#[derive(Debug, Clone, PartialEq, Eq)]
pub struct DownloadOrigin {
    /// `civitai:<modelId>/<versionId>` or `hf:<repo>@<rev>`.
    pub origin: Option<String>,
    /// Registry id the source's base label maps to; `None` when the label is
    /// missing or unknown — never guessed.
    pub base_family: Option<&'static str>,
    pub family_source: Option<FamilySource>,
}

impl Default for DownloadOrigin {
    fn default() -> (r: Self)
        ensures
            r.origin is None,
            r.base_family is None,
            r.family_source is None,
    {
        DownloadOrigin { origin: None, base_family: None, family_source: None }
    }
}

/// The source metadata a client sends with a download.
#[derive(Debug, Clone, PartialEq, Eq)]
pub struct DownloadOriginDto {
    /// `civitai` | `hf`.
    pub source: String,
    /// Civitai's numeric model id, or the Hugging Face `owner/repo`.
    pub model_id: String,
    /// Civitai's numeric version id, or the Hugging Face revision.
    pub version: Option<String>,
    /// Civitai's `baseModel` label, or Hugging Face's `base_model` id.
    pub base_model: Option<String>,
}

pub open spec fn numeric(s: Seq<char>) -> bool {
    s.len() > 0 && forall|i: int| 0 <= i < s.len() ==> crate::text::is_digit(#[trigger] s[i])
}

pub open spec fn ascii_alnum(c: char) -> bool {
    ('0' <= c && c <= '9') || ('a' <= c && c <= 'z') || ('A' <= c && c <= 'Z')
}

pub open spec fn repo_part(s: Seq<char>) -> bool {
    s.len() > 0 && forall|i: int|
        0 <= i < s.len() ==> (ascii_alnum(#[trigger] s[i]) || s[i] == '-' || s[i] == '_' || s[i]
            == '.')
}

/// `owner/repo` with the characters the Hub allows.
pub open spec fn hf_repo(s: Seq<char>) -> bool {
    exists|k: int|
        0 <= k < s.len() && #[trigger] s[k] == '/' && (forall|j: int| 0 <= j < k ==> s[j] != '/')
            && repo_part(s.take(k)) && repo_part(s.skip(k + 1))
}

pub open spec fn has_dotdot(s: Seq<char>) -> bool {
    exists|i: int| 0 <= i < s.len() - 1 && #[trigger] s[i] == '.' && s[i + 1] == '.'
}

pub open spec fn hf_revision(s: Seq<char>) -> bool {
    &&& s.len() > 0
    &&& !has_dotdot(s)
    &&& forall|i: int|
        0 <= i < s.len() ==> (ascii_alnum(#[trigger] s[i]) || s[i] == '-' || s[i] == '_' || s[i]
            == '.' || s[i] == '/')
}

/// An optional text, trimmed; blank counts as absent.
pub open spec fn given_text(s: Option<Seq<char>>) -> Option<Seq<char>> {
    match s {
        Some(t) => if trim(t).len() > 0 {
            Some(trim(t))
        } else {
            None
        },
        None => None,
    }
}

pub open spec fn opt_view(s: Option<&str>) -> Option<Seq<char>> {
    match s {
        Some(t) => Some(t@),
        None => None,
    }
}

pub open spec fn err_text(msg: Seq<char>) -> Seq<char> {
    "download origin: "@ + msg
}

/// The result of [`DownloadOrigin::civitai`]: the origin text and the
/// family, or the error message.
pub open spec fn civitai_origin(
    model_id: Seq<char>,
    version: Option<Seq<char>>,
    base: Option<Seq<char>>,
) -> Result<(Seq<char>, Option<Seq<char>>), Seq<char>> {
    let m = trim(model_id);
    let fam = match given_text(base) {
        Some(b) => civitai_family(b),
        None => None,
    };
    if !numeric(m) {
        Err(err_text(debug_quoted(m) + " is not a Civitai model id"@))
    } else {
        match given_text(version) {
            Some(v) => if numeric(v) {
                Ok(("civitai:"@ + m + "/"@ + v, fam))
            } else {
                Err(err_text(debug_quoted(v) + " is not a Civitai version id"@))
            },
            None => Ok(("civitai:"@ + m, fam)),
        }
    }
}

/// The result of [`DownloadOrigin::hf`].
pub open spec fn hf_origin(
    repo: Seq<char>,
    revision: Option<Seq<char>>,
    base: Option<Seq<char>>,
) -> Result<(Seq<char>, Option<Seq<char>>), Seq<char>> {
    let r = trim(repo);
    let rev = match given_text(revision) {
        Some(v) => v,
        None => "main"@,
    };
    let fam = match given_text(base) {
        Some(b) => hf_family(b),
        None => None,
    };
    if !hf_repo(r) {
        Err(err_text(debug_quoted(r) + " is not a Hugging Face owner/repo"@))
    } else if !hf_revision(rev) {
        Err(err_text(debug_quoted(rev) + " is not a revision"@))
    } else {
        Ok(("hf:"@ + r + "@"@ + rev, fam))
    }
}

/// `r` is what `expected` says, recorded by `source` when a family is known.
pub open spec fn origin_matches(
    r: Result<DownloadOrigin, CoreError>,
    expected: Result<(Seq<char>, Option<Seq<char>>), Seq<char>>,
    source: FamilySource,
) -> bool {
    match expected {
        Ok((o, fam)) => r matches Ok(d) && d.origin matches Some(t) && t@ == o && match fam {
            Some(f) => d.base_family matches Some(b) && b@ == f && d.family_source == Some(source),
            None => d.base_family is None && d.family_source is None,
        },
        Err(msg) => r matches Err(e) && e.config_message() == Some(msg),
    }
}

fn is_numeric(s: &str) -> (r: bool)
    ensures
        r == numeric(s@),
{
    let n = s.unicode_len();
    if n == 0 {
        return false;
    }
    let mut i: usize = 0;
    while i < n
        invariant
            n == s@.len(),
            i <= n,
            forall|k: int| 0 <= k < i ==> crate::text::is_digit(#[trigger] s@[k]),
        decreases n - i,
    {
        let c = s.get_char(i);
        if !('0' <= c && c <= '9') {
            return false;
        }
        i = i + 1;
    }
    true
}

fn is_alnum(c: char) -> (r: bool)
    ensures
        r == ascii_alnum(c),
{
    ('0' <= c && c <= '9') || ('a' <= c && c <= 'z') || ('A' <= c && c <= 'Z')
}

/// Whether characters `[from, to)` of `s` form a repo part.
fn is_repo_part(s: &str, from: usize, to: usize) -> (r: bool)
    requires
        from <= to <= s@.len(),
    ensures
        r == repo_part(s@.subrange(from as int, to as int)),
{
    if from == to {
        return false;
    }
    let mut i = from;
    while i < to
        invariant
            from <= i <= to <= s@.len(),
            forall|k: int|
                from <= k < i ==> (ascii_alnum(#[trigger] s@[k]) || s@[k] == '-' || s@[k] == '_'
                    || s@[k] == '.'),
        decreases to - i,
    {
        let c = s.get_char(i);
        if !(is_alnum(c) || c == '-' || c == '_' || c == '.') {
            let ghost t = s@.subrange(from as int, to as int);
            assert(t[i - from] == c);
            return false;
        }
        i = i + 1;
    }
    let ghost t = s@.subrange(from as int, to as int);
    assert forall|k: int| 0 <= k < t.len() implies (ascii_alnum(#[trigger] t[k]) || t[k] == '-'
        || t[k] == '_' || t[k] == '.') by {
        assert(t[k] == s@[k + from]);
    }
    true
}

fn is_hf_repo(s: &str) -> (r: bool)
    ensures
        r == hf_repo(s@),
{
    let n = s.unicode_len();
    let mut k: usize = 0;
    while k < n && s.get_char(k) != '/'
        invariant
            n == s@.len(),
            k <= n,
            forall|j: int| 0 <= j < k ==> s@[j] != '/',
        decreases n - k,
    {
        k = k + 1;
    }
    if k == n {
        assert(!hf_repo(s@)) by {
            if hf_repo(s@) {
                let w = choose|w: int|
                    0 <= w < s@.len() && #[trigger] s@[w] == '/' && (forall|j: int|
                        0 <= j < w ==> s@[j] != '/') && repo_part(s@.take(w)) && repo_part(
                        s@.skip(w + 1),
                    );
                assert(s@[w] != '/');
            }
        }
        return false;
    }
    let ok = is_repo_part(s, 0, k) && is_repo_part(s, k + 1, n);
    proof {
        assert(s@.take(k as int) =~= s@.subrange(0, k as int));
        assert(s@.skip(k + 1) =~= s@.subrange(k + 1, n as int));
        if hf_repo(s@) {
            let w = choose|w: int|
                0 <= w < s@.len() && #[trigger] s@[w] == '/' && (forall|j: int|
                    0 <= j < w ==> s@[j] != '/') && repo_part(s@.take(w)) && repo_part(
                    s@.skip(w + 1),
                );
            assert(w == k) by {
                if w < k {
                    assert(s@[w] != '/');
                }
                if w > k {
                    assert(s@[k as int] != '/');
                }
            }
        }
    }
    ok
}

fn is_hf_revision(s: &str) -> (r: bool)
    ensures
        r == hf_revision(s@),
{
    let n = s.unicode_len();
    if n == 0 {
        return false;
    }
    let mut i: usize = 0;
    while i < n
        invariant
            n == s@.len(),
            i <= n,
            forall|k: int|
                0 <= k < i ==> (ascii_alnum(#[trigger] s@[k]) || s@[k] == '-' || s@[k] == '_'
                    || s@[k] == '.' || s@[k] == '/'),
            forall|k: int| 0 <= k < i - 1 ==> !(#[trigger] s@[k] == '.' && s@[k + 1] == '.'),
        decreases n - i,
    {
        let c = s.get_char(i);
        if !(is_alnum(c) || c == '-' || c == '_' || c == '.' || c == '/') {
            return false;
        }
        if i > 0 && c == '.' && s.get_char(i - 1) == '.' {
            assert(s@[i - 1] == '.' && s@[(i - 1) + 1] == '.');
            return false;
        }
        i = i + 1;
    }
    true
}

/// An optional text, trimmed; blank counts as absent.
fn trimmed<'a>(s: Option<&'a str>) -> (r: Option<&'a str>)
    ensures
        opt_view(r) == given_text(opt_view(s)),
{
    match s {
        Some(t) => {
            let t = trim_str(t);
            if t.unicode_len() > 0 {
                Some(t)
            } else {
                None
            }
        },
        None => None,
    }
}

fn err(msg: String) -> (r: CoreError)
    ensures
        r.config_message() == Some(err_text(msg@)),
{
    let mut m = String::from_str("download origin: ");
    m.append(msg.as_str());
    CoreError::Config(m)
}

fn quoted_with(s: &str, tail: &str) -> (r: String)
    ensures
        r@ == debug_quoted(s@) + tail@,
{
    let mut m = debug_string(s);
    m.append(tail);
    m
}

fn as_opt_str(s: &Option<String>) -> (r: Option<&str>)
    ensures
        opt_view(r) == match s {
            Some(t) => Some(t@),
            None => None::<Seq<char>>,
        },
{
    match s {
        Some(t) => Some(t.as_str()),
        None => None,
    }
}

impl DownloadOrigin {
    /// A Civitai model version; `base_label` is the version's `baseModel`.
    pub fn civitai(model_id: &str, version_id: Option<&str>, base_label: Option<&str>) -> (r:
        Result<DownloadOrigin, CoreError>)
        ensures
            origin_matches(
                r,
                civitai_origin(model_id@, opt_view(version_id), opt_view(base_label)),
                FamilySource::Civitai,
            ),
    {
        let model_id = trim_str(model_id);
        if !is_numeric(model_id) {
            return Err(err(quoted_with(model_id, " is not a Civitai model id")));
        }
        let mut origin = String::from_str("civitai:");
        origin.append(model_id);
        match trimmed(version_id) {
            Some(v) => {
                if is_numeric(v) {
                    origin.append("/");
                    origin.append(v);
                } else {
                    return Err(err(quoted_with(v, " is not a Civitai version id")));
                }
            },
            None => {},
        }
        let family = match trimmed(base_label) {
            Some(b) => family_for_civitai(b),
            None => None,
        };
        let family_source = match family {
            Some(_) => Some(FamilySource::Civitai),
            None => None,
        };
        Ok(DownloadOrigin { origin: Some(origin), base_family: family, family_source })
    }

    /// A Hugging Face repo at a revision (`main` when absent); `base_model`
    /// is the repo's `base_model`, bare or in tag form.
    pub fn hf(repo: &str, revision: Option<&str>, base_model: Option<&str>) -> (r: Result<
        DownloadOrigin,
        CoreError,
    >)
        ensures
            origin_matches(
                r,
                hf_origin(repo@, opt_view(revision), opt_view(base_model)),
                FamilySource::Hf,
            ),
    {
        let repo = trim_str(repo);
        if !is_hf_repo(repo) {
            return Err(err(quoted_with(repo, " is not a Hugging Face owner/repo")));
        }
        let revision = match trimmed(revision) {
            Some(v) => v,
            None => "main",
        };
        if !is_hf_revision(revision) {
            return Err(err(quoted_with(revision, " is not a revision")));
        }
        let mut origin = String::from_str("hf:");
        origin.append(repo);
        origin.append("@");
        origin.append(revision);
        let family = match trimmed(base_model) {
            Some(b) => family_for_hf(b),
            None => None,
        };
        let family_source = match family {
            Some(_) => Some(FamilySource::Hf),
            None => None,
        };
        Ok(DownloadOrigin { origin: Some(origin), base_family: family, family_source })
    }

    /// From the API body; no body means nothing known. The source name is
    /// matched trimmed and ASCII case-insensitively.
    pub fn from_dto(dto: Option<&DownloadOriginDto>) -> (r: Result<DownloadOrigin, CoreError>)
        ensures
            dto is None ==> (r matches Ok(d) && d.origin is None && d.base_family is None
                && d.family_source is None),
            dto matches Some(d) ==> {
                let src = lower(trim(d.source@));
                let version = match d.version {
                    Some(t) => Some(t@),
                    None => None::<Seq<char>>,
                };
                let base = match d.base_model {
                    Some(t) => Some(t@),
                    None => None::<Seq<char>>,
                };
                if src == "civitai"@ {
                    origin_matches(
                        r,
                        civitai_origin(d.model_id@, version, base),
                        FamilySource::Civitai,
                    )
                } else if src == "hf"@ || src == "huggingface"@ {
                    origin_matches(r, hf_origin(d.model_id@, version, base), FamilySource::Hf)
                } else {
                    r matches Err(e) && e.config_message() == Some(
                        err_text("unknown source "@ + debug_quoted(src)),
                    )
                }
            },
    {
        let dto = match dto {
            Some(d) => d,
            None => return Ok(DownloadOrigin::default()),
        };
        let src = to_ascii_lower(trim_str(dto.source.as_str()));
        if str_eq(src.as_str(), "civitai") {
            DownloadOrigin::civitai(
                dto.model_id.as_str(),
                as_opt_str(&dto.version),
                as_opt_str(&dto.base_model),
            )
        } else if str_eq(src.as_str(), "hf") || str_eq(src.as_str(), "huggingface") {
            DownloadOrigin::hf(
                dto.model_id.as_str(),
                as_opt_str(&dto.version),
                as_opt_str(&dto.base_model),
            )
        } else {
            let mut m = String::from_str("unknown source ");
            m.append(debug_string(src.as_str()).as_str());
            Err(err(m))
        }
    }
}

/// A Hugging Face name the Hub allows is accepted: an owner and a repo,
/// both non-empty, split by the one `/`, each made only of ASCII letters
/// and digits, `-`, `_` and `.` (dots included, as in `Qwen2.5`). With no
/// revision given, the origin is the repo at `main`.
pub proof fn law_hub_names_are_accepted(repo: Seq<char>, k: int, base: Option<Seq<char>>)
    requires
        0 < k < trim(repo).len() - 1,
        trim(repo)[k] == '/',
        forall|j: int|
            0 <= j < trim(repo).len() && j != k ==> {
                let c = #[trigger] trim(repo)[j];
                ('0' <= c && c <= '9') || ('a' <= c && c <= 'z') || ('A' <= c && c <= 'Z') || c == '-' || c == '_'
                    || c == '.'
            },
    ensures
        hf_origin(repo, None, base) matches Ok((o, _)) && o == "hf:"@ + trim(repo) + "@main"@,
{
    reveal_strlit("main");
    let r = trim(repo);
    let (owner, name) = (r.take(k), r.skip(k + 1));
    assert forall|i: int| 0 <= i < owner.len() implies (ascii_alnum(#[trigger] owner[i]) || owner[i] == '-'
        || owner[i] == '_' || owner[i] == '.') by {
        assert(owner[i] == r[i]);
    }
    assert forall|i: int| 0 <= i < name.len() implies (ascii_alnum(#[trigger] name[i]) || name[i] == '-'
        || name[i] == '_' || name[i] == '.') by {
        assert(name[i] == r[k + 1 + i]);
    }
    assert forall|j: int| 0 <= j < k implies r[j] != '/' by {
        let c = r[j];
        assert(('0' <= c && c <= '9') || ('a' <= c && c <= 'z') || ('A' <= c && c <= 'Z') || c == '-' || c == '_'
            || c == '.');
    }
    assert(repo_part(owner));
    assert(repo_part(name));
    assert(hf_repo(r));
    let main = "main"@;
    assert(!has_dotdot(main));
    assert(hf_revision(main));
    reveal_strlit("@");
    reveal_strlit("@main");
    assert("hf:"@ + r + "@"@ + main =~= "hf:"@ + r + "@main"@);
}

/// Only such names are accepted: an accepted repo, trimmed, is an owner
/// and a repo, both non-empty, around one `/`, every other character an
/// ASCII letter or digit, `-`, `_` or `.`.
pub proof fn law_hf_accepts_only_hub_names(repo: Seq<char>, revision: Option<Seq<char>>, base: Option<Seq<char>>)
    ensures
        hf_origin(repo, revision, base) is Ok ==> exists|k: int|
            0 < k < trim(repo).len() - 1 && #[trigger] trim(repo)[k] == '/' && forall|j: int|
                0 <= j < trim(repo).len() && j != k ==> {
                    let c = #[trigger] trim(repo)[j];
                    ('0' <= c && c <= '9') || ('a' <= c && c <= 'z') || ('A' <= c && c <= 'Z') || c == '-' || c
                        == '_' || c == '.'
                },
{
    let r = trim(repo);
    if hf_origin(repo, revision, base) is Ok {
        assert(hf_repo(r));
        let k = choose|k: int|
            0 <= k < r.len() && #[trigger] r[k] == '/' && (forall|j: int| 0 <= j < k ==> r[j] != '/') && repo_part(
                r.take(k),
            ) && repo_part(r.skip(k + 1));
        assert forall|j: int| 0 <= j < r.len() && j != k implies {
            let c = #[trigger] r[j];
            ('0' <= c && c <= '9') || ('a' <= c && c <= 'z') || ('A' <= c && c <= 'Z') || c == '-' || c == '_' || c
                == '.'
        } by {
            if j < k {
                assert(r.take(k)[j] == r[j]);
            } else {
                assert(r.skip(k + 1)[j - k - 1] == r[j]);
            }
        }
        assert(r.take(k).len() > 0 && r.skip(k + 1).len() > 0);
    }
}

} // verus!
