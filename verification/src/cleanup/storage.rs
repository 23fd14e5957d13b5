//! The storage overview: what the model store holds, by kind and by model,
//! how much room is left on its volume, duplicate weights, and models that
//! have gone unused. Only reports — deleting a model is a confirmed user
//! action elsewhere.

use vstd::prelude::*;

use crate::arith::sat;
use crate::cleanup::duplicates::{biggest_waste_first, duplicates, group_of, members, DuplicateGroup};
use crate::cleanup::outputs::{DAY_NANOS, EARLIEST_NANOS, MAX_DURATION_DAYS};
use crate::db::models::{strictly_ascending, Model};
use crate::order::{
    ints, lemma_lex_irreflexive, lemma_lex_total, lemma_lex_transitive, lex_lt, num_before,
    order_by_num, sorted_perm, str_lt, wide,
};
use crate::text::{copy_strings, str_eq, views};
use crate::winpath::{component_below, first_below};

verus! {

/// Default "not used in a while" threshold for the unused report, in days.
pub const DEFAULT_STALE_DAYS: i64 = 45;

/// Free space kept as a safety margin when gating a download (bytes).
pub const DOWNLOAD_FREE_MARGIN_BYTES: u64 = 2 * 1024 * 1024 * 1024;

/// The whole picture for the storage panel.
#[derive(Debug, Clone)]
pub struct StorageReport {
    /// Sum of the model file sizes the library knows about.
    pub store_bytes: u64,
    /// Free / total bytes on the store's volume; `None` when it could not
    /// be resolved.
    pub volume_free_bytes: Option<u64>,
    pub volume_total_bytes: Option<u64>,
    pub by_kind: Vec<KindUsage>,
    pub models: Vec<ModelDisk>,
    /// SHA-256 groups with more than one member.
    pub duplicates: Vec<DuplicateGroup>,
    /// Model ids never used, or not used within `stale_days`.
    pub unused: Vec<String>,
    pub stale_days: i64,
}

/// The models of one kind (the top store folder, or `other`).
#[derive(Debug, Clone)]
pub struct KindUsage {
    pub kind: String,
    pub bytes: u64,
    pub count: u32,
}

/// One model's footprint.
#[derive(Debug, Clone)]
pub struct ModelDisk {
    pub id: String,
    pub name: String,
    pub kind: String,
    pub size_bytes: u64,
    pub last_used_at: Option<String>,
    pub use_count: i64,
    pub roles: Vec<String>,
    /// The model's file (or folder) is actually on disk.
    pub file_present: bool,
}

/// The top store folder a file sits in, else `other`.
pub open spec fn kind_text(file: Seq<char>, store_root: Seq<char>) -> Seq<char> {
    match first_below(file, store_root) {
        Some(c) => c,
        None => "other"@,
    }
}

/// The top store folder a model's file sits in (`llm` / `image` /
/// `video`), else `"other"` — the file is outside the store.
pub fn kind_of(model: &Model, store_root: &str) -> (r: String)
    ensures
        r@ == kind_text(model.file_path@, store_root@),
{
    match component_below(model.file_path.as_str(), store_root) {
        Some(c) => c,
        None => String::from_str("other"),
    }
}

/// Never used, or last used before `cutoff` (RFC 3339 text, which sorts
/// by time).
pub open spec fn is_unused(m: Model, cutoff: Seq<char>) -> bool {
    match m.last_used_at {
        None => true,
        Some(last) => lex_lt(last@, cutoff),
    }
}

/// The ids of the unused models, in listing order.
pub open spec fn unused_of(ms: Seq<Model>, cutoff: Seq<char>) -> Seq<Seq<char>>
    decreases ms.len(),
{
    if ms.len() == 0 {
        Seq::empty()
    } else if is_unused(ms.last(), cutoff) {
        unused_of(ms.drop_last(), cutoff).push(ms.last().id@)
    } else {
        unused_of(ms.drop_last(), cutoff)
    }
}

/// A model counts as stale at `cutoff` by its last use alone: never used,
/// or last used at a time whose text sorts before the cutoff.
pub open spec fn stale_at(cutoff: Seq<char>) -> spec_fn(Model) -> bool {
    |m: Model| m.last_used_at is None || (m.last_used_at matches Some(t) && lex_lt(t@, cutoff))
}

/// The unused models are exactly the models never used or last used
/// before the cutoff, in listing order, by their ids: how often a model
/// was used plays no part.
pub proof fn law_unused_are_the_never_or_long_unused(ms: Seq<Model>, cutoff: Seq<char>)
    ensures
        unused_of(ms, cutoff) == ms.filter(stale_at(cutoff)).map_values(|m: Model| m.id@),
    decreases ms.len(),
{
    reveal(Seq::filter);
    if ms.len() > 0 {
        law_unused_are_the_never_or_long_unused(ms.drop_last(), cutoff);
        let f = ms.drop_last().filter(stale_at(cutoff));
        assert(f.push(ms.last()).map_values(|m: Model| m.id@) =~= f.map_values(|m: Model| m.id@).push(ms.last().id@));
    }
}

/// Ids of models never used, or whose `last_used_at` is before
/// `cutoff_iso`.
pub fn unused_ids(models: &[Model], cutoff_iso: &str) -> (r: Vec<String>)
    ensures
        views(r@) == unused_of(models@, cutoff_iso@),
        views(r@) == models@.filter(stale_at(cutoff_iso@)).map_values(|m: Model| m.id@),
{
    proof {
        law_unused_are_the_never_or_long_unused(models@, cutoff_iso@);
    }
    let mut out: Vec<String> = Vec::new();
    let mut i: usize = 0;
    assert(models@.take(0) =~= Seq::<Model>::empty());
    while i < models.len()
        invariant
            i <= models@.len(),
            views(out@) == unused_of(models@.take(i as int), cutoff_iso@),
        decreases models@.len() - i,
    {
        let m = &models[i];
        let unused = match &m.last_used_at {
            None => true,
            Some(last) => str_lt(last.as_str(), cutoff_iso),
        };
        assert(models@.take(i + 1).drop_last() =~= models@.take(i as int));
        assert(models@.take(i + 1).last() == *m);
        if unused {
            let ghost prev = out@;
            out.push(m.id.clone());
            assert(views(out@) =~= views(prev).push(m.id@));
        }
        i = i + 1;
    }
    assert(models@.take(i as int) =~= models@);
    out
}

/// What `format_rfc3339` renders an instant as: RFC 3339 in UTC.
pub uninterp spec fn rfc3339_text(nanos: int) -> Seq<char>;

/// The first instant of year 0, in nanoseconds since the Unix epoch.
pub const YEAR_ZERO_NANOS: i128 = -62_167_219_200_000_000_000;

/// The last nanosecond of year 9999.
pub const LATEST_NANOS: i128 = 253_402_300_799_999_999_999;

/// `OffsetDateTime::from_unix_timestamp_nanos`, then `format(&Rfc3339)`.
/// Claims that the text is there exactly for the instants of years 0 to
/// 9999 (RFC 3339 writes four-digit years; earlier instants down to the
/// year -9999 are representable but fail to format, later ones are not
/// representable), and names the text, a function of the instant alone.
#[verifier::external_body]
pub(crate) fn format_rfc3339(nanos: i128) -> (r: Option<String>)
    ensures
        r is Some <==> YEAR_ZERO_NANOS <= nanos <= LATEST_NANOS,
        r matches Some(s) ==> s@ == rfc3339_text(nanos as int),
{
    match time::OffsetDateTime::from_unix_timestamp_nanos(nanos) {
        Ok(t) => t.format(&time::format_description::well_known::Rfc3339).ok(),
        Err(_) => None,
    }
}

/// The instant `stale_days` (at least 0) before `now`.
pub open spec fn stale_instant(now: int, stale_days: i64) -> int {
    now - (if stale_days > 0 {
        stale_days as int
    } else {
        0
    }) * DAY_NANOS
}

/// The unused report's cutoff as text: the RFC 3339 form of
/// [`stale_instant`], or empty when that instant has no such form.
pub open spec fn stale_cutoff_text(now: int, stale_days: i64) -> Seq<char> {
    let t = stale_instant(now, stale_days);
    if YEAR_ZERO_NANOS <= t <= LATEST_NANOS {
        rfc3339_text(t)
    } else {
        Seq::empty()
    }
}

/// The inputs on which the cutoff can be computed: a day count a duration
/// holds, and an instant the calendar can represent.
pub open spec fn stale_inputs_ok(now: int, stale_days: i64) -> bool {
    &&& stale_days <= MAX_DURATION_DAYS
    &&& stale_instant(now, stale_days) >= EARLIEST_NANOS
    &&& now <= LATEST_NANOS
}

/// `now` minus `stale_days` days (never a negative count), as RFC 3339
/// text; empty when that instant has no four-digit year.
pub fn stale_cutoff(now_nanos: i128, stale_days: i64) -> (r: String)
    requires
        stale_inputs_ok(now_nanos as int, stale_days),
    ensures
        r@ == stale_cutoff_text(now_nanos as int, stale_days),
{
    let days: i128 = if stale_days > 0 {
        stale_days as i128
    } else {
        0
    };
    let t = now_nanos - days * DAY_NANOS;
    match format_rfc3339(t) {
        Some(s) => s,
        None => String::new(),
    }
}

/// The saturating total of the clamped sizes of the first `n` models.
pub open spec fn store_total(ms: Seq<Model>, n: int) -> int
    decreases n,
{
    if n <= 0 {
        0
    } else {
        sat(store_total(ms, n - 1) + crate::cleanup::duplicates::clamped(ms[n - 1].size_bytes))
    }
}

/// The saturating total size of the models of `kind` among the first `n`.
pub open spec fn kind_bytes(ms: Seq<Model>, root: Seq<char>, kind: Seq<char>, n: int) -> int
    decreases n,
{
    if n <= 0 {
        0
    } else if kind_text(ms[n - 1].file_path@, root) == kind {
        sat(kind_bytes(ms, root, kind, n - 1) + crate::cleanup::duplicates::clamped(ms[n - 1].size_bytes))
    } else {
        kind_bytes(ms, root, kind, n - 1)
    }
}

/// How many of the first `n` models are of `kind`.
pub open spec fn kind_count(ms: Seq<Model>, root: Seq<char>, kind: Seq<char>, n: int) -> int
    decreases n,
{
    if n <= 0 {
        0
    } else if kind_text(ms[n - 1].file_path@, root) == kind {
        kind_count(ms, root, kind, n - 1) + 1
    } else {
        kind_count(ms, root, kind, n - 1)
    }
}

proof fn lemma_kind_count_le(ms: Seq<Model>, root: Seq<char>, kind: Seq<char>, n: int)
    requires
        0 <= n,
    ensures
        0 <= kind_count(ms, root, kind, n) <= n,
        0 <= kind_bytes(ms, root, kind, n) <= u64::MAX,
    decreases n,
{
    if n > 0 {
        lemma_kind_count_le(ms, root, kind, n - 1);
    }
}

/// `u` reports the models of its kind exactly.
pub open spec fn kind_usage_of(ms: Seq<Model>, root: Seq<char>, u: KindUsage) -> bool {
    &&& u.bytes == kind_bytes(ms, root, u.kind@, ms.len() as int)
    &&& u.count == kind_count(ms, root, u.kind@, ms.len() as int)
    &&& kind_count(ms, root, u.kind@, ms.len() as int) > 0
}

/// The kinds of `us`, in order.
pub open spec fn usage_kinds(us: Seq<KindUsage>) -> Seq<Seq<char>> {
    us.map_values(|u: KindUsage| u.kind@)
}

/// `d` is `m`'s footprint, with `present` telling whether its file is on
/// disk.
pub open spec fn disk_of(d: ModelDisk, m: Model, root: Seq<char>, present: bool) -> bool {
    &&& d.id == m.id
    &&& d.name == m.name
    &&& d.kind@ == kind_text(m.file_path@, root)
    &&& d.size_bytes == crate::cleanup::duplicates::clamped(m.size_bytes)
    &&& d.last_used_at == m.last_used_at
    &&& d.use_count == m.use_count
    &&& d.roles@ == m.roles@
    &&& d.file_present == present
}

/// The sizes the footprints are ordered by.
pub open spec fn model_sizes(ms: Seq<Model>) -> Seq<int> {
    ms.map_values(|m: Model| crate::cleanup::duplicates::clamped(m.size_bytes))
}

/// Largest first, equal sizes in listing order.
pub open spec fn largest_first(ms: Seq<Model>) -> spec_fn(int, int) -> bool {
    |a: int, b: int| num_before(model_sizes(ms), true, a, b)
}

/// `r` lists the duplicate groups of `ms`, as `duplicates` does.
pub open spec fn duplicates_of(ms: Seq<Model>, r: Seq<DuplicateGroup>) -> bool {
    &&& forall|j: int| 0 <= j < r.len() ==> group_of(ms, #[trigger] r[j])
    &&& forall|h: Seq<char>|
        (exists|j: int| 0 <= j < r.len() && #[trigger] r[j].sha256@ == h) <==> members(ms, h).len() >= 2
    &&& forall|a: int, b: int| 0 <= a < b < r.len() ==> biggest_waste_first(#[trigger] r[a], #[trigger] r[b])
}

fn copy_text_opt(v: &Option<String>) -> (r: Option<String>)
    ensures
        r == *v,
{
    match v {
        Some(s) => Some(s.clone()),
        None => None,
    }
}

fn clamp_size(size: i64) -> (r: u64)
    ensures
        r == crate::cleanup::duplicates::clamped(size),
{
    if size < 0 {
        0
    } else {
        size as u64
    }
}

/// Per kind: total bytes and count, kinds in `str` order.
fn usage_by_kind(models: &[Model], store_root: &str, kinds: &Vec<String>) -> (r: Vec<KindUsage>)
    requires
        kinds@.len() == models@.len(),
        models@.len() <= u32::MAX,
        forall|i: int| 0 <= i < kinds@.len() ==> (#[trigger] kinds@[i])@ == kind_text(models@[i].file_path@, store_root@),
    ensures
        strictly_ascending(usage_kinds(r@)),
        forall|j: int| 0 <= j < r@.len() ==> kind_usage_of(models@, store_root@, #[trigger] r@[j]),
        forall|k: Seq<char>|
            usage_kinds(r@).contains(k) <==> kind_count(models@, store_root@, k, models@.len() as int) > 0,
{
    let ghost ms = models@;
    let ghost root = store_root@;
    let n = models.len();
    let mut names: Vec<String> = Vec::new();
    let mut bytes: Vec<u64> = Vec::new();
    let mut counts: Vec<u32> = Vec::new();
    let mut i: usize = 0;
    while i < n
        invariant
            ms == models@,
            root == store_root@,
            n == ms.len(),
            n <= u32::MAX,
            kinds@.len() == n,
            forall|i: int| 0 <= i < kinds@.len() ==> (#[trigger] kinds@[i])@ == kind_text(ms[i].file_path@, root),
            i <= n,
            names@.len() == bytes@.len(),
            names@.len() == counts@.len(),
            strictly_ascending(views(names@)),
            forall|k: int| 0 <= k < names@.len() ==> #[trigger] bytes@[k] == kind_bytes(ms, root, names@[k]@, i as int),
            forall|k: int| 0 <= k < names@.len() ==> #[trigger] counts@[k] == kind_count(ms, root, names@[k]@, i as int),
            forall|x: Seq<char>| views(names@).contains(x) <==> kind_count(ms, root, x, i as int) > 0,
        decreases n - i,
    {
        let kind = &kinds[i];
        let size = clamp_size(models[i].size_bytes);
        let ghost hv = views(names@);
        let mut at: usize = 0;
        while at < names.len() && str_lt(names[at].as_str(), kind.as_str())
            invariant
                at <= names@.len(),
                hv == views(names@),
                forall|k: int| 0 <= k < at ==> lex_lt(#[trigger] hv[k], kind@),
            decreases names@.len() - at,
        {
            at = at + 1;
        }
        let present = at < names.len() && str_eq(names[at].as_str(), kind.as_str());
        proof {
            lemma_kind_count_le(ms, root, kind@, i as int);
            assert forall|k: int| at <= k < hv.len() implies (k == at && #[trigger] hv[k] == kind@)
                || lex_lt(kind@, hv[k]) by {
                lemma_lex_total(hv[at as int], kind@);
                if k > at && hv[at as int] != kind@ {
                    lemma_lex_transitive(kind@, hv[at as int], hv[k]);
                }
            }
            assert forall|k: int| 0 <= k < hv.len() && k != at implies #[trigger] hv[k] != kind@ by {
                lemma_lex_irreflexive(kind@);
            }
            assert forall|x: Seq<char>| x != kind@ implies kind_count(ms, root, x, i + 1) == kind_count(
                ms,
                root,
                x,
                i as int,
            ) && kind_bytes(ms, root, x, i + 1) == kind_bytes(ms, root, x, i as int) by {}
        }
        if present {
            let ghost old_names = names@;
            let b = bytes[at].saturating_add(size);
            let c = counts[at] + 1;
            bytes[at] = b;
            counts[at] = c;
            proof {
                assert(names@[at as int]@ == kind@);
                assert forall|k: int| 0 <= k < names@.len() implies #[trigger] bytes@[k] == kind_bytes(
                    ms,
                    root,
                    names@[k]@,
                    i + 1,
                ) by {
                    assert(names@[k]@ == hv[k]);
                }
                assert forall|k: int| 0 <= k < names@.len() implies #[trigger] counts@[k] == kind_count(
                    ms,
                    root,
                    names@[k]@,
                    i + 1,
                ) by {
                    assert(names@[k]@ == hv[k]);
                }
                assert forall|x: Seq<char>| views(names@).contains(x) <==> kind_count(ms, root, x, i + 1) > 0 by {
                    if x == kind@ {
                        assert(views(names@)[at as int] == x);
                    }
                }
            }
        } else {
            names.insert(at, kind.clone());
            bytes.insert(at, size);
            counts.insert(at, 1);
            proof {
                let w = views(names@);
                assert(w =~= hv.insert(at as int, kind@));
                assert forall|a: int, b: int| 0 <= a < b < w.len() implies lex_lt(
                    #[trigger] w[a],
                    #[trigger] w[b],
                ) by {
                    if b < at {
                        assert(w[a] == hv[a] && w[b] == hv[b]);
                    } else if b == at {
                        assert(w[a] == hv[a]);
                    } else if a < at {
                        assert(w[a] == hv[a] && w[b] == hv[b - 1]);
                        lemma_lex_transitive(hv[a], kind@, hv[b - 1]);
                    } else if a == at {
                        assert(w[b] == hv[b - 1]);
                    } else {
                        assert(w[a] == hv[a - 1] && w[b] == hv[b - 1]);
                    }
                }
                assert(kind_count(ms, root, kind@, i as int) == 0) by {
                    if kind_count(ms, root, kind@, i as int) > 0 {
                        assert(hv.contains(kind@));
                        let k = choose|k: int| 0 <= k < hv.len() && hv[k] == kind@;
                    }
                }
                assert(kind_bytes(ms, root, kind@, i as int) == 0) by {
                    lemma_zero_count_zero_bytes(ms, root, kind@, i as int);
                }
                assert forall|k: int| 0 <= k < names@.len() implies #[trigger] bytes@[k] == kind_bytes(
                    ms,
                    root,
                    names@[k]@,
                    i + 1,
                ) by {
                    assert(names@[k]@ == w[k]);
                    if k < at {
                        assert(w[k] == hv[k]);
                    } else if k > at {
                        assert(w[k] == hv[k - 1]);
                    }
                }
                assert forall|k: int| 0 <= k < names@.len() implies #[trigger] counts@[k] == kind_count(
                    ms,
                    root,
                    names@[k]@,
                    i + 1,
                ) by {
                    assert(names@[k]@ == w[k]);
                    if k < at {
                        assert(w[k] == hv[k]);
                    } else if k > at {
                        assert(w[k] == hv[k - 1]);
                    }
                }
                assert forall|x: Seq<char>| w.contains(x) <==> kind_count(ms, root, x, i + 1) > 0 by {
                    if x != kind@ {
                        if w.contains(x) {
                            let k = choose|k: int| 0 <= k < w.len() && w[k] == x;
                            if k < at {
                                assert(hv[k] == x);
                            } else {
                                assert(hv[k - 1] == x);
                            }
                            assert(hv.contains(x));
                        }
                        if hv.contains(x) {
                            let k = choose|k: int| 0 <= k < hv.len() && hv[k] == x;
                            if k < at {
                                assert(w[k] == x);
                            } else {
                                assert(w[k + 1] == x);
                            }
                        }
                    } else {
                        assert(w[at as int] == x);
                    }
                }
            }
        }
        i = i + 1;
    }
    let mut out: Vec<KindUsage> = Vec::new();
    let mut k: usize = 0;
    while k < names.len()
        invariant
            ms == models@,
            root == store_root@,
            n == ms.len(),
            names@.len() == bytes@.len(),
            names@.len() == counts@.len(),
            forall|k: int| 0 <= k < names@.len() ==> #[trigger] bytes@[k] == kind_bytes(ms, root, names@[k]@, n as int),
            forall|k: int| 0 <= k < names@.len() ==> #[trigger] counts@[k] == kind_count(ms, root, names@[k]@, n as int),
            forall|x: Seq<char>| views(names@).contains(x) <==> kind_count(ms, root, x, n as int) > 0,
            k <= names@.len(),
            usage_kinds(out@) == views(names@).take(k as int),
            forall|j: int| 0 <= j < out@.len() ==> kind_usage_of(ms, root, #[trigger] out@[j]),
        decreases names@.len() - k,
    {
        let u = KindUsage { kind: names[k].clone(), bytes: bytes[k], count: counts[k] };
        proof {
            assert(views(names@)[k as int] == names@[k as int]@);
            assert(views(names@).contains(names@[k as int]@));
        }
        let ghost prev = out@;
        out.push(u);
        assert(usage_kinds(out@) =~= usage_kinds(prev).push(names@[k as int]@));
        assert(views(names@).take(k + 1) =~= views(names@).take(k as int).push(names@[k as int]@));
        k = k + 1;
    }
    assert(views(names@).take(k as int) =~= views(names@));
    out
}

proof fn lemma_zero_count_zero_bytes(ms: Seq<Model>, root: Seq<char>, kind: Seq<char>, n: int)
    requires
        kind_count(ms, root, kind, n) == 0,
        0 <= n,
    ensures
        kind_bytes(ms, root, kind, n) == 0,
    decreases n,
{
    if n > 0 {
        lemma_kind_count_le(ms, root, kind, n - 1);
        lemma_zero_count_zero_bytes(ms, root, kind, n - 1);
    }
}

/// Each model's footprint, largest first.
fn disks_by_size(models: &[Model], kinds: &Vec<String>, present: &[bool], store_root: &str) -> (r: Vec<ModelDisk>)
    requires
        kinds@.len() == models@.len(),
        present@.len() == models@.len(),
        forall|i: int| 0 <= i < kinds@.len() ==> (#[trigger] kinds@[i])@ == kind_text(models@[i].file_path@, store_root@),
    ensures
        exists|p: Seq<int>|
            #[trigger] sorted_perm(p, models@.len() as int, largest_first(models@)) && r@.len() == models@.len()
                && forall|t: int| 0 <= t < r@.len() ==> disk_of(#[trigger] r@[t], models@[p[t]], store_root@, present@[p[t]]),
{
    let n = models.len();
    let mut keys: Vec<i128> = Vec::new();
    let mut i: usize = 0;
    while i < n
        invariant
            n == models@.len(),
            i <= n,
            keys@.len() == i,
            forall|k: int| 0 <= k < i ==> #[trigger] keys@[k] == crate::cleanup::duplicates::clamped(models@[k].size_bytes),
        decreases n - i,
    {
        keys.push(clamp_size(models[i].size_bytes) as i128);
        i = i + 1;
    }
    let order = order_by_num(&keys, true);
    let ghost p = ints(order@);
    proof {
        assert(wide(keys@) =~= model_sizes(models@));
        assert(largest_first(models@) == (|a: int, b: int| num_before(wide(keys@), true, a, b)));
    }
    let mut out: Vec<ModelDisk> = Vec::new();
    let mut t: usize = 0;
    while t < n
        invariant
            n == models@.len(),
            kinds@.len() == n,
            present@.len() == n,
            forall|i: int| 0 <= i < kinds@.len() ==> (#[trigger] kinds@[i])@ == kind_text(models@[i].file_path@, store_root@),
            order@.len() == n,
            p == ints(order@),
            sorted_perm(p, n as int, largest_first(models@)),
            t <= n,
            out@.len() == t,
            forall|u: int| 0 <= u < t ==> disk_of(#[trigger] out@[u], models@[p[u]], store_root@, present@[p[u]]),
        decreases n - t,
    {
        let k = order[t];
        proof {
            assert(p[t as int] == k as int);
        }
        let m = &models[k];
        let d = ModelDisk {
            id: m.id.clone(),
            name: m.name.clone(),
            kind: kinds[k].clone(),
            size_bytes: clamp_size(m.size_bytes),
            last_used_at: copy_text_opt(&m.last_used_at),
            use_count: m.use_count,
            roles: copy_strings(&m.roles),
            file_present: present[k],
        };
        out.push(d);
        t = t + 1;
    }
    out
}

/// The saturating total size of the models.
fn total_size(models: &[Model]) -> (r: u64)
    ensures
        r == store_total(models@, models@.len() as int),
{
    let mut total: u64 = 0;
    let mut i: usize = 0;
    while i < models.len()
        invariant
            i <= models@.len(),
            total == store_total(models@, i as int),
        decreases models@.len() - i,
    {
        total = total.saturating_add(clamp_size(models[i].size_bytes));
        i = i + 1;
    }
    total
}

/// Assemble the full report from the library and what the disk said:
/// `present[i]` tells whether model `i`'s file (or folder) exists, `volume`
/// is the store volume's `(free, total)` bytes when it could be resolved,
/// and `now_nanos` is the current instant.
pub fn report(
    models: &[Model],
    store_root: &str,
    stale_days: i64,
    now_nanos: i128,
    present: &[bool],
    volume: Option<(u64, u64)>,
) -> (r: StorageReport)
    requires
        present@.len() == models@.len(),
        models@.len() <= u32::MAX,
        stale_inputs_ok(now_nanos as int, stale_days),
    ensures
        r.store_bytes == store_total(models@, models@.len() as int),
        r.volume_free_bytes == (match volume {
            Some((f, _)) => Some(f),
            None => None::<u64>,
        }),
        r.volume_total_bytes == (match volume {
            Some((_, t)) => Some(t),
            None => None::<u64>,
        }),
        strictly_ascending(usage_kinds(r.by_kind@)),
        forall|j: int| 0 <= j < r.by_kind@.len() ==> kind_usage_of(models@, store_root@, #[trigger] r.by_kind@[j]),
        forall|k: Seq<char>|
            usage_kinds(r.by_kind@).contains(k) <==> kind_count(models@, store_root@, k, models@.len() as int) > 0,
        exists|p: Seq<int>|
            #[trigger] sorted_perm(p, models@.len() as int, largest_first(models@)) && r.models@.len()
                == models@.len() && forall|t: int|
                0 <= t < r.models@.len() ==> disk_of(#[trigger] r.models@[t], models@[p[t]], store_root@, present@[p[t]]),
        duplicates_of(models@, r.duplicates@),
        views(r.unused@) == unused_of(models@, stale_cutoff_text(now_nanos as int, stale_days)),
        r.stale_days == stale_days,
{
    let cutoff = stale_cutoff(now_nanos, stale_days);
    let mut kinds: Vec<String> = Vec::new();
    let mut i: usize = 0;
    while i < models.len()
        invariant
            i <= models@.len(),
            kinds@.len() == i,
            forall|k: int| 0 <= k < i ==> (#[trigger] kinds@[k])@ == kind_text(models@[k].file_path@, store_root@),
        decreases models@.len() - i,
    {
        kinds.push(kind_of(&models[i], store_root));
        i = i + 1;
    }
    let (free, total) = match volume {
        Some((f, t)) => (Some(f), Some(t)),
        None => (None, None),
    };
    StorageReport {
        store_bytes: total_size(models),
        volume_free_bytes: free,
        volume_total_bytes: total,
        by_kind: usage_by_kind(models, store_root, &kinds),
        models: disks_by_size(models, &kinds, present, store_root),
        duplicates: duplicates(models),
        unused: unused_ids(models, cutoff.as_str()),
        stale_days,
    }
}

} // verus!
