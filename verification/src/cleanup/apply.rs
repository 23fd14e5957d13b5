//! The cleanup apply: what a request selects, group by group in the scan's
//! order, and how the outcome of each entry is reported and summed. The
//! deleting itself, through the existing gates, is the caller's.

use vstd::prelude::*;

use crate::cleanup::scan::{group_key, group_keys, GROUP_COUNT};
use crate::error::CoreError;
use crate::states::{download_state_name, run_state_name, run_terminal, DownloadState, RunState};
use crate::text::{dedup_first, str_eq, views};
use crate::winpath::components;

verus! {

/// The id is not (or no longer) something the scan offers.
pub const SKIP_NOT_OFFERED: &'static str = "not_offered";
/// The file was gone by the time it was to be deleted.
pub const SKIP_MISSING: &'static str = "missing";
/// A link or junction: never followed, left alone.
pub const SKIP_LINK: &'static str = "link_not_followed";

/// A file left alone, and why.
#[derive(Debug, Clone, PartialEq, Eq)]
pub struct SkippedFile {
    pub path: String,
    pub reason: String,
}

/// A cleanup apply request.
#[derive(Debug, Clone)]
pub struct ApplyRequest {
    pub selections: Vec<Selection>,
    /// `true` (the default when absent) lists exactly what would go and
    /// deletes nothing.
    pub dry_run: bool,
}

/// The entries of one group to apply; an id the scan does not offer is
/// skipped with a reason.
#[derive(Debug, Clone)]
pub struct Selection {
    pub group: String,
    pub entry_ids: Vec<String>,
}

/// What an apply did — or, in a dry run, would do.
#[derive(Debug, Clone, Default, PartialEq, Eq)]
pub struct ApplyResult {
    pub dry_run: bool,
    pub deleted_files: u64,
    pub freed_bytes: u64,
    pub removed_rows: u64,
    /// Every skip of every entry, with its reason.
    pub skipped: Vec<SkippedFile>,
    pub entries: Vec<EntryResult>,
}

/// One entry's outcome.
#[derive(Debug, Clone, Default, PartialEq, Eq)]
pub struct EntryResult {
    pub group: String,
    pub id: String,
    pub label: String,
    pub files: u64,
    pub bytes: u64,
    pub rows: u64,
    pub skipped: Vec<SkippedFile>,
    pub paths: Vec<String>,
}

/// A request's `dry_run` when it names none.
pub fn default_true() -> (r: bool)
    ensures
        r,
{
    true
}

/// The message refusing an unknown group.
pub open spec fn unknown_group_message(g: Seq<char>) -> Seq<char> {
    "unknown cleanup group \""@ + g + "\""@
}

/// The first selection naming a group the scan does not have.
pub open spec fn first_unknown(sels: Seq<Selection>) -> Option<Seq<char>>
    decreases sels.len(),
{
    if sels.len() == 0 {
        None
    } else {
        match first_unknown(sels.drop_last()) {
            Some(g) => Some(g),
            None => if group_keys().contains(sels.last().group@) {
                None
            } else {
                Some(sels.last().group@)
            },
        }
    }
}

/// The ids the selections of `key` name, in request order.
pub open spec fn ids_of(sels: Seq<Selection>, key: Seq<char>) -> Seq<Seq<char>>
    decreases sels.len(),
{
    if sels.len() == 0 {
        Seq::empty()
    } else if sels.last().group@ == key {
        ids_of(sels.drop_last(), key) + views(sels.last().entry_ids@)
    } else {
        ids_of(sels.drop_last(), key)
    }
}

/// Some selection names `key`.
pub open spec fn selected(sels: Seq<Selection>, key: Seq<char>) -> bool {
    exists|i: int| 0 <= i < sels.len() && #[trigger] sels[i].group@ == key
}

/// The selected groups among the first `g` keys, in the scan's order, each
/// with its ids deduplicated in request order.
pub open spec fn merged_upto(sels: Seq<Selection>, g: int) -> Seq<(Seq<char>, Seq<Seq<char>>)>
    decreases g,
{
    if g <= 0 {
        Seq::empty()
    } else {
        let m = merged_upto(sels, g - 1);
        let key = group_keys()[g - 1];
        if selected(sels, key) {
            m.push((key, dedup_first(ids_of(sels, key))))
        } else {
            m
        }
    }
}

/// The selections by group, in the scan's group order.
pub open spec fn merged(sels: Seq<Selection>) -> Seq<(Seq<char>, Seq<Seq<char>>)> {
    merged_upto(sels, GROUP_COUNT as int)
}

/// A merged selection as values.
pub open spec fn merge_views(v: Seq<(String, Vec<String>)>) -> Seq<(Seq<char>, Seq<Seq<char>>)> {
    v.map_values(|p: (String, Vec<String>)| (p.0@, views(p.1@)))
}

/// Whether `key` is one of the scan's groups.
pub fn is_group_key(key: &str) -> (r: bool)
    ensures
        r == group_keys().contains(key@),
{
    let mut i: usize = 0;
    while i < GROUP_COUNT
        invariant
            i <= GROUP_COUNT,
            forall|k: int| 0 <= k < i ==> group_keys()[k] != key@,
        decreases GROUP_COUNT - i,
    {
        if str_eq(key, group_key(i)) {
            return true;
        }
        i = i + 1;
    }
    assert(group_keys().len() == GROUP_COUNT);
    false
}

/// Whether `ids` holds `id`.
fn holds(ids: &Vec<String>, id: &str) -> (r: bool)
    ensures
        r == views(ids@).contains(id@),
{
    let mut i: usize = 0;
    while i < ids.len()
        invariant
            i <= ids@.len(),
            forall|k: int| 0 <= k < i ==> ids@[k]@ != id@,
        decreases ids@.len() - i,
    {
        if str_eq(ids[i].as_str(), id) {
            assert(views(ids@)[i as int] == id@);
            return true;
        }
        i = i + 1;
    }
    proof {
        if views(ids@).contains(id@) {
            let k = choose|k: int| 0 <= k < views(ids@).len() && views(ids@)[k] == id@;
            assert(ids@[k]@ == id@);
        }
    }
    false
}

/// The selections by group, in the scan's group order, ids deduplicated
/// in request order. An unknown group is a client error.
pub fn merge(selections: &[Selection]) -> (r: Result<Vec<(String, Vec<String>)>, CoreError>)
    ensures
        match r {
            Ok(v) => first_unknown(selections@) is None && merge_views(v@) == merged(selections@),
            Err(e) => exists|g: Seq<char>|
                first_unknown(selections@) == Some(g) && e.config_message() == Some(unknown_group_message(g)),
        },
{
    let ghost sels = selections@;
    let n = selections.len();
    let mut i: usize = 0;
    assert(sels.take(0) =~= Seq::<Selection>::empty());
    while i < n
        invariant
            sels == selections@,
            n == sels.len(),
            i <= n,
            first_unknown(sels.take(i as int)) is None,
        decreases n - i,
    {
        assert(sels.take(i + 1).drop_last() =~= sels.take(i as int));
        if !is_group_key(selections[i].group.as_str()) {
            let mut m = String::from_str("unknown cleanup group \"");
            m.append(selections[i].group.as_str());
            m.append("\"");
            proof {
                lemma_first_unknown_prefix(sels, i + 1);
                assert(m@ == unknown_group_message(sels[i as int].group@));
            }
            let e = CoreError::Config(m);
            assert(e.config_message() == Some(unknown_group_message(sels[i as int].group@)));
            return Err(e);
        }
        i = i + 1;
    }
    assert(sels.take(n as int) =~= sels);
    let mut out: Vec<(String, Vec<String>)> = Vec::new();
    let mut g: usize = 0;
    while g < GROUP_COUNT
        invariant
            sels == selections@,
            n == sels.len(),
            g <= GROUP_COUNT,
            merge_views(out@) == merged_upto(sels, g as int),
        decreases GROUP_COUNT - g,
    {
        let key = group_key(g);
        let mut any = false;
        let mut ids: Vec<String> = Vec::new();
        let mut j: usize = 0;
        assert(sels.take(0) =~= Seq::<Selection>::empty());
        while j < n
            invariant
                sels == selections@,
                n == sels.len(),
                j <= n,
                any == selected(sels.take(j as int), key@),
                views(ids@) == dedup_first(ids_of(sels.take(j as int), key@)),
            decreases n - j,
        {
            let s = &selections[j];
            let ghost before = ids_of(sels.take(j as int), key@);
            assert(sels.take(j + 1).drop_last() =~= sels.take(j as int));
            assert(sels.take(j + 1).last() == *s);
            if str_eq(s.group.as_str(), key) {
                any = true;
                let ghost es = views(s.entry_ids@);
                let mut t: usize = 0;
                assert(before + es.take(0) =~= before);
                while t < s.entry_ids.len()
                    invariant
                        es == views(s.entry_ids@),
                        t <= es.len(),
                        views(ids@) == dedup_first(before + es.take(t as int)),
                    decreases es.len() - t,
                {
                    let id = &s.entry_ids[t];
                    assert((before + es.take(t + 1)).drop_last() =~= before + es.take(t as int));
                    assert((before + es.take(t + 1)).last() == id@);
                    if !holds(&ids, id.as_str()) {
                        let ghost prev = ids@;
                        ids.push(id.clone());
                        assert(views(ids@) =~= views(prev).push(id@));
                    }
                    t = t + 1;
                }
                assert(es.take(t as int) =~= es);
                proof {
                    assert(sels.take(j + 1)[j as int].group@ == key@);
                }
            }
            proof {
                let (p, q) = (sels.take(j as int), sels.take(j + 1));
                if selected(p, key@) {
                    let w = choose|w: int| 0 <= w < p.len() && #[trigger] p[w].group@ == key@;
                    assert(q[w] == p[w]);
                }
                if selected(q, key@) && !(s.group@ == key@) {
                    let w = choose|w: int| 0 <= w < q.len() && #[trigger] q[w].group@ == key@;
                    assert(w < j);
                    assert(p[w] == q[w]);
                }
            }
            j = j + 1;
        }
        assert(sels.take(n as int) =~= sels);
        if any {
            let ghost prev = out@;
            out.push((String::from_str(key), ids));
            assert(merge_views(out@) =~= merge_views(prev).push((key@, views(ids@))));
        }
        g = g + 1;
    }
    Ok(out)
}

proof fn lemma_first_unknown_prefix(sels: Seq<Selection>, i: int)
    requires
        0 < i <= sels.len(),
        first_unknown(sels.take(i - 1)) is None,
        !group_keys().contains(sels[i - 1].group@),
    ensures
        first_unknown(sels) == Some(sels[i - 1].group@),
    decreases sels.len(),
{
    assert(sels.take(i).drop_last() =~= sels.take(i - 1));
    assert(first_unknown(sels.take(i)) == Some(sels[i - 1].group@));
    lemma_first_unknown_extends(sels, i);
}

proof fn lemma_first_unknown_extends(sels: Seq<Selection>, i: int)
    requires
        0 <= i <= sels.len(),
        first_unknown(sels.take(i)) is Some,
    ensures
        first_unknown(sels) == first_unknown(sels.take(i)),
    decreases sels.len() - i,
{
    if i < sels.len() {
        assert(sels.take(i + 1).drop_last() =~= sels.take(i));
        lemma_first_unknown_extends(sels, i + 1);
    } else {
        assert(sels.take(i) =~= sels);
    }
}

/// A path for people: a `\\?\` prefix dropped, unless it starts a
/// `\\?\UNC\` path.
pub open spec fn display_text(p: Seq<char>) -> Seq<char> {
    let verbatim = seq!['\\', '\\', '?', '\\'];
    if p.len() >= 4 && p.take(4) == verbatim && !(p.len() >= 8 && p.subrange(4, 8) == seq!['U', 'N', 'C', '\\']) {
        p.skip(4)
    } else {
        p
    }
}

/// A path as shown to people.
pub fn display(p: &str) -> (r: String)
    ensures
        r@ == display_text(p@),
{
    let n = p.unicode_len();
    let verbatim = n >= 4 && p.get_char(0) == '\\' && p.get_char(1) == '\\' && p.get_char(2) == '?'
        && p.get_char(3) == '\\';
    let unc = n >= 8 && p.get_char(4) == 'U' && p.get_char(5) == 'N' && p.get_char(6) == 'C'
        && p.get_char(7) == '\\';
    proof {
        if n >= 4 {
            if verbatim {
                assert(p@.take(4) =~= seq!['\\', '\\', '?', '\\']);
            } else {
                assert(p@.take(4) != seq!['\\', '\\', '?', '\\']) by {
                    if p@.take(4) == seq!['\\', '\\', '?', '\\'] {
                        assert(p@.take(4)[0] == p@[0] && p@.take(4)[1] == p@[1]);
                        assert(p@.take(4)[2] == p@[2] && p@.take(4)[3] == p@[3]);
                    }
                }
            }
        }
        if n >= 8 {
            if unc {
                assert(p@.subrange(4, 8) =~= seq!['U', 'N', 'C', '\\']);
            } else {
                assert(p@.subrange(4, 8) != seq!['U', 'N', 'C', '\\']) by {
                    if p@.subrange(4, 8) == seq!['U', 'N', 'C', '\\'] {
                        assert(p@.subrange(4, 8)[0] == p@[4] && p@.subrange(4, 8)[1] == p@[5]);
                        assert(p@.subrange(4, 8)[2] == p@[6] && p@.subrange(4, 8)[3] == p@[7]);
                    }
                }
            }
        }
    }
    if verbatim && !unc {
        String::from_str(p.substring_char(4, n))
    } else {
        String::from_str(p)
    }
}

/// `inner` lies strictly inside `outer`.
pub open spec fn strictly_inside_spec(inner: Seq<char>, outer: Seq<char>) -> bool {
    crate::cleanup::scan::same_or_inside(inner, outer) && components(inner) != components(outer)
}

/// Whether `inner` lies strictly inside `outer`.
pub fn strictly_inside(inner: &str, outer: &str) -> (r: bool)
    ensures
        r == strictly_inside_spec(inner@, outer@),
{
    if !crate::cleanup::scan::is_same_or_inside(inner, outer) {
        return false;
    }
    let a = crate::winpath::path_components(inner);
    let b = crate::winpath::path_components(outer);
    proof {
        assert(components(inner@).len() >= components(outer@).len());
        if views(a@).len() == views(b@).len() {
            assert(views(a@) =~= views(a@).take(views(b@).len() as int));
        }
    }
    a.len() != b.len()
}

/// One entry's outcome so far: files gone (or that would go), their bytes,
/// the skips and the exact paths.
#[derive(Debug, Default)]
pub struct Tally {
    pub files: u64,
    pub bytes: u64,
    pub skipped: Vec<SkippedFile>,
    pub paths: Vec<String>,
}

impl Tally {
    /// An empty tally.
    pub fn new() -> (r: Tally)
        ensures
            r.files == 0,
            r.bytes == 0,
            r.skipped@.len() == 0,
            r.paths@.len() == 0,
    {
        Tally { files: 0, bytes: 0, skipped: Vec::new(), paths: Vec::new() }
    }

    /// Record that `path` was left alone, and why.
    pub fn skip(&mut self, path: &str, reason: &str)
        ensures
            final(self).files == old(self).files,
            final(self).bytes == old(self).bytes,
            final(self).paths@ == old(self).paths@,
            final(self).skipped@.len() == old(self).skipped@.len() + 1,
            final(self).skipped@.drop_last() == old(self).skipped@,
            final(self).skipped@.last().path@ == display_text(path@),
            final(self).skipped@.last().reason@ == reason@,
    {
        let s = SkippedFile { path: display(path), reason: String::from_str(reason) };
        self.skipped.push(s);
        assert(self.skipped@.drop_last() =~= old(self).skipped@);
    }

    /// Record a file of `bytes` bytes at `path` as gone (or, in a dry run,
    /// as what would go).
    pub fn count(&mut self, path: &str, bytes: u64)
        requires
            old(self).files < u64::MAX,
            old(self).bytes + bytes <= u64::MAX,
        ensures
            final(self).files == old(self).files + 1,
            final(self).bytes == old(self).bytes + bytes,
            final(self).skipped@ == old(self).skipped@,
            final(self).paths@.drop_last() == old(self).paths@,
            final(self).paths@.len() == old(self).paths@.len() + 1,
            final(self).paths@.last()@ == display_text(path@),
    {
        self.files = self.files + 1;
        self.bytes = self.bytes + bytes;
        self.paths.push(display(path));
        assert(self.paths@.drop_last() =~= old(self).paths@);
    }
}

/// An entry left alone as a whole, with the reason.
pub fn refused(group: &str, id: &str, label: &str, path: &str, why: &str) -> (r: EntryResult)
    ensures
        r.group@ == group@,
        r.id@ == id@,
        r.label@ == label@,
        r.files == 0 && r.bytes == 0 && r.rows == 0,
        r.paths@.len() == 0,
        r.skipped@.len() == 1,
        r.skipped@[0].path@ == display_text(path@),
        r.skipped@[0].reason@ == why@,
{
    EntryResult {
        group: String::from_str(group),
        id: String::from_str(id),
        label: String::from_str(label),
        files: 0,
        bytes: 0,
        rows: 0,
        skipped: vec![SkippedFile { path: display(path), reason: String::from_str(why) }],
        paths: Vec::new(),
    }
}

/// An id the scan does not offer: nothing happens, one skip says so.
pub fn not_offered(group: &str, id: &str) -> (r: EntryResult)
    ensures
        r.group@ == group@,
        r.id@ == id@,
        r.label@ == id@,
        r.files == 0 && r.bytes == 0 && r.rows == 0,
        r.paths@.len() == 0,
        r.skipped@.len() == 1,
        r.skipped@[0].path@ == display_text(id@),
        r.skipped@[0].reason@ == SKIP_NOT_OFFERED@,
{
    refused(group, id, id, id, SKIP_NOT_OFFERED)
}

/// An entry's outcome from its tally and the rows it removed.
pub fn entry(group: &str, id: &str, label: &str, tally: Tally, rows: u64) -> (r: EntryResult)
    ensures
        r.group@ == group@,
        r.id@ == id@,
        r.label@ == label@,
        r.files == tally.files,
        r.bytes == tally.bytes,
        r.rows == rows,
        r.skipped@ == tally.skipped@,
        r.paths@ == tally.paths@,
{
    EntryResult {
        group: String::from_str(group),
        id: String::from_str(id),
        label: String::from_str(label),
        files: tally.files,
        bytes: tally.bytes,
        rows,
        skipped: tally.skipped,
        paths: tally.paths,
    }
}

/// The total files of `es`.
pub open spec fn total_files(es: Seq<EntryResult>) -> int
    decreases es.len(),
{
    if es.len() == 0 {
        0
    } else {
        total_files(es.drop_last()) + es.last().files
    }
}

/// The total bytes of `es`.
pub open spec fn total_bytes(es: Seq<EntryResult>) -> int
    decreases es.len(),
{
    if es.len() == 0 {
        0
    } else {
        total_bytes(es.drop_last()) + es.last().bytes
    }
}

/// The total rows of `es`.
pub open spec fn total_rows(es: Seq<EntryResult>) -> int
    decreases es.len(),
{
    if es.len() == 0 {
        0
    } else {
        total_rows(es.drop_last()) + es.last().rows
    }
}

/// Every skip of every entry, in order.
pub open spec fn all_skips(es: Seq<EntryResult>) -> Seq<SkippedFile>
    decreases es.len(),
{
    if es.len() == 0 {
        Seq::empty()
    } else {
        all_skips(es.drop_last()) + es.last().skipped@
    }
}

proof fn lemma_totals_prefix(es: Seq<EntryResult>, i: int)
    requires
        0 <= i <= es.len(),
    ensures
        0 <= total_files(es.take(i)) <= total_files(es),
        0 <= total_bytes(es.take(i)) <= total_bytes(es),
        0 <= total_rows(es.take(i)) <= total_rows(es),
    decreases es.len(),
{
    if es.len() > 0 {
        if i == es.len() {
            assert(es.take(i) =~= es);
            lemma_totals_prefix(es.drop_last(), i - 1);
            assert(es.drop_last().take(i - 1) =~= es.drop_last());
        } else {
            lemma_totals_prefix(es.drop_last(), i);
            assert(es.drop_last().take(i) =~= es.take(i));
        }
    } else {
        assert(es.take(i) =~= es);
    }
}

fn copy_skip(s: &SkippedFile) -> (r: SkippedFile)
    ensures
        r == *s,
{
    SkippedFile { path: s.path.clone(), reason: s.reason.clone() }
}

/// The outcome of an apply: the entries, their summed files, bytes and
/// rows, and every skip.
pub fn summarise(dry_run: bool, entries: Vec<EntryResult>) -> (r: ApplyResult)
    requires
        total_files(entries@) <= u64::MAX,
        total_bytes(entries@) <= u64::MAX,
        total_rows(entries@) <= u64::MAX,
    ensures
        r.dry_run == dry_run,
        r.deleted_files == total_files(entries@),
        r.freed_bytes == total_bytes(entries@),
        r.removed_rows == total_rows(entries@),
        r.skipped@ == all_skips(entries@),
        r.entries@ == entries@,
{
    let mut files: u64 = 0;
    let mut bytes: u64 = 0;
    let mut rows: u64 = 0;
    let mut skipped: Vec<SkippedFile> = Vec::new();
    let mut i: usize = 0;
    assert(entries@.take(0) =~= Seq::<EntryResult>::empty());
    while i < entries.len()
        invariant
            i <= entries@.len(),
            total_files(entries@) <= u64::MAX,
            total_bytes(entries@) <= u64::MAX,
            total_rows(entries@) <= u64::MAX,
            files == total_files(entries@.take(i as int)),
            bytes == total_bytes(entries@.take(i as int)),
            rows == total_rows(entries@.take(i as int)),
            skipped@ == all_skips(entries@.take(i as int)),
        decreases entries@.len() - i,
    {
        let e = &entries[i];
        assert(entries@.take(i + 1).drop_last() =~= entries@.take(i as int));
        assert(entries@.take(i + 1).last() == *e);
        proof {
            lemma_totals_prefix(entries@, i + 1);
        }
        files = files + e.files;
        bytes = bytes + e.bytes;
        rows = rows + e.rows;
        let ghost base = skipped@;
        let mut k: usize = 0;
        while k < e.skipped.len()
            invariant
                k <= e.skipped@.len(),
                skipped@ == base + e.skipped@.take(k as int),
            decreases e.skipped@.len() - k,
        {
            skipped.push(copy_skip(&e.skipped[k]));
            assert(e.skipped@.take(k + 1) =~= e.skipped@.take(k as int).push(e.skipped@[k as int]));
            k = k + 1;
        }
        assert(e.skipped@.take(k as int) =~= e.skipped@);
        i = i + 1;
    }
    assert(entries@.take(i as int) =~= entries@);
    ApplyResult { dry_run, deleted_files: files, freed_bytes: bytes, removed_rows: rows, skipped, entries }
}


/// The prefix of a download staging folder's entry id in the `caches`
/// group; the rest is the download's id.
pub const STAGING_PREFIX: &'static str = "download-staging:";

/// `s` without `prefix`, when it starts with it.
pub open spec fn strip_prefix_text(s: Seq<char>, prefix: Seq<char>) -> Option<Seq<char>> {
    if prefix.len() <= s.len() && s.take(prefix.len() as int) == prefix {
        Some(s.skip(prefix.len() as int))
    } else {
        None
    }
}

/// The download ids named by staging entries among `ids`, in order.
pub open spec fn staging_ids_of(ids: Seq<Seq<char>>) -> Seq<Seq<char>>
    decreases ids.len(),
{
    if ids.len() == 0 {
        Seq::empty()
    } else {
        let rest = staging_ids_of(ids.drop_last());
        match strip_prefix_text(ids.last(), STAGING_PREFIX@) {
            Some(name) => rest.push(name),
            None => rest,
        }
    }
}

/// `id` without `prefix`, when it starts with it.
pub fn strip_text_prefix(id: &str, prefix: &str) -> (r: Option<String>)
    ensures
        match r {
            Some(n) => strip_prefix_text(id@, prefix@) == Some(n@),
            None => strip_prefix_text(id@, prefix@) is None,
        },
{
    let (n, m) = (id.unicode_len(), prefix.unicode_len());
    if m > n {
        return None;
    }
    let mut i: usize = 0;
    while i < m
        invariant
            n == id@.len(),
            m == prefix@.len(),
            m <= n,
            i <= m,
            forall|k: int| 0 <= k < i ==> id@[k] == prefix@[k],
        decreases m - i,
    {
        if id.get_char(i) != prefix.get_char(i) {
            assert(id@.take(m as int)[i as int] != prefix@[i as int]);
            return None;
        }
        i = i + 1;
    }
    assert(id@.take(m as int) =~= prefix@);
    Some(String::from_str(id.substring_char(m, n)))
}

fn strip_staging(id: &str) -> (r: Option<String>)
    ensures
        match r {
            Some(n) => strip_prefix_text(id@, STAGING_PREFIX@) == Some(n@),
            None => strip_prefix_text(id@, STAGING_PREFIX@) is None,
        },
{
    strip_text_prefix(id, STAGING_PREFIX)
}

/// The download ids of the staging folders a `caches` selection names.
pub fn staging_ids(ids: &[String]) -> (r: Vec<String>)
    ensures
        views(r@) == staging_ids_of(views(ids@)),
{
    let ghost v = views(ids@);
    let mut out: Vec<String> = Vec::new();
    let mut i: usize = 0;
    assert(v.take(0) =~= Seq::<Seq<char>>::empty());
    while i < ids.len()
        invariant
            v == views(ids@),
            i <= ids@.len(),
            views(out@) == staging_ids_of(v.take(i as int)),
        decreases ids@.len() - i,
    {
        assert(v.take(i + 1).drop_last() =~= v.take(i as int));
        assert(v.take(i + 1).last() == ids@[i as int]@);
        if let Some(name) = strip_staging(ids[i].as_str()) {
            let ghost prev = out@;
            out.push(name);
            assert(views(out@) =~= views(prev).push(name@));
        }
        i = i + 1;
    }
    assert(v.take(i as int) =~= v);
    out
}

/// The refusal while a selected training run is still going.
pub open spec fn busy_run_message(name: Seq<char>, state: RunState) -> Seq<char> {
    "training run \""@ + name + "\" is "@ + run_state_name(state)
        + " \u{2014} wait for it to finish or cancel it first"@
}

/// The refusal while a selected staging folder's download is still going.
pub open spec fn busy_download_message(filename: Seq<char>, state: DownloadState) -> Seq<char> {
    "the download of "@ + filename + " is "@ + download_state_name(state)
        + " \u{2014} wait for it to finish or cancel it first"@
}

/// The first of `reasons` that is set.
pub open spec fn first_reason(reasons: Seq<Option<String>>) -> Option<Seq<char>>
    decreases reasons.len(),
{
    if reasons.len() == 0 {
        None
    } else {
        match first_reason(reasons.drop_last()) {
            Some(m) => Some(m),
            None => match reasons.last() {
                Some(m) => Some(m@),
                None => None,
            },
        }
    }
}

/// The first run that has not finished.
pub open spec fn first_busy_run(runs: Seq<(String, RunState)>) -> Option<(Seq<char>, RunState)>
    decreases runs.len(),
{
    if runs.len() == 0 {
        None
    } else {
        match first_busy_run(runs.drop_last()) {
            Some(x) => Some(x),
            None => if run_terminal(runs.last().1) {
                None
            } else {
                Some((runs.last().0@, runs.last().1))
            },
        }
    }
}

/// The first download that has not finished.
pub open spec fn first_busy_download(ds: Seq<(String, DownloadState)>) -> Option<(Seq<char>, DownloadState)>
    decreases ds.len(),
{
    if ds.len() == 0 {
        None
    } else {
        match first_busy_download(ds.drop_last()) {
            Some(x) => Some(x),
            None => if ds.last().1 == DownloadState::Done || ds.last().1 == DownloadState::Failed {
                None
            } else {
                Some((ds.last().0@, ds.last().1))
            },
        }
    }
}

/// What refusing a busy request says, if anything refuses it: the first
/// busy dataset's reason, else the first unfinished run, else the first
/// unfinished download.
pub open spec fn busy_message(
    dataset_reasons: Seq<Option<String>>,
    runs: Seq<(String, RunState)>,
    downloads: Seq<(String, DownloadState)>,
) -> Option<Seq<char>> {
    match first_reason(dataset_reasons) {
        Some(m) => Some(m),
        None => match first_busy_run(runs) {
            Some((name, state)) => Some(busy_run_message(name, state)),
            None => match first_busy_download(downloads) {
                Some((file, state)) => Some(busy_download_message(file, state)),
                None => None,
            },
        },
    }
}

/// A download state that holds no work: done or failed.
pub open spec fn settled(s: DownloadState) -> bool {
    s == DownloadState::Done || s == DownloadState::Failed
}

proof fn lemma_no_busy_download(ds: Seq<(String, DownloadState)>)
    ensures
        first_busy_download(ds) is None <==> forall|k: int| 0 <= k < ds.len() ==> settled(#[trigger] ds[k].1),
    decreases ds.len(),
{
    if ds.len() > 0 {
        let p = ds.drop_last();
        let n = ds.len() - 1;
        lemma_no_busy_download(p);
        if first_busy_download(ds) is None {
            assert forall|k: int| 0 <= k < ds.len() implies settled(#[trigger] ds[k].1) by {
                if k < n {
                    assert(p[k] == ds[k]);
                } else {
                    assert(ds.last() == ds[k]);
                }
            }
        }
        if forall|k: int| 0 <= k < ds.len() ==> settled(#[trigger] ds[k].1) {
            assert forall|k: int| 0 <= k < p.len() implies settled(#[trigger] p[k].1) by {
                assert(p[k] == ds[k]);
            }
            assert(settled(ds[n].1));
            assert(ds.last() == ds[n]);
        }
    }
}

/// The first download that has neither finished nor failed is the one a
/// refusal names; with none, no download refuses.
pub proof fn law_first_unfinished_download_refuses(ds: Seq<(String, DownloadState)>)
    ensures
        first_busy_download(ds) is None <==> forall|k: int| 0 <= k < ds.len() ==> settled(#[trigger] ds[k].1),
        forall|k: int|
            0 <= k < ds.len() && !settled(#[trigger] ds[k].1) && (forall|j: int| 0 <= j < k ==> settled(#[trigger] ds[j].1))
                ==> first_busy_download(ds) == Some((ds[k].0@, ds[k].1)),
    decreases ds.len(),
{
    lemma_no_busy_download(ds);
    if ds.len() > 0 {
        let p = ds.drop_last();
        let n = ds.len() - 1;
        law_first_unfinished_download_refuses(p);
        lemma_no_busy_download(p);
        assert forall|k: int|
            0 <= k < ds.len() && !settled(#[trigger] ds[k].1) && (forall|j: int| 0 <= j < k ==> settled(#[trigger] ds[j].1))
                implies first_busy_download(ds) == Some((ds[k].0@, ds[k].1)) by {
            if k < n {
                assert(p[k] == ds[k]);
                assert forall|j: int| 0 <= j < k implies settled(#[trigger] p[j].1) by {
                    assert(p[j] == ds[j]);
                }
            } else {
                assert forall|j: int| 0 <= j < p.len() implies settled(#[trigger] p[j].1) by {
                    assert(p[j] == ds[j]);
                }
                assert(ds.last() == ds[k]);
            }
        }
    }
}

/// Refuse the whole request while a selected dataset is busy
/// (`dataset_reasons` holds the housekeeping verdict of each selected
/// dataset that exists), a selected training run (name, state) has not
/// finished, or a selected staging folder's download (file name, state)
/// is still going.
pub fn refuse_if_busy(
    dataset_reasons: &[Option<String>],
    runs: &[(String, RunState)],
    downloads: &[(String, DownloadState)],
) -> (r: Result<(), CoreError>)
    ensures
        match busy_message(dataset_reasons@, runs@, downloads@) {
            Some(m) => r matches Err(e) && e.config_message() == Some(m),
            None => r is Ok,
        },
        (exists|k: int| 0 <= k < downloads@.len() && !settled(#[trigger] downloads@[k].1)) ==> r is Err,
        (exists|i: int| 0 <= i < dataset_reasons@.len() && (#[trigger] dataset_reasons@[i]) is Some) ==> r is Err,
        (exists|j: int|
            0 <= j < runs@.len() && !((#[trigger] runs@[j]).1 == RunState::Completed || runs@[j].1 == RunState::Failed
                || runs@[j].1 == RunState::Cancelled)) ==> r is Err,
        forall|k: int|
            0 <= k < downloads@.len() && !settled(#[trigger] downloads@[k].1) && (forall|j: int|
                0 <= j < k ==> settled(#[trigger] downloads@[j].1)) && (forall|i: int|
                0 <= i < dataset_reasons@.len() ==> (#[trigger] dataset_reasons@[i]) is None) && (forall|i: int|
                0 <= i < runs@.len() ==> run_terminal((#[trigger] runs@[i]).1)) ==> (r matches Err(e)
                && e.config_message() == Some(busy_download_message(downloads@[k].0@, downloads@[k].1))),
{
    let mut i: usize = 0;
    assert(dataset_reasons@.take(0) =~= Seq::<Option<String>>::empty());
    while i < dataset_reasons.len()
        invariant
            i <= dataset_reasons@.len(),
            first_reason(dataset_reasons@.take(i as int)) is None,
        decreases dataset_reasons@.len() - i,
    {
        assert(dataset_reasons@.take(i + 1).drop_last() =~= dataset_reasons@.take(i as int));
        if let Some(why) = &dataset_reasons[i] {
            proof {
                lemma_first_settles(dataset_reasons@, i + 1);
            }
            return Err(CoreError::Config(why.clone()));
        }
        i = i + 1;
    }
    assert(dataset_reasons@.take(i as int) =~= dataset_reasons@);
    let mut j: usize = 0;
    assert(runs@.take(0) =~= Seq::<(String, RunState)>::empty());
    while j < runs.len()
        invariant
            j <= runs@.len(),
            first_reason(dataset_reasons@) is None,
            first_busy_run(runs@.take(j as int)) is None,
        decreases runs@.len() - j,
    {
        assert(runs@.take(j + 1).drop_last() =~= runs@.take(j as int));
        assert(runs@.take(j + 1).last() == runs@[j as int]);
        let (name, state) = (&runs[j].0, runs[j].1);
        if !state.is_terminal() {
            let mut m = String::from_str("training run \"");
            m.append(name.as_str());
            m.append("\" is ");
            m.append(state.as_str());
            m.append(" \u{2014} wait for it to finish or cancel it first");
            proof {
                lemma_first_run_settles(runs@, j + 1);
            }
            return Err(CoreError::Config(m));
        }
        j = j + 1;
    }
    assert(runs@.take(j as int) =~= runs@);
    let mut k: usize = 0;
    assert(downloads@.take(0) =~= Seq::<(String, DownloadState)>::empty());
    while k < downloads.len()
        invariant
            k <= downloads@.len(),
            first_reason(dataset_reasons@) is None,
            first_busy_run(runs@) is None,
            first_busy_download(downloads@.take(k as int)) is None,
        decreases downloads@.len() - k,
    {
        assert(downloads@.take(k + 1).drop_last() =~= downloads@.take(k as int));
        assert(downloads@.take(k + 1).last() == downloads@[k as int]);
        let (file, state) = (&downloads[k].0, downloads[k].1);
        if !state.is_terminal() {
            let mut m = String::from_str("the download of ");
            m.append(file.as_str());
            m.append(" is ");
            m.append(state.as_str());
            m.append(" \u{2014} wait for it to finish or cancel it first");
            proof {
                lemma_first_download_settles(downloads@, k + 1);
                law_first_unfinished_download_refuses(downloads@);
                lemma_no_reason(dataset_reasons@);
                lemma_no_busy_run(runs@);
            }
            return Err(CoreError::Config(m));
        }
        k = k + 1;
    }
    assert(downloads@.take(k as int) =~= downloads@);
    proof {
        law_first_unfinished_download_refuses(downloads@);
        lemma_reason_found(dataset_reasons@);
        lemma_busy_run_found(runs@);
    }
    Ok(())
}

proof fn lemma_first_settles(s: Seq<Option<String>>, i: int)
    requires
        0 <= i <= s.len(),
        first_reason(s.take(i)) is Some,
    ensures
        first_reason(s) == first_reason(s.take(i)),
    decreases s.len() - i,
{
    if i < s.len() {
        assert(s.take(i + 1).drop_last() =~= s.take(i));
        lemma_first_settles(s, i + 1);
    } else {
        assert(s.take(i) =~= s);
    }
}

proof fn lemma_first_run_settles(s: Seq<(String, RunState)>, i: int)
    requires
        0 <= i <= s.len(),
        first_busy_run(s.take(i)) is Some,
    ensures
        first_busy_run(s) == first_busy_run(s.take(i)),
    decreases s.len() - i,
{
    if i < s.len() {
        assert(s.take(i + 1).drop_last() =~= s.take(i));
        lemma_first_run_settles(s, i + 1);
    } else {
        assert(s.take(i) =~= s);
    }
}

proof fn lemma_first_download_settles(s: Seq<(String, DownloadState)>, i: int)
    requires
        0 <= i <= s.len(),
        first_busy_download(s.take(i)) is Some,
    ensures
        first_busy_download(s) == first_busy_download(s.take(i)),
    decreases s.len() - i,
{
    if i < s.len() {
        assert(s.take(i + 1).drop_last() =~= s.take(i));
        lemma_first_download_settles(s, i + 1);
    } else {
        assert(s.take(i) =~= s);
    }
}

/// One row of the cleanup log, written per entry after a real run: the
/// entry's outcome, its skips, and its paths (capped).
#[derive(Debug, Clone)]
pub struct CleanupLogRow {
    pub group_key: String,
    pub entry_id: String,
    pub entry_label: String,
    pub deleted_files: u64,
    pub freed_bytes: u64,
    pub removed_rows: u64,
    pub skipped_count: u64,
    pub skipped: Vec<SkippedFile>,
    pub paths: Vec<String>,
}

/// `row` logs the entry `e`.
pub open spec fn log_row_of(e: EntryResult, row: CleanupLogRow) -> bool {
    &&& row.group_key == e.group
    &&& row.entry_id == e.id
    &&& row.entry_label == e.label
    &&& row.deleted_files == e.files
    &&& row.freed_bytes == e.bytes
    &&& row.removed_rows == e.rows
    &&& row.skipped_count == e.skipped@.len()
    &&& row.skipped@ == e.skipped@
    &&& views(row.paths@) == crate::cleanup::scan::capped_lines(views(e.paths@))
}

fn copy_skips(v: &Vec<SkippedFile>) -> (r: Vec<SkippedFile>)
    ensures
        r@ == v@,
{
    let mut out: Vec<SkippedFile> = Vec::new();
    let mut k: usize = 0;
    while k < v.len()
        invariant
            k <= v@.len(),
            out@ == v@.take(k as int),
        decreases v@.len() - k,
    {
        out.push(copy_skip(&v[k]));
        assert(v@.take(k + 1) =~= v@.take(k as int).push(v@[k as int]));
        k = k + 1;
    }
    assert(v@.take(k as int) =~= v@);
    out
}

/// The cleanup log's rows for a real run: one per entry, in order.
pub fn log_rows(entries: &[EntryResult]) -> (r: Vec<CleanupLogRow>)
    ensures
        r@.len() == entries@.len(),
        forall|i: int| 0 <= i < entries@.len() ==> log_row_of(entries@[i], #[trigger] r@[i]),
{
    let mut out: Vec<CleanupLogRow> = Vec::new();
    let mut i: usize = 0;
    while i < entries.len()
        invariant
            i <= entries@.len(),
            out@.len() == i,
            forall|t: int| 0 <= t < i ==> log_row_of(entries@[t], #[trigger] out@[t]),
        decreases entries@.len() - i,
    {
        let e = &entries[i];
        let paths = crate::cleanup::scan::capped(crate::text::copy_strings(&e.paths));
        let row = CleanupLogRow {
            group_key: e.group.clone(),
            entry_id: e.id.clone(),
            entry_label: e.label.clone(),
            deleted_files: e.files,
            freed_bytes: e.bytes,
            removed_rows: e.rows,
            skipped_count: e.skipped.len() as u64,
            skipped: copy_skips(&e.skipped),
            paths,
        };
        out.push(row);
        i = i + 1;
    }
    out
}

proof fn lemma_no_reason(s: Seq<Option<String>>)
    ensures
        (forall|i: int| 0 <= i < s.len() ==> (#[trigger] s[i]) is None) ==> first_reason(s) is None,
    decreases s.len(),
{
    if s.len() > 0 {
        lemma_no_reason(s.drop_last());
        if forall|i: int| 0 <= i < s.len() ==> (#[trigger] s[i]) is None {
            assert forall|i: int| 0 <= i < s.drop_last().len() implies (#[trigger] s.drop_last()[i]) is None by {
                assert(s.drop_last()[i] == s[i]);
            }
            assert(s.last() == s[s.len() - 1]);
        }
    }
}

proof fn lemma_no_busy_run(s: Seq<(String, RunState)>)
    ensures
        (forall|i: int| 0 <= i < s.len() ==> run_terminal((#[trigger] s[i]).1)) ==> first_busy_run(s) is None,
    decreases s.len(),
{
    if s.len() > 0 {
        lemma_no_busy_run(s.drop_last());
        if forall|i: int| 0 <= i < s.len() ==> run_terminal((#[trigger] s[i]).1) {
            assert forall|i: int| 0 <= i < s.drop_last().len() implies run_terminal((#[trigger] s.drop_last()[i]).1) by {
                assert(s.drop_last()[i] == s[i]);
            }
            assert(s.last() == s[s.len() - 1]);
        }
    }
}

proof fn lemma_reason_found(s: Seq<Option<String>>)
    ensures
        (exists|i: int| 0 <= i < s.len() && (#[trigger] s[i]) is Some) ==> first_reason(s) is Some,
    decreases s.len(),
{
    if s.len() > 0 {
        lemma_reason_found(s.drop_last());
        if exists|i: int| 0 <= i < s.len() && (#[trigger] s[i]) is Some {
            let i = choose|i: int| 0 <= i < s.len() && (#[trigger] s[i]) is Some;
            if i < s.len() - 1 {
                assert(s.drop_last()[i] == s[i]);
            }
        }
    }
}

proof fn lemma_busy_run_found(s: Seq<(String, RunState)>)
    ensures
        (exists|j: int| 0 <= j < s.len() && !run_terminal((#[trigger] s[j]).1)) ==> first_busy_run(s) is Some,
    decreases s.len(),
{
    if s.len() > 0 {
        lemma_busy_run_found(s.drop_last());
        if exists|j: int| 0 <= j < s.len() && !run_terminal((#[trigger] s[j]).1) {
            let j = choose|j: int| 0 <= j < s.len() && !run_terminal((#[trigger] s[j]).1);
            if j < s.len() - 1 {
                assert(s.drop_last()[j] == s[j]);
            }
        }
    }
}

} // verus!
