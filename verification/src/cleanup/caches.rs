//! Groups `caches`, `old_logs` and `db_backups`: whole folders offered as
//! one entry, download staging folders no unfinished download owns,
//! ComfyUI scratch files older than an hour that no unfinished job staged,
//! log files older than 30 days (never the newest one), and every backup.

use vstd::prelude::*;

use crate::cleanup::apply::{display, display_text};
use crate::cleanup::media::{date_or_unknown, file_name, file_name_of, format_ymd};
use crate::cleanup::scan::{capped, capped_lines, note, CleanupEntry, ProtectedNote, ScanContext};
use crate::cleanup::outputs::{DAY_NANOS, EARLIEST_NANOS};
use crate::order::{lemma_lex_asymmetric, lemma_lex_irreflexive, lemma_lex_total, lemma_lex_transitive, lex_lt, str_lt};
use crate::states::{download_state_name, DownloadState};
use crate::text::{decimal, decimal_string, str_eq, views};

verus! {

/// Log files older than this many days are offered.
pub const OLD_LOG_DAYS: i64 = 30;

/// A ComfyUI scratch file younger than this (one hour) may still be in use.
pub const LEFTOVER_MIN_AGE_NANOS: i128 = 3_600_000_000_000;

/// One regular file a walk found.
#[derive(Debug, Clone, PartialEq, Eq)]
pub struct ScannedFile {
    pub path: String,
    pub bytes: u64,
    /// Last modification, in nanoseconds since the Unix epoch, when known.
    pub modified_nanos: Option<i128>,
}

/// One entry for a whole folder, when it holds anything.
pub fn folder_entry(id: &str, label: &str, dir: &str, files: u64, bytes: u64) -> (r: Option<CleanupEntry>)
    ensures
        files == 0 ==> r is None,
        files > 0 ==> (r matches Some(e) && e.id@ == id@ && e.label@ == label@ && e.files == files && e.bytes
            == bytes && e.rows == 0 && views(e.detail@) == seq![display_text(dir@)]),
{
    if files == 0 {
        return None;
    }
    let e = CleanupEntry {
        id: String::from_str(id),
        label: String::from_str(label),
        files,
        bytes,
        rows: 0,
        detail: vec![display(dir)],
    };
    assert(views(e.detail@) =~= seq![display_text(dir@)]);
    Some(e)
}


/// What the scan does with one download staging folder.
#[derive(Debug)]
pub enum StagingVerdict {
    /// A download that has not finished owns it: protected.
    Busy(ProtectedNote),
    /// It is or holds an app folder: protected.
    Refused(ProtectedNote),
    /// Offered as a whole under this entry id and label.
    Offer { id: String, label: String },
}

/// The first unfinished download with id `name`.
pub open spec fn owner_of(downloads: Seq<(String, String, DownloadState)>, name: Seq<char>, n: int) -> Option<(Seq<char>, DownloadState)>
    decreases n,
{
    if n <= 0 {
        None
    } else {
        match owner_of(downloads, name, n - 1) {
            Some(x) => Some(x),
            None => {
                let (id, file, state) = downloads[n - 1];
                if id@ == name && !(state == DownloadState::Done || state == DownloadState::Failed) {
                    Some((file@, state))
                } else {
                    None
                }
            },
        }
    }
}

proof fn lemma_owner_settles(d: Seq<(String, String, DownloadState)>, name: Seq<char>, i: int)
    requires
        0 <= i <= d.len(),
        owner_of(d, name, i) is Some,
    ensures
        owner_of(d, name, d.len() as int) == owner_of(d, name, i),
    decreases d.len() - i,
{
    if i < d.len() {
        lemma_owner_settles(d, name, i + 1);
    }
}

/// A download that has neither finished nor failed, whose id names the
/// folder, owns it, and only such a download does: the first of them, with
/// its file and state.
pub proof fn law_unfinished_downloads_own_their_staging(
    downloads: Seq<(String, String, DownloadState)>,
    name: Seq<char>,
    n: int,
)
    requires
        0 <= n <= downloads.len(),
    ensures
        (exists|k: int|
            0 <= k < n && (#[trigger] downloads[k]).0@ == name && downloads[k].2 != DownloadState::Done
                && downloads[k].2 != DownloadState::Failed) <==> owner_of(downloads, name, n) is Some,
        owner_of(downloads, name, n) matches Some((file, state)) ==> state != DownloadState::Done && state
            != DownloadState::Failed && exists|k: int|
            0 <= k < n && (#[trigger] downloads[k]).0@ == name && downloads[k].1@ == file && downloads[k].2
                == state,
    decreases n,
{
    if n > 0 {
        law_unfinished_downloads_own_their_staging(downloads, name, n - 1);
        if owner_of(downloads, name, n - 1) is None && (exists|k: int|
            0 <= k < n && (#[trigger] downloads[k]).0@ == name && downloads[k].2 != DownloadState::Done
                && downloads[k].2 != DownloadState::Failed) {
            let k = choose|k: int|
                0 <= k < n && (#[trigger] downloads[k]).0@ == name && downloads[k].2 != DownloadState::Done
                    && downloads[k].2 != DownloadState::Failed;
            assert(k == n - 1);
        }
    }
}

/// The verdict on the staging folder `dir`, given every download as (id,
/// file name, state): an unfinished download whose id is the folder's name
/// owns it; else the folder rules; else it is offered.
pub fn staging_verdict(ctx: &ScanContext, dir: &str, downloads: &[(String, String, DownloadState)]) -> (r: StagingVerdict)
    ensures
        ({
            let name = file_name_of(dir@);
            match owner_of(downloads@, name, downloads@.len() as int) {
                Some((file, state)) => r matches StagingVerdict::Busy(n) && n.what@ == "Download staging of "@
                    + file && n.reason@ == "the download is "@ + download_state_name(state),
                None => match ctx.whole_folder_reason(dir@, None) {
                    Some(why) => r matches StagingVerdict::Refused(n) && n.what@ == "Download staging "@
                        + display_text(dir@) && n.reason@ == why,
                    None => r matches StagingVerdict::Offer { id, label } && id@ == "download-staging:"@
                        + name && label@ == "Download staging "@ + name,
                },
            }
        }),
        (exists|k: int|
            0 <= k < downloads@.len() && (#[trigger] downloads@[k]).0@ == file_name_of(dir@) && downloads@[k].2
                != DownloadState::Done && downloads@[k].2 != DownloadState::Failed) <==> r is Busy,
{
    proof {
        law_unfinished_downloads_own_their_staging(downloads@, file_name_of(dir@), downloads@.len() as int);
    }
    let name = file_name(dir);
    let mut i: usize = 0;
    while i < downloads.len()
        invariant
            i <= downloads@.len(),
            name@ == file_name_of(dir@),
            owner_of(downloads@, name@, i as int) is None,
        decreases downloads@.len() - i,
    {
        let (id, file, state) = (&downloads[i].0, &downloads[i].1, downloads[i].2);
        if str_eq(id.as_str(), name.as_str()) && !state.is_terminal() {
            let mut what = String::from_str("Download staging of ");
            what.append(file.as_str());
            let mut reason = String::from_str("the download is ");
            reason.append(state.as_str());
            proof {
                assert(downloads@[i as int].0 == *id && downloads@[i as int].1 == *file);
                assert(downloads@[i as int].2 == state);
                assert(owner_of(downloads@, name@, i + 1) == Some((file@, state)));
                lemma_owner_settles(downloads@, name@, i + 1);
            }
            return StagingVerdict::Busy(note(what, reason));
        }
        i = i + 1;
    }
    if let Some(why) = ctx.whole_folder_refusal(dir, None) {
        let mut what = String::from_str("Download staging ");
        what.append(display(dir).as_str());
        return StagingVerdict::Refused(note(what, why));
    }
    let mut id = String::from_str("download-staging:");
    id.append(name.as_str());
    let mut label = String::from_str("Download staging ");
    label.append(name.as_str());
    StagingVerdict::Offer { id, label }
}

/// The stem of a file name: up to its last dot, unless that dot leads the
/// name (`.bashrc`) or there is none.
pub open spec fn stem_of(name: Seq<char>) -> Seq<char>
    decreases name.len(),
{
    if name.len() == 0 {
        name
    } else if name == ".."@ {
        name
    } else {
        match last_dot(name) {
            Some(k) => if k == 0 {
                name
            } else {
                name.take(k)
            },
            None => name,
        }
    }
}

/// The position of the last `.` of `s`.
pub open spec fn last_dot(s: Seq<char>) -> Option<int>
    decreases s.len(),
{
    if s.len() == 0 {
        None
    } else if s.last() == '.' {
        Some(s.len() - 1)
    } else {
        last_dot(s.drop_last())
    }
}

proof fn lemma_last_dot(s: Seq<char>, i: int)
    requires
        0 <= i <= s.len(),
        forall|k: int| i <= k < s.len() ==> s[k] != '.',
    ensures
        last_dot(s) == last_dot(s.take(i)),
    decreases s.len() - i,
{
    if i < s.len() {
        assert(s.last() != '.');
        assert(s.drop_last().take(i) =~= s.take(i));
        lemma_last_dot(s.drop_last(), i);
    } else {
        assert(s.take(i) =~= s);
    }
}

proof fn lemma_last_dot_bound(s: Seq<char>)
    ensures
        last_dot(s) matches Some(k) ==> 0 <= k < s.len(),
    decreases s.len(),
{
    if s.len() > 0 {
        lemma_last_dot_bound(s.drop_last());
    }
}

/// The stem of a file name.
pub fn file_stem(name: &str) -> (r: String)
    ensures
        r@ == stem_of(name@),
{
    let n = name.unicode_len();
    proof {
        reveal_strlit("..");
    }
    if n == 0 || str_eq(name, "..") {
        return String::from_str(name);
    }
    let mut i: usize = n;
    while i > 0 && name.get_char(i - 1) != '.'
        invariant
            n == name@.len(),
            i <= n,
            forall|k: int| i <= k < n ==> name@[k] != '.',
        decreases i,
    {
        i = i - 1;
    }
    proof {
        lemma_last_dot(name@, i as int);
        if i > 0 {
            assert(name@.take(i as int).last() == '.');
        } else {
            assert(name@.take(0).len() == 0);
        }
    }
    if i <= 1 {
        String::from_str(name)
    } else {
        String::from_str(name.substring_char(0, i - 1))
    }
}

/// `f` is a ComfyUI leftover: older than an hour and not staged by an
/// unfinished job (`active` holds those jobs' ids; a staged file is
/// `<job_id>.<ext>`).
pub open spec fn is_leftover(f: ScannedFile, active: Seq<Seq<char>>, now: int) -> bool {
    &&& f.modified_nanos matches Some(m) && now - m >= LEFTOVER_MIN_AGE_NANOS
    &&& !active.contains(stem_of(file_name_of(f.path@)))
}

/// The leftovers among `files`, in order.
pub open spec fn leftovers_of(files: Seq<ScannedFile>, active: Seq<Seq<char>>, now: int) -> Seq<ScannedFile>
    decreases files.len(),
{
    if files.len() == 0 {
        files
    } else if is_leftover(files.last(), active, now) {
        leftovers_of(files.drop_last(), active, now).push(files.last())
    } else {
        leftovers_of(files.drop_last(), active, now)
    }
}

fn copy_scanned(f: &ScannedFile) -> (r: ScannedFile)
    ensures
        r == *f,
{
    ScannedFile { path: f.path.clone(), bytes: f.bytes, modified_nanos: f.modified_nanos }
}

/// The files under one ComfyUI scratch folder that are leftovers.
pub fn comfyui_leftover_files(files: &[ScannedFile], active: &[String], now_nanos: i128) -> (r: Vec<ScannedFile>)
    requires
        now_nanos >= crate::cleanup::outputs::EARLIEST_NANOS,
    ensures
        r@ == leftovers_of(files@, views(active@), now_nanos as int),
{
    let mut out: Vec<ScannedFile> = Vec::new();
    let mut i: usize = 0;
    assert(files@.take(0) =~= Seq::<ScannedFile>::empty());
    while i < files.len()
        invariant
            i <= files@.len(),
            now_nanos >= crate::cleanup::outputs::EARLIEST_NANOS,
            out@ == leftovers_of(files@.take(i as int), views(active@), now_nanos as int),
        decreases files@.len() - i,
    {
        let f = &files[i];
        assert(files@.take(i + 1).drop_last() =~= files@.take(i as int));
        assert(files@.take(i + 1).last() == *f);
        let old_enough = match f.modified_nanos {
            Some(m) => m <= now_nanos - LEFTOVER_MIN_AGE_NANOS,
            None => false,
        };
        if old_enough {
            let stem = file_stem(file_name(f.path.as_str()).as_str());
            let mut staged = false;
            let mut k: usize = 0;
            while k < active.len()
                invariant
                    k <= active@.len(),
                    staged == exists|j: int| 0 <= j < k && active@[j]@ == stem@,
                decreases active@.len() - k,
            {
                if str_eq(active[k].as_str(), stem.as_str()) {
                    staged = true;
                }
                k = k + 1;
            }
            proof {
                if views(active@).contains(stem@) {
                    let j = choose|j: int| 0 <= j < views(active@).len() && views(active@)[j] == stem@;
                    assert(active@[j]@ == stem@);
                }
                if staged {
                    let j = choose|j: int| 0 <= j < k && active@[j]@ == stem@;
                    assert(views(active@)[j] == stem@);
                }
            }
            if !staged {
                out.push(copy_scanned(f));
            }
        }
        i = i + 1;
    }
    assert(files@.take(i as int) =~= files@);
    out
}

/// `(modified, path)` of `a` sorts before that of `b`: no time before any
/// time, then by time, then by path. For the files of one folder, paths
/// compare as their names do.
pub open spec fn log_key_lt(a: ScannedFile, b: ScannedFile) -> bool {
    match (a.modified_nanos, b.modified_nanos) {
        (None, Some(_)) => true,
        (Some(_), None) => false,
        (Some(x), Some(y)) => x < y || (x == y && lex_lt(a.path@, b.path@)),
        (None, None) => lex_lt(a.path@, b.path@),
    }
}

/// The index of the newest of the first `n` files: the greatest
/// `(modified, path)`, the later one of equal keys.
pub open spec fn newest_index(files: Seq<ScannedFile>, n: int) -> int
    decreases n,
{
    if n <= 1 {
        0
    } else {
        let b = newest_index(files, n - 1);
        if log_key_lt(files[n - 1], files[b]) {
            b
        } else {
            n - 1
        }
    }
}

/// The instant before which a log counts as old.
pub open spec fn log_cutoff(now: int) -> int {
    now - OLD_LOG_DAYS * DAY_NANOS
}

/// The files of `files` older than the cutoff whose path is not `newest`,
/// in order.
pub open spec fn old_logs_of(files: Seq<ScannedFile>, newest: Seq<char>, now: int) -> Seq<ScannedFile>
    decreases files.len(),
{
    if files.len() == 0 {
        files
    } else {
        let f = files.last();
        let rest = old_logs_of(files.drop_last(), newest, now);
        if f.path@ != newest && (f.modified_nanos matches Some(m) && m < log_cutoff(now)) {
            rest.push(f)
        } else {
            rest
        }
    }
}

/// The old logs of one folder's files: older than 30 days, never the
/// newest file.
pub open spec fn old_log_selection(files: Seq<ScannedFile>, now: int) -> Seq<ScannedFile> {
    if files.len() == 0 {
        files
    } else {
        old_logs_of(files, files[newest_index(files, files.len() as int)].path@, now)
    }
}

fn log_key_before(a: &ScannedFile, b: &ScannedFile) -> (r: bool)
    ensures
        r == log_key_lt(*a, *b),
{
    match (a.modified_nanos, b.modified_nanos) {
        (None, Some(_)) => true,
        (Some(_), None) => false,
        (Some(x), Some(y)) => x < y || (x == y && str_lt(a.path.as_str(), b.path.as_str())),
        (None, None) => str_lt(a.path.as_str(), b.path.as_str()),
    }
}

/// The log files of one folder older than [`OLD_LOG_DAYS`] days, never
/// the newest one (today's, or the only one there is).
pub fn old_log_candidates(files: &[ScannedFile], now_nanos: i128) -> (r: Vec<ScannedFile>)
    requires
        now_nanos - OLD_LOG_DAYS * DAY_NANOS >= EARLIEST_NANOS,
    ensures
        r@ == old_log_selection(files@, now_nanos as int),
{
    let n = files.len();
    if n == 0 {
        return Vec::new();
    }
    let mut best: usize = 0;
    let mut i: usize = 1;
    while i < n
        invariant
            n == files@.len(),
            1 <= i <= n,
            best as int == newest_index(files@, i as int),
            best < i,
        decreases n - i,
    {
        if !log_key_before(&files[i], &files[best]) {
            best = i;
        }
        i = i + 1;
    }
    let newest = &files[best].path;
    let cutoff: i128 = now_nanos - (OLD_LOG_DAYS as i128) * DAY_NANOS;
    let mut out: Vec<ScannedFile> = Vec::new();
    let mut k: usize = 0;
    assert(files@.take(0) =~= Seq::<ScannedFile>::empty());
    while k < n
        invariant
            n == files@.len(),
            k <= n,
            cutoff == log_cutoff(now_nanos as int),
            out@ == old_logs_of(files@.take(k as int), newest@, now_nanos as int),
        decreases n - k,
    {
        let f = &files[k];
        assert(files@.take(k + 1).drop_last() =~= files@.take(k as int));
        assert(files@.take(k + 1).last() == *f);
        let old = match f.modified_nanos {
            Some(m) => m < cutoff,
            None => false,
        };
        if old && !str_eq(f.path.as_str(), newest.as_str()) {
            out.push(copy_scanned(f));
        }
        k = k + 1;
    }
    assert(files@.take(n as int) =~= files@);
    out
}

proof fn lemma_log_key_order(a: ScannedFile, b: ScannedFile, c: ScannedFile)
    ensures
        !log_key_lt(a, a),
        log_key_lt(a, b) ==> !log_key_lt(b, a),
        !log_key_lt(a, b) && log_key_lt(a, c) ==> log_key_lt(b, c),
{
    lemma_lex_irreflexive(a.path@);
    if lex_lt(a.path@, b.path@) {
        lemma_lex_asymmetric(a.path@, b.path@);
    }
    lemma_lex_total(a.path@, b.path@);
    if lex_lt(b.path@, a.path@) && lex_lt(a.path@, c.path@) {
        lemma_lex_transitive(b.path@, a.path@, c.path@);
    }
}

proof fn lemma_newest_is_greatest(files: Seq<ScannedFile>, n: int)
    requires
        1 <= n <= files.len(),
    ensures
        0 <= newest_index(files, n) < n,
        forall|j: int| 0 <= j < n ==> !log_key_lt(files[newest_index(files, n)], #[trigger] files[j]),
    decreases n,
{
    if n > 1 {
        lemma_newest_is_greatest(files, n - 1);
        let b = newest_index(files, n - 1);
        let k = newest_index(files, n);
        assert forall|j: int| 0 <= j < n implies !log_key_lt(files[k], #[trigger] files[j]) by {
            lemma_log_key_order(files[n - 1], files[b], files[j]);
            lemma_log_key_order(files[b], files[n - 1], files[j]);
            if j < n - 1 {
                assert(!log_key_lt(files[b], files[j]));
            }
        }
    } else {
        assert forall|j: int| 0 <= j < n implies !log_key_lt(files[0], #[trigger] files[j]) by {
            lemma_log_key_order(files[0], files[0], files[0]);
        }
    }
}

proof fn lemma_old_logs_members(files: Seq<ScannedFile>, newest: Seq<char>, now: int)
    ensures
        forall|t: int| 0 <= t < old_logs_of(files, newest, now).len() ==> {
            let f = #[trigger] old_logs_of(files, newest, now)[t];
            &&& files.contains(f)
            &&& f.path@ != newest
            &&& f.modified_nanos matches Some(m) && m < log_cutoff(now)
        },
    decreases files.len(),
{
    if files.len() > 0 {
        lemma_old_logs_members(files.drop_last(), newest, now);
        let rest = old_logs_of(files.drop_last(), newest, now);
        assert forall|t: int| 0 <= t < rest.len() implies files.contains(#[trigger] rest[t]) by {
            let f = rest[t];
            let i = choose|i: int| 0 <= i < files.drop_last().len() && files.drop_last()[i] == f;
            assert(files[i] == f);
        }
        assert(files[files.len() - 1] == files.last());
    }
}

/// The newest log is never offered: the file the selection leaves out has
/// the greatest `(modified, path)` of the folder, and no selected file
/// shares its path; every selected file is one of the folder's and older
/// than the cutoff.
pub proof fn law_newest_log_is_kept(files: Seq<ScannedFile>, now: int)
    requires
        files.len() > 0,
    ensures
        ({
            let k = newest_index(files, files.len() as int);
            let sel = old_log_selection(files, now);
            &&& 0 <= k < files.len()
            &&& forall|j: int| 0 <= j < files.len() ==> !log_key_lt(files[k], #[trigger] files[j])
            &&& forall|t: int| 0 <= t < sel.len() ==> (#[trigger] sel[t]).path@ != files[k].path@
                && files.contains(sel[t]) && (sel[t].modified_nanos matches Some(m) && m < log_cutoff(now))
        }),
{
    lemma_newest_is_greatest(files, files.len() as int);
    let k = newest_index(files, files.len() as int);
    lemma_old_logs_members(files, files[k].path@, now);
}

/// The bytes of `files`, summed.
pub open spec fn scanned_bytes(files: Seq<ScannedFile>) -> int
    decreases files.len(),
{
    if files.len() == 0 {
        0
    } else {
        scanned_bytes(files.drop_last()) + files.last().bytes
    }
}

/// The names of `files`, in order.
pub open spec fn scanned_names(files: Seq<ScannedFile>) -> Seq<Seq<char>> {
    files.map_values(|f: ScannedFile| file_name_of(f.path@))
}

proof fn lemma_scanned_bytes_prefix(files: Seq<ScannedFile>, i: int)
    requires
        0 <= i <= files.len(),
    ensures
        0 <= scanned_bytes(files.take(i)) <= scanned_bytes(files),
    decreases files.len(),
{
    if files.len() > 0 {
        if i == files.len() {
            assert(files.take(i) =~= files);
            lemma_scanned_bytes_prefix(files.drop_last(), i - 1);
            assert(files.drop_last().take(i - 1) =~= files.drop_last());
        } else {
            lemma_scanned_bytes_prefix(files.drop_last(), i);
            assert(files.drop_last().take(i) =~= files.take(i));
        }
    } else {
        assert(files.take(i) =~= files);
    }
}

/// `e` offers `files` as one entry: their count and bytes, their names
/// (capped) as detail.
pub open spec fn files_entry(e: CleanupEntry, id: Seq<char>, label: Seq<char>, files: Seq<ScannedFile>) -> bool {
    &&& e.id@ == id
    &&& e.label@ == label
    &&& e.files == files.len()
    &&& e.bytes == scanned_bytes(files)
    &&& e.rows == 0
    &&& views(e.detail@) == capped_lines(scanned_names(files))
}

pub(crate) fn entry_of_files(id: String, label: String, files: &[ScannedFile]) -> (r: CleanupEntry)
    requires
        scanned_bytes(files@) <= u64::MAX,
    ensures
        files_entry(r, id@, label@, files@),
{
    let n = files.len();
    let mut bytes: u64 = 0;
    let mut names: Vec<String> = Vec::new();
    let mut i: usize = 0;
    assert(files@.take(0) =~= Seq::<ScannedFile>::empty());
    while i < n
        invariant
            n == files@.len(),
            i <= n,
            scanned_bytes(files@) <= u64::MAX,
            bytes == scanned_bytes(files@.take(i as int)),
            views(names@) == scanned_names(files@.take(i as int)),
        decreases n - i,
    {
        assert(files@.take(i + 1).drop_last() =~= files@.take(i as int));
        proof {
            lemma_scanned_bytes_prefix(files@, i + 1);
        }
        bytes = bytes + files[i].bytes;
        let ghost prev = names@;
        names.push(file_name(files[i].path.as_str()));
        assert(views(names@) =~= views(prev).push(file_name_of(files@[i as int].path@)));
        assert(scanned_names(files@.take(i + 1)) =~= scanned_names(files@.take(i as int)).push(
            file_name_of(files@[i as int].path@),
        ));
        i = i + 1;
    }
    assert(files@.take(n as int) =~= files@);
    CleanupEntry { id, label, files: n as u64, bytes, rows: 0, detail: capped(names) }
}

/// The one entry `old-logs` for the old log files, when there are any:
/// "<n> log file(s) older than 30 days".
pub fn old_logs_entry(old: &[ScannedFile]) -> (r: Option<CleanupEntry>)
    requires
        scanned_bytes(old@) <= u64::MAX,
    ensures
        old@.len() == 0 ==> r is None,
        old@.len() > 0 ==> (r matches Some(e) && files_entry(e, "old-logs"@, decimal(old@.len()) + " log file(s) older than "@
            + decimal(OLD_LOG_DAYS as nat) + " days"@, old@)),
{
    if old.len() == 0 {
        return None;
    }
    let mut label = decimal_string(old.len() as u64);
    label.append(" log file(s) older than ");
    label.append(decimal_string(OLD_LOG_DAYS as u64).as_str());
    label.append(" days");
    Some(entry_of_files(String::from_str("old-logs"), label, old))
}

/// The entry `comfyui:<sub>` for one scratch folder's leftovers, when there
/// are any: "ComfyUI <sub> leftovers".
pub fn comfyui_entry(sub: &str, leftovers: &[ScannedFile]) -> (r: Option<CleanupEntry>)
    requires
        scanned_bytes(leftovers@) <= u64::MAX,
    ensures
        leftovers@.len() == 0 ==> r is None,
        leftovers@.len() > 0 ==> (r matches Some(e) && files_entry(e, "comfyui:"@ + sub@, "ComfyUI "@ + sub@
            + " leftovers"@, leftovers@)),
{
    if leftovers.len() == 0 {
        return None;
    }
    let mut id = String::from_str("comfyui:");
    id.append(sub);
    let mut label = String::from_str("ComfyUI ");
    label.append(sub);
    label.append(" leftovers");
    Some(entry_of_files(id, label, leftovers))
}

/// The date a file was last modified, or `?` when it is unknown.
pub open spec fn date_of_modified(m: Option<i128>) -> Seq<char> {
    match m {
        Some(n) => date_or_unknown(n as int),
        None => "?"@,
    }
}

/// The date of `modified` as `YYYY-MM-DD`, or `?`.
pub fn date_of(modified: Option<i128>) -> (r: String)
    ensures
        r@ == date_of_modified(modified),
{
    match modified {
        Some(n) => match format_ymd(n) {
            Some(d) => d,
            None => String::from_str("?"),
        },
        None => String::from_str("?"),
    }
}

/// `e` offers one backup file: by name, labelled with its date.
pub open spec fn backup_entry_of(f: ScannedFile, e: CleanupEntry) -> bool {
    &&& e.id@ == file_name_of(f.path@)
    &&& e.label@ == file_name_of(f.path@) + " ("@ + date_of_modified(f.modified_nanos) + ")"@
    &&& e.files == 1
    &&& e.bytes == f.bytes
    &&& e.rows == 0
    &&& views(e.detail@) == seq![display_text(f.path@)]
}

/// Every file of the exports folder, one entry each, dated.
pub fn backup_entries(files: &[ScannedFile]) -> (r: Vec<CleanupEntry>)
    ensures
        r@.len() == files@.len(),
        forall|t: int| 0 <= t < files@.len() ==> backup_entry_of(files@[t], #[trigger] r@[t]),
{
    let mut out: Vec<CleanupEntry> = Vec::new();
    let mut i: usize = 0;
    while i < files.len()
        invariant
            i <= files@.len(),
            out@.len() == i,
            forall|t: int| 0 <= t < i ==> backup_entry_of(files@[t], #[trigger] out@[t]),
        decreases files@.len() - i,
    {
        let f = &files[i];
        let name = file_name(f.path.as_str());
        let mut label = name.clone();
        label.append(" (");
        label.append(date_of(f.modified_nanos).as_str());
        label.append(")");
        let e = CleanupEntry { id: name, label, files: 1, bytes: f.bytes, rows: 0, detail: vec![display(f.path.as_str())] };
        assert(views(e.detail@) =~= seq![display_text(f.path@)]);
        out.push(e);
        i = i + 1;
    }
    out
}

/// What an unfinished job staged is never a leftover, nor is anything
/// younger than an hour or of unknown age: every leftover is one of the
/// folder's files, at least an hour old, and its stem is no active job's id.
pub proof fn law_active_job_files_are_never_leftovers(files: Seq<ScannedFile>, active: Seq<Seq<char>>, now: int)
    ensures
        forall|t: int| 0 <= t < leftovers_of(files, active, now).len() ==> {
            let f = #[trigger] leftovers_of(files, active, now)[t];
            &&& files.contains(f)
            &&& f.modified_nanos matches Some(m) && now - m >= LEFTOVER_MIN_AGE_NANOS
            &&& !active.contains(stem_of(file_name_of(f.path@)))
        },
    decreases files.len(),
{
    if files.len() > 0 {
        law_active_job_files_are_never_leftovers(files.drop_last(), active, now);
        let rest = leftovers_of(files.drop_last(), active, now);
        assert forall|t: int| 0 <= t < rest.len() implies files.contains(#[trigger] rest[t]) by {
            let i = choose|i: int| 0 <= i < files.drop_last().len() && files.drop_last()[i] == rest[t];
            assert(files[i] == rest[t]);
        }
        assert(files[files.len() - 1] == files.last());
    }
}

} // verus!
