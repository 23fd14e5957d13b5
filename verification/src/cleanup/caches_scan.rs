//! The scan of groups `caches`, `old_logs` and `db_backups`, from what the
//! walk of the app's folders found: the cache folder and the pending import
//! as whole folders, the download staging folders, the ComfyUI scratch
//! leftovers, the old logs and every backup.

use vstd::prelude::*;

use crate::cleanup::apply::{display, display_text};
use crate::cleanup::caches::{
    backup_entries, backup_entry_of, comfyui_entry, comfyui_leftover_files, files_entry,
    folder_entry, leftovers_of, newest_index, old_log_candidates, old_log_selection, old_logs_entry,
    old_logs_of, owner_of, scanned_bytes, staging_verdict, ScannedFile, StagingVerdict,
    OLD_LOG_DAYS,
};
use crate::cleanup::media::file_name_of;
use crate::cleanup::outputs::{DAY_NANOS, EARLIEST_NANOS};
use crate::cleanup::scan::{entry_bytes, entry_files, group, label_of, CleanupEntry, CleanupGroup, ProtectedNote, ScanContext};
use crate::states::{download_state_name, DownloadState};
use crate::text::{decimal, views};

verus! {

/// What a walk of one folder counted.
#[derive(Debug, Clone, Copy, PartialEq, Eq)]
pub struct FolderTotals {
    pub files: u64,
    pub bytes: u64,
}

/// One direct child folder of the download staging root (a real folder,
/// never a link), with what a walk of it counted.
#[derive(Debug, Clone)]
pub struct StagingDir {
    pub path: String,
    pub totals: FolderTotals,
}

/// The files found under ComfyUI's three scratch folders.
#[derive(Debug, Clone)]
pub struct ScratchWalks {
    pub input: Vec<ScannedFile>,
    pub temp: Vec<ScannedFile>,
    pub output: Vec<ScannedFile>,
}

/// `n` is the note `what`: `reason`.
pub open spec fn note_is(n: ProtectedNote, what: Seq<char>, reason: Seq<char>) -> bool {
    n.what@ == what && n.reason@ == reason
}

/// `e` offers the folder `dir` as a whole.
pub open spec fn folder_entry_is(e: CleanupEntry, id: Seq<char>, label: Seq<char>, dir: Seq<char>, t: FolderTotals) -> bool {
    &&& e.id@ == id
    &&& e.label@ == label
    &&& e.files == t.files
    &&& e.bytes == t.bytes
    &&& e.rows == 0
    &&& views(e.detail@) == seq![display_text(dir)]
}

/// A folder the app owns outright: refused with a note when it is, or
/// holds, another app folder; else one entry when it holds anything.
pub open spec fn root_section(
    ctx: ScanContext,
    dir: Seq<char>,
    what: Seq<char>,
    id: Seq<char>,
    label: Seq<char>,
    t: FolderTotals,
    es: Seq<CleanupEntry>,
    ns: Seq<ProtectedNote>,
) -> bool {
    match ctx.whole_folder_reason(dir, Some(dir)) {
        Some(why) => es.len() == 0 && ns.len() == 1 && note_is(ns[0], what + display_text(dir), why),
        None => ns.len() == 0 && if t.files == 0 {
            es.len() == 0
        } else {
            es.len() == 1 && folder_entry_is(es[0], id, label, dir, t)
        },
    }
}

fn root_folder(ctx: &ScanContext, dir: &str, what: &str, id: &str, label: &str, t: FolderTotals) -> (r: (
    Vec<CleanupEntry>,
    Vec<ProtectedNote>,
))
    ensures
        root_section(*ctx, dir@, what@, id@, label@, t, r.0@, r.1@),
{
    match ctx.whole_folder_refusal(dir, Some(dir)) {
        Some(why) => {
            let mut w = String::from_str(what);
            w.append(display(dir).as_str());
            (Vec::new(), vec![crate::cleanup::scan::note(w, why)])
        },
        None => match folder_entry(id, label, dir, t.files, t.bytes) {
            Some(e) => (vec![e], Vec::new()),
            None => (Vec::new(), Vec::new()),
        },
    }
}

/// What the staging folders give, folder by folder: a note for one an
/// unfinished download owns or one that is or holds an app folder, else an
/// entry when it holds anything.
pub open spec fn staging_listing(
    ctx: ScanContext,
    dirs: Seq<StagingDir>,
    downloads: Seq<(String, String, DownloadState)>,
    es: Seq<CleanupEntry>,
    ns: Seq<ProtectedNote>,
) -> bool
    decreases dirs.len(),
{
    if dirs.len() == 0 {
        es.len() == 0 && ns.len() == 0
    } else {
        let d = dirs.last();
        let name = file_name_of(d.path@);
        let rest = dirs.drop_last();
        match owner_of(downloads, name, downloads.len() as int) {
            Some((file, state)) => ns.len() > 0 && note_is(
                ns.last(),
                "Download staging of "@ + file,
                "the download is "@ + download_state_name(state),
            ) && staging_listing(ctx, rest, downloads, es, ns.drop_last()),
            None => match ctx.whole_folder_reason(d.path@, None) {
                Some(why) => ns.len() > 0 && note_is(ns.last(), "Download staging "@ + display_text(d.path@), why)
                    && staging_listing(ctx, rest, downloads, es, ns.drop_last()),
                None => if d.totals.files == 0 {
                    staging_listing(ctx, rest, downloads, es, ns)
                } else {
                    es.len() > 0 && folder_entry_is(
                        es.last(),
                        "download-staging:"@ + name,
                        "Download staging "@ + name,
                        d.path@,
                        d.totals,
                    ) && staging_listing(ctx, rest, downloads, es.drop_last(), ns)
                },
            },
        }
    }
}

/// The files the staging folders hold.
pub open spec fn dirs_files(dirs: Seq<StagingDir>) -> int
    decreases dirs.len(),
{
    if dirs.len() == 0 {
        0
    } else {
        dirs_files(dirs.drop_last()) + dirs.last().totals.files
    }
}

/// The bytes the staging folders hold.
pub open spec fn dirs_bytes(dirs: Seq<StagingDir>) -> int
    decreases dirs.len(),
{
    if dirs.len() == 0 {
        0
    } else {
        dirs_bytes(dirs.drop_last()) + dirs.last().totals.bytes
    }
}

proof fn lemma_entry_totals_push(es: Seq<CleanupEntry>, e: CleanupEntry)
    ensures
        entry_files(es.push(e)) == entry_files(es) + e.files,
        entry_bytes(es.push(e)) == entry_bytes(es) + e.bytes,
{
    assert(es.push(e).drop_last() =~= es);
}

/// The totals of a concatenation are the sums of the totals.
proof fn lemma_entry_totals_concat(a: Seq<CleanupEntry>, b: Seq<CleanupEntry>)
    ensures
        entry_files(a + b) == entry_files(a) + entry_files(b),
        entry_bytes(a + b) == entry_bytes(a) + entry_bytes(b),
    decreases b.len(),
{
    if b.len() == 0 {
        assert(a + b =~= a);
    } else {
        lemma_entry_totals_concat(a, b.drop_last());
        assert((a + b).drop_last() =~= a + b.drop_last());
    }
}

proof fn lemma_entry_totals_nonneg(es: Seq<CleanupEntry>)
    ensures
        entry_files(es) >= 0,
        entry_bytes(es) >= 0,
    decreases es.len(),
{
    if es.len() > 0 {
        lemma_entry_totals_nonneg(es.drop_last());
    }
}

proof fn lemma_staging_totals(
    ctx: ScanContext,
    dirs: Seq<StagingDir>,
    downloads: Seq<(String, String, DownloadState)>,
    es: Seq<CleanupEntry>,
    ns: Seq<ProtectedNote>,
)
    requires
        staging_listing(ctx, dirs, downloads, es, ns),
    ensures
        entry_files(es) <= dirs_files(dirs),
        entry_bytes(es) <= dirs_bytes(dirs),
    decreases dirs.len(),
{
    if dirs.len() > 0 {
        let d = dirs.last();
        let name = file_name_of(d.path@);
        let rest = dirs.drop_last();
        match owner_of(downloads, name, downloads.len() as int) {
            Some(_) => lemma_staging_totals(ctx, rest, downloads, es, ns.drop_last()),
            None => match ctx.whole_folder_reason(d.path@, None) {
                Some(_) => lemma_staging_totals(ctx, rest, downloads, es, ns.drop_last()),
                None => if d.totals.files == 0 {
                    lemma_staging_totals(ctx, rest, downloads, es, ns);
                } else {
                    lemma_staging_totals(ctx, rest, downloads, es.drop_last(), ns);
                    lemma_entry_totals_push(es.drop_last(), es.last());
                    assert(es.drop_last().push(es.last()) =~= es);
                },
            },
        }
    }
}

/// The staging folders, in the order listed: what each gives.
pub fn staging_section(ctx: &ScanContext, dirs: &[StagingDir], downloads: &[(String, String, DownloadState)]) -> (r: (
    Vec<CleanupEntry>,
    Vec<ProtectedNote>,
))
    ensures
        staging_listing(*ctx, dirs@, downloads@, r.0@, r.1@),
{
    let mut es: Vec<CleanupEntry> = Vec::new();
    let mut ns: Vec<ProtectedNote> = Vec::new();
    let mut i: usize = 0;
    assert(dirs@.take(0) =~= Seq::<StagingDir>::empty());
    while i < dirs.len()
        invariant
            i <= dirs@.len(),
            staging_listing(*ctx, dirs@.take(i as int), downloads@, es@, ns@),
        decreases dirs@.len() - i,
    {
        let d = &dirs[i];
        let ghost before_es = es@;
        let ghost before_ns = ns@;
        assert(dirs@.take(i + 1).drop_last() =~= dirs@.take(i as int));
        assert(dirs@.take(i + 1).last() == *d);
        match staging_verdict(ctx, d.path.as_str(), downloads) {
            StagingVerdict::Busy(n) => {
                ns.push(n);
                assert(ns@.drop_last() =~= before_ns);
            },
            StagingVerdict::Refused(n) => {
                ns.push(n);
                assert(ns@.drop_last() =~= before_ns);
            },
            StagingVerdict::Offer { id, label } => {
                match folder_entry(id.as_str(), label.as_str(), d.path.as_str(), d.totals.files, d.totals.bytes) {
                    Some(e) => {
                        es.push(e);
                        assert(es@.drop_last() =~= before_es);
                    },
                    None => {},
                }
            },
        }
        i = i + 1;
    }
    assert(dirs@.take(i as int) =~= dirs@);
    (es, ns)
}

/// The scratch folders by name, with what their walks found.
pub open spec fn scratch_table(w: ScratchWalks) -> Seq<(Seq<char>, Seq<ScannedFile>)> {
    seq![("input"@, w.input@), ("temp"@, w.temp@), ("output"@, w.output@)]
}

/// One entry `comfyui:<sub>` per scratch folder with leftovers, in order.
pub open spec fn leftover_listing(
    table: Seq<(Seq<char>, Seq<ScannedFile>)>,
    active: Seq<Seq<char>>,
    now: int,
    es: Seq<CleanupEntry>,
) -> bool
    decreases table.len(),
{
    if table.len() == 0 {
        es.len() == 0
    } else {
        let (sub, files) = table.last();
        let sel = leftovers_of(files, active, now);
        if sel.len() == 0 {
            leftover_listing(table.drop_last(), active, now, es)
        } else {
            es.len() > 0 && files_entry(es.last(), "comfyui:"@ + sub, "ComfyUI "@ + sub + " leftovers"@, sel)
                && leftover_listing(table.drop_last(), active, now, es.drop_last())
        }
    }
}

/// The files the scratch walks found.
pub open spec fn table_files(table: Seq<(Seq<char>, Seq<ScannedFile>)>) -> int
    decreases table.len(),
{
    if table.len() == 0 {
        0
    } else {
        table_files(table.drop_last()) + table.last().1.len()
    }
}

/// The bytes the scratch walks found.
pub open spec fn table_bytes(table: Seq<(Seq<char>, Seq<ScannedFile>)>) -> int
    decreases table.len(),
{
    if table.len() == 0 {
        0
    } else {
        table_bytes(table.drop_last()) + scanned_bytes(table.last().1)
    }
}

proof fn lemma_scanned_bytes_nonneg(files: Seq<ScannedFile>)
    ensures
        scanned_bytes(files) >= 0,
    decreases files.len(),
{
    if files.len() > 0 {
        lemma_scanned_bytes_nonneg(files.drop_last());
    }
}

proof fn lemma_leftovers_within(files: Seq<ScannedFile>, active: Seq<Seq<char>>, now: int)
    ensures
        leftovers_of(files, active, now).len() <= files.len(),
        scanned_bytes(leftovers_of(files, active, now)) <= scanned_bytes(files),
    decreases files.len(),
{
    if files.len() > 0 {
        lemma_leftovers_within(files.drop_last(), active, now);
        let rest = leftovers_of(files.drop_last(), active, now);
        assert(rest.push(files.last()).drop_last() =~= rest);
    }
}

proof fn lemma_leftover_totals(
    table: Seq<(Seq<char>, Seq<ScannedFile>)>,
    active: Seq<Seq<char>>,
    now: int,
    es: Seq<CleanupEntry>,
)
    requires
        leftover_listing(table, active, now, es),
    ensures
        entry_files(es) <= table_files(table),
        entry_bytes(es) <= table_bytes(table),
    decreases table.len(),
{
    if table.len() > 0 {
        let (sub, files) = table.last();
        let sel = leftovers_of(files, active, now);
        lemma_leftovers_within(files, active, now);
        lemma_scanned_bytes_nonneg(sel);
        if sel.len() == 0 {
            lemma_leftover_totals(table.drop_last(), active, now, es);
        } else {
            lemma_leftover_totals(table.drop_last(), active, now, es.drop_last());
            lemma_entry_totals_push(es.drop_last(), es.last());
            assert(es.drop_last().push(es.last()) =~= es);
        }
    }
}

fn scratch_files(w: &ScratchWalks, i: usize) -> (r: (&'static str, &Vec<ScannedFile>))
    requires
        i < 3,
    ensures
        r.0@ == scratch_table(*w)[i as int].0,
        r.1@ == scratch_table(*w)[i as int].1,
{
    if i == 0 {
        ("input", &w.input)
    } else if i == 1 {
        ("temp", &w.temp)
    } else {
        ("output", &w.output)
    }
}

/// The ComfyUI scratch leftovers: nothing when the ComfyUI data folder
/// lies in the store or the runtimes; else one entry per scratch folder
/// that has any.
pub fn comfyui_section(ctx: &ScanContext, walks: &ScratchWalks, active: &[String], now_nanos: i128) -> (r: Vec<CleanupEntry>)
    requires
        now_nanos >= EARLIEST_NANOS,
        table_bytes(scratch_table(*walks)) <= u64::MAX,
    ensures
        ctx.store_or_runtimes_reason(ctx.paths.comfyui_data@) is Some ==> r@.len() == 0,
        ctx.store_or_runtimes_reason(ctx.paths.comfyui_data@) is None ==> leftover_listing(
            scratch_table(*walks),
            views(active@),
            now_nanos as int,
            r@,
        ),
{
    let mut es: Vec<CleanupEntry> = Vec::new();
    if ctx.inside_store_or_runtimes(ctx.paths.comfyui_data.as_str()).is_some() {
        return es;
    }
    let ghost table = scratch_table(*walks);
    let mut i: usize = 0;
    assert(table.take(0) =~= Seq::<(Seq<char>, Seq<ScannedFile>)>::empty());
    while i < 3
        invariant
            i <= 3,
            table == scratch_table(*walks),
            table.len() == 3,
            now_nanos >= EARLIEST_NANOS,
            table_bytes(table) <= u64::MAX,
            leftover_listing(table.take(i as int), views(active@), now_nanos as int, es@),
        decreases 3 - i,
    {
        let (sub, files) = scratch_files(walks, i);
        let sel = comfyui_leftover_files(files.as_slice(), active, now_nanos);
        proof {
            assert(table.take(i + 1).drop_last() =~= table.take(i as int));
            assert(table.take(i + 1).last() == table[i as int]);
            lemma_table_prefix(table, i + 1);
            lemma_leftovers_within(files@, views(active@), now_nanos as int);
            lemma_table_entry_bytes(table, i as int);
        }
        let ghost before = es@;
        match comfyui_entry(sub, sel.as_slice()) {
            Some(e) => {
                es.push(e);
                assert(es@.drop_last() =~= before);
            },
            None => {},
        }
        i = i + 1;
    }
    assert(table.take(3) =~= table);
    es
}

proof fn lemma_table_prefix(table: Seq<(Seq<char>, Seq<ScannedFile>)>, i: int)
    requires
        0 <= i <= table.len(),
    ensures
        0 <= table_bytes(table.take(i)) <= table_bytes(table),
        0 <= table_files(table.take(i)) <= table_files(table),
    decreases table.len(),
{
    if table.len() > 0 {
        lemma_scanned_bytes_nonneg(table.last().1);
        if i == table.len() {
            assert(table.take(i) =~= table);
            lemma_table_prefix(table.drop_last(), i - 1);
        } else {
            lemma_table_prefix(table.drop_last(), i);
            assert(table.drop_last().take(i) =~= table.take(i));
        }
    } else {
        assert(table.take(i) =~= table);
    }
}

proof fn lemma_table_entry_bytes(table: Seq<(Seq<char>, Seq<ScannedFile>)>, i: int)
    requires
        0 <= i < table.len(),
    ensures
        scanned_bytes(table[i].1) <= table_bytes(table),
{
    lemma_table_prefix(table, i + 1);
    lemma_table_prefix(table, i);
    assert(table.take(i + 1).drop_last() =~= table.take(i));
    assert(table.take(i + 1).last() == table[i]);
}

/// What the scan of groups `caches`, `old_logs` and `db_backups` reads
/// from the disk and the database. Each listing is in the order the walk
/// gives it: by path.
#[derive(Debug, Clone)]
pub struct CachesInput {
    /// The walk of the cache folder.
    pub cache: FolderTotals,
    /// The child folders of the download staging root.
    pub staging: Vec<StagingDir>,
    /// Every download as (id, file name, state).
    pub downloads: Vec<(String, String, DownloadState)>,
    /// The walks of ComfyUI's scratch folders.
    pub comfyui: ScratchWalks,
    /// The ids of the jobs that have not finished.
    pub active_jobs: Vec<String>,
    /// The walk of the pending import staging.
    pub pending: FolderTotals,
    /// The files directly in the logs folder.
    pub logs: Vec<ScannedFile>,
    /// The files directly in the exports folder.
    pub backups: Vec<ScannedFile>,
    /// The time of the scan, in nanoseconds since the Unix epoch.
    pub now_nanos: i128,
}

/// The `caches` entries and notes, cut at the given points: the cache
/// folder, the staging folders, the ComfyUI leftovers, the pending import.
pub open spec fn caches_listing_at(
    ctx: ScanContext,
    i: CachesInput,
    es: Seq<CleanupEntry>,
    ns: Seq<ProtectedNote>,
    a: int,
    b: int,
    c: int,
    x: int,
    y: int,
) -> bool {
    &&& 0 <= a <= b <= c <= es.len()
    &&& 0 <= x <= y <= ns.len()
    &&& root_section(
        ctx,
        ctx.paths.cache@,
        "Cache folder "@,
        "cache"@,
        "Registry and runtime caches"@,
        i.cache,
        es.subrange(0, a),
        ns.subrange(0, x),
    )
    &&& staging_listing(ctx, i.staging@, i.downloads@, es.subrange(a, b), ns.subrange(x, y))
    &&& ctx.store_or_runtimes_reason(ctx.paths.comfyui_data@) is Some ==> b == c
    &&& ctx.store_or_runtimes_reason(ctx.paths.comfyui_data@) is None ==> leftover_listing(
        scratch_table(i.comfyui),
        views(i.active_jobs@),
        i.now_nanos as int,
        es.subrange(b, c),
    )
    &&& root_section(
        ctx,
        ctx.paths.pending_import@,
        "Pending import "@,
        "pending-import"@,
        "Pending import staging"@,
        i.pending,
        es.subrange(c, es.len() as int),
        ns.subrange(y, ns.len() as int),
    )
}

/// The `caches` entries and notes, in order.
pub open spec fn caches_listing(ctx: ScanContext, i: CachesInput, es: Seq<CleanupEntry>, ns: Seq<ProtectedNote>) -> bool {
    exists|a: int, b: int, c: int, x: int, y: int| #[trigger] caches_listing_at(ctx, i, es, ns, a, b, c, x, y)
}

/// The walks' totals fit the group's counters.
pub open spec fn caches_fit(i: CachesInput) -> bool {
    &&& i.cache.files + dirs_files(i.staging@) + table_files(scratch_table(i.comfyui)) + i.pending.files <= u64::MAX
    &&& i.cache.bytes + dirs_bytes(i.staging@) + table_bytes(scratch_table(i.comfyui)) + i.pending.bytes <= u64::MAX
    &&& scanned_bytes(i.logs@) <= u64::MAX
    &&& scanned_bytes(i.backups@) <= u64::MAX
    &&& i.now_nanos - OLD_LOG_DAYS * DAY_NANOS >= EARLIEST_NANOS
}

proof fn lemma_root_totals(
    ctx: ScanContext,
    dir: Seq<char>,
    what: Seq<char>,
    id: Seq<char>,
    label: Seq<char>,
    t: FolderTotals,
    es: Seq<CleanupEntry>,
    ns: Seq<ProtectedNote>,
)
    requires
        root_section(ctx, dir, what, id, label, t, es, ns),
    ensures
        entry_files(es) <= t.files,
        entry_bytes(es) <= t.bytes,
{
    if es.len() == 1 {
        assert(es.drop_last() =~= Seq::<CleanupEntry>::empty());
        assert(es.last() == es[0]);
        assert(entry_files(es.drop_last()) == 0 && entry_bytes(es.drop_last()) == 0);
        assert(entry_files(es) == es[0].files);
        assert(entry_bytes(es) == es[0].bytes);
    }
}

proof fn lemma_dirs_nonneg(dirs: Seq<StagingDir>)
    ensures
        dirs_files(dirs) >= 0,
        dirs_bytes(dirs) >= 0,
    decreases dirs.len(),
{
    if dirs.len() > 0 {
        lemma_dirs_nonneg(dirs.drop_last());
    }
}

/// Group `caches`: the cache folder, the download staging folders no
/// unfinished download owns, the ComfyUI leftovers and the pending import.
pub fn caches_group(ctx: &ScanContext, i: &CachesInput) -> (r: (CleanupGroup, Vec<ProtectedNote>))
    requires
        caches_fit(*i),
    ensures
        r.0.key@ == "caches"@,
        r.0.label@ == label_of("caches"@),
        r.0.total_files == entry_files(r.0.entries@),
        r.0.total_bytes == entry_bytes(r.0.entries@),
        caches_listing(*ctx, *i, r.0.entries@, r.1@),
{
    let (mut es, mut ns) = root_folder(
        ctx,
        ctx.paths.cache.as_str(),
        "Cache folder ",
        "cache",
        "Registry and runtime caches",
        i.cache,
    );
    let (mut s_es, mut s_ns) = staging_section(ctx, i.staging.as_slice(), i.downloads.as_slice());
    proof {
        lemma_dirs_nonneg(i.staging@);
        lemma_table_prefix(scratch_table(i.comfyui), 0);
    }
    let mut c_es = comfyui_section(ctx, &i.comfyui, i.active_jobs.as_slice(), i.now_nanos);
    let (mut p_es, mut p_ns) = root_folder(
        ctx,
        ctx.paths.pending_import.as_str(),
        "Pending import ",
        "pending-import",
        "Pending import staging",
        i.pending,
    );
    let ghost (e0, e1, e2, e3) = (es@, s_es@, c_es@, p_es@);
    let ghost (n0, n1, n3) = (ns@, s_ns@, p_ns@);
    es.append(&mut s_es);
    es.append(&mut c_es);
    es.append(&mut p_es);
    ns.append(&mut s_ns);
    ns.append(&mut p_ns);
    proof {
        let a = e0.len() as int;
        let b = a + e1.len();
        let c = b + e2.len();
        let x = n0.len() as int;
        let y = x + n1.len();
        assert(es@ == e0 + e1 + e2 + e3);
        assert(ns@ == n0 + n1 + n3);
        assert(es@.subrange(0, a) =~= e0);
        assert(es@.subrange(a, b) =~= e1);
        assert(es@.subrange(b, c) =~= e2);
        assert(es@.subrange(c, es@.len() as int) =~= e3);
        assert(ns@.subrange(0, x) =~= n0);
        assert(ns@.subrange(x, y) =~= n1);
        assert(ns@.subrange(y, ns@.len() as int) =~= n3);
        assert(caches_listing_at(*ctx, *i, es@, ns@, a, b, c, x, y));
        lemma_root_totals(*ctx, ctx.paths.cache@, "Cache folder "@, "cache"@, "Registry and runtime caches"@, i.cache, e0, n0);
        lemma_staging_totals(*ctx, i.staging@, i.downloads@, e1, n1);
        if ctx.store_or_runtimes_reason(ctx.paths.comfyui_data@) is None {
            lemma_leftover_totals(scratch_table(i.comfyui), views(i.active_jobs@), i.now_nanos as int, e2);
        }
        lemma_root_totals(*ctx, ctx.paths.pending_import@, "Pending import "@, "pending-import"@, "Pending import staging"@, i.pending, e3, n3);
        lemma_entry_totals_concat(e0, e1);
        lemma_entry_totals_concat(e0 + e1, e2);
        lemma_entry_totals_concat(e0 + e1 + e2, e3);
        lemma_entry_totals_nonneg(e0);
        lemma_entry_totals_nonneg(e1);
        lemma_entry_totals_nonneg(e2);
        lemma_entry_totals_nonneg(e3);
    }
    (group("caches", es), ns)
}

/// The label of the `old-logs` entry for `n` files.
pub open spec fn old_logs_label(n: nat) -> Seq<char> {
    decimal(n) + " log file(s) older than "@ + decimal(OLD_LOG_DAYS as nat) + " days"@
}

/// Group `old_logs` and its notes: nothing but a note when the logs folder
/// lies in the store or the runtimes; else the one entry `old-logs` when
/// any log is old.
pub open spec fn old_logs_listing(ctx: ScanContext, logs: Seq<ScannedFile>, now: int, es: Seq<CleanupEntry>, ns: Seq<ProtectedNote>) -> bool {
    match ctx.store_or_runtimes_reason(ctx.paths.logs@) {
        Some(why) => es.len() == 0 && ns.len() == 1 && note_is(ns[0], "Logs "@ + display_text(ctx.paths.logs@), why),
        None => {
            let sel = old_log_selection(logs, now);
            &&& ns.len() == 0
            &&& sel.len() == 0 ==> es.len() == 0
            &&& sel.len() > 0 ==> es.len() == 1 && files_entry(es[0], "old-logs"@, old_logs_label(sel.len()), sel)
        },
    }
}

proof fn lemma_old_logs_within(files: Seq<ScannedFile>, newest: Seq<char>, now: int)
    ensures
        old_logs_of(files, newest, now).len() <= files.len(),
        scanned_bytes(old_logs_of(files, newest, now)) <= scanned_bytes(files),
    decreases files.len(),
{
    if files.len() > 0 {
        lemma_old_logs_within(files.drop_last(), newest, now);
        let rest = old_logs_of(files.drop_last(), newest, now);
        assert(rest.push(files.last()).drop_last() =~= rest);
    }
}

/// Group `old_logs`.
pub fn old_logs_group(ctx: &ScanContext, logs: &[ScannedFile], now_nanos: i128) -> (r: (CleanupGroup, Vec<ProtectedNote>))
    requires
        scanned_bytes(logs@) <= u64::MAX,
        now_nanos - OLD_LOG_DAYS * DAY_NANOS >= EARLIEST_NANOS,
    ensures
        r.0.key@ == "old_logs"@,
        r.0.label@ == label_of("old_logs"@),
        r.0.total_files == entry_files(r.0.entries@),
        r.0.total_bytes == entry_bytes(r.0.entries@),
        old_logs_listing(*ctx, logs@, now_nanos as int, r.0.entries@, r.1@),
{
    if let Some(why) = ctx.inside_store_or_runtimes(ctx.paths.logs.as_str()) {
        let mut what = String::from_str("Logs ");
        what.append(display(ctx.paths.logs.as_str()).as_str());
        let es: Vec<CleanupEntry> = Vec::new();
        assert(entry_files(es@) == 0);
        return (group("old_logs", es), vec![crate::cleanup::scan::note(what, why)]);
    }
    let old = old_log_candidates(logs, now_nanos);
    proof {
        if logs@.len() > 0 {
            let k = newest_index(logs@, logs@.len() as int);
            lemma_old_logs_within(logs@, logs@[k].path@, now_nanos as int);
        }
    }
    let es: Vec<CleanupEntry> = match old_logs_entry(old.as_slice()) {
        Some(e) => vec![e],
        None => Vec::new(),
    };
    proof {
        if es@.len() == 1 {
            assert(es@.drop_last() =~= Seq::<CleanupEntry>::empty());
            assert(entry_files(es@.drop_last()) == 0 && entry_bytes(es@.drop_last()) == 0);
        }
    }
    (group("old_logs", es), Vec::new())
}

/// Group `db_backups` and its notes: nothing but a note when the exports
/// folder lies in the store or the runtimes; else one entry per backup.
pub open spec fn backups_listing(ctx: ScanContext, files: Seq<ScannedFile>, es: Seq<CleanupEntry>, ns: Seq<ProtectedNote>) -> bool {
    match ctx.store_or_runtimes_reason(ctx.paths.exports@) {
        Some(why) => es.len() == 0 && ns.len() == 1 && note_is(ns[0], "Backups "@ + display_text(ctx.paths.exports@), why),
        None => {
            &&& ns.len() == 0
            &&& es.len() == files.len()
            &&& forall|t: int| 0 <= t < files.len() ==> backup_entry_of(files[t], #[trigger] es[t])
        },
    }
}

proof fn lemma_backup_totals(files: Seq<ScannedFile>, es: Seq<CleanupEntry>, n: int)
    requires
        es.len() == files.len(),
        forall|t: int| 0 <= t < files.len() ==> backup_entry_of(files[t], #[trigger] es[t]),
        0 <= n <= es.len(),
    ensures
        entry_files(es.take(n)) == n,
        entry_bytes(es.take(n)) == scanned_bytes(files.take(n)),
    decreases n,
{
    if n > 0 {
        lemma_backup_totals(files, es, n - 1);
        assert(es.take(n).drop_last() =~= es.take(n - 1));
        assert(files.take(n).drop_last() =~= files.take(n - 1));
        assert(backup_entry_of(files[n - 1], es[n - 1]));
    } else {
        assert(es.take(0) =~= Seq::<CleanupEntry>::empty());
        assert(files.take(0) =~= Seq::<ScannedFile>::empty());
    }
}

/// Group `db_backups`.
pub fn backups_group(ctx: &ScanContext, files: &[ScannedFile]) -> (r: (CleanupGroup, Vec<ProtectedNote>))
    requires
        scanned_bytes(files@) <= u64::MAX,
    ensures
        r.0.key@ == "db_backups"@,
        r.0.label@ == label_of("db_backups"@),
        r.0.total_files == entry_files(r.0.entries@),
        r.0.total_bytes == entry_bytes(r.0.entries@),
        backups_listing(*ctx, files@, r.0.entries@, r.1@),
{
    if let Some(why) = ctx.inside_store_or_runtimes(ctx.paths.exports.as_str()) {
        let mut what = String::from_str("Backups ");
        what.append(display(ctx.paths.exports.as_str()).as_str());
        let es: Vec<CleanupEntry> = Vec::new();
        assert(entry_files(es@) == 0);
        return (group("db_backups", es), vec![crate::cleanup::scan::note(what, why)]);
    }
    let es = backup_entries(files);
    let n = files.len();
    proof {
        assert(n <= u64::MAX);
        lemma_backup_totals(files@, es@, es@.len() as int);
        assert(es@.take(es@.len() as int) =~= es@);
        assert(files@.take(files@.len() as int) =~= files@);
    }
    (group("db_backups", es), Vec::new())
}

/// The three groups' entries, with the notes cut after those of `caches`
/// and after those of `old_logs`.
pub open spec fn groups_listing_at(
    ctx: ScanContext,
    i: CachesInput,
    gs: Seq<CleanupGroup>,
    ns: Seq<ProtectedNote>,
    x: int,
    y: int,
) -> bool {
    &&& gs.len() == 3
    &&& 0 <= x <= y <= ns.len()
    &&& caches_listing(ctx, i, gs[0].entries@, ns.subrange(0, x))
    &&& old_logs_listing(ctx, i.logs@, i.now_nanos as int, gs[1].entries@, ns.subrange(x, y))
    &&& backups_listing(ctx, i.backups@, gs[2].entries@, ns.subrange(y, ns.len() as int))
}

/// The groups `caches`, `old_logs` and `db_backups`, in that order, with
/// their totals, and their notes.
pub open spec fn caches_groups_listing(ctx: ScanContext, i: CachesInput, gs: Seq<CleanupGroup>, ns: Seq<ProtectedNote>) -> bool {
    &&& gs.len() == 3
    &&& gs[0].key@ == "caches"@
    &&& gs[1].key@ == "old_logs"@
    &&& gs[2].key@ == "db_backups"@
    &&& forall|g: int| 0 <= g < 3 ==> (#[trigger] gs[g]).label@ == label_of(gs[g].key@) && gs[g].total_files
        == entry_files(gs[g].entries@) && gs[g].total_bytes == entry_bytes(gs[g].entries@)
    &&& exists|x: int, y: int| #[trigger] groups_listing_at(ctx, i, gs, ns, x, y)
}

/// The scan of groups `caches`, `old_logs` and `db_backups`, in that
/// order, with their notes in the same order.
pub fn caches_groups(ctx: &ScanContext, i: &CachesInput) -> (r: (Vec<CleanupGroup>, Vec<ProtectedNote>))
    requires
        caches_fit(*i),
    ensures
        caches_groups_listing(*ctx, *i, r.0@, r.1@),
{
    let (caches, mut ns) = caches_group(ctx, i);
    let (logs, mut log_ns) = old_logs_group(ctx, i.logs.as_slice(), i.now_nanos);
    let (backups, mut backup_ns) = backups_group(ctx, i.backups.as_slice());
    let ghost (n0, n1, n2) = (ns@, log_ns@, backup_ns@);
    ns.append(&mut log_ns);
    ns.append(&mut backup_ns);
    let ghost (g0, g1, g2) = (caches, logs, backups);
    let groups = vec![caches, logs, backups];
    proof {
        assert(groups@[0] == g0 && groups@[1] == g1 && groups@[2] == g2);
        let x = n0.len() as int;
        let y = x + n1.len();
        assert(ns@ == n0 + n1 + n2);
        assert(ns@.subrange(0, x) =~= n0);
        assert(ns@.subrange(x, y) =~= n1);
        assert(ns@.subrange(y, ns@.len() as int) =~= n2);
        assert(caches_listing(*ctx, *i, groups@[0].entries@, ns@.subrange(0, x)));
        assert(old_logs_listing(*ctx, i.logs@, i.now_nanos as int, groups@[1].entries@, ns@.subrange(x, y)));
        assert(backups_listing(*ctx, i.backups@, groups@[2].entries@, ns@.subrange(y, ns@.len() as int)));
        assert(groups_listing_at(*ctx, *i, groups@, ns@, x, y));
    }
    let r = (groups, ns);
    assert(r.0@ == groups@ && r.1@ == ns@);
    assert(exists|x: int, y: int| #[trigger] groups_listing_at(*ctx, *i, r.0@, r.1@, x, y));
    r
}

/// The folder name a staging entry id carries.
pub open spec fn staging_name_of(id: Seq<char>) -> Seq<char> {
    id.skip("download-staging:"@.len() as int)
}

/// A staging folder that a download which has not finished owns is never
/// offered: every entry the staging folders give is `download-staging:`
/// and the name of a folder no unfinished download owns.
pub proof fn law_busy_staging_is_never_offered(
    ctx: ScanContext,
    dirs: Seq<StagingDir>,
    downloads: Seq<(String, String, DownloadState)>,
    es: Seq<CleanupEntry>,
    ns: Seq<ProtectedNote>,
)
    requires
        staging_listing(ctx, dirs, downloads, es, ns),
    ensures
        forall|t: int| 0 <= t < es.len() ==> {
            let id = (#[trigger] es[t]).id@;
            &&& id == "download-staging:"@ + staging_name_of(id)
            &&& owner_of(downloads, staging_name_of(id), downloads.len() as int) is None
        },
    decreases dirs.len(),
{
    if dirs.len() > 0 {
        let d = dirs.last();
        let name = file_name_of(d.path@);
        let rest = dirs.drop_last();
        match owner_of(downloads, name, downloads.len() as int) {
            Some(_) => law_busy_staging_is_never_offered(ctx, rest, downloads, es, ns.drop_last()),
            None => match ctx.whole_folder_reason(d.path@, None) {
                Some(_) => law_busy_staging_is_never_offered(ctx, rest, downloads, es, ns.drop_last()),
                None => if d.totals.files == 0 {
                    law_busy_staging_is_never_offered(ctx, rest, downloads, es, ns);
                } else {
                    law_busy_staging_is_never_offered(ctx, rest, downloads, es.drop_last(), ns);
                    let id = "download-staging:"@ + name;
                    assert(staging_name_of(id) =~= name);
                    assert forall|t: int| 0 <= t < es.len() implies {
                        let id = (#[trigger] es[t]).id@;
                        &&& id == "download-staging:"@ + staging_name_of(id)
                        &&& owner_of(downloads, staging_name_of(id), downloads.len() as int) is None
                    } by {
                        if t < es.len() - 1 {
                            assert(es[t] == es.drop_last()[t]);
                        }
                    }
                },
            },
        }
    }
}

} // verus!
