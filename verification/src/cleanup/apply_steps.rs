//! What an apply does with one id of the groups `caches`, `old_logs`,
//! `db_backups`, `unclaimed_dataset_folders` and `finished_runs` before it
//! touches the disk: leave it alone as a whole (a refusal, or an id the
//! scan never offers), or go ahead on the folder the id names. The cache
//! and the pending import are emptied, not removed; ComfyUI leftovers are
//! re-selected with the scan's rule; the old logs are the one entry
//! `old-logs`; a backup is a file in the exports folder; a finished run's
//! folder goes as a whole when its result is in the library, else only its
//! disposable files. And, for every single file, whether it may go.

use vstd::prelude::*;

use crate::cleanup::apply::{
    display_text, not_offered, refused, strictly_inside, strictly_inside_spec, strip_prefix_text,
    strip_text_prefix, EntryResult, SKIP_NOT_OFFERED,
};
use crate::cleanup::caches::ScannedFile;
use crate::cleanup::media::{file_name, file_name_of};
use crate::cleanup::runs::{copy_of, deletable_of, disposable_files, final_path, library_copy, RunScan};
use crate::cleanup::scan::ScanContext;
use crate::text::{copy_strings, str_eq, views};
use crate::winpath::{components, path_components};

verus! {

/// `r` leaves the entry `id` of `group` alone as a whole: labelled
/// `label`, one skip of `path` for `why`, nothing counted.
pub open spec fn refused_as(r: EntryResult, group: Seq<char>, id: Seq<char>, label: Seq<char>, path: Seq<char>, why: Seq<char>) -> bool {
    &&& r.group@ == group
    &&& r.id@ == id
    &&& r.label@ == label
    &&& r.files == 0 && r.bytes == 0 && r.rows == 0
    &&& r.paths@.len() == 0
    &&& r.skipped@.len() == 1
    &&& r.skipped@[0].path@ == display_text(path)
    &&& r.skipped@[0].reason@ == why
}

/// What to do with one `caches` id that is not a staging folder's.
#[derive(Debug)]
pub enum CacheStep {
    /// Nothing to do on disk: the entry as it stands.
    Done(EntryResult),
    /// Empty this root (it stays), as the entry labelled so.
    EmptyRoot { label: String, dir: String },
    /// Delete the leftovers of ComfyUI's scratch folder `sub`, as the
    /// entry labelled so.
    Leftovers { label: String, sub: String },
}

/// ComfyUI's scratch folders by name.
pub open spec fn is_scratch(sub: Seq<char>) -> bool {
    sub == "input"@ || sub == "temp"@ || sub == "output"@
}

/// What the apply does with the root `dir` an id names: refused when it is,
/// or holds, another app folder; else emptied.
pub open spec fn root_step(ctx: ScanContext, id: Seq<char>, label: Seq<char>, dir: Seq<char>, s: CacheStep) -> bool {
    match ctx.whole_folder_reason(dir, Some(dir)) {
        Some(why) => s matches CacheStep::Done(r) && refused_as(r, "caches"@, id, label, dir, why),
        None => s matches CacheStep::EmptyRoot { label: l, dir: d } && l@ == label && d@ == dir,
    }
}

/// What the apply does with the `caches` id `id`.
pub open spec fn cache_step_of(ctx: ScanContext, id: Seq<char>, s: CacheStep) -> bool {
    if id == "cache"@ {
        root_step(ctx, id, "Registry and runtime caches"@, ctx.paths.cache@, s)
    } else if id == "pending-import"@ {
        root_step(ctx, id, "Pending import staging"@, ctx.paths.pending_import@, s)
    } else {
        match strip_prefix_text(id, "comfyui:"@) {
            Some(sub) => {
                let label = "ComfyUI "@ + sub + " leftovers"@;
                if !is_scratch(sub) {
                    s matches CacheStep::Done(r) && refused_as(r, "caches"@, id, id, id, SKIP_NOT_OFFERED@)
                } else {
                    match ctx.store_or_runtimes_reason(ctx.paths.comfyui_data@) {
                        Some(why) => s matches CacheStep::Done(r) && refused_as(
                            r,
                            "caches"@,
                            id,
                            label,
                            ctx.paths.comfyui_data@,
                            why,
                        ),
                        None => s matches CacheStep::Leftovers { label: l, sub: t } && l@ == label && t@ == sub,
                    }
                }
            },
            None => s matches CacheStep::Done(r) && refused_as(r, "caches"@, id, id, id, SKIP_NOT_OFFERED@),
        }
    }
}

fn root_action(ctx: &ScanContext, id: &str, label: &str, dir: &str) -> (s: CacheStep)
    ensures
        root_step(*ctx, id@, label@, dir@, s),
{
    match ctx.whole_folder_refusal(dir, Some(dir)) {
        Some(why) => CacheStep::Done(refused("caches", id, label, dir, why.as_str())),
        None => CacheStep::EmptyRoot { label: String::from_str(label), dir: String::from_str(dir) },
    }
}

/// What the apply does with one `caches` id that is not a staging
/// folder's: the cache and the pending import are emptied unless they are
/// or hold another app folder; a ComfyUI scratch folder's leftovers go
/// unless the ComfyUI data lies in the store or the runtimes; any other id
/// was never offered.
pub fn cache_step(ctx: &ScanContext, id: &str) -> (s: CacheStep)
    ensures
        cache_step_of(*ctx, id@, s),
{
    proof {
        reveal_strlit("cache");
        reveal_strlit("pending-import");
    }
    if str_eq(id, "cache") {
        return root_action(ctx, id, "Registry and runtime caches", ctx.paths.cache.as_str());
    }
    if str_eq(id, "pending-import") {
        return root_action(ctx, id, "Pending import staging", ctx.paths.pending_import.as_str());
    }
    match strip_text_prefix(id, "comfyui:") {
        Some(sub) => {
            let mut label = String::from_str("ComfyUI ");
            label.append(sub.as_str());
            label.append(" leftovers");
            let scratch = str_eq(sub.as_str(), "input") || str_eq(sub.as_str(), "temp") || str_eq(
                sub.as_str(),
                "output",
            );
            if !scratch {
                return CacheStep::Done(not_offered("caches", id));
            }
            match ctx.inside_store_or_runtimes(ctx.paths.comfyui_data.as_str()) {
                Some(why) => CacheStep::Done(
                    refused("caches", id, label.as_str(), ctx.paths.comfyui_data.as_str(), why.as_str()),
                ),
                None => CacheStep::Leftovers { label, sub },
            }
        },
        None => CacheStep::Done(not_offered("caches", id)),
    }
}

/// What to do with one id of `old_logs` or `db_backups`.
#[derive(Debug)]
pub enum FlatStep {
    /// Nothing to do on disk: the entry as it stands.
    Done(EntryResult),
    /// Go ahead in the folder.
    Proceed,
}

/// The `old_logs` id `id`: only `old-logs` is offered, and nothing when the
/// logs folder lies in the store or the runtimes.
pub open spec fn logs_step_of(ctx: ScanContext, id: Seq<char>, s: FlatStep) -> bool {
    if id != "old-logs"@ {
        s matches FlatStep::Done(r) && refused_as(r, "old_logs"@, id, id, id, SKIP_NOT_OFFERED@)
    } else {
        match ctx.store_or_runtimes_reason(ctx.paths.logs@) {
            Some(why) => s matches FlatStep::Done(r) && refused_as(r, "old_logs"@, id, id, ctx.paths.logs@, why),
            None => s is Proceed,
        }
    }
}

/// What the apply does with one `old_logs` id.
pub fn logs_step(ctx: &ScanContext, id: &str) -> (s: FlatStep)
    ensures
        logs_step_of(*ctx, id@, s),
{
    proof {
        reveal_strlit("old-logs");
    }
    if !str_eq(id, "old-logs") {
        return FlatStep::Done(not_offered("old_logs", id));
    }
    match ctx.inside_store_or_runtimes(ctx.paths.logs.as_str()) {
        Some(why) => FlatStep::Done(refused("old_logs", id, id, ctx.paths.logs.as_str(), why.as_str())),
        None => FlatStep::Proceed,
    }
}

/// The `db_backups` id `id`: nothing when the exports folder lies in the
/// store or the runtimes; else its file in the exports folder.
pub open spec fn backups_step_of(ctx: ScanContext, id: Seq<char>, s: FlatStep) -> bool {
    match ctx.store_or_runtimes_reason(ctx.paths.exports@) {
        Some(why) => s matches FlatStep::Done(r) && refused_as(r, "db_backups"@, id, id, ctx.paths.exports@, why),
        None => s is Proceed,
    }
}

/// What the apply does with one `db_backups` id.
pub fn backups_step(ctx: &ScanContext, id: &str) -> (s: FlatStep)
    ensures
        backups_step_of(*ctx, id@, s),
{
    match ctx.inside_store_or_runtimes(ctx.paths.exports.as_str()) {
        Some(why) => FlatStep::Done(refused("db_backups", id, id, ctx.paths.exports.as_str(), why.as_str())),
        None => FlatStep::Proceed,
    }
}

/// The last of `folders` whose name is `id`, among the first `n`.
pub open spec fn folder_named(folders: Seq<String>, id: Seq<char>, n: int) -> Option<int>
    decreases n,
{
    if n <= 0 {
        None
    } else if file_name_of(folders[n - 1]@) == id {
        Some(n - 1)
    } else {
        folder_named(folders, id, n - 1)
    }
}

/// What to do with one `unclaimed_dataset_folders` id.
#[derive(Debug)]
pub enum FolderStep {
    /// Nothing to do on disk: the entry as it stands.
    Done(EntryResult),
    /// Remove this folder as a whole.
    Remove(String),
}

/// The id names one of the unclaimed folders found right now (the last of
/// that name); it goes unless it is, or holds, an app folder.
pub open spec fn unclaimed_step_of(ctx: ScanContext, folders: Seq<String>, id: Seq<char>, s: FolderStep) -> bool {
    match folder_named(folders, id, folders.len() as int) {
        None => s matches FolderStep::Done(r) && refused_as(r, "unclaimed_dataset_folders"@, id, id, id, SKIP_NOT_OFFERED@),
        Some(k) => match ctx.whole_folder_reason(folders[k]@, None) {
            Some(why) => s matches FolderStep::Done(r) && refused_as(
                r,
                "unclaimed_dataset_folders"@,
                id,
                id,
                folders[k]@,
                why,
            ),
            None => s matches FolderStep::Remove(f) && f@ == folders[k]@,
        },
    }
}

/// What the apply does with one `unclaimed_dataset_folders` id, given the
/// folders no dataset claims right now.
pub fn unclaimed_step(ctx: &ScanContext, folders: &[String], id: &str) -> (s: FolderStep)
    ensures
        unclaimed_step_of(*ctx, folders@, id@, s),
{
    let mut k: usize = folders.len();
    while k > 0 && !str_eq(file_name(folders[k - 1].as_str()).as_str(), id)
        invariant
            k <= folders@.len(),
            folder_named(folders@, id@, folders@.len() as int) == folder_named(folders@, id@, k as int),
        decreases k,
    {
        k = k - 1;
    }
    if k == 0 {
        return FolderStep::Done(not_offered("unclaimed_dataset_folders", id));
    }
    let folder = &folders[k - 1];
    match ctx.whole_folder_refusal(folder.as_str(), None) {
        Some(why) => FolderStep::Done(refused("unclaimed_dataset_folders", id, id, folder.as_str(), why.as_str())),
        None => FolderStep::Remove(folder.clone()),
    }
}

/// The index of the first run with the id `id`, if any.
pub fn find_run(runs: &[RunScan], id: &str) -> (r: Option<usize>)
    ensures
        match r {
            Some(k) => k < runs@.len() && runs@[k as int].id@ == id@ && forall|j: int|
                0 <= j < k ==> (#[trigger] runs@[j]).id@ != id@,
            None => forall|j: int| 0 <= j < runs@.len() ==> (#[trigger] runs@[j]).id@ != id@,
        },
{
    let mut i: usize = 0;
    while i < runs.len()
        invariant
            i <= runs@.len(),
            forall|j: int| 0 <= j < i ==> (#[trigger] runs@[j]).id@ != id@,
        decreases runs@.len() - i,
    {
        if str_eq(runs[i].id.as_str(), id) {
            return Some(i);
        }
        i = i + 1;
    }
    None
}

/// What to do with one `finished_runs` id.
#[derive(Debug)]
pub enum RunStep {
    /// Nothing to do on disk: the entry as it stands.
    Done(EntryResult),
    /// The run's folder `dir` does not resolve to a folder: the entry,
    /// labelled so, is refused as not a file.
    NotAFolder { label: String, dir: String },
    /// Remove the canonical folder `root` as a whole, as the entry labelled
    /// so.
    WholeFolder { label: String, root: String },
    /// Delete these files below the canonical folder `root`, as the entry
    /// labelled so.
    Disposable { label: String, root: String, files: Vec<ScannedFile> },
}

/// The `finished_runs` id `id`, naming `run` (the first run with that id,
/// if any), whose folder's lookup failed with `lookup_error` or resolved to
/// the canonical folder `canonical`: never offered without a run; refused
/// when the lookup fails or the purge check refuses; else the whole folder
/// when the result is in the library, or else the disposable files.
pub open spec fn run_step_of(
    ctx: ScanContext,
    run: Option<RunScan>,
    id: Seq<char>,
    lookup_error: Option<Seq<char>>,
    canonical: Option<Seq<char>>,
    s: RunStep,
) -> bool {
    match run {
        None => s matches RunStep::Done(r) && refused_as(r, "finished_runs"@, id, id, id, SKIP_NOT_OFFERED@),
        Some(run) => match lookup_error {
            Some(e) => s matches RunStep::Done(r) && refused_as(r, "finished_runs"@, id, run.name@, run.folder@, e),
            None => match run.purge_refusal {
                Some(e) => s matches RunStep::Done(r) && refused_as(r, "finished_runs"@, id, run.name@, run.folder@, e@),
                None => match canonical {
                    None => s matches RunStep::NotAFolder { label, dir } && label@ == run.name@ && dir@ == run.folder@,
                    Some(root) => match copy_of(ctx, run.result_model, run.folder@) {
                        Some(_) => s matches RunStep::WholeFolder { label, root: d } && label@ == run.name@
                            + " \u{2014} whole folder"@ && d@ == root,
                        None => s matches RunStep::Disposable { label, root: d, files } && label@ == run.name@
                            + " \u{2014} checkpoints, optimizer state, samples and log"@ && d@ == root && files@
                            == deletable_of(run.files@, run.folder@, final_path(run.files@)),
                    },
                },
            },
        },
    }
}

/// What the apply does with one `finished_runs` id, given the run it names
/// (see [`find_run`]), what looking its folder up gave, and the folder's
/// canonical form when it is a folder.
pub fn run_step(
    ctx: &ScanContext,
    run: Option<&RunScan>,
    id: &str,
    lookup_error: Option<&str>,
    canonical: Option<&str>,
) -> (s: RunStep)
    ensures
        run_step_of(
            *ctx,
            match run {
                Some(r) => Some(*r),
                None => None,
            },
            id@,
            match lookup_error {
                Some(e) => Some(e@),
                None => None,
            },
            match canonical {
                Some(c) => Some(c@),
                None => None,
            },
            s,
        ),
{
    let run = match run {
        None => return RunStep::Done(not_offered("finished_runs", id)),
        Some(r) => r,
    };
    if let Some(e) = lookup_error {
        return RunStep::Done(refused("finished_runs", id, run.name.as_str(), run.folder.as_str(), e));
    }
    if let Some(e) = &run.purge_refusal {
        return RunStep::Done(refused("finished_runs", id, run.name.as_str(), run.folder.as_str(), e.as_str()));
    }
    let root = match canonical {
        None => return RunStep::NotAFolder { label: run.name.clone(), dir: run.folder.clone() },
        Some(c) => String::from_str(c),
    };
    let mut label = run.name.clone();
    match library_copy(ctx, run.result_model.as_ref(), run.folder.as_str()) {
        Some(_) => {
            label.append(" \u{2014} whole folder");
            RunStep::WholeFolder { label, root }
        },
        None => {
            label.append(" \u{2014} checkpoints, optimizer state, samples and log");
            let (files, _last) = disposable_files(run.files.as_slice(), run.folder.as_str());
            RunStep::Disposable { label, root, files }
        },
    }
}

/// What the disk said of one path an apply would delete.
#[derive(Debug)]
pub enum FileProbe {
    /// Nothing there.
    Missing,
    /// Its metadata could not be read, for this reason.
    Unreadable(String),
    /// A symbolic link or a junction, never followed.
    Link,
    /// Something other than a regular file.
    NotAFile,
    /// A regular file of `bytes` bytes, with its canonical path, or the
    /// reason it has none.
    File { canonical: Result<String, String>, bytes: u64 },
}

/// Why a path is left alone.
#[derive(Debug, Clone, PartialEq, Eq)]
pub enum SkipWhy {
    /// Nothing is there.
    Missing,
    /// The scan never offers it.
    NotOffered,
    /// A link or junction.
    Link,
    /// Not a regular file.
    NotAFile,
    /// Not strictly inside the entry's folder.
    Outside,
    /// The disk refused to say, for this reason.
    Error(String),
}

/// Whether one path may go.
#[derive(Debug, Clone)]
pub enum FileVerdict {
    /// Leave it alone, for this reason.
    Skip(SkipWhy),
    /// Delete the file at this canonical path, of this many bytes.
    Delete { canonical: String, bytes: u64 },
}

/// A path may go only when it is a regular file, not a link, whose
/// canonical path lies strictly inside the canonical folder `root`; for a
/// `flat` entry (an id that names a file directly) the file must sit right
/// in `root`, and one that is missing was never offered.
pub open spec fn file_verdict_of(root: Seq<char>, probe: FileProbe, flat: bool, v: FileVerdict) -> bool {
    match probe {
        FileProbe::Missing => if flat {
            v matches FileVerdict::Skip(SkipWhy::NotOffered)
        } else {
            v matches FileVerdict::Skip(SkipWhy::Missing)
        },
        FileProbe::Unreadable(e) => v matches FileVerdict::Skip(SkipWhy::Error(t)) && t@ == e@,
        FileProbe::Link => v matches FileVerdict::Skip(SkipWhy::Link),
        FileProbe::NotAFile => v matches FileVerdict::Skip(SkipWhy::NotAFile),
        FileProbe::File { canonical, bytes } => match canonical {
            Err(e) => v matches FileVerdict::Skip(SkipWhy::Error(t)) && t@ == e@,
            Ok(c) => if !strictly_inside_spec(c@, root) {
                v matches FileVerdict::Skip(SkipWhy::Outside)
            } else if flat && components(c@).drop_last() != components(root) {
                v matches FileVerdict::Skip(SkipWhy::NotOffered)
            } else {
                v matches FileVerdict::Delete { canonical: d, bytes: b } && d@ == c@ && b == bytes
            },
        },
    }
}

/// Whether the path the disk described as `probe` may go, below the
/// canonical folder `root`.
pub fn file_verdict(root: &str, probe: FileProbe, flat: bool) -> (v: FileVerdict)
    ensures
        file_verdict_of(root@, probe, flat, v),
{
    match probe {
        FileProbe::Missing => if flat {
            FileVerdict::Skip(SkipWhy::NotOffered)
        } else {
            FileVerdict::Skip(SkipWhy::Missing)
        },
        FileProbe::Unreadable(e) => FileVerdict::Skip(SkipWhy::Error(e)),
        FileProbe::Link => FileVerdict::Skip(SkipWhy::Link),
        FileProbe::NotAFile => FileVerdict::Skip(SkipWhy::NotAFile),
        FileProbe::File { canonical, bytes } => match canonical {
            Err(e) => FileVerdict::Skip(SkipWhy::Error(e)),
            Ok(c) => {
                if !strictly_inside(c.as_str(), root) {
                    return FileVerdict::Skip(SkipWhy::Outside);
                }
                if flat {
                    let cc = path_components(c.as_str());
                    let rc = path_components(root);
                    proof {
                        let (a, b) = (components(c@), components(root@));
                        assert(a.take(b.len() as int) == b);
                        if a.len() == b.len() {
                            assert(a =~= a.take(b.len() as int));
                        }
                        assert(a.len() > b.len());
                        assert(views(cc@).len() == a.len() && views(rc@).len() == b.len());
                        if a.len() == b.len() + 1 {
                            assert(a.drop_last() =~= b);
                        } else {
                            assert(a.drop_last().len() != b.len());
                        }
                    }
                    if cc.len() != rc.len() + 1 {
                        return FileVerdict::Skip(SkipWhy::NotOffered);
                    }
                }
                FileVerdict::Delete { canonical: c, bytes }
            },
        },
    }
}

/// Which piece of work an apply runs for a group.
#[derive(Debug, Clone, Copy, PartialEq, Eq)]
pub enum GroupWork {
    /// Generated media, re-selected from a fresh scan.
    Media,
    DiscardedFrames,
    UnclaimedFolders,
    MissingFrameRows,
    FinishedRuns,
    Caches,
    OldLogs,
    Backups,
}

/// One group of an apply, in the order the apply takes them.
#[derive(Debug, Clone)]
pub struct PlannedGroup {
    pub group: String,
    pub work: GroupWork,
    pub ids: Vec<String>,
}

/// What an apply does with the merged selections: whether it scans afresh
/// first, the work for each group in order, and whether it writes the
/// cleanup log afterwards.
#[derive(Debug, Clone)]
pub struct ApplyPlan {
    pub fresh_scan: bool,
    pub groups: Vec<PlannedGroup>,
    pub write_log: bool,
}

/// The work a group key runs; any key not named before is the backups'.
pub open spec fn work_of(key: Seq<char>) -> GroupWork {
    if key == "media_retention"@ || key == "media_orphans"@ {
        GroupWork::Media
    } else if key == "discarded_frames"@ {
        GroupWork::DiscardedFrames
    } else if key == "unclaimed_dataset_folders"@ {
        GroupWork::UnclaimedFolders
    } else if key == "missing_frame_rows"@ {
        GroupWork::MissingFrameRows
    } else if key == "finished_runs"@ {
        GroupWork::FinishedRuns
    } else if key == "caches"@ {
        GroupWork::Caches
    } else if key == "old_logs"@ {
        GroupWork::OldLogs
    } else {
        GroupWork::Backups
    }
}

/// Some selected group is one of generated media.
pub open spec fn selects_media(groups: Seq<(String, Vec<String>)>) -> bool {
    exists|j: int| 0 <= j < groups.len() && strip_prefix_text((#[trigger] groups[j]).0@, "media_"@) is Some
}

fn work_for(key: &str) -> (w: GroupWork)
    ensures
        w == work_of(key@),
{
    proof {
        reveal_strlit("media_retention");
        reveal_strlit("media_orphans");
        reveal_strlit("discarded_frames");
        reveal_strlit("unclaimed_dataset_folders");
        reveal_strlit("missing_frame_rows");
        reveal_strlit("finished_runs");
        reveal_strlit("caches");
        reveal_strlit("old_logs");
    }
    if str_eq(key, "media_retention") || str_eq(key, "media_orphans") {
        GroupWork::Media
    } else if str_eq(key, "discarded_frames") {
        GroupWork::DiscardedFrames
    } else if str_eq(key, "unclaimed_dataset_folders") {
        GroupWork::UnclaimedFolders
    } else if str_eq(key, "missing_frame_rows") {
        GroupWork::MissingFrameRows
    } else if str_eq(key, "finished_runs") {
        GroupWork::FinishedRuns
    } else if str_eq(key, "caches") {
        GroupWork::Caches
    } else if str_eq(key, "old_logs") {
        GroupWork::OldLogs
    } else {
        GroupWork::Backups
    }
}

/// The plan of an apply over the merged selections (see
/// [`crate::cleanup::apply::merge`]): a fresh scan exactly when a `media_`
/// group is selected, each group's work in order with its ids, and the
/// cleanup log written only on a real run.
pub fn apply_plan(groups: &[(String, Vec<String>)], dry_run: bool) -> (r: ApplyPlan)
    ensures
        r.fresh_scan == selects_media(groups@),
        r.write_log == !dry_run,
        r.groups@.len() == groups@.len(),
        forall|j: int|
            0 <= j < groups@.len() ==> {
                &&& (#[trigger] r.groups@[j]).group@ == groups@[j].0@
                &&& r.groups@[j].work == work_of(groups@[j].0@)
                &&& r.groups@[j].ids@ == groups@[j].1@
            },
{
    let mut out: Vec<PlannedGroup> = Vec::new();
    let mut fresh = false;
    let mut i: usize = 0;
    while i < groups.len()
        invariant
            i <= groups@.len(),
            out@.len() == i,
            fresh == exists|j: int| 0 <= j < i && strip_prefix_text((#[trigger] groups@[j]).0@, "media_"@) is Some,
            forall|j: int|
                0 <= j < i ==> {
                    &&& (#[trigger] out@[j]).group@ == groups@[j].0@
                    &&& out@[j].work == work_of(groups@[j].0@)
                    &&& out@[j].ids@ == groups@[j].1@
                },
        decreases groups@.len() - i,
    {
        let (key, ids) = &groups[i];
        let media = strip_text_prefix(key.as_str(), "media_").is_some();
        proof {
            if media {
                assert(strip_prefix_text(groups@[i as int].0@, "media_"@) is Some);
            }
        }
        fresh = fresh || media;
        out.push(PlannedGroup { group: key.clone(), work: work_for(key.as_str()), ids: copy_strings(ids) });
        i = i + 1;
    }
    ApplyPlan { fresh_scan: fresh, groups: out, write_log: !dry_run }
}

} // verus!
