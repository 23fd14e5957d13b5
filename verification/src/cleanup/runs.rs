//! Group `finished_runs`: the work folders of training runs in a terminal
//! state. A folder is offered as a whole only when the run's result LoRA is
//! in the library (the model row it names has a file that exists, outside
//! the run folder and outside the outputs); otherwise the final checkpoint
//! is the only copy of the result and stays (noted), and only the numbered
//! checkpoints below it, `optimizer.pt`, the samples and `train.log` are
//! offered. A folder the training purge check refuses is noted with its
//! reason; a run that has not finished is noted too.

use vstd::prelude::*;

use crate::cleanup::apply::{display, display_text};
use crate::cleanup::caches::{files_entry, scanned_bytes, ScannedFile};
use crate::cleanup::caches_scan::{note_is, FolderTotals};
use crate::cleanup::media::{file_name, file_name_of};
use crate::cleanup::scan::{
    entry_bytes, entry_files, group, is_same_or_inside, label_of, note, same_or_inside, CleanupEntry,
    CleanupGroup, ProtectedNote, ScanContext,
};
use crate::states::{run_state_name, run_terminal, RunState};
use crate::text::{lower, str_eq, to_ascii_lower, views};
use crate::winpath::{components, path_components, starts_with};

verus! {

/// The library model a run's `result_model_id` names.
#[derive(Debug, Clone)]
pub struct ResultModel {
    pub name: String,
    pub file_path: String,
    /// Whether its file (or folder) exists.
    pub present: bool,
    /// Whether the platform calls `file_path` absolute.
    pub absolute: bool,
}

/// What the disk said when the run's folder was looked up.
#[derive(Debug, Clone)]
pub enum FolderProbe {
    /// Nothing there.
    Absent,
    /// It could not be inspected, for this reason.
    Unreadable(String),
    /// It is there.
    Present,
}

/// One file of a run's folder, with the checkpoint step its name carries
/// for this run, if it is one of the run's checkpoints.
#[derive(Debug, Clone)]
pub struct RunFile {
    pub file: ScannedFile,
    pub checkpoint_step: Option<u64>,
}

/// What the scan knows of one training run.
#[derive(Debug, Clone)]
pub struct RunScan {
    pub id: String,
    pub name: String,
    pub state: RunState,
    /// The run's work folder.
    pub folder: String,
    pub probe: FolderProbe,
    /// Why the training purge check refuses the folder, if it does.
    pub purge_refusal: Option<String>,
    /// The library row the run's result points at, when there is one.
    pub result_model: Option<ResultModel>,
    /// What a walk of the folder counted.
    pub totals: FolderTotals,
    /// Every file below the folder, by path.
    pub files: Vec<RunFile>,
}

/// An optional text as plain characters.
pub open spec fn text_of(s: Option<String>) -> Option<Seq<char>> {
    match s {
        Some(t) => Some(t@),
        None => None,
    }
}

/// `std::path::Path::is_absolute` on the platform the library runs on.
/// Claims only that an empty path is never absolute: which other paths are
/// depends on the platform's path syntax, so nothing more is stated.
#[verifier::external_body]
fn is_absolute_path(p: &str) -> (r: bool)
    ensures
        p@.len() == 0 ==> !r,
{
    std::path::Path::new(p).is_absolute()
}

impl ResultModel {
    /// The model `name` with its file at `file_path`, which exists when
    /// `present`; whether the path is absolute is asked of the platform.
    pub fn new(name: String, file_path: String, present: bool) -> (r: ResultModel)
        ensures
            r.name == name,
            r.file_path == file_path,
            r.present == present,
            file_path@.len() == 0 ==> !r.absolute,
    {
        let absolute = is_absolute_path(file_path.as_str());
        ResultModel { name, file_path, present, absolute }
    }
}

/// The library model that holds a run's result: the model's name when its
/// file exists, its path is absolute and non-empty, and it lies outside the
/// run folder `dir` and outside the outputs.
pub open spec fn copy_of(ctx: ScanContext, model: Option<ResultModel>, dir: Seq<char>) -> Option<Seq<char>> {
    match model {
        None => None,
        Some(m) => if m.file_path@.len() > 0 && m.absolute && m.present && !same_or_inside(m.file_path@, dir)
            && !same_or_inside(m.file_path@, ctx.paths.outputs@) {
            Some(m.name@)
        } else {
            None
        },
    }
}

/// The name of the library model that holds this run's result — only when
/// its file exists, its path is absolute, and it lies outside the run
/// folder (a row pointing into the folder would make the folder the only
/// copy) and outside the outputs.
pub fn library_copy(ctx: &ScanContext, model: Option<&ResultModel>, dir: &str) -> (r: Option<String>)
    ensures
        text_of(r) == copy_of(
            *ctx,
            match model {
                Some(m) => Some(*m),
                None => None,
            },
            dir@,
        ),
{
    match model {
        None => None,
        Some(m) => {
            if m.file_path.unicode_len() == 0 || !m.absolute {
                return None;
            }
            let outside = !is_same_or_inside(m.file_path.as_str(), dir);
            let not_in_outputs = !is_same_or_inside(m.file_path.as_str(), ctx.paths.outputs.as_str());
            if m.present && outside && not_in_outputs {
                Some(m.name.clone())
            } else {
                None
            }
        },
    }
}

/// The index of the final checkpoint among the first `n` files: the
/// greatest step, the later of equal ones.
pub open spec fn final_index(fs: Seq<RunFile>, n: int) -> Option<int>
    decreases n,
{
    if n <= 0 {
        None
    } else {
        let best = final_index(fs, n - 1);
        match fs[n - 1].checkpoint_step {
            Some(s) => match best {
                Some(b) => if fs[b].checkpoint_step->0 <= s {
                    Some(n - 1)
                } else {
                    best
                },
                None => Some(n - 1),
            },
            None => best,
        }
    }
}

proof fn lemma_final_index(fs: Seq<RunFile>, n: int)
    requires
        0 <= n <= fs.len(),
    ensures
        final_index(fs, n) matches Some(b) ==> 0 <= b < n && fs[b].checkpoint_step is Some,
    decreases n,
{
    if n > 0 {
        lemma_final_index(fs, n - 1);
    }
}

/// The final checkpoint's path, when the run has checkpoints.
pub open spec fn final_path(fs: Seq<RunFile>) -> Option<Seq<char>> {
    match final_index(fs, fs.len() as int) {
        Some(b) => Some(fs[b].file.path@),
        None => None,
    }
}

/// `path` lies below `dir` with a `samples` component (any case) on the way.
pub open spec fn in_samples(path: Seq<char>, dir: Seq<char>) -> bool {
    let pc = components(path);
    let dc = components(dir);
    starts_with(pc, dc) && exists|k: int| dc.len() <= k < pc.len() && lower(#[trigger] pc[k]) == "samples"@
}

/// A checkpoint of the run, `optimizer.pt`, `train.log`, or anything under
/// a `samples` folder. The config and anything unknown stay.
pub open spec fn is_disposable(f: RunFile, dir: Seq<char>) -> bool {
    let name = file_name_of(f.file.path@);
    f.checkpoint_step is Some || name == "optimizer.pt"@ || name == "train.log"@ || in_samples(f.file.path@, dir)
}

/// The disposable files of `fs` other than the final checkpoint, in order.
pub open spec fn deletable_of(fs: Seq<RunFile>, dir: Seq<char>, last: Option<Seq<char>>) -> Seq<ScannedFile>
    decreases fs.len(),
{
    if fs.len() == 0 {
        seq![]
    } else {
        let f = fs.last();
        let rest = deletable_of(fs.drop_last(), dir, last);
        if last != Some(f.file.path@) && is_disposable(f, dir) {
            rest.push(f.file)
        } else {
            rest
        }
    }
}

fn samples_below(path: &str, dir: &str) -> (r: bool)
    ensures
        r == in_samples(path@, dir@),
{
    let pc = path_components(path);
    let dc = path_components(dir);
    let ghost (pv, dv) = (views(pc@), views(dc@));
    if dc.len() > pc.len() {
        return false;
    }
    let mut i: usize = 0;
    while i < dc.len()
        invariant
            pv == views(pc@),
            dv == views(dc@),
            pv == components(path@),
            dv == components(dir@),
            dc@.len() <= pc@.len(),
            i <= dc@.len(),
            forall|k: int| 0 <= k < i ==> pv[k] == dv[k],
        decreases dc@.len() - i,
    {
        if !str_eq(pc[i].as_str(), dc[i].as_str()) {
            proof {
                assert(pv.take(dv.len() as int)[i as int] == pv[i as int]);
                assert(pv.take(dv.len() as int) != dv);
            }
            return false;
        }
        i = i + 1;
    }
    assert(pv.take(dv.len() as int) =~= dv);
    let mut k: usize = dc.len();
    proof {
        reveal_strlit("samples");
    }
    while k < pc.len()
        invariant
            pv == views(pc@),
            dv == views(dc@),
            pv == components(path@),
            dv == components(dir@),
            starts_with(pv, dv),
            dc@.len() <= k <= pc@.len(),
            forall|j: int| dv.len() <= j < k ==> lower(#[trigger] pv[j]) != "samples"@,
        decreases pc@.len() - k,
    {
        if str_eq(to_ascii_lower(pc[k].as_str()).as_str(), "samples") {
            assert(lower(pv[k as int]) == "samples"@);
            return true;
        }
        k = k + 1;
    }
    false
}

fn disposable(f: &RunFile, dir: &str) -> (r: bool)
    ensures
        r == is_disposable(*f, dir@),
{
    if f.checkpoint_step.is_some() {
        return true;
    }
    let name = file_name(f.file.path.as_str());
    str_eq(name.as_str(), "optimizer.pt") || str_eq(name.as_str(), "train.log") || samples_below(
        f.file.path.as_str(),
        dir,
    )
}

fn copy_file(f: &ScannedFile) -> (r: ScannedFile)
    ensures
        r == *f,
{
    ScannedFile { path: f.path.clone(), bytes: f.bytes, modified_nanos: f.modified_nanos }
}

/// The files of a finished run's folder that may go without a library
/// copy — every disposable file except the final checkpoint — and that
/// final checkpoint (the greatest step), the only copy of the result.
pub fn disposable_files(fs: &[RunFile], dir: &str) -> (r: (Vec<ScannedFile>, Option<String>))
    ensures
        text_of(r.1) == final_path(fs@),
        r.0@ == deletable_of(fs@, dir@, final_path(fs@)),
{
    let mut best: Option<usize> = None;
    let mut i: usize = 0;
    while i < fs.len()
        invariant
            i <= fs@.len(),
            match best {
                Some(b) => final_index(fs@, i as int) == Some(b as int),
                None => final_index(fs@, i as int) is None,
            },
        decreases fs@.len() - i,
    {
        proof {
            lemma_final_index(fs@, i as int);
        }
        if let Some(s) = fs[i].checkpoint_step {
            match best {
                Some(b) => {
                    if fs[b].checkpoint_step.unwrap() <= s {
                        best = Some(i);
                    }
                },
                None => {
                    best = Some(i);
                },
            }
        }
        i = i + 1;
    }
    proof {
        lemma_final_index(fs@, fs@.len() as int);
    }
    let last: Option<String> = match best {
        Some(b) => Some(fs[b].file.path.clone()),
        None => None,
    };
    let mut out: Vec<ScannedFile> = Vec::new();
    let mut k: usize = 0;
    assert(fs@.take(0) =~= Seq::<RunFile>::empty());
    while k < fs.len()
        invariant
            k <= fs@.len(),
            text_of(last) == final_path(fs@),
            out@ == deletable_of(fs@.take(k as int), dir@, final_path(fs@)),
        decreases fs@.len() - k,
    {
        let f = &fs[k];
        assert(fs@.take(k + 1).drop_last() =~= fs@.take(k as int));
        assert(fs@.take(k + 1).last() == *f);
        let is_last = match &last {
            Some(p) => str_eq(p.as_str(), f.file.path.as_str()),
            None => false,
        };
        if !is_last && disposable(f, dir) {
            out.push(copy_file(&f.file));
        }
        k = k + 1;
    }
    assert(fs@.take(k as int) =~= fs@);
    (out, last)
}

/// The note on a run, by its name.
pub open spec fn run_what(name: Seq<char>) -> Seq<char> {
    "Training run \""@ + name + "\""@
}

/// What the runs give, run by run: a note for a run that has not finished, one whose folder cannot
/// be inspected or that the purge check refuses; else the whole folder
/// when its result is in the library, or else a note on the final
/// checkpoint and an entry for the disposable files.
pub open spec fn runs_listing(
    ctx: ScanContext,
    runs: Seq<RunScan>,
    es: Seq<CleanupEntry>,
    ns: Seq<ProtectedNote>,
) -> bool
    decreases runs.len(),
{
    if runs.len() == 0 {
        es.len() == 0 && ns.len() == 0
    } else {
        let r = runs.last();
        let rest = runs.drop_last();
        if !run_terminal(r.state) {
            ns.len() > 0 && note_is(
                ns.last(),
                run_what(r.name@),
                "the run is "@ + run_state_name(r.state) + " \u{2014} its folder stays until it finishes"@,
            ) && runs_listing(ctx, rest, es, ns.drop_last())
        } else {
            match r.probe {
                FolderProbe::Absent => runs_listing(ctx, rest, es, ns),
                FolderProbe::Unreadable(e) => ns.len() > 0 && note_is(
                    ns.last(),
                    run_what(r.name@),
                    "its folder "@ + display_text(r.folder@) + " cannot be inspected: "@ + e@,
                ) && runs_listing(ctx, rest, es, ns.drop_last()),
                FolderProbe::Present => match r.purge_refusal {
                    Some(e) => ns.len() > 0 && note_is(ns.last(), run_what(r.name@), e@) && runs_listing(ctx, rest,
                        es,
                        ns.drop_last(),
                    ),
                    None => match copy_of(ctx, r.result_model, r.folder@) {
                        Some(model) => es.len() > 0 && whole_entry_is(es.last(), r, model) && runs_listing(ctx, rest,
                            es.drop_last(),
                            ns,
                        ),
                        None => {
                            let fs = r.files@;
                            let sel = deletable_of(fs, r.folder@, final_path(fs));
                            let k: int = if final_path(fs) is Some {
                                1
                            } else {
                                0
                            };
                            let m: int = if sel.len() > 0 {
                                1
                            } else {
                                0
                            };
                            &&& ns.len() >= k
                            &&& es.len() >= m
                            &&& final_path(fs) matches Some(p) ==> note_is(
                                ns.last(),
                                run_what(r.name@) + ": "@ + file_name_of(p),
                                "the only copy of the result \u{2014} the LoRA is not in the library"@,
                            )
                            &&& sel.len() > 0 ==> files_entry(
                                es.last(),
                                r.id@,
                                r.name@ + " \u{2014} checkpoints, optimizer state, samples and log"@,
                                sel,
                            )
                            &&& runs_listing(ctx, rest, es.subrange(0, es.len() - m), ns.subrange(0, ns.len() - k))
                        },
                    },
                },
            }
        }
    }
}

/// `e` offers the run's whole folder: its result is the library model
/// `model`.
pub open spec fn whole_entry_is(e: CleanupEntry, r: RunScan, model: Seq<char>) -> bool {
    &&& e.id@ == r.id@
    &&& e.label@ == r.name@ + " \u{2014} whole folder"@
    &&& e.files == r.totals.files
    &&& e.bytes == r.totals.bytes
    &&& e.rows == 0
    &&& views(e.detail@) == seq![
        display_text(r.folder@),
        "the result LoRA \""@ + model + "\" is in the library"@,
    ]
}

/// The files and bytes a run's folder holds, by its walk and its listing.
pub open spec fn runs_files(runs: Seq<RunScan>) -> int
    decreases runs.len(),
{
    if runs.len() == 0 {
        0
    } else {
        runs_files(runs.drop_last()) + runs.last().totals.files + runs.last().files@.len()
    }
}

/// The bytes of the runs' folders, by their walks and their listings.
pub open spec fn runs_bytes(runs: Seq<RunScan>) -> int
    decreases runs.len(),
{
    if runs.len() == 0 {
        0
    } else {
        runs_bytes(runs.drop_last()) + runs.last().totals.bytes + listed_bytes(runs.last().files@)
    }
}

/// The bytes of a run's files.
pub open spec fn listed_bytes(fs: Seq<RunFile>) -> int
    decreases fs.len(),
{
    if fs.len() == 0 {
        0
    } else {
        listed_bytes(fs.drop_last()) + fs.last().file.bytes
    }
}

proof fn lemma_deletable_within(fs: Seq<RunFile>, dir: Seq<char>, last: Option<Seq<char>>)
    ensures
        deletable_of(fs, dir, last).len() <= fs.len(),
        0 <= scanned_bytes(deletable_of(fs, dir, last)) <= listed_bytes(fs),
    decreases fs.len(),
{
    if fs.len() > 0 {
        lemma_deletable_within(fs.drop_last(), dir, last);
        let rest = deletable_of(fs.drop_last(), dir, last);
        assert(rest.push(fs.last().file).drop_last() =~= rest);
    }
}

proof fn lemma_runs_nonneg(runs: Seq<RunScan>)
    ensures
        runs_files(runs) >= 0,
        runs_bytes(runs) >= 0,
    decreases runs.len(),
{
    if runs.len() > 0 {
        lemma_runs_nonneg(runs.drop_last());
        lemma_deletable_within(runs.last().files@, seq![], None);
    }
}

proof fn lemma_runs_totals(
    ctx: ScanContext,
    runs: Seq<RunScan>,
    es: Seq<CleanupEntry>,
    ns: Seq<ProtectedNote>,
)
    requires
        runs_listing(ctx, runs, es, ns),
    ensures
        0 <= entry_files(es) <= runs_files(runs),
        0 <= entry_bytes(es) <= runs_bytes(runs),
    decreases runs.len(),
{
    if runs.len() > 0 {
        let r = runs.last();
        let rest = runs.drop_last();
        lemma_deletable_within(r.files@, r.folder@, final_path(r.files@));
        lemma_runs_nonneg(rest);
        if !run_terminal(r.state) {
            lemma_runs_totals(ctx, rest, es, ns.drop_last());
        } else {
            match r.probe {
                FolderProbe::Absent => lemma_runs_totals(ctx, rest, es, ns),
                FolderProbe::Unreadable(_) => lemma_runs_totals(ctx, rest, es, ns.drop_last()),
                FolderProbe::Present => match r.purge_refusal {
                    Some(_) => lemma_runs_totals(ctx, rest, es, ns.drop_last()),
                    None => match copy_of(ctx, r.result_model, r.folder@) {
                        Some(_) => {
                            lemma_runs_totals(ctx, rest, es.drop_last(), ns);
                        },
                        None => {
                            let fs = r.files@;
                            let sel = deletable_of(fs, r.folder@, final_path(fs));
                            let k: int = if final_path(fs) is Some {
                                1
                            } else {
                                0
                            };
                            let m: int = if sel.len() > 0 {
                                1
                            } else {
                                0
                            };
                            lemma_runs_totals(ctx, rest, es.subrange(0, es.len() - m), ns.subrange(0, ns.len() - k));
                            if m == 1 {
                                assert(es.drop_last() =~= es.subrange(0, es.len() - 1));
                            } else {
                                assert(es.subrange(0, es.len() as int) =~= es);
                            }
                        },
                    },
                },
            }
        }
    }
}

/// What the walks of the runs' folders counted fits the group's counters.
pub open spec fn runs_fit(runs: Seq<RunScan>) -> bool {
    runs_files(runs) <= u64::MAX && runs_bytes(runs) <= u64::MAX
}

fn run_label(name: &str) -> (r: String)
    ensures
        r@ == run_what(name@),
{
    let mut what = String::from_str("Training run \"");
    what.append(name);
    what.append("\"");
    what
}

proof fn lemma_listed_bytes_prefix(fs: Seq<RunFile>)
    ensures
        listed_bytes(fs) >= 0,
    decreases fs.len(),
{
    if fs.len() > 0 {
        lemma_listed_bytes_prefix(fs.drop_last());
    }
}

/// Group `finished_runs`, with its totals, and its notes.
pub open spec fn runs_group_listing(ctx: ScanContext, runs: Seq<RunScan>, g: CleanupGroup, ns: Seq<ProtectedNote>) -> bool {
    &&& g.key@ == "finished_runs"@
    &&& g.label@ == label_of("finished_runs"@)
    &&& g.total_files == entry_files(g.entries@)
    &&& g.total_bytes == entry_bytes(g.entries@)
    &&& runs_listing(ctx, runs, g.entries@, ns)
}

/// Group `finished_runs` and its notes.
pub fn runs_group(ctx: &ScanContext, runs: &[RunScan]) -> (r: (CleanupGroup, Vec<ProtectedNote>))
    requires
        runs_fit(runs@),
    ensures
        runs_group_listing(*ctx, runs@, r.0, r.1@),
{
    let mut es: Vec<CleanupEntry> = Vec::new();
    let mut ns: Vec<ProtectedNote> = Vec::new();
    let mut i: usize = 0;
    assert(runs@.take(0) =~= Seq::<RunScan>::empty());
    while i < runs.len()
        invariant
            i <= runs@.len(),
            runs_fit(runs@),
            runs_listing(*ctx, runs@.take(i as int), es@, ns@),
        decreases runs@.len() - i,
    {
        let r = &runs[i];
        let ghost pre = runs@.take(i as int);
        let ghost post = runs@.take(i + 1);
        let ghost es0 = es@;
        let ghost ns0 = ns@;
        assert(post.drop_last() =~= pre);
        assert(post.last() == *r);
        if !r.state.is_terminal() {
            let mut why = String::from_str("the run is ");
            why.append(r.state.as_str());
            why.append(" \u{2014} its folder stays until it finishes");
            ns.push(note(run_label(r.name.as_str()), why));
            assert(ns@.drop_last() =~= ns0);
        } else {
            match &r.probe {
                FolderProbe::Absent => {},
                FolderProbe::Unreadable(e) => {
                    let mut why = String::from_str("its folder ");
                    why.append(display(r.folder.as_str()).as_str());
                    why.append(" cannot be inspected: ");
                    why.append(e.as_str());
                    ns.push(note(run_label(r.name.as_str()), why));
                    assert(ns@.drop_last() =~= ns0);
                },
                FolderProbe::Present => match &r.purge_refusal {
                    Some(e) => {
                        ns.push(note(run_label(r.name.as_str()), e.clone()));
                        assert(ns@.drop_last() =~= ns0);
                    },
                    None => {
                        let copy = library_copy(ctx, r.result_model.as_ref(), r.folder.as_str());
                        match &copy {
                            Some(model) => {
                                let mut label = r.name.clone();
                                label.append(" \u{2014} whole folder");
                                let mut line = String::from_str("the result LoRA \"");
                                line.append(model.as_str());
                                line.append("\" is in the library");
                                let e = CleanupEntry {
                                    id: r.id.clone(),
                                    label,
                                    files: r.totals.files,
                                    bytes: r.totals.bytes,
                                    rows: 0,
                                    detail: vec![display(r.folder.as_str()), line],
                                };
                                assert(views(e.detail@) =~= seq![
                                    display_text(r.folder@),
                                    "the result LoRA \""@ + model@ + "\" is in the library"@,
                                ]);
                                es.push(e);
                                assert(es@.drop_last() =~= es0);
                            },
                            None => {
                                let (deletable, last) = disposable_files(r.files.as_slice(), r.folder.as_str());
                                if let Some(p) = &last {
                                    let mut what = run_label(r.name.as_str());
                                    what.append(": ");
                                    what.append(file_name(p.as_str()).as_str());
                                    ns.push(
                                        note(
                                            what,
                                            String::from_str(
                                                "the only copy of the result \u{2014} the LoRA is not in the library",
                                            ),
                                        ),
                                    );
                                    assert(ns@.subrange(0, ns@.len() - 1) =~= ns0);
                                } else {
                                    assert(ns@.subrange(0, ns@.len() as int) =~= ns0);
                                }
                                if deletable.len() > 0 {
                                    proof {
                                        lemma_deletable_within(r.files@, r.folder@, final_path(r.files@));
                                        lemma_runs_nonneg(pre);
                                        lemma_listed_bytes_prefix(r.files@);
                                        lemma_runs_bound(runs@, i as int);
                                    }
                                    let mut label = r.name.clone();
                                    label.append(" \u{2014} checkpoints, optimizer state, samples and log");
                                    let e = crate::cleanup::caches::entry_of_files(r.id.clone(), label, deletable.as_slice());
                                    es.push(e);
                                    assert(es@.subrange(0, es@.len() - 1) =~= es0);
                                } else {
                                    assert(es@.subrange(0, es@.len() as int) =~= es0);
                                }
                            },
                        }
                    },
                },
            }
        }
        i = i + 1;
    }
    assert(runs@.take(i as int) =~= runs@);
    proof {
        lemma_runs_totals(*ctx, runs@, es@, ns@);
    }
    let g = group("finished_runs", es);
    (g, ns)
}

proof fn lemma_runs_bound(runs: Seq<RunScan>, i: int)
    requires
        0 <= i < runs.len(),
    ensures
        runs_bytes(runs.take(i + 1)) <= runs_bytes(runs),
        runs_bytes(runs.take(i + 1)) == runs_bytes(runs.take(i)) + runs[i].totals.bytes + listed_bytes(runs[i].files@),
    decreases runs.len(),
{
    assert(runs.take(i + 1).drop_last() =~= runs.take(i));
    assert(runs.take(i + 1).last() == runs[i]);
    lemma_runs_prefix(runs, i + 1);
}

proof fn lemma_runs_prefix(runs: Seq<RunScan>, n: int)
    requires
        0 <= n <= runs.len(),
    ensures
        runs_bytes(runs.take(n)) <= runs_bytes(runs),
    decreases runs.len(),
{
    if n < runs.len() {
        lemma_runs_prefix(runs.drop_last(), n);
        assert(runs.drop_last().take(n) =~= runs.take(n));
        lemma_listed_bytes_prefix(runs.last().files@);
    } else {
        assert(runs.take(n) =~= runs);
    }
}

/// The final checkpoint is never among the files offered without a
/// library copy, and everything offered is a disposable file of the run.
pub proof fn law_final_checkpoint_is_never_deletable(fs: Seq<RunFile>, dir: Seq<char>)
    ensures
        forall|t: int| 0 <= t < deletable_of(fs, dir, final_path(fs)).len() ==> {
            let f = #[trigger] deletable_of(fs, dir, final_path(fs))[t];
            &&& final_path(fs) != Some(f.path@)
            &&& exists|k: int| 0 <= k < fs.len() && fs[k].file == f && is_disposable(fs[k], dir)
        },
{
    lemma_deletable_members(fs, dir, final_path(fs));
}

proof fn lemma_deletable_members(fs: Seq<RunFile>, dir: Seq<char>, last: Option<Seq<char>>)
    ensures
        forall|t: int| 0 <= t < deletable_of(fs, dir, last).len() ==> {
            let f = #[trigger] deletable_of(fs, dir, last)[t];
            &&& last != Some(f.path@)
            &&& exists|k: int| 0 <= k < fs.len() && fs[k].file == f && is_disposable(fs[k], dir)
        },
    decreases fs.len(),
{
    if fs.len() > 0 {
        lemma_deletable_members(fs.drop_last(), dir, last);
        let rest = deletable_of(fs.drop_last(), dir, last);
        assert forall|t: int| 0 <= t < rest.len() implies exists|k: int|
            0 <= k < fs.len() && fs[k].file == #[trigger] rest[t] && is_disposable(fs[k], dir) by {
            let k = choose|k: int| 0 <= k < fs.drop_last().len() && fs.drop_last()[k].file == rest[t] && is_disposable(
                fs.drop_last()[k],
                dir,
            );
            assert(fs[k] == fs.drop_last()[k]);
        }
        assert(fs[fs.len() - 1] == fs.last());
    }
}

/// A run that has not finished is never offered: every entry names a run in
/// a terminal state whose folder is there and that the purge check lets go.
pub proof fn law_unfinished_runs_are_never_offered(
    ctx: ScanContext,
    runs: Seq<RunScan>,
    es: Seq<CleanupEntry>,
    ns: Seq<ProtectedNote>,
)
    requires
        runs_listing(ctx, runs, es, ns),
    ensures
        forall|t: int| 0 <= t < es.len() ==> exists|k: int|
            0 <= k < runs.len() && (#[trigger] es[t]).id@ == runs[k].id@ && offerable(runs[k]),
    decreases runs.len(),
{
    if runs.len() > 0 {
        let r = runs.last();
        let rest = runs.drop_last();
        let n = runs.len() - 1;
        let mut es_rest = es;
        if !run_terminal(r.state) {
            law_unfinished_runs_are_never_offered(ctx, rest, es, ns.drop_last());
        } else {
            match r.probe {
                FolderProbe::Absent => law_unfinished_runs_are_never_offered(ctx, rest, es, ns),
                FolderProbe::Unreadable(_) => law_unfinished_runs_are_never_offered(ctx, rest, es, ns.drop_last()),
                FolderProbe::Present => match r.purge_refusal {
                    Some(_) => law_unfinished_runs_are_never_offered(ctx, rest, es, ns.drop_last()),
                    None => match copy_of(ctx, r.result_model, r.folder@) {
                        Some(_) => {
                            es_rest = es.drop_last();
                            law_unfinished_runs_are_never_offered(ctx, rest, es_rest, ns);
                        },
                        None => {
                            let fs = r.files@;
                            let sel = deletable_of(fs, r.folder@, final_path(fs));
                            let k: int = if final_path(fs) is Some {
                                1
                            } else {
                                0
                            };
                            let m: int = if sel.len() > 0 {
                                1
                            } else {
                                0
                            };
                            es_rest = es.subrange(0, es.len() - m);
                            law_unfinished_runs_are_never_offered(ctx, rest, es_rest, ns.subrange(0, ns.len() - k));
                        },
                    },
                },
            }
        }
        assert forall|t: int| 0 <= t < es.len() implies exists|k: int|
            0 <= k < runs.len() && (#[trigger] es[t]).id@ == runs[k].id@ && offerable(runs[k]) by {
            if t < es_rest.len() {
                assert(es[t] == es_rest[t]);
                let k = choose|k: int| 0 <= k < rest.len() && es_rest[t].id@ == rest[k].id@ && offerable(rest[k]);
                assert(runs[k] == rest[k]);
            } else {
                assert(runs[n] == r);
            }
        }
    }
}

/// A finished run whose folder is there, that the purge check lets go and
/// whose result LoRA is in the library is offered as a whole folder, named
/// by that library model.
pub proof fn law_runs_in_the_library_go_whole(
    ctx: ScanContext,
    runs: Seq<RunScan>,
    es: Seq<CleanupEntry>,
    ns: Seq<ProtectedNote>,
)
    requires
        runs_listing(ctx, runs, es, ns),
    ensures
        forall|k: int|
            0 <= k < runs.len() && offerable(runs[k]) && #[trigger] copy_of(ctx, runs[k].result_model, runs[k].folder@)
                is Some ==> exists|t: int|
                0 <= t < es.len() && whole_entry_is(
                    es[t],
                    runs[k],
                    copy_of(ctx, runs[k].result_model, runs[k].folder@)->0,
                ),
    decreases runs.len(),
{
    if runs.len() > 0 {
        let r = runs.last();
        let rest = runs.drop_last();
        let n = runs.len() - 1;
        let mut es_rest = es;
        if !run_terminal(r.state) {
            law_runs_in_the_library_go_whole(ctx, rest, es, ns.drop_last());
        } else {
            match r.probe {
                FolderProbe::Absent => law_runs_in_the_library_go_whole(ctx, rest, es, ns),
                FolderProbe::Unreadable(_) => law_runs_in_the_library_go_whole(ctx, rest, es, ns.drop_last()),
                FolderProbe::Present => match r.purge_refusal {
                    Some(_) => law_runs_in_the_library_go_whole(ctx, rest, es, ns.drop_last()),
                    None => match copy_of(ctx, r.result_model, r.folder@) {
                        Some(_) => {
                            es_rest = es.drop_last();
                            law_runs_in_the_library_go_whole(ctx, rest, es_rest, ns);
                        },
                        None => {
                            let fs = r.files@;
                            let sel = deletable_of(fs, r.folder@, final_path(fs));
                            let k: int = if final_path(fs) is Some {
                                1
                            } else {
                                0
                            };
                            let m: int = if sel.len() > 0 {
                                1
                            } else {
                                0
                            };
                            es_rest = es.subrange(0, es.len() - m);
                            law_runs_in_the_library_go_whole(ctx, rest, es_rest, ns.subrange(0, ns.len() - k));
                        },
                    },
                },
            }
        }
        assert forall|k: int|
            0 <= k < runs.len() && offerable(runs[k]) && #[trigger] copy_of(ctx, runs[k].result_model, runs[k].folder@)
                is Some implies exists|t: int|
                0 <= t < es.len() && whole_entry_is(
                    es[t],
                    runs[k],
                    copy_of(ctx, runs[k].result_model, runs[k].folder@)->0,
                ) by {
            if k < n {
                assert(runs[k] == rest[k]);
                assert(copy_of(ctx, rest[k].result_model, rest[k].folder@) is Some);
                let t = choose|t: int|
                    0 <= t < es_rest.len() && whole_entry_is(
                        es_rest[t],
                        rest[k],
                        copy_of(ctx, rest[k].result_model, rest[k].folder@)->0,
                    );
                assert(es[t] == es_rest[t]);
            } else {
                assert(runs[k] == r);
                assert(whole_entry_is(es[es.len() - 1], r, copy_of(ctx, r.result_model, r.folder@)->0));
            }
        }
    }
}

/// A run whose folder may be offered at all: finished, there, and let go by
/// the purge check.
pub open spec fn offerable(r: RunScan) -> bool {
    run_terminal(r.state) && r.probe is Present && r.purge_refusal is None
}

} // verus!
