//! Groups `discarded_frames`, `unclaimed_dataset_folders` and
//! `missing_frame_rows`, all per dataset, all skipping a busy dataset (a
//! prep job still writing frames, a training run reading them), which is
//! listed under *protected* instead. A frame row whose file is on a drive
//! that is not connected is not missing: it comes back with the drive.

use vstd::prelude::*;

use crate::cleanup::apply::{display, display_text};
use crate::cleanup::caches_scan::{folder_entry_is, note_is, FolderTotals};
use crate::cleanup::media::{file_name, file_name_of};
use crate::cleanup::scan::{entry_bytes, entry_files, group, label_of, note, CleanupEntry, CleanupGroup, ProtectedNote, ScanContext};
use crate::order::{lemma_lex_irreflexive, lemma_lex_total, lemma_lex_transitive, lex_lt, str_lt};
use crate::text::{decimal, decimal_string, str_eq, views};

verus! {

/// What the disk says of a frame row's file, as far as "missing" goes.
#[derive(Debug, Clone, PartialEq, Eq)]
pub enum FrameState {
    /// The drive is there, the file is not.
    Missing,
    /// Nothing of the path exists, not even its volume root (given): the
    /// drive is not connected.
    DriveAbsent(String),
    /// Present, unreadable, or a path that cannot be judged.
    Other,
}

/// The frame rows of `fs` whose file is missing.
pub open spec fn count_missing(fs: Seq<FrameState>) -> nat
    decreases fs.len(),
{
    if fs.len() == 0 {
        0
    } else {
        count_missing(fs.drop_last()) + if fs.last() is Missing {
            1nat
        } else {
            0nat
        }
    }
}

/// The frame rows of `fs` on the absent drive `root`.
pub open spec fn count_on(fs: Seq<FrameState>, root: Seq<char>) -> nat
    decreases fs.len(),
{
    if fs.len() == 0 {
        0
    } else {
        count_on(fs.drop_last(), root) + if fs.last() matches FrameState::DriveAbsent(r) && r@ == root {
            1nat
        } else {
            0nat
        }
    }
}

/// `roots` names each absent drive of `fs` once, in ascending order, with
/// the number of rows on it.
pub open spec fn drive_tally(fs: Seq<FrameState>, roots: Seq<(Seq<char>, nat)>) -> bool {
    &&& forall|i: int, j: int| 0 <= i < j < roots.len() ==> lex_lt(#[trigger] roots[i].0, #[trigger] roots[j].0)
    &&& forall|i: int| 0 <= i < roots.len() ==> (#[trigger] roots[i]).1 == count_on(fs, roots[i].0) && roots[i].1 > 0
    &&& forall|k: int| 0 <= k < fs.len() ==> (#[trigger] fs[k] matches FrameState::DriveAbsent(r) ==> exists|i: int|
        0 <= i < roots.len() && roots[i].0 == r@)
}

/// Roots and counts as plain values.
pub open spec fn tally_view(v: Seq<(String, u64)>) -> Seq<(Seq<char>, nat)> {
    v.map_values(|x: (String, u64)| (x.0@, x.1 as nat))
}

proof fn lemma_count_on_step(fs: Seq<FrameState>, i: int, root: Seq<char>)
    requires
        0 <= i < fs.len(),
    ensures
        count_on(fs.take(i + 1), root) == count_on(fs.take(i), root) + if fs[i] matches FrameState::DriveAbsent(r)
            && r@ == root {
            1nat
        } else {
            0nat
        },
{
    assert(fs.take(i + 1).drop_last() =~= fs.take(i));
    assert(fs.take(i + 1).last() == fs[i]);
}

proof fn lemma_count_on_bound(fs: Seq<FrameState>, root: Seq<char>)
    ensures
        count_on(fs, root) <= fs.len(),
    decreases fs.len(),
{
    if fs.len() > 0 {
        lemma_count_on_bound(fs.drop_last(), root);
    }
}

/// Each absent drive of `fs` with the number of rows on it, by root.
#[verifier::spinoff_prover]
#[verifier::rlimit(50)]
fn drive_counts(fs: &[FrameState]) -> (r: Vec<(String, u64)>)
    ensures
        drive_tally(fs@, tally_view(r@)),
{
    let mut out: Vec<(String, u64)> = Vec::new();
    let mut i: usize = 0;
    assert(fs@.take(0) =~= Seq::<FrameState>::empty());
    while i < fs.len()
        invariant
            i <= fs@.len(),
            drive_tally(fs@.take(i as int), tally_view(out@)),
            forall|t: int| 0 <= t < out@.len() ==> (#[trigger] out@[t]).1 <= i,
        decreases fs@.len() - i,
    {
        let ghost pre = fs@.take(i as int);
        let ghost post = fs@.take(i + 1);
        let ghost old_v = tally_view(out@);
        assert(post.drop_last() =~= pre);
        assert forall|k: int| 0 <= k < i implies #[trigger] post[k] == pre[k] by {}
        proof {
            assert forall|root: Seq<char>| #[trigger] count_on(post, root) == count_on(pre, root) + if fs@[i as int] matches FrameState::DriveAbsent(r)
                && r@ == root {
                1nat
            } else {
                0nat
            } by {
                lemma_count_on_step(fs@, i as int, root);
            }
        }
        match &fs[i] {
            FrameState::DriveAbsent(root) => {
                let mut p: usize = 0;
                while p < out.len() && str_lt(out[p].0.as_str(), root.as_str())
                    invariant
                        p <= out@.len(),
                        old_v == tally_view(out@),
                        forall|t: int| 0 <= t < p ==> lex_lt(#[trigger] out@[t].0@, root@),
                    decreases out@.len() - p,
                {
                    p = p + 1;
                }
                if p < out.len() && str_eq(out[p].0.as_str(), root.as_str()) {
                    let n = out[p].1;
                    let name = out[p].0.clone();
                    out.set(p, (name, n + 1));
                    proof {
                        let v = tally_view(out@);
                        assert forall|t: int| 0 <= t < v.len() implies (#[trigger] v[t]).1 == count_on(post, v[t].0)
                            && v[t].1 > 0 by {
                            assert(old_v[t].1 == count_on(pre, old_v[t].0));
                            if t != p {
                                assert(v[t] == old_v[t]);
                                assert(old_v[t].0 != root@) by {
                                    if t < p {
                                        lemma_lex_irreflexive(root@);
                                    } else {
                                        assert(old_v[p as int].0 == root@);
                                        assert(lex_lt(old_v[p as int].0, old_v[t].0));
                                        lemma_lex_irreflexive(root@);
                                    }
                                }
                            }
                        }
                        assert forall|a: int, b: int| 0 <= a < b < v.len() implies lex_lt(
                            #[trigger] v[a].0,
                            #[trigger] v[b].0,
                        ) by {
                            assert(v[a].0 == old_v[a].0 && v[b].0 == old_v[b].0);
                        }
                        assert forall|k: int| 0 <= k < post.len() implies (#[trigger] post[k] matches FrameState::DriveAbsent(
                            r,
                        ) ==> exists|j: int| 0 <= j < v.len() && v[j].0 == r@) by {
                            if k < i {
                                assert(post[k] == pre[k]);
                                if let FrameState::DriveAbsent(r) = post[k] {
                                    let j = choose|j: int| 0 <= j < old_v.len() && old_v[j].0 == r@;
                                    assert(v[j].0 == old_v[j].0);
                                }
                            } else {
                                assert(v[p as int].0 == root@);
                            }
                        }
                    }
                } else {
                    let ghost at = p as int;
                    out.insert(p, (root.clone(), 1));
                    proof {
                        let v = tally_view(out@);
                        assert(v =~= old_v.insert(at, (root@, 1nat)));
                        assert(at < old_v.len() ==> lex_lt(root@, old_v[at].0)) by {
                            if at < old_v.len() {
                                lemma_lex_total(old_v[at].0, root@);
                            }
                        }
                        assert forall|t: int| 0 <= t < old_v.len() implies #[trigger] old_v[t].0 != root@ by {
                            if t < at {
                                assert(lex_lt(old_v[t].0, root@));
                                lemma_lex_irreflexive(root@);
                            } else {
                                if at < t {
                                    assert(lex_lt(old_v[at].0, old_v[t].0));
                                    lemma_lex_transitive(root@, old_v[at].0, old_v[t].0);
                                    lemma_lex_irreflexive(root@);
                                } else {
                                    lemma_lex_irreflexive(root@);
                                }
                            }
                        }
                        assert(count_on(pre, root@) == 0) by {
                            if count_on(pre, root@) > 0 {
                                lemma_count_on_positive(pre, root@);
                                let k = choose|k: int| 0 <= k < pre.len() && (#[trigger] pre[k] matches FrameState::DriveAbsent(r) && r@ == root@);
                                assert(pre[k] matches FrameState::DriveAbsent(r) ==> exists|j: int| 0 <= j < old_v.len() && old_v[j].0 == r@);
                            }
                        }
                        assert forall|t: int| 0 <= t < v.len() implies (#[trigger] v[t]).1 == count_on(post, v[t].0)
                            && v[t].1 > 0 by {
                            if t < at {
                                assert(v[t] == old_v[t]);
                            } else if t > at {
                                assert(v[t] == old_v[t - 1]);
                            }
                        }
                        assert forall|a: int, b: int| 0 <= a < b < v.len() implies lex_lt(
                            #[trigger] v[a].0,
                            #[trigger] v[b].0,
                        ) by {
                            if b < at {
                                assert(v[a] == old_v[a] && v[b] == old_v[b]);
                            } else if b == at {
                                assert(v[a] == old_v[a]);
                            } else if a < at {
                                assert(v[a] == old_v[a] && v[b] == old_v[b - 1]);
                                if b - 1 > at {
                                    assert(lex_lt(old_v[at].0, old_v[b - 1].0));
                                    lemma_lex_transitive(old_v[a].0, root@, old_v[at].0);
                                    lemma_lex_transitive(old_v[a].0, old_v[at].0, old_v[b - 1].0);
                                } else {
                                    lemma_lex_transitive(old_v[a].0, root@, old_v[at].0);
                                }
                            } else if a == at {
                                assert(v[b] == old_v[b - 1]);
                                if b - 1 > at {
                                    assert(lex_lt(old_v[at].0, old_v[b - 1].0));
                                    lemma_lex_transitive(root@, old_v[at].0, old_v[b - 1].0);
                                }
                            } else {
                                assert(v[a] == old_v[a - 1] && v[b] == old_v[b - 1]);
                            }
                        }
                        assert forall|k: int| 0 <= k < post.len() implies (#[trigger] post[k] matches FrameState::DriveAbsent(
                            r,
                        ) ==> exists|j: int| 0 <= j < v.len() && v[j].0 == r@) by {
                            if k < i {
                                assert(post[k] == pre[k]);
                                if let FrameState::DriveAbsent(r) = post[k] {
                                    let j = choose|j: int| 0 <= j < old_v.len() && old_v[j].0 == r@;
                                    if j < at {
                                        assert(v[j] == old_v[j]);
                                    } else {
                                        assert(v[j + 1] == old_v[j]);
                                    }
                                }
                            } else {
                                assert(v[at].0 == root@);
                            }
                        }
                    }
                }
            },
            _ => {
                proof {
                    let v = tally_view(out@);
                    assert forall|k: int| 0 <= k < post.len() implies (#[trigger] post[k] matches FrameState::DriveAbsent(
                        r,
                    ) ==> exists|j: int| 0 <= j < v.len() && v[j].0 == r@) by {
                        if k < i {
                            assert(post[k] == pre[k]);
                        }
                    }
                }
            },
        }
        proof {
            lemma_count_on_bound(post, fs@[i as int]->DriveAbsent_0@);
            assert forall|t: int| 0 <= t < out@.len() implies (#[trigger] out@[t]).1 <= i + 1 by {
                let v = tally_view(out@);
                assert(v[t].1 == out@[t].1);
                lemma_count_on_bound(post, v[t].0);
            }
        }
        i = i + 1;
    }
    assert(fs@.take(i as int) =~= fs@);
    out
}

proof fn lemma_count_on_positive(fs: Seq<FrameState>, root: Seq<char>)
    requires
        count_on(fs, root) > 0,
    ensures
        exists|k: int| 0 <= k < fs.len() && (#[trigger] fs[k] matches FrameState::DriveAbsent(r) && r@ == root),
    decreases fs.len(),
{
    if count_on(fs.drop_last(), root) > 0 {
        lemma_count_on_positive(fs.drop_last(), root);
        let k = choose|k: int| 0 <= k < fs.drop_last().len() && (#[trigger] fs.drop_last()[k] matches FrameState::DriveAbsent(r) && r@ == root);
        assert(fs[k] == fs.drop_last()[k]);
    } else {
        assert(fs[fs.len() - 1] == fs.last());
    }
}

/// What housekeeping measured of a dataset it may clean: its excluded and
/// rejected frames, as its cleanup would delete them.
#[derive(Debug, Clone)]
pub struct DatasetUsage {
    pub discarded_frames: u64,
    pub discarded_files: u64,
    pub discarded_bytes: u64,
    /// The dataset's work folder, when it has one.
    pub work_dir: Option<String>,
}

/// What the scan knows of one dataset.
#[derive(Debug, Clone)]
pub struct DatasetScan {
    pub id: String,
    pub name: String,
    /// Why housekeeping must leave it alone right now, if so.
    pub busy: Option<String>,
    /// Measured only for a dataset that is not busy.
    pub usage: Option<DatasetUsage>,
    /// What the disk says of each frame row's file.
    pub frames: Vec<FrameState>,
}

/// A folder directly under the datasets root that no dataset claims, with
/// what a walk of it counted.
#[derive(Debug, Clone)]
pub struct UnclaimedFolder {
    pub path: String,
    pub totals: FolderTotals,
}

/// The datasets root's children no dataset claims: real folders, and links
/// or junctions (never followed).
#[derive(Debug, Clone)]
pub struct UnclaimedFolders {
    pub folders: Vec<UnclaimedFolder>,
    pub links: Vec<String>,
}

/// `e` is the entry with these fields.
pub open spec fn entry_is(
    e: CleanupEntry,
    id: Seq<char>,
    label: Seq<char>,
    files: int,
    bytes: int,
    rows: int,
    detail: Seq<Seq<char>>,
) -> bool {
    &&& e.id@ == id
    &&& e.label@ == label
    &&& e.files == files
    &&& e.bytes == bytes
    &&& e.rows == rows
    &&& views(e.detail@) == detail
}

/// One note per busy dataset, in order.
pub open spec fn busy_listing(ds: Seq<DatasetScan>, ns: Seq<ProtectedNote>) -> bool
    decreases ds.len(),
{
    if ds.len() == 0 {
        ns.len() == 0
    } else {
        let d = ds.last();
        match d.busy {
            Some(why) => ns.len() > 0 && note_is(ns.last(), "Dataset \""@ + d.name@ + "\""@, why@) && busy_listing(
                ds.drop_last(),
                ns.drop_last(),
            ),
            None => busy_listing(ds.drop_last(), ns),
        }
    }
}

/// The detail line of a dataset's discarded frames: its work folder.
pub open spec fn work_dir_lines(w: Option<String>) -> Seq<Seq<char>> {
    match w {
        Some(w) => seq!["work folder "@ + w@],
        None => seq![],
    }
}

/// One entry per dataset that is not busy and has discarded frames.
pub open spec fn discarded_listing(ds: Seq<DatasetScan>, es: Seq<CleanupEntry>) -> bool
    decreases ds.len(),
{
    if ds.len() == 0 {
        es.len() == 0
    } else {
        let d = ds.last();
        if d.busy is None && (d.usage matches Some(u) && u.discarded_frames > 0) {
            let u = d.usage->0;
            es.len() > 0 && entry_is(
                es.last(),
                d.id@,
                d.name@,
                u.discarded_files as int,
                u.discarded_bytes as int,
                u.discarded_frames as int,
                work_dir_lines(u.work_dir),
            ) && discarded_listing(ds.drop_last(), es.drop_last())
        } else {
            discarded_listing(ds.drop_last(), es)
        }
    }
}

/// One entry per unclaimed folder, unless it is or holds an app folder,
/// which is noted instead.
pub open spec fn unclaimed_listing(ctx: ScanContext, fs: Seq<UnclaimedFolder>, es: Seq<CleanupEntry>, ns: Seq<ProtectedNote>) -> bool
    decreases fs.len(),
{
    if fs.len() == 0 {
        es.len() == 0 && ns.len() == 0
    } else {
        let f = fs.last();
        match ctx.whole_folder_reason(f.path@, None) {
            Some(why) => ns.len() > 0 && note_is(ns.last(), "Folder "@ + display_text(f.path@), why)
                && unclaimed_listing(ctx, fs.drop_last(), es, ns.drop_last()),
            None => es.len() > 0 && folder_entry_is(
                es.last(),
                file_name_of(f.path@),
                file_name_of(f.path@),
                f.path@,
                f.totals,
            ) && unclaimed_listing(ctx, fs.drop_last(), es.drop_last(), ns),
        }
    }
}

/// One note per link under the datasets root.
pub open spec fn link_notes(links: Seq<String>, ns: Seq<ProtectedNote>) -> bool {
    &&& ns.len() == links.len()
    &&& forall|t: int| 0 <= t < links.len() ==> note_is(
        #[trigger] ns[t],
        "Folder "@ + display_text(links[t]@),
        "it is a link or junction, never followed"@,
    )
}

/// The notes for the rows of dataset `name` on absent drives, one per
/// drive in order of `roots`.
pub open spec fn drive_notes(name: Seq<char>, roots: Seq<(Seq<char>, nat)>, ns: Seq<ProtectedNote>) -> bool {
    &&& ns.len() == roots.len()
    &&& forall|t: int| 0 <= t < roots.len() ==> note_is(
        #[trigger] ns[t],
        decimal(roots[t].1) + " frame rows of dataset \""@ + name + "\""@,
        "their files are on a drive that is not connected ("@ + roots[t].0
            + ") \u{2014} reconnect it or leave them"@,
    )
}

/// Per dataset that is not busy: a note per absent drive, then an entry
/// when any row's file is missing.
pub open spec fn missing_listing(ds: Seq<DatasetScan>, es: Seq<CleanupEntry>, ns: Seq<ProtectedNote>) -> bool
    decreases ds.len(),
{
    if ds.len() == 0 {
        es.len() == 0 && ns.len() == 0
    } else {
        let d = ds.last();
        if d.busy is Some {
            missing_listing(ds.drop_last(), es, ns)
        } else {
            let fs = d.frames@;
            let m = count_missing(fs);
            let es_rest = if m > 0 {
                es.drop_last()
            } else {
                es
            };
            &&& m > 0 ==> es.len() > 0 && entry_is(
                es.last(),
                d.id@,
                d.name@,
                0,
                0,
                m as int,
                seq![decimal(m) + " of "@ + decimal(fs.len()) + " frame entries"@],
            )
            &&& exists|roots: Seq<(Seq<char>, nat)>|
                #[trigger] drive_tally(fs, roots) && roots.len() <= ns.len() && drive_notes(
                    d.name@,
                    roots,
                    ns.subrange(ns.len() - roots.len(), ns.len() as int),
                ) && missing_listing(ds.drop_last(), es_rest, ns.subrange(0, ns.len() - roots.len()))
        }
    }
}

/// One note per busy dataset.
pub fn busy_notes(ds: &[DatasetScan]) -> (r: Vec<ProtectedNote>)
    ensures
        busy_listing(ds@, r@),
{
    let mut ns: Vec<ProtectedNote> = Vec::new();
    let mut i: usize = 0;
    assert(ds@.take(0) =~= Seq::<DatasetScan>::empty());
    while i < ds.len()
        invariant
            i <= ds@.len(),
            busy_listing(ds@.take(i as int), ns@),
        decreases ds@.len() - i,
    {
        let d = &ds[i];
        assert(ds@.take(i + 1).drop_last() =~= ds@.take(i as int));
        assert(ds@.take(i + 1).last() == *d);
        if let Some(why) = &d.busy {
            let mut what = String::from_str("Dataset \"");
            what.append(d.name.as_str());
            what.append("\"");
            let ghost before = ns@;
            ns.push(note(what, why.clone()));
            assert(ns@.drop_last() =~= before);
        }
        i = i + 1;
    }
    assert(ds@.take(i as int) =~= ds@);
    ns
}

/// Per dataset that is not busy: its excluded and rejected frames, as the
/// housekeeping cleanup would delete them.
pub fn discarded_entries(ds: &[DatasetScan]) -> (r: Vec<CleanupEntry>)
    ensures
        discarded_listing(ds@, r@),
{
    let mut es: Vec<CleanupEntry> = Vec::new();
    let mut i: usize = 0;
    assert(ds@.take(0) =~= Seq::<DatasetScan>::empty());
    while i < ds.len()
        invariant
            i <= ds@.len(),
            discarded_listing(ds@.take(i as int), es@),
        decreases ds@.len() - i,
    {
        let d = &ds[i];
        assert(ds@.take(i + 1).drop_last() =~= ds@.take(i as int));
        assert(ds@.take(i + 1).last() == *d);
        if d.busy.is_none() {
            if let Some(u) = &d.usage {
                if u.discarded_frames > 0 {
                    let detail: Vec<String> = match &u.work_dir {
                        Some(w) => {
                            let mut line = String::from_str("work folder ");
                            line.append(w.as_str());
                            vec![line]
                        },
                        None => Vec::new(),
                    };
                    let e = CleanupEntry {
                        id: d.id.clone(),
                        label: d.name.clone(),
                        files: u.discarded_files,
                        bytes: u.discarded_bytes,
                        rows: u.discarded_frames,
                        detail,
                    };
                    assert(views(e.detail@) =~= work_dir_lines(u.work_dir));
                    let ghost before = es@;
                    es.push(e);
                    assert(es@.drop_last() =~= before);
                }
            }
        }
        i = i + 1;
    }
    assert(ds@.take(i as int) =~= ds@);
    es
}

/// The unclaimed folders, then a note per link.
pub fn unclaimed_section(ctx: &ScanContext, u: &UnclaimedFolders) -> (r: (Vec<CleanupEntry>, Vec<ProtectedNote>))
    ensures
        r.1@.len() >= u.links@.len(),
        unclaimed_listing(*ctx, u.folders@, r.0@, r.1@.subrange(0, r.1@.len() - u.links@.len())),
        link_notes(u.links@, r.1@.subrange(r.1@.len() - u.links@.len(), r.1@.len() as int)),
{
    let mut es: Vec<CleanupEntry> = Vec::new();
    let mut ns: Vec<ProtectedNote> = Vec::new();
    let mut i: usize = 0;
    assert(u.folders@.take(0) =~= Seq::<UnclaimedFolder>::empty());
    while i < u.folders.len()
        invariant
            i <= u.folders@.len(),
            unclaimed_listing(*ctx, u.folders@.take(i as int), es@, ns@),
        decreases u.folders@.len() - i,
    {
        let f = &u.folders[i];
        assert(u.folders@.take(i + 1).drop_last() =~= u.folders@.take(i as int));
        assert(u.folders@.take(i + 1).last() == *f);
        match ctx.whole_folder_refusal(f.path.as_str(), None) {
            Some(why) => {
                let mut what = String::from_str("Folder ");
                what.append(display(f.path.as_str()).as_str());
                let ghost before = ns@;
                ns.push(note(what, why));
                assert(ns@.drop_last() =~= before);
            },
            None => {
                let name = file_name(f.path.as_str());
                let e = CleanupEntry {
                    id: name.clone(),
                    label: name,
                    files: f.totals.files,
                    bytes: f.totals.bytes,
                    rows: 0,
                    detail: vec![display(f.path.as_str())],
                };
                assert(views(e.detail@) =~= seq![display_text(f.path@)]);
                let ghost before = es@;
                es.push(e);
                assert(es@.drop_last() =~= before);
            },
        }
        i = i + 1;
    }
    assert(u.folders@.take(i as int) =~= u.folders@);
    let ghost folder_notes = ns@;
    let mut k: usize = 0;
    while k < u.links.len()
        invariant
            k <= u.links@.len(),
            ns@.len() == folder_notes.len() + k,
            ns@.subrange(0, folder_notes.len() as int) == folder_notes,
            forall|t: int| 0 <= t < k ==> note_is(
                #[trigger] ns@[folder_notes.len() + t],
                "Folder "@ + display_text(u.links@[t]@),
                "it is a link or junction, never followed"@,
            ),
        decreases u.links@.len() - k,
    {
        let mut what = String::from_str("Folder ");
        what.append(display(u.links[k].as_str()).as_str());
        let ghost before = ns@;
        ns.push(note(what, String::from_str("it is a link or junction, never followed")));
        assert(ns@.subrange(0, folder_notes.len() as int) =~= before.subrange(0, folder_notes.len() as int));
        assert forall|t: int| 0 <= t < k + 1 implies note_is(
            #[trigger] ns@[folder_notes.len() + t],
            "Folder "@ + display_text(u.links@[t]@),
            "it is a link or junction, never followed"@,
        ) by {
            if t < k {
                assert(ns@[folder_notes.len() + t] == before[folder_notes.len() + t]);
            }
        }
        k = k + 1;
    }
    let ghost tail = ns@.subrange(ns@.len() - u.links@.len(), ns@.len() as int);
    assert forall|t: int| 0 <= t < u.links@.len() implies note_is(
        #[trigger] tail[t],
        "Folder "@ + display_text(u.links@[t]@),
        "it is a link or junction, never followed"@,
    ) by {
        assert(tail[t] == ns@[folder_notes.len() + t]);
    }
    (es, ns)
}

proof fn lemma_count_missing_bound(fs: Seq<FrameState>)
    ensures
        count_missing(fs) <= fs.len(),
    decreases fs.len(),
{
    if fs.len() > 0 {
        lemma_count_missing_bound(fs.drop_last());
    }
}

/// The rows of `fs` whose file is missing.
fn missing_count(fs: &[FrameState]) -> (r: u64)
    ensures
        r == count_missing(fs@),
{
    let mut n: u64 = 0;
    let mut i: usize = 0;
    assert(fs@.take(0) =~= Seq::<FrameState>::empty());
    while i < fs.len()
        invariant
            i <= fs@.len(),
            n == count_missing(fs@.take(i as int)),
        decreases fs@.len() - i,
    {
        assert(fs@.take(i + 1).drop_last() =~= fs@.take(i as int));
        assert(fs@.take(i + 1).last() == fs@[i as int]);
        proof {
            lemma_count_missing_bound(fs@.take(i as int));
        }
        if let FrameState::Missing = &fs[i] {
            n = n + 1;
        }
        i = i + 1;
    }
    assert(fs@.take(i as int) =~= fs@);
    n
}

/// Per dataset that is not busy: a note per absent drive with the number
/// of its rows there, then an entry for the rows whose file is missing.
pub fn missing_section(ds: &[DatasetScan]) -> (r: (Vec<CleanupEntry>, Vec<ProtectedNote>))
    ensures
        missing_listing(ds@, r.0@, r.1@),
{
    let mut es: Vec<CleanupEntry> = Vec::new();
    let mut ns: Vec<ProtectedNote> = Vec::new();
    let mut i: usize = 0;
    assert(ds@.take(0) =~= Seq::<DatasetScan>::empty());
    while i < ds.len()
        invariant
            i <= ds@.len(),
            missing_listing(ds@.take(i as int), es@, ns@),
        decreases ds@.len() - i,
    {
        let d = &ds[i];
        assert(ds@.take(i + 1).drop_last() =~= ds@.take(i as int));
        assert(ds@.take(i + 1).last() == *d);
        if d.busy.is_none() {
            let ghost es0 = es@;
            let ghost ns0 = ns@;
            let roots = drive_counts(d.frames.as_slice());
            let ghost rv = tally_view(roots@);
            let mut k: usize = 0;
            while k < roots.len()
                invariant
                    k <= roots@.len(),
                    rv == tally_view(roots@),
                    ns@.len() == ns0.len() + k,
                    ns@.subrange(0, ns0.len() as int) == ns0,
                    forall|t: int| 0 <= t < k ==> note_is(
                        #[trigger] ns@[ns0.len() + t],
                        decimal(rv[t].1) + " frame rows of dataset \""@ + d.name@ + "\""@,
                        "their files are on a drive that is not connected ("@ + rv[t].0
                            + ") \u{2014} reconnect it or leave them"@,
                    ),
                decreases roots@.len() - k,
            {
                let mut what = decimal_string(roots[k].1);
                what.append(" frame rows of dataset \"");
                what.append(d.name.as_str());
                what.append("\"");
                let mut why = String::from_str("their files are on a drive that is not connected (");
                why.append(roots[k].0.as_str());
                why.append(") \u{2014} reconnect it or leave them");
                let ghost before = ns@;
                ns.push(note(what, why));
                assert(ns@.subrange(0, ns0.len() as int) =~= before.subrange(0, ns0.len() as int));
                assert forall|t: int| 0 <= t < k + 1 implies note_is(
                    #[trigger] ns@[ns0.len() + t],
                    decimal(rv[t].1) + " frame rows of dataset \""@ + d.name@ + "\""@,
                    "their files are on a drive that is not connected ("@ + rv[t].0
                        + ") \u{2014} reconnect it or leave them"@,
                ) by {
                    if t < k {
                        assert(ns@[ns0.len() + t] == before[ns0.len() + t]);
                    }
                }
                k = k + 1;
            }
            let m = missing_count(d.frames.as_slice());
            if m > 0 {
                let mut line = decimal_string(m);
                line.append(" of ");
                line.append(decimal_string(d.frames.len() as u64).as_str());
                line.append(" frame entries");
                let e = CleanupEntry {
                    id: d.id.clone(),
                    label: d.name.clone(),
                    files: 0,
                    bytes: 0,
                    rows: m,
                    detail: vec![line],
                };
                assert(views(e.detail@) =~= seq![decimal(m as nat) + " of "@ + decimal(d.frames@.len()) + " frame entries"@]);
                es.push(e);
                assert(es@.drop_last() =~= es0);
            }
            proof {
                let ns1 = ns@;
                assert(ns1.subrange(0, ns1.len() - rv.len()) =~= ns0);
                let tail = ns1.subrange(ns1.len() - rv.len(), ns1.len() as int);
                assert forall|t: int| 0 <= t < rv.len() implies note_is(
                    #[trigger] tail[t],
                    decimal(rv[t].1) + " frame rows of dataset \""@ + d.name@ + "\""@,
                    "their files are on a drive that is not connected ("@ + rv[t].0
                        + ") \u{2014} reconnect it or leave them"@,
                ) by {
                    assert(tail[t] == ns1[ns0.len() + t]);
                }
                assert(drive_notes(d.name@, rv, tail));
                assert(drive_tally(d.frames@, rv));
            }
        }
        i = i + 1;
    }
    assert(ds@.take(i as int) =~= ds@);
    (es, ns)
}

/// The discarded files housekeeping measured, over every dataset.
pub open spec fn usage_files(ds: Seq<DatasetScan>) -> int
    decreases ds.len(),
{
    if ds.len() == 0 {
        0
    } else {
        usage_files(ds.drop_last()) + match ds.last().usage {
            Some(u) => u.discarded_files as int,
            None => 0,
        }
    }
}

/// The discarded bytes housekeeping measured, over every dataset.
pub open spec fn usage_bytes(ds: Seq<DatasetScan>) -> int
    decreases ds.len(),
{
    if ds.len() == 0 {
        0
    } else {
        usage_bytes(ds.drop_last()) + match ds.last().usage {
            Some(u) => u.discarded_bytes as int,
            None => 0,
        }
    }
}

/// The files the unclaimed folders hold.
pub open spec fn unclaimed_files(fs: Seq<UnclaimedFolder>) -> int
    decreases fs.len(),
{
    if fs.len() == 0 {
        0
    } else {
        unclaimed_files(fs.drop_last()) + fs.last().totals.files
    }
}

/// The bytes the unclaimed folders hold.
pub open spec fn unclaimed_bytes(fs: Seq<UnclaimedFolder>) -> int
    decreases fs.len(),
{
    if fs.len() == 0 {
        0
    } else {
        unclaimed_bytes(fs.drop_last()) + fs.last().totals.bytes
    }
}

/// The measured totals fit the groups' counters.
pub open spec fn datasets_fit(ds: Seq<DatasetScan>, u: UnclaimedFolders) -> bool {
    &&& usage_files(ds) <= u64::MAX
    &&& usage_bytes(ds) <= u64::MAX
    &&& unclaimed_files(u.folders@) <= u64::MAX
    &&& unclaimed_bytes(u.folders@) <= u64::MAX
}

proof fn lemma_push_totals(es: Seq<CleanupEntry>)
    requires
        es.len() > 0,
    ensures
        entry_files(es) == entry_files(es.drop_last()) + es.last().files,
        entry_bytes(es) == entry_bytes(es.drop_last()) + es.last().bytes,
{
}

proof fn lemma_usage_nonneg(ds: Seq<DatasetScan>)
    ensures
        usage_files(ds) >= 0,
        usage_bytes(ds) >= 0,
    decreases ds.len(),
{
    if ds.len() > 0 {
        lemma_usage_nonneg(ds.drop_last());
    }
}

proof fn lemma_discarded_totals(ds: Seq<DatasetScan>, es: Seq<CleanupEntry>)
    requires
        discarded_listing(ds, es),
    ensures
        entry_files(es) <= usage_files(ds),
        entry_bytes(es) <= usage_bytes(ds),
    decreases ds.len(),
{
    if ds.len() > 0 {
        let d = ds.last();
        if d.busy is None && (d.usage matches Some(u) && u.discarded_frames > 0) {
            lemma_discarded_totals(ds.drop_last(), es.drop_last());
            lemma_push_totals(es);
        } else {
            lemma_discarded_totals(ds.drop_last(), es);
        }
    }
}

proof fn lemma_unclaimed_totals(ctx: ScanContext, fs: Seq<UnclaimedFolder>, es: Seq<CleanupEntry>, ns: Seq<ProtectedNote>)
    requires
        unclaimed_listing(ctx, fs, es, ns),
    ensures
        entry_files(es) <= unclaimed_files(fs),
        entry_bytes(es) <= unclaimed_bytes(fs),
    decreases fs.len(),
{
    if fs.len() > 0 {
        let f = fs.last();
        match ctx.whole_folder_reason(f.path@, None) {
            Some(_) => lemma_unclaimed_totals(ctx, fs.drop_last(), es, ns.drop_last()),
            None => {
                lemma_unclaimed_totals(ctx, fs.drop_last(), es.drop_last(), ns);
                lemma_push_totals(es);
            },
        }
    }
}

proof fn lemma_missing_totals(ds: Seq<DatasetScan>, es: Seq<CleanupEntry>, ns: Seq<ProtectedNote>)
    requires
        missing_listing(ds, es, ns),
    ensures
        entry_files(es) == 0,
        entry_bytes(es) == 0,
    decreases ds.len(),
{
    if ds.len() > 0 {
        let d = ds.last();
        if d.busy is Some {
            lemma_missing_totals(ds.drop_last(), es, ns);
        } else {
            let fs = d.frames@;
            let m = count_missing(fs);
            let es_rest = if m > 0 {
                es.drop_last()
            } else {
                es
            };
            let roots = choose|roots: Seq<(Seq<char>, nat)>|
                #[trigger] drive_tally(fs, roots) && roots.len() <= ns.len() && drive_notes(
                    d.name@,
                    roots,
                    ns.subrange(ns.len() - roots.len(), ns.len() as int),
                ) && missing_listing(ds.drop_last(), es_rest, ns.subrange(0, ns.len() - roots.len()));
            lemma_missing_totals(ds.drop_last(), es_rest, ns.subrange(0, ns.len() - roots.len()));
            if m > 0 {
                lemma_push_totals(es);
            }
        }
    }
}

/// The three groups' entries, with the notes cut after the busy datasets'
/// notes, after the unclaimed folders' notes and after the links' notes.
pub open spec fn datasets_listing_at(
    ctx: ScanContext,
    ds: Seq<DatasetScan>,
    u: UnclaimedFolders,
    gs: Seq<CleanupGroup>,
    ns: Seq<ProtectedNote>,
    x: int,
    y: int,
    z: int,
) -> bool {
    &&& gs.len() == 3
    &&& 0 <= x <= y <= z <= ns.len()
    &&& busy_listing(ds, ns.subrange(0, x))
    &&& unclaimed_listing(ctx, u.folders@, gs[1].entries@, ns.subrange(x, y))
    &&& link_notes(u.links@, ns.subrange(y, z))
    &&& missing_listing(ds, gs[2].entries@, ns.subrange(z, ns.len() as int))
    &&& discarded_listing(ds, gs[0].entries@)
}

/// The groups `discarded_frames`, `unclaimed_dataset_folders` and
/// `missing_frame_rows`, in that order, with their totals, and their notes.
pub open spec fn dataset_groups_listing(
    ctx: ScanContext,
    ds: Seq<DatasetScan>,
    u: UnclaimedFolders,
    gs: Seq<CleanupGroup>,
    ns: Seq<ProtectedNote>,
) -> bool {
    &&& gs.len() == 3
    &&& gs[0].key@ == "discarded_frames"@
    &&& gs[1].key@ == "unclaimed_dataset_folders"@
    &&& gs[2].key@ == "missing_frame_rows"@
    &&& forall|g: int| 0 <= g < 3 ==> (#[trigger] gs[g]).label@ == label_of(gs[g].key@) && gs[g].total_files
        == entry_files(gs[g].entries@) && gs[g].total_bytes == entry_bytes(gs[g].entries@)
    &&& exists|x: int, y: int, z: int| #[trigger] datasets_listing_at(ctx, ds, u, gs, ns, x, y, z)
}

/// Groups `discarded_frames`, `unclaimed_dataset_folders` and
/// `missing_frame_rows`, in that order; the notes name the busy datasets,
/// then the unclaimed folders refused and the links, then the rows on
/// absent drives.
pub fn dataset_groups(ctx: &ScanContext, ds: &[DatasetScan], u: &UnclaimedFolders) -> (r: (Vec<CleanupGroup>, Vec<ProtectedNote>))
    requires
        datasets_fit(ds@, *u),
    ensures
        dataset_groups_listing(*ctx, ds@, *u, r.0@, r.1@),
{
    let mut ns = busy_notes(ds);
    let (unclaimed, mut u_ns) = unclaimed_section(ctx, u);
    let (missing, mut m_ns) = missing_section(ds);
    let discarded = discarded_entries(ds);
    proof {
        lemma_discarded_totals(ds@, discarded@);
        lemma_unclaimed_totals(
            *ctx,
            u.folders@,
            unclaimed@,
            u_ns@.subrange(0, u_ns@.len() - u.links@.len()),
        );
        lemma_missing_totals(ds@, missing@, m_ns@);
    }
    let ghost (n0, n1, n2) = (ns@, u_ns@, m_ns@);
    ns.append(&mut u_ns);
    ns.append(&mut m_ns);
    let g0 = group("discarded_frames", discarded);
    let g1 = group("unclaimed_dataset_folders", unclaimed);
    let g2 = group("missing_frame_rows", missing);
    let ghost (h0, h1, h2) = (g0, g1, g2);
    let groups = vec![g0, g1, g2];
    proof {
        assert(groups@[0] == h0 && groups@[1] == h1 && groups@[2] == h2);
        let x = n0.len() as int;
        let y = x + n1.len() - u.links@.len();
        let z = x + n1.len();
        assert(ns@ == n0 + n1 + n2);
        assert(ns@.subrange(0, x) =~= n0);
        assert(ns@.subrange(x, y) =~= n1.subrange(0, n1.len() - u.links@.len()));
        assert(ns@.subrange(y, z) =~= n1.subrange(n1.len() - u.links@.len(), n1.len() as int));
        assert(ns@.subrange(z, ns@.len() as int) =~= n2);
        assert(datasets_listing_at(*ctx, ds@, *u, groups@, ns@, x, y, z));
    }
    let r = (groups, ns);
    assert(r.0@ == groups@ && r.1@ == ns@);
    assert(exists|x: int, y: int, z: int| #[trigger] datasets_listing_at(*ctx, ds@, *u, r.0@, r.1@, x, y, z));
    r
}

/// Housekeeping must leave `d` alone right now.
pub open spec fn is_busy(d: DatasetScan) -> bool {
    d.busy is Some
}

/// A busy dataset is never offered: every entry of the discarded frames
/// and of the missing rows names a dataset that is not busy.
pub proof fn law_busy_datasets_are_never_offered(
    ds: Seq<DatasetScan>,
    discarded: Seq<CleanupEntry>,
    missing: Seq<CleanupEntry>,
    ns: Seq<ProtectedNote>,
)
    requires
        discarded_listing(ds, discarded),
        missing_listing(ds, missing, ns),
    ensures
        forall|t: int| 0 <= t < discarded.len() ==> exists|k: int|
            #![trigger ds[k]]
            0 <= k < ds.len() && (#[trigger] discarded[t]).id@ == ds[k].id@ && !is_busy(ds[k]),
        forall|t: int| 0 <= t < missing.len() ==> exists|k: int|
            #![trigger ds[k]]
            0 <= k < ds.len() && (#[trigger] missing[t]).id@ == ds[k].id@ && !is_busy(ds[k]),
{
    lemma_discarded_not_busy(ds, discarded);
    lemma_missing_not_busy(ds, missing, ns);
}

proof fn lemma_discarded_not_busy(ds: Seq<DatasetScan>, es: Seq<CleanupEntry>)
    requires
        discarded_listing(ds, es),
    ensures
        forall|t: int| 0 <= t < es.len() ==> exists|k: int|
            #![trigger ds[k]]
            0 <= k < ds.len() && (#[trigger] es[t]).id@ == ds[k].id@ && !is_busy(ds[k]),
    decreases ds.len(),
{
    if ds.len() > 0 {
        let d = ds.last();
        let rest = ds.drop_last();
        let n = ds.len() - 1;
        let took = d.busy is None && (d.usage matches Some(u) && u.discarded_frames > 0);
        let es_rest = if took {
            es.drop_last()
        } else {
            es
        };
        lemma_discarded_not_busy(rest, es_rest);
        assert forall|t: int| 0 <= t < es.len() implies exists|k: int|
            #![trigger ds[k]]
            0 <= k < ds.len() && (#[trigger] es[t]).id@ == ds[k].id@ && !is_busy(ds[k]) by {
            if t < es_rest.len() {
                assert(es[t] == es_rest[t]);
                let k = choose|k: int| 0 <= k < rest.len() && es_rest[t].id@ == rest[k].id@ && !is_busy(rest[k]);
                assert(ds[k] == rest[k]);
            } else {
                assert(ds[n] == d);
                assert(es[t] == es.last());
                assert(es[t].id@ == ds[n].id@ && !is_busy(ds[n]));
            }
        }
    }
}

proof fn lemma_missing_not_busy(ds: Seq<DatasetScan>, es: Seq<CleanupEntry>, ns: Seq<ProtectedNote>)
    requires
        missing_listing(ds, es, ns),
    ensures
        forall|t: int| 0 <= t < es.len() ==> exists|k: int|
            #![trigger ds[k]]
            0 <= k < ds.len() && (#[trigger] es[t]).id@ == ds[k].id@ && !is_busy(ds[k]),
    decreases ds.len(),
{
    if ds.len() > 0 {
        let d = ds.last();
        let rest = ds.drop_last();
        let n = ds.len() - 1;
        if d.busy is Some {
            lemma_missing_not_busy(rest, es, ns);
            assert forall|t: int| 0 <= t < es.len() implies exists|k: int|
            #![trigger ds[k]]
                0 <= k < ds.len() && (#[trigger] es[t]).id@ == ds[k].id@ && !is_busy(ds[k]) by {
                let k = choose|k: int| 0 <= k < rest.len() && es[t].id@ == rest[k].id@ && !is_busy(rest[k]);
                assert(ds[k] == rest[k]);
            }
        } else {
            let fs = d.frames@;
            let m = count_missing(fs);
            let es_rest = if m > 0 {
                es.drop_last()
            } else {
                es
            };
            let roots = choose|roots: Seq<(Seq<char>, nat)>|
                #[trigger] drive_tally(fs, roots) && roots.len() <= ns.len() && drive_notes(
                    d.name@,
                    roots,
                    ns.subrange(ns.len() - roots.len(), ns.len() as int),
                ) && missing_listing(rest, es_rest, ns.subrange(0, ns.len() - roots.len()));
            lemma_missing_not_busy(rest, es_rest, ns.subrange(0, ns.len() - roots.len()));
            assert forall|t: int| 0 <= t < es.len() implies exists|k: int|
            #![trigger ds[k]]
                0 <= k < ds.len() && (#[trigger] es[t]).id@ == ds[k].id@ && !is_busy(ds[k]) by {
                if t < es_rest.len() {
                    assert(es[t] == es_rest[t]);
                    let k = choose|k: int| 0 <= k < rest.len() && es_rest[t].id@ == rest[k].id@ && !is_busy(rest[k]);
                    assert(ds[k] == rest[k]);
                } else {
                    assert(ds[n] == d);
                }
            }
        }
    }
}

} // verus!
