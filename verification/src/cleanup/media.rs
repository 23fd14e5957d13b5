//! Groups `media_retention` and `media_orphans`: the flat files directly in
//! the outputs folder (`<job_id>.<ext>`). A file with a job row is retention
//! material when the active retention rule marks it; a file without any
//! row is an orphan. A file a job that has not finished owns, and a file
//! that is a dataset frame or source (an in-place dataset), is neither.
//! File names compare case-folded, as Windows compares them.

use vstd::prelude::*;

use crate::cleanup::outputs::{
    arranged, doomed, files_to_delete, lemma_doomed_total_le, lemma_total_perm, oldest_first, retention_inputs_ok, total_bytes, OutputFile,
};
use crate::cleanup::scan::{
    entry_bytes, entry_files, group, label_of, note, same_or_inside, CleanupEntry,
    CleanupGroup, ProtectedNote, ScanContext,
};
use crate::order::{ints, is_perm, order_by_time_then_text, sorted_perm, time_text_before, wide};
use crate::text::{lowercase_text, str_eq, to_lowercase, views};
use crate::winpath::{components, path_components};

verus! {

/// A job's recorded output file, and whether the job has finished.
#[derive(Debug, Clone)]
pub struct JobOutput {
    pub output_path: Option<String>,
    pub finished: bool,
}

/// A dataset's name and source folder.
#[derive(Debug, Clone)]
pub struct DatasetSource {
    pub name: String,
    pub source_root: String,
}

/// The last component of a path, or empty when it has none (or ends in
/// `..`, or is only a root).
pub open spec fn file_name_of(p: Seq<char>) -> Seq<char> {
    let c = components(p);
    if c.len() == 0 || c.last() == ".."@ || c.last() == crate::winpath::root_mark() {
        Seq::empty()
    } else {
        c.last()
    }
}

/// The file name of a path.
pub fn file_name(p: &str) -> (r: String)
    ensures
        r@ == file_name_of(p@),
{
    let c = path_components(p);
    proof {
        reveal_strlit("..");
        reveal_strlit("\\");
        assert("\\"@ =~= crate::winpath::root_mark());
    }
    if c.len() == 0 || str_eq(c[c.len() - 1].as_str(), "..") || str_eq(c[c.len() - 1].as_str(), "\\") {
        return String::new();
    }
    c[c.len() - 1].clone()
}

/// A file name in the form names are compared in: case-folded.
pub open spec fn name_key(name: Seq<char>) -> Seq<char> {
    lowercase_text(name)
}

/// The comparison key of a job's output file, when it names one.
pub open spec fn job_key(j: JobOutput) -> Option<Seq<char>> {
    match j.output_path {
        Some(p) => if file_name_of(p@).len() > 0 {
            Some(name_key(file_name_of(p@)))
        } else {
            None
        },
        None => None,
    }
}

/// Among the first `n` jobs, whether one recorded a file of `key`, and if
/// so whether one of those has not finished.
pub open spec fn row_state(jobs: Seq<JobOutput>, key: Seq<char>, n: int) -> Option<bool>
    decreases n,
{
    if n <= 0 {
        None
    } else {
        let prev = row_state(jobs, key, n - 1);
        if job_key(jobs[n - 1]) == Some(key) {
            Some(
                match prev {
                    Some(a) => a,
                    None => false,
                } || !jobs[n - 1].finished,
            )
        } else {
            prev
        }
    }
}

/// A frame or source path whose folder is the outputs folder itself.
pub open spec fn in_outputs(path: Seq<char>, outputs: Seq<char>) -> bool {
    path.len() > 0 && components(path).len() > 0 && components(path).drop_last() == components(outputs)
}

/// The comparison key of one of a dataset's files sitting flat in the
/// outputs folder.
pub open spec fn is_frame_key(frames: Seq<Seq<char>>, outputs: Seq<char>, key: Seq<char>) -> bool {
    exists|j: int|
        0 <= j < frames.len() && in_outputs(#[trigger] frames[j], outputs) && name_key(file_name_of(frames[j])) == key
}

/// The comparison key of an output file.
pub open spec fn file_key(f: OutputFile) -> Seq<char> {
    name_key(file_name_of(f.path@))
}

/// Which of the groups a flat output file belongs to.
pub enum MediaKind {
    /// A dataset frame or source file: never offered.
    Dataset,
    /// Owned by a job that has not finished: never offered.
    Claimed,
    /// Has a finished job's row: retention material.
    WithRow,
    /// No job recorded it.
    Orphan,
}

pub open spec fn kind_of_file(f: OutputFile, frames: Seq<Seq<char>>, jobs: Seq<JobOutput>, outputs: Seq<char>) -> MediaKind {
    if is_frame_key(frames, outputs, file_key(f)) {
        MediaKind::Dataset
    } else {
        match row_state(jobs, file_key(f), jobs.len() as int) {
            Some(true) => MediaKind::Claimed,
            Some(false) => MediaKind::WithRow,
            None => MediaKind::Orphan,
        }
    }
}

/// The files of `kind`, in order.
pub open spec fn files_of_kind(
    files: Seq<OutputFile>,
    frames: Seq<Seq<char>>,
    jobs: Seq<JobOutput>,
    outputs: Seq<char>,
    kind: MediaKind,
) -> Seq<OutputFile>
    decreases files.len(),
{
    if files.len() == 0 {
        files
    } else {
        let rest = files_of_kind(files.drop_last(), frames, jobs, outputs, kind);
        if kind_of_file(files.last(), frames, jobs, outputs) == kind {
            rest.push(files.last())
        } else {
            rest
        }
    }
}

/// How the flat output files split.
#[derive(Debug)]
pub struct MediaSplit {
    pub with_rows: Vec<OutputFile>,
    pub orphans: Vec<OutputFile>,
    /// Files that are a dataset's frames or sources.
    pub dataset_files: u64,
}

/// Whether `keys` holds `key`.
fn holds_key(keys: &Vec<String>, key: &str) -> (r: Option<usize>)
    ensures
        match r {
            Some(k) => k < keys@.len() && keys@[k as int]@ == key@,
            None => !views(keys@).contains(key@),
        },
{
    let mut i: usize = 0;
    while i < keys.len()
        invariant
            i <= keys@.len(),
            forall|k: int| 0 <= k < i ==> keys@[k]@ != key@,
        decreases keys@.len() - i,
    {
        if str_eq(keys[i].as_str(), key) {
            return Some(i);
        }
        i = i + 1;
    }
    proof {
        if views(keys@).contains(key@) {
            let k = choose|k: int| 0 <= k < views(keys@).len() && views(keys@)[k] == key@;
            assert(keys@[k]@ == key@);
        }
    }
    None
}

/// The comparison keys of the files the jobs recorded, each once, with
/// whether one of its jobs has not finished.
fn job_rows(jobs: &[JobOutput]) -> (r: (Vec<String>, Vec<bool>))
    ensures
        r.0@.len() == r.1@.len(),
        forall|k: int| 0 <= k < r.0@.len() ==> row_state(jobs@, #[trigger] r.0@[k]@, jobs@.len() as int) == Some(r.1@[k]),
        forall|key: Seq<char>| row_state(jobs@, key, jobs@.len() as int) is Some ==> views(r.0@).contains(key),
{
    let mut keys: Vec<String> = Vec::new();
    let mut active: Vec<bool> = Vec::new();
    let mut i: usize = 0;
    while i < jobs.len()
        invariant
            i <= jobs@.len(),
            keys@.len() == active@.len(),
            forall|a: int, b: int| 0 <= a < b < keys@.len() ==> keys@[a]@ != keys@[b]@,
            forall|k: int| 0 <= k < keys@.len() ==> row_state(jobs@, #[trigger] keys@[k]@, i as int) == Some(active@[k]),
            forall|key: Seq<char>| row_state(jobs@, key, i as int) is Some ==> views(keys@).contains(key),
        decreases jobs@.len() - i,
    {
        let j = &jobs[i];
        let mut named: Option<String> = None;
        if let Some(p) = &j.output_path {
            let name = file_name(p.as_str());
            if name.unicode_len() > 0 {
                named = Some(to_lowercase(name.as_str()));
            }
        }
        assert(job_key(jobs@[i as int]) == match named {
            Some(k) => Some(k@),
            None => None::<Seq<char>>,
        });
        let ghost (old_keys, old_active) = (keys@, active@);
        match named {
            None => {
                assert forall|key: Seq<char>| row_state(jobs@, key, i + 1) == row_state(jobs@, key, i as int) by {}
            },
            Some(key) => {
                match holds_key(&keys, key.as_str()) {
                    Some(k) => {
                        let a = active[k] || !j.finished;
                        active[k] = a;
                        proof {
                            assert forall|t: int| 0 <= t < keys@.len() implies row_state(
                                jobs@,
                                #[trigger] keys@[t]@,
                                i + 1,
                            ) == Some(active@[t]) by {
                                if t != k {
                                    assert(keys@[t]@ != keys@[k as int]@);
                                    assert(active@[t] == old_active[t]);
                                }
                            }
                            assert forall|x: Seq<char>| row_state(jobs@, x, i + 1) is Some implies views(
                                keys@,
                            ).contains(x) by {
                                if x == key@ {
                                    assert(views(keys@)[k as int] == x);
                                }
                            }
                        }
                    },
                    None => {
                        let ghost kv = key@;
                        keys.push(key);
                        active.push(!j.finished);
                        proof {
                            assert(row_state(jobs@, kv, i as int) is None) by {
                                if row_state(jobs@, kv, i as int) is Some {
                                    assert(views(old_keys).contains(kv));
                                }
                            }
                            assert forall|t: int| 0 <= t < keys@.len() implies row_state(
                                jobs@,
                                #[trigger] keys@[t]@,
                                i + 1,
                            ) == Some(active@[t]) by {
                                if t < old_keys.len() {
                                    assert(keys@[t] == old_keys[t]);
                                    if keys@[t]@ == kv {
                                        assert(views(old_keys)[t] == kv);
                                        assert(views(old_keys).contains(kv));
                                    }
                                }
                            }
                            assert forall|a: int, b: int| 0 <= a < b < keys@.len() implies keys@[a]@
                                != keys@[b]@ by {
                                if b == old_keys.len() {
                                    assert(views(old_keys)[a] == keys@[a]@);
                                }
                            }
                            assert forall|x: Seq<char>| row_state(jobs@, x, i + 1) is Some implies views(
                                keys@,
                            ).contains(x) by {
                                if x == kv {
                                    assert(views(keys@)[old_keys.len() as int] == x);
                                } else {
                                    assert(views(old_keys).contains(x));
                                    let t = choose|t: int| 0 <= t < views(old_keys).len() && views(old_keys)[t] == x;
                                    assert(views(keys@)[t] == x);
                                }
                            }
                        }
                    },
                }
            },
        }
        i = i + 1;
    }
    (keys, active)
}


proof fn lemma_frame_key_intro(frames: Seq<Seq<char>>, outputs: Seq<char>, j: int)
    requires
        0 <= j < frames.len(),
        in_outputs(frames[j], outputs),
    ensures
        is_frame_key(frames, outputs, name_key(file_name_of(frames[j]))),
{
}

/// Whether `path` sits directly in the folder `outputs`.
fn sits_in(path: &str, outputs: &str) -> (r: bool)
    ensures
        r == in_outputs(path@, outputs@),
{
    if path.unicode_len() == 0 {
        return false;
    }
    let c = path_components(path);
    let o = path_components(outputs);
    if c.len() == 0 || c.len() - 1 != o.len() {
        proof {
            if c.len() > 0 {
                assert(views(c@).drop_last().len() != views(o@).len());
            }
        }
        return false;
    }
    let mut i: usize = 0;
    while i < o.len()
        invariant
            views(c@) == components(path@),
            views(o@) == components(outputs@),
            c@.len() == o@.len() + 1,
            i <= o@.len(),
            forall|k: int| 0 <= k < i ==> c@[k]@ == o@[k]@,
        decreases o@.len() - i,
    {
        if !str_eq(c[i].as_str(), o[i].as_str()) {
            assert(views(c@).drop_last()[i as int] != views(o@)[i as int]);
            return false;
        }
        i = i + 1;
    }
    assert(views(c@).drop_last() =~= views(o@));
    true
}

/// The comparison keys of the dataset files sitting flat in the outputs
/// folder.
fn frame_keys(frames: &[String], outputs: &str) -> (r: Vec<String>)
    ensures
        forall|x: Seq<char>| views(r@).contains(x) <==> is_frame_key(views(frames@), outputs@, x),
{
    let ghost fv = views(frames@);
    let mut out: Vec<String> = Vec::new();
    let mut i: usize = 0;
    while i < frames.len()
        invariant
            fv == views(frames@),
            i <= frames@.len(),
            forall|x: Seq<char>| views(out@).contains(x) <==> is_frame_key(fv.take(i as int), outputs@, x),
        decreases frames@.len() - i,
    {
        let f = &frames[i];
        assert(fv[i as int] == f@);
        let ghost prev = out@;
        if sits_in(f.as_str(), outputs) {
            let key = to_lowercase(file_name(f.as_str()).as_str());
            out.push(key);
            proof {
                assert(views(out@) =~= views(prev).push(name_key(file_name_of(f@))));
            }
        }
        proof {
            let t0 = fv.take(i as int);
            let t1 = fv.take(i + 1);
            assert forall|x: Seq<char>| views(out@).contains(x) <==> is_frame_key(t1, outputs@, x) by {
                if is_frame_key(t1, outputs@, x) {
                    let j = choose|j: int|
                        0 <= j < t1.len() && in_outputs(#[trigger] t1[j], outputs@) && name_key(
                            file_name_of(t1[j]),
                        ) == x;
                    if j < i {
                        assert(t0[j] == t1[j]);
                        lemma_frame_key_intro(t0, outputs@, j);
                        assert(is_frame_key(t0, outputs@, x));
                        assert(views(prev).contains(x));
                        let k = choose|k: int| 0 <= k < views(prev).len() && views(prev)[k] == x;
                        assert(views(out@)[k] == x);
                    } else {
                        assert(views(out@).last() == x);
                    }
                }
                if views(out@).contains(x) {
                    let k = choose|k: int| 0 <= k < views(out@).len() && views(out@)[k] == x;
                    if k < views(prev).len() {
                        assert(views(prev)[k] == x);
                        assert(views(prev).contains(x));
                        assert(is_frame_key(t0, outputs@, x));
                        let j = choose|j: int|
                            0 <= j < t0.len() && in_outputs(#[trigger] t0[j], outputs@) && name_key(
                                file_name_of(t0[j]),
                            ) == x;
                        assert(t1[j] == t0[j]);
                    } else {
                        assert(t1[i as int] == f@);
                    }
                }
            }
        }
        i = i + 1;
    }
    assert(fv.take(i as int) =~= fv);
    out
}

fn copy_output(f: &OutputFile) -> (r: OutputFile)
    ensures
        r == *f,
{
    OutputFile { path: f.path.clone(), bytes: f.bytes, modified_nanos: f.modified_nanos }
}

/// Split the flat files of the outputs folder: dataset files (counted),
/// files an unfinished job owns (left out), files with a finished job's
/// row, and files no job recorded.
pub fn classify_media(outputs: &str, frames: &[String], jobs: &[JobOutput], files: &[OutputFile]) -> (r: MediaSplit)
    ensures
        r.with_rows@ == files_of_kind(files@, views(frames@), jobs@, outputs@, MediaKind::WithRow),
        r.orphans@ == files_of_kind(files@, views(frames@), jobs@, outputs@, MediaKind::Orphan),
        r.dataset_files == files_of_kind(files@, views(frames@), jobs@, outputs@, MediaKind::Dataset).len(),
{
    let ghost (fv, jv, ov) = (views(frames@), jobs@, outputs@);
    let (keys, active) = job_rows(jobs);
    let names = frame_keys(frames, outputs);
    let mut with_rows: Vec<OutputFile> = Vec::new();
    let mut orphans: Vec<OutputFile> = Vec::new();
    let mut dataset_files: u64 = 0;
    let mut i: usize = 0;
    assert(files@.take(0) =~= Seq::<OutputFile>::empty());
    while i < files.len()
        invariant
            fv == views(frames@),
            jv == jobs@,
            ov == outputs@,
            keys@.len() == active@.len(),
            forall|k: int| 0 <= k < keys@.len() ==> row_state(jv, #[trigger] keys@[k]@, jv.len() as int) == Some(active@[k]),
            forall|key: Seq<char>| row_state(jv, key, jv.len() as int) is Some ==> views(keys@).contains(key),
            forall|x: Seq<char>| views(names@).contains(x) <==> is_frame_key(fv, ov, x),
            i <= files@.len(),
            with_rows@ == files_of_kind(files@.take(i as int), fv, jv, ov, MediaKind::WithRow),
            orphans@ == files_of_kind(files@.take(i as int), fv, jv, ov, MediaKind::Orphan),
            dataset_files == files_of_kind(files@.take(i as int), fv, jv, ov, MediaKind::Dataset).len(),
            dataset_files <= i,
        decreases files@.len() - i,
    {
        let f = &files[i];
        let key = to_lowercase(file_name(f.path.as_str()).as_str());
        assert(key@ == file_key(*f));
        let ghost t = files@.take(i + 1);
        assert(t.drop_last() =~= files@.take(i as int));
        assert(t.last() == *f);
        proof {
            lemma_kind_count_le(files@.take(i as int), fv, jv, ov);
        }
        let in_names = holds_key(&names, key.as_str());
        if in_names.is_some() {
            proof {
                let k = in_names->0;
                assert(views(names@)[k as int] == key@);
            }
            assert(kind_of_file(*f, fv, jv, ov) == MediaKind::Dataset);
            dataset_files = dataset_files + 1;
        } else {
            match holds_key(&keys, key.as_str()) {
                Some(k) => {
                    assert(row_state(jv, key@, jv.len() as int) == Some(active@[k as int]));
                    if !active[k] {
                        assert(kind_of_file(*f, fv, jv, ov) == MediaKind::WithRow);
                        with_rows.push(copy_output(f));
                    } else {
                        assert(kind_of_file(*f, fv, jv, ov) == MediaKind::Claimed);
                    }
                },
                None => {
                    assert(row_state(jv, key@, jv.len() as int) is None);
                    assert(kind_of_file(*f, fv, jv, ov) == MediaKind::Orphan);
                    orphans.push(copy_output(f));
                },
            }
        }
        i = i + 1;
    }
    assert(files@.take(i as int) =~= files@);
    MediaSplit { with_rows, orphans, dataset_files }
}

proof fn lemma_kind_count_le(files: Seq<OutputFile>, frames: Seq<Seq<char>>, jobs: Seq<JobOutput>, outputs: Seq<char>)
    ensures
        files_of_kind(files, frames, jobs, outputs, MediaKind::Dataset).len() <= files.len(),
    decreases files.len(),
{
    if files.len() > 0 {
        lemma_kind_count_le(files.drop_last(), frames, jobs, outputs);
    }
}


/// What `format_ymd` renders an instant's date as: `YYYY-MM-DD`.
pub uninterp spec fn ymd_text(nanos: int) -> Seq<char>;

/// `OffsetDateTime::from_unix_timestamp_nanos`, then `format` with
/// `[year]-[month]-[day]`. Claims that a date comes back exactly for the
/// instants the calendar can represent, and names it, a function of the
/// instant alone.
#[verifier::external_body]
pub(crate) fn format_ymd(nanos: i128) -> (r: Option<String>)
    ensures
        r is Some <==> crate::cleanup::outputs::EARLIEST_NANOS <= nanos
            <= crate::cleanup::storage::LATEST_NANOS,
        r matches Some(s) ==> s@ == ymd_text(nanos as int),
{
    let items = time::format_description::parse_borrowed::<1>("[year]-[month]-[day]").ok()?;
    match time::OffsetDateTime::from_unix_timestamp_nanos(nanos) {
        Ok(t) => t.format(&items).ok(),
        Err(_) => None,
    }
}

/// The date of an instant, or `?` when it has none.
pub open spec fn date_or_unknown(nanos: int) -> Seq<char> {
    if crate::cleanup::outputs::EARLIEST_NANOS <= nanos <= crate::cleanup::storage::LATEST_NANOS {
        ymd_text(nanos)
    } else {
        "?"@
    }
}

/// The entry offering one output file.
pub open spec fn entry_of(f: OutputFile, e: CleanupEntry) -> bool {
    &&& e.id@ == file_name_of(f.path@)
    &&& e.label@ == file_name_of(f.path@)
    &&& e.files == 1
    &&& e.bytes == f.bytes
    &&& e.rows == 0
    &&& views(e.detail@) == seq!["last modified "@ + date_or_unknown(f.modified_nanos as int)]
}

/// Oldest first; equal times by path.
pub open spec fn oldest_then_path(files: Seq<OutputFile>) -> spec_fn(int, int) -> bool {
    |a: int, b: int|
        time_text_before(
            files.map_values(|f: OutputFile| f.modified_nanos as int),
            files.map_values(|f: OutputFile| f.path@),
            a,
            b,
        )
}

/// `es` offers `files` one entry each, oldest first, equal times by path.
pub open spec fn listed(files: Seq<OutputFile>, es: Seq<CleanupEntry>) -> bool {
    exists|p: Seq<int>|
        #[trigger] sorted_perm(p, files.len() as int, oldest_then_path(files)) && es.len() == files.len()
            && forall|t: int| 0 <= t < es.len() ==> entry_of(files[p[t]], #[trigger] es[t])
}

proof fn lemma_entry_sums(files: Seq<OutputFile>, p: Seq<int>, es: Seq<CleanupEntry>, n: int)
    requires
        is_perm(p, files.len() as int),
        es.len() == files.len(),
        forall|t: int| 0 <= t < es.len() ==> entry_of(files[p[t]], #[trigger] es[t]),
        0 <= n <= es.len(),
    ensures
        entry_bytes(es.take(n)) == total_bytes(arranged(files, p).take(n)),
        entry_files(es.take(n)) == n,
    decreases n,
{
    if n > 0 {
        lemma_entry_sums(files, p, es, n - 1);
        assert(es.take(n).drop_last() =~= es.take(n - 1));
        assert(arranged(files, p).take(n).drop_last() =~= arranged(files, p).take(n - 1));
        assert(entry_of(files[p[n - 1]], es[n - 1]));
    } else {
        assert(es.take(0) =~= Seq::<CleanupEntry>::empty());
        assert(arranged(files, p).take(0) =~= Seq::<OutputFile>::empty());
    }
}

/// One entry per file, by name, oldest first — what the user picks from.
pub fn media_entries(files: &Vec<OutputFile>) -> (r: Vec<CleanupEntry>)
    ensures
        listed(files@, r@),
        entry_bytes(r@) == total_bytes(files@),
        entry_files(r@) == files@.len(),
{
    let n = files.len();
    let mut times: Vec<i128> = Vec::new();
    let mut paths: Vec<String> = Vec::new();
    let mut i: usize = 0;
    while i < n
        invariant
            n == files@.len(),
            i <= n,
            times@.len() == i,
            paths@.len() == i,
            forall|k: int| 0 <= k < i ==> #[trigger] times@[k] == files@[k].modified_nanos,
            forall|k: int| 0 <= k < i ==> (#[trigger] paths@[k])@ == files@[k].path@,
        decreases n - i,
    {
        times.push(files[i].modified_nanos);
        paths.push(files[i].path.clone());
        i = i + 1;
    }
    let order = order_by_time_then_text(&times, &paths);
    let ghost p = ints(order@);
    proof {
        assert(wide(times@) =~= files@.map_values(|f: OutputFile| f.modified_nanos as int));
        assert(paths@.map_values(|s: String| s@) =~= files@.map_values(|f: OutputFile| f.path@));
        assert(oldest_then_path(files@) == (|a: int, b: int|
            time_text_before(wide(times@), paths@.map_values(|s: String| s@), a, b)));
    }
    let mut out: Vec<CleanupEntry> = Vec::new();
    let mut t: usize = 0;
    while t < n
        invariant
            n == files@.len(),
            order@.len() == n,
            p == ints(order@),
            sorted_perm(p, n as int, oldest_then_path(files@)),
            t <= n,
            out@.len() == t,
            forall|u: int| 0 <= u < t ==> entry_of(files@[p[u]], #[trigger] out@[u]),
        decreases n - t,
    {
        let k = order[t];
        proof {
            assert(p[t as int] == k as int);
        }
        let f = &files[k];
        let name = file_name(f.path.as_str());
        let mut line = String::from_str("last modified ");
        match format_ymd(f.modified_nanos) {
            Some(d) => line.append(d.as_str()),
            None => line.append("?"),
        }
        let e = CleanupEntry {
            id: name.clone(),
            label: name,
            files: 1,
            bytes: f.bytes,
            rows: 0,
            detail: vec![line],
        };
        proof {
            assert(views(e.detail@) =~= seq!["last modified "@ + date_or_unknown(f.modified_nanos as int)]);
        }
        out.push(e);
        t = t + 1;
    }
    proof {
        lemma_entry_sums(files@, p, out@, n as int);
        assert(out@.take(n as int) =~= out@);
        assert(arranged(files@, p).take(n as int) =~= arranged(files@, p));
        lemma_total_perm(files@, p);
        assert(listed(files@, out@));
    }
    out
}


/// The name of the first dataset whose (non-empty) source folder holds the
/// outputs folder. Every dataset with a source folder is asked, not only
/// the first one that has a source folder: any of them may be where the
/// user keeps the media the outputs folder holds.
pub open spec fn first_source_holding(ds: Seq<DatasetSource>, outputs: Seq<char>) -> Option<Seq<char>>
    decreases ds.len(),
{
    if ds.len() == 0 {
        None
    } else {
        match first_source_holding(ds.drop_last(), outputs) {
            Some(n) => Some(n),
            None => if ds.last().source_root@.len() > 0 && same_or_inside(outputs, ds.last().source_root@) {
                Some(ds.last().name@)
            } else {
                None
            },
        }
    }
}

/// Why nothing flat in the outputs folder is offered, if so: it lies in
/// the model store or the runtime installs, or in a dataset's source
/// folder (which holds the user's own media).
pub open spec fn outputs_refusal(ctx: ScanContext, ds: Seq<DatasetSource>) -> Option<Seq<char>> {
    match ctx.store_or_runtimes_reason(ctx.paths.outputs@) {
        Some(why) => Some(why),
        None => match first_source_holding(ds, ctx.paths.outputs@) {
            Some(name) => Some("lies inside the source folder of dataset \""@ + name + "\""@),
            None => None,
        },
    }
}

proof fn lemma_first_source_settles(ds: Seq<DatasetSource>, outputs: Seq<char>, i: int)
    requires
        0 <= i <= ds.len(),
        first_source_holding(ds.take(i), outputs) is Some,
    ensures
        first_source_holding(ds, outputs) == first_source_holding(ds.take(i), outputs),
    decreases ds.len() - i,
{
    if i < ds.len() {
        assert(ds.take(i + 1).drop_last() =~= ds.take(i));
        lemma_first_source_settles(ds, outputs, i + 1);
    } else {
        assert(ds.take(i) =~= ds);
    }
}

fn refusal_of(ctx: &ScanContext, datasets: &[DatasetSource]) -> (r: Option<String>)
    ensures
        match r {
            Some(w) => outputs_refusal(*ctx, datasets@) == Some(w@),
            None => outputs_refusal(*ctx, datasets@) is None,
        },
{
    let outputs = ctx.paths.outputs.as_str();
    if let Some(why) = ctx.inside_store_or_runtimes(outputs) {
        return Some(why);
    }
    let mut i: usize = 0;
    assert(datasets@.take(0) =~= Seq::<DatasetSource>::empty());
    while i < datasets.len()
        invariant
            i <= datasets@.len(),
            outputs@ == ctx.paths.outputs@,
            ctx.store_or_runtimes_reason(ctx.paths.outputs@) is None,
            first_source_holding(datasets@.take(i as int), outputs@) is None,
        decreases datasets@.len() - i,
    {
        let d = &datasets[i];
        assert(datasets@.take(i + 1).drop_last() =~= datasets@.take(i as int));
        assert(datasets@.take(i + 1).last() == *d);
        if d.source_root.unicode_len() > 0 && crate::cleanup::scan::is_same_or_inside(outputs, d.source_root.as_str()) {
            let mut m = String::from_str("lies inside the source folder of dataset \"");
            m.append(d.name.as_str());
            m.append("\"");
            proof {
                lemma_first_source_settles(datasets@, outputs@, i + 1);
            }
            return Some(m);
        }
        i = i + 1;
    }
    assert(datasets@.take(i as int) =~= datasets@);
    None
}

/// `retained` is what the retention rule takes from `with_rows`: nothing
/// when it is off.
pub open spec fn retention_choice(with_rows: Seq<OutputFile>, policy: crate::cleanup::outputs::RetentionPolicy, now: int, retained: Seq<OutputFile>) -> bool {
    if policy.active() {
        exists|p: Seq<int>|
            #[trigger] sorted_perm(p, with_rows.len() as int, oldest_first(with_rows)) && retained == doomed(
                arranged(with_rows, p),
                policy,
                now,
            )
    } else {
        retained.len() == 0
    }
}

/// `g` is the group `key` listing `files`.
pub open spec fn group_listing(g: CleanupGroup, key: Seq<char>, files: Seq<OutputFile>) -> bool {
    &&& g.key@ == key
    &&& g.label@ == label_of(key)
    &&& listed(files, g.entries@)
    &&& g.total_files == files.len()
    &&& g.total_bytes == total_bytes(files)
}

/// The note on dataset files sitting among the renders.
pub open spec fn dataset_files_note(n: nat, outputs: Seq<char>) -> (Seq<char>, Seq<char>) {
    (crate::text::decimal(n) + " media file(s) in "@ + outputs, "they are dataset frames or source files"@)
}

proof fn lemma_kind_total_le(files: Seq<OutputFile>, frames: Seq<Seq<char>>, jobs: Seq<JobOutput>, outputs: Seq<char>, kind: MediaKind)
    ensures
        0 <= total_bytes(files_of_kind(files, frames, jobs, outputs, kind)) <= total_bytes(files),
        files_of_kind(files, frames, jobs, outputs, kind).len() <= files.len(),
    decreases files.len(),
{
    if files.len() > 0 {
        lemma_kind_total_le(files.drop_last(), frames, jobs, outputs, kind);
        let rest = files_of_kind(files.drop_last(), frames, jobs, outputs, kind);
        assert(rest.push(files.last()).drop_last() =~= rest);
    }
}

/// The `media_retention` and `media_orphans` groups and their notes, for
/// these inputs.
pub open spec fn media_listing(
    ctx: ScanContext,
    datasets: Seq<DatasetSource>,
    frames: Seq<String>,
    jobs: Seq<JobOutput>,
    files: Seq<OutputFile>,
    now_nanos: i128,
    gs: Seq<CleanupGroup>,
    ns: Seq<ProtectedNote>,
) -> bool {
    &&& gs.len() == 2
    &&& match outputs_refusal(ctx, datasets) {
        Some(why) => {
            &&& group_listing(gs[0], "media_retention"@, Seq::empty())
            &&& group_listing(gs[1], "media_orphans"@, Seq::empty())
            &&& ns.len() == 1
            &&& ns[0].what@ == "Generated media (outputs) "@ + ctx.paths.outputs@
            &&& ns[0].reason@ == why
        },
        None => {
            let outputs = ctx.paths.outputs@;
            let fv = views(frames);
            let with_rows = files_of_kind(files, fv, jobs, outputs, MediaKind::WithRow);
            let n = files_of_kind(files, fv, jobs, outputs, MediaKind::Dataset).len();
            &&& exists|retained: Seq<OutputFile>|
                #[trigger] retention_choice(with_rows, ctx.policy, now_nanos as int, retained)
                    && group_listing(gs[0], "media_retention"@, retained)
            &&& group_listing(gs[1], "media_orphans"@, files_of_kind(files, fv, jobs, outputs, MediaKind::Orphan))
            &&& n > 0 ==> ns.len() == 1 && (ns[0].what@, ns[0].reason@) == dataset_files_note(n, outputs)
            &&& n == 0 ==> ns.len() == 0
        },
    }
}

/// The `media_retention` and `media_orphans` groups, and what they leave
/// out: `files` are the flat files of the outputs folder, `frames` every
/// dataset frame and source path, `jobs` every job's recorded output,
/// `datasets` every dataset's source folder.
pub fn media_groups(
    ctx: &ScanContext,
    datasets: &[DatasetSource],
    frames: &[String],
    jobs: &[JobOutput],
    files: &[OutputFile],
    now_nanos: i128,
) -> (r: (Vec<CleanupGroup>, Vec<ProtectedNote>))
    requires
        total_bytes(files@) <= u64::MAX,
        ctx.policy.active() ==> retention_inputs_ok(
            files_of_kind(files@, views(frames@), jobs@, ctx.paths.outputs@, MediaKind::WithRow),
            ctx.policy,
            now_nanos as int,
        ),
    ensures
        media_listing(*ctx, datasets@, frames@, jobs@, files@, now_nanos, r.0@, r.1@),
{
    let outputs = ctx.paths.outputs.as_str();
    if let Some(why) = refusal_of(ctx, datasets) {
        let mut what = String::from_str("Generated media (outputs) ");
        what.append(outputs);
        let empty: Vec<OutputFile> = Vec::new();
        let e1 = media_entries(&empty);
        let e2 = media_entries(&empty);
        let groups = vec![group("media_retention", e1), group("media_orphans", e2)];
        return (groups, vec![note(what, why)]);
    }
    let split = classify_media(outputs, frames, jobs, files);
    let ghost fv = views(frames@);
    proof {
        lemma_kind_total_le(files@, fv, jobs@, outputs@, MediaKind::WithRow);
        lemma_kind_total_le(files@, fv, jobs@, outputs@, MediaKind::Orphan);
    }
    let mut notes: Vec<ProtectedNote> = Vec::new();
    if split.dataset_files > 0 {
        let mut what = crate::text::decimal_string(split.dataset_files);
        what.append(" media file(s) in ");
        what.append(outputs);
        notes.push(note(what, String::from_str("they are dataset frames or source files")));
    }
    let ghost with_rows = split.with_rows@;
    let retained = if ctx.policy.is_active() {
        let mut copy: Vec<OutputFile> = Vec::new();
        let mut i: usize = 0;
        while i < split.with_rows.len()
            invariant
                i <= split.with_rows@.len(),
                copy@ == split.with_rows@.take(i as int),
            decreases split.with_rows@.len() - i,
        {
            copy.push(copy_output(&split.with_rows[i]));
            assert(split.with_rows@.take(i + 1) =~= split.with_rows@.take(i as int).push(split.with_rows@[i as int]));
            i = i + 1;
        }
        assert(split.with_rows@.take(i as int) =~= split.with_rows@);
        let doomed_files = files_to_delete(copy, ctx.policy, now_nanos);
        proof {
            let p = choose|p: Seq<int>|
                sorted_perm(p, with_rows.len() as int, oldest_first(with_rows)) && doomed_files@ == doomed(
                    arranged(with_rows, p),
                    ctx.policy,
                    now_nanos as int,
                );
            lemma_doomed_total_le(arranged(with_rows, p), ctx.policy, now_nanos as int);
            lemma_total_perm(with_rows, p);
            assert(retention_choice(with_rows, ctx.policy, now_nanos as int, doomed_files@));
        }
        doomed_files
    } else {
        let none: Vec<OutputFile> = Vec::new();
        assert(retention_choice(with_rows, ctx.policy, now_nanos as int, none@));
        none
    };
    assert(total_bytes(retained@) <= u64::MAX);
    let e1 = media_entries(&retained);
    let e2 = media_entries(&split.orphans);
    let n1 = e1.len();
    let n2 = e2.len();
    assert(entry_files(e1@) == n1 && entry_files(e2@) == n2);
    let g1 = group("media_retention", e1);
    let g2 = group("media_orphans", e2);
    proof {
        assert(group_listing(g1, "media_retention"@, retained@));
    }
    (vec![g1, g2], notes)
}

} // verus!
