//! The whole cleanup scan: every group in display order — present even when
//! empty — and everything that was not offered, with why.

use vstd::prelude::*;

use crate::cleanup::caches_scan::{caches_fit, caches_groups, caches_groups_listing, CachesInput};
use crate::cleanup::datasets::{
    dataset_groups, dataset_groups_listing, datasets_fit, DatasetScan, UnclaimedFolders,
};
use crate::cleanup::media::{media_groups, media_listing, DatasetSource, JobOutput, MediaKind, files_of_kind};
use crate::cleanup::outputs::{retention_inputs_ok, total_bytes, OutputFile};
use crate::cleanup::runs::{runs_fit, runs_group, runs_group_listing, RunScan};
use crate::cleanup::scan::{fixed_notes, fixed_protected, group_keys, label_of, CleanupGroup, CleanupReport, ProtectedNote, ScanContext};
use crate::cleanup::storage::{format_rfc3339, rfc3339_text, LATEST_NANOS, YEAR_ZERO_NANOS};
use crate::text::views;

verus! {

/// What the media groups read: every dataset's source folder, every frame
/// and source path, every job's recorded output, the outputs folder's
/// flat files.
#[derive(Debug, Clone)]
pub struct MediaInput {
    pub datasets: Vec<DatasetSource>,
    pub frames: Vec<String>,
    pub jobs: Vec<JobOutput>,
    pub files: Vec<OutputFile>,
}

/// Everything the scan reads; the time of the scan is `caches.now_nanos`.
#[derive(Debug, Clone)]
pub struct ScanInput {
    pub media: MediaInput,
    pub datasets: Vec<DatasetScan>,
    pub unclaimed: UnclaimedFolders,
    pub runs: Vec<RunScan>,
    pub caches: CachesInput,
}

/// The inputs every group can count and date.
pub open spec fn scan_fit(ctx: ScanContext, i: ScanInput) -> bool {
    &&& total_bytes(i.media.files@) <= u64::MAX
    &&& ctx.policy.active() ==> retention_inputs_ok(
        files_of_kind(i.media.files@, views(i.media.frames@), i.media.jobs@, ctx.paths.outputs@, MediaKind::WithRow),
        ctx.policy,
        i.caches.now_nanos as int,
    )
    &&& datasets_fit(i.datasets@, i.unclaimed)
    &&& runs_fit(i.runs@)
    &&& caches_fit(i.caches)
}

/// When the scan ran, as RFC 3339 — empty for an instant the calendar
/// cannot write.
pub open spec fn scanned_at_text(now: int) -> Seq<char> {
    if YEAR_ZERO_NANOS <= now <= LATEST_NANOS {
        rfc3339_text(now)
    } else {
        Seq::empty()
    }
}

/// The report's groups and notes, cut into the media, dataset, run and
/// cache parts (the notes after the three fixed ones).
pub open spec fn report_listing_at(
    ctx: ScanContext,
    i: ScanInput,
    gs: Seq<CleanupGroup>,
    ns: Seq<ProtectedNote>,
    a: int,
    b: int,
    c: int,
) -> bool {
    &&& gs.len() == 9
    &&& 3 <= a <= b <= c <= ns.len()
    &&& media_listing(
        ctx,
        i.media.datasets@,
        i.media.frames@,
        i.media.jobs@,
        i.media.files@,
        i.caches.now_nanos,
        gs.subrange(0, 2),
        ns.subrange(3, a),
    )
    &&& dataset_groups_listing(ctx, i.datasets@, i.unclaimed, gs.subrange(2, 5), ns.subrange(a, b))
    &&& runs_group_listing(ctx, i.runs@, gs[5], ns.subrange(b, c))
    &&& caches_groups_listing(ctx, i.caches, gs.subrange(6, 9), ns.subrange(c, ns.len() as int))
}

/// The whole scan: the media groups, the dataset groups, the finished runs
/// and the caches, in that order; the protected notes start with what is
/// never offered, then each part's in the same order.
pub fn build(ctx: &ScanContext, i: &ScanInput) -> (r: CleanupReport)
    requires
        scan_fit(*ctx, *i),
    ensures
        r.scanned_at@ == scanned_at_text(i.caches.now_nanos as int),
        r.protected@.len() >= 3,
        fixed_notes(*ctx, r.protected@.subrange(0, 3)),
        exists|a: int, b: int, c: int| #[trigger] report_listing_at(*ctx, *i, r.groups@, r.protected@, a, b, c),
{
    let now = i.caches.now_nanos;
    let mut protected = fixed_protected(ctx);
    let ghost fixed = protected@;
    let (mut groups, mut media_ns) = media_groups(
        ctx,
        i.media.datasets.as_slice(),
        i.media.frames.as_slice(),
        i.media.jobs.as_slice(),
        i.media.files.as_slice(),
        now,
    );
    let (mut dataset_gs, mut dataset_ns) = dataset_groups(ctx, i.datasets.as_slice(), &i.unclaimed);
    let (run_g, mut run_ns) = runs_group(ctx, i.runs.as_slice());
    let (mut cache_gs, mut cache_ns) = caches_groups(ctx, &i.caches);
    let ghost (g0, g1, g3) = (groups@, dataset_gs@, cache_gs@);
    let ghost (n1, n2, n3, n4) = (media_ns@, dataset_ns@, run_ns@, cache_ns@);
    let ghost g2 = run_g;
    protected.append(&mut media_ns);
    protected.append(&mut dataset_ns);
    protected.append(&mut run_ns);
    protected.append(&mut cache_ns);
    groups.append(&mut dataset_gs);
    groups.push(run_g);
    groups.append(&mut cache_gs);
    let scanned_at = match format_rfc3339(now) {
        Some(s) => s,
        None => String::new(),
    };
    proof {
        let a: int = 3 + n1.len() as int;
        let b: int = a + n2.len();
        let c: int = b + n3.len();
        assert(protected@ == fixed + n1 + n2 + n3 + n4);
        assert(groups@ == (g0 + g1).push(g2) + g3);
        assert(groups@.subrange(0, 2) =~= g0);
        assert(groups@.subrange(2, 5) =~= g1);
        assert(groups@[5] == g2);
        assert(groups@.subrange(6, 9) =~= g3);
        assert(protected@.subrange(0, 3) =~= fixed);
        assert(protected@.subrange(3, a) =~= n1);
        assert(protected@.subrange(a, b) =~= n2);
        assert(protected@.subrange(b, c) =~= n3);
        assert(protected@.subrange(c, protected@.len() as int) =~= n4);
        assert(report_listing_at(*ctx, *i, groups@, protected@, a, b, c));
    }
    let r = CleanupReport { scanned_at, groups, protected };
    assert(r.groups@ == groups@ && r.protected@ == protected@);
    assert(exists|a: int, b: int, c: int| #[trigger] report_listing_at(*ctx, *i, r.groups@, r.protected@, a, b, c));
    r
}

/// Every group is in the report, in display order, each under its own
/// label, whatever the disk holds.
pub proof fn law_every_group_in_display_order(
    ctx: ScanContext,
    i: ScanInput,
    gs: Seq<CleanupGroup>,
    ns: Seq<ProtectedNote>,
    a: int,
    b: int,
    c: int,
)
    requires
        report_listing_at(ctx, i, gs, ns, a, b, c),
    ensures
        gs.len() == group_keys().len(),
        forall|g: int| 0 <= g < gs.len() ==> (#[trigger] gs[g]).key@ == group_keys()[g] && gs[g].label@ == label_of(
            gs[g].key@,
        ),
{
    let m = gs.subrange(0, 2);
    let d = gs.subrange(2, 5);
    let k = gs.subrange(6, 9);
    assert(m[0] == gs[0] && m[1] == gs[1]);
    assert(d[0] == gs[2] && d[1] == gs[3] && d[2] == gs[4]);
    assert(k[0] == gs[6] && k[1] == gs[7] && k[2] == gs[8]);
    assert(d[0].label@ == label_of(d[0].key@));
    assert(d[1].label@ == label_of(d[1].key@));
    assert(d[2].label@ == label_of(d[2].key@));
    assert(k[0].label@ == label_of(k[0].key@));
    assert(k[1].label@ == label_of(k[1].key@));
    assert(k[2].label@ == label_of(k[2].key@));
}

} // verus!
