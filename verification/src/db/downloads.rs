//! A new download row's columns, shaped from what the caller supplied; its
//! roles are stored as one comma-separated column:
//! `["chat", "coding"]` ↔ `"chat,coding"`.

use vstd::prelude::*;

use crate::db::records::NewDownload;
use crate::error::CoreError;
use crate::states::DownloadState;
use crate::winpath::{is_drive, is_sep};
use crate::text::{lowercase_text, pieces, push_char, to_lowercase, trim, trim_str, views};

verus! {

/// The roles joined with commas.
pub open spec fn joined(roles: Seq<Seq<char>>) -> Seq<char>
    decreases roles.len(),
{
    if roles.len() == 0 {
        Seq::empty()
    } else if roles.len() == 1 {
        roles[0]
    } else {
        joined(roles.drop_last()) + seq![','] + roles.last()
    }
}

/// The trimmed pieces that are not blank, in order.
pub open spec fn nonblank(ps: Seq<Seq<char>>) -> Seq<Seq<char>>
    decreases ps.len(),
{
    if ps.len() == 0 {
        Seq::empty()
    } else if trim(ps.last()).len() > 0 {
        nonblank(ps.drop_last()).push(trim(ps.last()))
    } else {
        nonblank(ps.drop_last())
    }
}

/// The roles a stored column holds.
pub open spec fn role_list(column: Seq<char>) -> Seq<Seq<char>> {
    nonblank(pieces(column, ','))
}

/// The roles as one column.
pub fn join_roles(roles: &[String]) -> (r: String)
    ensures
        r@ == joined(views(roles@)),
{
    let ghost v = views(roles@);
    let mut out = String::new();
    let mut i: usize = 0;
    assert(v.take(0) =~= Seq::<Seq<char>>::empty());
    while i < roles.len()
        invariant
            v == views(roles@),
            i <= roles@.len(),
            out@ == joined(v.take(i as int)),
        decreases roles@.len() - i,
    {
        let ghost t = v.take(i + 1);
        assert(t.drop_last() =~= v.take(i as int));
        assert(t.last() == roles@[i as int]@);
        if i > 0 {
            push_char(&mut out, ',');
        } else {
            assert(t.len() == 1);
        }
        out.append(roles[i].as_str());
        i = i + 1;
    }
    assert(v.take(i as int) =~= v);
    out
}

/// The roles a stored column holds: split at commas, trimmed, blanks
/// dropped.
pub fn split_roles(joined_roles: &str) -> (r: Vec<String>)
    ensures
        views(r@) == role_list(joined_roles@),
{
    let s = joined_roles;
    let n = s.unicode_len();
    let mut out: Vec<String> = Vec::new();
    let mut start: usize = 0;
    let mut i: usize = 0;
    assert(s@.take(0) =~= Seq::<char>::empty());
    assert(s@.subrange(0, 0) =~= Seq::<char>::empty());
    while i < n
        invariant
            n == s@.len(),
            start <= i <= n,
            pieces(s@.take(i as int), ',').len() >= 1,
            pieces(s@.take(i as int), ',').last() == s@.subrange(start as int, i as int),
            views(out@) == nonblank(pieces(s@.take(i as int), ',').drop_last()),
        decreases n - i,
    {
        let c = s.get_char(i);
        let ghost (pre, post) = (s@.take(i as int), s@.take(i + 1));
        assert(post.drop_last() =~= pre);
        assert(post.last() == c);
        let ghost pp = pieces(pre, ',');
        if c == ',' {
            let t = trim_str(s.substring_char(start, i));
            if t.unicode_len() > 0 {
                let ghost prev = out@;
                out.push(String::from_str(t));
                assert(views(out@) =~= views(prev).push(t@));
            }
            proof {
                assert(pieces(post, ',') == pp.push(Seq::empty()));
                assert(pieces(post, ',').drop_last() =~= pp);
                assert(pp =~= pp.drop_last().push(pp.last()));
            }
            start = i + 1;
            assert(s@.subrange(start as int, i + 1) =~= Seq::<char>::empty());
        } else {
            proof {
                let q = pieces(post, ',');
                assert(q == pp.update(pp.len() - 1, pp.last().push(c)));
                assert(q.drop_last() =~= pp.drop_last());
                assert(s@.subrange(start as int, i + 1) =~= s@.subrange(start as int, i as int).push(c));
            }
        }
        i = i + 1;
    }
    assert(s@.take(n as int) =~= s@);
    let t = trim_str(s.substring_char(start, n));
    if t.unicode_len() > 0 {
        let ghost prev = out@;
        out.push(String::from_str(t));
        assert(views(out@) =~= views(prev).push(t@));
    }
    proof {
        let pp = pieces(s@, ',');
        assert(pp =~= pp.drop_last().push(pp.last()));
    }
    out
}

proof fn lemma_pieces_plain(a: Seq<char>, b: Seq<char>)
    requires
        forall|i: int| 0 <= i < b.len() ==> b[i] != ',',
        pieces(a, ',').len() >= 1,
    ensures
        pieces(a + b, ',') == pieces(a, ',').update(
            pieces(a, ',').len() - 1,
            pieces(a, ',').last() + b,
        ),
    decreases b.len(),
{
    let p = pieces(a, ',');
    if b.len() == 0 {
        assert(a + b =~= a);
        assert(p.last() + b =~= p.last());
        assert(p.update(p.len() - 1, p.last()) =~= p);
    } else {
        let b1 = b.drop_last();
        lemma_pieces_plain(a, b1);
        assert((a + b).drop_last() =~= a + b1);
        assert((a + b).last() == b.last());
        assert(p.last() + b =~= (p.last() + b1).push(b.last()));
        let q = pieces(a + b1, ',');
        assert(q.update(q.len() - 1, q.last().push(b.last())) =~= p.update(p.len() - 1, p.last() + b));
    }
}

proof fn lemma_pieces_joined(roles: Seq<Seq<char>>)
    requires
        roles.len() >= 1,
        forall|i: int, j: int| 0 <= i < roles.len() && 0 <= j < roles[i].len() ==> roles[i][j] != ',',
    ensures
        pieces(joined(roles), ',') == roles,
    decreases roles.len(),
{
    if roles.len() == 1 {
        let e = Seq::<char>::empty();
        assert(pieces(e, ',') =~= seq![e]);
        lemma_pieces_plain(e, roles[0]);
        assert(e + roles[0] =~= roles[0]);
        assert(seq![e].update(0, e + roles[0]) =~= roles);
    } else {
        let r1 = roles.drop_last();
        assert forall|i: int, j: int| 0 <= i < r1.len() && 0 <= j < r1[i].len() implies r1[i][j] != ',' by {
            assert(r1[i] == roles[i]);
        }
        lemma_pieces_joined(r1);
        let a = joined(r1) + seq![','];
        assert(a.drop_last() =~= joined(r1));
        assert(pieces(a, ',') == r1.push(Seq::empty()));
        let last = roles.last();
        assert forall|j: int| 0 <= j < last.len() implies last[j] != ',' by {
            assert(last == roles[roles.len() - 1]);
        }
        lemma_pieces_plain(a, last);
        assert(Seq::<char>::empty() + last =~= last);
        assert(r1.push(Seq::empty()).update(r1.len() as int, last) =~= roles);
    }
}

proof fn lemma_nonblank_clean(roles: Seq<Seq<char>>)
    requires
        forall|i: int| 0 <= i < roles.len() ==> trim(#[trigger] roles[i]) == roles[i] && roles[i].len() > 0,
    ensures
        nonblank(roles) == roles,
    decreases roles.len(),
{
    if roles.len() > 0 {
        let r1 = roles.drop_last();
        assert forall|i: int| 0 <= i < r1.len() implies trim(#[trigger] r1[i]) == r1[i] && r1[i].len() > 0 by {
            assert(r1[i] == roles[i]);
        }
        lemma_nonblank_clean(r1);
        assert(roles.last() == roles[roles.len() - 1]);
        assert(r1.push(roles.last()) =~= roles);
    }
}

/// Storing roles and reading them back gives the same roles, as long as
/// each is a non-blank, already trimmed name without a comma.
pub proof fn law_roles_round_trip(roles: Seq<Seq<char>>)
    requires
        forall|i: int| 0 <= i < roles.len() ==> trim(#[trigger] roles[i]) == roles[i] && roles[i].len() > 0,
        forall|i: int, j: int| 0 <= i < roles.len() && 0 <= j < roles[i].len() ==> roles[i][j] != ',',
    ensures
        role_list(joined(roles)) == roles,
{
    if roles.len() == 0 {
        assert(pieces(Seq::<char>::empty(), ',') =~= seq![Seq::<char>::empty()]);
        let e = Seq::<char>::empty();
        assert(crate::text::trim_start(e) == e);
        assert(crate::text::trim_end(e) == e);
        assert(trim(e).len() == 0);
        let one = seq![e];
        assert(one.last() == e);
        assert(one.drop_last() =~= Seq::<Seq<char>>::empty());
        assert(nonblank(one.drop_last()) =~= Seq::<Seq<char>>::empty());
        assert(nonblank(one) =~= Seq::<Seq<char>>::empty());
    } else {
        lemma_pieces_joined(roles);
        lemma_nonblank_clean(roles);
    }
}

/// The columns of a new download row that come from what the caller
/// supplied (the id, the destination and the times are set on insert).
#[derive(Debug, Clone)]
pub struct DownloadColumns {
    pub url: String,
    pub filename: String,
    /// The expected SHA-256, in lower case.
    pub sha256: Option<String>,
    /// The expected size, when it fits the column.
    pub size_bytes: Option<i64>,
    /// The roles as one column.
    pub roles: String,
}

/// The expected SHA-256 as stored: lower case.
pub open spec fn stored_sha(sha256: Option<String>) -> Option<Seq<char>> {
    match sha256 {
        Some(h) => Some(lowercase_text(h@)),
        None => None,
    }
}

/// The expected size as stored: only one that fits a signed 64-bit column.
pub open spec fn stored_size(size_bytes: Option<u64>) -> Option<i64> {
    match size_bytes {
        Some(n) => if n <= i64::MAX {
            Some(n as i64)
        } else {
            None
        },
        None => None,
    }
}

/// `c` holds the columns of `new`: the url and the filename trimmed, the
/// hash in lower case, the size when it fits, the roles joined with commas.
pub open spec fn columns_of(new: NewDownload, c: DownloadColumns) -> bool {
    &&& c.url@ == trim(new.url@)
    &&& c.filename@ == trim(new.filename@)
    &&& match c.sha256 {
        Some(h) => stored_sha(new.sha256) == Some(h@),
        None => new.sha256 is None,
    }
    &&& c.size_bytes == stored_size(new.size_bytes)
    &&& c.roles@ == joined(views(new.roles@))
}

/// The columns of a new download row: refused with the database error
/// "download needs a url and a filename" when the url or the filename is
/// blank; else the url and the filename trimmed, the hash in lower case,
/// the size when it fits, the roles joined with commas.
pub fn download_columns(new: &NewDownload) -> (r: Result<DownloadColumns, CoreError>)
    ensures
        r is Err <==> trim(new.url@).len() == 0 || trim(new.filename@).len() == 0,
        r matches Err(e) ==> e.db_message() == Some("download needs a url and a filename"@),
        r matches Ok(c) ==> columns_of(*new, c),
{
    let url = trim_str(new.url.as_str());
    let filename = trim_str(new.filename.as_str());
    if url.unicode_len() == 0 || filename.unicode_len() == 0 {
        return Err(CoreError::Db(String::from_str("download needs a url and a filename")));
    }
    let sha256 = match &new.sha256 {
        Some(h) => Some(to_lowercase(h.as_str())),
        None => None,
    };
    let size_bytes = match new.size_bytes {
        Some(n) => if n <= i64::MAX as u64 {
            Some(n as i64)
        } else {
            None
        },
        None => None,
    };
    Ok(DownloadColumns {
        url: String::from_str(url),
        filename: String::from_str(filename),
        sha256,
        size_bytes,
        roles: join_roles(new.roles.as_slice()),
    })
}

/// Whether start-up recovery re-queues a download in state `s`: one left
/// `running` or `verifying` by a previous process goes back to `queued`
/// (it resumes from the partial file); every other state stays.
pub open spec fn requeued_at_start(s: DownloadState) -> bool {
    s == DownloadState::Running || s == DownloadState::Verifying
}

/// The state start-up recovery leaves a download in.
pub fn recovered_state(s: DownloadState) -> (r: DownloadState)
    ensures
        r == if requeued_at_start(s) {
            DownloadState::Queued
        } else {
            s
        },
{
    match s {
        DownloadState::Running | DownloadState::Verifying => DownloadState::Queued,
        other => other,
    }
}

/// `std::path::MAIN_SEPARATOR`: the platform's primary path separator,
/// `\\` on Windows and `/` elsewhere. Claims only that it is one of the
/// two; which one depends on the platform.
#[verifier::external_body]
fn host_separator() -> (r: char)
    ensures
        r == '\\' || r == '/',
{
    std::path::MAIN_SEPARATOR
}

/// `b` joined onto `a` the way a path is pushed: a rooted `b` (one that
/// starts with a separator or a drive) replaces `a`; else `b` follows `a`,
/// with `sep` between them unless `a` is empty or already ends in a
/// separator.
pub open spec fn join_text(a: Seq<char>, b: Seq<char>, sep: char) -> Seq<char> {
    if (b.len() > 0 && is_sep(b[0])) || is_drive(b) {
        b
    } else if a.len() == 0 || is_sep(a.last()) {
        a + b
    } else {
        a + seq![sep] + b
    }
}

/// `b` joined onto `a` with the separator `sep`.
pub fn join_with(a: &str, b: &str, sep: char) -> (r: String)
    ensures
        r@ == join_text(a@, b@, sep),
{
    let (n, m) = (a.unicode_len(), b.unicode_len());
    let rooted = (m > 0 && (b.get_char(0) == '\\' || b.get_char(0) == '/')) || (m >= 2 && b.get_char(1) == ':' && (
    ('a' <= b.get_char(0) && b.get_char(0) <= 'z') || ('A' <= b.get_char(0) && b.get_char(0) <= 'Z')));
    if rooted {
        return String::from_str(b);
    }
    let mut out = String::from_str(a);
    if n > 0 && !(a.get_char(n - 1) == '\\' || a.get_char(n - 1) == '/') {
        push_char(&mut out, sep);
    }
    out.append(b);
    out
}

/// Where a new download's file is staged: `filename` in the folder `id`
/// under the staging root, with `sep` between the parts.
pub open spec fn staging_dest(root: Seq<char>, id: Seq<char>, filename: Seq<char>, sep: char) -> Seq<char> {
    join_text(join_text(root, id, sep), filename, sep)
}

/// A new download row as it is inserted: its columns, where its file is
/// staged, and its first state.
#[derive(Debug, Clone)]
pub struct NewDownloadRow {
    pub columns: DownloadColumns,
    pub dest_path: String,
    pub state: DownloadState,
}

/// The new download row `id` for `new`, staged under `staging_root`:
/// refused exactly as [`download_columns`] refuses; else those columns, the
/// staging destination (the filename as given, in the folder `id`, joined
/// with the platform's separator) and the state `queued`.
pub fn new_download_row(new: &NewDownload, id: &str, staging_root: &str) -> (r: Result<NewDownloadRow, CoreError>)
    ensures
        r is Err <==> trim(new.url@).len() == 0 || trim(new.filename@).len() == 0,
        r matches Err(e) ==> e.db_message() == Some("download needs a url and a filename"@),
        r matches Ok(row) ==> {
            &&& columns_of(*new, row.columns)
            &&& row.state == DownloadState::Queued
            &&& exists|sep: char|
                (sep == '\\' || sep == '/') && row.dest_path@ == #[trigger] staging_dest(
                    staging_root@,
                    id@,
                    new.filename@,
                    sep,
                )
        },
{
    let columns = match download_columns(new) {
        Ok(c) => c,
        Err(e) => return Err(e),
    };
    let sep = host_separator();
    let folder = join_with(staging_root, id, sep);
    let dest_path = join_with(folder.as_str(), new.filename.as_str(), sep);
    assert(dest_path@ == staging_dest(staging_root@, id@, new.filename@, sep));
    Ok(NewDownloadRow { columns, dest_path, state: DownloadState::Queued })
}

} // verus!
