//! The download manager's decisions: whether a download may be queued, what
//! pause / resume / cancel do to a row, how a transfer starts and ends,
//! when a failed transfer is retried, how the total size is read from the
//! response headers, whether a finished file passes its checks, and what
//! the worker does after each step. The caller does the network and disk
//! work and hands the outcomes in.

use sha2::Digest;
use vstd::prelude::*;

use crate::cleanup::storage::DOWNLOAD_FREE_MARGIN_BYTES;
use crate::error::{error_text, CoreError};
use crate::states::DownloadState;
use crate::text::{lowercase_text, to_lowercase, decimal, gib, gib_label, pieces, push_char, push_decimal, str_eq, trim, trim_str, unsigned_body, digits_value, is_digit};

verus! {

/// Transport retries (each resumes from the partial file) before a
/// download is marked failed.
pub const MAX_RETRIES: i64 = 5;

/// A download error's message: `download: ` and the reason.
pub open spec fn download_message(reason: Seq<char>) -> Seq<char> {
    "download: "@ + reason
}

/// A download error with `reason`.
pub fn download_error(reason: &str) -> (r: CoreError)
    ensures
        r.config_message() == Some(download_message(reason@)),
{
    let mut m = String::from_str("download: ");
    m.append(reason);
    CoreError::Config(m)
}

/// The refusal when the store volume cannot hold a download.
pub open spec fn no_room_reason(size: u64, free: u64) -> Seq<char> {
    "not enough free space on the model store volume: needs ~"@ + gib_label(size as nat) + " (+"@
        + gib_label(DOWNLOAD_FREE_MARGIN_BYTES as nat) + " margin), "@ + gib_label(free as nat)
        + " free"@
}

/// The room a download of `size` bytes needs: its size plus the margin.
pub open spec fn room_needed(size: u64) -> int {
    crate::arith::sat(size + DOWNLOAD_FREE_MARGIN_BYTES)
}

/// Whether a download may be queued: never offline; and when both its size
/// and the store volume's free space are known, only if the free space
/// covers the size plus a safety margin.
pub fn enqueue_check(offline: bool, size: Option<u64>, free: Option<u64>) -> (r: Result<(), CoreError>)
    ensures
        offline ==> (r matches Err(e) && e.config_message() == Some(
            download_message("offline mode is on \u{2014} cannot download"@),
        )),
        !offline ==> match (size, free) {
            (Some(s), Some(f)) => if f < room_needed(s) {
                r matches Err(e) && e.config_message() == Some(download_message(no_room_reason(s, f)))
            } else {
                r is Ok
            },
            _ => r is Ok,
        },
{
    if offline {
        return Err(download_error("offline mode is on \u{2014} cannot download"));
    }
    if let (Some(s), Some(f)) = (size, free) {
        let need = s.saturating_add(DOWNLOAD_FREE_MARGIN_BYTES);
        if f < need {
            let mut m = String::from_str("not enough free space on the model store volume: needs ~");
            m.append(gib(s).as_str());
            m.append(" (+");
            m.append(gib(DOWNLOAD_FREE_MARGIN_BYTES).as_str());
            m.append(" margin), ");
            m.append(gib(f).as_str());
            m.append(" free");
            return Err(download_error(m.as_str()));
        }
    }
    Ok(())
}

/// What pausing does to a download in state `s`: a queued or running one
/// is paused, anything else is left alone.
pub open spec fn paused(s: DownloadState) -> Option<DownloadState> {
    match s {
        DownloadState::Queued | DownloadState::Running => Some(DownloadState::Paused),
        _ => None,
    }
}

/// What resuming does: a paused or failed download is queued again.
pub open spec fn resumed(s: DownloadState) -> Option<DownloadState> {
    match s {
        DownloadState::Paused | DownloadState::Failed => Some(DownloadState::Queued),
        _ => None,
    }
}

/// The state a pause moves a download to, if any; an unknown download is
/// an error.
pub fn pause_step(found: Option<DownloadState>) -> (r: Result<Option<DownloadState>, CoreError>)
    ensures
        match found {
            None => r matches Err(e) && e.config_message() == Some(download_message("no such download"@)),
            Some(s) => r == Ok::<Option<DownloadState>, CoreError>(paused(s)),
        },
{
    match found {
        None => Err(download_error("no such download")),
        Some(s) => Ok(
            match s {
                DownloadState::Queued | DownloadState::Running => Some(DownloadState::Paused),
                _ => None,
            },
        ),
    }
}

/// The state a resume moves a download to, if any: refused offline, and
/// for an unknown download.
pub fn resume_step(offline: bool, found: Option<DownloadState>) -> (r: Result<Option<DownloadState>, CoreError>)
    ensures
        offline ==> (r matches Err(e) && e.config_message() == Some(
            download_message("offline mode is on \u{2014} cannot resume"@),
        )),
        !offline ==> match found {
            None => r matches Err(e) && e.config_message() == Some(download_message("no such download"@)),
            Some(s) => r == Ok::<Option<DownloadState>, CoreError>(resumed(s)),
        },
{
    if offline {
        return Err(download_error("offline mode is on \u{2014} cannot resume"));
    }
    match found {
        None => Err(download_error("no such download")),
        Some(s) => Ok(
            match s {
                DownloadState::Paused | DownloadState::Failed => Some(DownloadState::Queued),
                _ => None,
            },
        ),
    }
}

/// What a cancel does with a download.
#[derive(Debug, PartialEq, Eq)]
pub enum CancelAction {
    /// A finished (done or failed) download is just removed.
    Remove,
    /// Any other is marked failed with `cancelled` and its partial file
    /// discarded.
    MarkCancelled,
}

/// What cancelling does: an unknown download is an error; a terminal one
/// (done or failed) is just removed; any other is marked failed with
/// `cancelled`, its partial file discarded.
pub fn cancel_step(found: Option<DownloadState>) -> (r: Result<CancelAction, CoreError>)
    ensures
        match found {
            None => r matches Err(e) && e.config_message() == Some(download_message("no such download"@)),
            Some(s) => if s == DownloadState::Done || s == DownloadState::Failed {
                r == Ok::<CancelAction, CoreError>(CancelAction::Remove)
            } else {
                r == Ok::<CancelAction, CoreError>(CancelAction::MarkCancelled)
            },
        },
{
    match found {
        None => Err(download_error("no such download")),
        Some(DownloadState::Done) | Some(DownloadState::Failed) => Ok(CancelAction::Remove),
        Some(_) => Ok(CancelAction::MarkCancelled),
    }
}

/// After a transport error, with `retries` counted so far: past the limit
/// the download fails with `gave up: ` and the error, else it is queued
/// again (to resume from the partial file).
pub fn retry_step(retries: i64, error: &CoreError) -> (r: (DownloadState, Option<String>))
    ensures
        retries > MAX_RETRIES ==> r.0 == DownloadState::Failed,
        retries > MAX_RETRIES ==> (r.1 matches Some(t) && t@ == "gave up: "@ + error_text(*error)),
        retries <= MAX_RETRIES ==> r.0 == DownloadState::Queued && r.1 is None,
{
    if retries > MAX_RETRIES {
        let mut t = String::from_str("gave up: ");
        t.append(error.to_text().as_str());
        (DownloadState::Failed, Some(t))
    } else {
        (DownloadState::Queued, None)
    }
}

/// How a transfer proceeds once the server answered.
#[derive(Debug)]
pub enum TransferStart {
    /// `416`: the partial file already holds everything — treat as done.
    AlreadyComplete,
    /// `206` with a partial file: append after the bytes already there.
    Resume { from: u64 },
    /// The server sent the whole file: start from scratch.
    Restart,
    /// Any other status outside `200..300`: a transport error.
    Refused(CoreError),
}

/// The refusal of a response with `status`.
pub open spec fn status_reason(url: Seq<char>, status: u16) -> Seq<char> {
    "GET "@ + url + " returned "@ + decimal(status as nat)
}

/// What a transfer does with the response `status`, when `offset` bytes
/// are already on disk.
pub fn transfer_start(url: &str, status: u16, offset: u64) -> (r: TransferStart)
    ensures
        status == 416 ==> r is AlreadyComplete,
        status != 416 && !(200 <= status < 300) ==> (r matches TransferStart::Refused(e)
            && e.config_message() == Some(download_message(status_reason(url@, status)))),
        200 <= status < 300 ==> (if status == 206 && offset > 0 {
            r == TransferStart::Resume { from: offset }
        } else {
            r is Restart
        }),
{
    if status == 416 {
        return TransferStart::AlreadyComplete;
    }
    if !(200 <= status && status < 300) {
        let mut m = String::from_str("GET ");
        m.append(url);
        m.append(" returned ");
        push_decimal(&mut m, status as u64);
        return TransferStart::Refused(download_error(m.as_str()));
    }
    if status == 206 && offset > 0 {
        TransferStart::Resume { from: offset }
    } else {
        TransferStart::Restart
    }
}

/// The refusal of a stream that ended early.
pub open spec fn short_stream_reason(written: u64, total: u64) -> Seq<char> {
    "stream ended at "@ + decimal(written as nat) + " of "@ + decimal(total as nat) + " bytes"@
}

/// A clean end of the stream short of the expected total is a truncated
/// response: a transport error, so the transfer is retried with resume.
pub fn stream_end(written: u64, total: Option<u64>) -> (r: Result<(), CoreError>)
    ensures
        match total {
            Some(t) => if written < t {
                r matches Err(e) && e.config_message() == Some(download_message(short_stream_reason(written, t)))
            } else {
                r is Ok
            },
            None => r is Ok,
        },
{
    if let Some(t) = total {
        if written < t {
            let mut m = String::from_str("stream ended at ");
            push_decimal(&mut m, written);
            m.append(" of ");
            push_decimal(&mut m, t);
            m.append(" bytes");
            return Err(download_error(m.as_str()));
        }
    }
    Ok(())
}

/// `u64::from_str`: an optional `+`, then one or more ASCII digits whose
/// value fits.
pub open spec fn parse_u64_spec(s: Seq<char>) -> Option<u64> {
    let d = unsigned_body(s);
    if d.len() == 0 || exists|i: int| 0 <= i < d.len() && !is_digit(#[trigger] d[i]) {
        None
    } else if digits_value(d) > u64::MAX {
        None
    } else {
        Some(digits_value(d) as u64)
    }
}

proof fn lemma_digits_prefix_le(d: Seq<char>, k: int)
    requires
        0 <= k <= d.len(),
        forall|i: int| 0 <= i < d.len() ==> is_digit(#[trigger] d[i]),
    ensures
        digits_value(d.take(k)) <= digits_value(d),
    decreases d.len(),
{
    if k < d.len() {
        let p = d.drop_last();
        assert(p.take(k) =~= d.take(k));
        assert forall|i: int| 0 <= i < p.len() implies is_digit(#[trigger] p[i]) by {
            assert(p[i] == d[i]);
        }
        lemma_digits_prefix_le(p, k);
    } else {
        assert(d.take(k) =~= d);
    }
}

/// Parse a byte count the way `str::parse::<u64>` does.
pub fn parse_u64(s: &str) -> (r: Option<u64>)
    ensures
        r == parse_u64_spec(s@),
{
    let n = s.unicode_len();
    let first: usize = if n > 0 && s.get_char(0) == '+' {
        1
    } else {
        0
    };
    let ghost d = unsigned_body(s@);
    assert(d =~= s@.subrange(first as int, n as int));
    if first == n {
        assert(d.len() == 0);
        return None;
    }
    let mut i: usize = first;
    while i < n
        invariant
            n == s@.len(),
            first <= i <= n,
            d =~= s@.subrange(first as int, n as int),
            d == unsigned_body(s@),
            forall|k: int| first <= k < i ==> is_digit(#[trigger] s@[k]),
        decreases n - i,
    {
        let c = s.get_char(i);
        if !('0' <= c && c <= '9') {
            assert(!is_digit(d[i - first]));
            assert(exists|k: int| 0 <= k < d.len() && !is_digit(#[trigger] d[k]));
            return None;
        }
        i = i + 1;
    }
    assert forall|k: int| 0 <= k < d.len() implies is_digit(#[trigger] d[k]) by {
        assert(d[k] == s@[k + first]);
    }
    let mut v: u128 = 0;
    let mut j: usize = first;
    assert(d.take(0) =~= Seq::<char>::empty());
    while j < n
        invariant
            n == s@.len(),
            first <= j <= n,
            d =~= s@.subrange(first as int, n as int),
            d == unsigned_body(s@),
            forall|k: int| 0 <= k < d.len() ==> is_digit(#[trigger] d[k]),
            v == digits_value(d.take(j - first)),
            v <= u64::MAX,
        decreases n - j,
    {
        let c = s.get_char(j);
        let ghost t = d.take(j - first + 1);
        assert(t.drop_last() =~= d.take(j - first));
        assert(t.last() == c);
        assert(is_digit(d[j - first]));
        let dv = (c as u32) - 48;
        assert(digits_value(t) == digits_value(d.take(j - first)) * 10 + dv);
        v = v * 10 + dv as u128;
        j = j + 1;
        if v > 0xffff_ffff_ffff_ffff {
            proof {
                lemma_digits_prefix_le(d, j - first);
            }
            return None;
        }
    }
    assert(d.take(d.len() as int) =~= d);
    Some(v as u64)
}

/// The text after the last `/` (all of it when there is none).
pub open spec fn after_last_slash(s: Seq<char>) -> Seq<char> {
    pieces(s, '/').last()
}

/// The total size a response announces: the part after the last `/` of
/// `Content-Range` (`bytes a-b/total`) when it parses, else
/// `Content-Length` plus the bytes already on disk.
pub open spec fn announced_total(content_range: Option<Seq<char>>, content_length: Option<u64>, already: u64) -> Option<u64> {
    let from_range = match content_range {
        Some(cr) => parse_u64_spec(trim(after_last_slash(cr))),
        None => None,
    };
    match from_range {
        Some(t) => Some(t),
        None => match content_length {
            Some(len) => Some((len + already) as u64),
            None => None,
        },
    }
}

proof fn lemma_pieces_nonempty(s: Seq<char>, sep: char)
    ensures
        pieces(s, sep).len() >= 1,
    decreases s.len(),
{
    if s.len() > 0 {
        lemma_pieces_nonempty(s.drop_last(), sep);
    }
}

/// The text of `s` after its last `sep`.
fn last_piece(s: &str, sep: char) -> (r: &str)
    ensures
        r@ == pieces(s@, sep).last(),
{
    let n = s.unicode_len();
    let mut start: usize = 0;
    let mut i: usize = 0;
    assert(s@.take(0) =~= Seq::<char>::empty());
    assert(s@.subrange(0, 0) =~= Seq::<char>::empty());
    while i < n
        invariant
            n == s@.len(),
            start <= i <= n,
            pieces(s@.take(i as int), sep).len() >= 1,
            pieces(s@.take(i as int), sep).last() == s@.subrange(start as int, i as int),
        decreases n - i,
    {
        let c = s.get_char(i);
        let ghost (pre, post) = (s@.take(i as int), s@.take(i + 1));
        assert(post.drop_last() =~= pre);
        assert(post.last() == c);
        if c == sep {
            start = i + 1;
            assert(s@.subrange(start as int, i + 1) =~= Seq::<char>::empty());
        } else {
            assert(s@.subrange(start as int, i + 1) =~= s@.subrange(start as int, i as int).push(c));
        }
        i = i + 1;
    }
    assert(s@.take(n as int) =~= s@);
    s.substring_char(start, n)
}

/// Total file size from `Content-Range` or `Content-Length` (plus the
/// bytes already on disk).
pub fn content_total(content_range: Option<&str>, content_length: Option<u64>, already: u64) -> (r: Option<u64>)
    requires
        content_length matches Some(len) ==> len + already <= u64::MAX,
    ensures
        r == announced_total(
            match content_range {
                Some(cr) => Some(cr@),
                None => None,
            },
            content_length,
            already,
        ),
{
    if let Some(cr) = content_range {
        let tail = trim_str(last_piece(cr, '/'));
        if let Some(total) = parse_u64(tail) {
            return Some(total);
        }
    }
    match content_length {
        Some(len) => Some(len + already),
        None => None,
    }
}

/// The lowercase hex digit of `d < 16`.
pub open spec fn hex_digit(d: int) -> char {
    if d < 10 {
        (48 + d) as char
    } else {
        (87 + d) as char
    }
}

/// Bytes as lowercase hex, two digits each.
pub open spec fn hex_text(bytes: Seq<u8>) -> Seq<char>
    decreases bytes.len(),
{
    if bytes.len() == 0 {
        Seq::empty()
    } else {
        hex_text(bytes.drop_last()) + seq![hex_digit((bytes.last() / 16) as int), hex_digit((bytes.last() % 16) as int)]
    }
}

fn hex_char(d: u8) -> (r: char)
    requires
        d < 16,
    ensures
        r == hex_digit(d as int),
{
    if d < 10 {
        ((48 + d) as u8) as char
    } else {
        ((87 + d) as u8) as char
    }
}

/// Bytes as lowercase hex.
pub fn hex(bytes: &[u8]) -> (r: String)
    ensures
        r@ == hex_text(bytes@),
{
    let mut out = String::new();
    let mut i: usize = 0;
    assert(bytes@.take(0) =~= Seq::<u8>::empty());
    while i < bytes.len()
        invariant
            i <= bytes@.len(),
            out@ == hex_text(bytes@.take(i as int)),
        decreases bytes@.len() - i,
    {
        let b = bytes[i];
        assert(bytes@.take(i + 1).drop_last() =~= bytes@.take(i as int));
        assert(bytes@.take(i + 1).last() == b);
        push_char(&mut out, hex_char(b / 16));
        push_char(&mut out, hex_char(b % 16));
        assert(out@ =~= hex_text(bytes@.take(i + 1)));
        i = i + 1;
    }
    assert(bytes@.take(i as int) =~= bytes@);
    out
}

/// Why a finished file fails its checks, if it does: a known, non-negative
/// size that differs, else an expected SHA-256 (compared in lower case)
/// that differs from the file's.
pub open spec fn verify_failure(size: u64, expected_size: Option<i64>, expected_sha: Option<Seq<char>>, digest: Seq<u8>) -> Option<Seq<char>> {
    match expected_size {
        Some(want) if want >= 0 && size != want => Some(
            "expected "@ + decimal(want as nat) + " bytes, got "@ + decimal(size as nat),
        ),
        _ => match expected_sha {
            Some(w) => {
                let want = lowercase_text(w);
                let got = hex_text(digest);
                if got != want {
                    Some("SHA-256 mismatch (expected "@ + want + ", got "@ + got + ")"@)
                } else {
                    None
                }
            },
            None => None,
        },
    }
}

/// A finished file passes its checks only when it is what was expected:
/// with an expected SHA-256, its digest in hex is that hash in lower case,
/// whatever size was expected or found; with a known, non-negative
/// expected size, its size is that size. And a file that is both passes.
pub proof fn law_a_passing_file_matches_what_was_expected(
    size: u64,
    expected_size: Option<i64>,
    expected_sha: Option<Seq<char>>,
    digest: Seq<u8>,
)
    ensures
        verify_failure(size, expected_size, expected_sha, digest) is None ==> match expected_sha {
            Some(w) => hex_text(digest) == lowercase_text(w),
            None => true,
        },
        verify_failure(size, expected_size, expected_sha, digest) is None ==> match expected_size {
            Some(want) => want < 0 || size == want,
            None => true,
        },
        (match expected_sha {
            Some(w) => hex_text(digest) == lowercase_text(w),
            None => true,
        } && match expected_size {
            Some(want) => want < 0 || size == want,
            None => true,
        }) ==> verify_failure(size, expected_size, expected_sha, digest) is None,
{
}

/// `None` when a finished file of `size` bytes with SHA-256 `digest`
/// passes its checks; `Some(reason)` otherwise.
pub fn verify_verdict(size: u64, expected_size: Option<i64>, expected_sha: Option<&str>, digest: &[u8]) -> (r: Option<String>)
    ensures
        match r {
            Some(t) => verify_failure(
                size,
                expected_size,
                match expected_sha {
                    Some(w) => Some(w@),
                    None => None,
                },
                digest@,
            ) == Some(t@),
            None => verify_failure(
                size,
                expected_size,
                match expected_sha {
                    Some(w) => Some(w@),
                    None => None,
                },
                digest@,
            ) is None,
        },
        r is None ==> match expected_sha {
            Some(w) => hex_text(digest@) == lowercase_text(w@),
            None => true,
        },
        r is None ==> match expected_size {
            Some(want) => want < 0 || size == want,
            None => true,
        },
{
    proof {
        law_a_passing_file_matches_what_was_expected(
            size,
            expected_size,
            match expected_sha {
                Some(w) => Some(w@),
                None => None,
            },
            digest@,
        );
    }
    if let Some(want) = expected_size {
        if want >= 0 && size != want as u64 {
            let mut m = String::from_str("expected ");
            push_decimal(&mut m, want as u64);
            m.append(" bytes, got ");
            push_decimal(&mut m, size);
            return Some(m);
        }
    }
    if let Some(w) = expected_sha {
        let want = to_lowercase(w);
        let got = hex(digest);
        if !str_eq(got.as_str(), want.as_str()) {
            let mut m = String::from_str("SHA-256 mismatch (expected ");
            m.append(want.as_str());
            m.append(", got ");
            m.append(got.as_str());
            m.append(")");
            return Some(m);
        }
    }
    None
}

/// What happened to the download the worker is processing.
#[derive(Debug)]
pub enum ProcessEvent {
    /// The worker picked it from the queue; `offline` is the switch now.
    Picked { offline: bool },
    /// The transfer completed the file.
    Transferred,
    /// The transfer stopped because the row is no longer running (paused
    /// or cancelled meanwhile).
    StoppedByRequest,
    /// The transfer failed; `retries` counts the failures so far, this one
    /// included.
    TransportFailed { retries: i64, error: CoreError },
    /// The file was checked: `None` when it passes, else why not.
    Checked(Option<String>),
    /// The import moved the file into the store as this model.
    Imported { model_id: String },
    /// A step failed outright with this error.
    Errored(CoreError),
}

/// What the worker does next with the download.
#[derive(Debug)]
pub enum ProcessAction {
    /// Mark it failed with this text; done.
    Fail(String),
    /// Mark it running and transfer it.
    Transfer,
    /// Leave the row as it is; done.
    Stop,
    /// After a pause, put it in this state, with this error text; done.
    Retry { state: DownloadState, error_text: Option<String> },
    /// Mark it verifying and check the file.
    Verify,
    /// Delete the file and mark it failed with this reason; done.
    Reject(String),
    /// Import the file into the store.
    Import,
    /// Record the model, mark it done, remove its staging folder; done.
    Finish { model_id: String },
}

/// What the worker does after `event`: offline, a picked download fails at
/// once; a finished transfer is checked, a stopped one left alone, a failed
/// one retried or given up ([`retry_step`]); a file failing its checks is
/// deleted and the download failed; a passing one imported; an import
/// finishes it; any other error fails it with that error's text.
pub fn process_step(event: ProcessEvent) -> (a: ProcessAction)
    ensures
        match event {
            ProcessEvent::Picked { offline } => if offline {
                a matches ProcessAction::Fail(t) && t@ == "offline mode is on"@
            } else {
                a is Transfer
            },
            ProcessEvent::Transferred => a is Verify,
            ProcessEvent::StoppedByRequest => a is Stop,
            ProcessEvent::TransportFailed { retries, error } => a matches ProcessAction::Retry { state, error_text } && (
            if retries > MAX_RETRIES {
                state == DownloadState::Failed && (error_text matches Some(t) && t@ == "gave up: "@ + crate::error::error_text(error))
            } else {
                state == DownloadState::Queued && error_text is None
            }),
            ProcessEvent::Checked(failure) => match failure {
                Some(reason) => a matches ProcessAction::Reject(t) && t == reason,
                None => a is Import,
            },
            ProcessEvent::Imported { model_id } => a matches ProcessAction::Finish { model_id: m } && m == model_id,
            ProcessEvent::Errored(e) => a matches ProcessAction::Fail(t) && t@ == crate::error::error_text(e),
        },
{
    match event {
        ProcessEvent::Picked { offline } => {
            if offline {
                ProcessAction::Fail(String::from_str("offline mode is on"))
            } else {
                ProcessAction::Transfer
            }
        },
        ProcessEvent::Transferred => ProcessAction::Verify,
        ProcessEvent::StoppedByRequest => ProcessAction::Stop,
        ProcessEvent::TransportFailed { retries, error } => {
            let (state, error_text) = retry_step(retries, &error);
            ProcessAction::Retry { state, error_text }
        },
        ProcessEvent::Checked(failure) => match failure {
            Some(reason) => ProcessAction::Reject(reason),
            None => ProcessAction::Import,
        },
        ProcessEvent::Imported { model_id } => ProcessAction::Finish { model_id },
        ProcessEvent::Errored(e) => ProcessAction::Fail(e.to_text()),
    }
}

/// The SHA-256 digest of `bytes`.
pub uninterp spec fn sha256_of(bytes: Seq<u8>) -> Seq<u8>;

/// A SHA-256 computation under way; the bytes fed to it so far are
/// [`fed`].
#[verifier::external_body]
pub struct Sha256State {
    inner: sha2::Sha256,
}

/// The bytes fed to a SHA-256 computation so far.
pub uninterp spec fn fed(s: Sha256State) -> Seq<u8>;

/// `<sha2::Sha256 as Digest>::new`: claims that nothing has been fed yet.
#[verifier::external_body]
fn sha256_new() -> (r: Sha256State)
    ensures
        fed(r) == Seq::<u8>::empty(),
{
    Sha256State { inner: sha2::Sha256::new() }
}

/// `<sha2::Sha256 as Digest>::update`: claims that `chunk` is appended to
/// the bytes fed so far.
#[verifier::external_body]
fn sha256_update(s: &mut Sha256State, chunk: &[u8])
    ensures
        fed(*final(s)) == fed(*old(s)) + chunk@,
{
    s.inner.update(chunk)
}

/// `<sha2::Sha256 as Digest>::finalize`: claims that the digest is the
/// SHA-256 of the bytes fed, named [`sha256_of`], a function of those bytes
/// alone.
#[verifier::external_body]
fn sha256_finish(s: Sha256State) -> (r: Vec<u8>)
    ensures
        r@ == sha256_of(fed(s)),
{
    s.inner.finalize().to_vec()
}

impl Sha256State {
    /// A computation that has been fed nothing.
    pub fn new() -> (r: Sha256State)
        ensures
            fed(r) == Seq::<u8>::empty(),
    {
        sha256_new()
    }

    /// Feed the next bytes of the file.
    pub fn feed(&mut self, chunk: &[u8])
        ensures
            fed(*final(self)) == fed(*old(self)) + chunk@,
    {
        sha256_update(self, chunk)
    }

    /// The digest of everything fed.
    pub fn digest(self) -> (r: Vec<u8>)
        ensures
            r@ == sha256_of(fed(self)),
    {
        sha256_finish(self)
    }
}

/// `None` when a finished file of `size` bytes, fed whole to `hashed`,
/// passes its checks; `Some(reason)` otherwise.
pub fn verify_finish(size: u64, expected_size: Option<i64>, expected_sha: Option<&str>, hashed: Sha256State) -> (r: Option<String>)
    ensures
        match r {
            Some(t) => verify_failure(
                size,
                expected_size,
                match expected_sha {
                    Some(w) => Some(w@),
                    None => None,
                },
                sha256_of(fed(hashed)),
            ) == Some(t@),
            None => verify_failure(
                size,
                expected_size,
                match expected_sha {
                    Some(w) => Some(w@),
                    None => None,
                },
                sha256_of(fed(hashed)),
            ) is None,
        },
        r is None ==> match expected_sha {
            Some(w) => hex_text(sha256_of(fed(hashed))) == lowercase_text(w@),
            None => true,
        },
{
    let digest = hashed.digest();
    verify_verdict(size, expected_size, expected_sha, digest.as_slice())
}

} // verus!
