use aiwm_core::db::downloads::{join_roles, split_roles};
use aiwm_core::download::{
    cancel_step, content_total, CancelAction, enqueue_check, hex, parse_u64, pause_step, process_step,
    resume_step, retry_step, stream_end, transfer_start, verify_finish, verify_verdict, ProcessAction,
    ProcessEvent, Sha256State, TransferStart, MAX_RETRIES,
};
use aiwm_core::error::CoreError;
use aiwm_core::states::DownloadState;
use aiwm_core::text::gib;

fn config(e: CoreError) -> String {
    match e {
        CoreError::Config(m) => m,
        other => panic!("not a config error: {other:?}"),
    }
}

#[test]
fn offline_mode_refuses_every_enqueue() {
    let e = enqueue_check(true, None, None).unwrap_err();
    assert_eq!(config(e), "download: offline mode is on \u{2014} cannot download");
}

#[test]
fn the_store_volume_must_hold_the_file_plus_a_margin() {
    let gib1: u64 = 1 << 30;
    assert!(enqueue_check(false, Some(gib1), Some(3 * gib1)).is_ok());
    let e = enqueue_check(false, Some(gib1), Some(3 * gib1 - 1)).unwrap_err();
    assert_eq!(
        config(e),
        "download: not enough free space on the model store volume: needs ~1.0 GB (+2.0 GB margin), 3.0 GB free"
    );
    // Unknown size or unknown volume: nothing to gate on.
    assert!(enqueue_check(false, None, Some(0)).is_ok());
    assert!(enqueue_check(false, Some(u64::MAX), None).is_ok());
    // The need saturates instead of wrapping.
    assert!(enqueue_check(false, Some(u64::MAX), Some(u64::MAX)).is_ok());
}

#[test]
fn gigabytes_print_with_one_decimal_rounded_half_to_even() {
    assert_eq!(gib(0), "0.0 GB");
    assert_eq!(gib(1 << 30), "1.0 GB");
    assert_eq!(gib(1 << 28), "0.2 GB"); // 0.25 exactly: the tie goes to even
    assert_eq!(gib(3 << 28), "0.8 GB"); // 0.75 exactly: the tie goes to even
    assert_eq!(gib((1 << 30) / 20), "0.0 GB"); // just under 0.05
    assert_eq!(gib(12_884_901_888 + 322_122_547), "12.3 GB");
}

#[test]
fn pause_and_resume_move_only_the_states_they_name() {
    assert_eq!(pause_step(Some(DownloadState::Queued)).unwrap(), Some(DownloadState::Paused));
    assert_eq!(pause_step(Some(DownloadState::Running)).unwrap(), Some(DownloadState::Paused));
    assert_eq!(pause_step(Some(DownloadState::Done)).unwrap(), None);
    assert_eq!(config(pause_step(None).unwrap_err()), "download: no such download");
    assert_eq!(resume_step(false, Some(DownloadState::Paused)).unwrap(), Some(DownloadState::Queued));
    assert_eq!(resume_step(false, Some(DownloadState::Failed)).unwrap(), Some(DownloadState::Queued));
    assert_eq!(resume_step(false, Some(DownloadState::Running)).unwrap(), None);
    assert_eq!(
        config(resume_step(true, Some(DownloadState::Paused)).unwrap_err()),
        "download: offline mode is on \u{2014} cannot resume"
    );
}

#[test]
fn cancelling_a_terminal_download_just_removes_it() {
    assert_eq!(cancel_step(Some(DownloadState::Done)).unwrap(), CancelAction::Remove);
    assert_eq!(cancel_step(Some(DownloadState::Failed)).unwrap(), CancelAction::Remove);
    assert_eq!(cancel_step(Some(DownloadState::Running)).unwrap(), CancelAction::MarkCancelled);
    assert_eq!(cancel_step(Some(DownloadState::Paused)).unwrap(), CancelAction::MarkCancelled);
    assert_eq!(config(cancel_step(None).unwrap_err()), "download: no such download");
}

#[test]
fn retries_give_up_after_the_limit() {
    let e = CoreError::Config("download: stream: reset".into());
    assert_eq!(retry_step(MAX_RETRIES, &e), (DownloadState::Queued, None));
    assert_eq!(
        retry_step(MAX_RETRIES + 1, &e),
        (
            DownloadState::Failed,
            Some("gave up: configuration error: download: stream: reset".to_string())
        )
    );
}

#[test]
fn the_response_status_decides_how_the_transfer_starts() {
    assert!(matches!(transfer_start("u", 416, 10), TransferStart::AlreadyComplete));
    assert!(matches!(transfer_start("u", 206, 10), TransferStart::Resume { from: 10 }));
    assert!(matches!(transfer_start("u", 206, 0), TransferStart::Restart));
    assert!(matches!(transfer_start("u", 200, 10), TransferStart::Restart));
    match transfer_start("https://x/y", 404, 0) {
        TransferStart::Refused(e) => assert_eq!(config(e), "download: GET https://x/y returned 404"),
        other => panic!("{other:?}"),
    }
}

#[test]
fn a_short_stream_is_a_transport_error() {
    assert!(stream_end(10, Some(10)).is_ok());
    assert!(stream_end(10, None).is_ok());
    assert_eq!(
        config(stream_end(7, Some(10)).unwrap_err()),
        "download: stream ended at 7 of 10 bytes"
    );
}

#[test]
fn the_total_comes_from_content_range_else_content_length() {
    assert_eq!(content_total(Some("bytes 100-199/1000"), Some(100), 100), Some(1000));
    assert_eq!(content_total(Some("bytes 100-199/ 1000 "), None, 0), Some(1000));
    assert_eq!(content_total(Some("bytes 100-199/*"), Some(100), 100), Some(200));
    assert_eq!(content_total(None, Some(100), 5), Some(105));
    assert_eq!(content_total(None, None, 5), None);
    assert_eq!(parse_u64("+18446744073709551615"), Some(u64::MAX));
    assert_eq!(parse_u64("18446744073709551616"), None);
    assert_eq!(parse_u64("-1"), None);
    assert_eq!(parse_u64(""), None);
}

#[test]
fn a_finished_file_is_checked_by_size_then_hash() {
    let digest = [0xab_u8, 0x01, 0xff];
    assert_eq!(hex(&digest), "ab01ff");
    assert_eq!(verify_verdict(5, Some(5), Some("AB01FF"), &digest), None);
    assert_eq!(
        verify_verdict(4, Some(5), Some("AB01FF"), &digest),
        Some("expected 5 bytes, got 4".to_string())
    );
    assert_eq!(verify_verdict(4, Some(-1), None, &digest), None);
    assert_eq!(
        verify_verdict(5, None, Some("AB01FE"), &digest),
        Some("SHA-256 mismatch (expected ab01fe, got ab01ff)".to_string())
    );
}

const ABC_SHA: &str = "ba7816bf8f01cfea414140de5dae2223b00361a396177a9cb410ff61f20015ad";

fn hashed(chunks: &[&[u8]]) -> Sha256State {
    let mut s = Sha256State::new();
    for c in chunks {
        s.feed(c);
    }
    s
}

#[test]
fn chunks_hash_as_their_concatenation() {
    let whole = hashed(&[b"abc"]).digest();
    let split = hashed(&[b"ab", b"", b"c"]).digest();
    assert_eq!(whole, split);
    assert_eq!(hex(&whole), ABC_SHA);
    assert_eq!(
        hex(&hashed(&[]).digest()),
        "e3b0c44298fc1c149afbf4c8996fb92427ae41e4649b934ca495991b7852b855"
    );
}

#[test]
fn a_finished_file_is_hashed_then_judged() {
    assert_eq!(verify_finish(3, Some(3), Some(&ABC_SHA.to_uppercase()), hashed(&[b"a", b"bc"])), None);
    assert_eq!(
        verify_finish(3, None, Some(ABC_SHA), hashed(&[b"abd"])),
        Some(format!(
            "SHA-256 mismatch (expected {ABC_SHA}, got {})",
            hex(&hashed(&[b"abd"]).digest())
        ))
    );
    assert_eq!(
        verify_finish(3, Some(4), Some(ABC_SHA), hashed(&[b"abc"])),
        Some("expected 4 bytes, got 3".to_string())
    );
    assert_eq!(verify_finish(3, None, None, hashed(&[b"xyz"])), None);
}

#[test]
fn roles_are_stored_comma_separated_and_read_back_clean() {
    let roles = vec!["chat".to_string(), "coding".to_string()];
    assert_eq!(join_roles(&roles), "chat,coding");
    assert_eq!(split_roles("chat,coding"), roles);
    assert_eq!(split_roles(" chat , ,coding,"), roles);
    assert!(split_roles("").is_empty());
    assert_eq!(join_roles(&[]), "");
}

#[test]
fn the_worker_steps_through_transfer_check_and_import() {
    assert!(matches!(
        process_step(ProcessEvent::Picked { offline: true }),
        ProcessAction::Fail(t) if t == "offline mode is on"
    ));
    assert!(matches!(process_step(ProcessEvent::Picked { offline: false }), ProcessAction::Transfer));
    assert!(matches!(process_step(ProcessEvent::Transferred), ProcessAction::Verify));
    assert!(matches!(process_step(ProcessEvent::StoppedByRequest), ProcessAction::Stop));
    let e = CoreError::Config("download: stream: reset".into());
    match process_step(ProcessEvent::TransportFailed { retries: 2, error: e.clone() }) {
        ProcessAction::Retry { state, error_text } => {
            assert_eq!(state, DownloadState::Queued);
            assert_eq!(error_text, None);
        }
        other => panic!("{other:?}"),
    }
    match process_step(ProcessEvent::TransportFailed { retries: 6, error: e }) {
        ProcessAction::Retry { state, error_text } => {
            assert_eq!(state, DownloadState::Failed);
            assert_eq!(error_text.as_deref(), Some("gave up: configuration error: download: stream: reset"));
        }
        other => panic!("{other:?}"),
    }
    assert!(matches!(
        process_step(ProcessEvent::Checked(Some("expected 10 bytes, got 9".into()))),
        ProcessAction::Reject(t) if t == "expected 10 bytes, got 9"
    ));
    assert!(matches!(process_step(ProcessEvent::Checked(None)), ProcessAction::Import));
    assert!(matches!(
        process_step(ProcessEvent::Imported { model_id: "m1".into() }),
        ProcessAction::Finish { model_id } if model_id == "m1"
    ));
    assert!(matches!(
        process_step(ProcessEvent::Errored(CoreError::Db("disk full".into()))),
        ProcessAction::Fail(t) if t == "database error: disk full"
    ));
}
