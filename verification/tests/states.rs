use aiwm_core::error::CoreError;
use aiwm_core::states::RunState::{
    Cancelled, Completed, Failed, Finishing, Interrupted, Paused, Preparing, Resuming, Running,
};
use aiwm_core::states::{
    AgentSessionState, DatasetMode, DownloadState, PersonaMode, Preset, RunState,
};

#[test]
fn run_state_round_trips_and_rejects_unknown() {
    for st in RunState::all() {
        assert_eq!(RunState::parse(st.as_str()), Some(st));
    }
    assert_eq!(RunState::parse("not_a_state"), None);
}

#[test]
fn only_allowed_transitions_pass() {

    let allowed: &[(RunState, &[RunState])] = &[
        (Preparing, &[Running, Failed, Cancelled]),
        (
            Running,
            &[Paused, Interrupted, Finishing, Failed, Cancelled],
        ),
        (Paused, &[Resuming, Cancelled]),
        (Interrupted, &[Resuming, Cancelled]),
        (Resuming, &[Running, Failed, Cancelled]),
        (Finishing, &[Completed, Failed]),
    ];

    for (from, tos) in allowed {
        for to in RunState::all() {
            let expected = tos.contains(&to);
            assert_eq!(
                from.can_transition_to(to),
                expected,
                "{from:?} -> {to:?} expected {expected}"
            );
            if expected {
                from.ensure_transition(to).unwrap();
            } else {
                let err = from.ensure_transition(to).unwrap_err();
                assert!(matches!(err, CoreError::Config(_)));
            }
        }
    }

    for term in [Completed, Failed, Cancelled] {
        assert!(term.is_terminal());
        for any in RunState::all() {
            assert!(!term.can_transition_to(any));
            assert!(term.ensure_transition(any).is_err());
        }
    }
}

#[test]
fn mode_round_trips_through_its_stored_string_and_is_lenient_on_read() {
    for mode in [
        PersonaMode::Inherit,
        PersonaMode::NoPersona,
        PersonaMode::Persona,
    ] {
        assert_eq!(PersonaMode::from_db(mode.as_str()), mode);
    }
    assert_eq!(PersonaMode::from_db("gibberish"), PersonaMode::Inherit);
    assert_eq!(PersonaMode::default(), PersonaMode::Inherit);
}

#[test]
fn a_refused_transition_names_both_states() {
    assert_eq!(
        RunState::Completed.ensure_transition(RunState::Running),
        Err(CoreError::Config(
            "training run: cannot go from completed to running".into()
        ))
    );
}

#[test]
fn download_and_session_states_round_trip_and_bad_rows_are_errors() {
    for st in [
        DownloadState::Queued,
        DownloadState::Running,
        DownloadState::Paused,
        DownloadState::Verifying,
        DownloadState::Done,
        DownloadState::Failed,
    ] {
        assert_eq!(DownloadState::parse(st.as_str()), Ok(st));
        assert_eq!(
            st.is_terminal(),
            matches!(st, DownloadState::Done | DownloadState::Failed)
        );
    }
    assert_eq!(
        DownloadState::parse("lost"),
        Err(CoreError::Db("bad download state \"lost\"".into()))
    );
    for st in [
        AgentSessionState::Starting,
        AgentSessionState::Idle,
        AgentSessionState::Working,
        AgentSessionState::AwaitingApproval,
        AgentSessionState::Stopped,
        AgentSessionState::Failed,
    ] {
        assert_eq!(AgentSessionState::parse(st.as_str()), Ok(st));
    }
    assert_eq!(AgentSessionState::AwaitingApproval.as_str(), "awaiting_approval");
    assert!(AgentSessionState::parse("Idle").is_err());
}

#[test]
fn modes_and_presets_round_trip() {
    for m in [DatasetMode::Frames, DatasetMode::Clips] {
        assert_eq!(DatasetMode::parse(m.as_str()), Some(m));
    }
    assert_eq!(DatasetMode::parse("frame"), None);
    for p in [Preset::Fast, Preset::Balanced, Preset::Thorough] {
        assert_eq!(Preset::parse(p.as_str()), Some(p));
    }
    assert_eq!(Preset::parse("Fast"), None);
}
