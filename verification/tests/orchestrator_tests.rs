use openbot::history::SessionEvent;
use openbot::orchestrator::{
    resume_decision, BackendEvent, Directive, InputEvent, NextStep, Orchestrator, Phase,
    RunnerConfig, SleepOutcome,
};
use openbot::worktree::{VcsAction, WorktreeInfo};

fn wt() -> WorktreeInfo {
    WorktreeInfo {
        path: "/repo/.git/openbot-worktrees/bot-1".to_string(),
        branch: "run/bot-1".to_string(),
        base_branch: "main".to_string(),
    }
}

fn start_streaming(o: &mut Orchestrator) {
    let _record = o.start_session("sess-1", 1000, "gpt-test", "work on it");
    o.on_submitted();
    o.on_streaming();
}

#[test]
fn single_session_discard_scenario() {
    // max_sessions = 1, no sleep; the backend completes with `discard`.
    let mut o = Orchestrator::new(
        RunnerConfig {
            max_sessions: 1,
            sleep_secs: 0,
        },
        0,
    );
    assert!(o.can_start_session());
    start_streaming(&mut o);

    let out = o.on_backend_event(BackendEvent::MessageDelta("working...".to_string()));
    assert_eq!(out.len(), 2);

    let out = o.on_backend_event(BackendEvent::CompleteToolCall {
        call_id: "c1".to_string(),
        summary: "all done".to_string(),
        action: "discard".to_string(),
    });
    assert!(matches!(
        out.as_slice(),
        [Directive::RespondCompletion { .. }]
    ));

    o.on_backend_event(BackendEvent::TurnComplete);
    assert_eq!(o.phase, Phase::Completed);

    // Post-hook: discard runs no VCS command and keeps the branch.
    let info = wt();
    let actions: Vec<VcsAction> = o.post_hook(Some(&info));
    assert_eq!(actions.len(), 0);

    let record = o.end_session("sess-1", 1000, 12, "gpt-test", "work on it");
    assert_eq!(record.session_number, 1);
    assert_eq!(record.response_summary, "all done");
    let action = record.action.expect("worktree outcome recorded");
    assert!(action.contains("discarded"));
    assert_eq!(action, "discarded (branch run/bot-1 kept)");

    // One finalized session; the run stops.
    assert_eq!(o.after_session(), NextStep::Stop);
    assert_eq!(o.phase, Phase::ShuttingDown);
    o.finish();
    assert_eq!(o.phase, Phase::Done);
}

#[test]
fn interrupt_scenario() {
    // Interrupt while streaming: the turn is aborted, the shutdown flag is
    // set, and no further session starts; the backend is still wound down.
    let mut o = Orchestrator::new(
        RunnerConfig {
            max_sessions: 10,
            sleep_secs: 30,
        },
        0,
    );
    start_streaming(&mut o);

    let out = o.on_input_event(InputEvent::Interrupt);
    assert!(out
        .iter()
        .any(|d| matches!(d, Directive::RequestInterrupt)));
    assert!(o.shutdown);
    assert!(o.interrupted);

    o.on_backend_event(BackendEvent::TurnAborted);
    assert_eq!(o.phase, Phase::Aborted);

    assert_eq!(o.after_session(), NextStep::Stop);
    assert!(!o.can_start_session());
    assert_eq!(o.phase, Phase::ShuttingDown);
    o.finish();
}

#[test]
fn resume_missing_session_starts_fresh() {
    // A resume request whose rollout is gone falls back to a new session
    // without a fatal error.
    assert!(!resume_decision(true, false));
    assert!(resume_decision(true, true));
    assert!(!resume_decision(false, true));

    let mut o = Orchestrator::new(
        RunnerConfig {
            max_sessions: 2,
            sleep_secs: 0,
        },
        5,
    );
    // The run continues normally after the fallback.
    let record = o.start_session("fresh", 0, "m", "i");
    assert_eq!(record.session_number, 6);
}

#[test]
fn session_numbers_are_gap_free() {
    let mut o = Orchestrator::new(
        RunnerConfig {
            max_sessions: 3,
            sleep_secs: 0,
        },
        4,
    );
    let r1 = o.start_session("s", 0, "m", "i");
    assert_eq!(r1.session_number, 5);
    o.on_submitted();
    o.on_streaming();
    o.on_backend_event(BackendEvent::TurnAborted);
    assert_eq!(o.after_session(), NextStep::ContinueNow);
    let r2 = o.start_session("s", 0, "m", "i");
    assert_eq!(r2.session_number, 6);
    assert_eq!(r2.session_number, r1.session_number + 1);
}

#[test]
fn merge_post_hook_emits_vcs_commands() {
    let mut o = Orchestrator::new(
        RunnerConfig {
            max_sessions: 1,
            sleep_secs: 0,
        },
        0,
    );
    start_streaming(&mut o);
    o.on_backend_event(BackendEvent::CompleteToolCall {
        call_id: "c".to_string(),
        summary: "s".to_string(),
        action: "merge".to_string(),
    });
    let info = wt();
    let actions = o.post_hook(Some(&info));
    assert_eq!(actions.len(), 2);
    assert!(matches!(&actions[0], VcsAction::Checkout { branch } if branch == "main"));
    assert!(
        matches!(&actions[1], VcsAction::MergeFastForward { branch } if branch == "run/bot-1")
    );
    assert_eq!(o.worktree_result.as_deref(), Some("merged run/bot-1 into main"));
    o.note_merge_failure("run/bot-1");
    assert_eq!(
        o.worktree_result.as_deref(),
        Some("merge failed; branch run/bot-1 available for manual merge")
    );
}

#[test]
fn unknown_action_defaults_to_review() {
    let mut o = Orchestrator::new(
        RunnerConfig {
            max_sessions: 1,
            sleep_secs: 0,
        },
        0,
    );
    start_streaming(&mut o);
    o.on_backend_event(BackendEvent::CompleteToolCall {
        call_id: "c".to_string(),
        summary: "s".to_string(),
        action: "publish".to_string(),
    });
    let info = wt();
    let actions = o.post_hook(Some(&info));
    assert_eq!(actions.len(), 0);
    let note = o.worktree_result.clone().unwrap();
    assert!(note.starts_with("review branch run/bot-1"));
}

#[test]
fn end_of_input_ends_run_at_once() {
    // Closed non-interactive input ends the whole run: the streaming
    // sub-loop exits immediately and no further session starts.
    let mut o = Orchestrator::new(
        RunnerConfig {
            max_sessions: 10,
            sleep_secs: 0,
        },
        0,
    );
    start_streaming(&mut o);
    let out = o.on_input_event(InputEvent::EndOfInput);
    assert!(out.is_empty());
    assert!(o.shutdown);
    assert_eq!(o.phase, Phase::Aborted);
    assert_eq!(o.after_session(), NextStep::Stop);
    assert!(!o.can_start_session());
}

#[test]
fn steering_and_pending_input() {
    let mut o = Orchestrator::new(
        RunnerConfig {
            max_sessions: 5,
            sleep_secs: 1,
        },
        0,
    );
    start_streaming(&mut o);
    let out = o.on_input_event(InputEvent::Line("  do this too  ".to_string()));
    assert!(matches!(out.as_slice(), [Directive::TrySteer { .. }]));
    // The backend rejected steering: the line is queued for the next prompt.
    o.on_steer_result("do this too".to_string(), false);
    assert_eq!(o.pending_input.as_deref(), Some("do this too"));
    let taken = o.take_pending_input();
    assert_eq!(taken.as_deref(), Some("do this too"));
    assert!(o.pending_input.is_none());
}

#[test]
fn sleep_wakes_on_input() {
    let mut o = Orchestrator::new(
        RunnerConfig {
            max_sessions: 5,
            sleep_secs: 9,
        },
        0,
    );
    start_streaming(&mut o);
    o.on_backend_event(BackendEvent::TurnComplete);
    assert_eq!(o.after_session(), NextStep::SleepThenContinue);
    assert_eq!(o.phase, Phase::Sleeping);
    let out = o.end_sleep(SleepOutcome::InputLine("wake up".to_string()));
    assert!(matches!(&out[0], Directive::Emit { text, .. } if text == "Received: wake up"));
    assert_eq!(o.pending_input.as_deref(), Some("wake up"));
    assert_eq!(o.phase, Phase::Idle);
}

#[test]
fn streaming_events_journal_and_transcript() {
    let mut o = Orchestrator::new(
        RunnerConfig {
            max_sessions: 1,
            sleep_secs: 0,
        },
        0,
    );
    start_streaming(&mut o);
    o.on_backend_event(BackendEvent::MessageDelta("Hel".to_string()));
    let out = o.on_backend_event(BackendEvent::MessageDelta("lo".to_string()));
    assert!(matches!(
        &out[1],
        Directive::LogEvent(SessionEvent::Message { content }) if content == "lo"
    ));
    assert_eq!(o.transcript, "Hello");
    let out = o.on_backend_event(BackendEvent::CommandEnd {
        command: "cargo build".to_string(),
        exit_code: 1,
        duration_ms: 300,
    });
    assert_eq!(out.len(), 2);
    assert!(matches!(&out[0], Directive::Emit { text, .. } if text == "  exit code 1"));
    assert_eq!(o.commands.len(), 1);
}
