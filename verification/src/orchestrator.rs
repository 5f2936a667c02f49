//! The session orchestrator: the state machine that runs the iterative
//! agent loop. Events from the backend stream, the input surface, the
//! interrupt signal and the sleep timer are fed in one at a time; each step
//! updates the state and returns the directives the surrounding shell must
//! perform (emit text, journal an event, answer a tool call, steer input).
//! The shell performs I/O and nothing else: every decision is made here.

use vstd::prelude::*;

verus! {

use crate::history::CommandEntry;
use crate::history::SessionEvent;
use crate::history::SessionRecord;
use crate::history::TokenSnapshot;
use crate::text::spec_truncate_string;
use crate::text::str_eq;
use crate::text::truncate_string;
use crate::worktree::VcsAction;
use crate::worktree::VcsActionV;
use crate::worktree::WorktreeInfo;
use crate::workspace::clone_string;

/// Where a run stands.
#[derive(PartialEq, Eq, Structural, Clone, Copy, Debug)]
pub enum Phase {
    /// Between sessions, ready to start the next one.
    Idle,
    /// Assembling the prompt for a new session.
    BuildingPrompt,
    /// The prompt was submitted as one user turn.
    Submitted,
    /// Multiplexing events while the turn runs.
    Streaming,
    /// The turn finished normally.
    Completed,
    /// The turn was aborted.
    Aborted,
    /// The backend reported a fatal error for this session.
    Errored,
    /// Waiting out the configured pause between sessions.
    Sleeping,
    /// Winding down: no further session may start.
    ShuttingDown,
    /// The run is over.
    Done,
}

/// Static configuration of one run.
pub struct RunnerConfig {
    /// Maximum number of sessions; `0` means unbounded.
    pub max_sessions: u32,
    /// Seconds to sleep between sessions; `0` means none.
    pub sleep_secs: u64,
}

/// The effective session limit: unbounded becomes the largest count.
pub open spec fn spec_session_limit(c: RunnerConfig) -> int {
    if c.max_sessions == 0 {
        u32::MAX as int
    } else {
        c.max_sessions as int
    }
}

/// An event from the backend's stream.
pub enum BackendEvent {
    /// The full accumulated message text (a fallback when deltas are absent).
    MessageFull(String),
    /// One streamed piece of message text.
    MessageDelta(String),
    /// A command started; its argv joined into one line.
    CommandBegin(String),
    /// A command finished.
    CommandEnd { command: String, exit_code: i32, duration_ms: u64 },
    /// The agent called the history-browsing tool.
    HistoryToolCall { call_id: String },
    /// The agent called the completion tool.
    CompleteToolCall { call_id: String, summary: String, action: String },
    /// The backend asks whether a command may run.
    ApprovalRequest { id: String },
    /// A token-usage snapshot.
    TokenCount(TokenSnapshot),
    /// The turn ended normally.
    TurnComplete,
    /// The turn was aborted.
    TurnAborted,
    /// A fatal backend error for this session.
    BackendError(String),
    /// Anything the orchestrator ignores.
    Other,
}

/// An event from the input surface.
pub enum InputEvent {
    /// The user entered a line.
    Line(String),
    /// The interrupt signal.
    Interrupt,
    /// The non-interactive input closed.
    EndOfInput,
}

/// What woke a sleeping run.
pub enum SleepOutcome {
    /// The timer elapsed.
    TimerElapsed,
    /// A line arrived; it becomes the pending input of the next session.
    InputLine(String),
    /// The interrupt signal.
    Interrupt,
    /// The non-interactive input closed.
    EndOfInput,
}

/// One thing the surrounding shell must do.
pub enum Directive {
    /// Show text, as a full line or as streamed output.
    Emit { text: String, newline: bool },
    /// Append one event to the session journal.
    LogEvent(SessionEvent),
    /// Compute and return the history tool's reply for this call.
    AnswerHistory { call_id: String },
    /// Acknowledge the completion tool call so the turn can end.
    RespondCompletion { call_id: String },
    /// Approve the command (unattended runs approve everything).
    Approve { id: String },
    /// Ask the backend to abort the in-flight turn.
    RequestInterrupt,
    /// Try to steer the text into the running turn; report the outcome with
    /// `on_steer_result`.
    TrySteer { text: String },
}

/// What to do once a session has ended.
#[derive(PartialEq, Eq, Structural, Clone, Copy, Debug)]
pub enum NextStep {
    /// The run is over: wind down the backend.
    Stop,
    /// Sleep, then start the next session.
    SleepThenContinue,
    /// Start the next session at once.
    ContinueNow,
}

/// Whether to reattach to a prior backend session or start fresh: a resume
/// request whose rollout cannot be found falls back silently to a new
/// session.
pub fn resume_decision(requested: bool, rollout_found: bool) -> (r: bool)
    ensures
        r == (requested && rollout_found),
{
    requested && rollout_found
}

/// The session orchestrator's state.
pub struct Orchestrator {
    /// Static run configuration.
    pub config: RunnerConfig,
    /// Sessions already on disk when the run began.
    pub history_count: u64,
    /// Where the run stands.
    pub phase: Phase,
    /// Sessions started by this run.
    pub sessions_started: u32,
    /// Once set, no further session starts and any sleep ends; never unset.
    pub shutdown: bool,
    /// Whether the interrupt signal was seen.
    pub interrupted: bool,
    /// At most one queued line for the next session's prompt.
    pub pending_input: Option<String>,
    /// The current session's accumulated message text.
    pub transcript: String,
    /// The current session's finished commands.
    pub commands: Vec<CommandEntry>,
    /// Whether the completion tool was called this session.
    pub completed: bool,
    /// The summary the completion tool carried.
    pub completion_summary: String,
    /// The action the completion tool chose.
    pub completion_action: String,
    /// The latest token-usage snapshot.
    pub last_tokens: Option<TokenSnapshot>,
    /// What happened to the worktree changes, once decided.
    pub worktree_result: Option<String>,
}

impl Orchestrator {
    /// The state bounds every step preserves.
    pub open spec fn wf(self) -> bool {
        &&& self.sessions_started <= spec_session_limit(self.config)
        &&& self.history_count <= u64::MAX - (u32::MAX as u64)
    }

    /// Whether a new session may start.
    pub open spec fn spec_can_start(self) -> bool {
        &&& !self.shutdown
        &&& (self.sessions_started as int) < spec_session_limit(self.config)
    }

    /// Begin a run over `history_count` existing session records.
    pub fn new(config: RunnerConfig, history_count: u64) -> (r: Orchestrator)
        requires
            history_count <= u64::MAX - (u32::MAX as u64),
        ensures
            r.wf(),
            r.phase == Phase::Idle,
            r.sessions_started == 0,
            !r.shutdown,
            !r.interrupted,
            r.pending_input is None,
            r.config == config,
            r.history_count == history_count,
            !r.completed,
            r.worktree_result is None,
    {
        Orchestrator {
            config,
            history_count,
            phase: Phase::Idle,
            sessions_started: 0,
            shutdown: false,
            interrupted: false,
            pending_input: None,
            transcript: String::new(),
            commands: Vec::new(),
            completed: false,
            completion_summary: String::new(),
            completion_action: String::new(),
            last_tokens: None,
            worktree_result: None,
        }
    }

    /// Whether a new session may start: the shutdown flag, once set, blocks
    /// entry, and so does the session limit.
    pub fn can_start_session(&self) -> (r: bool)
        ensures
            r == self.spec_can_start(),
    {
        let limit: u32 = if self.config.max_sessions == 0 {
            u32::MAX
        } else {
            self.config.max_sessions
        };
        !self.shutdown && self.sessions_started < limit
    }

    /// Start the next session: clear the per-session state and write the
    /// initial (partial) record. Its session number continues the workspace
    /// history without a gap.
    pub fn start_session(&mut self, session_id: &str, now: i64, model: &str, instructions: &str)
        -> (record: SessionRecord)
        requires
            old(self).wf(),
            old(self).phase == Phase::Idle,
            old(self).spec_can_start(),
        ensures
            final(self).wf(),
            final(self).phase == Phase::BuildingPrompt,
            final(self).sessions_started == old(self).sessions_started + 1,
            record.session_number == spec_session_number(
                old(self).history_count as int,
                final(self).sessions_started as int,
            ),
            record.session_id@ == session_id@,
            record.started_at == now,
            record.duration_secs == 0,
            record.model@ == model@,
            record.prompt_summary@ == spec_truncate_string(instructions@, 100),
            record.response_summary@ == Seq::<char>::empty(),
            record.action is None,
            record.tokens is None,
            record.command_count == Some(0u64),
            final(self).transcript@ == Seq::<char>::empty(),
            final(self).commands@.len() == 0,
            !final(self).completed,
            final(self).shutdown == old(self).shutdown,
            final(self).interrupted == old(self).interrupted,
            final(self).pending_input == old(self).pending_input,
            final(self).config == old(self).config,
            final(self).history_count == old(self).history_count,
            final(self).worktree_result == old(self).worktree_result,
    {
        self.phase = Phase::BuildingPrompt;
        self.sessions_started = self.sessions_started + 1;
        self.transcript = String::new();
        self.commands = Vec::new();
        self.completed = false;
        self.completion_summary = String::new();
        self.completion_action = String::new();
        SessionRecord {
            session_id: session_id.to_owned(),
            session_number: self.history_count + (self.sessions_started as u64),
            started_at: now,
            duration_secs: 0,
            model: model.to_owned(),
            prompt_summary: truncate_string(instructions, 100),
            response_summary: String::new(),
            action: None,
            tokens: None,
            command_count: Some(0),
        }
    }

    /// Take the queued input for this prompt build; it is consumed by
    /// exactly one session.
    pub fn take_pending_input(&mut self) -> (r: Option<String>)
        ensures
            r == old(self).pending_input,
            final(self).pending_input is None,
            *final(self) == (Orchestrator { pending_input: None, ..*old(self) }),
    {
        let r = take_option(&mut self.pending_input);
        r
    }

    /// The prompt was submitted as one user turn.
    pub fn on_submitted(&mut self)
        requires
            old(self).phase == Phase::BuildingPrompt,
        ensures
            *final(self) == (Orchestrator { phase: Phase::Submitted, ..*old(self) }),
    {
        self.phase = Phase::Submitted;
    }

    /// The backend accepted the turn: stream its events.
    pub fn on_streaming(&mut self)
        requires
            old(self).phase == Phase::Submitted,
        ensures
            *final(self) == (Orchestrator { phase: Phase::Streaming, ..*old(self) }),
    {
        self.phase = Phase::Streaming;
    }

    /// One backend event of the streaming sub-loop.
    pub fn on_backend_event(&mut self, ev: BackendEvent) -> (out: Vec<Directive>)
        requires
            old(self).phase == Phase::Streaming,
        ensures
            final(self).wf() <== old(self).wf(),
            final(self).shutdown == old(self).shutdown,
            final(self).interrupted == old(self).interrupted,
            final(self).pending_input == old(self).pending_input,
            final(self).config == old(self).config,
            final(self).history_count == old(self).history_count,
            final(self).sessions_started == old(self).sessions_started,
            final(self).worktree_result == old(self).worktree_result,
            ev matches BackendEvent::TurnComplete ==> *final(self) == (Orchestrator {
                phase: Phase::Completed,
                ..*old(self)
            }) && out@.len() == 0,
            ev matches BackendEvent::TurnAborted ==> *final(self) == (Orchestrator {
                phase: Phase::Aborted,
                ..*old(self)
            }) && out@.len() == 0,
            ev matches BackendEvent::BackendError(_) ==> *final(self) == (Orchestrator {
                phase: Phase::Errored,
                ..*old(self)
            }) && out@.len() == 0,
            ev matches BackendEvent::MessageFull(m) ==> {
                &&& *final(self) == (Orchestrator {
                    transcript: final(self).transcript,
                    ..*old(self)
                })
                &&& (m@.len() == 0 ==> final(self).transcript == old(self).transcript && out@.len()
                    == 0)
                &&& (m@.len() > 0 ==> final(self).transcript@ == m@)
                &&& (m@.len() > 0 && old(self).transcript@.len() == 0 ==> out@.len() == 1
                    && (out@[0] matches Directive::Emit { text, newline } && text@ == m@ && newline))
                &&& (m@.len() > 0 && old(self).transcript@.len() > 0 ==> out@.len() == 0)
            },
            ev matches BackendEvent::MessageDelta(d) ==> {
                &&& *final(self) == (Orchestrator {
                    transcript: final(self).transcript,
                    ..*old(self)
                })
                &&& (d@.len() == 0 ==> final(self).transcript == old(self).transcript && out@.len()
                    == 0)
                &&& (d@.len() > 0 ==> {
                    &&& final(self).transcript@ == old(self).transcript@ + d@
                    &&& out@.len() == 2
                    &&& (out@[0] matches Directive::Emit { text, newline } && text@ == d@
                        && !newline)
                    &&& (out@[1] matches Directive::LogEvent(e) && e@ == (
                    crate::history::EventV::Message { content: d@ }))
                })
            },
            ev matches BackendEvent::CommandBegin(cmd) ==> *final(self) == *old(self) && out@.len()
                == 1 && (out@[0] matches Directive::Emit { text, newline } && text@ == "  $ "@
                + cmd@ && newline),
            ev matches BackendEvent::CommandEnd { command, exit_code, duration_ms } ==> {
                &&& *final(self) == (Orchestrator { commands: final(self).commands, ..*old(self) })
                &&& final(self).commands@.len() == old(self).commands@.len() + 1
                &&& final(self).commands@ == old(self).commands@.push(
                    final(self).commands@.last(),
                )
                &&& final(self).commands@.last()@ == (crate::history::CommandEntryV {
                    command: command@,
                    exit_code: exit_code as int,
                    duration_ms: duration_ms as int,
                })
                &&& (exit_code != 0 ==> out@.len() == 2 && (out@[0] matches Directive::Emit {
                    text,
                    newline,
                } && text@ == "  exit code "@ + crate::numfmt::dec_of_int(exit_code as int)
                    && newline) && (out@[1] matches Directive::LogEvent(e) && e@ == (
                crate::history::EventV::Command {
                    command: command@,
                    exit_code: exit_code as int,
                    duration_ms: duration_ms as int,
                })))
                &&& (exit_code == 0 ==> out@.len() == 1 && (out@[0] matches Directive::LogEvent(e)
                    && e@ == (crate::history::EventV::Command {
                    command: command@,
                    exit_code: exit_code as int,
                    duration_ms: duration_ms as int,
                })))
            },
            ev matches BackendEvent::HistoryToolCall { call_id } ==> *final(self) == *old(self)
                && out@.len() == 1 && (out@[0] matches Directive::AnswerHistory { call_id: c } && c@
                == call_id@),
            ev matches BackendEvent::CompleteToolCall { call_id, summary, action } ==> {
                &&& *final(self) == (Orchestrator {
                    completed: true,
                    completion_summary: final(self).completion_summary,
                    completion_action: final(self).completion_action,
                    ..*old(self)
                })
                &&& final(self).completion_summary@ == summary@
                &&& final(self).completion_action@ == action@
                &&& out@.len() == 1
                &&& (out@[0] matches Directive::RespondCompletion { call_id: c } && c@ == call_id@)
            },
            ev matches BackendEvent::ApprovalRequest { id } ==> *final(self) == *old(self)
                && out@.len() == 1 && (out@[0] matches Directive::Approve { id: i } && i@ == id@),
            ev matches BackendEvent::TokenCount(t) ==> {
                &&& *final(self) == (Orchestrator {
                    last_tokens: final(self).last_tokens,
                    ..*old(self)
                })
                &&& (final(self).last_tokens matches Some(s) && s@ == t@)
                &&& out@.len() == 1
                &&& (out@[0] matches Directive::LogEvent(e) && e@ == (
                crate::history::EventV::TokenCount {
                    input_tokens: t.input_tokens as int,
                    cached_input_tokens: t.cached_input_tokens as int,
                    output_tokens: t.output_tokens as int,
                    reasoning_output_tokens: t.reasoning_output_tokens as int,
                    context_window: crate::history::opt_i64_v(t.context_window),
                }))
            },
            ev matches BackendEvent::Other ==> *final(self) == *old(self) && out@.len() == 0,
    {
        let mut out: Vec<Directive> = Vec::new();
        match ev {
            BackendEvent::MessageFull(m) => {
                if !m.as_str().is_empty() {
                    if self.transcript.as_str().is_empty() {
                        out.push(Directive::Emit { text: clone_string(&m), newline: true });
                    }
                    self.transcript = m;
                }
            },
            BackendEvent::MessageDelta(d) => {
                if !d.as_str().is_empty() {
                    out.push(Directive::Emit { text: clone_string(&d), newline: false });
                    self.transcript.append(d.as_str());
                    out.push(Directive::LogEvent(SessionEvent::Message { content: d }));
                }
            },
            BackendEvent::CommandBegin(cmd) => {
                let mut text = "  $ ".to_owned();
                text.append(cmd.as_str());
                out.push(Directive::Emit { text, newline: true });
            },
            BackendEvent::CommandEnd { command, exit_code, duration_ms } => {
                if exit_code != 0 {
                    let mut text = "  exit code ".to_owned();
                    text.append(crate::numfmt::i32_to_string(exit_code).as_str());
                    out.push(Directive::Emit { text, newline: true });
                }
                self.commands.push(
                    CommandEntry { command: clone_string(&command), exit_code, duration_ms },
                );
                out.push(
                    Directive::LogEvent(SessionEvent::Command { command, exit_code, duration_ms }),
                );
            },
            BackendEvent::HistoryToolCall { call_id } => {
                out.push(Directive::AnswerHistory { call_id });
            },
            BackendEvent::CompleteToolCall { call_id, summary, action } => {
                self.completed = true;
                self.completion_summary = summary;
                self.completion_action = action;
                out.push(Directive::RespondCompletion { call_id });
            },
            BackendEvent::ApprovalRequest { id } => {
                out.push(Directive::Approve { id });
            },
            BackendEvent::TokenCount(t) => {
                out.push(
                    Directive::LogEvent(
                        SessionEvent::TokenCount {
                            input_tokens: t.input_tokens,
                            cached_input_tokens: t.cached_input_tokens,
                            output_tokens: t.output_tokens,
                            reasoning_output_tokens: t.reasoning_output_tokens,
                            context_window: t.context_window,
                        },
                    ),
                );
                self.last_tokens = Some(t);
            },
            BackendEvent::TurnComplete => {
                self.phase = Phase::Completed;
            },
            BackendEvent::TurnAborted => {
                self.phase = Phase::Aborted;
            },
            BackendEvent::BackendError(_) => {
                self.phase = Phase::Errored;
            },
            BackendEvent::Other => {},
        }
        out
    }

    /// One input event of the streaming sub-loop. The interrupt aborts the
    /// in-flight turn and sets the shutdown flag; it is never queued, so a
    /// second interrupt changes nothing further. End of input ends the
    /// whole run at once: the sub-loop exits without waiting for the turn.
    pub fn on_input_event(&mut self, ev: InputEvent) -> (out: Vec<Directive>)
        requires
            old(self).phase == Phase::Streaming,
        ensures
            final(self).wf() <== old(self).wf(),
            old(self).shutdown ==> final(self).shutdown,
            final(self).sessions_started == old(self).sessions_started,
            ev matches InputEvent::Line(t) ==> {
                &&& *final(self) == *old(self)
                &&& (crate::worktree::spec_trim(t@).len() == 0 ==> out@.len() == 0)
                &&& (crate::worktree::spec_trim(t@).len() > 0 ==> out@.len() == 1
                    && (out@[0] matches Directive::TrySteer { text } && text@ == t@))
            },
            ev matches InputEvent::Interrupt ==> *final(self) == (Orchestrator {
                shutdown: true,
                interrupted: true,
                ..*old(self)
            }) && out@.len() == 2 && (out@[0] matches Directive::Emit { text, newline } && text@
                == "  [interrupting...]"@ && newline) && (out@[1]
                matches Directive::RequestInterrupt),
            ev matches InputEvent::EndOfInput ==> *final(self) == (Orchestrator {
                shutdown: true,
                phase: Phase::Aborted,
                ..*old(self)
            }) && out@.len() == 0,
    {
        let mut out: Vec<Directive> = Vec::new();
        match ev {
            InputEvent::Line(t) => {
                let trimmed = crate::worktree::trim_spaces(t.as_str());
                if !trimmed.as_str().is_empty() {
                    out.push(Directive::TrySteer { text: t });
                }
            },
            InputEvent::Interrupt => {
                out.push(Directive::Emit { text: "  [interrupting...]".to_owned(), newline: true });
                out.push(Directive::RequestInterrupt);
                self.shutdown = true;
                self.interrupted = true;
            },
            InputEvent::EndOfInput => {
                self.shutdown = true;
                self.phase = Phase::Aborted;
            },
        }
        out
    }

    /// The outcome of a steering attempt: accepted text went into the
    /// running turn; rejected text is queued as the single pending input for
    /// the next session.
    pub fn on_steer_result(&mut self, text: String, accepted: bool) -> (out: Vec<Directive>)
        ensures
            accepted ==> *final(self) == *old(self) && out@.len() == 1 && (out@[0]
                matches Directive::Emit { text: t, newline } && t@ == "  [steered: "@ + text@ + "]"@
                && newline),
            !accepted ==> *final(self) == (Orchestrator {
                pending_input: final(self).pending_input,
                ..*old(self)
            }) && (final(self).pending_input matches Some(p) && p@ == text@) && out@.len() == 1 && (
            out@[0] matches Directive::Emit { text: t, newline } && t@ == "  [queued: "@ + text@
                + "]"@ && newline),
    {
        let mut out: Vec<Directive> = Vec::new();
        if accepted {
            let mut note = "  [steered: ".to_owned();
            note.append(text.as_str());
            note.append("]");
            out.push(Directive::Emit { text: note, newline: true });
        } else {
            let mut note = "  [queued: ".to_owned();
            note.append(text.as_str());
            note.append("]");
            out.push(Directive::Emit { text: note, newline: true });
            self.pending_input = Some(text);
        }
        out
    }

    /// Close the session's record with its final values.
    pub fn end_session(&mut self, session_id: &str, now: i64, duration_secs: u64, model: &str,
        instructions: &str) -> (record: SessionRecord)
        requires
            old(self).phase == Phase::Completed || old(self).phase == Phase::Aborted || old(
                self,
            ).phase == Phase::Errored,
            old(self).wf(),
        ensures
            *final(self) == *old(self),
            record.session_number == spec_session_number(
                old(self).history_count as int,
                old(self).sessions_started as int,
            ),
            record.session_id@ == session_id@,
            record.started_at == now,
            record.duration_secs == duration_secs,
            record.model@ == model@,
            record.prompt_summary@ == spec_truncate_string(instructions@, 100),
            record.response_summary@ == (if old(self).completion_summary@.len() == 0 {
                spec_truncate_string(old(self).transcript@, 500)
            } else {
                old(self).completion_summary@
            }),
            record.action == old(self).worktree_result,
            (record.tokens == old(self).last_tokens),
            record.command_count == Some(old(self).commands@.len() as u64),
    {
        let response_summary = if self.completion_summary.as_str().is_empty() {
            truncate_string(self.transcript.as_str(), 500)
        } else {
            clone_string(&self.completion_summary)
        };
        SessionRecord {
            session_id: session_id.to_owned(),
            session_number: self.history_count + (self.sessions_started as u64),
            started_at: now,
            duration_secs,
            model: model.to_owned(),
            prompt_summary: truncate_string(instructions, 100),
            response_summary,
            action: clone_opt_string(&self.worktree_result),
            tokens: clone_opt_tokens(&self.last_tokens),
            command_count: Some(self.commands.len() as u64),
        }
    }

    /// Run the completion post-hook: decide the worktree outcome and the
    /// VCS commands to run. Only `merge` touches the repository; `discard`
    /// and `review` (the default for anything unrecognized) run nothing, and
    /// the branch is kept in every case.
    pub fn post_hook(&mut self, wt: Option<&WorktreeInfo>) -> (actions: Vec<VcsAction>)
        requires
            old(self).completed,
        ensures
            *final(self) == (Orchestrator {
                worktree_result: final(self).worktree_result,
                ..*old(self)
            }),
            wt is None ==> final(self).worktree_result == old(self).worktree_result
                && actions@.len() == 0,
            old(self).completion_action@ != "merge"@ ==> actions@.len() == 0,
            wt matches Some(w) ==> {
                &&& (old(self).completion_action@ == "merge"@ ==> {
                    &&& (final(self).worktree_result matches Some(t) && t@ == "merged "@
                        + w.branch@ + " into "@ + w.base_branch@)
                    &&& actions@.len() == 2
                    &&& (actions@[0]@ == (VcsActionV::Checkout { branch: w.base_branch@ }))
                    &&& (actions@[1]@ == (VcsActionV::MergeFastForward { branch: w.branch@ }))
                })
                &&& (old(self).completion_action@ == "discard"@ ==> {
                    &&& (final(self).worktree_result matches Some(t) && t@ == "discarded (branch "@
                        + w.branch@ + " kept)"@)
                    &&& actions@.len() == 0
                })
                &&& (old(self).completion_action@ != "merge"@ && old(self).completion_action@
                    != "discard"@ ==> {
                    &&& (final(self).worktree_result matches Some(t) && t@ == "review branch "@
                        + w.branch@ + "\n  git log "@ + w.base_branch@ + ".."@ + w.branch@
                        + "\n  git merge "@ + w.branch@)
                    &&& actions@.len() == 0
                })
            },
    {
        proof {
            reveal_strlit("merge");
            reveal_strlit("discard");
            assert("merge"@[0] == 'm');
            assert("discard"@[0] == 'd');
        }
        let mut actions: Vec<VcsAction> = Vec::new();
        match wt {
            None => actions,
            Some(w) => {
                if str_eq(self.completion_action.as_str(), "merge") {
                    let mut note = "merged ".to_owned();
                    note.append(w.branch.as_str());
                    note.append(" into ");
                    note.append(w.base_branch.as_str());
                    self.worktree_result = Some(note);
                    actions.push(VcsAction::Checkout { branch: clone_string(&w.base_branch) });
                    actions.push(VcsAction::MergeFastForward { branch: clone_string(&w.branch) });
                    actions
                } else if str_eq(self.completion_action.as_str(), "discard") {
                    let mut note = "discarded (branch ".to_owned();
                    note.append(w.branch.as_str());
                    note.append(" kept)");
                    self.worktree_result = Some(note);
                    actions
                } else {
                    let mut note = "review branch ".to_owned();
                    note.append(w.branch.as_str());
                    note.append("\n  git log ");
                    note.append(w.base_branch.as_str());
                    note.append("..");
                    note.append(w.branch.as_str());
                    note.append("\n  git merge ");
                    note.append(w.branch.as_str());
                    self.worktree_result = Some(note);
                    actions
                }
            },
        }
    }

    /// A fast-forward merge failed: the branch is preserved for manual
    /// merging, and the recorded outcome says so. Failure is reported, not
    /// fatal.
    pub fn note_merge_failure(&mut self, branch: &str)
        ensures
            *final(self) == (Orchestrator {
                worktree_result: final(self).worktree_result,
                ..*old(self)
            }),
            final(self).worktree_result matches Some(t) && t@ == "merge failed; branch "@ + branch@
                + " available for manual merge"@,
    {
        let mut note = "merge failed; branch ".to_owned();
        note.append(branch);
        note.append(" available for manual merge");
        self.worktree_result = Some(note);
    }

    /// Decide what follows a finished session: a completed session or the
    /// shutdown flag or the session limit stops the run; otherwise the run
    /// sleeps when a pause is configured, or starts the next session at
    /// once.
    pub fn after_session(&mut self) -> (r: NextStep)
        requires
            old(self).phase == Phase::Completed || old(self).phase == Phase::Aborted || old(
                self,
            ).phase == Phase::Errored,
            old(self).wf(),
        ensures
            final(self).wf(),
            *final(self) == (Orchestrator { phase: final(self).phase, ..*old(self) }),
            old(self).shutdown ==> r == NextStep::Stop,
            old(self).completed ==> r == NextStep::Stop,
            r == NextStep::Stop <==> final(self).phase == Phase::ShuttingDown,
            r == NextStep::SleepThenContinue <==> final(self).phase == Phase::Sleeping,
            r == NextStep::ContinueNow <==> final(self).phase == Phase::Idle,
            r == NextStep::Stop <==> (old(self).completed || old(self).shutdown || old(
                self,
            ).sessions_started as int >= spec_session_limit(old(self).config)),
            r == NextStep::SleepThenContinue <==> (!old(self).completed && !old(self).shutdown
                && (old(self).sessions_started as int) < spec_session_limit(old(self).config) && old(
                self,
            ).config.sleep_secs > 0),
    {
        let limit: u32 = if self.config.max_sessions == 0 {
            u32::MAX
        } else {
            self.config.max_sessions
        };
        if self.completed || self.shutdown || self.sessions_started >= limit {
            self.phase = Phase::ShuttingDown;
            NextStep::Stop
        } else if self.config.sleep_secs > 0 {
            self.phase = Phase::Sleeping;
            NextStep::SleepThenContinue
        } else {
            self.phase = Phase::Idle;
            NextStep::ContinueNow
        }
    }

    /// End the sleep on its first wake-up event: the timer, a queued input
    /// line, the interrupt, or the end of input.
    pub fn end_sleep(&mut self, outcome: SleepOutcome) -> (out: Vec<Directive>)
        requires
            old(self).phase == Phase::Sleeping,
            old(self).wf(),
        ensures
            final(self).wf(),
            old(self).shutdown ==> final(self).shutdown,
            outcome matches SleepOutcome::TimerElapsed ==> *final(self) == (Orchestrator {
                phase: Phase::Idle,
                ..*old(self)
            }) && out@.len() == 0,
            outcome matches SleepOutcome::InputLine(t) ==> {
                &&& (crate::worktree::spec_trim(t@).len() == 0 ==> *final(self) == (Orchestrator {
                    phase: Phase::Idle,
                    ..*old(self)
                }) && out@.len() == 0)
                &&& (crate::worktree::spec_trim(t@).len() > 0 ==> *final(self) == (Orchestrator {
                    phase: Phase::Idle,
                    pending_input: final(self).pending_input,
                    ..*old(self)
                }) && (final(self).pending_input matches Some(p) && p@ == t@) && out@.len() == 1 && (
                out@[0] matches Directive::Emit { text, newline } && text@ == "Received: "@ + t@
                    && newline))
            },
            outcome matches SleepOutcome::Interrupt ==> *final(self) == (Orchestrator {
                phase: Phase::ShuttingDown,
                shutdown: true,
                interrupted: true,
                ..*old(self)
            }) && out@.len() == 0,
            outcome matches SleepOutcome::EndOfInput ==> *final(self) == (Orchestrator {
                phase: Phase::ShuttingDown,
                shutdown: true,
                ..*old(self)
            }) && out@.len() == 0,
    {
        let mut out: Vec<Directive> = Vec::new();
        match outcome {
            SleepOutcome::TimerElapsed => {
                self.phase = Phase::Idle;
            },
            SleepOutcome::InputLine(t) => {
                let trimmed = crate::worktree::trim_spaces(t.as_str());
                if !trimmed.as_str().is_empty() {
                    let mut note = "Received: ".to_owned();
                    note.append(t.as_str());
                    out.push(Directive::Emit { text: note, newline: true });
                    self.pending_input = Some(t);
                }
                self.phase = Phase::Idle;
            },
            SleepOutcome::Interrupt => {
                self.shutdown = true;
                self.interrupted = true;
                self.phase = Phase::ShuttingDown;
            },
            SleepOutcome::EndOfInput => {
                self.shutdown = true;
                self.phase = Phase::ShuttingDown;
            },
        }
        out
    }

    /// The backend acknowledged shutdown, or the bounded wait for it gave
    /// up: either way the run is over.
    pub fn finish(&mut self)
        requires
            old(self).phase == Phase::ShuttingDown,
        ensures
            *final(self) == (Orchestrator { phase: Phase::Done, ..*old(self) }),
    {
        self.phase = Phase::Done;
    }
}

/// The number of the `nth` session started over a history of `h` records:
/// the history continues without a gap.
pub open spec fn spec_session_number(h: int, nth: int) -> int {
    h + nth
}

/// Session numbers are strictly increasing and gap-free within one
/// workspace history, even across a crash: a crashed session leaves its
/// initial record on disk, so the next run counts it and continues after
/// it.
pub proof fn lemma_session_numbers_gap_free(h: int, m: int, n: int)
    requires
        1 <= m < n,
    ensures
        spec_session_number(h, m) < spec_session_number(h, n),
        spec_session_number(h, m + 1) == spec_session_number(h, m) + 1,
{
}

/// Once the shutdown flag is set, no further session can start.
pub proof fn lemma_shutdown_blocks_start(o: Orchestrator)
    ensures
        o.shutdown ==> !o.spec_can_start(),
{
}

/// Take the value out of an optional slot.
fn take_option(slot: &mut Option<String>) -> (r: Option<String>)
    ensures
        r == *old(slot),
        *final(slot) is None,
{
    let mut tmp: Option<String> = None;
    core::mem::swap(slot, &mut tmp);
    tmp
}

/// A copy of an optional string.
fn clone_opt_string(o: &Option<String>) -> (r: Option<String>)
    ensures
        r == *o,
{
    match o {
        Some(s) => Some(s.clone()),
        None => None,
    }
}

/// A copy of an optional token snapshot.
fn clone_opt_tokens(o: &Option<TokenSnapshot>) -> (r: Option<TokenSnapshot>)
    ensures
        r == *o,
{
    match o {
        Some(t) => Some(
            TokenSnapshot {
                input_tokens: t.input_tokens,
                cached_input_tokens: t.cached_input_tokens,
                output_tokens: t.output_tokens,
                reasoning_output_tokens: t.reasoning_output_tokens,
                context_window: t.context_window,
            },
        ),
        None => None,
    }
}

} // verus!
