use openbot::history::{SessionEvent, SessionRecord};
use openbot::session_view::{
    history_tool_step, page_bounds, paginate, parse_section, render_session_list,
    render_session_view, HistoryStep, Section,
};
use openbot::timefmt::{format_datetime, format_datetime_minutes};

fn record(n: u64) -> SessionRecord {
    SessionRecord {
        session_id: format!("id-{n}"),
        session_number: n,
        started_at: 0,
        duration_secs: 61,
        model: "m1".to_string(),
        prompt_summary: "p".to_string(),
        response_summary: "fixed the bug".to_string(),
        action: None,
        tokens: None,
        command_count: Some(2),
    }
}

fn lines(n: usize) -> Vec<String> {
    (0..n).map(|i| format!("line{i}")).collect()
}

#[test]
fn pagination_last_page_by_default() {
    // offset = 0 shows the last min(limit, total) lines.
    let ls = lines(10);
    let page = paginate(&ls, 0, 3);
    assert_eq!(page, vec!["line7", "line8", "line9"]);
    let page = paginate(&ls, 0, 50);
    assert_eq!(page.len(), 10);
}

#[test]
fn pagination_window() {
    // offset = O, limit = L over T lines shows [max(0, T-O-L), T-O).
    let ls = lines(10);
    let page = paginate(&ls, 4, 3);
    assert_eq!(page, vec!["line3", "line4", "line5"]);
    let page = paginate(&ls, 8, 5);
    assert_eq!(page, vec!["line0", "line1"]);
    let page = paginate(&ls, 12, 5);
    assert_eq!(page.len(), 0);
    assert_eq!(page_bounds(10, 4, 3), (3, 6));
    assert_eq!(page_bounds(10, 0, 3), (7, 10));
}

#[test]
fn datetime_formatting_at_epoch() {
    assert_eq!(format_datetime(0), "1970-01-01 00:00:00");
    assert_eq!(format_datetime_minutes(0), "1970-01-01 00:00");
    assert_eq!(format_datetime(86400), "1970-01-02 00:00:00");
}

#[test]
fn session_list_rendering() {
    let records = vec![record(1), record(2)];
    let out = render_session_list(&records);
    assert!(out.starts_with("Session | Date | Duration | Commands | Summary\n"));
    assert!(out.contains("1 | 1970-01-01 00:00 | 61s | 2 | fixed the bug"));
    assert!(out.ends_with("2 sessions total. Use action='view' with session_number to see details."));
}

#[test]
fn session_view_rendering() {
    let rec = record(3);
    let events = vec![
        SessionEvent::Command {
            command: "ls -la".to_string(),
            exit_code: 0,
            duration_ms: 12,
        },
        SessionEvent::Message {
            content: "done".to_string(),
        },
    ];
    let out = render_session_view(&rec, &events, Section::All, 0, 50);
    assert!(out.starts_with("# Session 3\n"));
    assert!(out.contains("Date: 1970-01-01 00:00:00 | Model: m1 | Duration: 61s"));
    assert!(out.contains("## Commands\n$ ls -la [ok] (12ms)"));
    assert!(out.contains("## Full Response\ndone"));
    assert!(out.contains("[lines 1-9 of 9]"));
}

#[test]
fn session_view_pagination_footer() {
    let rec = record(3);
    let events = vec![SessionEvent::Message {
        content: "a\nb\nc\nd\ne".to_string(),
    }];
    // Section::Response: heading + 5 lines + 4 header lines = 10 lines.
    let out = render_session_view(&rec, &events, Section::Response, 2, 3);
    assert!(out.contains("[lines 6-8 of 10]"));
    assert!(out.contains("Earlier content: offset=5, limit=3"));
}

#[test]
fn parse_section_values() {
    assert_eq!(parse_section("response"), Section::Response);
    assert_eq!(parse_section("commands"), Section::Commands);
    assert_eq!(parse_section("all"), Section::All);
    assert_eq!(parse_section("nonsense"), Section::All);
}

#[test]
fn history_tool_dispatch() {
    let records = vec![record(1), record(2)];
    match history_tool_step("list", 0, &records) {
        HistoryStep::Done(t) => assert!(t.contains("2 sessions total")),
        _ => panic!("list must answer directly"),
    }
    match history_tool_step("view", 0, &records) {
        HistoryStep::Done(t) => {
            assert_eq!(t, "session_number is required for the 'view' action.")
        }
        _ => panic!("view without a number must answer directly"),
    }
    match history_tool_step("view", 9, &records) {
        HistoryStep::Done(t) => assert_eq!(t, "Session 9 not found."),
        _ => panic!("missing session must answer directly"),
    }
    match history_tool_step("view", 2, &records) {
        HistoryStep::LoadEvents { session_id, index } => {
            assert_eq!(session_id, "id-2");
            assert_eq!(index, 1);
        }
        _ => panic!("view of a known session must load its journal"),
    }
    match history_tool_step("drop", 0, &records) {
        HistoryStep::Done(t) => assert_eq!(t, "Unknown action 'drop'. Use 'list' or 'view'."),
        _ => panic!("unknown action must answer directly"),
    }
    let empty: Vec<SessionRecord> = Vec::new();
    match history_tool_step("list", 0, &empty) {
        HistoryStep::Done(t) => assert_eq!(t, "No previous sessions found."),
        _ => panic!("empty history must answer directly"),
    }
}
