use openbot::history::{
    decode_event, decode_record, encode_event, encode_record, extract_commands, load_events,
    recent, reconstruct_response, sort_records, SessionEvent, SessionRecord, TokenSnapshot,
};

fn sample_record(n: u64) -> SessionRecord {
    SessionRecord {
        session_id: format!("sess-{n}"),
        session_number: n,
        started_at: 1700000000 + n as i64,
        duration_secs: 42,
        model: "gpt-test".to_string(),
        prompt_summary: "do the thing".to_string(),
        response_summary: "did the thing".to_string(),
        action: Some("review branch x".to_string()),
        tokens: Some(TokenSnapshot {
            input_tokens: 10,
            cached_input_tokens: 2,
            output_tokens: 5,
            reasoning_output_tokens: 1,
            context_window: Some(200000),
        }),
        command_count: Some(3),
    }
}

#[test]
fn event_roundtrip_message() {
    let e = SessionEvent::Message {
        content: "hello\nworld\twith\\escapes".to_string(),
    };
    let line = encode_event(&e);
    assert!(!line.contains('\n'));
    match decode_event(&line) {
        Some(SessionEvent::Message { content }) => {
            assert_eq!(content, "hello\nworld\twith\\escapes")
        }
        _ => panic!("message did not round-trip"),
    }
}

#[test]
fn event_roundtrip_command() {
    let e = SessionEvent::Command {
        command: "cargo test --all".to_string(),
        exit_code: -1,
        duration_ms: 1234,
    };
    let line = encode_event(&e);
    match decode_event(&line) {
        Some(SessionEvent::Command {
            command,
            exit_code,
            duration_ms,
        }) => {
            assert_eq!(command, "cargo test --all");
            assert_eq!(exit_code, -1);
            assert_eq!(duration_ms, 1234);
        }
        _ => panic!("command did not round-trip"),
    }
}

#[test]
fn event_roundtrip_tokens() {
    let e = SessionEvent::TokenCount {
        input_tokens: 100,
        cached_input_tokens: 0,
        output_tokens: 50,
        reasoning_output_tokens: 7,
        context_window: None,
    };
    let line = encode_event(&e);
    match decode_event(&line) {
        Some(SessionEvent::TokenCount {
            input_tokens,
            context_window,
            ..
        }) => {
            assert_eq!(input_tokens, 100);
            assert_eq!(context_window, None);
        }
        _ => panic!("token count did not round-trip"),
    }
}

#[test]
fn malformed_line_is_skipped() {
    // Three well-formed lines plus one malformed line load as exactly three
    // events.
    let mut content = String::new();
    content.push_str(&encode_event(&SessionEvent::Message {
        content: "a".to_string(),
    }));
    content.push('\n');
    content.push_str(&encode_event(&SessionEvent::Message {
        content: "b".to_string(),
    }));
    content.push('\n');
    content.push_str(&encode_event(&SessionEvent::Command {
        command: "ls".to_string(),
        exit_code: 0,
        duration_ms: 5,
    }));
    content.push('\n');
    content.push_str("this is not a valid journal line");
    let events = load_events(&content);
    assert_eq!(events.len(), 3);
}

#[test]
fn decode_rejects_garbage() {
    assert!(decode_event("").is_none());
    assert!(decode_event("msg").is_none());
    assert!(decode_event("cmd\tnotanumber\t5\tls").is_none());
    assert!(decode_event("tok\t1\t2\t3").is_none());
}

#[test]
fn record_roundtrip() {
    let r = sample_record(7);
    let line = encode_record(&r);
    let back = decode_record(&line).expect("record must round-trip");
    assert_eq!(back.session_id, "sess-7");
    assert_eq!(back.session_number, 7);
    assert_eq!(back.started_at, 1700000007);
    assert_eq!(back.duration_secs, 42);
    assert_eq!(back.model, "gpt-test");
    assert_eq!(back.action.as_deref(), Some("review branch x"));
    let t = back.tokens.expect("tokens kept");
    assert_eq!(t.input_tokens, 10);
    assert_eq!(t.context_window, Some(200000));
    assert_eq!(back.command_count, Some(3));
}

#[test]
fn record_roundtrip_empty_options() {
    let mut r = sample_record(1);
    r.action = None;
    r.tokens = None;
    r.command_count = None;
    let line = encode_record(&r);
    let back = decode_record(&line).expect("record must round-trip");
    assert!(back.action.is_none());
    assert!(back.tokens.is_none());
    assert!(back.command_count.is_none());
}

#[test]
fn reconstruct_joins_messages_in_order() {
    let events = vec![
        SessionEvent::Message {
            content: "Hel".to_string(),
        },
        SessionEvent::Command {
            command: "ls".to_string(),
            exit_code: 0,
            duration_ms: 1,
        },
        SessionEvent::Message {
            content: "lo".to_string(),
        },
    ];
    assert_eq!(reconstruct_response(&events), "Hello");
}

#[test]
fn extract_commands_filters() {
    let events = vec![
        SessionEvent::Message {
            content: "x".to_string(),
        },
        SessionEvent::Command {
            command: "make".to_string(),
            exit_code: 2,
            duration_ms: 9,
        },
    ];
    let cmds = extract_commands(&events);
    assert_eq!(cmds.len(), 1);
    assert_eq!(cmds[0].command, "make");
    assert_eq!(cmds[0].exit_code, 2);
}

#[test]
fn sort_and_recent() {
    let records = vec![sample_record(3), sample_record(1), sample_record(2)];
    let sorted = sort_records(records);
    assert_eq!(sorted.len(), 3);
    assert_eq!(sorted[0].session_number, 1);
    assert_eq!(sorted[1].session_number, 2);
    assert_eq!(sorted[2].session_number, 3);

    let records = vec![sample_record(3), sample_record(1), sample_record(2)];
    let last_two = recent(records, 2);
    assert_eq!(last_two.len(), 2);
    assert_eq!(last_two[0].session_number, 2);
    assert_eq!(last_two[1].session_number, 3);
}
