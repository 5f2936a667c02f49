//! The per-session event journal: event types, the one-event-per-line
//! format, and the readers that recover a session's transcript and commands.
//!
//! Each session owns a directory holding a metadata record and an append-only
//! event stream; one event is one line, so a crash loses at most the line in
//! flight, and a corrupt line is skipped on read without losing the rest.

use vstd::prelude::*;

verus! {

use crate::numfmt::dec_of;
use crate::numfmt::dec_of_int;
use crate::numfmt::is_dec_digit;
use crate::numfmt::lemma_dec_of_canon;
use crate::numfmt::lemma_parse_i64_roundtrip;
use crate::numfmt::lemma_parse_u64_roundtrip;
use crate::numfmt::parse_i32;
use crate::numfmt::parse_i64;
use crate::numfmt::parse_i64_spec;
use crate::numfmt::parse_u64;
use crate::numfmt::parse_u64_spec;
use crate::numfmt::i32_to_string;
use crate::numfmt::i64_to_string;
use crate::numfmt::u64_to_string;
use crate::text::esc;
use crate::text::escape_field;
use crate::text::join_with;
use crate::text::join_with_char;
use crate::text::lemma_esc_clean;
use crate::text::lemma_split_join;
use crate::text::lemma_split_on_len;
use crate::text::lemma_unesc_esc;
use crate::text::split_on;
use crate::text::split_on_char;
use crate::text::str_eq;
use crate::text::unesc;
use crate::text::unescape_field;

/// A command executed during a session.
#[derive(Clone)]
pub struct CommandEntry {
    pub command: String,
    pub exit_code: i32,
    pub duration_ms: u64,
}

/// Token usage captured at the end of a session.
#[derive(Clone)]
pub struct TokenSnapshot {
    pub input_tokens: i64,
    pub cached_input_tokens: i64,
    pub output_tokens: i64,
    pub reasoning_output_tokens: i64,
    pub context_window: Option<i64>,
}

/// An event captured during a session and streamed to the journal.
#[derive(Clone)]
pub enum SessionEvent {
    Message { content: String },
    Command { command: String, exit_code: i32, duration_ms: u64 },
    TokenCount {
        input_tokens: i64,
        cached_input_tokens: i64,
        output_tokens: i64,
        reasoning_output_tokens: i64,
        context_window: Option<i64>,
    },
}

/// The mathematical value of a journal event.
pub ghost enum EventV {
    Message { content: Seq<char> },
    Command { command: Seq<char>, exit_code: int, duration_ms: int },
    TokenCount {
        input_tokens: int,
        cached_input_tokens: int,
        output_tokens: int,
        reasoning_output_tokens: int,
        context_window: Option<int>,
    },
}

pub open spec fn opt_i64_v(o: Option<i64>) -> Option<int> {
    match o {
        Some(v) => Some(v as int),
        None => None,
    }
}

impl View for SessionEvent {
    type V = EventV;

    open spec fn view(&self) -> EventV {
        match self {
            SessionEvent::Message { content } => EventV::Message { content: content@ },
            SessionEvent::Command { command, exit_code, duration_ms } => EventV::Command {
                command: command@,
                exit_code: *exit_code as int,
                duration_ms: *duration_ms as int,
            },
            SessionEvent::TokenCount {
                input_tokens,
                cached_input_tokens,
                output_tokens,
                reasoning_output_tokens,
                context_window,
            } => EventV::TokenCount {
                input_tokens: *input_tokens as int,
                cached_input_tokens: *cached_input_tokens as int,
                output_tokens: *output_tokens as int,
                reasoning_output_tokens: *reasoning_output_tokens as int,
                context_window: opt_i64_v(*context_window),
            },
        }
    }
}

impl DeepView for SessionEvent {
    type V = EventV;

    open spec fn deep_view(&self) -> EventV {
        self.view()
    }
}

/// Whether an event's numbers fit the machine types the library uses.
pub open spec fn event_wf(e: EventV) -> bool {
    match e {
        EventV::Message { .. } => true,
        EventV::Command { exit_code, duration_ms, .. } => {
            &&& i32::MIN <= exit_code <= i32::MAX
            &&& 0 <= duration_ms <= u64::MAX
        },
        EventV::TokenCount {
            input_tokens,
            cached_input_tokens,
            output_tokens,
            reasoning_output_tokens,
            context_window,
        } => {
            &&& i64::MIN <= input_tokens <= i64::MAX
            &&& i64::MIN <= cached_input_tokens <= i64::MAX
            &&& i64::MIN <= output_tokens <= i64::MAX
            &&& i64::MIN <= reasoning_output_tokens <= i64::MAX
            &&& (context_window matches Some(v) ==> i64::MIN <= v <= i64::MAX)
        },
    }
}

/// The value of any in-memory event is well-formed.
pub proof fn lemma_event_view_wf(e: &SessionEvent)
    ensures
        event_wf(e@),
{
}

/// An optional number written as one field: `_` for absent.
pub open spec fn enc_opt_int(o: Option<int>) -> Seq<char> {
    match o {
        None => seq!['_'],
        Some(v) => dec_of_int(v),
    }
}

/// One journal line: a tag and the event's fields, tab-separated, with text
/// fields escaped onto the single line.
pub open spec fn enc_event(e: EventV) -> Seq<char> {
    match e {
        EventV::Message { content } => join_with(seq!["msg"@, esc(content)], '\t'),
        EventV::Command { command, exit_code, duration_ms } => join_with(
            seq!["cmd"@, dec_of_int(exit_code), dec_of(duration_ms), esc(command)],
            '\t',
        ),
        EventV::TokenCount {
            input_tokens,
            cached_input_tokens,
            output_tokens,
            reasoning_output_tokens,
            context_window,
        } => join_with(
            seq![
                "tok"@,
                dec_of_int(input_tokens),
                dec_of_int(cached_input_tokens),
                dec_of_int(output_tokens),
                dec_of_int(reasoning_output_tokens),
                enc_opt_int(context_window),
            ],
            '\t',
        ),
    }
}

/// Reading one optional-number field back.
pub open spec fn dec_opt_int(s: Seq<char>) -> Option<Option<int>> {
    if s == seq!['_'] {
        Some(None)
    } else {
        match parse_i64_spec(s) {
            Some(v) => Some(Some(v as int)),
            None => None,
        }
    }
}

/// Reading one journal line back; `None` for anything no event writes.
pub open spec fn dec_event(line: Seq<char>) -> Option<EventV> {
    let parts = split_on(line, '\t');
    if parts[0] == "msg"@ {
        if parts.len() == 2 {
            match unesc(parts[1]) {
                Some(c) => Some(EventV::Message { content: c }),
                None => None,
            }
        } else {
            None
        }
    } else if parts[0] == "cmd"@ {
        if parts.len() == 4 {
            match (parse_i64_spec(parts[1]), parse_u64_spec(parts[2]), unesc(parts[3])) {
                (Some(exit), Some(dur), Some(cmd)) => {
                    if i32::MIN <= exit <= i32::MAX {
                        Some(EventV::Command {
                            command: cmd,
                            exit_code: exit as int,
                            duration_ms: dur as int,
                        })
                    } else {
                        None
                    }
                },
                _ => None,
            }
        } else {
            None
        }
    } else if parts[0] == "tok"@ {
        if parts.len() == 6 {
            match (
                parse_i64_spec(parts[1]),
                parse_i64_spec(parts[2]),
                parse_i64_spec(parts[3]),
                parse_i64_spec(parts[4]),
                dec_opt_int(parts[5]),
            ) {
                (Some(a), Some(b), Some(c), Some(d), Some(ctx)) => Some(EventV::TokenCount {
                    input_tokens: a as int,
                    cached_input_tokens: b as int,
                    output_tokens: c as int,
                    reasoning_output_tokens: d as int,
                    context_window: ctx,
                }),
                _ => None,
            }
        } else {
            None
        }
    } else {
        None
    }
}

/// A field that can sit between tabs on one line: free of the separators.
pub open spec fn field_clean(s: Seq<char>) -> bool {
    forall|i: int| 0 <= i < s.len() ==> s[i] != '\t' && s[i] != '\n' && s[i] != '\r'
}

pub proof fn lemma_dec_of_clean(n: int)
    requires
        n >= 0,
    ensures
        field_clean(dec_of(n)),
        !dec_of(n).contains('\t'),
{
    lemma_dec_of_canon(n);
    assert forall|i: int| 0 <= i < dec_of(n).len() implies dec_of(n)[i] != '\t' && dec_of(n)[i]
        != '\n' && dec_of(n)[i] != '\r' by {
        assert(is_dec_digit(dec_of(n)[i]));
    }
    if dec_of(n).contains('\t') {
        let i = choose|i: int| 0 <= i < dec_of(n).len() && dec_of(n)[i] == '\t';
    }
}

pub proof fn lemma_dec_of_int_clean(n: int)
    ensures
        field_clean(dec_of_int(n)),
        !dec_of_int(n).contains('\t'),
{
    if n < 0 {
        lemma_dec_of_clean(-n);
        assert forall|i: int| 0 <= i < dec_of_int(n).len() implies dec_of_int(n)[i] != '\t'
            && dec_of_int(n)[i] != '\n' && dec_of_int(n)[i] != '\r' by {
            if i > 0 {
                assert(dec_of_int(n)[i] == dec_of(-n)[i - 1]);
            }
        }
    } else {
        lemma_dec_of_clean(n);
    }
    if dec_of_int(n).contains('\t') {
        let i = choose|i: int| 0 <= i < dec_of_int(n).len() && dec_of_int(n)[i] == '\t';
    }
}

pub proof fn lemma_esc_field_clean(s: Seq<char>)
    ensures
        field_clean(esc(s)),
        !esc(s).contains('\t'),
{
    lemma_esc_clean(s);
    if esc(s).contains('\t') {
        let i = choose|i: int| 0 <= i < esc(s).len() && esc(s)[i] == '\t';
    }
}

pub proof fn lemma_enc_opt_clean(o: Option<int>)
    ensures
        field_clean(enc_opt_int(o)),
        !enc_opt_int(o).contains('\t'),
{
    match o {
        None => {
            if enc_opt_int(o).contains('\t') {
                let i = choose|i: int| 0 <= i < 1 && enc_opt_int(o)[i] == '\t';
            }
        },
        Some(v) => {
            lemma_dec_of_int_clean(v);
        },
    }
}

/// A joined line of clean fields contains no newline, so one event stays one
/// line of the journal.
pub proof fn lemma_join_clean(parts: Seq<Seq<char>>)
    requires
        forall|i: int| 0 <= i < parts.len() ==> field_clean(#[trigger] parts[i]),
    ensures
        forall|i: int|
            0 <= i < join_with(parts, '\t').len() ==> join_with(parts, '\t')[i] != '\n'
                && join_with(parts, '\t')[i] != '\r',
    decreases parts.len(),
{
    if parts.len() <= 1 {
    } else {
        let rest = parts.subrange(1, parts.len() as int);
        assert(forall|i: int| 0 <= i < rest.len() ==> rest[i] == parts[i + 1]);
        lemma_join_clean(rest);
        let j = join_with(parts, '\t');
        assert(j == parts[0] + seq!['\t'] + join_with(rest, '\t'));
        assert forall|i: int| 0 <= i < j.len() implies j[i] != '\n' && j[i] != '\r' by {
            if i < parts[0].len() {
                assert(j[i] == parts[0][i]);
            } else if i == parts[0].len() {
                assert(j[i] == '\t');
            } else {
                assert(j[i] == join_with(rest, '\t')[i - parts[0].len() - 1]);
            }
        }
    }
}

/// Every journal line an event writes is newline-free.
pub proof fn lemma_enc_event_line(e: EventV)
    ensures
        !enc_event(e).contains('\n'),
{
    reveal_strlit("msg");
    reveal_strlit("cmd");
    reveal_strlit("tok");
    let fields = enc_event_fields(e);
    assert(enc_event(e) == join_with(fields, '\t'));
    lemma_enc_fields_clean(e);
    lemma_join_clean(fields);
    if enc_event(e).contains('\n') {
        let i = choose|i: int| 0 <= i < enc_event(e).len() && enc_event(e)[i] == '\n';
    }
}

/// The field list behind `enc_event`.
pub open spec fn enc_event_fields(e: EventV) -> Seq<Seq<char>> {
    match e {
        EventV::Message { content } => seq!["msg"@, esc(content)],
        EventV::Command { command, exit_code, duration_ms } => seq![
            "cmd"@,
            dec_of_int(exit_code),
            dec_of(duration_ms),
            esc(command),
        ],
        EventV::TokenCount {
            input_tokens,
            cached_input_tokens,
            output_tokens,
            reasoning_output_tokens,
            context_window,
        } => seq![
            "tok"@,
            dec_of_int(input_tokens),
            dec_of_int(cached_input_tokens),
            dec_of_int(output_tokens),
            dec_of_int(reasoning_output_tokens),
            enc_opt_int(context_window),
        ],
    }
}

proof fn lemma_enc_fields_clean(e: EventV)
    requires
        event_wf(e) || true,
    ensures
        forall|i: int|
            0 <= i < enc_event_fields(e).len() ==> field_clean(#[trigger] enc_event_fields(e)[i])
                && !enc_event_fields(e)[i].contains('\t'),
{
    reveal_strlit("msg");
    reveal_strlit("cmd");
    reveal_strlit("tok");
    assert(field_clean("msg"@) && field_clean("cmd"@) && field_clean("tok"@));
    assert(!"msg"@.contains('\t')) by {
        if "msg"@.contains('\t') {
            let i = choose|i: int| 0 <= i < "msg"@.len() && "msg"@[i] == '\t';
        }
    }
    assert(!"cmd"@.contains('\t')) by {
        if "cmd"@.contains('\t') {
            let i = choose|i: int| 0 <= i < "cmd"@.len() && "cmd"@[i] == '\t';
        }
    }
    assert(!"tok"@.contains('\t')) by {
        if "tok"@.contains('\t') {
            let i = choose|i: int| 0 <= i < "tok"@.len() && "tok"@[i] == '\t';
        }
    }
    match e {
        EventV::Message { content } => {
            lemma_esc_field_clean(content);
        },
        EventV::Command { command, exit_code, duration_ms } => {
            lemma_dec_of_int_clean(exit_code);
            if duration_ms >= 0 {
                lemma_dec_of_clean(duration_ms);
            } else {
                lemma_dec_of_neg_clean(duration_ms);
            }
            lemma_esc_field_clean(command);
        },
        EventV::TokenCount {
            input_tokens,
            cached_input_tokens,
            output_tokens,
            reasoning_output_tokens,
            context_window,
        } => {
            lemma_dec_of_int_clean(input_tokens);
            lemma_dec_of_int_clean(cached_input_tokens);
            lemma_dec_of_int_clean(output_tokens);
            lemma_dec_of_int_clean(reasoning_output_tokens);
            lemma_enc_opt_clean(context_window);
        },
    }
}

/// `dec_of` on a negative argument still lands in the digit branch base case.
proof fn lemma_dec_of_neg_clean(n: int)
    requires
        n < 0,
    ensures
        field_clean(dec_of(n)),
        !dec_of(n).contains('\t'),
{
    assert(dec_of(n) == seq![crate::numfmt::dec_digit(n)]);
    assert(field_clean(dec_of(n)));
    if dec_of(n).contains('\t') {
        let i = choose|i: int| 0 <= i < 1 && dec_of(n)[i] == '\t';
    }
}

/// Reading back what was written gives the event back.
pub proof fn lemma_event_roundtrip(e: EventV)
    requires
        event_wf(e),
    ensures
        dec_event(enc_event(e)) == Some(e),
{
    reveal_strlit("msg");
    reveal_strlit("cmd");
    reveal_strlit("tok");
    let fields = enc_event_fields(e);
    lemma_enc_fields_clean(e);
    lemma_split_join(fields, '\t');
    assert(split_on(enc_event(e), '\t') == fields);
    match e {
        EventV::Message { content } => {
            lemma_unesc_esc(content);
        },
        EventV::Command { command, exit_code, duration_ms } => {
            lemma_parse_i64_roundtrip(exit_code as i64);
            lemma_parse_u64_roundtrip(duration_ms as u64);
            lemma_unesc_esc(command);
            assert(fields[0] != "msg"@) by {
                assert("cmd"@[0] == 'c' && "msg"@[0] == 'm');
            }
        },
        EventV::TokenCount {
            input_tokens,
            cached_input_tokens,
            output_tokens,
            reasoning_output_tokens,
            context_window,
        } => {
            lemma_parse_i64_roundtrip(input_tokens as i64);
            lemma_parse_i64_roundtrip(cached_input_tokens as i64);
            lemma_parse_i64_roundtrip(output_tokens as i64);
            lemma_parse_i64_roundtrip(reasoning_output_tokens as i64);
            assert(fields[0] != "msg"@) by {
                assert("tok"@[0] == 't' && "msg"@[0] == 'm');
            }
            assert(fields[0] != "cmd"@) by {
                assert("tok"@[0] == 't' && "cmd"@[0] == 'c');
            }
            match context_window {
                None => {
                    assert(enc_opt_int(context_window) == seq!['_']);
                },
                Some(v) => {
                    lemma_parse_i64_roundtrip(v as i64);
                    assert(dec_of_int(v) != seq!['_']) by {
                        lemma_dec_of_int_not_underscore(v);
                    }
                },
            }
        },
    }
}

proof fn lemma_dec_of_int_not_underscore(v: int)
    ensures
        dec_of_int(v) != seq!['_'],
{
    if v >= 0 {
        lemma_dec_of_canon(v);
        if dec_of_int(v) == seq!['_'] {
            assert(dec_of(v)[0] == '_');
            assert(is_dec_digit(dec_of(v)[0]));
        }
    } else {
        if dec_of_int(v) == seq!['_'] {
            assert((seq!['-'] + dec_of(-v))[0] == '-');
        }
    }
}

/// Serialize one event as one journal line.
pub fn encode_event(e: &SessionEvent) -> (r: String)
    ensures
        r@ == enc_event(e@),
        !r@.contains('\n'),
{
    let mut fields: Vec<String> = Vec::new();
    match e {
        SessionEvent::Message { content } => {
            fields.push("msg".to_owned());
            fields.push(escape_field(content.as_str()));
            proof {
                assert(fields.deep_view() =~~= enc_event_fields(e@));
            }
        },
        SessionEvent::Command { command, exit_code, duration_ms } => {
            fields.push("cmd".to_owned());
            fields.push(i32_to_string(*exit_code));
            fields.push(u64_to_string(*duration_ms));
            fields.push(escape_field(command.as_str()));
            proof {
                assert(fields.deep_view() =~~= enc_event_fields(e@));
            }
        },
        SessionEvent::TokenCount {
            input_tokens,
            cached_input_tokens,
            output_tokens,
            reasoning_output_tokens,
            context_window,
        } => {
            fields.push("tok".to_owned());
            fields.push(i64_to_string(*input_tokens));
            fields.push(i64_to_string(*cached_input_tokens));
            fields.push(i64_to_string(*output_tokens));
            fields.push(i64_to_string(*reasoning_output_tokens));
            match context_window {
                None => fields.push("_".to_owned()),
                Some(v) => fields.push(i64_to_string(*v)),
            }
            proof {
                reveal_strlit("_");
                assert("_"@ =~= seq!['_']);
                assert(fields.deep_view() =~~= enc_event_fields(e@));
            }
        },
    }
    proof {
        assert(fields.deep_view() == enc_event_fields(e@));
        lemma_enc_event_line(e@);
    }
    let r = join_with_char(&fields, '\t');
    r
}

/// Read one journal line; `None` for a line no event writes.
pub fn decode_event(line: &str) -> (r: Option<SessionEvent>)
    ensures
        match r {
            Some(e) => dec_event(line@) == Some(e@),
            None => dec_event(line@) is None,
        },
{
    let parts = split_on_char(line, '\t');
    proof {
        lemma_split_on_len(line@, '\t');
    }
    if str_eq(parts[0].as_str(), "msg") {
        if parts.len() == 2 {
            match unescape_field(parts[1].as_str()) {
                Some(c) => Some(SessionEvent::Message { content: c }),
                None => None,
            }
        } else {
            None
        }
    } else if str_eq(parts[0].as_str(), "cmd") {
        if parts.len() == 4 {
            let exit = parse_i32(parts[1].as_str());
            let dur = parse_u64(parts[2].as_str());
            let cmd = unescape_field(parts[3].as_str());
            match (exit, dur, cmd) {
                (Some(exit), Some(dur), Some(cmd)) => Some(SessionEvent::Command {
                    command: cmd,
                    exit_code: exit,
                    duration_ms: dur,
                }),
                _ => None,
            }
        } else {
            None
        }
    } else if str_eq(parts[0].as_str(), "tok") {
        if parts.len() == 6 {
            let a = parse_i64(parts[1].as_str());
            let b = parse_i64(parts[2].as_str());
            let c = parse_i64(parts[3].as_str());
            let d = parse_i64(parts[4].as_str());
            let ctx = decode_opt_i64(parts[5].as_str());
            match (a, b, c, d, ctx) {
                (Some(a), Some(b), Some(c), Some(d), Some(ctx)) => Some(SessionEvent::TokenCount {
                    input_tokens: a,
                    cached_input_tokens: b,
                    output_tokens: c,
                    reasoning_output_tokens: d,
                    context_window: ctx,
                }),
                _ => None,
            }
        } else {
            None
        }
    } else {
        None
    }
}

/// The events recovered from a sequence of journal lines: each line that
/// decodes contributes its event, in order; any other line is skipped.
pub open spec fn decoded_lines(lines: Seq<Seq<char>>) -> Seq<EventV>
    decreases lines.len(),
{
    if lines.len() == 0 {
        Seq::empty()
    } else {
        let rest = decoded_lines(lines.drop_last());
        match dec_event(lines.last()) {
            Some(e) => rest.push(e),
            None => rest,
        }
    }
}

/// What loading an event stream yields: its lines, decoded, bad lines
/// skipped.
pub open spec fn load_events_spec(content: Seq<char>) -> Seq<EventV> {
    decoded_lines(split_on(content, '\n'))
}

/// Parse a whole event stream. A malformed line never aborts the read: it is
/// skipped and the remaining events are still returned.
pub fn load_events(content: &str) -> (r: Vec<SessionEvent>)
    ensures
        r.deep_view() == load_events_spec(content@),
{
    let lines = split_on_char(content, '\n');
    let mut out: Vec<SessionEvent> = Vec::new();
    let mut i: usize = 0;
    proof {
        assert(lines.deep_view().subrange(0, 0) =~= Seq::<Seq<char>>::empty());
        assert(out.deep_view() =~= decoded_lines(lines.deep_view().subrange(0, 0)));
    }
    while i < lines.len()
        invariant
            i <= lines.len(),
            lines.deep_view().len() == lines.len(),
            out.deep_view() == decoded_lines(lines.deep_view().subrange(0, i as int)),
        decreases lines.len() - i,
    {
        proof {
            let pre = lines.deep_view().subrange(0, i as int);
            let cur = lines.deep_view().subrange(0, i as int + 1);
            assert(cur.drop_last() =~= pre);
            assert(cur.last() == lines.deep_view()[i as int]);
        }
        match decode_event(lines[i].as_str()) {
            Some(e) => {
                out.push(e);
                proof {
                    assert(out.deep_view() =~= decoded_lines(lines.deep_view().subrange(0,
                    i as int + 1)));
                }
            },
            None => {
                proof {
                    assert(out.deep_view() =~= decoded_lines(lines.deep_view().subrange(0,
                    i as int + 1)));
                }
            },
        }
        i = i + 1;
    }
    proof {
        assert(lines.deep_view().subrange(0, lines.deep_view().len() as int) =~=
        lines.deep_view());
    }
    out
}

/// The journal lines a sequence of events writes.
pub open spec fn enc_events_lines(events: Seq<EventV>) -> Seq<Seq<char>> {
    events.map(|i: int, e: EventV| enc_event(e))
}

/// A whole journal: one line per event.
pub open spec fn journal_of(events: Seq<EventV>) -> Seq<char> {
    join_with(enc_events_lines(events), '\n')
}

/// Decoding the lines of a well-formed journal yields the events themselves.
pub proof fn lemma_decoded_enc(events: Seq<EventV>)
    requires
        forall|i: int| 0 <= i < events.len() ==> event_wf(#[trigger] events[i]),
    ensures
        decoded_lines(enc_events_lines(events)) == events,
    decreases events.len(),
{
    let lines = enc_events_lines(events);
    if events.len() == 0 {
        assert(lines =~= Seq::<Seq<char>>::empty());
        assert(decoded_lines(lines) =~= events);
    } else {
        let es = events.drop_last();
        lemma_decoded_enc(es);
        assert(lines.drop_last() =~= enc_events_lines(es));
        assert(lines.last() == enc_event(events.last()));
        lemma_event_roundtrip(events.last());
        assert(decoded_lines(lines) =~= es.push(events.last()));
        assert(es.push(events.last()) =~= events);
    }
}

/// Loading a journal gives back exactly the events that were appended.
pub proof fn lemma_journal_roundtrip(events: Seq<EventV>)
    requires
        events.len() >= 1,
        forall|i: int| 0 <= i < events.len() ==> event_wf(#[trigger] events[i]),
    ensures
        load_events_spec(journal_of(events)) == events,
{
    let lines = enc_events_lines(events);
    assert forall|i: int| 0 <= i < lines.len() implies !(#[trigger] lines[i]).contains('\n') by {
        lemma_enc_event_line(events[i]);
    }
    lemma_split_join(lines, '\n');
    lemma_decoded_enc(events);
}

/// A journal of well-formed lines with one malformed line appended loads
/// back exactly the well-formed events: the bad line is skipped, nothing
/// else is lost.
pub proof fn lemma_load_skips_malformed(events: Seq<EventV>, bad: Seq<char>)
    requires
        forall|i: int| 0 <= i < events.len() ==> event_wf(#[trigger] events[i]),
        !bad.contains('\n'),
        dec_event(bad) is None,
    ensures
        load_events_spec(join_with(enc_events_lines(events).push(bad), '\n')) == events,
{
    let lines = enc_events_lines(events).push(bad);
    assert forall|i: int| 0 <= i < lines.len() implies !(#[trigger] lines[i]).contains('\n') by {
        if i < events.len() {
            assert(lines[i] == enc_events_lines(events)[i]);
            lemma_enc_event_line(events[i]);
        } else {
            assert(lines[i] == bad);
        }
    }
    lemma_split_join(lines, '\n');
    assert(lines.drop_last() =~= enc_events_lines(events));
    assert(lines.last() == bad);
    lemma_decoded_enc(events);
}

/// The mathematical value of a recorded command.
pub ghost struct CommandEntryV {
    pub command: Seq<char>,
    pub exit_code: int,
    pub duration_ms: int,
}

impl View for CommandEntry {
    type V = CommandEntryV;

    open spec fn view(&self) -> CommandEntryV {
        CommandEntryV {
            command: self.command@,
            exit_code: self.exit_code as int,
            duration_ms: self.duration_ms as int,
        }
    }
}

impl DeepView for CommandEntry {
    type V = CommandEntryV;

    open spec fn deep_view(&self) -> CommandEntryV {
        self.view()
    }
}

/// The full response text: all message contents, in order.
pub open spec fn spec_reconstruct(events: Seq<EventV>) -> Seq<char>
    decreases events.len(),
{
    if events.len() == 0 {
        Seq::empty()
    } else {
        spec_reconstruct(events.drop_last()) + (match events.last() {
            EventV::Message { content } => content,
            _ => Seq::<char>::empty(),
        })
    }
}

/// Reconstruct the full response by joining all message events in order:
/// the only way to recover full output, since only deltas are journaled.
pub fn reconstruct_response(events: &Vec<SessionEvent>) -> (r: String)
    ensures
        r@ == spec_reconstruct(events.deep_view()),
{
    let mut out = String::new();
    let mut i: usize = 0;
    proof {
        assert(events.deep_view().subrange(0, 0) =~= Seq::<EventV>::empty());
    }
    while i < events.len()
        invariant
            i <= events.len(),
            events.deep_view().len() == events.len(),
            out@ == spec_reconstruct(events.deep_view().subrange(0, i as int)),
        decreases events.len() - i,
    {
        proof {
            let pre = events.deep_view().subrange(0, i as int);
            let cur = events.deep_view().subrange(0, i as int + 1);
            assert(cur.drop_last() =~= pre);
            assert(cur.last() == events.deep_view()[i as int]);
        }
        match &events[i] {
            SessionEvent::Message { content } => {
                out.append(content.as_str());
            },
            _ => {
                proof {
                    assert(out@ + Seq::<char>::empty() =~= out@);
                }
            },
        }
        i = i + 1;
    }
    proof {
        assert(events.deep_view().subrange(0, events.deep_view().len() as int) =~=
        events.deep_view());
    }
    out
}

/// The command entries among a session's events, in order.
pub open spec fn spec_extract_commands(events: Seq<EventV>) -> Seq<CommandEntryV>
    decreases events.len(),
{
    if events.len() == 0 {
        Seq::empty()
    } else {
        let rest = spec_extract_commands(events.drop_last());
        match events.last() {
            EventV::Command { command, exit_code, duration_ms } => rest.push(CommandEntryV {
                command,
                exit_code,
                duration_ms,
            }),
            _ => rest,
        }
    }
}

/// Extract every command event, in order.
pub fn extract_commands(events: &Vec<SessionEvent>) -> (r: Vec<CommandEntry>)
    ensures
        r.deep_view() == spec_extract_commands(events.deep_view()),
{
    let mut out: Vec<CommandEntry> = Vec::new();
    let mut i: usize = 0;
    proof {
        assert(events.deep_view().subrange(0, 0) =~= Seq::<EventV>::empty());
        assert(out.deep_view() =~= spec_extract_commands(events.deep_view().subrange(0, 0)));
    }
    while i < events.len()
        invariant
            i <= events.len(),
            events.deep_view().len() == events.len(),
            out.deep_view() == spec_extract_commands(events.deep_view().subrange(0, i as int)),
        decreases events.len() - i,
    {
        proof {
            let pre = events.deep_view().subrange(0, i as int);
            let cur = events.deep_view().subrange(0, i as int + 1);
            assert(cur.drop_last() =~= pre);
            assert(cur.last() == events.deep_view()[i as int]);
        }
        match &events[i] {
            SessionEvent::Command { command, exit_code, duration_ms } => {
                out.push(CommandEntry {
                    command: command.clone(),
                    exit_code: *exit_code,
                    duration_ms: *duration_ms,
                });
                proof {
                    assert(out.deep_view() =~= spec_extract_commands(events.deep_view().subrange(0,
                    i as int + 1)));
                }
            },
            _ => {
                proof {
                    assert(out.deep_view() =~= spec_extract_commands(events.deep_view().subrange(0,
                    i as int + 1)));
                }
            },
        }
        i = i + 1;
    }
    proof {
        assert(events.deep_view().subrange(0, events.deep_view().len() as int) =~=
        events.deep_view());
    }
    out
}

/// One completed (or just-started) session's metadata.
pub struct SessionRecord {
    /// Backend session id.
    pub session_id: String,
    /// Global 1-based session number within the workspace history.
    pub session_number: u64,
    /// Seconds since the epoch when the session started.
    pub started_at: i64,
    /// Wall-clock duration in seconds.
    pub duration_secs: u64,
    /// Model used for the session.
    pub model: String,
    /// Short summary of the prompt.
    pub prompt_summary: String,
    /// Short summary of what the agent accomplished.
    pub response_summary: String,
    /// What happened to the worktree changes.
    pub action: Option<String>,
    /// Token usage at end of session.
    pub tokens: Option<TokenSnapshot>,
    /// Number of commands executed.
    pub command_count: Option<u64>,
}

/// The mathematical value of a token snapshot.
pub ghost struct TokenV {
    pub input_tokens: int,
    pub cached_input_tokens: int,
    pub output_tokens: int,
    pub reasoning_output_tokens: int,
    pub context_window: Option<int>,
}

/// The mathematical value of a session record.
pub ghost struct RecordV {
    pub session_id: Seq<char>,
    pub session_number: int,
    pub started_at: int,
    pub duration_secs: int,
    pub model: Seq<char>,
    pub prompt_summary: Seq<char>,
    pub response_summary: Seq<char>,
    pub action: Option<Seq<char>>,
    pub tokens: Option<TokenV>,
    pub command_count: Option<int>,
}

impl View for TokenSnapshot {
    type V = TokenV;

    open spec fn view(&self) -> TokenV {
        TokenV {
            input_tokens: self.input_tokens as int,
            cached_input_tokens: self.cached_input_tokens as int,
            output_tokens: self.output_tokens as int,
            reasoning_output_tokens: self.reasoning_output_tokens as int,
            context_window: opt_i64_v(self.context_window),
        }
    }
}

impl DeepView for TokenSnapshot {
    type V = TokenV;

    open spec fn deep_view(&self) -> TokenV {
        self.view()
    }
}

impl View for SessionRecord {
    type V = RecordV;

    open spec fn view(&self) -> RecordV {
        RecordV {
            session_id: self.session_id@,
            session_number: self.session_number as int,
            started_at: self.started_at as int,
            duration_secs: self.duration_secs as int,
            model: self.model@,
            prompt_summary: self.prompt_summary@,
            response_summary: self.response_summary@,
            action: match self.action {
                Some(a) => Some(a@),
                None => None,
            },
            tokens: match self.tokens {
                Some(t) => Some(t@),
                None => None,
            },
            command_count: match self.command_count {
                Some(c) => Some(c as int),
                None => None,
            },
        }
    }
}

impl DeepView for SessionRecord {
    type V = RecordV;

    open spec fn deep_view(&self) -> RecordV {
        self.view()
    }
}

/// Whether a record's numbers fit the machine types the library uses.
pub open spec fn record_wf(r: RecordV) -> bool {
    &&& 0 <= r.session_number <= u64::MAX
    &&& i64::MIN <= r.started_at <= i64::MAX
    &&& 0 <= r.duration_secs <= u64::MAX
    &&& (r.tokens matches Some(t) ==> {
        &&& i64::MIN <= t.input_tokens <= i64::MAX
        &&& i64::MIN <= t.cached_input_tokens <= i64::MAX
        &&& i64::MIN <= t.output_tokens <= i64::MAX
        &&& i64::MIN <= t.reasoning_output_tokens <= i64::MAX
        &&& (t.context_window matches Some(v) ==> i64::MIN <= v <= i64::MAX)
    })
    &&& (r.command_count matches Some(c) ==> 0 <= c <= u64::MAX)
}

/// The value of any in-memory record is well-formed.
pub proof fn lemma_record_view_wf(r: &SessionRecord)
    ensures
        record_wf(r@),
{
}

/// The field list of the one-line metadata document.
pub open spec fn enc_record_fields(r: RecordV) -> Seq<Seq<char>> {
    seq![
        "session"@,
        esc(r.session_id),
        dec_of(r.session_number),
        dec_of_int(r.started_at),
        dec_of(r.duration_secs),
        esc(r.model),
        esc(r.prompt_summary),
        esc(r.response_summary),
        match r.action {
            Some(_) => seq!['+'],
            None => seq!['_'],
        },
        match r.action {
            Some(a) => esc(a),
            None => esc(Seq::<char>::empty()),
        },
        match r.tokens {
            Some(_) => seq!['+'],
            None => seq!['_'],
        },
        match r.tokens {
            Some(t) => dec_of_int(t.input_tokens),
            None => seq!['_'],
        },
        match r.tokens {
            Some(t) => dec_of_int(t.cached_input_tokens),
            None => seq!['_'],
        },
        match r.tokens {
            Some(t) => dec_of_int(t.output_tokens),
            None => seq!['_'],
        },
        match r.tokens {
            Some(t) => dec_of_int(t.reasoning_output_tokens),
            None => seq!['_'],
        },
        match r.tokens {
            Some(t) => enc_opt_int(t.context_window),
            None => seq!['_'],
        },
        enc_opt_int(r.command_count),
    ]
}

/// The one-line metadata document for a session record.
pub open spec fn enc_record(r: RecordV) -> Seq<char> {
    join_with(enc_record_fields(r), '\t')
}

/// Reading a metadata line back; `None` for anything no record writes.
pub open spec fn dec_record(line: Seq<char>) -> Option<RecordV> {
    let parts = split_on(line, '\t');
    if parts.len() == 17 && parts[0] == "session"@ {
        let id = unesc(parts[1]);
        let num = parse_u64_spec(parts[2]);
        let started = parse_i64_spec(parts[3]);
        let dur = parse_u64_spec(parts[4]);
        let model = unesc(parts[5]);
        let prompt = unesc(parts[6]);
        let resp = unesc(parts[7]);
        let atext = unesc(parts[9]);
        let count = dec_opt_nat(parts[16]);
        if id is Some && num is Some && started is Some && dur is Some && model is Some
            && prompt is Some && resp is Some && atext is Some && count is Some {
            let action = if parts[8] == seq!['+'] {
                Some(Some(atext->Some_0))
            } else if parts[8] == seq!['_'] {
                Some(None)
            } else {
                None
            };
            let tokens = if parts[10] == seq!['+'] {
                match (
                    parse_i64_spec(parts[11]),
                    parse_i64_spec(parts[12]),
                    parse_i64_spec(parts[13]),
                    parse_i64_spec(parts[14]),
                    dec_opt_int(parts[15]),
                ) {
                    (Some(a), Some(b), Some(c), Some(d), Some(ctx)) => Some(
                        Some(
                            TokenV {
                                input_tokens: a as int,
                                cached_input_tokens: b as int,
                                output_tokens: c as int,
                                reasoning_output_tokens: d as int,
                                context_window: ctx,
                            },
                        ),
                    ),
                    _ => None,
                }
            } else if parts[10] == seq!['_'] {
                Some(None)
            } else {
                None
            };
            match (action, tokens) {
                (Some(action), Some(tokens)) => Some(
                    RecordV {
                        session_id: id->Some_0,
                        session_number: num->Some_0 as int,
                        started_at: started->Some_0 as int,
                        duration_secs: dur->Some_0 as int,
                        model: model->Some_0,
                        prompt_summary: prompt->Some_0,
                        response_summary: resp->Some_0,
                        action,
                        tokens,
                        command_count: count->Some_0,
                    },
                ),
                _ => None,
            }
        } else {
            None
        }
    } else {
        None
    }
}

proof fn lemma_marker_clean(s: Seq<char>)
    requires
        s == seq!['+'] || s == seq!['_'],
    ensures
        field_clean(s),
        !s.contains('\t'),
{
    if s.contains('\t') {
        let i = choose|i: int| 0 <= i < s.len() && s[i] == '\t';
    }
}

proof fn lemma_enc_record_fields_clean(r: RecordV)
    ensures
        forall|i: int|
            0 <= i < enc_record_fields(r).len() ==> field_clean(#[trigger] enc_record_fields(r)[i])
                && !enc_record_fields(r)[i].contains('\t'),
{
    reveal_strlit("session");
    assert(field_clean("session"@));
    assert(!"session"@.contains('\t')) by {
        if "session"@.contains('\t') {
            let i = choose|i: int| 0 <= i < "session"@.len() && "session"@[i] == '\t';
        }
    }
    lemma_esc_field_clean(r.session_id);
    if r.session_number >= 0 {
        lemma_dec_of_clean(r.session_number);
    } else {
        lemma_dec_of_neg_clean(r.session_number);
    }
    lemma_dec_of_int_clean(r.started_at);
    if r.duration_secs >= 0 {
        lemma_dec_of_clean(r.duration_secs);
    } else {
        lemma_dec_of_neg_clean(r.duration_secs);
    }
    lemma_esc_field_clean(r.model);
    lemma_esc_field_clean(r.prompt_summary);
    lemma_esc_field_clean(r.response_summary);
    lemma_marker_clean(match r.action {
        Some(_) => seq!['+'],
        None => seq!['_'],
    });
    match r.action {
        Some(a) => lemma_esc_field_clean(a),
        None => lemma_esc_field_clean(Seq::<char>::empty()),
    }
    lemma_marker_clean(match r.tokens {
        Some(_) => seq!['+'],
        None => seq!['_'],
    });
    match r.tokens {
        Some(t) => {
            lemma_dec_of_int_clean(t.input_tokens);
            lemma_dec_of_int_clean(t.cached_input_tokens);
            lemma_dec_of_int_clean(t.output_tokens);
            lemma_dec_of_int_clean(t.reasoning_output_tokens);
            lemma_enc_opt_clean(t.context_window);
        },
        None => {
            lemma_marker_clean(seq!['_']);
        },
    }
    lemma_enc_opt_clean(r.command_count);
}

/// The metadata line never spans lines.
pub proof fn lemma_enc_record_line(r: RecordV)
    ensures
        !enc_record(r).contains('\n'),
{
    lemma_enc_record_fields_clean(r);
    lemma_join_clean(enc_record_fields(r));
    if enc_record(r).contains('\n') {
        let i = choose|i: int| 0 <= i < enc_record(r).len() && enc_record(r)[i] == '\n';
    }
}

/// Reading back what was written gives the record back.
pub proof fn lemma_record_roundtrip(r: RecordV)
    requires
        record_wf(r),
    ensures
        dec_record(enc_record(r)) == Some(r),
{
    reveal_strlit("session");
    let fields = enc_record_fields(r);
    lemma_enc_record_fields_clean(r);
    lemma_split_join(fields, '\t');
    assert(split_on(enc_record(r), '\t') == fields);
    lemma_unesc_esc(r.session_id);
    lemma_parse_u64_roundtrip(r.session_number as u64);
    lemma_parse_i64_roundtrip(r.started_at as i64);
    lemma_parse_u64_roundtrip(r.duration_secs as u64);
    lemma_unesc_esc(r.model);
    lemma_unesc_esc(r.prompt_summary);
    lemma_unesc_esc(r.response_summary);
    match r.action {
        Some(a) => lemma_unesc_esc(a),
        None => lemma_unesc_esc(Seq::<char>::empty()),
    }
    match r.tokens {
        Some(t) => {
            lemma_parse_i64_roundtrip(t.input_tokens as i64);
            lemma_parse_i64_roundtrip(t.cached_input_tokens as i64);
            lemma_parse_i64_roundtrip(t.output_tokens as i64);
            lemma_parse_i64_roundtrip(t.reasoning_output_tokens as i64);
            match t.context_window {
                Some(v) => {
                    lemma_parse_i64_roundtrip(v as i64);
                    lemma_dec_of_int_not_underscore(v);
                },
                None => {},
            }
        },
        None => {},
    }
    match r.command_count {
        Some(c) => {
            lemma_parse_u64_roundtrip(c as u64);
            lemma_count_not_underscore(c);
        },
        None => {},
    }
    assert(seq!['+'] != seq!['_']) by {
        assert(seq!['+'][0] == '+');
    }
}

proof fn lemma_count_not_underscore(c: int)
    requires
        c >= 0,
    ensures
        dec_of_int(c) != seq!['_'],
{
    lemma_dec_of_int_not_underscore(c);
}

/// Serialize a record as its one-line metadata document.
pub fn encode_record(r: &SessionRecord) -> (out: String)
    ensures
        out@ == enc_record(r@),
        !out@.contains('\n'),
{
    let mut fields: Vec<String> = Vec::new();
    fields.push("session".to_owned());
    fields.push(escape_field(r.session_id.as_str()));
    fields.push(u64_to_string(r.session_number));
    fields.push(i64_to_string(r.started_at));
    fields.push(u64_to_string(r.duration_secs));
    fields.push(escape_field(r.model.as_str()));
    fields.push(escape_field(r.prompt_summary.as_str()));
    fields.push(escape_field(r.response_summary.as_str()));
    match &r.action {
        Some(a) => {
            fields.push("+".to_owned());
            fields.push(escape_field(a.as_str()));
        },
        None => {
            fields.push("_".to_owned());
            fields.push(escape_field(""));
        },
    }
    match &r.tokens {
        Some(t) => {
            fields.push("+".to_owned());
            fields.push(i64_to_string(t.input_tokens));
            fields.push(i64_to_string(t.cached_input_tokens));
            fields.push(i64_to_string(t.output_tokens));
            fields.push(i64_to_string(t.reasoning_output_tokens));
            match t.context_window {
                Some(v) => fields.push(i64_to_string(v)),
                None => fields.push("_".to_owned()),
            }
        },
        None => {
            fields.push("_".to_owned());
            fields.push("_".to_owned());
            fields.push("_".to_owned());
            fields.push("_".to_owned());
            fields.push("_".to_owned());
            fields.push("_".to_owned());
        },
    }
    match r.command_count {
        Some(c) => fields.push(u64_to_string(c)),
        None => fields.push("_".to_owned()),
    }
    proof {
        reveal_strlit("+");
        reveal_strlit("_");
        reveal_strlit("");
        assert("+"@ =~= seq!['+']);
        assert("_"@ =~= seq!['_']);
        assert(""@ =~= Seq::<char>::empty());
        assert(fields.deep_view() =~~= enc_record_fields(r@));
        lemma_enc_record_line(r@);
    }
    join_with_char(&fields, '\t')
}

/// Read a metadata line; `None` for a line no record writes.
pub fn decode_record(line: &str) -> (r: Option<SessionRecord>)
    ensures
        match r {
            Some(rec) => dec_record(line@) == Some(rec@),
            None => dec_record(line@) is None,
        },
{
    let parts = split_on_char(line, '\t');
    proof {
        lemma_split_on_len(line@, '\t');
    }
    if !(parts.len() == 17 && str_eq(parts[0].as_str(), "session")) {
        return None;
    }
    let id = unescape_field(parts[1].as_str());
    let num = parse_u64(parts[2].as_str());
    let started = parse_i64(parts[3].as_str());
    let dur = parse_u64(parts[4].as_str());
    let model = unescape_field(parts[5].as_str());
    let prompt = unescape_field(parts[6].as_str());
    let resp = unescape_field(parts[7].as_str());
    let atext = unescape_field(parts[9].as_str());
    let count = decode_opt_u64(parts[16].as_str());
    match (id, num, started, dur, model, prompt, resp, atext, count) {
        (
            Some(id),
            Some(num),
            Some(started),
            Some(dur),
            Some(model),
            Some(prompt),
            Some(resp),
            Some(atext),
            Some(count),
        ) => {
            let action: Option<Option<String>> = if str_eq(parts[8].as_str(), "+") {
                Some(Some(atext))
            } else if str_eq(parts[8].as_str(), "_") {
                Some(None)
            } else {
                None
            };
            let tokens: Option<Option<TokenSnapshot>> = if str_eq(parts[10].as_str(), "+") {
                let a = parse_i64(parts[11].as_str());
                let b = parse_i64(parts[12].as_str());
                let c = parse_i64(parts[13].as_str());
                let d = parse_i64(parts[14].as_str());
                let ctx = decode_opt_i64(parts[15].as_str());
                match (a, b, c, d, ctx) {
                    (Some(a), Some(b), Some(c), Some(d), Some(ctx)) => Some(
                        Some(
                            TokenSnapshot {
                                input_tokens: a,
                                cached_input_tokens: b,
                                output_tokens: c,
                                reasoning_output_tokens: d,
                                context_window: ctx,
                            },
                        ),
                    ),
                    _ => None,
                }
            } else if str_eq(parts[10].as_str(), "_") {
                Some(None)
            } else {
                None
            };
            proof {
                reveal_strlit("+");
                reveal_strlit("_");
                assert("+"@ =~= seq!['+']);
                assert("_"@ =~= seq!['_']);
            }
            match (action, tokens) {
                (Some(action), Some(tokens)) => Some(
                    SessionRecord {
                        session_id: id,
                        session_number: num,
                        started_at: started,
                        duration_secs: dur,
                        model,
                        prompt_summary: prompt,
                        response_summary: resp,
                        action,
                        tokens,
                        command_count: count,
                    },
                ),
                _ => None,
            }
        },
        _ => None,
    }
}

/// Reading one optional nonnegative-count field.
pub open spec fn dec_opt_nat(s: Seq<char>) -> Option<Option<int>> {
    if s == seq!['_'] {
        Some(None)
    } else {
        match parse_u64_spec(s) {
            Some(v) => Some(Some(v as int)),
            None => None,
        }
    }
}

/// Read one optional-count field.
fn decode_opt_u64(s: &str) -> (r: Option<Option<u64>>)
    ensures
        match r {
            Some(o) => dec_opt_nat(s@) == Some(
                match o {
                    Some(v) => Some(v as int),
                    None => None,
                },
            ),
            None => dec_opt_nat(s@) is None,
        },
{
    if str_eq(s, "_") {
        proof {
            reveal_strlit("_");
            assert(s@ =~= seq!['_']);
        }
        Some(None)
    } else {
        proof {
            reveal_strlit("_");
            if s@ == seq!['_'] {
                assert(s@ =~= "_"@);
            }
        }
        match parse_u64(s) {
            Some(v) => Some(Some(v)),
            None => None,
        }
    }
}

/// Records in ascending session-number order.
pub open spec fn sorted_by_number(s: Seq<RecordV>) -> bool {
    forall|i: int, j: int|
        0 <= i < j < s.len() ==> #[trigger] s[i].session_number <= #[trigger] s[j].session_number
}

/// Sort records by session number, ascending; the result holds exactly the
/// given records.
pub fn sort_records(records: Vec<SessionRecord>) -> (r: Vec<SessionRecord>)
    ensures
        sorted_by_number(r.deep_view()),
        r@.to_multiset() == records@.to_multiset(),
        r.len() == records.len(),
{
    broadcast use vstd::seq_lib::group_to_multiset_ensures;

    let mut rest = records;
    let mut out: Vec<SessionRecord> = Vec::new();
    proof {
        assert(out@.to_multiset().add(rest@.to_multiset()) =~= rest@.to_multiset());
    }
    while rest.len() > 0
        invariant
            sorted_by_number(out.deep_view()),
            out@.to_multiset().add(rest@.to_multiset()) == records@.to_multiset(),
            out.len() + rest.len() == records.len(),
        decreases rest.len(),
    {
        let ghost old_out = out@;
        let ghost old_rest = rest@;
        let x = rest.pop().unwrap();
        proof {
            assert(rest@.push(x) =~= old_rest);
            vstd::seq_lib::to_multiset_build(rest@, x);
            assert(old_rest.to_multiset() == rest@.to_multiset().insert(x));
        }
        let mut k: usize = 0;
        while k < out.len() && out[k].session_number <= x.session_number
            invariant
                k <= out.len(),
                out.deep_view().len() == out.len(),
                forall|j: int|
                    0 <= j < k ==> #[trigger] out.deep_view()[j].session_number
                        <= x@.session_number,
            decreases out.len() - k,
        {
            k = k + 1;
        }
        proof {
            assert(k == out.len() || out.deep_view()[k as int].session_number > x@.session_number);
        }
        let ghost mid_out = out@;
        let ghost mid_dv = out.deep_view();
        out.insert(k, x);
        proof {
            vstd::seq_lib::to_multiset_insert(mid_out, k as int, x);
            assert(out@.to_multiset() == mid_out.to_multiset().insert(x));
            assert(out@.to_multiset().add(rest@.to_multiset()) =~= mid_out.to_multiset().add(
            rest@.to_multiset().insert(x))) by {
                broadcast use vstd::multiset::group_multiset_axioms;

            }
            assert(out@.to_multiset().add(rest@.to_multiset()) == records@.to_multiset());
            let dv = out.deep_view();
            assert(forall|j: int| 0 <= j < k ==> #[trigger] dv[j] == mid_dv[j]);
            assert(forall|j: int| k < j < dv.len() ==> #[trigger] dv[j] == mid_dv[j - 1]);
            assert(dv[k as int] == x.deep_view());
            assert forall|i: int, j: int| 0 <= i < j < dv.len() implies dv[i].session_number
                <= dv[j].session_number by {
                if j < k {
                    assert(mid_dv[i].session_number <= mid_dv[j].session_number);
                } else if i > k {
                    assert(mid_dv[i - 1].session_number <= mid_dv[j - 1].session_number);
                } else if i < k && j == k {
                    assert(mid_dv[i].session_number <= x@.session_number);
                } else if i == k && j > k {
                    assert(mid_dv[k as int].session_number > x@.session_number);
                    assert(mid_dv[k as int].session_number <= mid_dv[j - 1].session_number);
                } else if i < k && j > k {
                    assert(mid_dv[i].session_number <= x@.session_number);
                    assert(mid_dv[k as int].session_number <= mid_dv[j - 1].session_number);
                }
            }
            assert(sorted_by_number(out.deep_view()));
        }
    }
    proof {
        assert(rest@.to_multiset() =~= Seq::<SessionRecord>::empty().to_multiset());
        assert(out@.to_multiset().add(vstd::multiset::Multiset::empty()) =~= out@.to_multiset());
    }
    out
}

pub open spec fn min_usize(a: int, b: int) -> int {
    if a < b {
        a
    } else {
        b
    }
}

/// The values of a sequence of records.
pub open spec fn records_v(s: Seq<SessionRecord>) -> Seq<RecordV> {
    Seq::new(s.len(), |i: int| s[i].deep_view())
}

/// The `n` most recent records: the tail of the input sorted by session
/// number, ascending — so the kept records are the ones with the largest
/// session numbers.
pub fn recent(records: Vec<SessionRecord>, n: usize) -> (r: Vec<SessionRecord>)
    ensures
        sorted_by_number(r.deep_view()),
        r.len() == min_usize(n as int, records.len() as int),
        exists|s: Seq<SessionRecord>|
            {
                &&& s.to_multiset() == records@.to_multiset()
                &&& sorted_by_number(records_v(s))
                &&& r@ == s.subrange(s.len() - r.len(), s.len() as int)
            },
{
    let ghost n_records = records.len();
    let sorted = sort_records(records);
    let ghost full = sorted@;
    let ghost full_dv = sorted.deep_view();
    let start = if sorted.len() > n {
        sorted.len() - n
    } else {
        0
    };
    let mut out = sorted;
    let mut removed: usize = 0;
    while removed < start
        invariant
            removed <= start,
            start <= full.len(),
            out@ == full.subrange(removed as int, full.len() as int),
        decreases start - removed,
    {
        out.remove(0);
        proof {
            assert(out@ =~= full.subrange(removed as int + 1, full.len() as int));
        }
        removed = removed + 1;
    }
    proof {
        assert(out@ == full.subrange(start as int, full.len() as int));
        assert(sorted_by_number(out.deep_view())) by {
            assert(forall|i: int| 0 <= i < out@.len() ==> out@[i] == full[i + start]);
            assert(forall|i: int|
                0 <= i < out@.len() ==> #[trigger] out.deep_view()[i] == full_dv[i + start]);
        }
        assert(records_v(full) =~= full_dv);
        assert(sorted_by_number(records_v(full)));
    }
    out
}

/// Read one optional-number field.
fn decode_opt_i64(s: &str) -> (r: Option<Option<i64>>)
    ensures
        match r {
            Some(o) => dec_opt_int(s@) == Some(opt_i64_v(o)),
            None => dec_opt_int(s@) is None,
        },
{
    if str_eq(s, "_") {
        proof {
            reveal_strlit("_");
            assert(s@ =~= seq!['_']);
        }
        Some(None)
    } else {
        proof {
            reveal_strlit("_");
            if s@ == seq!['_'] {
                assert(s@ =~= "_"@);
            }
        }
        match parse_i64(s) {
            Some(v) => Some(Some(v)),
            None => None,
        }
    }
}

} // verus!
