//! The session-history browsing tool: listing past sessions and rendering
//! one session's transcript and commands, paginated from the end so the most
//! recent content is the default page.

use vstd::prelude::*;

verus! {

use crate::history::spec_extract_commands;
use crate::history::spec_reconstruct;
use crate::history::extract_commands;
use crate::history::reconstruct_response;
use crate::history::CommandEntryV;
use crate::history::EventV;
use crate::history::RecordV;
use crate::history::SessionEvent;
use crate::history::SessionRecord;
use crate::numfmt::dec_of;
use crate::numfmt::dec_of_int;
use crate::numfmt::i32_to_string;
use crate::numfmt::u64_to_string;
use crate::text::join_with;
use crate::text::join_with_char;
use crate::text::spec_truncate_string;
use crate::text::split_on;
use crate::text::split_on_char;
use crate::text::str_eq;
use crate::text::truncate_string;
use crate::timefmt::datetime_display_of;
use crate::timefmt::datetime_minutes_of;
use crate::timefmt::clamp_displayable;
use crate::timefmt::format_datetime;
use crate::timefmt::format_datetime_minutes;
use crate::workspace::clone_string;

// ── Pagination ──────────────────────────────────────────────────────────

/// The half-open line range a page shows: `offset` lines back from the end,
/// at most `limit` lines.
pub open spec fn spec_page_bounds(total: int, offset: int, limit: int) -> (int, int) {
    let end = if offset <= total {
        total - offset
    } else {
        0
    };
    let start = if limit <= end {
        end - limit
    } else {
        0
    };
    (start, end)
}

/// With no offset, the page is the last `min(limit, total)` lines.
pub proof fn lemma_page_default(total: int, limit: int)
    requires
        total >= 0,
        limit >= 0,
    ensures
        spec_page_bounds(total, 0, limit).1 == total,
        spec_page_bounds(total, 0, limit).1 - spec_page_bounds(total, 0, limit).0 == if limit
            <= total {
            limit
        } else {
            total
        },
{
}

/// With offset `O` and limit `L` over `T` lines (`O <= T`), the page is
/// exactly the line range `[max(0, T-O-L), T-O)`.
pub proof fn lemma_page_bounds(total: int, offset: int, limit: int)
    requires
        0 <= offset <= total,
        limit >= 0,
    ensures
        spec_page_bounds(total, offset, limit).1 == total - offset,
        spec_page_bounds(total, offset, limit).0 == if total - offset - limit >= 0 {
            total - offset - limit
        } else {
            0
        },
{
}

/// Compute the page range.
pub fn page_bounds(total: usize, offset: usize, limit: usize) -> (r: (usize, usize))
    ensures
        (r.0 as int, r.1 as int) == spec_page_bounds(total as int, offset as int, limit as int),
        r.0 <= r.1 <= total,
{
    let end = if offset <= total {
        total - offset
    } else {
        0
    };
    let start = if limit <= end {
        end - limit
    } else {
        0
    };
    (start, end)
}

/// The selected page of lines: `offset` back from the end, `limit` long.
pub fn paginate(lines: &Vec<String>, offset: usize, limit: usize) -> (r: Vec<String>)
    ensures
        r.deep_view() == lines.deep_view().subrange(
            spec_page_bounds(lines.len() as int, offset as int, limit as int).0,
            spec_page_bounds(lines.len() as int, offset as int, limit as int).1,
        ),
{
    let (start, end) = page_bounds(lines.len(), offset, limit);
    let mut out: Vec<String> = Vec::new();
    let mut i: usize = start;
    proof {
        assert(out.deep_view() =~= lines.deep_view().subrange(start as int, start as int));
    }
    while i < end
        invariant
            start <= i <= end,
            end <= lines.len(),
            lines.deep_view().len() == lines.len(),
            out.deep_view() == lines.deep_view().subrange(start as int, i as int),
        decreases end - i,
    {
        let ghost pre = out.deep_view();
        out.push(clone_string(&lines[i]));
        proof {
            assert(out.deep_view() =~= pre.push(lines.deep_view()[i as int]));
            assert(lines.deep_view().subrange(start as int, i as int + 1) =~=
            lines.deep_view().subrange(start as int, i as int).push(lines.deep_view()[i as int]));
        }
        i = i + 1;
    }
    out
}

// ── Session list rendering ──────────────────────────────────────────────

/// One row of the session list.
pub open spec fn spec_list_row(r: RecordV) -> Seq<char> {
    dec_of(r.session_number) + " | "@ + datetime_minutes_of(r.started_at) + " | "@ + dec_of(
        r.duration_secs,
    ) + "s | "@ + dec_of(
        match r.command_count {
            Some(c) => c,
            None => 0,
        },
    ) + " | "@ + spec_truncate_string(r.response_summary, 80) + "\n"@
}

pub open spec fn spec_list_rows(records: Seq<RecordV>) -> Seq<char>
    decreases records.len(),
{
    if records.len() == 0 {
        Seq::empty()
    } else {
        spec_list_rows(records.drop_last()) + spec_list_row(records.last())
    }
}

/// The whole session-list reply.
pub open spec fn spec_list_output(records: Seq<RecordV>) -> Seq<char> {
    "Session | Date | Duration | Commands | Summary\n"@
        + "--------|------|----------|----------|--------\n"@ + spec_list_rows(records) + "\n"@
        + dec_of(records.len() as int)
        + " sessions total. Use action='view' with session_number to see details."@
}

/// Render the session-list overview.
pub fn render_session_list(records: &Vec<SessionRecord>) -> (r: String)
    ensures
        r@ == spec_list_output(records.deep_view()),
{
    let mut out = "Session | Date | Duration | Commands | Summary\n".to_owned();
    out.append("--------|------|----------|----------|--------\n");
    let ghost header = out@;
    let mut i: usize = 0;
    proof {
        assert(records.deep_view().subrange(0, 0) =~= Seq::<RecordV>::empty());
        assert(out@ =~= header + spec_list_rows(records.deep_view().subrange(0, 0)));
    }
    while i < records.len()
        invariant
            i <= records.len(),
            records.deep_view().len() == records.len(),
            out@ == header + spec_list_rows(records.deep_view().subrange(0, i as int)),
            header == "Session | Date | Duration | Commands | Summary\n"@
                + "--------|------|----------|----------|--------\n"@,
        decreases records.len() - i,
    {
        proof {
            let pre = records.deep_view().subrange(0, i as int);
            let cur = records.deep_view().subrange(0, i as int + 1);
            assert(cur.drop_last() =~= pre);
            assert(cur.last() == records.deep_view()[i as int]);
        }
        let rec = &records[i];
        out.append(u64_to_string(rec.session_number).as_str());
        out.append(" | ");
        out.append(format_datetime_minutes(rec.started_at).as_str());
        out.append(" | ");
        out.append(u64_to_string(rec.duration_secs).as_str());
        out.append("s | ");
        let cmds: u64 = match rec.command_count {
            Some(c) => c,
            None => 0,
        };
        out.append(u64_to_string(cmds).as_str());
        out.append(" | ");
        out.append(truncate_string(rec.response_summary.as_str(), 80).as_str());
        out.append("\n");
        proof {
            assert(out@ =~= header + spec_list_rows(records.deep_view().subrange(0, i as int + 1)));
        }
        i = i + 1;
    }
    proof {
        assert(records.deep_view().subrange(0, records.len() as int) =~= records.deep_view());
    }
    out.append("\n");
    out.append(u64_to_string(records.len() as u64).as_str());
    out.append(" sessions total. Use action='view' with session_number to see details.");
    proof {
        assert(out@ =~= spec_list_output(records.deep_view()));
    }
    out
}

// ── Session view rendering ──────────────────────────────────────────────

/// Which part of a session to show.
#[derive(PartialEq, Eq, Structural, Clone, Copy, Debug)]
pub enum Section {
    Response,
    Commands,
    All,
}

/// The lines of one command in the commands section.
pub open spec fn spec_cmd_line(c: CommandEntryV) -> Seq<char> {
    "$ "@ + c.command + " ["@ + (if c.exit_code == 0 {
        "ok"@
    } else {
        "exit "@ + dec_of_int(c.exit_code)
    }) + "] ("@ + dec_of(c.duration_ms) + "ms)"@
}

pub open spec fn spec_cmd_lines(cmds: Seq<CommandEntryV>) -> Seq<Seq<char>>
    decreases cmds.len(),
{
    if cmds.len() == 0 {
        Seq::empty()
    } else {
        spec_cmd_lines(cmds.drop_last()).push(spec_cmd_line(cmds.last()))
    }
}

/// The commands section: a heading, then one line per command, or a note
/// that none ran, then a blank line.
pub open spec fn spec_commands_section(events: Seq<EventV>) -> Seq<Seq<char>> {
    let cmds = spec_extract_commands(events);
    seq!["## Commands"@] + (if cmds.len() == 0 {
        seq!["(no commands executed)"@]
    } else {
        spec_cmd_lines(cmds)
    }) + seq![Seq::<char>::empty()]
}

/// The response section: a heading, then the reconstructed response line by
/// line, or a note that it is unavailable.
pub open spec fn spec_response_section(events: Seq<EventV>) -> Seq<Seq<char>> {
    let resp = spec_reconstruct(events);
    seq!["## Full Response"@] + (if resp.len() == 0 {
        seq!["(Full response not available for this session)"@]
    } else {
        split_on(resp, '\n')
    })
}

/// The header lines of a session view.
pub open spec fn spec_view_header(r: RecordV) -> Seq<Seq<char>> {
    seq![
        "# Session "@ + dec_of(r.session_number),
        "Date: "@ + datetime_display_of(clamp_displayable(r.started_at)) + " | Model: "@ + r.model
            + " | Duration: "@ + dec_of(r.duration_secs) + "s"@,
        "Summary: "@ + r.response_summary,
        Seq::<char>::empty(),
    ]
}

/// All lines of a session view, by section.
pub open spec fn spec_view_lines(r: RecordV, events: Seq<EventV>, section: Section) -> Seq<
    Seq<char>,
> {
    spec_view_header(r) + (if section == Section::All || section == Section::Commands {
        spec_commands_section(events)
    } else {
        Seq::<Seq<char>>::empty()
    }) + (if section == Section::All || section == Section::Response {
        spec_response_section(events)
    } else {
        Seq::<Seq<char>>::empty()
    })
}

/// The page footer: the shown range, and where earlier content continues.
pub open spec fn spec_view_footer(start: int, end: int, total: int, offset: int, limit: int) -> Seq<
    char,
> {
    "\n\n[lines "@ + dec_of(
        if start < usize::MAX {
            start + 1
        } else {
            usize::MAX as int
        },
    ) + "-"@ + dec_of(end) + " of "@ + dec_of(total) + "]"@ + (
    if start > 0 {
        " Earlier content: offset="@ + dec_of(
            if offset + limit <= usize::MAX {
                offset + limit
            } else {
                usize::MAX as int
            },
        ) + ", limit="@ + dec_of(limit) + ""@
    } else {
        Seq::<char>::empty()
    })
}

/// The whole session-view reply: the page, then the footer.
pub open spec fn spec_view_output(
    r: RecordV,
    events: Seq<EventV>,
    section: Section,
    offset: int,
    limit: int,
) -> Seq<char> {
    let lines = spec_view_lines(r, events, section);
    let bounds = spec_page_bounds(lines.len() as int, offset, limit);
    join_with(lines.subrange(bounds.0, bounds.1), '\n') + spec_view_footer(
        bounds.0,
        bounds.1,
        lines.len() as int,
        offset,
        limit,
    )
}

/// Read a section argument; anything unrecognized means everything.
pub fn parse_section(s: &str) -> (r: Section)
    ensures
        s@ == "response"@ ==> r == Section::Response,
        s@ == "commands"@ ==> r == Section::Commands,
        s@ != "response"@ && s@ != "commands"@ ==> r == Section::All,
{
    proof {
        reveal_strlit("response");
        reveal_strlit("commands");
        assert("response"@[0] == 'r');
        assert("commands"@[0] == 'c');
    }
    if str_eq(s, "response") {
        Section::Response
    } else if str_eq(s, "commands") {
        Section::Commands
    } else {
        Section::All
    }
}

/// Append the commands section of a session view.
fn append_commands_section(lines: &mut Vec<String>, events: &Vec<SessionEvent>)
    ensures
        final(lines).deep_view() == old(lines).deep_view() + spec_commands_section(
            events.deep_view(),
        ),
{
    let ghost base = lines.deep_view();
    lines.push("## Commands".to_owned());
    let cmds = extract_commands(events);
    if cmds.len() == 0 {
        lines.push("(no commands executed)".to_owned());
    } else {
        let ghost before_cmds = lines.deep_view();
        let mut k: usize = 0;
        proof {
            assert(cmds.deep_view().subrange(0, 0) =~= Seq::<CommandEntryV>::empty());
            assert(lines.deep_view() =~= before_cmds + spec_cmd_lines(
                cmds.deep_view().subrange(0, 0),
            ));
        }
        while k < cmds.len()
            invariant
                k <= cmds.len(),
                cmds.deep_view().len() == cmds.len(),
                lines.deep_view() == before_cmds + spec_cmd_lines(
                    cmds.deep_view().subrange(0, k as int),
                ),
            decreases cmds.len() - k,
        {
            proof {
                let pre = cmds.deep_view().subrange(0, k as int);
                let cur = cmds.deep_view().subrange(0, k as int + 1);
                assert(cur.drop_last() =~= pre);
                assert(cur.last() == cmds.deep_view()[k as int]);
            }
            let c = &cmds[k];
            let mut line = "$ ".to_owned();
            line.append(c.command.as_str());
            line.append(" [");
            if c.exit_code == 0 {
                line.append("ok");
            } else {
                line.append("exit ");
                line.append(i32_to_string(c.exit_code).as_str());
            }
            line.append("] (");
            line.append(u64_to_string(c.duration_ms).as_str());
            line.append("ms)");
            proof {
                assert(line@ =~= spec_cmd_line(cmds.deep_view()[k as int]));
            }
            let ghost mid = lines.deep_view();
            lines.push(line);
            proof {
                assert(lines.deep_view() =~= mid.push(spec_cmd_line(cmds.deep_view()[k as int])));
                assert(spec_cmd_lines(cmds.deep_view().subrange(0, k as int + 1))
                    == spec_cmd_lines(cmds.deep_view().subrange(0, k as int)).push(spec_cmd_line(
                cmds.deep_view()[k as int])));
                assert(lines.deep_view() =~= before_cmds + spec_cmd_lines(
                    cmds.deep_view().subrange(0, k as int + 1),
                ));
            }
            k = k + 1;
        }
        proof {
            assert(cmds.deep_view().subrange(0, cmds.len() as int) =~= cmds.deep_view());
        }
    }
    let ghost before_blank = lines.deep_view();
    lines.push("".to_owned());
    proof {
        reveal_strlit("");
        assert(""@ =~= Seq::<char>::empty());
        assert(lines.deep_view() =~~= before_blank.push(Seq::<char>::empty()));
        assert(lines.deep_view() =~= base + spec_commands_section(events.deep_view()));
    }
}

/// Append the response section of a session view.
fn append_response_section(lines: &mut Vec<String>, events: &Vec<SessionEvent>)
    ensures
        final(lines).deep_view() == old(lines).deep_view() + spec_response_section(
            events.deep_view(),
        ),
{
    let ghost base = lines.deep_view();
    lines.push("## Full Response".to_owned());
    let resp = reconstruct_response(events);
    if resp.as_str().is_empty() {
        lines.push("(Full response not available for this session)".to_owned());
        proof {
            assert(spec_reconstruct(events.deep_view()).len() == 0);
            assert(lines.deep_view() =~= base + spec_response_section(events.deep_view()));
        }
    } else {
        let mut resp_lines = split_on_char(resp.as_str(), '\n');
        let ghost rl = resp_lines.deep_view();
        let ghost mid = lines.deep_view();
        lines.append(&mut resp_lines);
        proof {
            assert(lines.deep_view() =~= mid + rl);
            assert(lines.deep_view() =~= base + spec_response_section(events.deep_view()));
        }
    }
}

/// Append the header lines of a session view.
fn append_view_header(lines: &mut Vec<String>, record: &SessionRecord)
    ensures
        final(lines).deep_view() == old(lines).deep_view() + spec_view_header(record@),
{
    let ghost base = lines.deep_view();
    let mut hdr1 = "# Session ".to_owned();
    hdr1.append(u64_to_string(record.session_number).as_str());
    lines.push(hdr1);
    let mut hdr2 = "Date: ".to_owned();
    hdr2.append(format_datetime(record.started_at).as_str());
    hdr2.append(" | Model: ");
    hdr2.append(record.model.as_str());
    hdr2.append(" | Duration: ");
    hdr2.append(u64_to_string(record.duration_secs).as_str());
    hdr2.append("s");
    lines.push(hdr2);
    let mut hdr3 = "Summary: ".to_owned();
    hdr3.append(record.response_summary.as_str());
    lines.push(hdr3);
    lines.push("".to_owned());
    proof {
        reveal_strlit("");
        assert(lines.deep_view() =~~= base + spec_view_header(record@));
    }
}

/// Append the page footer.
#[verifier::rlimit(100)]
#[verifier::spinoff_prover]
fn append_view_footer(
    out: &mut String,
    start: usize,
    end: usize,
    total: usize,
    offset: usize,
    limit: usize,
)
    ensures
        final(out)@ == old(out)@ + spec_view_footer(
            start as int,
            end as int,
            total as int,
            offset as int,
            limit as int,
        ),
{
    out.append("\n\n[lines ");
    let start_disp: u64 = if start < usize::MAX {
        (start + 1) as u64
    } else {
        usize::MAX as u64
    };
    out.append(u64_to_string(start_disp).as_str());
    proof {
        assert(start_disp as int == (if (start as int) < usize::MAX {
            start as int + 1
        } else {
            usize::MAX as int
        }));
    }
    out.append("-");
    out.append(u64_to_string(end as u64).as_str());
    out.append(" of ");
    out.append(u64_to_string(total as u64).as_str());
    out.append("]");
    let ghost bracketed = old(out)@ + "\n\n[lines "@ + dec_of(
        if (start as int) < usize::MAX {
            start as int + 1
        } else {
            usize::MAX as int
        },
    ) + "-"@ + dec_of(end as int) + " of "@ + dec_of(total as int) + "]"@;
    proof {
        assert(out@ =~= bracketed);
    }
    if start > 0 {
        out.append(" Earlier content: offset=");
        let hint: usize = if offset <= usize::MAX - limit {
            offset + limit
        } else {
            usize::MAX
        };
        proof {
            assert(hint as int == (if offset + limit <= usize::MAX {
                offset as int + limit as int
            } else {
                usize::MAX as int
            }));
        }
        out.append(u64_to_string(hint as u64).as_str());
        out.append(", limit=");
        out.append(u64_to_string(limit as u64).as_str());
        out.append("");
        proof {
            assert(out@ =~= bracketed + (" Earlier content: offset="@ + dec_of(
                if offset + limit <= usize::MAX {
                    offset as int + limit as int
                } else {
                    usize::MAX as int
                },
            ) + ", limit="@ + dec_of(limit as int) + ""@));
        }
    } else {
        proof {
            assert(out@ =~= bracketed + Seq::<char>::empty());
        }
    }
    proof {
        assert(out@ == old(out)@ + spec_view_footer(
            start as int,
            end as int,
            total as int,
            offset as int,
            limit as int,
        ));
    }
}

/// Render one session's view page.
#[verifier::rlimit(100)]
pub fn render_session_view(
    record: &SessionRecord,
    events: &Vec<SessionEvent>,
    section: Section,
    offset: usize,
    limit: usize,
) -> (r: String)
    ensures
        r@ == spec_view_output(record@, events.deep_view(), section, offset as int, limit as int),
{
    let mut lines: Vec<String> = Vec::new();
    append_view_header(&mut lines, record);
    let ghost after_header = lines.deep_view();
    if matches!(section, Section::All) || matches!(section, Section::Commands) {
        append_commands_section(&mut lines, events);
    } else {
        proof {
            assert(lines.deep_view() =~= after_header + Seq::<Seq<char>>::empty());
        }
    }
    let ghost after_commands = lines.deep_view();
    if matches!(section, Section::All) || matches!(section, Section::Response) {
        append_response_section(&mut lines, events);
    } else {
        proof {
            assert(lines.deep_view() =~= after_commands + Seq::<Seq<char>>::empty());
        }
    }
    proof {
        assert(lines.deep_view() =~~= spec_view_lines(record@, events.deep_view(), section));
    }
    let total = lines.len();
    let (start, end) = page_bounds(total, offset, limit);
    let page = paginate(&lines, offset, limit);
    let mut out = join_with_char(&page, '\n');
    append_view_footer(&mut out, start, end, total, offset, limit);
    out
}

// ── Dispatch ────────────────────────────────────────────────────────────

/// What the history tool should do next: reply with text, or load one
/// session's events and render its view.
pub enum HistoryStep {
    /// The reply is complete.
    Done(String),
    /// Load the journal of the session at `index` (id `session_id`), then
    /// render its view.
    LoadEvents { session_id: String, index: usize },
}

/// Decide the history tool's reply. A `view` request for a known session
/// asks the caller to fetch that session's journal first; everything else is
/// answered directly.
pub fn history_tool_step(action: &str, session_number: u64, records: &Vec<SessionRecord>) -> (r:
    HistoryStep)
    ensures
        action@ != "list"@ && action@ != "view"@ ==> (r matches HistoryStep::Done(t) && t@
            == "Unknown action '"@ + action@ + "'. Use 'list' or 'view'."@),
        action@ == "list"@ && records.len() == 0 ==> (r matches HistoryStep::Done(t) && t@
            == "No previous sessions found."@),
        action@ == "list"@ && records.len() > 0 ==> (r matches HistoryStep::Done(t) && t@
            == spec_list_output(records.deep_view())),
        action@ == "view"@ && session_number == 0 ==> (r matches HistoryStep::Done(t) && t@
            == "session_number is required for the 'view' action."@),
        action@ == "view"@ && session_number > 0 && (forall|i: int|
            0 <= i < records.len() ==> (#[trigger] records.deep_view()[i]).session_number
                != session_number) ==> (r matches HistoryStep::Done(t) && t@ == "Session "@
            + dec_of(session_number as int) + " not found."@),
        action@ == "view"@ && session_number > 0 && (exists|i: int|
            0 <= i < records.len() && (#[trigger] records.deep_view()[i]).session_number
                == session_number) ==> (r matches HistoryStep::LoadEvents { session_id, index }
            && index < records.len() && records.deep_view()[index as int].session_number
            == session_number && session_id@ == records.deep_view()[index as int].session_id),
{
    proof {
        reveal_strlit("list");
        reveal_strlit("view");
        assert("list"@[0] == 'l');
        assert("view"@[0] == 'v');
    }
    if str_eq(action, "list") {
        if records.len() == 0 {
            HistoryStep::Done("No previous sessions found.".to_owned())
        } else {
            HistoryStep::Done(render_session_list(records))
        }
    } else if str_eq(action, "view") {
        if session_number == 0 {
            HistoryStep::Done("session_number is required for the 'view' action.".to_owned())
        } else {
            let mut i: usize = 0;
            while i < records.len()
                invariant
                    i <= records.len(),
                    action@ == "view"@,
                    action@ != "list"@,
                    session_number > 0,
                    records.deep_view().len() == records.len(),
                    forall|j: int|
                        0 <= j < i ==> (#[trigger] records.deep_view()[j]).session_number
                            != session_number,
                decreases records.len() - i,
            {
                if records[i].session_number == session_number {
                    return HistoryStep::LoadEvents {
                        session_id: clone_string(&records[i].session_id),
                        index: i,
                    };
                }
                i = i + 1;
            }
            let mut msg = "Session ".to_owned();
            msg.append(u64_to_string(session_number).as_str());
            msg.append(" not found.");
            proof {
                assert(msg@ =~= "Session "@ + dec_of(session_number as int) + " not found."@);
            }
            HistoryStep::Done(msg)
        }
    } else {
        let mut msg = "Unknown action '".to_owned();
        msg.append(action);
        msg.append("'. Use 'list' or 'view'.");
        proof {
            assert(msg@ =~= "Unknown action '"@ + action@ + "'. Use 'list' or 'view'."@);
        }
        HistoryStep::Done(msg)
    }
}

} // verus!
