//! Prompt construction for one session: base instructions, status, skills,
//! memory, queued user input, recent history, and the standing instructions
//! for unattended operation.

use vstd::prelude::*;

verus! {

use crate::history::RecordV;
use crate::history::SessionRecord;
use crate::memory::MemoryStore;
use crate::numfmt::dec_of;
use crate::numfmt::u64_to_string;
use crate::skills::Skill;
use crate::skills::format_skills_section;
use crate::skills::spec_skills_section;
use crate::text::spec_truncate;
use crate::text::truncate;
use vstd::string::StrSliceExecFns;
use vstd::string::StringExecFns;

/// The worktree paragraph of the status section.
pub open spec fn spec_worktree_note(branch: Seq<char>, base_branch: Seq<char>) -> Seq<char> {
    "- Branch: `"@ + branch + "` (based on `"@ + base_branch + "`)\n"@
        + "- You are working in an isolated git worktree. Commit your changes on this branch.\n"@
        + "- When you call `session_complete`, choose an action for your commits:\n"@
        + "- `merge` — your branch gets merged into `"@ + base_branch + "`\n"@
        + "- `review` — leave the branch for the user to review\n"@
        + "- `discard` — drop the changes\n"@
}

/// One memory entry's prompt line.
pub open spec fn spec_memory_line(k: Seq<char>, v: Seq<char>) -> Seq<char> {
    "- **"@ + k + "**: "@ + v + "\n"@
}

pub open spec fn spec_memory_lines(entries: Seq<(String, String)>) -> Seq<char>
    decreases entries.len(),
{
    if entries.len() == 0 {
        Seq::empty()
    } else {
        spec_memory_lines(entries.drop_last()) + spec_memory_line(
            entries.last().0@,
            entries.last().1@,
        )
    }
}

/// One recent-history prompt line.
pub open spec fn spec_history_digest_line(r: RecordV) -> Seq<char> {
    "- Session "@ + dec_of(r.session_number) + ": "@ + spec_truncate(r.response_summary, 200)
        + "\n"@
}

pub open spec fn spec_history_digest(records: Seq<RecordV>) -> Seq<char>
    decreases records.len(),
{
    if records.len() == 0 {
        Seq::empty()
    } else {
        spec_history_digest(records.drop_last()) + spec_history_digest_line(records.last())
    }
}

/// The standing instructions block.
pub open spec fn spec_standing_instructions() -> Seq<char> {
    "## Instructions\n"@
        + "You are a fully autonomous agent. Do not ask for human input — make decisions and act.\n"@
        + "Your goal is to ship working code: make changes, test them, and commit.\n\n"@
        + "- Work through the task independently and make as much progress as you can\n"@
        + "- When you are done, call the `session_complete` tool with a summary of what you accomplished\n"@
        + "- You can call the `session_history` tool to browse previous sessions in detail. Use action='list' for an overview or action='view' with session_number to read the full transcript and commands (shows the end first; increase offset to page backward).\n"@
        + "- Do not stop and ask for clarification — use your best judgment and keep moving\n"@
}

/// The skills system documentation block.
pub open spec fn spec_skills_doc(skill_count: int, bot_skill_dir: Seq<char>) -> Seq<char> {
    "\n## Skills System\n\n"@
        + "Skills are reusable markdown workflows loaded into your prompt each session.\n"@
        + "You currently have "@ + dec_of(skill_count)
        + " skill(s) loaded (listed above under \"Available Skills\" if any).\n\n"@
        + "**Creating skills:** Write a markdown file to `"@ + bot_skill_dir
        + "/` with YAML frontmatter:\n"@
        + "```\n---\nname: skill-name\ndescription: What this skill does\n---\nStep-by-step instructions, examples, and guidelines here.\n```\n"@
        + "The skill will be loaded automatically in your next session.\n\n"@
        + "**When to create a skill:** If you develop a reusable procedure, debugging technique,\nor workflow pattern that would be useful across sessions, save it as a skill.\n"@
}

/// The whole prompt for one session.
pub open spec fn spec_build_prompt(
    instructions: Seq<char>,
    skills: Seq<Skill>,
    entries: Seq<(String, String)>,
    recent: Seq<RecordV>,
    session_num: int,
    bot_skill_dir: Seq<char>,
    project_context: Option<Seq<char>>,
    worktree_info: Option<(Seq<char>, Seq<char>)>,
    user_input: Option<Seq<char>>,
) -> Seq<char> {
    instructions + "\n\n"@ + "## Status\n"@ + (match project_context {
        Some(p) => "- Project: "@ + p + "\n"@,
        None => Seq::<char>::empty(),
    }) + "- Session: "@ + dec_of(session_num) + "\n"@ + (match worktree_info {
        Some(wt) => spec_worktree_note(wt.0, wt.1),
        None => Seq::<char>::empty(),
    }) + "\n"@ + (if spec_skills_section(skills).len() > 0 {
        spec_skills_section(skills) + "\n"@
    } else {
        Seq::<char>::empty()
    }) + (if entries.len() > 0 {
        "## Memory (from previous sessions)\n\n"@ + spec_memory_lines(entries) + "\n"@
    } else {
        Seq::<char>::empty()
    }) + (match user_input {
        Some(input) => "## User Input\n\n"@
            + "The user provided the following input. Address this directly in your response:\n\n"@
            + "> "@ + input + "\n\n"@,
        None => Seq::<char>::empty(),
    }) + (if recent.len() > 0 {
        "### Recent History\n"@ + spec_history_digest(recent) + "\n"@
    } else {
        Seq::<char>::empty()
    }) + spec_standing_instructions() + spec_skills_doc(skills.len() as int, bot_skill_dir)
}

/// Append the status section.
fn append_status(
    out: &mut String,
    session_num: u64,
    project_context: Option<&str>,
    worktree_info: Option<(&str, &str)>,
)
    ensures
        final(out)@ == old(out)@ + "## Status\n"@ + (match project_context {
            Some(p) => "- Project: "@ + p@ + "\n"@,
            None => Seq::<char>::empty(),
        }) + "- Session: "@ + dec_of(session_num as int) + "\n"@ + (match worktree_info {
            Some(wt) => spec_worktree_note(wt.0@, wt.1@),
            None => Seq::<char>::empty(),
        }) + "\n"@,
{
    out.append("## Status\n");
    match project_context {
        Some(p) => {
            out.append("- Project: ");
            out.append(p);
            out.append("\n");
        },
        None => {},
    }
    out.append("- Session: ");
    out.append(u64_to_string(session_num).as_str());
    out.append("\n");
    match worktree_info {
        Some((branch, base_branch)) => {
            out.append("- Branch: `");
            out.append(branch);
            out.append("` (based on `");
            out.append(base_branch);
            out.append("`)\n");
            out.append(
                "- You are working in an isolated git worktree. Commit your changes on this branch.\n",
            );
            out.append("- When you call `session_complete`, choose an action for your commits:\n");
            out.append("- `merge` — your branch gets merged into `");
            out.append(base_branch);
            out.append("`\n");
            out.append("- `review` — leave the branch for the user to review\n");
            out.append("- `discard` — drop the changes\n");
        },
        None => {},
    }
    out.append("\n");
    proof {
        assert(out@ =~= old(out)@ + "## Status\n"@ + (match project_context {
            Some(p) => "- Project: "@ + p@ + "\n"@,
            None => Seq::<char>::empty(),
        }) + "- Session: "@ + dec_of(session_num as int) + "\n"@ + (match worktree_info {
            Some(wt) => spec_worktree_note(wt.0@, wt.1@),
            None => Seq::<char>::empty(),
        }) + "\n"@);
    }
}

/// Append the memory section, when any entry exists.
fn append_memory_section(out: &mut String, memory: &MemoryStore)
    ensures
        final(out)@ == old(out)@ + (if memory.memory.entries@.len() > 0 {
            "## Memory (from previous sessions)\n\n"@ + spec_memory_lines(memory.memory.entries@)
                + "\n"@
        } else {
            Seq::<char>::empty()
        }),
{
    if memory.memory.entries.len() > 0 {
        out.append("## Memory (from previous sessions)\n\n");
        let ghost header = out@;
        let mut i: usize = 0;
        proof {
            assert(memory.memory.entries@.subrange(0, 0) =~= Seq::<(String, String)>::empty());
            assert(out@ =~= header + spec_memory_lines(memory.memory.entries@.subrange(0, 0)));
        }
        while i < memory.memory.entries.len()
            invariant
                i <= memory.memory.entries.len(),
                out@ == header + spec_memory_lines(memory.memory.entries@.subrange(0, i as int)),
            decreases memory.memory.entries.len() - i,
        {
            proof {
                let pre = memory.memory.entries@.subrange(0, i as int);
                let cur = memory.memory.entries@.subrange(0, i as int + 1);
                assert(cur.drop_last() =~= pre);
                assert(cur.last() == memory.memory.entries@[i as int]);
            }
            out.append("- **");
            out.append(memory.memory.entries[i].0.as_str());
            out.append("**: ");
            out.append(memory.memory.entries[i].1.as_str());
            out.append("\n");
            proof {
                assert(out@ =~= header + spec_memory_lines(
                    memory.memory.entries@.subrange(0, i as int + 1),
                ));
            }
            i = i + 1;
        }
        proof {
            assert(memory.memory.entries@.subrange(0, memory.memory.entries@.len() as int) =~=
            memory.memory.entries@);
        }
        out.append("\n");
    } else {
        proof {
            assert(out@ =~= old(out)@ + Seq::<char>::empty());
        }
    }
}

/// Append the recent-history digest, when any record exists.
fn append_recent_section(out: &mut String, recent_history: &Vec<SessionRecord>)
    ensures
        final(out)@ == old(out)@ + (if recent_history.deep_view().len() > 0 {
            "### Recent History\n"@ + spec_history_digest(recent_history.deep_view()) + "\n"@
        } else {
            Seq::<char>::empty()
        }),
{
    if recent_history.len() > 0 {
        out.append("### Recent History\n");
        let ghost header = out@;
        let mut i: usize = 0;
        proof {
            assert(recent_history.deep_view().subrange(0, 0) =~= Seq::<RecordV>::empty());
            assert(out@ =~= header + spec_history_digest(
                recent_history.deep_view().subrange(0, 0),
            ));
        }
        while i < recent_history.len()
            invariant
                i <= recent_history.len(),
                recent_history.deep_view().len() == recent_history.len(),
                out@ == header + spec_history_digest(
                    recent_history.deep_view().subrange(0, i as int),
                ),
            decreases recent_history.len() - i,
        {
            proof {
                let pre = recent_history.deep_view().subrange(0, i as int);
                let cur = recent_history.deep_view().subrange(0, i as int + 1);
                assert(cur.drop_last() =~= pre);
                assert(cur.last() == recent_history.deep_view()[i as int]);
            }
            out.append("- Session ");
            out.append(u64_to_string(recent_history[i].session_number).as_str());
            out.append(": ");
            out.append(truncate(recent_history[i].response_summary.as_str(), 200));
            out.append("\n");
            proof {
                assert(out@ =~= header + spec_history_digest(
                    recent_history.deep_view().subrange(0, i as int + 1),
                ));
            }
            i = i + 1;
        }
        proof {
            assert(recent_history.deep_view().subrange(
                0,
                recent_history.deep_view().len() as int,
            ) =~= recent_history.deep_view());
        }
        out.append("\n");
    } else {
        proof {
            assert(out@ =~= old(out)@ + Seq::<char>::empty());
        }
    }
}

/// Append the standing instructions.
fn append_standing(out: &mut String)
    ensures
        final(out)@ == old(out)@ + spec_standing_instructions(),
{
    out.append("## Instructions\n");
    out.append(
        "You are a fully autonomous agent. Do not ask for human input — make decisions and act.\n",
    );
    out.append("Your goal is to ship working code: make changes, test them, and commit.\n\n");
    out.append("- Work through the task independently and make as much progress as you can\n");
    out.append(
        "- When you are done, call the `session_complete` tool with a summary of what you accomplished\n",
    );
    out.append(
        "- You can call the `session_history` tool to browse previous sessions in detail. Use action='list' for an overview or action='view' with session_number to read the full transcript and commands (shows the end first; increase offset to page backward).\n",
    );
    out.append(
        "- Do not stop and ask for clarification — use your best judgment and keep moving\n",
    );
    proof {
        assert(out@ =~= old(out)@ + spec_standing_instructions());
    }
}

/// Append the skills system documentation.
fn append_skills_doc(out: &mut String, skill_count: u64, bot_skill_dir: &str)
    ensures
        final(out)@ == old(out)@ + spec_skills_doc(skill_count as int, bot_skill_dir@),
{
    out.append("\n## Skills System\n\n");
    out.append("Skills are reusable markdown workflows loaded into your prompt each session.\n");
    out.append("You currently have ");
    out.append(u64_to_string(skill_count).as_str());
    out.append(" skill(s) loaded (listed above under \"Available Skills\" if any).\n\n");
    out.append("**Creating skills:** Write a markdown file to `");
    out.append(bot_skill_dir);
    out.append("/` with YAML frontmatter:\n");
    out.append(
        "```\n---\nname: skill-name\ndescription: What this skill does\n---\nStep-by-step instructions, examples, and guidelines here.\n```\n",
    );
    out.append("The skill will be loaded automatically in your next session.\n\n");
    out.append(
        "**When to create a skill:** If you develop a reusable procedure, debugging technique,\nor workflow pattern that would be useful across sessions, save it as a skill.\n",
    );
    proof {
        assert(out@ =~= old(out)@ + spec_skills_doc(skill_count as int, bot_skill_dir@));
    }
}

/// Build the full prompt for one session. The queued user line, when
/// present, is included so the agent addresses it directly.
pub fn build_prompt(
    instructions: &str,
    skills: &Vec<Skill>,
    memory: &MemoryStore,
    recent_history: &Vec<SessionRecord>,
    session_num: u64,
    bot_skill_dir: &str,
    project_context: Option<&str>,
    worktree_info: Option<(&str, &str)>,
    user_input: Option<&str>,
) -> (r: String)
    ensures
        r@ == spec_build_prompt(
            instructions@,
            skills@,
            memory.memory.entries@,
            recent_history.deep_view(),
            session_num as int,
            bot_skill_dir@,
            match project_context {
                Some(p) => Some(p@),
                None => None,
            },
            match worktree_info {
                Some(wt) => Some((wt.0@, wt.1@)),
                None => None,
            },
            match user_input {
                Some(u) => Some(u@),
                None => None,
            },
        ),
{
    let mut out = instructions.to_owned();
    out.append("\n\n");
    append_status(&mut out, session_num, project_context, worktree_info);
    let ghost after_status = out@;
    let skills_section = format_skills_section(skills);
    if !skills_section.as_str().is_empty() {
        out.append(skills_section.as_str());
        out.append("\n");
    }
    proof {
        assert(out@ =~= after_status + (if spec_skills_section(skills@).len() > 0 {
            spec_skills_section(skills@) + "\n"@
        } else {
            Seq::<char>::empty()
        }));
    }
    append_memory_section(&mut out, memory);
    let ghost after_memory = out@;
    match user_input {
        Some(input) => {
            out.append("## User Input\n\n");
            out.append(
                "The user provided the following input. Address this directly in your response:\n\n",
            );
            out.append("> ");
            out.append(input);
            out.append("\n\n");
        },
        None => {},
    }
    proof {
        assert(out@ =~= after_memory + (match user_input {
            Some(input) => "## User Input\n\n"@
                + "The user provided the following input. Address this directly in your response:\n\n"@
                + "> "@ + input@ + "\n\n"@,
            None => Seq::<char>::empty(),
        }));
    }
    append_recent_section(&mut out, recent_history);
    append_standing(&mut out);
    append_skills_doc(&mut out, skills.len() as u64, bot_skill_dir);
    proof {
        assert(out@ =~= spec_build_prompt(
            instructions@,
            skills@,
            memory.memory.entries@,
            recent_history.deep_view(),
            session_num as int,
            bot_skill_dir@,
            match project_context {
                Some(p) => Some(p@),
                None => None,
            },
            match worktree_info {
                Some(wt) => Some((wt.0@, wt.1@)),
                None => None,
            },
            match user_input {
                Some(u) => Some(u@),
                None => None,
            },
        ));
    }
    out
}

} // verus!
