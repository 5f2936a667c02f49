//! Skill parsing and formatting: skills are markdown documents with
//! optional `---`-delimited frontmatter carrying a name and a description.

use vstd::prelude::*;

verus! {

use crate::text::join_with;
use crate::text::join_with_char;
use crate::text::match_at;
use crate::text::find_subseq;
use crate::text::spec_starts_with;
use crate::text::spec_trim_ws;
use crate::text::spec_trim_ws_start;
use crate::text::split_on;
use crate::text::split_on_char;
use crate::text::str_starts_with;
use crate::text::trim_ws;
use crate::text::trim_ws_start;
use crate::workspace::clone_string;
use vstd::string::StrSliceExecFns;
use vstd::string::StringExecFns;

/// A skill loaded from a markdown file.
pub struct Skill {
    /// Display name of the skill.
    pub name: String,
    /// One-line description shown in the prompt.
    pub description: String,
    /// Markdown body: instructions and examples.
    pub body: String,
    /// Source file path, for provenance.
    pub source_path: String,
}

/// The name and description found by scanning frontmatter lines; a repeated
/// key keeps its last value.
pub open spec fn spec_fm_scan(lines: Seq<Seq<char>>) -> (Option<Seq<char>>, Option<Seq<char>>)
    decreases lines.len(),
{
    if lines.len() == 0 {
        (None, None)
    } else {
        let prior = spec_fm_scan(lines.drop_last());
        let t = spec_trim_ws(lines.last());
        if spec_starts_with(t, "name:"@) {
            (Some(spec_trim_ws(t.subrange("name:"@.len() as int, t.len() as int))), prior.1)
        } else if spec_starts_with(t, "description:"@) {
            (prior.0, Some(spec_trim_ws(t.subrange("description:"@.len() as int, t.len() as int))))
        } else {
            prior
        }
    }
}

/// What parsing frontmatter yields: (name, description, body). Without
/// well-formed frontmatter the whole file is the body and the fallback name
/// (the file stem) is used.
pub open spec fn spec_parse_frontmatter(content: Seq<char>, fallback: Seq<char>) -> (
    Seq<char>,
    Seq<char>,
    Seq<char>,
) {
    let trimmed = spec_trim_ws_start(content);
    if !spec_starts_with(trimmed, "---"@) {
        (fallback, Seq::empty(), content)
    } else {
        let after = trimmed.subrange(3, trimmed.len() as int);
        if !(exists|j: int| match_at(after, "\n---"@, j)) {
            (fallback, Seq::empty(), content)
        } else {
            let close = choose|j: int|
                match_at(after, "\n---"@, j) && forall|k: int| 0 <= k < j ==> !match_at(
                    after,
                    "\n---"@,
                    k,
                );
            let fm = after.subrange(0, close);
            let body = spec_trim_ws_start(after.subrange(close + 4, after.len() as int));
            let scan = spec_fm_scan(split_on(fm, '\n'));
            (
                match scan.0 {
                    Some(n) => n,
                    None => fallback,
                },
                match scan.1 {
                    Some(d) => d,
                    None => Seq::empty(),
                },
                body,
            )
        }
    }
}

/// Parse optional frontmatter from a skill document. Malformed or missing
/// frontmatter falls back to the given name with the full file as body.
pub fn parse_frontmatter(content: &str, fallback_name: &str) -> (r: (String, String, String))
    ensures
        (r.0@, r.1@, r.2@) == spec_parse_frontmatter(content@, fallback_name@),
{
    proof {
        reveal_strlit("---");
        reveal_strlit("\n---");
        reveal_strlit("name:");
        reveal_strlit("description:");
    }
    let trimmed = trim_ws_start(content);
    if !str_starts_with(trimmed, "---") {
        return (fallback_name.to_owned(), String::new(), content.to_owned());
    }
    let tn = trimmed.unicode_len();
    let after = trimmed.substring_char(3, tn);
    match find_subseq(after, "\n---") {
        None => {
            proof {
                assert(forall|j: int| !match_at(after@, "\n---"@, j));
            }
            (fallback_name.to_owned(), String::new(), content.to_owned())
        },
        Some(close) => {
            proof {
                let w = choose|j: int|
                    match_at(after@, "\n---"@, j) && forall|k: int| 0 <= k < j ==> !match_at(
                        after@,
                        "\n---"@,
                        k,
                    );
                assert(match_at(after@, "\n---"@, close as int));
                if w != close {
                    if w < close {
                        assert(!match_at(after@, "\n---"@, w));
                    } else {
                        assert(!match_at(after@, "\n---"@, close as int));
                    }
                }
                assert(w == close);
            }
            let an = after.unicode_len();
            let fm = after.substring_char(0, close);
            let body = trim_ws_start(after.substring_char(close + 4, an)).to_owned();
            let lines = split_on_char(fm, '\n');
            let mut name: Option<String> = None;
            let mut description: Option<String> = None;
            let mut i: usize = 0;
            proof {
                assert(lines.deep_view().subrange(0, 0) =~= Seq::<Seq<char>>::empty());
            }
            while i < lines.len()
                invariant
                    i <= lines.len(),
                    lines.deep_view().len() == lines.len(),
                    ({
                        let scan = spec_fm_scan(lines.deep_view().subrange(0, i as int));
                        &&& (match name {
                            Some(n) => scan.0 == Some(n@),
                            None => scan.0 is None,
                        })
                        &&& (match description {
                            Some(d) => scan.1 == Some(d@),
                            None => scan.1 is None,
                        })
                    }),
                decreases lines.len() - i,
            {
                proof {
                    reveal_strlit("name:");
                    reveal_strlit("description:");
                    let pre = lines.deep_view().subrange(0, i as int);
                    let cur = lines.deep_view().subrange(0, i as int + 1);
                    assert(cur.drop_last() =~= pre);
                    assert(cur.last() == lines.deep_view()[i as int]);
                }
                let t = trim_ws(lines[i].as_str());
                if str_starts_with(t, "name:") {
                    let value = t.substring_char(5, t.unicode_len());
                    proof {
                        assert(value@ =~= t@.subrange("name:"@.len() as int, t@.len() as int));
                    }
                    name = Some(trim_ws(value).to_owned());
                } else if str_starts_with(t, "description:") {
                    let value = t.substring_char(12, t.unicode_len());
                    proof {
                        assert(value@ =~= t@.subrange(
                            "description:"@.len() as int,
                            t@.len() as int,
                        ));
                    }
                    description = Some(trim_ws(value).to_owned());
                }
                i = i + 1;
            }
            proof {
                assert(lines.deep_view().subrange(0, lines.len() as int) =~= lines.deep_view());
            }
            let out_name = match name {
                Some(n) => n,
                None => fallback_name.to_owned(),
            };
            let out_desc = match description {
                Some(d) => d,
                None => String::new(),
            };
            (out_name, out_desc, body)
        },
    }
}

/// One skill's part of the prompt section.
pub open spec fn spec_skill_block(s: &Skill) -> Seq<char> {
    "### "@ + s.name@ + "\n"@ + (if s.description@.len() > 0 {
        s.description@ + "\n"@
    } else {
        Seq::<char>::empty()
    }) + (if s.body@.len() > 0 {
        "\n"@ + s.body@ + "\n"@
    } else {
        Seq::<char>::empty()
    }) + "\n"@
}

pub open spec fn spec_skill_blocks(skills: Seq<Skill>) -> Seq<char>
    decreases skills.len(),
{
    if skills.len() == 0 {
        Seq::empty()
    } else {
        spec_skill_blocks(skills.drop_last()) + spec_skill_block(&skills.last())
    }
}

/// The skills section of a prompt: empty when no skill is loaded.
pub open spec fn spec_skills_section(skills: Seq<Skill>) -> Seq<char> {
    if skills.len() == 0 {
        Seq::empty()
    } else {
        "## Available Skills\n\n"@ + spec_skill_blocks(skills)
    }
}

/// Format the loaded skills into a prompt section.
pub fn format_skills_section(skills: &Vec<Skill>) -> (r: String)
    ensures
        r@ == spec_skills_section(skills@),
{
    if skills.len() == 0 {
        proof {
            reveal_strlit("");
        }
        return "".to_owned();
    }
    let mut out = "## Available Skills\n\n".to_owned();
    let ghost header = out@;
    let mut i: usize = 0;
    proof {
        assert(skills@.subrange(0, 0) =~= Seq::<Skill>::empty());
        assert(out@ =~= header + spec_skill_blocks(skills@.subrange(0, 0)));
    }
    while i < skills.len()
        invariant
            i <= skills.len(),
            out@ == header + spec_skill_blocks(skills@.subrange(0, i as int)),
            header == "## Available Skills\n\n"@,
        decreases skills.len() - i,
    {
        proof {
            let pre = skills@.subrange(0, i as int);
            let cur = skills@.subrange(0, i as int + 1);
            assert(cur.drop_last() =~= pre);
            assert(cur.last() == skills@[i as int]);
        }
        let s = &skills[i];
        out.append("### ");
        out.append(s.name.as_str());
        out.append("\n");
        if !s.description.as_str().is_empty() {
            out.append(s.description.as_str());
            out.append("\n");
        }
        if !s.body.as_str().is_empty() {
            out.append("\n");
            out.append(s.body.as_str());
            out.append("\n");
        }
        out.append("\n");
        proof {
            assert(out@ =~= header + spec_skill_blocks(skills@.subrange(0, i as int + 1)));
        }
        i = i + 1;
    }
    proof {
        assert(skills@.subrange(0, skills.len() as int) =~= skills@);
    }
    out
}

/// Why a skill identifier was rejected.
#[derive(Debug)]
pub enum SkillIdError {
    /// Not of the form `owner/repo/skill-name`.
    InvalidIdentifier,
}

/// Split `owner/repo/skill-name` into the source repository and the skill
/// id; everything after the second separator is the skill id.
pub fn parse_skill_identifier(id: &str) -> (r: Result<(String, String), SkillIdError>)
    ensures
        split_on(id@, '/').len() < 3 ==> r is Err,
        split_on(id@, '/').len() >= 3 ==> (r matches Ok(p) && p.0@ == split_on(id@, '/')[0]
            + "/"@ + split_on(id@, '/')[1] && p.1@ == join_with(
            split_on(id@, '/').subrange(2, split_on(id@, '/').len() as int),
            '/',
        )),
{
    let parts = split_on_char(id, '/');
    if parts.len() < 3 {
        return Err(SkillIdError::InvalidIdentifier);
    }
    proof {
        reveal_strlit("/");
    }
    let mut source = clone_string(&parts[0]);
    source.append("/");
    source.append(parts[1].as_str());
    let mut rest: Vec<String> = Vec::new();
    let mut i: usize = 2;
    proof {
        assert(rest.deep_view() =~= parts.deep_view().subrange(2, 2));
    }
    while i < parts.len()
        invariant
            2 <= i <= parts.len(),
            parts.deep_view().len() == parts.len(),
            rest.deep_view() == parts.deep_view().subrange(2, i as int),
        decreases parts.len() - i,
    {
        let ghost pre = rest.deep_view();
        rest.push(clone_string(&parts[i]));
        proof {
            assert(rest.deep_view() =~= pre.push(parts.deep_view()[i as int]));
            assert(parts.deep_view().subrange(2, i as int + 1) =~= parts.deep_view().subrange(
                2,
                i as int,
            ).push(parts.deep_view()[i as int]));
        }
        i = i + 1;
    }
    let skill_id = join_with_char(&rest, '/');
    proof {
        assert(source@ =~= split_on(id@, '/')[0] + "/"@ + split_on(id@, '/')[1]);
    }
    Ok((source, skill_id))
}

} // verus!
