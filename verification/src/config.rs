//! Bot configuration and the path layout under the harness home directory.
//! The home directory itself comes from the environment, so every path
//! helper takes it as a plain value.

use vstd::prelude::*;

verus! {

use crate::numfmt::dec_of;
use crate::text::esc_char;
use crate::text::push_char;
use crate::numfmt::u64_to_string;
use vstd::string::StrSliceExecFns;
use vstd::string::StringExecFns;

/// `<home>/bots/<name>`, a bot's directory.
pub open spec fn spec_bot_dir(home: Seq<char>, name: Seq<char>) -> Seq<char> {
    home + "/bots/"@ + name
}

/// Return the path of a bot's directory.
pub fn bot_dir(home: &str, name: &str) -> (r: String)
    ensures
        r@ == spec_bot_dir(home@, name@),
{
    let mut r = home.to_owned();
    r.append("/bots/");
    r.append(name);
    r
}

/// The shared skills directory.
pub fn global_skills_dir(home: &str) -> (r: String)
    ensures
        r@ == home@ + "/skills"@,
{
    let mut r = home.to_owned();
    r.append("/skills");
    r
}

/// A bot's own skills directory.
pub fn bot_skills_dir(home: &str, name: &str) -> (r: String)
    ensures
        r@ == spec_bot_dir(home@, name@) + "/skills"@,
{
    let mut r = bot_dir(home, name);
    r.append("/skills");
    r
}

/// A bot's global memory document.
pub fn bot_memory_path(home: &str, name: &str) -> (r: String)
    ensures
        r@ == spec_bot_dir(home@, name@) + "/memory.json"@,
{
    let mut r = bot_dir(home, name);
    r.append("/memory.json");
    r
}

/// A bot's per-workspace memory document.
pub fn bot_workspace_memory_path(home: &str, name: &str, slug: &str) -> (r: String)
    ensures
        r@ == spec_bot_dir(home@, name@) + "/workspaces/"@ + slug@ + "/memory.json"@,
{
    let mut r = bot_dir(home, name);
    r.append("/workspaces/");
    r.append(slug);
    r.append("/memory.json");
    r
}

/// A bot's per-workspace history directory.
pub fn bot_workspace_history_dir(home: &str, name: &str, slug: &str) -> (r: String)
    ensures
        r@ == spec_bot_dir(home@, name@) + "/workspaces/"@ + slug@ + "/history"@,
{
    let mut r = bot_dir(home, name);
    r.append("/workspaces/");
    r.append(slug);
    r.append("/history");
    r
}

/// A bot's configuration document.
pub fn bot_config_path(home: &str, name: &str) -> (r: String)
    ensures
        r@ == spec_bot_dir(home@, name@) + "/config.md"@,
{
    let mut r = bot_dir(home, name);
    r.append("/config.md");
    r
}

/// The shared skills manifest.
pub fn global_skills_manifest_path(home: &str) -> (r: String)
    ensures
        r@ == home@ + "/skills"@ + "/installed.json"@,
{
    let mut r = global_skills_dir(home);
    r.append("/installed.json");
    r
}

/// A bot's skills manifest.
pub fn bot_skills_manifest_path(home: &str, name: &str) -> (r: String)
    ensures
        r@ == spec_bot_dir(home@, name@) + "/skills"@ + "/installed.json"@,
{
    let mut r = bot_skills_dir(home, name);
    r.append("/installed.json");
    r
}

/// The sandbox the backend runs commands under.
#[derive(PartialEq, Eq, Structural, Clone, Copy, Debug)]
pub enum SandboxMode {
    ReadOnly,
    WorkspaceWrite,
    DangerFullAccess,
}

/// Runtime configuration for a bot run, from its configuration document.
pub struct BotConfig {
    /// Short description of the bot.
    pub description: String,
    /// Base prompt and instructions for the agent.
    pub instructions: String,
    /// Maximum sessions; `0` means unlimited.
    pub max_iterations: u32,
    /// Seconds between sessions; `0` means no sleep.
    pub sleep_secs: u64,
    /// Phrase that ends the loop.
    pub stop_phrase: Option<String>,
    /// Model override.
    pub model: Option<String>,
    /// Sandbox mode name: `read-only`, `workspace-write` or
    /// `danger-full-access`.
    pub sandbox: String,
    /// Skip the repository requirement.
    pub skip_git_check: bool,
}

impl Default for BotConfig {
    /// The defaults a bot runs with when no configuration document exists.
    fn default() -> (r: BotConfig)
        ensures
            r.description@ == Seq::<char>::empty(),
            r.instructions@
                == "You are an autonomous AI agent. Complete tasks thoroughly and report your progress."@,
            r.max_iterations == 10,
            r.sleep_secs == 30,
            r.stop_phrase matches Some(p) && p@ == "TASK COMPLETE"@,
            r.model is None,
            r.sandbox@ == "workspace-write"@,
            !r.skip_git_check,
    {
        BotConfig {
            description: String::new(),
            instructions:
                "You are an autonomous AI agent. Complete tasks thoroughly and report your progress.".to_owned(),
            max_iterations: 10,
            sleep_secs: 30,
            stop_phrase: Some("TASK COMPLETE".to_owned()),
            model: None,
            sandbox: "workspace-write".to_owned(),
            skip_git_check: false,
        }
    }
}

impl BotConfig {
    /// Apply command-line overrides on top of the loaded configuration.
    pub fn with_overrides(
        self,
        prompt: Option<String>,
        max_iterations: Option<u32>,
        model: Option<String>,
        skip_git_check: bool,
        sleep_secs: Option<u64>,
    ) -> (r: BotConfig)
        ensures
            r.instructions == (match prompt {
                Some(p) => p,
                None => self.instructions,
            }),
            r.max_iterations == (match max_iterations {
                Some(n) => n,
                None => self.max_iterations,
            }),
            r.model == (match model {
                Some(m) => Some(m),
                None => self.model,
            }),
            r.skip_git_check == (skip_git_check || self.skip_git_check),
            r.sleep_secs == (match sleep_secs {
                Some(s) => s,
                None => self.sleep_secs,
            }),
            r.description == self.description,
            r.stop_phrase == self.stop_phrase,
            r.sandbox == self.sandbox,
    {
        let mut out = self;
        match prompt {
            Some(p) => {
                out.instructions = p;
            },
            None => {},
        }
        match max_iterations {
            Some(n) => {
                out.max_iterations = n;
            },
            None => {},
        }
        match model {
            Some(m) => {
                out.model = Some(m);
            },
            None => {},
        }
        if skip_git_check {
            out.skip_git_check = true;
        }
        match sleep_secs {
            Some(s) => {
                out.sleep_secs = s;
            },
            None => {},
        }
        out
    }

    /// The sandbox mode named by the configuration; anything unrecognized
    /// means workspace-write.
    pub fn sandbox_mode(&self) -> (r: SandboxMode)
        ensures
            self.sandbox@ == "read-only"@ ==> r == SandboxMode::ReadOnly,
            self.sandbox@ == "danger-full-access"@ ==> r == SandboxMode::DangerFullAccess,
            self.sandbox@ != "read-only"@ && self.sandbox@ != "danger-full-access"@ ==> r
                == SandboxMode::WorkspaceWrite,
    {
        proof {
            reveal_strlit("read-only");
            reveal_strlit("danger-full-access");
            assert("read-only"@.len() != "danger-full-access"@.len());
        }
        if crate::text::str_eq(self.sandbox.as_str(), "read-only") {
            SandboxMode::ReadOnly
        } else if crate::text::str_eq(self.sandbox.as_str(), "danger-full-access") {
            SandboxMode::DangerFullAccess
        } else {
            SandboxMode::WorkspaceWrite
        }
    }

    /// The skill directories for a bot: the shared one, then its own.
    pub fn skill_dirs(home: &str, bot_name: &str) -> (r: Vec<String>)
        ensures
            r.deep_view().len() == 2,
            r.deep_view()[0] == home@ + "/skills"@,
            r.deep_view()[1] == spec_bot_dir(home@, bot_name@) + "/skills"@,
    {
        let mut r: Vec<String> = Vec::new();
        r.push(global_skills_dir(home));
        r.push(bot_skills_dir(home, bot_name));
        r
    }

    /// The global memory path for a bot.
    pub fn memory_path(home: &str, bot_name: &str) -> (r: String)
        ensures
            r@ == spec_bot_dir(home@, bot_name@) + "/memory.json"@,
    {
        bot_memory_path(home, bot_name)
    }
}

/// Why a configuration document was rejected.
#[derive(Debug)]
pub enum ConfigError {
    /// Frontmatter was opened with `+++` but never closed.
    MissingClosingDelimiter,
}

/// One leading newline dropped, as after an opening delimiter.
pub open spec fn spec_strip_newline(s: Seq<char>) -> Seq<char> {
    if s.len() > 0 && s[0] == '\n' {
        s.subrange(1, s.len() as int)
    } else {
        s
    }
}

/// Split a configuration document into its `+++`-delimited frontmatter text
/// and its body. A document without an opening delimiter is all body; one
/// with an unclosed delimiter is rejected.
pub fn parse_config_md(contents: &str) -> (r: Result<(Option<String>, String), ConfigError>)
    ensures
        ({
            let trimmed = crate::text::spec_trim_ws_start(contents@);
            if !crate::text::spec_starts_with(trimmed, "+++"@) {
                r matches Ok(p) && p.0 is None && p.1@ == crate::text::spec_trim_ws(contents@)
            } else {
                let after = spec_strip_newline(trimmed.subrange(3, trimmed.len() as int));
                if !(exists|j: int| crate::text::match_at(after, "\n+++"@, j)) {
                    r is Err
                } else {
                    let close = choose|j: int|
                        crate::text::match_at(after, "\n+++"@, j) && forall|k: int|
                            0 <= k < j ==> !crate::text::match_at(after, "\n+++"@, k);
                    r matches Ok(p) && (p.0 matches Some(fm) && fm@ == after.subrange(0, close))
                        && p.1@ == (if close + 4 < after.len() {
                        crate::text::spec_trim_ws(after.subrange(close + 4, after.len() as int))
                    } else {
                        Seq::<char>::empty()
                    })
                }
            }
        }),
{
    proof {
        reveal_strlit("+++");
        reveal_strlit("\n+++");
    }
    let trimmed = crate::text::trim_ws_start(contents);
    if !crate::text::str_starts_with(trimmed, "+++") {
        return Ok((None, crate::text::trim_ws(contents).to_owned()));
    }
    let tn = trimmed.unicode_len();
    let opened = trimmed.substring_char(3, tn);
    let on = opened.unicode_len();
    let after: &str = if on > 0 && opened.get_char(0) == '\n' {
        opened.substring_char(1, on)
    } else {
        opened
    };
    proof {
        assert(after@ == spec_strip_newline(trimmed@.subrange(3, trimmed@.len() as int)));
    }
    match crate::text::find_subseq(after, "\n+++") {
        None => {
            proof {
                assert(forall|j: int| !crate::text::match_at(after@, "\n+++"@, j));
            }
            Err(ConfigError::MissingClosingDelimiter)
        },
        Some(close) => {
            proof {
                let w = choose|j: int|
                    crate::text::match_at(after@, "\n+++"@, j) && forall|k: int|
                        0 <= k < j ==> !crate::text::match_at(after@, "\n+++"@, k);
                assert(crate::text::match_at(after@, "\n+++"@, close as int));
                if w != close {
                    if w < close {
                        assert(!crate::text::match_at(after@, "\n+++"@, w));
                    } else {
                        assert(!crate::text::match_at(after@, "\n+++"@, close as int));
                    }
                }
                assert(w == close);
            }
            let an = after.unicode_len();
            let fm = after.substring_char(0, close).to_owned();
            let body = if close + 4 < an {
                crate::text::trim_ws(after.substring_char(close + 4, an)).to_owned()
            } else {
                String::new()
            };
            Ok((Some(fm), body))
        },
    }
}

/// The round trip: parsing the document written for a configuration
/// recovers exactly its frontmatter text and its instructions. Instructions
/// that carry surrounding whitespace, or that contain a line starting with
/// the closing delimiter, cannot be represented faithfully by the document
/// format and are left out.
#[verifier::rlimit(100)]
#[verifier::spinoff_prover]
pub proof fn lemma_config_roundtrip(c: &BotConfig)
    requires
        crate::text::spec_trim_ws(c.instructions@) == c.instructions@,
        forall|j: int| !crate::text::match_at(c.instructions@, "\n+++"@, j),
    ensures
        ({
            let trimmed = crate::text::spec_trim_ws_start(spec_serialize_config_md(c));
            &&& crate::text::spec_starts_with(trimmed, "+++"@)
            &&& ({
                let after = spec_strip_newline(trimmed.subrange(3, trimmed.len() as int));
                &&& (exists|j: int| crate::text::match_at(after, "\n+++"@, j))
                &&& ({
                    let close = choose|j: int|
                        crate::text::match_at(after, "\n+++"@, j) && forall|k: int|
                            0 <= k < j ==> !crate::text::match_at(after, "\n+++"@, k);
                    &&& after.subrange(0, close) == spec_config_frontmatter(c)
                    &&& close + 4 < after.len()
                    &&& crate::text::spec_trim_ws(after.subrange(close + 4, after.len() as int))
                        == c.instructions@
                })
            })
        }),
{
    reveal_strlit("+++\n");
    reveal_strlit("+++");
    reveal_strlit("\n+++\n\n");
    reveal_strlit("\n+++");
    reveal_strlit("\n");
    lemma_serialize_decomposition(c);
    lemma_config_frontmatter_safe(c);
    let doc = spec_serialize_config_md(c);
    let fm = spec_config_frontmatter(c);
    let instr = c.instructions@;
    assert(doc == "+++\n"@ + fm + "\n+++\n\n"@ + instr + "\n"@);
    assert("+++\n"@.len() == 4 && "+++\n"@[0] == '+' && "+++\n"@[3] == '\n');
    assert("\n+++\n\n"@.len() == 6 && "\n+++\n\n"@[0] == '\n');
    assert("\n+++"@.len() == 4 && "\n+++"@[0] == '\n' && "\n+++"@[1] == '+');
    assert(doc[0] == '+');
    assert(crate::text::spec_trim_ws_start(doc) == doc);
    assert(doc.subrange(0, 3) =~= "+++"@);
    assert(crate::text::spec_starts_with(doc, "+++"@));
    let tail3 = doc.subrange(3, doc.len() as int);
    assert(tail3[0] == '\n');
    let after = spec_strip_newline(tail3);
    assert(after =~= tail3.subrange(1, tail3.len() as int));
    assert(after =~= fm + "\n+++\n\n"@ + instr + "\n"@);
    let close0 = fm.len() as int;
    assert(after.subrange(close0, close0 + 4) =~= "\n+++"@);
    assert(crate::text::match_at(after, "\n+++"@, close0));
    assert forall|k: int| 0 <= k < close0 implies !crate::text::match_at(after, "\n+++"@, k) by {
        if crate::text::match_at(after, "\n+++"@, k) {
            assert(after.subrange(k, k + 4)[0] == after[k]);
            assert(after.subrange(k, k + 4)[1] == after[k + 1]);
            assert(after[k] == '\n');
            assert(after[k + 1] == '+');
            if k < fm.len() - 1 {
                assert(after[k] == fm[k]);
                assert(after[k + 1] == fm[k + 1]);
                assert(fm[k + 1] != '+');
            } else {
                assert(after[k] == fm[k]);
                assert(after[k + 1] == "\n+++\n\n"@[0]);
            }
        }
    }
    assert(exists|j: int|
        crate::text::match_at(after, "\n+++"@, j) && forall|k: int|
            0 <= k < j ==> !crate::text::match_at(after, "\n+++"@, k)) by {
        assert(crate::text::match_at(after, "\n+++"@, close0) && forall|k: int|
            0 <= k < close0 ==> !crate::text::match_at(after, "\n+++"@, k));
    }
    let close = choose|j: int|
        crate::text::match_at(after, "\n+++"@, j) && forall|k: int|
            0 <= k < j ==> !crate::text::match_at(after, "\n+++"@, k);
    assert(close == close0) by {
        if close < close0 {
            assert(!crate::text::match_at(after, "\n+++"@, close));
        } else if close > close0 {
            assert(!crate::text::match_at(after, "\n+++"@, close0));
        }
    }
    assert(after.subrange(0, close0) =~= fm);
    assert(close0 + 4 < after.len());
    let rest = after.subrange(close0 + 4, after.len() as int);
    assert(rest =~= seq!['\n', '\n'] + instr + seq!['\n']);
    crate::text::lemma_trim_ws_wrap(instr);
    assert(crate::text::spec_trim_ws(rest) == instr);
}

/// A quoted configuration string: wrapped in double quotes, with
/// backslashes, quotes and control whitespace escaped.
pub open spec fn quote_char(c: char) -> Seq<char> {
    if c == '"' {
        seq!['\\', '"']
    } else {
        esc_char(c)
    }
}

pub open spec fn spec_quote_inner(s: Seq<char>) -> Seq<char>
    decreases s.len(),
{
    if s.len() == 0 {
        Seq::empty()
    } else {
        spec_quote_inner(s.drop_last()) + quote_char(s.last())
    }
}

pub open spec fn spec_quote(s: Seq<char>) -> Seq<char> {
    seq!['"'] + spec_quote_inner(s) + seq!['"']
}

/// Quote a string for the configuration document.
pub fn quote_str(s: &str) -> (r: String)
    ensures
        r@ == spec_quote(s@),
{
    let n = s.unicode_len();
    let mut out = String::new();
    push_char(&mut out, '"');
    let ghost opening = out@;
    let mut i: usize = 0;
    proof {
        assert(s@.subrange(0, 0) =~= Seq::<char>::empty());
        assert(out@ =~= opening + spec_quote_inner(s@.subrange(0, 0)));
    }
    while i < n
        invariant
            i <= n,
            n == s@.len(),
            out@ == opening + spec_quote_inner(s@.subrange(0, i as int)),
            opening == seq!['"'],
        decreases n - i,
    {
        proof {
            let pre = s@.subrange(0, i as int);
            let cur = s@.subrange(0, i as int + 1);
            assert(cur.drop_last() =~= pre);
            assert(cur.last() == s@[i as int]);
        }
        let c = s.get_char(i);
        if c == '"' {
            push_char(&mut out, '\\');
            push_char(&mut out, '"');
        } else if c == '\\' {
            push_char(&mut out, '\\');
            push_char(&mut out, '\\');
        } else if c == '\n' {
            push_char(&mut out, '\\');
            push_char(&mut out, 'n');
        } else if c == '\t' {
            push_char(&mut out, '\\');
            push_char(&mut out, 't');
        } else if c == '\r' {
            push_char(&mut out, '\\');
            push_char(&mut out, 'r');
        } else {
            push_char(&mut out, c);
        }
        proof {
            assert(out@ =~= opening + spec_quote_inner(s@.subrange(0, i as int + 1)));
        }
        i = i + 1;
    }
    proof {
        assert(s@.subrange(0, n as int) =~= s@);
    }
    push_char(&mut out, '"');
    out
}

/// The frontmatter text of a bot's configuration document: one line per
/// value that differs from the defaults.
pub open spec fn spec_config_frontmatter(c: &BotConfig) -> Seq<char> {
    (if c.description@.len() > 0 {
        "description = "@ + spec_quote(c.description@) + "\n"@
    } else {
        Seq::<char>::empty()
    }) + (if c.max_iterations != 10 {
        "max_iterations = "@ + dec_of(c.max_iterations as int) + "\n"@
    } else {
        Seq::<char>::empty()
    }) + (if c.sleep_secs != 30 {
        "sleep_secs = "@ + dec_of(c.sleep_secs as int) + "\n"@
    } else {
        Seq::<char>::empty()
    }) + (match c.stop_phrase {
        Some(p) => if p@ != "TASK COMPLETE"@ {
            "stop_phrase = "@ + spec_quote(p@) + "\n"@
        } else {
            Seq::<char>::empty()
        },
        None => Seq::<char>::empty(),
    }) + (match c.model {
        Some(m) => "model = "@ + spec_quote(m@) + "\n"@,
        None => Seq::<char>::empty(),
    }) + (if c.sandbox@ != "workspace-write"@ {
        "sandbox = "@ + spec_quote(c.sandbox@) + "\n"@
    } else {
        Seq::<char>::empty()
    }) + (if c.skip_git_check {
        "skip_git_check = true\n"@
    } else {
        Seq::<char>::empty()
    })
}

/// The configuration document for a bot: frontmatter holding everything
/// that differs from the defaults, then the instructions as the body.
pub open spec fn spec_serialize_config_md(c: &BotConfig) -> Seq<char> {
    "+++\n"@ + (if c.description@.len() > 0 {
        "description = "@ + spec_quote(c.description@) + "\n"@
    } else {
        Seq::<char>::empty()
    }) + (if c.max_iterations != 10 {
        "max_iterations = "@ + dec_of(c.max_iterations as int) + "\n"@
    } else {
        Seq::<char>::empty()
    }) + (if c.sleep_secs != 30 {
        "sleep_secs = "@ + dec_of(c.sleep_secs as int) + "\n"@
    } else {
        Seq::<char>::empty()
    }) + (match c.stop_phrase {
        Some(p) => if p@ != "TASK COMPLETE"@ {
            "stop_phrase = "@ + spec_quote(p@) + "\n"@
        } else {
            Seq::<char>::empty()
        },
        None => Seq::<char>::empty(),
    }) + (match c.model {
        Some(m) => "model = "@ + spec_quote(m@) + "\n"@,
        None => Seq::<char>::empty(),
    }) + (if c.sandbox@ != "workspace-write"@ {
        "sandbox = "@ + spec_quote(c.sandbox@) + "\n"@
    } else {
        Seq::<char>::empty()
    }) + (if c.skip_git_check {
        "skip_git_check = true\n"@
    } else {
        Seq::<char>::empty()
    }) + "\n+++\n\n"@ + c.instructions@ + "\n"@
}

/// The document decomposes into its frontmatter and body regions.
#[verifier::rlimit(100)]
#[verifier::spinoff_prover]
pub proof fn lemma_serialize_decomposition(c: &BotConfig)
    ensures
        spec_serialize_config_md(c) == "+++\n"@ + spec_config_frontmatter(c) + "\n+++\n\n"@
            + c.instructions@ + "\n"@,
{
    let p1 = if c.description@.len() > 0 {
        "description = "@ + spec_quote(c.description@) + "\n"@
    } else {
        Seq::<char>::empty()
    };
    let p2 = if c.max_iterations != 10 {
        "max_iterations = "@ + dec_of(c.max_iterations as int) + "\n"@
    } else {
        Seq::<char>::empty()
    };
    let p3 = if c.sleep_secs != 30 {
        "sleep_secs = "@ + dec_of(c.sleep_secs as int) + "\n"@
    } else {
        Seq::<char>::empty()
    };
    let p4 = match c.stop_phrase {
        Some(p) => if p@ != "TASK COMPLETE"@ {
            "stop_phrase = "@ + spec_quote(p@) + "\n"@
        } else {
            Seq::<char>::empty()
        },
        None => Seq::<char>::empty(),
    };
    let p5 = match c.model {
        Some(m) => "model = "@ + spec_quote(m@) + "\n"@,
        None => Seq::<char>::empty(),
    };
    let p6 = if c.sandbox@ != "workspace-write"@ {
        "sandbox = "@ + spec_quote(c.sandbox@) + "\n"@
    } else {
        Seq::<char>::empty()
    };
    let p7 = if c.skip_git_check {
        "skip_git_check = true\n"@
    } else {
        Seq::<char>::empty()
    };
    assert(spec_config_frontmatter(c) == p1 + p2 + p3 + p4 + p5 + p6 + p7);
    assert(spec_serialize_config_md(c) == "+++\n"@ + p1 + p2 + p3 + p4 + p5 + p6 + p7
        + "\n+++\n\n"@ + c.instructions@ + "\n"@);
    lemma_concat_regions("+++\n"@, p1 + p2 + p3 + p4 + p5 + p6 + p7, "\n+++\n\n"@,
        c.instructions@, "\n"@, p1, p2, p3, p4, p5, p6, p7);
}

/// Re-associating the serialized regions changes nothing.
proof fn lemma_concat_regions(
    h: Seq<char>,
    fm: Seq<char>,
    close: Seq<char>,
    instr: Seq<char>,
    nl: Seq<char>,
    p1: Seq<char>,
    p2: Seq<char>,
    p3: Seq<char>,
    p4: Seq<char>,
    p5: Seq<char>,
    p6: Seq<char>,
    p7: Seq<char>,
)
    requires
        fm == p1 + p2 + p3 + p4 + p5 + p6 + p7,
    ensures
        h + p1 + p2 + p3 + p4 + p5 + p6 + p7 + close + instr + nl == h + fm + close + instr + nl,
{
    assert(h + p1 + p2 + p3 + p4 + p5 + p6 + p7 + close + instr + nl =~= h + (p1 + p2 + p3 + p4
        + p5 + p6 + p7) + close + instr + nl);
}

/// Quoted text stays on one line: every newline inside it is escaped.
pub proof fn lemma_quote_clean(x: Seq<char>)
    ensures
        forall|i: int| 0 <= i < spec_quote(x).len() ==> #[trigger] spec_quote(x)[i] != '\n',
{
    lemma_quote_inner_clean(x);
    assert forall|i: int| 0 <= i < spec_quote(x).len() implies #[trigger] spec_quote(x)[i]
        != '\n' by {
        if i == 0 {
            assert(spec_quote(x)[i] == '"');
        } else if i < spec_quote(x).len() - 1 {
            assert(spec_quote(x)[i] == spec_quote_inner(x)[i - 1]);
        } else {
            assert(spec_quote(x)[i] == '"');
        }
    }
}

proof fn lemma_quote_inner_clean(x: Seq<char>)
    ensures
        forall|i: int| 0 <= i < spec_quote_inner(x).len() ==> #[trigger] spec_quote_inner(x)[i]
            != '\n',
    decreases x.len(),
{
    if x.len() > 0 {
        lemma_quote_inner_clean(x.drop_last());
        let whole = spec_quote_inner(x);
        let hd = spec_quote_inner(x.drop_last());
        assert forall|i: int| 0 <= i < whole.len() implies #[trigger] whole[i] != '\n' by {
            if i < hd.len() {
                assert(whole[i] == hd[i]);
            } else {
                assert(whole[i] == quote_char(x.last())[i - hd.len()]);
            }
        }
    }
}

/// A frontmatter block: empty, or newline-terminated, opening with a key
/// character, and never putting a `+` right after a line break.
pub open spec fn safe_block(s: Seq<char>) -> bool {
    s.len() == 0 || {
        &&& s[0] != '+'
        &&& s.last() == '\n'
        &&& forall|k: int| 0 <= k < s.len() - 1 && s[k] == '\n' ==> #[trigger] s[k + 1] != '+'
    }
}

/// Safe blocks compose.
pub proof fn lemma_safe_block_concat(a: Seq<char>, b: Seq<char>)
    requires
        safe_block(a),
        safe_block(b),
    ensures
        safe_block(a + b),
{
    if a.len() == 0 {
        assert(a + b =~= b);
    } else if b.len() == 0 {
        assert(a + b =~= a);
    } else {
        let s = a + b;
        assert(s[0] == a[0]);
        assert(s.last() == b.last());
        assert forall|k: int| 0 <= k < s.len() - 1 && s[k] == '\n' implies #[trigger] s[k + 1]
            != '+' by {
            if k < a.len() - 1 {
                assert(s[k] == a[k]);
                assert(s[k + 1] == a[k + 1]);
            } else if k == a.len() - 1 {
                assert(s[k + 1] == b[0]);
            } else {
                let j = k - a.len();
                assert(s[k] == b[j]);
                assert(s[k + 1] == b[j + 1]);
                assert(b[j + 1] != '+');
            }
        }
    }
}

/// A newline-free body followed by one newline is a safe block.
pub proof fn lemma_line_safe(body: Seq<char>)
    requires
        body.len() > 0,
        body[0] != '+',
        forall|i: int| 0 <= i < body.len() ==> #[trigger] body[i] != '\n',
    ensures
        safe_block(body + "\n"@),
{
    reveal_strlit("\n");
    let s = body + "\n"@;
    assert("\n"@.len() == 1 && "\n"@[0] == '\n');
    assert(s.last() == '\n');
    assert(s[0] == body[0]);
    assert forall|k: int| 0 <= k < s.len() - 1 && s[k] == '\n' implies #[trigger] s[k + 1]
        != '+' by {
        assert(s[k] == body[k]);
        assert(body[k] != '\n');
    }
}

/// A key line holding a quoted value is a safe block.
proof fn lemma_quoted_line_safe(prefix: Seq<char>, x: Seq<char>)
    requires
        prefix.len() > 0,
        prefix[0] != '+',
        forall|i: int| 0 <= i < prefix.len() ==> #[trigger] prefix[i] != '\n',
    ensures
        safe_block(prefix + spec_quote(x) + "\n"@),
{
    lemma_quote_clean(x);
    let body = prefix + spec_quote(x);
    assert(body[0] == prefix[0]);
    assert forall|i: int| 0 <= i < body.len() implies #[trigger] body[i] != '\n' by {
        if i < prefix.len() {
            assert(body[i] == prefix[i]);
        } else {
            assert(body[i] == spec_quote(x)[i - prefix.len()]);
        }
    }
    lemma_line_safe(body);
    assert(body + "\n"@ =~= prefix + spec_quote(x) + "\n"@);
}

/// A key line holding a number is a safe block.
proof fn lemma_number_line_safe(prefix: Seq<char>, n: int)
    requires
        prefix.len() > 0,
        prefix[0] != '+',
        forall|i: int| 0 <= i < prefix.len() ==> #[trigger] prefix[i] != '\n',
        n >= 0,
    ensures
        safe_block(prefix + dec_of(n) + "\n"@),
{
    crate::history::lemma_dec_of_clean(n);
    let body = prefix + dec_of(n);
    assert(body[0] == prefix[0]);
    assert forall|i: int| 0 <= i < body.len() implies #[trigger] body[i] != '\n' by {
        if i < prefix.len() {
            assert(body[i] == prefix[i]);
        } else {
            assert(body[i] == dec_of(n)[i - prefix.len()]);
        }
    }
    lemma_line_safe(body);
    assert(body + "\n"@ =~= prefix + dec_of(n) + "\n"@);
}

/// The whole frontmatter is a safe block: its key lines never put a `+`
/// right after a line break, so the closing delimiter cannot occur early.
#[verifier::rlimit(100)]
#[verifier::spinoff_prover]
pub proof fn lemma_config_frontmatter_safe(c: &BotConfig)
    ensures
        safe_block(spec_config_frontmatter(c)),
{
    reveal_strlit("description = ");
    reveal_strlit("max_iterations = ");
    reveal_strlit("sleep_secs = ");
    reveal_strlit("stop_phrase = ");
    reveal_strlit("model = ");
    reveal_strlit("sandbox = ");
    reveal_strlit("skip_git_check = true");
    reveal_strlit("skip_git_check = true\n");
    reveal_strlit("\n");
    let p1 = if c.description@.len() > 0 {
        "description = "@ + spec_quote(c.description@) + "\n"@
    } else {
        Seq::<char>::empty()
    };
    let p2 = if c.max_iterations != 10 {
        "max_iterations = "@ + dec_of(c.max_iterations as int) + "\n"@
    } else {
        Seq::<char>::empty()
    };
    let p3 = if c.sleep_secs != 30 {
        "sleep_secs = "@ + dec_of(c.sleep_secs as int) + "\n"@
    } else {
        Seq::<char>::empty()
    };
    let p4 = match c.stop_phrase {
        Some(p) => if p@ != "TASK COMPLETE"@ {
            "stop_phrase = "@ + spec_quote(p@) + "\n"@
        } else {
            Seq::<char>::empty()
        },
        None => Seq::<char>::empty(),
    };
    let p5 = match c.model {
        Some(m) => "model = "@ + spec_quote(m@) + "\n"@,
        None => Seq::<char>::empty(),
    };
    let p6 = if c.sandbox@ != "workspace-write"@ {
        "sandbox = "@ + spec_quote(c.sandbox@) + "\n"@
    } else {
        Seq::<char>::empty()
    };
    let p7 = if c.skip_git_check {
        "skip_git_check = true\n"@
    } else {
        Seq::<char>::empty()
    };
    assert(safe_block(p1)) by {
        if c.description@.len() > 0 {
            lemma_quoted_line_safe("description = "@, c.description@);
        }
    }
    assert(safe_block(p2)) by {
        if c.max_iterations != 10 {
            lemma_number_line_safe("max_iterations = "@, c.max_iterations as int);
        }
    }
    assert(safe_block(p3)) by {
        if c.sleep_secs != 30 {
            lemma_number_line_safe("sleep_secs = "@, c.sleep_secs as int);
        }
    }
    assert(safe_block(p4)) by {
        match c.stop_phrase {
            Some(p) => {
                if p@ != "TASK COMPLETE"@ {
                    lemma_quoted_line_safe("stop_phrase = "@, p@);
                }
            },
            None => {},
        }
    }
    assert(safe_block(p5)) by {
        match c.model {
            Some(m) => {
                lemma_quoted_line_safe("model = "@, m@);
            },
            None => {},
        }
    }
    assert(safe_block(p6)) by {
        if c.sandbox@ != "workspace-write"@ {
            lemma_quoted_line_safe("sandbox = "@, c.sandbox@);
        }
    }
    assert(safe_block(p7)) by {
        if c.skip_git_check {
            lemma_line_safe("skip_git_check = true"@);
            assert("skip_git_check = true"@ + "\n"@ =~= "skip_git_check = true\n"@);
        }
    }
    lemma_safe_block_concat(p1, p2);
    lemma_safe_block_concat(p1 + p2, p3);
    lemma_safe_block_concat(p1 + p2 + p3, p4);
    lemma_safe_block_concat(p1 + p2 + p3 + p4, p5);
    lemma_safe_block_concat(p1 + p2 + p3 + p4 + p5, p6);
    lemma_safe_block_concat(p1 + p2 + p3 + p4 + p5 + p6, p7);
    assert(spec_config_frontmatter(c) == p1 + p2 + p3 + p4 + p5 + p6 + p7);
}

/// Write a configuration back to its document form. Default values are
/// omitted from the frontmatter.
#[verifier::rlimit(100)]
#[verifier::spinoff_prover]
pub fn serialize_config_md(config: &BotConfig) -> (r: String)
    ensures
        r@ == spec_serialize_config_md(config),
{
    proof {
        reveal_strlit("TASK COMPLETE");
        reveal_strlit("workspace-write");
    }
    let mut fm = "+++\n".to_owned();
    let ghost s1 = "+++\n"@ + (if config.description@.len() > 0 {
        "description = "@ + spec_quote(config.description@) + "\n"@
    } else {
        Seq::<char>::empty()
    });
    if !config.description.as_str().is_empty() {
        fm.append("description = ");
        fm.append(quote_str(config.description.as_str()).as_str());
        fm.append("\n");
    }
    proof {
        assert(fm@ =~= s1);
    }
    let ghost s2 = s1 + (if config.max_iterations != 10 {
        "max_iterations = "@ + dec_of(config.max_iterations as int) + "\n"@
    } else {
        Seq::<char>::empty()
    });
    if config.max_iterations != 10 {
        fm.append("max_iterations = ");
        fm.append(u64_to_string(config.max_iterations as u64).as_str());
        fm.append("\n");
    }
    proof {
        assert(fm@ =~= s2);
    }
    let ghost s3 = s2 + (if config.sleep_secs != 30 {
        "sleep_secs = "@ + dec_of(config.sleep_secs as int) + "\n"@
    } else {
        Seq::<char>::empty()
    });
    if config.sleep_secs != 30 {
        fm.append("sleep_secs = ");
        fm.append(u64_to_string(config.sleep_secs).as_str());
        fm.append("\n");
    }
    proof {
        assert(fm@ =~= s3);
    }
    let ghost s4 = s3 + (match &config.stop_phrase {
        Some(p) => if p@ != "TASK COMPLETE"@ {
            "stop_phrase = "@ + spec_quote(p@) + "\n"@
        } else {
            Seq::<char>::empty()
        },
        None => Seq::<char>::empty(),
    });
    match &config.stop_phrase {
        Some(p) => {
            if !crate::text::str_eq(p.as_str(), "TASK COMPLETE") {
                fm.append("stop_phrase = ");
                fm.append(quote_str(p.as_str()).as_str());
                fm.append("\n");
            }
        },
        None => {},
    }
    proof {
        assert(fm@ =~= s4);
    }
    let ghost s5 = s4 + (match &config.model {
        Some(m) => "model = "@ + spec_quote(m@) + "\n"@,
        None => Seq::<char>::empty(),
    });
    match &config.model {
        Some(m) => {
            fm.append("model = ");
            fm.append(quote_str(m.as_str()).as_str());
            fm.append("\n");
        },
        None => {},
    }
    proof {
        assert(fm@ =~= s5);
    }
    let ghost s6 = s5 + (if config.sandbox@ != "workspace-write"@ {
        "sandbox = "@ + spec_quote(config.sandbox@) + "\n"@
    } else {
        Seq::<char>::empty()
    });
    if !crate::text::str_eq(config.sandbox.as_str(), "workspace-write") {
        fm.append("sandbox = ");
        fm.append(quote_str(config.sandbox.as_str()).as_str());
        fm.append("\n");
    }
    proof {
        assert(fm@ =~= s6);
    }
    let ghost s7 = s6 + (if config.skip_git_check {
        "skip_git_check = true\n"@
    } else {
        Seq::<char>::empty()
    });
    if config.skip_git_check {
        fm.append("skip_git_check = true\n");
    }
    proof {
        assert(fm@ =~= s7);
    }
    fm.append("\n+++\n\n");
    fm.append(config.instructions.as_str());
    fm.append("\n");
    proof {
        assert(fm@ =~= s7 + "\n+++\n\n"@ + config.instructions@ + "\n"@);
        assert(spec_serialize_config_md(config) == s7 + "\n+++\n\n"@ + config.instructions@
            + "\n"@);
    }
    fm
}

} // verus!
