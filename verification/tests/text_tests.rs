use openbot::config::{
    bot_config_path, bot_dir, bot_skills_dir, bot_workspace_history_dir,
    bot_workspace_memory_path, parse_config_md, serialize_config_md, BotConfig, SandboxMode,
};
use openbot::memory::{Memory, MemoryStore};
use openbot::numfmt::{i32_to_string, i64_to_string, parse_i64, parse_u64, u64_to_string};
use openbot::prompt::build_prompt;
use openbot::registry::{search_url, skill_md_url_multi, skill_md_url_single, urlencoded};
use openbot::skills::{format_skills_section, parse_frontmatter, parse_skill_identifier, Skill};
use openbot::text::{escape_field, split_on_char, str_eq, truncate, truncate_string, unescape_field};

#[test]
fn decimal_roundtrip() {
    assert_eq!(u64_to_string(0), "0");
    assert_eq!(u64_to_string(18446744073709551615), "18446744073709551615");
    assert_eq!(i64_to_string(-42), "-42");
    assert_eq!(i64_to_string(i64::MIN), "-9223372036854775808");
    assert_eq!(i32_to_string(-7), "-7");
    assert_eq!(parse_u64("90210"), Some(90210));
    assert_eq!(parse_u64("007"), None);
    assert_eq!(parse_u64(""), None);
    assert_eq!(parse_u64("12a"), None);
    assert_eq!(parse_i64("-9223372036854775808"), Some(i64::MIN));
    assert_eq!(parse_i64("-0"), None);
}

#[test]
fn escape_roundtrip() {
    let plain = "a\\b\nc\td\re";
    let escaped = escape_field(plain);
    assert!(!escaped.contains('\n'));
    assert!(!escaped.contains('\t'));
    assert_eq!(unescape_field(&escaped).as_deref(), Some(plain));
    assert_eq!(unescape_field("dangling\\"), None);
    assert_eq!(unescape_field("bad\\q"), None);
}

#[test]
fn split_and_truncate() {
    let parts = split_on_char("a,b,,c", ',');
    assert_eq!(parts, vec!["a", "b", "", "c"]);
    assert_eq!(truncate("hello", 3), "hel");
    assert_eq!(truncate("hi", 10), "hi");
    assert_eq!(truncate_string("hello world", 5), "hello...");
    assert_eq!(truncate_string("hey", 5), "hey");
    assert!(str_eq("same", "same"));
    assert!(!str_eq("same", "Same"));
}

#[test]
fn truncation_counts_bytes() {
    // The budget is in bytes: `é` is two bytes, so a budget of 3 keeps only
    // `hé`, and a budget falling inside a character steps back to the last
    // boundary instead of panicking.
    assert_eq!(truncate("héllo", 3), "hé");
    assert_eq!(truncate("héllo", 2), "h");
    assert_eq!(truncate("héllo", 6), "héllo");
    assert_eq!(truncate_string("héllo", 4), "hél...");
    assert_eq!(truncate_string("héllo", 6), "héllo");
    // The kept text plus the ellipsis stays within budget + 3 bytes.
    let out = truncate_string("ééééé", 5);
    assert_eq!(out, "éé...");
    assert!(out.len() <= 5 + 3);
}

#[test]
fn url_encoding() {
    assert_eq!(urlencoded("a b&c=d+e#f%g"), "a%20b%26c%3Dd%2Be%23f%25g");
    assert_eq!(
        search_url("rust tips", 10),
        "https://skills.sh/api/search?q=rust%20tips&limit=10"
    );
    assert_eq!(
        skill_md_url_multi("owner/repo", "brainstorm"),
        "https://raw.githubusercontent.com/owner/repo/main/skills/brainstorm/SKILL.md"
    );
    assert_eq!(
        skill_md_url_single("owner/repo"),
        "https://raw.githubusercontent.com/owner/repo/main/SKILL.md"
    );
}

#[test]
fn path_helpers() {
    assert_eq!(bot_dir("/home/u/.openbot", "mybot"), "/home/u/.openbot/bots/mybot");
    assert_eq!(
        bot_skills_dir("/h", "b"),
        "/h/bots/b/skills"
    );
    assert_eq!(
        bot_workspace_memory_path("/h", "b", "proj"),
        "/h/bots/b/workspaces/proj/memory.json"
    );
    assert_eq!(
        bot_workspace_history_dir("/h", "b", "proj"),
        "/h/bots/b/workspaces/proj/history"
    );
    assert_eq!(bot_config_path("/h", "b"), "/h/bots/b/config.md");
}

#[test]
fn config_defaults_and_overrides() {
    let c = BotConfig::default();
    assert_eq!(c.max_iterations, 10);
    assert_eq!(c.sleep_secs, 30);
    assert_eq!(c.sandbox, "workspace-write");
    assert_eq!(c.sandbox_mode(), SandboxMode::WorkspaceWrite);
    let c = c.with_overrides(
        Some("new prompt".to_string()),
        Some(3),
        Some("gpt-x".to_string()),
        true,
        Some(0),
    );
    assert_eq!(c.instructions, "new prompt");
    assert_eq!(c.max_iterations, 3);
    assert_eq!(c.model.as_deref(), Some("gpt-x"));
    assert!(c.skip_git_check);
    assert_eq!(c.sleep_secs, 0);

    let mut ro = BotConfig::default();
    ro.sandbox = "read-only".to_string();
    assert_eq!(ro.sandbox_mode(), SandboxMode::ReadOnly);
    ro.sandbox = "danger-full-access".to_string();
    assert_eq!(ro.sandbox_mode(), SandboxMode::DangerFullAccess);
}

#[test]
fn config_serialization() {
    let mut c = BotConfig::default();
    c.description = "helper".to_string();
    c.max_iterations = 5;
    c.instructions = "Do things.".to_string();
    let doc = serialize_config_md(&c);
    assert_eq!(
        doc,
        "+++\ndescription = \"helper\"\nmax_iterations = 5\n\n+++\n\nDo things.\n"
    );
    // Everything at defaults: empty frontmatter, body only.
    let mut d = BotConfig::default();
    d.instructions = "Body".to_string();
    assert_eq!(serialize_config_md(&d), "+++\n\n+++\n\nBody\n");
}

#[test]
fn config_document_splitting() {
    // Splitting what was serialized gives the frontmatter text and the body
    // back.
    let mut c = BotConfig::default();
    c.max_iterations = 5;
    c.instructions = "Do things.".to_string();
    let doc = serialize_config_md(&c);
    let (fm, body) = parse_config_md(&doc).unwrap();
    assert_eq!(fm.as_deref(), Some("max_iterations = 5\n"));
    assert_eq!(body, "Do things.");

    // No opening delimiter: the whole trimmed file is the body.
    let (fm, body) = parse_config_md("  just instructions\n").unwrap();
    assert!(fm.is_none());
    assert_eq!(body, "just instructions");

    // An unclosed delimiter is rejected.
    assert!(parse_config_md("+++\nnever closed").is_err());
}

#[test]
fn frontmatter_parsing() {
    let (name, desc, body) =
        parse_frontmatter("---\nname: my-skill\ndescription: does things\n---\nBody here", "stem");
    assert_eq!(name, "my-skill");
    assert_eq!(desc, "does things");
    assert_eq!(body, "Body here");

    let (name, desc, body) = parse_frontmatter("no frontmatter at all", "stem");
    assert_eq!(name, "stem");
    assert_eq!(desc, "");
    assert_eq!(body, "no frontmatter at all");

    // An unclosed delimiter falls back to the whole file as body.
    let (name, _, body) = parse_frontmatter("---\nname: broken\nno close", "stem");
    assert_eq!(name, "stem");
    assert_eq!(body, "---\nname: broken\nno close");
}

#[test]
fn skill_identifier_parsing() {
    let (source, id) = parse_skill_identifier("obra/superpowers/brainstorming").unwrap();
    assert_eq!(source, "obra/superpowers");
    assert_eq!(id, "brainstorming");
    let (source, id) = parse_skill_identifier("a/b/c/d").unwrap();
    assert_eq!(source, "a/b");
    assert_eq!(id, "c/d");
    assert!(parse_skill_identifier("just-one").is_err());
    assert!(parse_skill_identifier("two/parts").is_err());
}

#[test]
fn skills_section_formatting() {
    let skills = vec![Skill {
        name: "tidy".to_string(),
        description: "clean up".to_string(),
        body: "Steps.".to_string(),
        source_path: "/s/tidy.md".to_string(),
    }];
    let out = format_skills_section(&skills);
    assert_eq!(out, "## Available Skills\n\n### tidy\nclean up\n\nSteps.\n\n");
    let empty: Vec<Skill> = Vec::new();
    assert_eq!(format_skills_section(&empty), "");
}

#[test]
fn memory_store_operations() {
    let mut store = MemoryStore::new("/tmp/mem.json".to_string(), Memory::new());
    store.set("lang".to_string(), "rust".to_string());
    store.set("lang".to_string(), "verus".to_string());
    store.set("goal".to_string(), "ship".to_string());
    assert_eq!(store.memory.entries.len(), 2);
    assert_eq!(store.memory.entries[0].1, "verus");
    assert_eq!(store.remove("lang").as_deref(), Some("verus"));
    assert!(store.remove("lang").is_none());
    store.add_iteration(1, 0, "asked", "answered");
    let shown = store.display();
    assert!(shown.contains("  goal = ship\n"));
    assert!(shown.contains("## History (1 iterations)"));
    assert!(shown.contains("[1970-01-01 00:00:00] iteration 1: answered"));
    store.clear();
    assert_eq!(store.display(), "No memory entries.\nNo iteration history.\n");
}

#[test]
fn prompt_includes_sections() {
    let skills: Vec<Skill> = Vec::new();
    let store = MemoryStore::new("p".to_string(), Memory::new());
    let recent: Vec<openbot::history::SessionRecord> = Vec::new();
    let prompt = build_prompt(
        "Fix the bug.",
        &skills,
        &store,
        &recent,
        4,
        "/h/bots/b/skills",
        Some("proj"),
        Some(("run/b-1", "main")),
        Some("hurry up"),
    );
    assert!(prompt.starts_with("Fix the bug.\n\n## Status\n- Project: proj\n- Session: 4\n"));
    assert!(prompt.contains("- Branch: `run/b-1` (based on `main`)"));
    assert!(prompt.contains("## User Input\n\n"));
    assert!(prompt.contains("> hurry up\n"));
    assert!(prompt.contains("## Instructions\n"));
    assert!(prompt.contains("## Skills System\n"));
    assert!(prompt.contains("You currently have 0 skill(s) loaded"));
    assert!(prompt.contains("Write a markdown file to `/h/bots/b/skills/`"));
}
