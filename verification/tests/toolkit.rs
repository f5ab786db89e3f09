use agwiki::toolkit::{default_prompt_path, expand_ingest_prompt, expand_wiki_ingest_prompt, needs_agents_md, prep, require_wiki_ingest_prompt, wiki_ingest_prompt_path, PrepError};

#[test]
fn expand_replaces_ingest_path_and_wiki_root() {
    let out = expand_ingest_prompt(
        "src={{INGEST_PATH}} root={{WIKI_ROOT}}",
        "",
        "/toolkit",
        "/abs/wiki",
        "/abs/wiki/raw/x.md",
    );
    assert!(out.contains("/abs/wiki/raw/x.md"));
    assert!(out.contains("/abs/wiki"));
    assert_eq!(out, "src=/abs/wiki/raw/x.md root=/abs/wiki");
}

#[test]
fn expand_fills_agents_md_and_toolkit_root() {
    let tpl = "{{WIKIFY_AGENTS_MD}}\nat {{WIKIFY_ROOT}}: {{INGEST_PATH}} {{INGEST_PATH}}";
    assert!(needs_agents_md(tpl));
    assert!(!needs_agents_md("plain {{INGEST_PATH}}"));
    let out = expand_ingest_prompt(tpl, "RULES {{WIKI_ROOT}}", "/tk", "/w", "/w/raw/a.md");
    assert_eq!(out, "RULES /w\nat /tk: /w/raw/a.md /w/raw/a.md");
}

#[test]
fn default_prompt_path_in_toolkit() {
    assert_eq!(default_prompt_path("/opt/agwiki"), "/opt/agwiki/prompts/ingest.md");
    assert_eq!(default_prompt_path("/opt/agwiki/"), "/opt/agwiki/prompts/ingest.md");
}

#[test]
fn prep_resolves_md_path() {
    let out = prep("/w", "note.md", Some("/w/note.md".to_string()), false, None).unwrap();
    assert!(out.starts_with('/'));
    assert!(out.ends_with("note.md"));
    assert!(prep("/w", "NOTE.MD", Some("/w/NOTE.MD".to_string()), false, None).is_ok());
}

#[test]
fn prep_raw_only_rejects_outside_raw() {
    let e = prep("/w", "note.md", Some("/w/note.md".to_string()), true, Some("/w/raw".to_string()))
        .unwrap_err();
    assert_eq!(
        e,
        PrepError::NotUnderRaw { raw: "/w/raw".to_string(), file: "/w/note.md".to_string() }
    );
    assert_eq!(e.message(), "not under /w/raw: /w/note.md");
}

#[test]
fn prep_raw_only_accepts_under_raw() {
    assert!(prep("/w", "raw/note.md", Some("/w/raw/note.md".to_string()), true, Some("/w/raw".to_string())).is_ok());
}

#[test]
fn prep_errors() {
    assert_eq!(
        prep("/w", "gone.md", None, false, None).unwrap_err().message(),
        "not found: gone.md"
    );
    assert_eq!(
        prep("/w", "a.txt", Some("/w/a.txt".to_string()), false, None).unwrap_err().message(),
        "expected .md file, got: /w/a.txt"
    );
    assert_eq!(
        prep("/w", ".md", Some("/w/.md".to_string()), false, None).unwrap_err(),
        PrepError::NotMarkdown("/w/.md".to_string())
    );
    assert_eq!(
        prep("/w", "a.md", Some("/w/a.md".to_string()), true, None).unwrap_err().message(),
        "raw/ missing under wiki root (needed for --raw-only): /w"
    );
}

#[test]
fn require_ingest_prompt_errors_when_missing() {
    let e = require_wiki_ingest_prompt("/w", false).unwrap_err();
    assert_eq!(e, "ingest prompt not found: /w/ingest.md");
}

#[test]
fn require_ingest_prompt_ok_when_present() {
    let p = require_wiki_ingest_prompt("/w", true).unwrap();
    assert_eq!(p, wiki_ingest_prompt_path("/w"));
    assert_eq!(p, "/w/ingest.md");
}

#[test]
fn expand_wiki_prompt_replaces_ingest_path_and_wiki_root() {
    let out = expand_wiki_ingest_prompt("src={{INGEST_PATH}} root={{WIKI_ROOT}} {{WIKIFY_ROOT}}", "/abs/w", "/abs/w/raw/x.md");
    assert_eq!(out, "src=/abs/w/raw/x.md root=/abs/w {{WIKIFY_ROOT}}");
}
