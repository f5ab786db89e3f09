use agwiki::slug::title_to_slug;

#[test]
fn title_to_slug_basic() {
    assert_eq!(title_to_slug("Hello World"), "hello-world");
    assert_eq!(title_to_slug("My Concept!"), "my-concept");
    assert_eq!(title_to_slug("  spaces  "), "--spaces--");
}

#[test]
fn title_to_slug_truncates() {
    let long = "a".repeat(100);
    assert_eq!(title_to_slug(&long).len(), 80);
}

#[test]
fn title_to_slug_lowercases_unicode_and_drops_the_rest() {
    assert_eq!(title_to_slug("ÄBC Déf"), "bc-df");
    assert_eq!(title_to_slug("\u{212A}elvin"), "kelvin");
}

use agwiki::compile::{
    export_html_pages, html_document, html_index, load_config, missing_wiki_message, new_entity,
    plan_compile, run_new, CompileError, CompileLayout, EntityFrontMatter, Relation, SourceFile,
};
use agwiki::init::AgwikiConfig;

fn layout() -> CompileLayout {
    let config = AgwikiConfig::default_layout();
    CompileLayout {
        content_dir: "/w/content".to_string(),
        wiki_dir: "/w/wiki".to_string(),
        kinds: config.ontology.kinds,
        relation_types: Vec::new(),
    }
}

fn entity(kind: &str, file: &str, id: &str, title: &str, relations: Vec<Relation>) -> SourceFile {
    SourceFile {
        path: format!("/w/content/{kind}/{file}"),
        parsed: Ok((
            EntityFrontMatter {
                id: Some(id.to_string()),
                title: Some(title.to_string()),
                schema_version: Some(1),
                status: None,
                relations,
                aliases: Vec::new(),
            },
            "\n\nBody.\n".to_string(),
        )),
    }
}

fn error_messages(files: Vec<SourceFile>) -> Vec<String> {
    plan_compile(&layout(), &files).report.errors.iter().map(|e| e.message()).collect()
}

#[test]
fn compile_happy_path_writes_wiki_and_catalog() {
    let plan = plan_compile(&layout(), &vec![entity("concepts", "a.md", "01HZABC123DEF456GHI789JKL0", "First Concept", vec![])]);
    assert!(plan.report.errors.is_empty());
    assert_eq!(plan.report.entities_compiled, 1);
    assert_eq!(plan.pages[0].path, "/w/wiki/concepts/first-concept.md");
    assert!(plan.pages[0].content.starts_with("---\ntitle: \"First Concept\"\n---\n"));
    let catalog = plan.catalog.unwrap();
    assert!(catalog.contains("wiki/concepts/first-concept.md"));
    assert!(catalog.starts_with("## Entity catalog\n\n### concepts\n\n- [First Concept](wiki/concepts/first-concept.md)"));
}

#[test]
fn compile_duplicate_id_fails() {
    let msgs = error_messages(vec![
        entity("concepts", "a.md", "01HZABC123DEF456GHI789JKL0", "A", vec![]),
        entity("topics", "b.md", "01HZABC123DEF456GHI789JKL0", "B", vec![]),
    ]);
    assert!(msgs.iter().any(|m| m.contains("E011")), "{msgs:?}");
}

#[test]
fn compile_broken_relation_fails() {
    let rel = Relation { target: "01HZMISSING000000000000000".to_string(), rel: "related-to".to_string() };
    let msgs = error_messages(vec![entity("concepts", "a.md", "01HZABC123DEF456GHI789JKL0", "A", vec![rel])]);
    assert!(msgs.iter().any(|m| m.contains("E012")), "{msgs:?}");
}

#[test]
fn compile_unknown_kind_fails() {
    let msgs = error_messages(vec![entity("experiments", "a.md", "01HZABC123DEF456GHI789JKL0", "Experiment", vec![])]);
    assert!(msgs.iter().any(|m| m.contains("E009")), "{msgs:?}");
}

#[test]
fn compile_slug_collision_disambiguates_catalog() {
    let plan = plan_compile(
        &layout(),
        &vec![
            entity("concepts", "a.md", "01HZABC123DEF456GHI789JKL0", "Same Title", vec![]),
            entity("concepts", "b.md", "01HZABC123DEF456GHI789JKL1", "Same Title", vec![]),
        ],
    );
    assert!(plan.report.errors.is_empty());
    assert!(plan.report.warnings.iter().any(|w| w.contains("E014")));
    let paths: Vec<&str> = plan.pages.iter().map(|p| p.path.as_str()).collect();
    assert_eq!(paths, vec!["/w/wiki/concepts/same-title.md", "/w/wiki/concepts/same-title-2.md"]);
    let catalog = plan.catalog.unwrap();
    assert!(catalog.contains("wiki/concepts/same-title.md"));
    assert!(catalog.contains("wiki/concepts/same-title-2.md"));
}

#[test]
fn new_invalid_kind_returns_error() {
    let config = AgwikiConfig::default_layout();
    let result = run_new(&config, "/w", "unknown-kind", None);
    assert!(result.is_err());
    let msg = result.unwrap_err().message();
    assert!(msg.contains("E010"));
    assert_eq!(
        msg,
        "E010: unknown kind `unknown-kind`; valid kinds: [concepts, topics, projects, people, syntheses, sources]"
    );
}

#[test]
fn new_valid_kind_creates_file() {
    let config = AgwikiConfig::default_layout();
    let e = run_new(&config, "/w", "concepts", Some("Test Concept")).unwrap();
    assert!(e.content.contains("title: \"Test Concept\""));
    assert!(e.content.contains("schema_version: 1"));
    assert!(e.path.starts_with("/w/content/concepts/"));
    let name = e.path.rsplit('/').next().unwrap();
    assert_eq!(name.len(), 26 + 3);
    assert!(name[..26].chars().all(|c| "0123456789ABCDEFGHJKMNPQRSTVWXYZ".contains(c)));
    assert!(e.content.starts_with(&format!("---\nid: \"{}\"\n", &name[..26])));
}

#[test]
fn new_entity_exact_text() {
    let config = AgwikiConfig::default_layout();
    let e = new_entity(&config, "/w", "people", None, "01ARZ3NDEKTSV4RRFFQ69G5FAV").unwrap();
    assert_eq!(e.path, "/w/content/people/01ARZ3NDEKTSV4RRFFQ69G5FAV.md");
    assert_eq!(
        e.content,
        "---\nid: \"01ARZ3NDEKTSV4RRFFQ69G5FAV\"\ntitle: \"Untitled\"\nschema_version: 1\n---\n\n# Untitled\n\n"
    );
}

#[test]
fn load_config_checks_presence_parse_and_version() {
    assert_eq!(
        load_config("/w/agwiki.toml", None).unwrap_err().message(),
        "E002: agwiki.toml missing: /w/agwiki.toml"
    );
    assert_eq!(
        load_config("/w/agwiki.toml", Some(Err("bad key".to_string()))).unwrap_err().message(),
        "E003: agwiki.toml parse error: bad key"
    );
    let mut v1 = AgwikiConfig::default_layout();
    v1.version = 1;
    assert!(matches!(
        load_config("/w/agwiki.toml", Some(Ok(v1))),
        Err(CompileError::LegacyConfig { version: 1 })
    ));
    assert_eq!(load_config("/w/agwiki.toml", Some(Ok(AgwikiConfig::default_layout()))).unwrap().version, 2);
}

#[test]
fn export_html_plans_pages_and_index() {
    let pages = export_html_pages(&vec![
        "concepts/html-concept.md".to_string(),
        "index.md".to_string(),
        "a-b/x.md".to_string(),
        "a/x.md".to_string(),
    ]);
    let rels: Vec<&str> = pages.iter().map(|p| p.html_rel.as_str()).collect();
    assert_eq!(rels, vec!["a/x.html", "a-b/x.html", "concepts/html-concept.html", "index.html"]);
    assert_eq!(pages[2].title, "html-concept");
    assert_eq!(
        html_document("T", "<p>b</p>"),
        "<!DOCTYPE html><html><head><meta charset=\"utf-8\"><title>T</title></head><body><p>b</p></body></html>"
    );
    let index = html_index(&pages[..2].iter().map(|p| agwiki::compile::HtmlPage {
        md_rel: p.md_rel.clone(),
        html_rel: p.html_rel.clone(),
        title: p.title.clone(),
    }).collect());
    assert_eq!(
        index,
        "<!DOCTYPE html><html><head><meta charset=\"utf-8\"><title>Wiki</title></head><body><h1>Wiki</h1><ul><li><a href=\"a/x.html\">x</a></li>\n<li><a href=\"a-b/x.html\">x</a></li></ul></body></html>"
    );
    assert_eq!(
        missing_wiki_message("/w"),
        "E015: wiki/ directory does not exist at /w; run `agwiki compile` first"
    );
}

#[test]
fn pass_through_pages_copy_navigation_pages() {
    let pairs = agwiki::compile::pass_through_pages("/w/content", "/w/wiki");
    assert_eq!(
        pairs,
        vec![
            ("/w/content/pages/index.md".to_string(), "/w/wiki/index.md".to_string()),
            ("/w/content/pages/inbox.md".to_string(), "/w/wiki/inbox.md".to_string()),
            ("/w/content/pages/log.md".to_string(), "/w/wiki/log.md".to_string()),
        ]
    );
}

#[test]
fn title_to_slug_non_ascii_title_is_lowercase() {
    let s = title_to_slug("ÀBC Ünïcode İ KELVIN\u{212A}");
    assert_eq!(s, "bc-ncode-i-kelvink");
    assert!(s.chars().all(|c| c.is_ascii_lowercase() || c.is_ascii_digit() || c == '-'));
}
