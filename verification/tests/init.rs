use agwiki::init::{
    check_init_target, default_content_root, default_generated_wiki, generate_ingest_md,
    init_directories, AgwikiConfig, InitError, INGEST_MD_HEAD,
};

#[test]
fn init_writes_v2_config() {
    let config = AgwikiConfig::default_layout();
    assert_eq!(config.version, 2);
    assert_eq!(config.ontology.kinds.len(), 6);
    assert_eq!(config.content_root, "content");
    assert_eq!(config.generated_wiki, "wiki");
    assert!(config.ontology.relation_types.is_empty());
    assert_eq!(default_content_root(), "content");
    assert_eq!(default_generated_wiki(), "wiki");
}

#[test]
fn init_creates_content_dirs() {
    let dirs = init_directories(&AgwikiConfig::default_layout());
    for kind in &["concepts", "topics", "projects", "people", "syntheses", "sources"] {
        assert!(dirs.contains(&format!("content/{kind}")), "content/{kind} should exist");
    }
    assert!(dirs.contains(&"content/pages".to_string()));
    assert_eq!(
        dirs,
        vec![
            "content/concepts",
            "content/topics",
            "content/projects",
            "content/people",
            "content/syntheses",
            "content/sources",
            "content/pages",
            "raw",
            "skill",
            "wiki",
        ]
    );
}

#[test]
fn init_ingest_md_lists_kinds() {
    let config = AgwikiConfig::default_layout();
    let content = generate_ingest_md(&config.ontology.kinds);
    for kind in &["concepts", "topics", "projects", "people", "syntheses", "sources"] {
        assert!(content.contains(kind), "ingest.md should mention {}", kind);
    }
    assert!(content.starts_with("Ingest {{INGEST_PATH}} into the wiki at {{WIKI_ROOT}}.\n"));
    assert!(content.contains(
        "Declared ontology kinds for this wiki: concepts, topics, projects, people, syntheses, sources\n\n- `content/concepts/` \u{2014} concepts entity files\n- `content/topics/` \u{2014} topics entity files\n"
    ));
    assert!(content.contains("- `content/sources/` \u{2014} sources entity files\n- `content/pages/`"));
    assert!(content.ends_with("3. Answer using the wiki content\n"));
    assert!(content.contains("(list of {target: id, rel: string})"));
}

#[test]
fn ingest_md_for_no_kinds() {
    let content = generate_ingest_md(&Vec::new());
    assert!(content.starts_with(INGEST_MD_HEAD));
    assert!(content.contains("Declared ontology kinds for this wiki: \n\n\n- `content/pages/`"));
}

#[test]
fn init_empty_dir_ok() {
    assert_eq!(check_init_target("/w", true, true, false), Ok(()));
    assert_eq!(check_init_target("/w", false, false, false), Ok(()));
}

#[test]
fn init_rejects_nonempty() {
    let e = check_init_target("/w", true, true, true).unwrap_err();
    assert_eq!(e, InitError::NotEmpty("/w".to_string()));
    assert_eq!(e.message(), "target exists and is not empty: /w");
    let f = check_init_target("/w/file", true, false, false).unwrap_err();
    assert_eq!(f.message(), "target exists and is not a directory: /w/file");
}

#[test]
fn init_creates_layout() {
    // A target that does not exist yet is accepted and created.
    assert_eq!(check_init_target("newwiki", false, false, false), Ok(()));
    let config = AgwikiConfig::default_layout();
    let dirs = init_directories(&config);
    assert!(dirs.contains(&"wiki".to_string()));
    assert!(dirs.contains(&"raw".to_string()));
    assert!(!generate_ingest_md(&config.ontology.kinds).is_empty());
}
