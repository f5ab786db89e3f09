use agwiki::upkeep::{
    check_links, is_markdown_path, list_orphans, validate_wiki_root, WikiFile, WikiRootError, WikiTree,
};
use agwiki::validate::{validate_wiki, ProblemKind, ValidationReport};

fn tree(files: &[(&str, &str)]) -> WikiTree {
    WikiTree {
        files: files
            .iter()
            .map(|(p, t)| WikiFile { path: p.to_string(), text: t.to_string() })
            .collect(),
    }
}

#[test]
fn check_links_reports_broken_wikilink() {
    let errs = check_links(&tree(&[("wiki/a.md", "see [[missing-page]]\n")]));
    assert_eq!(errs.len(), 1);
    assert!(errs[0].contains("broken wikilink"));
    assert_eq!(errs[0], "wiki/a.md: broken wikilink [[missing-page]] -> wiki/missing-page.md");
}

#[test]
fn check_links_accepts_existing_targets() {
    let t = tree(&[
        ("wiki/a.md", "[[b]] [[b#part|B]] [x](sub/c.md) [web](https://x.org)\n"),
        ("wiki/b.md", "# B\n"),
        ("wiki/sub/c.md", "[up](../a.md) [gone](../nope.md) [here](d.md#top)\n"),
    ]);
    // a link that climbs above its own directory is not followed
    assert_eq!(check_links(&t), vec!["wiki/sub/c.md: broken link (d.md#top) -> wiki/sub/d.md"]);
}

#[test]
fn orphans_lists_unlinked_page() {
    let o = list_orphans(&tree(&[("wiki/index.md", "# Index\n"), ("wiki/orphan.md", "# Orphan\n")]));
    let names: Vec<String> = o.iter().map(|p| p.rsplit('/').next().unwrap().to_string()).collect();
    assert!(names.contains(&"orphan.md".to_string()));
    assert_eq!(o, vec!["wiki/orphan.md"]);
}

#[test]
fn validate_json_includes_broken_link_and_orphan_kinds() {
    let t = tree(&[
        ("wiki/index.md", "# Index\n"),
        ("wiki/broken.md", "see [[nowhere]]\n"),
        ("wiki/orphan.md", "# Orphan\n"),
    ]);
    let report = ValidationReport::run("/w", &t);
    assert!(!report.is_clean());
    let kinds: Vec<ProblemKind> = report.problems.iter().map(|p| p.kind).collect();
    assert!(kinds.contains(&ProblemKind::BrokenLink));
    assert!(kinds.contains(&ProblemKind::Orphan));
    let mut doc = serde_json::Map::new();
    doc.insert("wiki_root".to_string(), serde_json::Value::String(report.wiki_root.clone()));
    let problems: Vec<serde_json::Value> = report
        .problems
        .iter()
        .map(|p| {
            let mut o = serde_json::Map::new();
            o.insert("kind".to_string(), serde_json::Value::String(p.kind.json_tag().to_string()));
            o.insert("message".to_string(), serde_json::Value::String(p.message.clone()));
            serde_json::Value::Object(o)
        })
        .collect();
    doc.insert("problems".to_string(), serde_json::Value::Array(problems));
    let text = serde_json::to_string(&serde_json::Value::Object(doc)).unwrap();
    let v: serde_json::Value = serde_json::from_str(&text).unwrap();
    assert!(v.get("wiki_root").is_some());
    let tags: Vec<&str> = v["problems"].as_array().unwrap().iter().filter_map(|p| p["kind"].as_str()).collect();
    assert!(tags.contains(&"broken_link"));
    assert!(tags.contains(&"orphan"));
    assert_eq!(
        report.to_text(),
        "Broken links:\nwiki/broken.md: broken wikilink [[nowhere]] -> wiki/nowhere.md\n\nOrphan pages:\nwiki/broken.md\nwiki/orphan.md\n\n3 problem(s) total.\n"
    );
}

#[test]
fn validate_clean_wiki_json_empty_problems() {
    let report = validate_wiki("/w", &tree(&[("wiki/index.md", "# Index\n")]));
    assert!(report.is_clean());
    assert_eq!(report.problems.len(), 0);
    assert_eq!(report.to_text(), "OK: no problems under /w");
}

#[test]
fn wiki_root_must_hold_wiki_dir() {
    assert_eq!(validate_wiki_root("w", Some("/abs/w".to_string()), true), Ok("/abs/w".to_string()));
    let e = validate_wiki_root("w", Some("/abs/w".to_string()), false).unwrap_err();
    assert_eq!(e.message(), "not a wiki root (missing wiki/): /abs/w");
    assert_eq!(validate_wiki_root("nope", None, false), Err(WikiRootError::NotFound("nope".to_string())));
}

#[test]
fn markdown_paths() {
    assert!(is_markdown_path("wiki/a.md"));
    assert!(!is_markdown_path("wiki/.md"));
    assert!(!is_markdown_path("wiki/a.txt"));
}

#[test]
fn export_warns_only_about_unclean_wiki() {
    let dirty = validate_wiki("/w", &tree(&[("wiki/index.md", "[[gone]]\n"), ("wiki/lost.md", "# Lost\n")]));
    assert_eq!(
        dirty.unclean_warning().as_deref(),
        Some("agwiki export-skill: wiki validation reported 2 problem(s); run `agwiki validate` for strict checks.")
    );
    let clean = validate_wiki("/w", &tree(&[("wiki/index.md", "# Index\n")]));
    assert_eq!(clean.unclean_warning(), None);
}

#[test]
fn test_validate_clean_wiki() {
    let r = validate_wiki("/w", &tree(&[("wiki/index.md", "# Index\n")]));
    assert!(r.is_clean());
}

#[test]
fn test_validate_broken_links() {
    let r = validate_wiki("/w", &tree(&[("wiki/index.md", "# Index\n"), ("wiki/broken.md", "see [[nowhere]]\n")]));
    assert!(!r.is_clean());
    assert!(r.to_text().contains("broken"));
}
