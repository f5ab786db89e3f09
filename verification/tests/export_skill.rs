use agwiki::export_skill::{mirror_files, prune_files};
use agwiki::marker::{
    inject_compile_index, merge_skill_generated_index, MarkerError, COMPILE_INDEX_END,
    COMPILE_INDEX_START, GENERATED_INDEX_END, GENERATED_INDEX_START,
};

#[test]
fn merge_skill_replaces_marked_block() {
    let existing = format!(
        "front\n{}\n{}\n{}\ntail\n",
        GENERATED_INDEX_START, "## Wiki index\n\n- x", GENERATED_INDEX_END
    );
    let gen = "## Wiki index\n\n- new";
    let out = merge_skill_generated_index(&existing, gen).unwrap();
    assert!(out.contains("- new"));
    assert!(!out.contains("- x"));
    assert!(out.contains("front"));
    assert!(out.contains("tail"));
}

#[test]
fn merge_skill_errors_on_end_without_start() {
    let r = merge_skill_generated_index(&format!("x\n{}\n", GENERATED_INDEX_END), "## Wiki index");
    assert!(r.is_err());
}

#[test]
fn merge_skill_appends_when_no_markers() {
    let out = merge_skill_generated_index("# Title\n", "## Wiki index\n\n- a").unwrap();
    assert!(out.starts_with("# Title"));
    assert!(out.contains(GENERATED_INDEX_START));
    assert!(out.ends_with('\n'));
}

#[test]
fn merge_skill_exact_append_layout() {
    let out = merge_skill_generated_index("# Title", "body  \n\n").unwrap();
    assert_eq!(
        out,
        format!("# Title\n\n{}\nbody\n{}\n", GENERATED_INDEX_START, GENERATED_INDEX_END)
    );
    let out = merge_skill_generated_index("", "b").unwrap();
    assert_eq!(out, format!("{}\nb\n{}\n", GENERATED_INDEX_START, GENERATED_INDEX_END));
    let out = merge_skill_generated_index("a\n\n", "b").unwrap();
    assert_eq!(out, format!("a\n\n{}\nb\n{}\n", GENERATED_INDEX_START, GENERATED_INDEX_END));
}

#[test]
fn merge_skill_missing_end_is_error() {
    let r = merge_skill_generated_index(&format!("x\n{}\n", GENERATED_INDEX_START), "b");
    assert_eq!(r, Err(MarkerError::MissingEnd));
    let r = merge_skill_generated_index(&format!("x\n{}\n", GENERATED_INDEX_END), "b");
    assert_eq!(r, Err(MarkerError::EndWithoutStart));
    assert!(MarkerError::MissingEnd.message().contains("but no closing"));
}

#[test]
fn merge_skill_block_reads_back_and_remerge_keeps_surroundings() {
    let first = merge_skill_generated_index("front\n", "one").unwrap();
    let second = merge_skill_generated_index(&first, "two").unwrap();
    let other = merge_skill_generated_index(
        &merge_skill_generated_index("front\n", "three").unwrap(),
        "two",
    )
    .unwrap();
    assert_eq!(second, other);
    let start = second.find(GENERATED_INDEX_START).unwrap() + GENERATED_INDEX_START.len();
    let end = second.find(GENERATED_INDEX_END).unwrap();
    assert_eq!(&second[start..end], "\ntwo\n");
    // each re-merge keeps the newline that followed the old closing marker
    assert!(second.ends_with(&format!("{}\n\n", GENERATED_INDEX_END)));
}

#[test]
fn inject_compile_index_replaces_or_appends() {
    let existing = format!("head\n{}\nold\n{}\ntail", COMPILE_INDEX_START, COMPILE_INDEX_END);
    let out = inject_compile_index(&existing, "new\n");
    assert_eq!(
        out,
        format!("head\n{}\nnew\n{}\n\ntail", COMPILE_INDEX_START, COMPILE_INDEX_END)
    );
    let out = inject_compile_index(&format!("a {}", COMPILE_INDEX_START), "c");
    assert_eq!(
        out,
        format!(
            "a {}\n\n{}\nc\n{}\n",
            COMPILE_INDEX_START, COMPILE_INDEX_START, COMPILE_INDEX_END
        )
    );
}

use agwiki::export_skill::{
    generated_index, parse_index_for_groups, render_generated_block, titleish_stem,
    unlinked_refs, wiki_mirror_sections, ExportError, ExportOptions, MirrorSection,
};

fn section(name: &str, files: &[&str]) -> MirrorSection {
    MirrorSection { name: name.to_string(), files: files.iter().map(|f| f.to_string()).collect() }
}

#[test]
fn wiki_mirror_sections_lists_sorted_dirs() {
    let s = wiki_mirror_sections(&vec!["zebra".to_string(), "apple".to_string()]);
    assert_eq!(s, vec!["apple", "zebra"]);
}

#[test]
fn titleish_stem_capitalizes_words() {
    assert_eq!(titleish_stem("hello-world"), "Hello World");
    assert_eq!(titleish_stem("references/concepts/knowledge-graphs.md"), "Knowledge Graphs");
    assert_eq!(titleish_stem("straße-ǆ"), "Straße Ǆ");
    assert_eq!(titleish_stem("a--b"), "A  B");
    assert_eq!(titleish_stem(""), "");
}

#[test]
fn export_skill_mirror_and_skill_md() {
    let sections = vec![section("concepts", &["hello.md"])];
    let gen = generated_index("## Concepts\n\n- [[concepts/hello|Hello page]]\n\n", &sections, &vec!["references/concepts/hello.md".to_string()]);
    let merged = merge_skill_generated_index("", &gen).unwrap();
    assert!(merged.contains(GENERATED_INDEX_START));
    assert!(merged.contains(GENERATED_INDEX_END));
    assert!(merged.contains("references/concepts/hello.md"));
    assert_eq!(gen, "## Wiki index\n\n### Concepts\n\n- [Hello page](references/concepts/hello.md)\n");
}

#[test]
fn index_groups_by_heading_in_first_appearance_order() {
    let sections = vec![section("concepts", &["a.md", "deep/b.md"]), section("topics", &["t.md", "a.md"])];
    let text = "intro [[a]]\n## Later\n- [[topics/t.md]]\n### Index\n- [[b]]\n## Later\n- [[missing]] [[other/x]]\n";
    let (groups, refs) = parse_index_for_groups(text, &sections);
    assert_eq!(groups.len(), 2);
    assert_eq!(groups[0].0, "Index");
    assert_eq!(
        groups[0].1,
        vec![
            ("A".to_string(), "references/concepts/a.md".to_string()),
            ("B".to_string(), "references/concepts/deep/b.md".to_string()),
        ]
    );
    assert_eq!(groups[1], ("Later".to_string(), vec![("T".to_string(), "references/topics/t.md".to_string())]));
    assert_eq!(refs, vec!["references/concepts/a.md", "references/topics/t.md", "references/concepts/deep/b.md"]);
}

#[test]
fn generated_block_lists_unlinked_pages_sorted() {
    let sections = vec![section("concepts", &["hello.md"])];
    let mirrored = vec![
        "references/concepts/zeta-page.md".to_string(),
        "references/concepts/hello.md".to_string(),
        "references/concepts/alpha.md".to_string(),
    ];
    let gen = generated_index("[[hello]]", &sections, &mirrored);
    assert_eq!(
        gen,
        "## Wiki index\n\n### Index\n\n- [Hello](references/concepts/hello.md)\n\n### On disk but not linked from index\n\n- [Alpha](references/concepts/alpha.md)\n- [Zeta Page](references/concepts/zeta-page.md)\n"
    );
    assert_eq!(
        unlinked_refs(&mirrored, &vec!["references/concepts/hello.md".to_string()]),
        vec!["references/concepts/alpha.md", "references/concepts/zeta-page.md"]
    );
}

#[test]
fn render_generated_block_formula() {
    assert_eq!(render_generated_block(&Vec::new(), &Vec::new()), "## Wiki index\n");
    let groups = vec![("H".to_string(), vec![("L".to_string(), "references/s/p.md".to_string())])];
    assert_eq!(render_generated_block(&groups, &Vec::new()), "## Wiki index\n\n### H\n\n- [L](references/s/p.md)\n");
}

#[test]
fn export_ok_when_wiki_has_broken_link() {
    let sections = vec![section("concepts", &["a.md"])];
    let gen = generated_index("# I\n", &sections, &vec!["references/concepts/a.md".to_string()]);
    assert_eq!(gen, "## Wiki index\n\n### On disk but not linked from index\n\n- [A](references/concepts/a.md)\n");
}

#[test]
fn export_options_defaults() {
    let o = ExportOptions { wiki_root: "/w".into(), skill_root: None, skill_md: None, dry_run: false, prune: false };
    assert_eq!(o.skill_root_or("/w"), "/w/skill");
    assert_eq!(o.skill_md_or("/w/skill"), "/w/skill/SKILL.md");
    let p = ExportOptions { wiki_root: "/w".into(), skill_root: Some("/s".into()), skill_md: Some("/s/X.md".into()), dry_run: true, prune: true };
    assert_eq!(p.skill_root_or("/w"), "/s");
    assert_eq!(p.skill_md_or("/s"), "/s/X.md");
    assert_eq!(ExportError::IndexNotFound("/w/wiki/index.md".into()).message(), "index not found: /w/wiki/index.md");
    assert_eq!(ExportError::MissingWiki("/w/wiki".into()).message(), "missing wiki directory: /w/wiki");
}

#[test]
fn mirror_files_keeps_markdown_in_path_order() {
    let found = vec![
        "z.md".to_string(),
        "a-b/x.md".to_string(),
        "a/x.md".to_string(),
        "notes.txt".to_string(),
        ".md".to_string(),
        "img/.md".to_string(),
        "B.md".to_string(),
    ];
    assert_eq!(mirror_files(&found), vec!["B.md", "a/x.md", "a-b/x.md", "z.md"]);
}

#[test]
fn prune_files_lists_copies_without_source() {
    let mirrored = vec!["gone.md".to_string(), "kept.md".to_string(), "sub/old.md".to_string(), "x.txt".to_string()];
    let wiki = vec!["kept.md".to_string(), "other.md".to_string()];
    assert_eq!(prune_files(&mirrored, &wiki), vec!["gone.md", "sub/old.md"]);
    assert!(prune_files(&Vec::new(), &wiki).is_empty());
}

#[test]
fn every_mirrored_page_is_linked_or_listed() {
    let sections = vec![section("concepts", &["a.md", "b.md"])];
    let mirrored = vec!["references/concepts/a.md".to_string(), "references/concepts/b.md".to_string()];
    let gen = generated_index("- [[a]] [[elsewhere/x]]\n", &sections, &mirrored);
    assert!(gen.contains("(references/concepts/a.md)"));
    assert!(gen.contains("references/concepts/b.md"));
    assert!(!gen.contains("elsewhere"));
}

#[test]
fn merge_same_body_again_adds_one_line_break() {
    let first = merge_skill_generated_index("front\n", "## Index").unwrap();
    let again = merge_skill_generated_index(&first, "## Index").unwrap();
    let k = first.find(GENERATED_INDEX_END).unwrap() + GENERATED_INDEX_END.len();
    assert_eq!(again, format!("{}\n{}", &first[..k], &first[k..]));
}
