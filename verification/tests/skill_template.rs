use agwiki::skill_template::{
    default_skill_dir, export_paths, first_heading_title, markdown_link_escape, parse_sections,
    rewrite_wikilinks_in_file, template_skill_md, ExportOptions, ReferenceFile, TemplateExportError,
};

fn opts() -> ExportOptions {
    ExportOptions {
        wiki_root: "/w".to_string(),
        skill_dir: None,
        template: None,
        output: None,
        index: None,
        sections: "concepts, topics,,projects ".to_string(),
        dry_run: false,
        prune: false,
        rewrite_wikilinks: true,
    }
}

fn refs() -> Vec<ReferenceFile> {
    vec![
        ReferenceFile { path: "/s/references/concepts/hello.md".to_string(), text: "intro\n## Hello There\n".to_string() },
        ReferenceFile { path: "/s/references/concepts/deep/world.md".to_string(), text: "no heading\n".to_string() },
        ReferenceFile { path: "/s/references/topics/hello.md".to_string(), text: "# Topic Hello\n".to_string() },
    ]
}

#[test]
fn sections_are_parsed_from_a_list() {
    assert_eq!(parse_sections(&opts().sections), vec!["concepts", "topics", "projects"]);
    assert!(parse_sections("").is_empty());
}

#[test]
fn export_paths_defaults() {
    let o = opts();
    assert_eq!(default_skill_dir(&o, "/w"), "/w/skill");
    let p = export_paths(&o, "/w", "/w/skill");
    assert_eq!(p.template, "/w/skill/SKILL.md.template");
    assert_eq!(p.output, "/w/skill/SKILL.md");
    assert_eq!(p.index, "/w/wiki/index.md");
    assert_eq!(
        TemplateExportError::TemplateNotFound(p.template.clone()).message(),
        "template not found: /w/skill/SKILL.md.template"
    );
}

#[test]
fn skill_md_is_template_then_index() {
    assert_eq!(template_skill_md("# Skill\n\n\n", "## Wiki index\n"), "# Skill\n\n## Wiki index\n");
}

#[test]
fn first_heading_and_escape() {
    assert_eq!(first_heading_title("x\n### Deep  \n# Top").as_deref(), Some("Deep"));
    assert_eq!(first_heading_title("#\n##   \ntext"), None);
    assert_eq!(markdown_link_escape("a]b\\c"), "a\\]b\\\\c");
}

#[test]
fn wikilinks_become_relative_links() {
    let out = rewrite_wikilinks_in_file(
        "See [[concepts/hello]] and [[world|The World]] and [[nope]].",
        "/s/references/topics/hello.md",
        "/s/references",
        &refs(),
    );
    assert_eq!(
        out,
        "See [Hello There](../concepts/hello.md) and [The World](../concepts/deep/world.md) and [[nope]]."
    );
}

#[test]
fn wikilink_by_stem_takes_first_page_and_falls_back_to_stem_label() {
    let out = rewrite_wikilinks_in_file("[[hello]] [[deep/world.md]]", "/s/references/concepts/x.md", "/s/references", &refs());
    assert_eq!(out, "[Hello There](hello.md) [[deep/world.md]]");
    let out2 = rewrite_wikilinks_in_file("[[concepts/deep/world.md|  ]]", "/s/references/concepts/x.md", "/s/references", &refs());
    assert_eq!(out2, "[world](deep/world.md)");
}
