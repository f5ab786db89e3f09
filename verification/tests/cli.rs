use agwiki::cli::{
    batch_summary, batch_summary_v2, check_target, compile_failed_message, export_target,
    failure_line, ingest_plan, materialize_target, resolve_ingest_state_path, CheckArgs,
    CheckTarget, ExportArgs, ExportTarget, IngestArgs, IngestArgsError, IngestSource,
    MaterializeArgs, MaterializeTarget, StatePathError,
};
use agwiki::ingest::{FolderIngestResult, FolderIngestResultV2};

fn ingest_args() -> IngestArgs {
    IngestArgs {
        wiki_root: None,
        agent: "codex".to_string(),
        model: None,
        stream: false,
        file: Some("raw/note.md".to_string()),
        folder: None,
        max_files: 30,
        compile: false,
        resume: false,
        progress: false,
        force: false,
        ingest_state: None,
        external_id: None,
        dry_run: false,
    }
}

#[test]
fn state_path_defaults_under_wiki_root() {
    assert_eq!(
        resolve_ingest_state_path("/w", None),
        Ok("/w/.agwiki/ingest-state.jsonl".to_string())
    );
}

#[test]
fn state_path_absolute_is_kept() {
    assert_eq!(
        resolve_ingest_state_path("/w", Some("/tmp/state.jsonl".to_string())),
        Ok("/tmp/state.jsonl".to_string())
    );
}

#[test]
fn test_ingest_resume_explicit_ingest_state_relative_path() {
    assert_eq!(
        resolve_ingest_state_path("/w", Some("./state/ledger.jsonl".to_string())),
        Ok("/w/state/ledger.jsonl".to_string())
    );
    assert_eq!(
        resolve_ingest_state_path("/w", Some("a/../b.jsonl".to_string())),
        Ok("/w/b.jsonl".to_string())
    );
}

#[test]
fn state_path_escaping_root_is_refused() {
    let r = resolve_ingest_state_path("/w", Some("../outside.jsonl".to_string()));
    assert_eq!(r, Err(StatePathError::EscapesWikiRoot));
    assert_eq!(
        r.unwrap_err().message(),
        "--ingest-state path escapes <wiki-root>; pass an absolute path to write outside the wiki root"
    );
}

#[test]
fn ingest_plan_trims_agent_and_model() {
    let mut a = ingest_args();
    a.agent = "  codex ".to_string();
    a.model = Some("  gpt-5 ".to_string());
    let plan = ingest_plan(&a, "/w").unwrap();
    assert_eq!(plan.agent, "codex");
    assert_eq!(plan.model.as_deref(), Some("gpt-5"));
    // The ledger is always kept, even without --resume.
    assert!(plan.resume.resume && !plan.resume.force);
    assert_eq!(plan.resume.ingest_state_path, "/w/.agwiki/ingest-state.jsonl");
    assert!(matches!(plan.source, IngestSource::File(ref f) if f == "raw/note.md"));
}

#[test]
fn ingest_plan_blank_model_is_absent() {
    let mut a = ingest_args();
    a.model = Some("   ".to_string());
    assert!(ingest_plan(&a, "/w").unwrap().model.is_none());
}

#[test]
fn ingest_plan_rejects_blank_agent() {
    let mut a = ingest_args();
    a.agent = "   ".to_string();
    let e = ingest_plan(&a, "/w").unwrap_err();
    assert_eq!(e, IngestArgsError::EmptyAgent);
    assert_eq!(e.message(), "--agent must not be empty");
}

#[test]
fn ingest_plan_force_and_state_work_without_resume() {
    let mut a = ingest_args();
    a.force = true;
    assert!(ingest_plan(&a, "/w").unwrap().resume.force);
    let mut b = ingest_args();
    b.ingest_state = Some("x.jsonl".to_string());
    assert_eq!(ingest_plan(&b, "/w").unwrap().resume.ingest_state_path, "/w/x.jsonl");
    let mut c = ingest_args();
    c.ingest_state = Some("../x.jsonl".to_string());
    assert_eq!(ingest_plan(&c, "/w").unwrap_err(), IngestArgsError::StatePath(StatePathError::EscapesWikiRoot));
}

#[test]
fn ingest_plan_resume_config() {
    let mut a = ingest_args();
    a.resume = true;
    a.force = true;
    let plan = ingest_plan(&a, "/w").unwrap();
    let cfg = plan.resume;
    assert!(cfg.resume && cfg.force);
    assert_eq!(cfg.ingest_state_path, "/w/.agwiki/ingest-state.jsonl");
}

#[test]
fn ingest_plan_resume_with_escaping_state_path() {
    let mut a = ingest_args();
    a.resume = true;
    a.ingest_state = Some("../../x.jsonl".to_string());
    assert_eq!(
        ingest_plan(&a, "/w").unwrap_err(),
        IngestArgsError::StatePath(StatePathError::EscapesWikiRoot)
    );
}

#[test]
fn test_ingest_file_and_folder_conflict_fails() {
    let mut a = ingest_args();
    a.folder = Some("raw".to_string());
    let e = ingest_plan(&a, "/w").unwrap_err();
    assert_eq!(e.message(), "cannot use both a file argument and --folder; choose one");
}

#[test]
fn ingest_plan_requires_a_source() {
    let mut a = ingest_args();
    a.file = None;
    let e = ingest_plan(&a, "/w").unwrap_err();
    assert_eq!(e, IngestArgsError::NoSource);
    assert_eq!(e.message(), "either a file argument or --folder is required");
    a.folder = Some("raw".to_string());
    assert!(matches!(ingest_plan(&a, "/w").unwrap().source, IngestSource::Folder(ref f) if f == "raw"));
}

fn export_args(sub: &str, out: Option<&str>) -> ExportArgs {
    ExportArgs {
        subcommand: sub.to_string(),
        wiki_root: None,
        skill_root: None,
        skill_md: None,
        dry_run: false,
        prune: false,
        out: out.map(|s| s.to_string()),
    }
}

#[test]
fn export_target_skill_and_html() {
    assert!(matches!(export_target(&export_args("skill", None), "/w"), Ok(ExportTarget::Skill)));
    match export_target(&export_args("html", None), "/w") {
        Ok(ExportTarget::Html(out)) => assert_eq!(out, "/w/dist/html"),
        other => panic!("unexpected {other:?}"),
    }
    match export_target(&export_args("html", Some("/abs/out")), "/w") {
        Ok(ExportTarget::Html(out)) => assert_eq!(out, "/abs/out"),
        other => panic!("unexpected {other:?}"),
    }
    match export_target(&export_args("html", Some("site")), "/w/") {
        Ok(ExportTarget::Html(out)) => assert_eq!(out, "/w/site"),
        other => panic!("unexpected {other:?}"),
    }
}

#[test]
fn export_target_unknown_subcommand() {
    assert_eq!(
        export_target(&export_args("pdf", None), "/w").unwrap_err(),
        "unknown subcommand 'pdf': expected 'skill' or 'html'"
    );
}

#[test]
fn check_target_wiki_and_sources() {
    let a = CheckArgs { subcommand: "wiki".into(), wiki_root: None, format: None };
    assert_eq!(check_target(&a), Ok(CheckTarget::Wiki { json: false }));
    let b = CheckArgs { subcommand: "wiki".into(), wiki_root: None, format: Some("json".into()) };
    assert_eq!(check_target(&b), Ok(CheckTarget::Wiki { json: true }));
    let c = CheckArgs { subcommand: "sources".into(), wiki_root: None, format: None };
    assert_eq!(check_target(&c), Ok(CheckTarget::Sources));
    let d = CheckArgs { subcommand: "links".into(), wiki_root: None, format: None };
    assert_eq!(
        check_target(&d),
        Err("unknown subcommand 'links': expected 'wiki' or 'sources'".to_string())
    );
}

#[test]
fn batch_summaries() {
    let r = FolderIngestResult {
        total: 3,
        succeeded: 2,
        failures: vec![("/w/a.md".to_string(), "boom".to_string())],
    };
    assert_eq!(batch_summary(&r), "Batch ingest: 3 total, 2 succeeded, 1 failed.");
    let v2 = FolderIngestResultV2 { total: 12, succeeded: 10, skipped: 2, failures: vec![] };
    assert_eq!(
        batch_summary_v2(&v2),
        "Batch ingest: 12 total, 10 succeeded, 2 skipped, 0 failed."
    );
    assert_eq!(failure_line("/w/a.md", "boom"), "  FAILED: /w/a.md \u{2014} boom");
}

#[test]
fn materialize_routes_targets_and_rejects_misplaced_flags() {
    let base = |t: &str| MaterializeArgs {
        target: t.to_string(),
        wiki_root: None,
        out: None,
        skill_root: None,
        skill_md: None,
        prune: false,
        dry_run: false,
    };
    assert_eq!(materialize_target(&base("wiki"), "/w"), Ok(MaterializeTarget::Wiki));
    assert_eq!(materialize_target(&base("skill"), "/w"), Ok(MaterializeTarget::Skill));
    assert_eq!(
        materialize_target(&base("html"), "/w"),
        Ok(MaterializeTarget::Html("/w/dist/html".to_string()))
    );
    let mut html_out = base("html");
    html_out.out = Some("/tmp/site".to_string());
    assert_eq!(materialize_target(&html_out, "/w"), Ok(MaterializeTarget::Html("/tmp/site".to_string())));
    let mut wiki_prune = base("wiki");
    wiki_prune.prune = true;
    assert_eq!(
        materialize_target(&wiki_prune, "/w").unwrap_err(),
        "--skill-root/--skill-md/--prune are only valid with target 'skill'"
    );
    let mut skill_out = base("skill");
    skill_out.out = Some("x".to_string());
    assert_eq!(materialize_target(&skill_out, "/w").unwrap_err(), "--out is only valid with target 'html'");
    let mut html_md = base("html");
    html_md.skill_md = Some("S.md".to_string());
    assert!(materialize_target(&html_md, "/w").is_err());
    assert_eq!(
        materialize_target(&base("pdf"), "/w").unwrap_err(),
        "unknown target 'pdf': expected one of wiki, skill, or html"
    );
    assert_eq!(compile_failed_message(3), "compile failed with 3 error(s)");
}

#[test]
fn ingest_plan_external_id_and_dry_run() {
    let args = IngestArgs { external_id: Some("  msg-1 ".to_string()), dry_run: true, ..ingest_args() };
    let plan = ingest_plan(&args, "/w").unwrap();
    assert_eq!(plan.external_id.as_deref(), Some("msg-1"));
    assert!(plan.dry_run);
    let blank = IngestArgs { external_id: Some("   ".to_string()), ..ingest_args() };
    assert_eq!(ingest_plan(&blank, "/w").unwrap().external_id, None);
    let folder = IngestArgs {
        file: None,
        folder: Some("raw".to_string()),
        external_id: Some("msg-1".to_string()),
        ..ingest_args()
    };
    let err = ingest_plan(&folder, "/w").unwrap_err();
    assert_eq!(err, IngestArgsError::ExternalIdWithFolder);
    assert_eq!(err.message(), "--external-id names a single file; it cannot be used with --folder");
}
