use agwiki::ingest::{
    agent_failed_message, agent_not_runnable_message, discover_md_files, identity_of,
    ingest_policy_sha256, load_ingest_state, lock_path_for, lower_hex, resolve_ingest_source,
    frontmatter_external_id_of, run_folder_ingest, sha256_hex, should_skip, skip_notice,
    source_external_id, source_key_for, success_record,
    IngestIdentity, IngestLedger, IngestResumeConfig, IngestStateRecordV1, IngestStatus,
    LedgerError, LedgerLine, SourceError, SourceKeyError,
};

fn identity(content: &str, policy: &str, agent: &str, model: Option<&str>) -> IngestIdentity {
    IngestIdentity {
        wiki_root: "/abs/wiki".to_string(),
        source_key: "raw/note.md".to_string(),
        content_sha256: content.to_string(),
        ingest_policy_sha256: policy.to_string(),
        agent: agent.to_string(),
        model: model.map(|m| m.to_string()),
        external_id: None,
    }
}

fn record_line(rec: IngestStateRecordV1) -> LedgerLine {
    LedgerLine { text: "{...}".to_string(), parsed: Ok(rec) }
}

fn resume(force: bool) -> IngestResumeConfig {
    IngestResumeConfig {
        resume: true,
        force,
        ingest_state_path: "/abs/wiki/.agwiki/ingest-state.jsonl".to_string(),
    }
}

fn accept(name: &str, bytes: &[u8]) -> Result<String, SourceError> {
    resolve_ingest_source(name, Some(format!("/tmp/{name}")), Some(bytes.to_vec()))
}

#[test]
fn resolve_ingest_source_accepts_md() {
    let out = accept("note.md", b"x").unwrap();
    assert_eq!(out, "/tmp/note.md");
    assert!(out.ends_with("note.md"));
}

#[test]
fn resolve_ingest_source_accepts_txt() {
    assert!(accept("x.txt", b"hello text").is_ok());
}

#[test]
fn resolve_ingest_source_accepts_json() {
    assert!(accept("data.json", br#"{"key": "value"}"#).is_ok());
}

#[test]
fn resolve_ingest_source_accepts_yaml() {
    assert!(accept("config.yaml", b"key: value\n").is_ok());
}

#[test]
fn resolve_ingest_source_accepts_log() {
    assert!(accept("app.log", b"INFO: started\n").is_ok());
}

#[test]
fn resolve_ingest_source_rejects_binary() {
    let err = accept("binary.bin", b"binary\x00content").unwrap_err();
    assert_eq!(err, SourceError::Binary("/tmp/binary.bin".to_string()));
    assert!(err.message().contains("file appears to be binary"), "error: {}", err.message());
}

#[test]
fn resolve_ingest_source_rejects_invalid_utf8() {
    let err = accept("bad.txt", b"\xff\xfe invalid utf8 bytes").unwrap_err();
    assert!(err.message().contains("valid UTF-8"), "error: {}", err.message());
}

#[test]
fn resolve_ingest_source_accepts_empty_file() {
    assert!(accept("empty.txt", b"").is_ok());
}

#[test]
fn resolve_ingest_source_handles_missing_file() {
    let r = resolve_ingest_source("missing.md", None, None);
    assert_eq!(r, Err(SourceError::NotFound("missing.md".to_string())));
    assert_eq!(r.unwrap_err().message(), "not found: missing.md");
}

#[test]
fn resolve_ingest_source_accepts_uppercase_md() {
    assert!(accept("note.MD", b"content").is_ok());
}

#[test]
fn resolve_ingest_source_accepts_no_extension() {
    assert!(accept("note", b"content").is_ok());
}

#[test]
fn resolve_ingest_source_unreadable_file() {
    let r = resolve_ingest_source("x.md", Some("/abs/x.md".to_string()), None);
    assert_eq!(r.unwrap_err().message(), "cannot read file: /abs/x.md");
}

#[test]
fn resolve_ingest_source_checks_the_whole_file() {
    // A NUL byte anywhere in the file, even far from its start, is refused.
    let mut bytes = vec![b'a'; 8192];
    bytes.push(0);
    assert!(matches!(accept("long.txt", &bytes), Err(SourceError::Binary(_))));
    // A long text file is accepted whatever character falls on any boundary.
    let mut long = vec![b'a'; 8191];
    long.extend_from_slice("é".as_bytes());
    assert!(accept("long.txt", &long).is_ok());
    // Invalid UTF-8 late in the file is refused.
    let mut late = vec![b'a'; 9000];
    late.extend_from_slice(b"\xff\xfe");
    let e = accept("late.txt", &late).unwrap_err();
    assert!(e.message().contains("valid UTF-8"));
    assert!(accept("empty.txt", b"").is_ok());
}

#[test]
fn sha256_of_known_inputs() {
    assert_eq!(
        ingest_policy_sha256(b"abc"),
        "ba7816bf8f01cfea414140de5dae2223b00361a396177a9cb410ff61f20015ad"
    );
    assert_eq!(
        sha256_hex(b""),
        "e3b0c44298fc1c149afbf4c8996fb92427ae41e4649b934ca495991b7852b855"
    );
    assert_eq!(sha256_hex(b"ingest policy").len(), 64);
}

#[test]
fn lower_hex_two_digits_per_byte() {
    assert_eq!(lower_hex(&[0x00, 0xff, 0x1a, 0x09]), "00ff1a09");
    assert_eq!(lower_hex(&[]), "");
}

#[test]
fn source_key_under_root_is_relative() {
    assert_eq!(source_key_for("/abs/wiki", "/abs/wiki/raw/note.md"), Ok("raw/note.md".to_string()));
    assert_eq!(source_key_for("/abs/wiki", "/abs/wiki"), Ok(String::new()));
}

#[test]
fn source_key_outside_root_is_absolute_path() {
    assert_eq!(source_key_for("/abs/wiki", "/elsewhere/note.md"), Ok("/elsewhere/note.md".to_string()));
    // A sibling directory sharing a name prefix is not under the root.
    assert_eq!(source_key_for("/abs/wiki", "/abs/wiki2/a.md"), Ok("/abs/wiki2/a.md".to_string()));
}

#[test]
fn source_key_relative_outside_root_is_refused() {
    let r = source_key_for("/abs/wiki", "rel/note.md");
    assert_eq!(r, Err(SourceKeyError::NotAbsolute("rel/note.md".to_string())));
    assert_eq!(
        r.unwrap_err().message(),
        "AGWIKI_INGEST_STATE_UTF8_PATH: source path is not absolute after canonicalization: rel/note.md"
    );
}

#[test]
fn lock_path_appends_lock() {
    assert_eq!(lock_path_for(".agwiki/ingest-state.jsonl"), ".agwiki/ingest-state.jsonl.lock");
}

#[test]
fn skip_notice_names_the_source() {
    assert_eq!(
        skip_notice("raw/note.md"),
        "SKIP: raw/note.md (already ingested under same policy/content/agent/model)"
    );
}

#[test]
fn run_folder_ingest_cap_exceeded_returns_error() {
    let files: Vec<String> = (0..5).map(|i| format!("/w/batch/f{i}.md")).collect();
    let err = run_folder_ingest("/w/batch", files, 3).unwrap_err();
    let msg = err.message();
    assert!(msg.contains("5"), "expected file count in error: {msg}");
    assert!(msg.contains("--max-files"), "expected hint in error: {msg}");
    assert_eq!(
        msg,
        "found 5 markdown file(s) under /w/batch; exceeds --max-files cap of 3. Pass --max-files 5 (or higher) to proceed."
    );
}

#[test]
fn run_folder_ingest_zero_cap_means_unlimited() {
    let files: Vec<String> = (0..5).map(|i| format!("/w/batch/f{i}.md")).collect();
    let mut run = run_folder_ingest("/w/batch", files, 0).unwrap();
    while let Some(_f) = run.current() {
        run.record_failure("agent 'nonexistent-agent-xyz' is not runnable".to_string());
    }
    let result = run.result();
    assert_eq!(result.total, 5);
    assert_eq!(result.failures.len(), 5);
    assert_eq!(result.succeeded, 0);
    assert_eq!(result.failures[2].0, "/w/batch/f2.md");
}

#[test]
fn folder_tally_counts_each_file_once() {
    let files: Vec<String> = (0..4).map(|i| format!("/w/f{i}.md")).collect();
    let mut run = run_folder_ingest("/w", files, 4).unwrap();
    run.record_success();
    run.record_skip();
    run.record_failure("boom".to_string());
    run.record_success();
    assert!(run.current().is_none());
    let v2 = run.result_v2();
    assert_eq!((v2.total, v2.succeeded, v2.skipped, v2.failures.len()), (4, 2, 1, 1));
    assert_eq!(v2.total, v2.succeeded + v2.skipped + v2.failures.len());
    assert_eq!(v2.failures[0], ("/w/f2.md".to_string(), "boom".to_string()));
    let v1 = run.result();
    assert_eq!((v1.total, v1.succeeded, v1.failures.len()), (4, 3, 1));
}

#[test]
fn ledger_skips_blank_lines_and_loads_records() {
    let rec = success_record(&identity("c1", "p1", "codex", None), "2026-01-01T00:00:00Z".into(), "0.2.0".into());
    let lines = vec![
        LedgerLine { text: "   ".to_string(), parsed: Err("EOF while parsing".to_string()) },
        record_line(rec),
    ];
    let ledger = load_ingest_state("/w/.agwiki/ingest-state.jsonl", &lines, true).unwrap();
    assert_eq!(ledger.records.len(), 1);
    assert_eq!(ledger.records[0].schema_version, 1);
    assert_eq!(ledger.records[0].status, IngestStatus::Success);
}

#[test]
fn ledger_invalid_line_fails_when_resuming() {
    let lines = vec![
        LedgerLine { text: "".to_string(), parsed: Err("EOF".to_string()) },
        LedgerLine { text: "not json".to_string(), parsed: Err("expected value".to_string()) },
    ];
    let err = load_ingest_state("/w/state.jsonl", &lines, true).unwrap_err();
    assert_eq!(
        err,
        LedgerError::InvalidJson {
            path: "/w/state.jsonl".to_string(),
            line: 2,
            message: "expected value".to_string()
        }
    );
    assert_eq!(
        err.message(),
        "AGWIKI_INGEST_STATE_READ_FAILED: invalid JSON at /w/state.jsonl:2: expected value"
    );
    // Without resume the line is passed over.
    let ledger = load_ingest_state("/w/state.jsonl", &lines, false).unwrap();
    assert_eq!(ledger.records.len(), 0);
}

#[test]
fn ledger_ignores_other_schema_versions() {
    let mut rec = success_record(&identity("c", "p", "codex", None), "t".into(), "v".into());
    rec.schema_version = 2;
    let ledger = load_ingest_state("s", &vec![record_line(rec)], true).unwrap();
    assert_eq!(ledger.records.len(), 0);
}

#[test]
fn resume_second_run_skips_same_identity() {
    let id = identity("c1", "p1", "codex", Some("gpt-5"));
    let rec = success_record(&id, "t".into(), "v".into());
    let ledger = load_ingest_state("s", &vec![record_line(rec)], true).unwrap();
    assert!(should_skip(&resume(false), &ledger, &id));
    // The identity written is the one read back.
    assert_eq!(identity_of(&ledger.records[0]).model.as_deref(), Some("gpt-5"));
}

#[test]
fn resume_content_policy_agent_or_model_change_reingests() {
    let id = identity("c1", "p1", "codex", None);
    let mut ledger = IngestLedger::new();
    ledger.insert(success_record(&id, "t".into(), "v".into()));
    assert!(!should_skip(&resume(false), &ledger, &identity("c2", "p1", "codex", None)));
    assert!(!should_skip(&resume(false), &ledger, &identity("c1", "p2", "codex", None)));
    assert!(!should_skip(&resume(false), &ledger, &identity("c1", "p1", "gemini", None)));
    assert!(!should_skip(&resume(false), &ledger, &identity("c1", "p1", "codex", Some("m"))));
    assert!(should_skip(&resume(false), &ledger, &id));
}

#[test]
fn resume_force_reingests() {
    let id = identity("c1", "p1", "codex", None);
    let mut ledger = IngestLedger::new();
    ledger.insert(success_record(&id, "t".into(), "v".into()));
    assert!(!should_skip(&resume(true), &ledger, &id));
    let off = IngestResumeConfig { resume: false, force: false, ingest_state_path: String::new() };
    assert!(!should_skip(&off, &ledger, &id));
}

#[test]
fn discover_md_files_keeps_markdown_sorted() {
    let found = vec![
        "/d/z.md".to_string(),
        "/d/file.txt".to_string(),
        "/d/a.md".to_string(),
        "/d/upper.MD".to_string(),
        "/d/data.json".to_string(),
        "/d/m.md".to_string(),
        "/d/noext".to_string(),
        "/d/.md".to_string(),
    ];
    assert_eq!(
        discover_md_files(&found),
        vec!["/d/a.md", "/d/m.md", "/d/upper.MD", "/d/z.md"]
    );
}

#[test]
fn discover_md_files_orders_by_component() {
    let found = vec!["/d/a-b/x.md".to_string(), "/d/a/x.md".to_string(), "/d/sub/nested.md".to_string()];
    assert_eq!(discover_md_files(&found), vec!["/d/a/x.md", "/d/a-b/x.md", "/d/sub/nested.md"]);
}

#[test]
fn discover_md_files_empty_dir() {
    assert!(discover_md_files(&Vec::new()).is_empty());
}

#[test]
fn agent_not_runnable_returns_error() {
    let msg = agent_not_runnable_message(
        "nonexistent-agent-xyz",
        &vec!["codex".to_string(), "gemini".to_string()],
    );
    assert!(msg.contains("nonexistent-agent-xyz"), "error: {msg}");
    assert!(msg.contains("available agents"), "error: {msg}");
    assert_eq!(
        msg,
        "agent 'nonexistent-agent-xyz' is not runnable; available agents: codex, gemini"
    );
}

#[test]
fn agent_failed_message_shows_status() {
    assert_eq!(agent_failed_message(Some(3)), "agent exited with status Some(3)");
    assert_eq!(agent_failed_message(None), "agent exited with status None");
}

#[test]
fn discover_md_files_finds_md_only() {
    let found = vec![
        "/t/doc.md".to_string(),
        "/t/file.txt".to_string(),
        "/t/data.json".to_string(),
        "/t/noext".to_string(),
    ];
    let files = discover_md_files(&found);
    assert_eq!(files.len(), 1);
    assert!(files[0].ends_with("doc.md"));
}

#[test]
fn discover_md_files_case_insensitive() {
    assert_eq!(discover_md_files(&vec!["/t/upper.MD".to_string()]).len(), 1);
}

#[test]
fn discover_md_files_nested_dirs() {
    let found = vec!["/t/root.md".to_string(), "/t/sub/nested.md".to_string()];
    assert_eq!(discover_md_files(&found).len(), 2);
}

#[test]
fn discover_md_files_sorted_lexicographic() {
    let found = vec!["/t/z.md".to_string(), "/t/a.md".to_string(), "/t/m.md".to_string()];
    let files = discover_md_files(&found);
    let names: Vec<&str> = files.iter().map(|p| p.rsplit('/').next().unwrap()).collect();
    assert_eq!(names, vec!["a.md", "m.md", "z.md"]);
}

#[test]
fn test_ingest_rejects_missing_file() {
    let err = resolve_ingest_source("raw/missing.md", None, None).unwrap_err();
    assert!(err.message().contains("not found"), "error: {}", err.message());
}

#[test]
fn test_ingest_rejects_binary_file() {
    let err = resolve_ingest_source("raw/data.bin", Some("/w/raw/data.bin".to_string()), Some(b"binary\x00content".to_vec()))
        .unwrap_err();
    assert!(err.message().contains("file appears to be binary"), "error: {}", err.message());
}

#[test]
fn test_ingest_folder_cap_exceeded() {
    let files: Vec<String> = (0..31).map(|i| format!("/w/batch/file{i:02}.md")).collect();
    let err = run_folder_ingest("/w/batch", files, 30).unwrap_err();
    assert!(err.message().contains("31"));
    assert!(err.message().contains("--max-files"));
}

#[test]
fn test_ingest_folder_empty_dir_succeeds() {
    let run = run_folder_ingest("/w/empty", Vec::new(), 30).unwrap();
    assert!(run.current().is_none());
    let r = run.result();
    assert_eq!(r.total, 0);
    assert!(r.failures.is_empty());
}

#[test]
fn test_ingest_resume_invalid_ledger_line_fails() {
    let lines = vec![LedgerLine {
        text: "{not valid json}".to_string(),
        parsed: Err("key must be a string at line 1 column 2".to_string()),
    }];
    let err = load_ingest_state("/w/.agwiki/ingest-state.jsonl", &lines, true).unwrap_err();
    assert!(err.message().starts_with("AGWIKI_INGEST_STATE_READ_FAILED: invalid JSON at /w/.agwiki/ingest-state.jsonl:1"));
}

#[test]
fn appended_success_is_found_on_the_next_run() {
    let first = identity("c0", "p1", "codex", None);
    let mut lines = vec![record_line(success_record(&first, "t".into(), "v".into()))];
    let before = load_ingest_state("s", &lines, true).unwrap();
    let id = identity("c1", "p1", "codex", None);
    assert!(!should_skip(&resume(false), &before, &id));
    lines.push(record_line(success_record(&id, "t2".into(), "v".into())));
    let after = load_ingest_state("s", &lines, true).unwrap();
    assert_eq!(after.records.len(), 2);
    assert!(should_skip(&resume(false), &after, &first));
    assert!(should_skip(&resume(false), &after, &id));
    assert!(!should_skip(&resume(true), &after, &id));
    assert!(!should_skip(&resume(false), &after, &identity("c2", "p1", "codex", None)));
}

#[test]
fn external_id_is_authoritative_over_content_drift() {
    let mut first = identity("c1", "p1", "codex", None);
    first.external_id = Some("<msg-1@example.com>".to_string());
    let mut ledger = IngestLedger::new();
    ledger.insert(success_record(&first, "t".into(), "v".into()));
    let mut drifted = identity("c2", "p1", "gemini", Some("m"));
    drifted.source_key = "raw/other.md".to_string();
    drifted.external_id = first.external_id.clone();
    assert!(should_skip(&resume(false), &ledger, &drifted));
    let mut new_policy = drifted.clone();
    new_policy.ingest_policy_sha256 = "p2".to_string();
    assert!(!should_skip(&resume(false), &ledger, &new_policy));
    let mut other_id = drifted.clone();
    other_id.external_id = Some("<msg-2@example.com>".to_string());
    assert!(!should_skip(&resume(false), &ledger, &other_id));
    // without an external id, the content identity of the record still counts
    assert!(should_skip(&resume(false), &ledger, &identity("c1", "p1", "codex", None)));
}

#[test]
fn frontmatter_external_id_is_read() {
    assert_eq!(
        frontmatter_external_id_of("---\ntitle: A\nexternal_id: \"yt:abc\"\n---\nbody\n").as_deref(),
        Some("yt:abc")
    );
    assert_eq!(frontmatter_external_id_of("---\nexternal_id:  id-7  \n---\n").as_deref(), Some("id-7"));
    assert_eq!(frontmatter_external_id_of("---\nexternal_id:\n---\n"), None);
    assert_eq!(frontmatter_external_id_of("---\nexternal_id: x\n"), None);
    assert_eq!(frontmatter_external_id_of("title\n---\nexternal_id: x\n---\n"), None);
    assert_eq!(frontmatter_external_id_of("---\n---\nexternal_id: x\n"), None);
    assert_eq!(source_external_id(Some("flag".to_string()), "---\nexternal_id: fm\n---\n").as_deref(), Some("flag"));
    assert_eq!(source_external_id(None, "---\nexternal_id: fm\n---\n").as_deref(), Some("fm"));
}
