use agwiki::hooks::{
    batch_hook_env, error_hook_env, exit_code_string, hook_outcome, materialize_hook_env, run_hook_if_set,
    source_hook_env,
};

#[test]
fn run_hook_if_set_none_is_noop() {
    assert_eq!(run_hook_if_set(&None), None);
    assert_eq!(run_hook_if_set(&Some("make docs".to_string())).as_deref(), Some("make docs"));
}

#[test]
fn run_hook_true_succeeds() {
    assert_eq!(hook_outcome("true", true, Some(0), false), Ok(None));
}

#[test]
fn run_hook_nonzero_errors() {
    let err = hook_outcome("exit 3", false, Some(3), false).unwrap_err();
    assert!(err.contains("exit code 3"), "error: {err}");
    assert_eq!(err, "hook `exit 3` failed with exit code 3");
}

#[test]
fn run_hook_nonzero_tolerated_under_continue_on_error() {
    let r = hook_outcome("exit 3", false, Some(3), true);
    assert_eq!(
        r,
        Ok(Some("warning: hook `exit 3` exited with status 3 (continue_on_error set; ignoring)".to_string()))
    );
}

#[test]
fn hook_killed_by_signal() {
    assert_eq!(
        hook_outcome("sleep 9", false, None, false).unwrap_err(),
        "hook `sleep 9` failed with exit code signal"
    );
    assert_eq!(exit_code_string(Some(-2)), "-2");
    assert_eq!(exit_code_string(Some(127)), "127");
}

fn pairs(v: &[(&str, &str)]) -> Vec<(String, String)> {
    v.iter().map(|(a, b)| (a.to_string(), b.to_string())).collect()
}

#[test]
fn hook_environments_name_the_event() {
    assert_eq!(
        source_hook_env("/w", "/w/raw/a.md", "raw/a.md", &Some("yt:1".to_string()), "codex", &None),
        pairs(&[
            ("AGWIKI_WIKI_ROOT", "/w"),
            ("AGWIKI_SOURCE", "/w/raw/a.md"),
            ("AGWIKI_SOURCE_KEY", "raw/a.md"),
            ("AGWIKI_EXTERNAL_ID", "yt:1"),
            ("AGWIKI_AGENT", "codex"),
            ("AGWIKI_MODEL", ""),
        ])
    );
    assert_eq!(
        batch_hook_env("/w", 5, 2, 2, 1),
        pairs(&[
            ("AGWIKI_WIKI_ROOT", "/w"),
            ("AGWIKI_TOTAL", "5"),
            ("AGWIKI_INGESTED", "2"),
            ("AGWIKI_SKIPPED", "2"),
            ("AGWIKI_FAILED", "1"),
        ])
    );
    assert_eq!(
        error_hook_env("/w", "raw/b.md", "boom"),
        pairs(&[("AGWIKI_WIKI_ROOT", "/w"), ("AGWIKI_SOURCE", "raw/b.md"), ("AGWIKI_ERROR", "boom")])
    );
    assert_eq!(
        materialize_hook_env("/w", "skill"),
        pairs(&[("AGWIKI_WIKI_ROOT", "/w"), ("AGWIKI_TARGET", "skill")])
    );
}
