use agwiki::config::{pick, Defaults, Hooks, OperatorConfig};

#[test]
fn pick_prefers_flag_then_env_then_config() {
    assert_eq!(
        pick(Some("flag".into()), Some("env".into()), Some("cfg".into())).as_deref(),
        Some("flag")
    );
    assert_eq!(
        pick(None, Some("env".into()), Some("cfg".into())).as_deref(),
        Some("env")
    );
    assert_eq!(pick(None, None, Some("cfg".into())).as_deref(), Some("cfg"));
    assert_eq!(pick(None, None, None), None);
}

#[test]
fn pick_treats_blank_as_absent_and_trims() {
    assert_eq!(
        pick(Some("   ".into()), Some("env".into()), None).as_deref(),
        Some("env")
    );
    assert_eq!(
        pick(Some("  codex  ".into()), None, None).as_deref(),
        Some("codex")
    );
}

#[test]
fn pick_blank_everywhere_is_none() {
    assert_eq!(pick(Some("\t".into()), Some("\u{3000}".into()), Some(" \n".into())), None);
}

#[test]
fn load_missing_file_is_empty_config() {
    let cfg = OperatorConfig::load(None).unwrap();
    assert!(cfg.defaults.agent.is_none());
    assert!(cfg.defaults.model.is_none());
}

#[test]
fn load_reads_defaults() {
    let parsed = OperatorConfig {
        defaults: Defaults { agent: Some("codex".to_string()), model: Some("gpt-5".to_string()) },
        hooks: Hooks {
            after_source: Some("echo $AGWIKI_SOURCE_KEY".to_string()),
            after_batch: None,
            after_materialize: None,
            on_error: None,
            continue_on_error: true,
        },
    };
    let cfg = OperatorConfig::load(Some(Ok(parsed))).unwrap();
    assert_eq!(cfg.defaults.agent.as_deref(), Some("codex"));
    assert_eq!(cfg.defaults.model.as_deref(), Some("gpt-5"));
    assert_eq!(cfg.hooks.after_source.as_deref(), Some("echo $AGWIKI_SOURCE_KEY"));
    assert!(cfg.hooks.continue_on_error);
}

#[test]
fn load_malformed_file_errors() {
    let err = OperatorConfig::load(Some(Err("expected newline".to_string()))).unwrap_err();
    assert_eq!(err, "expected newline");
}
