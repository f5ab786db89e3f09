use agwiki::ingest::{success_record, IngestIdentity, IngestLedger, IngestResumeConfig};
use agwiki::ingest_render::plan_source;
use agwiki::ingest_render::{
    plan_json_line, IngestEvent, IngestRenderer, LineProgressSink, PlanAction, RenderOutput,
};
use aikit_sdk::{
    AgentEvent, AgentEventPayload, AgentEventStream, MessageKind, MessagePhase, MessageRole,
    ProgressViewConfig, RunProgress, StreamMessage, TokenUsage, UsageSource,
};

fn make_assistant_event(text: &str) -> AgentEvent {
    AgentEvent {
        agent_key: "test-agent".to_string(),
        seq: 0,
        stream: AgentEventStream::Stdout,
        payload: AgentEventPayload::StreamMessage(StreamMessage {
            text: text.to_string(),
            phase: MessagePhase::Delta,
            role: MessageRole::Assistant,
            kind: MessageKind::Message,
            source: AgentEventStream::Stdout,
            raw_line_seq: 0,
            turn_id: None,
        }),
    }
}

#[test]
fn line_progress_sink_push_produces_row() {
    let mut sink = LineProgressSink::new();
    let event = make_assistant_event("hello world");
    let shown = sink.push("test-agent", &event);
    assert_eq!(sink.last_row.as_deref(), Some("assistant> hello world"));
    assert_eq!(shown.as_deref(), Some("assistant> hello world"));
}

#[test]
fn line_progress_sink_deduplication() {
    let mut sink = LineProgressSink::new();
    let event1 = make_assistant_event("hello");
    let event2 = make_assistant_event("hello");
    let first = sink.push("test-agent", &event1);
    let row_after_first = sink.last_row.clone();
    let second = sink.push("test-agent", &event2);
    let row_after_second = sink.last_row.clone();
    assert_eq!(row_after_first, row_after_second);
    assert_eq!(row_after_first.as_deref(), Some("assistant> hello"));
    assert_eq!(first.as_deref(), Some("assistant> hello"));
    assert_eq!(second, None);
}

#[test]
fn line_progress_sink_ring_buffer_eviction() {
    let config = ProgressViewConfig { max_rows: 3, ..Default::default() };
    let mut sink = LineProgressSink { progress: RunProgress::new(config), last_row: None, tokens_fit: true };
    for i in 0..5u32 {
        let event = AgentEvent {
            agent_key: "agent".to_string(),
            seq: i as u64,
            stream: AgentEventStream::Stdout,
            payload: AgentEventPayload::StreamMessage(StreamMessage {
                text: format!("msg {i}"),
                phase: MessagePhase::Delta,
                role: MessageRole::Assistant,
                kind: MessageKind::Message,
                source: AgentEventStream::Stdout,
                raw_line_seq: 0,
                turn_id: None,
            }),
        };
        sink.push("agent", &event);
    }
    assert_eq!(sink.last_row.as_deref(), Some("assistant> msg 4"));
    assert_eq!(sink.progress.formatted_lines().count(), 3);
}

#[test]
fn line_progress_sink_reset_clears_state() {
    let mut sink = LineProgressSink::new();
    let event = make_assistant_event("before reset");
    sink.push("test-agent", &event);
    assert!(sink.last_row.is_some());
    let lines = sink.reset("next-file.md");
    assert!(sink.last_row.is_none());
    assert_eq!(sink.progress.formatted_lines().count(), 0);
    assert_eq!(lines, vec!["--- next-file.md ---".to_string()]);
}

#[test]
fn plan_line_is_sorted_json() {
    assert_eq!(
        plan_json_line("raw/a.md", PlanAction::Ingest, "new", &None),
        "{\"action\":\"ingest\",\"external_id\":null,\"reason\":\"new\",\"source\":\"raw/a.md\"}"
    );
    assert_eq!(
        plan_json_line("raw/\"b\".md", PlanAction::Skip, "already ingested", &Some("msg-1".to_string())),
        "{\"action\":\"skip\",\"external_id\":\"msg-1\",\"reason\":\"already ingested\",\"source\":\"raw/\\\"b\\\".md\"}"
    );
}

#[test]
fn renderer_skip_and_stderr_passthrough() {
    let mut r = IngestRenderer::new(false);
    assert_eq!(
        r.handle(IngestEvent::Skipped { source_key: "raw/a.md".to_string() }),
        vec![RenderOutput::Stderr(
            "SKIP: raw/a.md (already ingested under same policy/content/agent/model)".to_string()
        )]
    );
    assert_eq!(
        r.handle(IngestEvent::AgentStderr(vec![1, 2, 3])),
        vec![RenderOutput::StderrBytes(vec![1, 2, 3])]
    );
    assert!(r.handle(IngestEvent::AgentRunFinished).is_empty());
    assert!(r.handle(IngestEvent::ProgressReset { source_key: "b.md".to_string() }).is_empty());
}

#[test]
fn renderer_ndjson_mode_prints_event_json() {
    let mut r = IngestRenderer::new(false);
    let out = r.handle(IngestEvent::Agent {
        agent_key: "test-agent".to_string(),
        event: make_assistant_event("hi"),
    });
    assert_eq!(out.len(), 1);
    match &out[0] {
        RenderOutput::Stdout(s) => {
            assert!(s.starts_with('{'));
            assert!(s.contains("\"agent_key\":\"test-agent\""));
        }
        other => panic!("unexpected {other:?}"),
    }
}

#[test]
fn renderer_progress_mode_dedups_and_separates() {
    let mut r = IngestRenderer::new(true);
    let a = r.handle(IngestEvent::Agent {
        agent_key: "test-agent".to_string(),
        event: make_assistant_event("hi"),
    });
    assert_eq!(a, vec![RenderOutput::Stderr("assistant> hi".to_string())]);
    let b = r.handle(IngestEvent::Agent {
        agent_key: "test-agent".to_string(),
        event: make_assistant_event("hi"),
    });
    assert!(b.is_empty());
    assert!(r.handle(IngestEvent::AgentRunFinished).is_empty());
    assert_eq!(
        r.handle(IngestEvent::ProgressReset { source_key: "next.md".to_string() }),
        vec![RenderOutput::Stderr("--- next.md ---".to_string())]
    );
    assert!(r.handle(IngestEvent::ProgressFinalFooter).is_empty());
}

fn make_usage_event(input: u64, output: u64) -> AgentEvent {
    AgentEvent {
        agent_key: "opencode".to_string(),
        seq: 1,
        stream: AgentEventStream::Stdout,
        payload: AgentEventPayload::TokenUsageLine {
            usage: TokenUsage {
                input_tokens: input,
                output_tokens: output,
                total_tokens: None,
                cache_read_tokens: None,
                cache_creation_tokens: None,
                reasoning_tokens: None,
            },
            source: UsageSource::OpenCode,
            raw_agent_line_seq: 0,
        },
    }
}

#[test]
fn line_progress_sink_token_footer_after_usage() {
    let mut sink = LineProgressSink::new();
    assert_eq!(sink.emit_footer(), None);
    let shown = sink.push("opencode", &make_usage_event(100, 50));
    assert_eq!(shown, None);
    assert_eq!(
        sink.emit_footer().as_deref(),
        Some("[tokens] opencode  in=100 out=50 total=150")
    );
    let lines = sink.reset("b.md");
    assert_eq!(
        lines,
        vec!["[tokens] opencode  in=100 out=50 total=150".to_string(), "--- b.md ---".to_string()]
    );
    assert_eq!(sink.emit_footer(), None);
}

#[test]
fn line_progress_sink_overflowing_usage_shows_no_footer() {
    let mut sink = LineProgressSink::new();
    sink.push("opencode", &make_usage_event(u64::MAX, 1));
    assert!(!sink.tokens_fit);
    assert_eq!(sink.emit_footer(), None);
    assert_eq!(sink.reset("c.md"), vec!["--- c.md ---".to_string()]);
    sink.push("opencode", &make_usage_event(2, 3));
    assert_eq!(sink.emit_footer().as_deref(), Some("[tokens] opencode  in=2 out=3 total=5"));
}

#[test]
fn plan_line_escapes_control_characters() {
    assert_eq!(
        plan_json_line("a\u{1}b\tc\\d\u{7f}é", PlanAction::Ingest, "x\ny", &None),
        "{\"action\":\"ingest\",\"external_id\":null,\"reason\":\"x\\ny\",\"source\":\"a\\u0001b\\tc\\\\d\u{7f}é\"}"
    );
}

#[test]
fn dry_run_plan_matches_the_skip_decision() {
    let id = IngestIdentity {
        wiki_root: "/w".to_string(),
        source_key: "raw/a.md".to_string(),
        content_sha256: "c".to_string(),
        ingest_policy_sha256: "p".to_string(),
        agent: "codex".to_string(),
        model: None,
        external_id: None,
    };
    let cfg = |force: bool| IngestResumeConfig { resume: true, force, ingest_state_path: String::new() };
    let mut ledger = IngestLedger::new();
    assert_eq!(plan_source(&cfg(false), &ledger, &id), (PlanAction::Ingest, "new".to_string()));
    ledger.insert(success_record(&id, "t".into(), "v".into()));
    assert_eq!(plan_source(&cfg(false), &ledger, &id), (PlanAction::Skip, "already ingested".to_string()));
    assert_eq!(plan_source(&cfg(true), &ledger, &id), (PlanAction::Ingest, "forced".to_string()));
}
