//! Turns the ingest event stream into terminal output.
//!
//! Two output shapes, selected by whether progress mode is active:
//! - NDJSON mode (default): each agent event becomes one JSON line on stdout;
//!   agent stderr is passed through verbatim to stderr.
//! - Progress mode: a deduplicated, human-readable view of the agent stream
//!   goes to stderr, with a token footer at the end of each agent run and
//!   `--- <key> ---` separators between files of a folder run.
//!
//! The library decides what is written where; the caller performs the writes.

use vstd::prelude::*;
use aikit_sdk::{AgentEvent, AgentEventPayload, ProgressViewConfig, RunProgress};
use crate::config::opt_view;
use crate::upkeep::same_chars;
use crate::ingest::{hex_digit, hex_digit_char, recorded, skip_notice, skips, IdentityV, IngestIdentity, IngestLedger, IngestResumeConfig};
use crate::text::{from_chars, lit, push_str, string_chars, string_views};

verus! {

#[verifier::external_type_specification]
#[verifier::external_body]
pub struct ExAgentEvent(AgentEvent);

#[verifier::external_type_specification]
#[verifier::external_body]
pub struct ExRunProgress(RunProgress);

#[verifier::external_type_specification]
#[verifier::external_body]
pub struct ExProgressViewConfig(ProgressViewConfig);

/// The formatted rows a progress view holds (its ring buffer), oldest first.
pub uninterp spec fn progress_rows(p: RunProgress) -> Seq<Seq<char>>;

/// The token-usage footer a progress view would show, if any.
pub uninterp spec fn progress_footer(p: RunProgress) -> Option<Seq<char>>;

/// Whether the footer of a progress view can be computed: it holds no token
/// usage, or one whose input and output counts add up within a `u64`
/// (aikit-sdk adds them unchecked when it writes the footer).
pub uninterp spec fn progress_tokens_fit(p: RunProgress) -> bool;

/// aikit-sdk's `ProgressViewConfig::default()`; nothing is stated of the
/// configuration it returns.
#[verifier::external_body]
fn default_view_config() -> (c: ProgressViewConfig)
{
    ProgressViewConfig::default()
}

/// aikit-sdk's `RunProgress::new`: a fresh view holds no rows and shows no
/// footer (no token usage has been seen yet).
#[verifier::external_body]
fn progress_new(config: ProgressViewConfig) -> (p: RunProgress)
    ensures
        progress_rows(p) == Seq::<Seq<char>>::empty(),
        progress_footer(p) == None::<Seq<char>>,
        progress_tokens_fit(p),
{
    RunProgress::new(config)
}

/// aikit-sdk's `RunProgress::push`, returning the input and output token
/// counts of a token-usage event (`None` for any other event). An event
/// either leaves the rows as they were, or appends one formatted row,
/// dropping the oldest rows to stay within the view's limit; what the new
/// row says is not stated here. A token-usage event adds no row and makes
/// its counts the view's usage; any other event leaves the usage, and so the
/// footer, as they were.
#[verifier::external_body]
fn progress_push(p: &mut RunProgress, agent_key: &str, event: &AgentEvent) -> (counts: Option<(u64, u64)>)
    ensures
        progress_rows(*final(p)) == progress_rows(*old(p)) || exists|row: Seq<char>, k: int|
            0 <= k <= progress_rows(*old(p)).len() && #[trigger] progress_rows(*final(p))
                == progress_rows(*old(p)).push(row).skip(k),
        counts is None ==> progress_footer(*final(p)) == progress_footer(*old(p))
            && progress_tokens_fit(*final(p)) == progress_tokens_fit(*old(p)),
        counts matches Some((i, o)) ==> progress_rows(*final(p)) == progress_rows(*old(p))
            && progress_tokens_fit(*final(p)) == (i + o <= u64::MAX),
{
    p.push(agent_key, event);
    match &event.payload {
        AgentEventPayload::TokenUsageLine { usage, .. } => Some((usage.input_tokens, usage.output_tokens)),
        _ => None,
    }
}

/// aikit-sdk's `RunProgress::formatted_lines`, keeping only the last row:
/// the newest row, or `None` when the view is empty.
#[verifier::external_body]
fn progress_last_row(p: &RunProgress) -> (r: Option<String>)
    ensures
        opt_view(r) == last_of(progress_rows(*p)),
{
    p.formatted_lines().last().map(String::from)
}

/// aikit-sdk's `RunProgress::clear`: no rows, no usage and no footer remain.
#[verifier::external_body]
fn progress_clear(p: &mut RunProgress)
    ensures
        progress_rows(*final(p)) == Seq::<Seq<char>>::empty(),
        progress_footer(*final(p)) == None::<Seq<char>>,
        progress_tokens_fit(*final(p)),
{
    p.clear()
}

/// aikit-sdk's `RunProgress::token_footer`, named by `progress_footer`. It
/// adds the input and output counts unchecked, so it is called only when
/// they fit.
#[verifier::external_body]
fn progress_token_footer(p: &RunProgress) -> (r: Option<String>)
    requires
        progress_tokens_fit(*p),
    ensures
        opt_view(r) == progress_footer(*p),
{
    p.token_footer()
}

/// The last element of a sequence, if there is one.
pub open spec fn last_of(rows: Seq<Seq<char>>) -> Option<Seq<char>> {
    if rows.len() == 0 {
        None
    } else {
        Some(rows.last())
    }
}

/// A progress view together with the last row already shown, so that a row
/// is shown only when it differs from the one before it, and whether the
/// token counts of its usage add up within a `u64` (its footer is shown only
/// then).
pub struct LineProgressSink {
    pub progress: RunProgress,
    pub last_row: Option<String>,
    pub tokens_fit: bool,
}

/// The footer a sink shows: the view's footer when its token counts fit,
/// none otherwise.
pub open spec fn shown_footer(s: LineProgressSink) -> Option<Seq<char>> {
    if s.tokens_fit {
        progress_footer(s.progress)
    } else {
        None
    }
}

impl LineProgressSink {
    /// `tokens_fit` is true only when the view's token counts fit.
    pub open spec fn wf(&self) -> bool {
        self.tokens_fit ==> progress_tokens_fit(self.progress)
    }

    /// A sink over a default progress view, with nothing shown yet.
    pub fn new() -> (s: LineProgressSink)
        ensures
            s.wf(),
            s.tokens_fit,
            progress_rows(s.progress) == Seq::<Seq<char>>::empty(),
            progress_footer(s.progress) == None::<Seq<char>>,
            s.last_row is None,
    {
        LineProgressSink { progress: progress_new(default_view_config()), last_row: None, tokens_fit: true }
    }

    /// Feeds one agent event to the view. The newest row becomes the last
    /// row shown; it is returned for display only when it differs from the
    /// row shown before.
    pub fn push(&mut self, agent_key: &str, event: &AgentEvent) -> (shown: Option<String>)
        requires
            old(self).wf(),
        ensures
            final(self).wf(),
            shown_footer(*old(self)) != shown_footer(*final(self)) ==> progress_rows(final(self).progress)
                == progress_rows(old(self).progress),
            opt_view(final(self).last_row) == last_of(progress_rows(final(self).progress)),
            opt_view(shown) == if last_of(progress_rows(final(self).progress)) == opt_view(
                old(self).last_row,
            ) {
                None
            } else {
                last_of(progress_rows(final(self).progress))
            },
    {
        match progress_push(&mut self.progress, agent_key, event) {
            Some((i, o)) => {
                self.tokens_fit = i.checked_add(o).is_some();
            },
            None => {},
        }
        let new_last = progress_last_row(&self.progress);
        let same = same_row(&new_last, &self.last_row);
        self.last_row = copy_row(&new_last);
        if same {
            None
        } else {
            new_last
        }
    }

    /// Clears the view before the next file of a folder run. Returns the
    /// lines to show: the footer of the view being cleared, if any, then the
    /// `--- <key> ---` separator.
    pub fn reset(&mut self, next_source_key: &str) -> (lines: Vec<String>)
        requires
            old(self).wf(),
        ensures
            final(self).wf(),
            final(self).tokens_fit,
            progress_rows(final(self).progress) == Seq::<Seq<char>>::empty(),
            progress_footer(final(self).progress) == None::<Seq<char>>,
            final(self).last_row is None,
            string_views(lines@) == footer_lines(shown_footer(*old(self))).push(
                separator(next_source_key@),
            ),
    {
        let mut lines: Vec<String> = Vec::new();
        match self.emit_footer() {
            Some(f) => lines.push(f),
            None => {},
        }
        progress_clear(&mut self.progress);
        self.last_row = None;
        self.tokens_fit = true;
        let mut sep = lit("--- ");
        push_str(&mut sep, next_source_key);
        push_str(&mut sep, " ---");
        proof {
            reveal_strlit("--- ");
            reveal_strlit(" ---");
        }
        lines.push(from_chars(&sep));
        proof {
            assert(string_views(lines@) =~= footer_lines(shown_footer(*old(self))).push(
                separator(next_source_key@),
            ));
        }
        lines
    }

    /// The token footer of the current view, if it has one and its token
    /// counts fit.
    pub fn emit_footer(&self) -> (footer: Option<String>)
        requires
            self.wf(),
        ensures
            opt_view(footer) == shown_footer(*self),
    {
        if self.tokens_fit {
            progress_token_footer(&self.progress)
        } else {
            None
        }
    }
}

/// The footer, as the lines it takes (none or one).
pub open spec fn footer_lines(f: Option<Seq<char>>) -> Seq<Seq<char>> {
    match f {
        Some(t) => seq![t],
        None => seq![],
    }
}

/// The separator shown before the next file of a folder run.
pub open spec fn separator(key: Seq<char>) -> Seq<char> {
    "--- "@ + key + " ---"@
}

fn same_row(a: &Option<String>, b: &Option<String>) -> (r: bool)
    ensures
        r == (opt_view(*a) == opt_view(*b)),
{
    match a {
        None => b.is_none(),
        Some(x) => match b {
            None => false,
            Some(y) => same_text(x, y),
        },
    }
}

fn same_text(x: &String, y: &String) -> (r: bool)
    ensures
        r == (x@ == y@),
{
    same_chars(&string_chars(x), &string_chars(y))
}

fn copy_row(a: &Option<String>) -> (r: Option<String>)
    ensures
        opt_view(r) == opt_view(*a),
{
    match a {
        Some(x) => Some(from_chars(&string_chars(x))),
        None => None,
    }
}

/// What a dry-run plan decided for a source.
#[derive(Debug, Clone, Copy, PartialEq, Eq, Structural)]
pub enum PlanAction {
    Ingest,
    Skip,
}

/// An event emitted by ingest, to be rendered as terminal output.
#[derive(Debug)]
pub enum IngestEvent {
    /// One agent event from the agent stream, with the agent key it came from.
    Agent { agent_key: String, event: AgentEvent },
    /// Raw agent stderr bytes, written verbatim.
    AgentStderr(Vec<u8>),
    /// The end of one agent run (the progress footer is shown here).
    AgentRunFinished,
    /// Folder-mode boundary before the next file.
    ProgressReset { source_key: String },
    /// Final footer of a folder run.
    ProgressFinalFooter,
    /// A source skipped because a matching prior success exists.
    Skipped { source_key: String },
    /// A dry-run plan entry.
    Planned { source_key: String, action: PlanAction, reason: String, external_id: Option<String> },
}

/// One piece of terminal output: a line for stdout or stderr (the newline
/// is added when it is written), or bytes written verbatim to stderr.
#[derive(Debug, PartialEq, Eq)]
pub enum RenderOutput {
    Stdout(String),
    Stderr(String),
    StderrBytes(Vec<u8>),
}

/// The abstract value of a [`RenderOutput`].
pub enum OutputV {
    Stdout(Seq<char>),
    Stderr(Seq<char>),
    StderrBytes(Seq<u8>),
}

impl View for RenderOutput {
    type V = OutputV;

    open spec fn view(&self) -> OutputV {
        match self {
            RenderOutput::Stdout(s) => OutputV::Stdout(s@),
            RenderOutput::Stderr(s) => OutputV::Stderr(s@),
            RenderOutput::StderrBytes(b) => OutputV::StderrBytes(b@),
        }
    }
}

/// The views of a list of outputs.
pub open spec fn outputs_view(v: Seq<RenderOutput>) -> Seq<OutputV> {
    v.map_values(|o: RenderOutput| o@)
}

/// Stderr lines, in order.
pub open spec fn stderr_lines(lines: Seq<Seq<char>>) -> Seq<OutputV> {
    lines.map_values(|l: Seq<char>| OutputV::Stderr(l))
}

/// How serde_json writes one character inside a string literal: `"` and
/// `\` behind a backslash, the short escapes `\b \t \n \f \r`, any other
/// character below U+0020 as `\u00` and two lowercase hex digits, and every
/// other character as itself.
pub open spec fn json_escape_char(c: char) -> Seq<char> {
    if c == '"' {
        seq!['\\', '"']
    } else if c == '\\' {
        seq!['\\', '\\']
    } else if c == '\x08' {
        seq!['\\', 'b']
    } else if c == '\t' {
        seq!['\\', 't']
    } else if c == '\n' {
        seq!['\\', 'n']
    } else if c == '\x0c' {
        seq!['\\', 'f']
    } else if c == '\r' {
        seq!['\\', 'r']
    } else if (c as int) < 0x20 {
        seq!['\\', 'u', '0', '0', hex_digit((c as int) / 16), hex_digit((c as int) % 16)]
    } else {
        seq![c]
    }
}

/// The escaped characters of a string, in order.
pub open spec fn json_escaped(s: Seq<char>) -> Seq<char>
    decreases s.len(),
{
    if s.len() == 0 {
        seq![]
    } else {
        json_escaped(s.drop_last()) + json_escape_char(s.last())
    }
}

/// The JSON encoding of a string: its escaped characters between quotes.
pub open spec fn json_string(s: Seq<char>) -> Seq<char> {
    seq!['"'] + json_escaped(s) + seq!['"']
}

fn push_json_escape(v: &mut Vec<char>, c: char)
    ensures
        final(v)@ == old(v)@ + json_escape_char(c),
{
    let ghost before = v@;
    if c == '"' {
        v.push('\\');
        v.push('"');
    } else if c == '\\' {
        v.push('\\');
        v.push('\\');
    } else if c == '\x08' {
        v.push('\\');
        v.push('b');
    } else if c == '\t' {
        v.push('\\');
        v.push('t');
    } else if c == '\n' {
        v.push('\\');
        v.push('n');
    } else if c == '\x0c' {
        v.push('\\');
        v.push('f');
    } else if c == '\r' {
        v.push('\\');
        v.push('r');
    } else if (c as u32) < 0x20 {
        let n: u32 = c as u32;
        v.push('\\');
        v.push('u');
        v.push('0');
        v.push('0');
        v.push(hex_digit_char((n / 16) as u8));
        v.push(hex_digit_char((n % 16) as u8));
    } else {
        v.push(c);
    }
    assert(v@ =~= before + json_escape_char(c));
}

/// The JSON string literal for `s`, as serde_json's `to_string` writes it
/// for a `str` (its `format_escaped_str` with the `ESCAPE` table).
fn json_quote(s: &str) -> (r: String)
    ensures
        r@ == json_string(s@),
{
    let cs = lit(s);
    let mut v: Vec<char> = Vec::new();
    v.push('"');
    let mut i: usize = 0;
    while i < cs.len()
        invariant
            i <= cs@.len(),
            v@ == seq!['"'] + json_escaped(cs@.take(i as int)),
        decreases cs.len() - i,
    {
        assert(cs@.take(i + 1).drop_last() =~= cs@.take(i as int));
        push_json_escape(&mut v, cs[i]);
        i = i + 1;
    }
    assert(cs@.take(cs.len() as int) =~= cs@);
    v.push('"');
    from_chars(&v)
}

/// serde_json's `to_string` on an agent event. Nothing is stated of the
/// text; `None` when serialization fails.
#[verifier::external_body]
fn agent_event_json(event: &AgentEvent) -> (r: Option<String>)
{
    serde_json::to_string(event).ok()
}

/// The word for a plan action.
pub open spec fn action_word(a: PlanAction) -> Seq<char> {
    match a {
        PlanAction::Ingest => "ingest"@,
        PlanAction::Skip => "skip"@,
    }
}

/// The JSON line of a dry-run plan entry: an object with the keys
/// `action`, `external_id`, `reason` and `source`, in that (sorted) order.
pub open spec fn plan_line(source: Seq<char>, action: PlanAction, reason: Seq<char>, external_id: Option<Seq<char>>) -> Seq<char> {
    "{\"action\":"@ + json_string(action_word(action)) + ",\"external_id\":"@ + match external_id {
        Some(e) => json_string(e),
        None => "null"@,
    } + ",\"reason\":"@ + json_string(reason) + ",\"source\":"@ + json_string(source) + "}"@
}

/// The JSON line of a dry-run plan entry (see [`plan_line`]).
pub fn plan_json_line(source: &str, action: PlanAction, reason: &str, external_id: &Option<String>) -> (r: String)
    ensures
        r@ == plan_line(source@, action, reason@, opt_view(*external_id)),
{
    let word = match action {
        PlanAction::Ingest => "ingest",
        PlanAction::Skip => "skip",
    };
    proof {
        reveal_strlit("ingest");
        reveal_strlit("skip");
    }
    let mut v = lit("{\"action\":");
    push_str(&mut v, json_quote(word).as_str());
    push_str(&mut v, ",\"external_id\":");
    match external_id {
        Some(e) => push_str(&mut v, json_quote(e.as_str()).as_str()),
        None => push_str(&mut v, "null"),
    }
    push_str(&mut v, ",\"reason\":");
    push_str(&mut v, json_quote(reason).as_str());
    push_str(&mut v, ",\"source\":");
    push_str(&mut v, json_quote(source).as_str());
    push_str(&mut v, "}");
    from_chars(&v)
}

/// The dry-run decision for a source of identity `id`: skipped, as
/// "already ingested", when the ledger is consulted, a recorded success
/// counts for it and the run is not forced; otherwise ingested, as "forced"
/// when such a success exists and "new" when none does.
pub open spec fn planned(resume: bool, force: bool, ids: Seq<IdentityV>, id: IdentityV) -> (PlanAction, Seq<char>) {
    if resume && recorded(ids, id) {
        if force {
            (PlanAction::Ingest, "forced"@)
        } else {
            (PlanAction::Skip, "already ingested"@)
        }
    } else {
        (PlanAction::Ingest, "new"@)
    }
}

/// The dry-run plan entry for one source: what a run with the same ledger
/// and flags would do. It skips exactly the sources that a run skips.
pub fn plan_source(cfg: &IngestResumeConfig, ledger: &IngestLedger, id: &IngestIdentity) -> (r: (
    PlanAction,
    String,
))
    ensures
        (r.0, r.1@) == planned(cfg.resume, cfg.force, ledger.ids(), id@),
        (r.0 == PlanAction::Skip) == skips(cfg.resume, cfg.force, ledger.ids(), id@),
{
    proof {
        reveal_strlit("forced");
        reveal_strlit("already ingested");
        reveal_strlit("new");
    }
    if cfg.resume && ledger.contains(id) {
        if cfg.force {
            (PlanAction::Ingest, from_chars(&lit("forced")))
        } else {
            (PlanAction::Skip, from_chars(&lit("already ingested")))
        }
    } else {
        (PlanAction::Ingest, from_chars(&lit("new")))
    }
}

/// The notice for a skipped source.
pub open spec fn skip_line(key: Seq<char>) -> Seq<char> {
    "SKIP: "@ + key + " (already ingested under same policy/content/agent/model)"@
}

/// Renders the ingest event stream. In progress mode it keeps two sinks: one
/// for the rows of each agent run, and one for folder separators and the
/// final footer.
pub struct IngestRenderer {
    pub progress: bool,
    pub run_sink: Option<LineProgressSink>,
    pub folder_sink: Option<LineProgressSink>,
}

/// A fresh sink: nothing shown and an empty view.
pub open spec fn fresh_sink(s: LineProgressSink) -> bool {
    &&& s.wf()
    &&& s.tokens_fit
    &&& progress_rows(s.progress) == Seq::<Seq<char>>::empty()
    &&& progress_footer(s.progress) == None::<Seq<char>>
    &&& s.last_row is None
}

/// What feeding one agent event to `before` gives: `after`'s last row is
/// its newest row, shown (on stderr) only when it changed.
pub open spec fn pushed(before: LineProgressSink, after: LineProgressSink, out: Seq<OutputV>) -> bool {
    let newest = last_of(progress_rows(after.progress));
    &&& after.wf()
    &&& opt_view(after.last_row) == newest
    &&& out == if newest != opt_view(before.last_row) && newest is Some {
        seq![OutputV::Stderr(newest->0)]
    } else {
        Seq::<OutputV>::empty()
    }
}

/// A row is never shown twice in a row: once a sink has shown its newest
/// row, an event that leaves the rows as they were shows nothing.
pub proof fn law_repeated_row_is_not_shown(before: LineProgressSink, after: LineProgressSink, out: Seq<OutputV>)
    requires
        opt_view(before.last_row) == last_of(progress_rows(before.progress)),
        progress_rows(after.progress) == progress_rows(before.progress),
        pushed(before, after, out),
    ensures
        out.len() == 0,
{
}

impl IngestRenderer {
    /// Each sink the renderer holds is well formed.
    pub open spec fn wf(&self) -> bool {
        &&& (self.run_sink matches Some(s) ==> s.wf())
        &&& (self.folder_sink matches Some(s) ==> s.wf())
    }

    /// A renderer; `progress` selects progress (stderr) over NDJSON (stdout)
    /// output, and only progress mode has sinks.
    pub fn new(progress: bool) -> (r: IngestRenderer)
        ensures
            r.wf(),
            r.progress == progress,
            progress ==> (r.run_sink matches Some(s) && fresh_sink(s)),
            progress ==> (r.folder_sink matches Some(s) && fresh_sink(s)),
            !progress ==> r.run_sink is None && r.folder_sink is None,
    {
        IngestRenderer {
            progress,
            run_sink: if progress {
                Some(LineProgressSink::new())
            } else {
                None
            },
            folder_sink: if progress {
                Some(LineProgressSink::new())
            } else {
                None
            },
        }
    }

    /// The output for one event, in order. Only the sink the event concerns
    /// changes.
    pub fn handle(&mut self, event: IngestEvent) -> (out: Vec<RenderOutput>)
        requires
            old(self).wf(),
        ensures
            final(self).wf(),
            final(self).progress == old(self).progress,
            match event {
                IngestEvent::Agent { agent_key, event } => {
                    &&& final(self).folder_sink == old(self).folder_sink
                    &&& if old(self).progress {
                        match old(self).run_sink {
                            Some(s) => final(self).run_sink matches Some(t) && pushed(
                                s,
                                t,
                                outputs_view(out@),
                            ),
                            None => final(self).run_sink is None && out@.len() == 0,
                        }
                    } else {
                        &&& final(self).run_sink == old(self).run_sink
                        &&& out@.len() <= 1
                        &&& forall|i: int| 0 <= i < out@.len() ==> #[trigger] out@[i] is Stdout
                    }
                },
                IngestEvent::AgentStderr(bytes) => {
                    &&& final(self).run_sink == old(self).run_sink
                    &&& final(self).folder_sink == old(self).folder_sink
                    &&& outputs_view(out@) == seq![OutputV::StderrBytes(bytes@)]
                },
                IngestEvent::AgentRunFinished => {
                    &&& final(self).run_sink == old(self).run_sink
                    &&& final(self).folder_sink == old(self).folder_sink
                    &&& outputs_view(out@) == match old(self).run_sink {
                        Some(s) => stderr_lines(footer_lines(shown_footer(s))),
                        None => Seq::<OutputV>::empty(),
                    }
                },
                IngestEvent::ProgressReset { source_key } => {
                    &&& final(self).run_sink == old(self).run_sink
                    &&& match old(self).folder_sink {
                        Some(s) => {
                            &&& final(self).folder_sink matches Some(t) && fresh_sink(t)
                            &&& outputs_view(out@) == stderr_lines(
                                footer_lines(shown_footer(s)).push(separator(source_key@)),
                            )
                        },
                        None => final(self).folder_sink is None && out@.len() == 0,
                    }
                },
                IngestEvent::ProgressFinalFooter => {
                    &&& final(self).run_sink == old(self).run_sink
                    &&& final(self).folder_sink == old(self).folder_sink
                    &&& outputs_view(out@) == match old(self).folder_sink {
                        Some(s) => stderr_lines(footer_lines(shown_footer(s))),
                        None => Seq::<OutputV>::empty(),
                    }
                },
                IngestEvent::Skipped { source_key } => {
                    &&& final(self).run_sink == old(self).run_sink
                    &&& final(self).folder_sink == old(self).folder_sink
                    &&& outputs_view(out@) == seq![OutputV::Stderr(skip_line(source_key@))]
                },
                IngestEvent::Planned { source_key, action, reason, external_id } => {
                    &&& final(self).run_sink == old(self).run_sink
                    &&& final(self).folder_sink == old(self).folder_sink
                    &&& outputs_view(out@) == seq![
                        OutputV::Stdout(
                            plan_line(source_key@, action, reason@, opt_view(external_id)),
                        ),
                    ]
                },
            },
    {
        let mut out: Vec<RenderOutput> = Vec::new();
        match event {
            IngestEvent::Agent { agent_key, event } => {
                if self.progress {
                    match self.run_sink.take() {
                        Some(mut sink) => {
                            let ghost before = sink;
                            let shown = sink.push(agent_key.as_str(), &event);
                            match shown {
                                Some(row) => out.push(RenderOutput::Stderr(row)),
                                None => {},
                            }
                            proof {
                                let newest = last_of(progress_rows(sink.progress));
                                assert(outputs_view(out@) =~= if newest != opt_view(before.last_row)
                                    && newest is Some {
                                    seq![OutputV::Stderr(newest->0)]
                                } else {
                                    Seq::<OutputV>::empty()
                                });
                            }
                            self.run_sink = Some(sink);
                        },
                        None => {},
                    }
                } else {
                    match agent_event_json(&event) {
                        Some(s) => out.push(RenderOutput::Stdout(s)),
                        None => {},
                    }
                }
            },
            IngestEvent::AgentStderr(bytes) => {
                out.push(RenderOutput::StderrBytes(bytes));
                proof {
                    assert(outputs_view(out@) =~= seq![OutputV::StderrBytes(bytes@)]);
                }
            },
            IngestEvent::AgentRunFinished => {
                match &self.run_sink {
                    Some(sink) => match sink.emit_footer() {
                        Some(f) => out.push(RenderOutput::Stderr(f)),
                        None => {},
                    },
                    None => {},
                }
                proof {
                    match old(self).run_sink {
                        Some(s) => assert(outputs_view(out@) =~= stderr_lines(
                            footer_lines(shown_footer(s)),
                        )),
                        None => assert(outputs_view(out@) =~= Seq::<OutputV>::empty()),
                    }
                }
            },
            IngestEvent::ProgressReset { source_key } => {
                match self.folder_sink.take() {
                    Some(mut sink) => {
                        let ghost before = sink;
                        let lines = sink.reset(source_key.as_str());
                        let mut i: usize = 0;
                        while i < lines.len()
                            invariant
                                i <= lines.len(),
                                outputs_view(out@) == stderr_lines(string_views(lines@).take(i as int)),
                            decreases lines.len() - i,
                        {
                            let ghost prev = out@;
                            out.push(RenderOutput::Stderr(from_chars(&string_chars(&lines[i]))));
                            proof {
                                assert(outputs_view(out@) =~= outputs_view(prev).push(
                                    OutputV::Stderr(lines@[i as int]@),
                                ));
                                assert(string_views(lines@).take(i + 1) =~= string_views(lines@).take(
                                    i as int,
                                ).push(lines@[i as int]@));
                                assert(outputs_view(out@) =~= stderr_lines(
                                    string_views(lines@).take(i + 1),
                                ));
                            }
                            i = i + 1;
                        }
                        proof {
                            assert(string_views(lines@).take(lines.len() as int) =~= string_views(
                                lines@,
                            ));
                        }
                        self.folder_sink = Some(sink);
                    },
                    None => {},
                }
            },
            IngestEvent::ProgressFinalFooter => {
                match &self.folder_sink {
                    Some(sink) => match sink.emit_footer() {
                        Some(f) => out.push(RenderOutput::Stderr(f)),
                        None => {},
                    },
                    None => {},
                }
                proof {
                    match old(self).folder_sink {
                        Some(s) => assert(outputs_view(out@) =~= stderr_lines(
                            footer_lines(shown_footer(s)),
                        )),
                        None => assert(outputs_view(out@) =~= Seq::<OutputV>::empty()),
                    }
                }
            },
            IngestEvent::Skipped { source_key } => {
                out.push(RenderOutput::Stderr(skip_notice(source_key.as_str())));
                proof {
                    assert(outputs_view(out@) =~= seq![OutputV::Stderr(skip_line(source_key@))]);
                }
            },
            IngestEvent::Planned { source_key, action, reason, external_id } => {
                let line = plan_json_line(source_key.as_str(), action, reason.as_str(), &external_id);
                out.push(RenderOutput::Stdout(line));
                proof {
                    assert(outputs_view(out@) =~= seq![
                        OutputV::Stdout(
                            plan_line(source_key@, action, reason@, opt_view(external_id)),
                        ),
                    ]);
                }
            },
        }
        out
    }
}

} // verus!
