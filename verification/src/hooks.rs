//! Operator lifecycle hooks: shell commands configured to run at ingest
//! and materialize points. Running a command happens outside the library;
//! the functions here decide whether one runs and what its exit status
//! means.

use vstd::prelude::*;
use crate::text::{append_chars, decimal, decimal_chars, from_chars, lit, push_str};
use crate::config::opt_view;

verus! {

/// The command to run for a hook: the configured one; none (a no-op that
/// succeeds) when the hook is not set.
pub fn run_hook_if_set(cmd: &Option<String>) -> (r: Option<String>)
    ensures
        opt_view(r) == opt_view(*cmd),
{
    match cmd {
        Some(c) => Some(c.clone()),
        None => None,
    }
}

/// A process exit code as text: its decimal value, or `signal` when the
/// process was ended by a signal.
pub open spec fn exit_code_text(code: Option<i32>) -> Seq<char> {
    match code {
        Some(c) => if c < 0 {
            "-"@ + decimal((-c) as nat)
        } else {
            decimal(c as nat)
        },
        None => "signal"@,
    }
}

/// A process exit code as text (see [`exit_code_text`]).
pub fn exit_code_string(code: Option<i32>) -> (r: String)
    ensures
        r@ == exit_code_text(code),
{
    from_chars(&exit_code_chars(code))
}

fn exit_code_chars(code: Option<i32>) -> (r: Vec<char>)
    ensures
        r@ == exit_code_text(code),
{
    match code {
        Some(c) => if c < 0 {
            let mut v = lit("-");
            let m: i64 = -(c as i64);
            append_chars(&mut v, &decimal_chars(m as u64));
            v
        } else {
            decimal_chars(c as u64)
        },
        None => lit("signal"),
    }
}

/// What a hook's exit means: success is `Ok(None)`; a failure is an error
/// naming the command and its exit code, or, with `continue_on_error`, a
/// warning to print (`Ok(Some(..))`) and success.
pub fn hook_outcome(cmd: &str, success: bool, code: Option<i32>, continue_on_error: bool) -> (r: Result<
    Option<String>,
    String,
>)
    ensures
        match r {
            Ok(None) => success,
            Ok(Some(w)) => !success && continue_on_error && w@ == "warning: hook `"@ + cmd@
                + "` exited with status "@ + exit_code_text(code) + " (continue_on_error set; ignoring)"@,
            Err(e) => !success && !continue_on_error && e@ == "hook `"@ + cmd@
                + "` failed with exit code "@ + exit_code_text(code),
        },
{
    if success {
        return Ok(None);
    }
    let c = exit_code_chars(code);
    if continue_on_error {
        let mut v = lit("warning: hook `");
        push_str(&mut v, cmd);
        push_str(&mut v, "` exited with status ");
        append_chars(&mut v, &c);
        push_str(&mut v, " (continue_on_error set; ignoring)");
        Ok(Some(from_chars(&v)))
    } else {
        let mut v = lit("hook `");
        push_str(&mut v, cmd);
        push_str(&mut v, "` failed with exit code ");
        append_chars(&mut v, &c);
        Err(from_chars(&v))
    }
}

/// The abstract value of a list of environment variables.
pub open spec fn env_view(v: Seq<(String, String)>) -> Seq<(Seq<char>, Seq<char>)> {
    v.map_values(|p: (String, String)| (p.0@, p.1@))
}

/// An optional value as an environment variable's text: empty when absent.
pub open spec fn or_empty(o: Option<Seq<char>>) -> Seq<char> {
    match o {
        Some(v) => v,
        None => seq![],
    }
}

fn var(name: &str, value: &str) -> (r: (String, String))
    ensures
        r.0@ == name@,
        r.1@ == value@,
{
    (from_chars(&lit(name)), from_chars(&lit(value)))
}

fn opt_text(o: &Option<String>) -> (r: String)
    ensures
        r@ == or_empty(opt_view(*o)),
{
    match o {
        Some(v) => from_chars(&lit(v.as_str())),
        None => String::new(),
    }
}

/// The variables of an `after_source` hook: the wiki root, the source path
/// and key, its external id, the agent and the model (empty when absent).
pub fn source_hook_env(
    wiki_root: &str,
    source: &str,
    source_key: &str,
    external_id: &Option<String>,
    agent: &str,
    model: &Option<String>,
) -> (r: Vec<(String, String)>)
    ensures
        env_view(r@) == seq![
            ("AGWIKI_WIKI_ROOT"@, wiki_root@),
            ("AGWIKI_SOURCE"@, source@),
            ("AGWIKI_SOURCE_KEY"@, source_key@),
            ("AGWIKI_EXTERNAL_ID"@, or_empty(opt_view(*external_id))),
            ("AGWIKI_AGENT"@, agent@),
            ("AGWIKI_MODEL"@, or_empty(opt_view(*model))),
        ],
{
    let mut r: Vec<(String, String)> = Vec::new();
    r.push(var("AGWIKI_WIKI_ROOT", wiki_root));
    r.push(var("AGWIKI_SOURCE", source));
    r.push(var("AGWIKI_SOURCE_KEY", source_key));
    r.push((from_chars(&lit("AGWIKI_EXTERNAL_ID")), opt_text(external_id)));
    r.push(var("AGWIKI_AGENT", agent));
    r.push((from_chars(&lit("AGWIKI_MODEL")), opt_text(model)));
    assert(env_view(r@) =~= seq![
        ("AGWIKI_WIKI_ROOT"@, wiki_root@),
        ("AGWIKI_SOURCE"@, source@),
        ("AGWIKI_SOURCE_KEY"@, source_key@),
        ("AGWIKI_EXTERNAL_ID"@, or_empty(opt_view(*external_id))),
        ("AGWIKI_AGENT"@, agent@),
        ("AGWIKI_MODEL"@, or_empty(opt_view(*model))),
    ]);
    r
}

/// The variables of an `after_batch` hook: the wiki root and the counts of
/// a folder ingest.
pub fn batch_hook_env(wiki_root: &str, total: usize, ingested: usize, skipped: usize, failed: usize) -> (r: Vec<
    (String, String),
>)
    ensures
        env_view(r@) == seq![
            ("AGWIKI_WIKI_ROOT"@, wiki_root@),
            ("AGWIKI_TOTAL"@, decimal(total as nat)),
            ("AGWIKI_INGESTED"@, decimal(ingested as nat)),
            ("AGWIKI_SKIPPED"@, decimal(skipped as nat)),
            ("AGWIKI_FAILED"@, decimal(failed as nat)),
        ],
{
    let mut r: Vec<(String, String)> = Vec::new();
    r.push(var("AGWIKI_WIKI_ROOT", wiki_root));
    r.push((from_chars(&lit("AGWIKI_TOTAL")), from_chars(&decimal_chars(total as u64))));
    r.push((from_chars(&lit("AGWIKI_INGESTED")), from_chars(&decimal_chars(ingested as u64))));
    r.push((from_chars(&lit("AGWIKI_SKIPPED")), from_chars(&decimal_chars(skipped as u64))));
    r.push((from_chars(&lit("AGWIKI_FAILED")), from_chars(&decimal_chars(failed as u64))));
    assert(env_view(r@) =~= seq![
        ("AGWIKI_WIKI_ROOT"@, wiki_root@),
        ("AGWIKI_TOTAL"@, decimal(total as nat)),
        ("AGWIKI_INGESTED"@, decimal(ingested as nat)),
        ("AGWIKI_SKIPPED"@, decimal(skipped as nat)),
        ("AGWIKI_FAILED"@, decimal(failed as nat)),
    ]);
    r
}

/// The variables of an `on_error` hook: the wiki root, the source and the
/// error.
pub fn error_hook_env(wiki_root: &str, source: &str, error: &str) -> (r: Vec<(String, String)>)
    ensures
        env_view(r@) == seq![
            ("AGWIKI_WIKI_ROOT"@, wiki_root@),
            ("AGWIKI_SOURCE"@, source@),
            ("AGWIKI_ERROR"@, error@),
        ],
{
    let mut r: Vec<(String, String)> = Vec::new();
    r.push(var("AGWIKI_WIKI_ROOT", wiki_root));
    r.push(var("AGWIKI_SOURCE", source));
    r.push(var("AGWIKI_ERROR", error));
    assert(env_view(r@) =~= seq![
        ("AGWIKI_WIKI_ROOT"@, wiki_root@),
        ("AGWIKI_SOURCE"@, source@),
        ("AGWIKI_ERROR"@, error@),
    ]);
    r
}

/// The variables of an `after_materialize` hook: the wiki root and the
/// target (`wiki`, `skill` or `html`).
pub fn materialize_hook_env(wiki_root: &str, target: &str) -> (r: Vec<(String, String)>)
    ensures
        env_view(r@) == seq![("AGWIKI_WIKI_ROOT"@, wiki_root@), ("AGWIKI_TARGET"@, target@)],
{
    let mut r: Vec<(String, String)> = Vec::new();
    r.push(var("AGWIKI_WIKI_ROOT", wiki_root));
    r.push(var("AGWIKI_TARGET", target));
    assert(env_view(r@) =~= seq![("AGWIKI_WIKI_ROOT"@, wiki_root@), ("AGWIKI_TARGET"@, target@)]);
    r
}

} // verus!
