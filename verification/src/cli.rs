//! The command line's arguments and the decisions taken on them before any
//! work starts: which ingest to run and with which settings, where the
//! resume ledger lives, and which export or check a subcommand names.

use vstd::prelude::*;
use crate::text::{append_chars, decimal, decimal_chars, from_chars, lit, push_str, string_chars, trim, trim_chars};
use crate::paths::{is_absolute, path_join, join_path};
use crate::upkeep::{resolve_under, resolve_under_root};
use crate::ingest::{FolderIngestResult, FolderIngestResultV2, IngestResumeConfig};

verus! {

/// The application context handed to every command.
pub struct AgwikiContext;

/// `init [dir]`.
#[derive(Debug)]
pub struct InitArgs {
    pub dir: Option<String>,
}

/// `ingest`: run an agent over one file or a folder of markdown files.
#[derive(Debug)]
pub struct IngestArgs {
    pub wiki_root: Option<String>,
    pub agent: String,
    pub model: Option<String>,
    pub stream: bool,
    pub file: Option<String>,
    pub folder: Option<String>,
    pub max_files: usize,
    pub compile: bool,
    pub resume: bool,
    pub progress: bool,
    pub force: bool,
    pub ingest_state: Option<String>,
    /// `--external-id`: a stable id for the single source.
    pub external_id: Option<String>,
    /// `--dry-run`: print the plan only.
    pub dry_run: bool,
}

/// `new <kind> [--title <title>]`.
#[derive(Debug)]
pub struct NewArgs {
    pub wiki_root: Option<String>,
    pub kind: String,
    pub title: Option<String>,
}

/// `compile [--dry-run]`.
#[derive(Debug)]
pub struct CompileArgs {
    pub wiki_root: Option<String>,
    pub dry_run: bool,
}

/// `serve [--port N] [--host H] [--open]`.
#[derive(Debug)]
pub struct ServeArgs {
    pub wiki_root: Option<String>,
    pub port: u16,
    pub host: String,
    pub open_browser: bool,
}

/// `export <skill|html>`.
#[derive(Debug)]
pub struct ExportArgs {
    pub subcommand: String,
    pub wiki_root: Option<String>,
    pub skill_root: Option<String>,
    pub skill_md: Option<String>,
    pub dry_run: bool,
    pub prune: bool,
    pub out: Option<String>,
}

/// `check <wiki|sources> [--format text|json]`.
#[derive(Debug)]
pub struct CheckArgs {
    pub subcommand: String,
    pub wiki_root: Option<String>,
    pub format: Option<String>,
}

// ---------------------------------------------------------------------------
// The resume ledger's location
// ---------------------------------------------------------------------------

/// Why `--ingest-state` was refused.
#[derive(Debug, PartialEq, Eq)]
pub enum StatePathError {
    /// A relative path whose `..` components leave the wiki root.
    EscapesWikiRoot,
}

impl StatePathError {
    /// Human-readable description.
    pub fn message(&self) -> (r: String)
        ensures
            r@ == "--ingest-state path escapes <wiki-root>; pass an absolute path to write outside the wiki root"@,
    {
        from_chars(
            &lit(
                "--ingest-state path escapes <wiki-root>; pass an absolute path to write outside the wiki root",
            ),
        )
    }
}

/// Where the ledger lives: `<wiki-root>/.agwiki/ingest-state.jsonl` by
/// default, an absolute `--ingest-state` as given, and a relative one
/// resolved under the wiki root, refused when it climbs out of it.
pub open spec fn state_path(root: Seq<char>, user: Option<Seq<char>>) -> Option<Seq<char>> {
    match user {
        None => Some(root + "/.agwiki/ingest-state.jsonl"@),
        Some(p) => if is_absolute(p) {
            Some(p)
        } else {
            resolve_under(root, p)
        },
    }
}

/// The ledger path for `wiki_root` and the user's `--ingest-state`.
pub fn resolve_ingest_state_path(wiki_root: &str, user: Option<String>) -> (r: Result<String, StatePathError>)
    ensures
        match r {
            Ok(p) => state_path(wiki_root@, crate::config::opt_view(user)) == Some(p@),
            Err(_) => state_path(wiki_root@, crate::config::opt_view(user)) is None,
        },
{
    match user {
        None => {
            let mut v = lit(wiki_root);
            push_str(&mut v, "/.agwiki/ingest-state.jsonl");
            Ok(from_chars(&v))
        },
        Some(p) => {
            let pc = string_chars(&p);
            if pc.len() > 0 && pc[0] == '/' {
                Ok(p)
            } else {
                match resolve_under_root(&lit(wiki_root), &pc) {
                    Some(out) => Ok(from_chars(&out)),
                    None => Err(StatePathError::EscapesWikiRoot),
                }
            }
        },
    }
}

// ---------------------------------------------------------------------------
// Ingest
// ---------------------------------------------------------------------------

/// What an ingest run works on.
#[derive(Debug)]
pub enum IngestSource {
    /// One source file.
    File(String),
    /// Every markdown file under a folder.
    Folder(String),
}

/// A validated ingest run.
#[derive(Debug)]
pub struct IngestPlan {
    /// The agent key, trimmed and non-empty.
    pub agent: String,
    /// The model, trimmed; absent when not given or blank.
    pub model: Option<String>,
    /// The ledger settings. Idempotency is always on: every success is
    /// recorded and an already-ingested source is skipped unless `--force`.
    pub resume: IngestResumeConfig,
    pub source: IngestSource,
    /// The `--external-id` given for a single file, trimmed; absent when not
    /// given or blank.
    pub external_id: Option<String>,
    /// Plan only: resolve sources and print what would be ingested or
    /// skipped, without running the agent or writing the ledger.
    pub dry_run: bool,
}

/// Why an ingest command line was refused.
#[derive(Debug, PartialEq, Eq)]
pub enum IngestArgsError {
    /// `--agent` is blank.
    EmptyAgent,
    /// `--ingest-state` climbs out of the wiki root.
    StatePath(StatePathError),
    /// Both a file and `--folder` were given.
    BothSources,
    /// Neither a file nor `--folder` was given.
    NoSource,
    /// `--external-id` names one source, so it cannot go with `--folder`.
    ExternalIdWithFolder,
}

impl IngestArgsError {
    /// Human-readable description.
    pub fn message(&self) -> (r: String)
        ensures
            r@ == (match self {
                IngestArgsError::EmptyAgent => "--agent must not be empty"@,
                IngestArgsError::StatePath(_) =>
                    "--ingest-state path escapes <wiki-root>; pass an absolute path to write outside the wiki root"@,
                IngestArgsError::BothSources => "cannot use both a file argument and --folder; choose one"@,
                IngestArgsError::NoSource => "either a file argument or --folder is required"@,
                IngestArgsError::ExternalIdWithFolder => "--external-id names a single file; it cannot be used with --folder"@,
            }),
    {
        match self {
            IngestArgsError::EmptyAgent => from_chars(&lit("--agent must not be empty")),
            IngestArgsError::StatePath(e) => e.message(),
            IngestArgsError::BothSources => from_chars(
                &lit("cannot use both a file argument and --folder; choose one"),
            ),
            IngestArgsError::NoSource => from_chars(
                &lit("either a file argument or --folder is required"),
            ),
            IngestArgsError::ExternalIdWithFolder => from_chars(
                &lit("--external-id names a single file; it cannot be used with --folder"),
            ),
        }
    }
}

/// The trimmed value of an optional setting, when not blank.
pub open spec fn nonblank(o: Option<Seq<char>>) -> Option<Seq<char>> {
    match o {
        Some(s) => if trim(s).len() > 0 {
            Some(trim(s))
        } else {
            None
        },
        None => None,
    }
}

/// The error an ingest command line gets, checked in this order: a blank
/// agent, a ledger path that escapes the wiki root, then the choice between
/// a file and a folder, then an external id given with a folder.
/// (`--resume` is accepted and changes nothing: the ledger is always kept.)
pub open spec fn ingest_args_error(args: IngestArgs, root: Seq<char>) -> Option<IngestArgsError> {
    if trim(args.agent@).len() == 0 {
        Some(IngestArgsError::EmptyAgent)
    } else if state_path(root, crate::config::opt_view(args.ingest_state)) is None {
        Some(IngestArgsError::StatePath(StatePathError::EscapesWikiRoot))
    } else if args.file is Some && args.folder is Some {
        Some(IngestArgsError::BothSources)
    } else if args.file is None && args.folder is None {
        Some(IngestArgsError::NoSource)
    } else if args.folder is Some && nonblank(crate::config::opt_view(args.external_id)) is Some {
        Some(IngestArgsError::ExternalIdWithFolder)
    } else {
        None
    }
}

fn nonblank_exec(o: &Option<String>) -> (r: Option<String>)
    ensures
        crate::config::opt_view(r) == nonblank(crate::config::opt_view(*o)),
{
    match o {
        Some(s) => {
            let t = trim_chars(&string_chars(s));
            if t.len() > 0 {
                Some(from_chars(&t))
            } else {
                None
            }
        },
        None => None,
    }
}

/// Validate an ingest command line for the canonical `wiki_root`.
pub fn ingest_plan(args: &IngestArgs, wiki_root: &str) -> (r: Result<IngestPlan, IngestArgsError>)
    ensures
        match r {
            Ok(plan) => {
                &&& ingest_args_error(*args, wiki_root@) is None
                &&& plan.agent@ == trim(args.agent@)
                &&& crate::config::opt_view(plan.model) == nonblank(crate::config::opt_view(args.model))
                &&& plan.resume.resume && plan.resume.force == args.force
                &&& state_path(wiki_root@, crate::config::opt_view(args.ingest_state)) == Some(
                    plan.resume.ingest_state_path@,
                )
                &&& match plan.source {
                    IngestSource::File(f) => args.file matches Some(g) && f@ == g@ && args.folder is None,
                    IngestSource::Folder(f) => args.folder matches Some(g) && f@ == g@ && args.file is None,
                }
                &&& crate::config::opt_view(plan.external_id) == nonblank(crate::config::opt_view(args.external_id))
                &&& plan.dry_run == args.dry_run
            },
            Err(e) => ingest_args_error(*args, wiki_root@) == Some(e),
        },
{
    let agent = trim_chars(&string_chars(&args.agent));
    if agent.len() == 0 {
        return Err(IngestArgsError::EmptyAgent);
    }
    let model = nonblank_exec(&args.model);
    let user = match &args.ingest_state {
        Some(p) => Some(p.clone()),
        None => None,
    };
    let resume = match resolve_ingest_state_path(wiki_root, user) {
        Ok(p) => IngestResumeConfig { resume: true, force: args.force, ingest_state_path: p },
        Err(e) => {
            return Err(IngestArgsError::StatePath(e));
        },
    };
    let source = match (&args.file, &args.folder) {
        (Some(f), None) => IngestSource::File(f.clone()),
        (None, Some(f)) => IngestSource::Folder(f.clone()),
        (Some(_), Some(_)) => {
            return Err(IngestArgsError::BothSources);
        },
        (None, None) => {
            return Err(IngestArgsError::NoSource);
        },
    };
    let external_id = nonblank_exec(&args.external_id);
    if args.folder.is_some() && external_id.is_some() {
        return Err(IngestArgsError::ExternalIdWithFolder);
    }
    Ok(IngestPlan { agent: from_chars(&agent), model, resume, source, external_id, dry_run: args.dry_run })
}

/// The summary printed after a folder ingest without resume.
pub fn batch_summary(r: &FolderIngestResult) -> (s: String)
    ensures
        s@ == "Batch ingest: "@ + decimal(r.total as nat) + " total, "@ + decimal(r.succeeded as nat)
            + " succeeded, "@ + decimal(r.failures@.len()) + " failed."@,
{
    let mut v = lit("Batch ingest: ");
    append_chars(&mut v, &decimal_chars(r.total as u64));
    push_str(&mut v, " total, ");
    append_chars(&mut v, &decimal_chars(r.succeeded as u64));
    push_str(&mut v, " succeeded, ");
    append_chars(&mut v, &decimal_chars(r.failures.len() as u64));
    push_str(&mut v, " failed.");
    from_chars(&v)
}

/// The summary printed after a folder ingest with resume.
pub fn batch_summary_v2(r: &FolderIngestResultV2) -> (s: String)
    ensures
        s@ == "Batch ingest: "@ + decimal(r.total as nat) + " total, "@ + decimal(r.succeeded as nat)
            + " succeeded, "@ + decimal(r.skipped as nat) + " skipped, "@ + decimal(
            r.failures@.len(),
        ) + " failed."@,
{
    let mut v = lit("Batch ingest: ");
    append_chars(&mut v, &decimal_chars(r.total as u64));
    push_str(&mut v, " total, ");
    append_chars(&mut v, &decimal_chars(r.succeeded as u64));
    push_str(&mut v, " succeeded, ");
    append_chars(&mut v, &decimal_chars(r.skipped as u64));
    push_str(&mut v, " skipped, ");
    append_chars(&mut v, &decimal_chars(r.failures.len() as u64));
    push_str(&mut v, " failed.");
    from_chars(&v)
}

/// The line printed for one failed file.
pub fn failure_line(path: &str, error: &str) -> (s: String)
    ensures
        s@ == "  FAILED: "@ + path@ + " \u{2014} "@ + error@,
{
    let mut v = lit("  FAILED: ");
    push_str(&mut v, path);
    push_str(&mut v, " \u{2014} ");
    push_str(&mut v, error);
    from_chars(&v)
}

// ---------------------------------------------------------------------------
// Export and check subcommands
// ---------------------------------------------------------------------------

/// What `export` produces.
#[derive(Debug)]
pub enum ExportTarget {
    /// The Agent Skill bundle.
    Skill,
    /// Static HTML written to this directory.
    Html(String),
}

/// `export`'s target for the wiki root `root`: `skill`, or `html` written
/// to `--out` (default `dist/html`) joined onto the root; anything else is
/// refused with the subcommand's name.
pub fn export_target(args: &ExportArgs, root: &str) -> (r: Result<ExportTarget, String>)
    ensures
        match r {
            Ok(ExportTarget::Skill) => args.subcommand@ == "skill"@,
            Ok(ExportTarget::Html(out)) => args.subcommand@ == "html"@ && out@ == path_join(
                root@,
                match args.out {
                    Some(o) => o@,
                    None => "dist/html"@,
                },
            ),
            Err(m) => args.subcommand@ != "skill"@ && args.subcommand@ != "html"@ && m@
                == "unknown subcommand '"@ + args.subcommand@ + "': expected 'skill' or 'html'"@,
        },
{
    let skill = lit("skill");
    let html = lit("html");
    let sub = string_chars(&args.subcommand);
    if crate::paths::chars_eq(&sub, &skill) {
        Ok(ExportTarget::Skill)
    } else if crate::paths::chars_eq(&sub, &html) {
        let out = match &args.out {
            Some(o) => join_path(root, o.as_str()),
            None => join_path(root, "dist/html"),
        };
        Ok(ExportTarget::Html(out))
    } else {
        let mut v = lit("unknown subcommand '");
        append_chars(&mut v, &sub);
        push_str(&mut v, "': expected 'skill' or 'html'");
        Err(from_chars(&v))
    }
}

/// What `check` runs.
#[derive(Debug, PartialEq, Eq)]
pub enum CheckTarget {
    /// Link and orphan checks of the wiki, as JSON when asked for.
    Wiki { json: bool },
    /// Validation of the entity sources (a dry-run compile).
    Sources,
}

/// `check`'s target: `wiki` (text output unless `--format json`) or
/// `sources`; anything else is refused with the subcommand's name.
pub fn check_target(args: &CheckArgs) -> (r: Result<CheckTarget, String>)
    ensures
        match r {
            Ok(CheckTarget::Wiki { json }) => args.subcommand@ == "wiki"@ && json == (args.format matches Some(
                f,
            ) && f@ == "json"@),
            Ok(CheckTarget::Sources) => args.subcommand@ == "sources"@,
            Err(m) => args.subcommand@ != "wiki"@ && args.subcommand@ != "sources"@ && m@
                == "unknown subcommand '"@ + args.subcommand@ + "': expected 'wiki' or 'sources'"@,
        },
{
    let sub = string_chars(&args.subcommand);
    if crate::paths::chars_eq(&sub, &lit("wiki")) {
        let json = match &args.format {
            Some(f) => crate::paths::chars_eq(&string_chars(f), &lit("json")),
            None => false,
        };
        Ok(CheckTarget::Wiki { json })
    } else if crate::paths::chars_eq(&sub, &lit("sources")) {
        Ok(CheckTarget::Sources)
    } else {
        let mut v = lit("unknown subcommand '");
        append_chars(&mut v, &sub);
        push_str(&mut v, "': expected 'wiki' or 'sources'");
        Err(from_chars(&v))
    }
}

// ---------------------------------------------------------------------------
// Materialize
// ---------------------------------------------------------------------------

/// `materialize --target <wiki|skill|html> [...]`.
#[derive(Debug)]
pub struct MaterializeArgs {
    pub target: String,
    pub wiki_root: Option<String>,
    pub out: Option<String>,
    pub skill_root: Option<String>,
    pub skill_md: Option<String>,
    pub prune: bool,
    pub dry_run: bool,
}

/// What `materialize` renders the content model into.
#[derive(Debug, PartialEq, Eq)]
pub enum MaterializeTarget {
    /// The generated wiki (a compile).
    Wiki,
    /// The Agent Skill bundle.
    Skill,
    /// Static HTML written to this directory.
    Html(String),
}

/// The abstract value of a [`MaterializeTarget`].
pub enum TargetV {
    Wiki,
    Skill,
    Html(Seq<char>),
}

impl View for MaterializeTarget {
    type V = TargetV;

    open spec fn view(&self) -> TargetV {
        match self {
            MaterializeTarget::Wiki => TargetV::Wiki,
            MaterializeTarget::Skill => TargetV::Skill,
            MaterializeTarget::Html(o) => TargetV::Html(o@),
        }
    }
}

/// The error for skill flags given with another target.
pub open spec fn skill_flags_message() -> Seq<char> {
    "--skill-root/--skill-md/--prune are only valid with target 'skill'"@
}

/// The error for `--out` given with another target.
pub open spec fn out_flag_message() -> Seq<char> {
    "--out is only valid with target 'html'"@
}

/// Whether any flag that only the skill target takes was given.
pub open spec fn has_skill_flags(args: MaterializeArgs) -> bool {
    args.skill_root is Some || args.skill_md is Some || args.prune
}

/// The target of a `materialize` command line for the wiki root `root`.
/// Target-specific flags given with the wrong target are refused; the html
/// target writes to `--out` (default `dist/html`) joined onto the root.
pub open spec fn materialize_outcome(args: MaterializeArgs, root: Seq<char>) -> Result<TargetV, Seq<char>> {
    if args.target@ == "wiki"@ {
        if has_skill_flags(args) {
            Err(skill_flags_message())
        } else if args.out is Some {
            Err(out_flag_message())
        } else {
            Ok(TargetV::Wiki)
        }
    } else if args.target@ == "skill"@ {
        if args.out is Some {
            Err(out_flag_message())
        } else {
            Ok(TargetV::Skill)
        }
    } else if args.target@ == "html"@ {
        if has_skill_flags(args) {
            Err(skill_flags_message())
        } else {
            Ok(
                TargetV::Html(
                    path_join(
                        root,
                        match args.out {
                            Some(o) => o@,
                            None => "dist/html"@,
                        },
                    ),
                ),
            )
        }
    } else {
        Err("unknown target '"@ + args.target@ + "': expected one of wiki, skill, or html"@)
    }
}

/// The target of a `materialize` command line (see [`materialize_outcome`]).
pub fn materialize_target(args: &MaterializeArgs, root: &str) -> (r: Result<MaterializeTarget, String>)
    ensures
        match r {
            Ok(t) => materialize_outcome(*args, root@) == Ok::<TargetV, Seq<char>>(t@),
            Err(m) => materialize_outcome(*args, root@) == Err::<TargetV, Seq<char>>(m@),
        },
{
    proof {
        reveal_strlit("wiki");
        reveal_strlit("skill");
        reveal_strlit("html");
    }
    let t = string_chars(&args.target);
    let skill_flags = args.skill_root.is_some() || args.skill_md.is_some() || args.prune;
    if crate::paths::chars_eq(&t, &lit("wiki")) {
        if skill_flags {
            Err(from_chars(&lit("--skill-root/--skill-md/--prune are only valid with target 'skill'")))
        } else if args.out.is_some() {
            Err(from_chars(&lit("--out is only valid with target 'html'")))
        } else {
            Ok(MaterializeTarget::Wiki)
        }
    } else if crate::paths::chars_eq(&t, &lit("skill")) {
        if args.out.is_some() {
            Err(from_chars(&lit("--out is only valid with target 'html'")))
        } else {
            Ok(MaterializeTarget::Skill)
        }
    } else if crate::paths::chars_eq(&t, &lit("html")) {
        if skill_flags {
            Err(from_chars(&lit("--skill-root/--skill-md/--prune are only valid with target 'skill'")))
        } else {
            let out = match &args.out {
                Some(o) => join_path(root, o.as_str()),
                None => join_path(root, "dist/html"),
            };
            Ok(MaterializeTarget::Html(out))
        }
    } else {
        let mut v = lit("unknown target '");
        append_chars(&mut v, &t);
        push_str(&mut v, "': expected one of wiki, skill, or html");
        Err(from_chars(&v))
    }
}

/// The error a materialize to the wiki target ends with when the compile
/// found errors.
pub fn compile_failed_message(errors: usize) -> (r: String)
    ensures
        r@ == "compile failed with "@ + decimal(errors as nat) + " error(s)"@,
{
    let mut v = lit("compile failed with ");
    append_chars(&mut v, &decimal_chars(errors as u64));
    push_str(&mut v, " error(s)");
    from_chars(&v)
}

} // verus!
