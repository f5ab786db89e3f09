//! A new wiki root: the default layout of `agwiki.toml`, the directories to
//! create and the default `ingest.md` policy generated from the ontology.

use vstd::prelude::*;
use crate::text::{append_chars, from_chars, join, lit, push_str, string_views};

verus! {

/// The committed wiki content schema (`agwiki.toml`).
#[derive(Debug)]
pub struct AgwikiConfig {
    pub version: u32,
    /// Directory path relative to wiki root where entity source files live.
    pub content_root: String,
    /// Directory path relative to wiki root for generated wiki output.
    pub generated_wiki: String,
    pub ontology: OntologyConfig,
}

/// The entity kinds of a wiki and the relation types it allows.
#[derive(Debug)]
pub struct OntologyConfig {
    /// Ordered list of entity kind identifiers.
    pub kinds: Vec<String>,
    /// Optional allow-list for relation types; when empty, any is accepted.
    pub relation_types: Vec<String>,
}

/// The kinds of a new wiki, in order.
pub open spec fn default_kinds() -> Seq<Seq<char>> {
    seq!["concepts"@, "topics"@, "projects"@, "people"@, "syntheses"@, "sources"@]
}

/// `content_root` when `agwiki.toml` does not give one.
pub fn default_content_root() -> (r: String)
    ensures
        r@ == "content"@,
{
    from_chars(&lit("content"))
}

/// `generated_wiki` when `agwiki.toml` does not give one.
pub fn default_generated_wiki() -> (r: String)
    ensures
        r@ == "wiki"@,
{
    from_chars(&lit("wiki"))
}

impl AgwikiConfig {
    /// The layout written by `init`: schema version 2, `content/` and
    /// `wiki/`, the six default kinds and no relation allow-list.
    pub fn default_layout() -> (c: AgwikiConfig)
        ensures
            c.version == 2,
            c.content_root@ == "content"@,
            c.generated_wiki@ == "wiki"@,
            string_views(c.ontology.kinds@) == default_kinds(),
            c.ontology.relation_types@.len() == 0,
    {
        let mut kinds: Vec<String> = Vec::new();
        kinds.push(from_chars(&lit("concepts")));
        kinds.push(from_chars(&lit("topics")));
        kinds.push(from_chars(&lit("projects")));
        kinds.push(from_chars(&lit("people")));
        kinds.push(from_chars(&lit("syntheses")));
        kinds.push(from_chars(&lit("sources")));
        assert(string_views(kinds@) =~= default_kinds());
        AgwikiConfig {
            version: 2,
            content_root: default_content_root(),
            generated_wiki: default_generated_wiki(),
            ontology: OntologyConfig { kinds, relation_types: Vec::new() },
        }
    }
}

/// `base/name`.
pub open spec fn child(base: Seq<char>, name: Seq<char>) -> Seq<char> {
    base + "/"@ + name
}

/// The directories `init` creates, relative to the new root, in order:
/// one per kind under the content root, `pages` there, `raw`, `skill` and
/// the generated wiki directory.
pub open spec fn init_dirs(content_root: Seq<char>, kinds: Seq<Seq<char>>, generated_wiki: Seq<char>) -> Seq<Seq<char>> {
    kinds.map_values(|k: Seq<char>| child(content_root, k)) + seq![
        child(content_root, "pages"@),
        "raw"@,
        "skill"@,
        generated_wiki,
    ]
}

fn child_exec(base: &str, name: &str) -> (r: String)
    ensures
        r@ == child(base@, name@),
{
    let mut v = lit(base);
    push_str(&mut v, "/");
    push_str(&mut v, name);
    from_chars(&v)
}

/// The directories to create for `config`, relative to the new root.
pub fn init_directories(config: &AgwikiConfig) -> (r: Vec<String>)
    ensures
        string_views(r@) == init_dirs(
            config.content_root@,
            string_views(config.ontology.kinds@),
            config.generated_wiki@,
        ),
{
    let ghost kinds = string_views(config.ontology.kinds@);
    let ghost root = config.content_root@;
    let mut r: Vec<String> = Vec::new();
    let mut i: usize = 0;
    while i < config.ontology.kinds.len()
        invariant
            i <= config.ontology.kinds@.len(),
            kinds == string_views(config.ontology.kinds@),
            root == config.content_root@,
            string_views(r@) == kinds.take(i as int).map_values(|k: Seq<char>| child(root, k)),
        decreases config.ontology.kinds.len() - i,
    {
        let ghost old_r = string_views(r@);
        let d = child_exec(config.content_root.as_str(), config.ontology.kinds[i].as_str());
        r.push(d);
        assert(string_views(r@) =~= old_r.push(d@));
        assert(kinds.take(i + 1).map_values(|k: Seq<char>| child(root, k)) =~= kinds.take(
            i as int,
        ).map_values(|k: Seq<char>| child(root, k)).push(child(root, kinds[i as int])));
        i = i + 1;
    }
    assert(kinds.take(kinds.len() as int) =~= kinds);
    let ghost before = string_views(r@);
    r.push(child_exec(config.content_root.as_str(), "pages"));
    r.push(from_chars(&lit("raw")));
    r.push(from_chars(&lit("skill")));
    r.push(config.generated_wiki.clone());
    assert(string_views(r@) =~= init_dirs(root, kinds, config.generated_wiki@));
    r
}

/// Why a directory cannot become a new wiki root.
#[derive(Debug, PartialEq, Eq)]
pub enum InitError {
    /// The target exists and is not a directory.
    NotADirectory(String),
    /// The target is a directory that already holds entries.
    NotEmpty(String),
}

impl InitError {
    /// Human-readable description.
    pub fn message(&self) -> (r: String)
        ensures
            r@ == (match self {
                InitError::NotADirectory(p) => "target exists and is not a directory: "@ + p@,
                InitError::NotEmpty(p) => "target exists and is not empty: "@ + p@,
            }),
    {
        let mut v: Vec<char> = Vec::new();
        match self {
            InitError::NotADirectory(p) => {
                push_str(&mut v, "target exists and is not a directory: ");
                push_str(&mut v, p.as_str());
            },
            InitError::NotEmpty(p) => {
                push_str(&mut v, "target exists and is not empty: ");
                push_str(&mut v, p.as_str());
            },
        }
        from_chars(&v)
    }
}

/// Whether `target` may be initialized: a missing path is created, an empty
/// directory is used, anything else is refused.
pub fn check_init_target(target: &str, present: bool, is_dir: bool, has_entries: bool) -> (r: Result<(), InitError>)
    ensures
        r is Ok <==> (!present || (is_dir && !has_entries)),
        r matches Err(InitError::NotADirectory(p)) ==> present && !is_dir && p@ == target@,
        r matches Err(InitError::NotEmpty(p)) ==> present && is_dir && has_entries && p@ == target@,
{
    if present && !is_dir {
        Err(InitError::NotADirectory(from_chars(&lit(target))))
    } else if present && has_entries {
        Err(InitError::NotEmpty(from_chars(&lit(target))))
    } else {
        Ok(())
    }
}

/// The fixed text of `ingest.md` before the list of kind names.
pub const INGEST_MD_HEAD: &'static str = "Ingest {{INGEST_PATH}} into the wiki at {{WIKI_ROOT}}.\n\
\n\
Follow the split-ingest workflow below. Work only under `{{WIKI_ROOT}}`; do not require reading paths outside that wiki root.\n\
\n\
# Purpose\n\
\n\
Rules for structured content wikis used with **agwiki** `ingest`. Paths below are relative to the wiki root; `{{WIKI_ROOT}}` is an absolute path for the agent.\n\
\n\
# Source of truth\n\
\n\
Agents MUST write entity files only to `content/<kind>/`, NOT to `wiki/`. The `wiki/` directory is generated output produced by `agwiki compile` — do not modify it directly.\n\
\n\
# Front matter\n\
\n\
Every entity file must start with a YAML front matter block:\n\
\n\
```yaml\n\
---\n\
id: \"<ulid>\"\n\
title: \"Entity Title\"\n\
schema_version: 1\n\
---\n\
```\n\
\n\
Required fields: `id` (string, stable ULID), `title` (string), `schema_version` (integer, must be 1).\n\
Optional fields: `status` (active|archived), `relations` (list of {target: id, rel: string}), `aliases` (list of strings).\n\
\n\
# Kinds\n\
\n\
Declared ontology kinds for this wiki: ";

/// The fixed text between the kind names and the per-kind lines.
pub const INGEST_MD_MID: &'static str = "\n\
\n\
";

/// The fixed text after the per-kind lines.
pub const INGEST_MD_TAIL: &'static str = "\n\
- `content/pages/` — non-entity navigation pages (index.md, log.md, inbox.md)\n\
\n\
# Rules\n\
\n\
- Never modify files inside `raw/`\n\
- Treat `raw/` as source material\n\
- Write entity files to `content/<kind>/` with YAML front matter\n\
- Use a stable ULID for the `id` field (run `agwiki new <kind> --title \"...\"` to get a pre-scaffolded file)\n\
- Prefer updating existing entity files over creating duplicates\n\
- Preserve uncertainty and disagreements between sources\n\
- Use concise markdown\n\
- Add relations between related entities using the `relations` front matter field\n\
\n\
# Ingest workflow\n\
\n\
When asked to ingest a file from `raw/`:\n\
\n\
1. Read the source\n\
2. Create or update entity files in the appropriate `content/<kind>/` directories\n\
3. Each file needs valid YAML front matter with id, title, schema_version: 1\n\
4. Add relations to link related entities\n\
5. Update `content/pages/index.md` when navigation changes\n\
6. Append a short note to `content/pages/log.md`\n\
\n\
# Query workflow\n\
\n\
When asked a question:\n\
\n\
1. Start from `content/pages/index.md` or `wiki/index.md`\n\
2. Read relevant entity files\n\
3. Answer using the wiki content\n\
";

/// The line of `ingest.md` describing kind `k`.
pub open spec fn kind_line(k: Seq<char>) -> Seq<char> {
    "- `content/"@ + k + "/` \u{2014} "@ + k + " entity files"@
}

/// The default ingest policy for a wiki with `kinds`: the fixed text with
/// the kind names (comma separated) and one line per kind filled in.
pub open spec fn ingest_md(kinds: Seq<Seq<char>>) -> Seq<char> {
    INGEST_MD_HEAD@ + join(kinds, ", "@) + INGEST_MD_MID@ + join(
        kinds.map_values(|k: Seq<char>| kind_line(k)),
        "\n"@,
    ) + INGEST_MD_TAIL@
}

fn kind_line_exec(k: &str) -> (r: Vec<char>)
    ensures
        r@ == kind_line(k@),
{
    let mut v: Vec<char> = Vec::new();
    push_str(&mut v, "- `content/");
    push_str(&mut v, k);
    push_str(&mut v, "/` \u{2014} ");
    push_str(&mut v, k);
    push_str(&mut v, " entity files");
    v
}

/// Generate the default `ingest.md` for the ontology `kinds`.
pub fn generate_ingest_md(kinds: &Vec<String>) -> (r: String)
    ensures
        r@ == ingest_md(string_views(kinds@)),
{
    let ghost ks = string_views(kinds@);
    let mut names: Vec<char> = Vec::new();
    let mut lines: Vec<char> = Vec::new();
    let mut i: usize = 0;
    while i < kinds.len()
        invariant
            i <= kinds@.len(),
            ks == string_views(kinds@),
            names@ == join(ks.take(i as int), ", "@),
            lines@ == join(ks.take(i as int).map_values(|k: Seq<char>| kind_line(k)), "\n"@),
        decreases kinds.len() - i,
    {
        assert(ks.take(i + 1).drop_last() =~= ks.take(i as int));
        assert(ks.take(i + 1).map_values(|k: Seq<char>| kind_line(k)).drop_last() =~= ks.take(
            i as int,
        ).map_values(|k: Seq<char>| kind_line(k)));
        if i > 0 {
            push_str(&mut names, ", ");
            push_str(&mut lines, "\n");
        }
        push_str(&mut names, kinds[i].as_str());
        let l = kind_line_exec(kinds[i].as_str());
        append_chars(&mut lines, &l);
        i = i + 1;
    }
    assert(ks.take(ks.len() as int) =~= ks);
    let mut v: Vec<char> = Vec::new();
    push_str(&mut v, INGEST_MD_HEAD);
    append_chars(&mut v, &names);
    push_str(&mut v, INGEST_MD_MID);
    append_chars(&mut v, &lines);
    push_str(&mut v, INGEST_MD_TAIL);
    from_chars(&v)
}

} // verus!
