//! Compile: validate `content/` entity sources, plan the generated `wiki/`
//! pages and render the entity catalog.
//!
//! Reading files and parsing YAML front matter happen outside the library;
//! [`plan_compile`] receives each source with its parsed front matter (or the
//! reason it could not be parsed) and decides everything else: which sources
//! are entities, every validation error in the order the checks meet them,
//! slug collisions, the generated pages and the catalog.

use vstd::prelude::*;
use crate::text::{
    append_chars, decimal, decimal_chars, find_chars, find_from, from_chars, has_prefix, join,
    join_chars, last_before, last_index_of, lemma_find_from, lemma_last_before, lit, occurs_at,
    push_str, slice_chars, starts_with, string_chars, string_views, strings_chars, to_chars,
    trim_end, trim_end_chars, views,
};
use crate::slug::{lowercase, slug_of, str_to_lowercase, title_to_slug};
use crate::order::{lex_less, lex_lt, sort_indices, sorted_order};
use crate::upkeep::{component_key, is_under, parent, same_chars};
use crate::init::AgwikiConfig;
use crate::paths::{path_join, join_path, path_parts, path_parts_exec};
use crate::export_skill::{list_has, stem_of_name};

verus! {

// ---------------------------------------------------------------------------
// Front matter
// ---------------------------------------------------------------------------

/// Lifecycle status for an entity source file.
#[derive(Debug, Clone, Copy, PartialEq, Eq)]
pub enum EntityStatus {
    /// Entity is current and should be included in generated output.
    Active,
    /// Entity is retained for history but no longer current.
    Archived,
}

/// Relation from one entity source file to another entity id.
#[derive(Debug)]
pub struct Relation {
    /// Target entity id.
    pub target: String,
    /// Relation type label.
    pub rel: String,
}

/// Front matter schema for entity source files under `content/<kind>/`.
#[derive(Debug)]
pub struct EntityFrontMatter {
    /// Stable globally unique entity id.
    pub id: Option<String>,
    /// Human-readable entity title.
    pub title: Option<String>,
    /// Source schema version. Only version 1 is currently supported.
    pub schema_version: Option<u32>,
    /// Optional lifecycle status.
    pub status: Option<EntityStatus>,
    /// Optional graph relations to other entity ids.
    pub relations: Vec<Relation>,
    /// Optional alternate names for the entity.
    pub aliases: Vec<String>,
}

/// Why a source's front matter could not be split off.
#[derive(Debug, Clone, Copy, PartialEq, Eq)]
pub enum FrontMatterError {
    /// The file does not start with `---`.
    NoOpening,
    /// No `\n---` closes the front matter.
    NoClosing,
}

impl FrontMatterError {
    /// Human-readable description.
    pub fn message(&self) -> (r: String)
        ensures
            r@ == (match *self {
                FrontMatterError::NoOpening => "file does not start with YAML front matter delimiter `---`"@,
                FrontMatterError::NoClosing => "no closing `---` for front matter"@,
            }),
    {
        match self {
            FrontMatterError::NoOpening => from_chars(
                &lit("file does not start with YAML front matter delimiter `---`"),
            ),
            FrontMatterError::NoClosing => from_chars(&lit("no closing `---` for front matter")),
        }
    }
}

/// The YAML text and the body of a source: the text after the opening `---`
/// up to the first `"\n---"`, and everything after that delimiter.
pub open spec fn split_front_matter(content: Seq<char>) -> Result<(Seq<char>, Seq<char>), FrontMatterError> {
    if !starts_with(content, "---"@) {
        Err(FrontMatterError::NoOpening)
    } else {
        let rest = content.skip(3);
        match find_from(rest, "\n---"@, 0) {
            None => Err(FrontMatterError::NoClosing),
            Some(end) => Ok((rest.take(end), rest.skip(end + 4))),
        }
    }
}

/// Split a source into its YAML front matter and its body.
pub fn parse_front_matter(content: &str) -> (r: Result<(String, String), FrontMatterError>)
    ensures
        match r {
            Ok((y, b)) => split_front_matter(content@) == Ok::<(Seq<char>, Seq<char>), FrontMatterError>((y@, b@)),
            Err(e) => split_front_matter(content@) == Err::<(Seq<char>, Seq<char>), FrontMatterError>(e),
        },
{
    let c = to_chars(content);
    let open = lit("---");
    proof {
        reveal_strlit("---");
    }
    if !has_prefix(&c, &open) {
        return Err(FrontMatterError::NoOpening);
    }
    let rest = slice_chars(&c, 3, c.len());
    assert(rest@ =~= c@.skip(3));
    let close = lit("\n---");
    proof {
        reveal_strlit("\n---");
    }
    match find_chars(&rest, &close, 0) {
        None => Err(FrontMatterError::NoClosing),
        Some(end) => {
            proof {
                lemma_find_from(rest@, close@, 0);
                assert(occurs_at(rest@, close@, end as int));
            }
            let y = slice_chars(&rest, 0, end);
            let b = slice_chars(&rest, end + 4, rest.len());
            assert(b@ =~= rest@.skip(end + 4));
            Ok((from_chars(&y), from_chars(&b)))
        },
    }
}

// ---------------------------------------------------------------------------
// Errors
// ---------------------------------------------------------------------------

/// A compile error or warning, with the code shown in its message.
#[derive(Debug)]
pub enum CompileError {
    /// agwiki.toml version is not 2 (E001).
    LegacyConfig { version: u32 },
    /// agwiki.toml missing or unreadable (E002).
    ConfigMissing { path: String },
    /// agwiki.toml TOML parse error (E003).
    ConfigParse { message: String },
    /// YAML front matter parse error (E004).
    YamlParse { path: String, message: String },
    /// Required field missing (E005/E006/E007).
    MissingField { path: String, field: &'static str },
    /// schema_version value is not 1 (E008).
    UnsupportedSchemaVersion { path: String, version: u32 },
    /// File's parent dir is not in ontology.kinds (E009).
    UnknownKind { path: String, kind: String, allowed: Vec<String> },
    /// agwiki new: kind argument not in ontology.kinds (E010).
    InvalidKindArg { kind: String, allowed: Vec<String> },
    /// Duplicate id found in two files (E011).
    DuplicateId { id: String, first: String, second: String },
    /// relations[].target references unknown id (E012).
    BrokenRelation { source_path: String, source_id: String, target_id: String },
    /// relations[].rel not in ontology.relation_types (E013).
    DisallowedRelationType { source_path: String, rel: String, allowed: Vec<String> },
    /// Two entities in the same kind produce the same output slug (E014, warning only).
    SlugCollision { kind: String, slug: String, paths: Vec<String> },
}

/// The abstract content of a [`CompileError`].
pub enum CompileErrorV {
    LegacyConfig { version: u32 },
    ConfigMissing { path: Seq<char> },
    ConfigParse { message: Seq<char> },
    YamlParse { path: Seq<char>, message: Seq<char> },
    MissingField { path: Seq<char>, field: Seq<char> },
    UnsupportedSchemaVersion { path: Seq<char>, version: u32 },
    UnknownKind { path: Seq<char>, kind: Seq<char>, allowed: Seq<Seq<char>> },
    InvalidKindArg { kind: Seq<char>, allowed: Seq<Seq<char>> },
    DuplicateId { id: Seq<char>, first: Seq<char>, second: Seq<char> },
    BrokenRelation { source_path: Seq<char>, source_id: Seq<char>, target_id: Seq<char> },
    DisallowedRelationType { source_path: Seq<char>, rel: Seq<char>, allowed: Seq<Seq<char>> },
    SlugCollision { kind: Seq<char>, slug: Seq<char>, paths: Seq<Seq<char>> },
}

impl View for CompileError {
    type V = CompileErrorV;

    open spec fn view(&self) -> CompileErrorV {
        match self {
            CompileError::LegacyConfig { version } => CompileErrorV::LegacyConfig { version: *version },
            CompileError::ConfigMissing { path } => CompileErrorV::ConfigMissing { path: path@ },
            CompileError::ConfigParse { message } => CompileErrorV::ConfigParse { message: message@ },
            CompileError::YamlParse { path, message } => CompileErrorV::YamlParse {
                path: path@,
                message: message@,
            },
            CompileError::MissingField { path, field } => CompileErrorV::MissingField {
                path: path@,
                field: field@,
            },
            CompileError::UnsupportedSchemaVersion { path, version } =>
                CompileErrorV::UnsupportedSchemaVersion { path: path@, version: *version },
            CompileError::UnknownKind { path, kind, allowed } => CompileErrorV::UnknownKind {
                path: path@,
                kind: kind@,
                allowed: string_views(allowed@),
            },
            CompileError::InvalidKindArg { kind, allowed } => CompileErrorV::InvalidKindArg {
                kind: kind@,
                allowed: string_views(allowed@),
            },
            CompileError::DuplicateId { id, first, second } => CompileErrorV::DuplicateId {
                id: id@,
                first: first@,
                second: second@,
            },
            CompileError::BrokenRelation { source_path, source_id, target_id } =>
                CompileErrorV::BrokenRelation {
                source_path: source_path@,
                source_id: source_id@,
                target_id: target_id@,
            },
            CompileError::DisallowedRelationType { source_path, rel, allowed } =>
                CompileErrorV::DisallowedRelationType {
                source_path: source_path@,
                rel: rel@,
                allowed: string_views(allowed@),
            },
            CompileError::SlugCollision { kind, slug, paths } => CompileErrorV::SlugCollision {
                kind: kind@,
                slug: slug@,
                paths: string_views(paths@),
            },
        }
    }
}

/// The views of a list of errors.
pub open spec fn error_views(es: Seq<CompileError>) -> Seq<CompileErrorV> {
    es.map_values(|e: CompileError| e@)
}

/// The digit of the code for a missing field.
pub open spec fn field_code(field: Seq<char>) -> Seq<char> {
    if field == "id"@ {
        "5"@
    } else if field == "title"@ {
        "6"@
    } else if field == "schema_version"@ {
        "7"@
    } else {
        "?"@
    }
}

/// The message of an error, as its `Display` writes it.
pub open spec fn error_message(e: CompileErrorV) -> Seq<char> {
    match e {
        CompileErrorV::LegacyConfig { version } => "E001: agwiki.toml has version="@ + decimal(
            version as nat,
        ) + "; expected version=2 (legacy v1 config)"@,
        CompileErrorV::ConfigMissing { path } => "E002: agwiki.toml missing: "@ + path,
        CompileErrorV::ConfigParse { message } => "E003: agwiki.toml parse error: "@ + message,
        CompileErrorV::YamlParse { path, message } => "E004: YAML parse error in "@ + path + ": "@
            + message,
        CompileErrorV::MissingField { path, field } => "E00"@ + field_code(field)
            + ": missing required field `"@ + field + "` in "@ + path,
        CompileErrorV::UnsupportedSchemaVersion { path, version } => "E008: schema_version="@
            + decimal(version as nat) + " (expected 1) in "@ + path,
        CompileErrorV::UnknownKind { path, kind, allowed } => "E009: unknown kind `"@ + kind
            + "` in "@ + path + "; allowed: ["@ + join(allowed, ", "@) + "]"@,
        CompileErrorV::InvalidKindArg { kind, allowed } => "E010: unknown kind `"@ + kind
            + "`; valid kinds: ["@ + join(allowed, ", "@) + "]"@,
        CompileErrorV::DuplicateId { id, first, second } => "E011: duplicate id `"@ + id
            + "` in "@ + first + " and "@ + second,
        CompileErrorV::BrokenRelation { source_path, source_id, target_id } =>
            "E012: broken relation in "@ + source_path + " (id="@ + source_id + "): target `"@
            + target_id + "` not found"@,
        CompileErrorV::DisallowedRelationType { source_path, rel, allowed } =>
            "E013: disallowed relation type `"@ + rel + "` in "@ + source_path + "; allowed: ["@
            + join(allowed, ", "@) + "]"@,
        CompileErrorV::SlugCollision { kind, slug, paths } =>
            "E014 (warning): slug collision `"@ + slug + "` in kind `"@ + kind + "` for "@
            + decimal(paths.len()) + " files"@,
    }
}

fn join_strings(list: &Vec<String>, sep: &str) -> (r: Vec<char>)
    ensures
        r@ == join(string_views(list@), sep@),
{
    let v = strings_chars(list);
    let s = to_chars(sep);
    join_chars(&v, &s)
}

impl CompileError {
    /// The message of this error, with its code (`E001`..`E014`).
    pub fn message(&self) -> (r: String)
        ensures
            r@ == error_message(self@),
    {
        let mut v: Vec<char> = Vec::new();
        match self {
            CompileError::LegacyConfig { version } => {
                push_str(&mut v, "E001: agwiki.toml has version=");
                append_chars(&mut v, &decimal_chars(*version as u64));
                push_str(&mut v, "; expected version=2 (legacy v1 config)");
            },
            CompileError::ConfigMissing { path } => {
                push_str(&mut v, "E002: agwiki.toml missing: ");
                push_str(&mut v, path.as_str());
            },
            CompileError::ConfigParse { message } => {
                push_str(&mut v, "E003: agwiki.toml parse error: ");
                push_str(&mut v, message.as_str());
            },
            CompileError::YamlParse { path, message } => {
                push_str(&mut v, "E004: YAML parse error in ");
                push_str(&mut v, path.as_str());
                push_str(&mut v, ": ");
                push_str(&mut v, message.as_str());
            },
            CompileError::MissingField { path, field } => {
                push_str(&mut v, "E00");
                let f = to_chars(*field);
                let code = if same_chars(&f, &lit("id")) {
                    "5"
                } else if same_chars(&f, &lit("title")) {
                    "6"
                } else if same_chars(&f, &lit("schema_version")) {
                    "7"
                } else {
                    "?"
                };
                push_str(&mut v, code);
                push_str(&mut v, ": missing required field `");
                append_chars(&mut v, &f);
                push_str(&mut v, "` in ");
                push_str(&mut v, path.as_str());
            },
            CompileError::UnsupportedSchemaVersion { path, version } => {
                push_str(&mut v, "E008: schema_version=");
                append_chars(&mut v, &decimal_chars(*version as u64));
                push_str(&mut v, " (expected 1) in ");
                push_str(&mut v, path.as_str());
            },
            CompileError::UnknownKind { path, kind, allowed } => {
                push_str(&mut v, "E009: unknown kind `");
                push_str(&mut v, kind.as_str());
                push_str(&mut v, "` in ");
                push_str(&mut v, path.as_str());
                push_str(&mut v, "; allowed: [");
                append_chars(&mut v, &join_strings(allowed, ", "));
                push_str(&mut v, "]");
            },
            CompileError::InvalidKindArg { kind, allowed } => {
                push_str(&mut v, "E010: unknown kind `");
                push_str(&mut v, kind.as_str());
                push_str(&mut v, "`; valid kinds: [");
                append_chars(&mut v, &join_strings(allowed, ", "));
                push_str(&mut v, "]");
            },
            CompileError::DuplicateId { id, first, second } => {
                push_str(&mut v, "E011: duplicate id `");
                push_str(&mut v, id.as_str());
                push_str(&mut v, "` in ");
                push_str(&mut v, first.as_str());
                push_str(&mut v, " and ");
                push_str(&mut v, second.as_str());
            },
            CompileError::BrokenRelation { source_path, source_id, target_id } => {
                push_str(&mut v, "E012: broken relation in ");
                push_str(&mut v, source_path.as_str());
                push_str(&mut v, " (id=");
                push_str(&mut v, source_id.as_str());
                push_str(&mut v, "): target `");
                push_str(&mut v, target_id.as_str());
                push_str(&mut v, "` not found");
            },
            CompileError::DisallowedRelationType { source_path, rel, allowed } => {
                push_str(&mut v, "E013: disallowed relation type `");
                push_str(&mut v, rel.as_str());
                push_str(&mut v, "` in ");
                push_str(&mut v, source_path.as_str());
                push_str(&mut v, "; allowed: [");
                append_chars(&mut v, &join_strings(allowed, ", "));
                push_str(&mut v, "]");
            },
            CompileError::SlugCollision { kind, slug, paths } => {
                push_str(&mut v, "E014 (warning): slug collision `");
                push_str(&mut v, slug.as_str());
                push_str(&mut v, "` in kind `");
                push_str(&mut v, kind.as_str());
                push_str(&mut v, "` for ");
                append_chars(&mut v, &decimal_chars(paths.len() as u64));
                push_str(&mut v, " files");
            },
        }
        proof {
            reveal_strlit("id");
            reveal_strlit("title");
            reveal_strlit("schema_version");
            reveal_strlit("5");
            reveal_strlit("6");
            reveal_strlit("7");
            reveal_strlit("?");
        }
        from_chars(&v)
    }
}

// ---------------------------------------------------------------------------
// Sources and entities
// ---------------------------------------------------------------------------

/// A markdown file found under the content directory: its path (as displayed)
/// and either its front matter and body, or why they could not be read.
pub struct SourceFile {
    pub path: String,
    pub parsed: Result<(EntityFrontMatter, String), String>,
}

/// Where compile reads and writes, and the ontology it validates against.
pub struct CompileLayout {
    /// Directory holding the entity sources (`<wiki-root>/content`).
    pub content_dir: String,
    /// Directory receiving generated pages (`<wiki-root>/wiki`).
    pub wiki_dir: String,
    /// Ordered list of entity kinds.
    pub kinds: Vec<String>,
    /// Allowed relation types; empty means any.
    pub relation_types: Vec<String>,
}

/// The abstract content of front matter.
pub struct FrontMatterV {
    pub id: Option<Seq<char>>,
    pub title: Option<Seq<char>>,
    pub schema_version: Option<u32>,
    pub status: Option<EntityStatus>,
    pub relations: Seq<(Seq<char>, Seq<char>)>,
    pub aliases: Seq<Seq<char>>,
}

/// An entity that passed the per-file checks.
pub struct EntityV {
    pub path: Seq<char>,
    pub kind: Seq<char>,
    pub id: Seq<char>,
    pub title: Seq<char>,
    pub status: Option<EntityStatus>,
    pub aliases: Seq<Seq<char>>,
    pub relations: Seq<(Seq<char>, Seq<char>)>,
    pub body: Seq<char>,
}

pub open spec fn relation_views(rs: Seq<Relation>) -> Seq<(Seq<char>, Seq<char>)> {
    rs.map_values(|r: Relation| (r.target@, r.rel@))
}

impl View for EntityFrontMatter {
    type V = FrontMatterV;

    open spec fn view(&self) -> FrontMatterV {
        FrontMatterV {
            id: crate::config::opt_view(self.id),
            title: crate::config::opt_view(self.title),
            schema_version: self.schema_version,
            status: self.status,
            relations: relation_views(self.relations@),
            aliases: string_views(self.aliases@),
        }
    }
}

/// The abstract content of a source file.
pub open spec fn source_view(f: SourceFile) -> (Seq<char>, Result<(FrontMatterV, Seq<char>), Seq<char>>) {
    (f.path@, match f.parsed {
        Ok((fm, body)) => Ok((fm@, body@)),
        Err(m) => Err(m@),
    })
}

/// The name of the directory holding `p`.
pub open spec fn parent_name(p: Seq<char>) -> Option<Seq<char>> {
    match parent(p) {
        None => None,
        Some(d) => if d.len() == 0 {
            None
        } else {
            Some(d.skip(last_before(d, '/', d.len() as int) + 1))
        },
    }
}

/// First index at or after `i` that is not a line feed (or the length).
pub open spec fn skip_nl(s: Seq<char>, i: int) -> int
    decreases s.len() - i,
{
    if i < 0 || i >= s.len() {
        s.len() as int
    } else if s[i] == '\n' {
        skip_nl(s, i + 1)
    } else {
        i
    }
}

/// The body without its leading line feeds.
pub open spec fn body_text(b: Seq<char>) -> Seq<char> {
    b.skip(skip_nl(b, 0))
}

/// The outcome of the per-file checks for one source: `None` when the file
/// is not an entity source at all (it lies under `pages/`, or has no parent
/// directory), an error, or an entity.
pub open spec fn check_source(
    content_dir: Seq<char>,
    kinds: Seq<Seq<char>>,
    path: Seq<char>,
    parsed: Result<(FrontMatterV, Seq<char>), Seq<char>>,
) -> Option<Result<EntityV, CompileErrorV>> {
    if is_under(path, content_dir + "/pages"@) {
        None
    } else {
        match parent_name(path) {
            None => None,
            Some(kind) => Some(
                match parsed {
                    Err(m) => Err(CompileErrorV::YamlParse { path, message: m }),
                    Ok((fm, body)) => match fm.id {
                        None => Err(CompileErrorV::MissingField { path, field: "id"@ }),
                        Some(id) => match fm.title {
                            None => Err(CompileErrorV::MissingField { path, field: "title"@ }),
                            Some(title) => match fm.schema_version {
                                None => Err(
                                    CompileErrorV::MissingField { path, field: "schema_version"@ },
                                ),
                                Some(v) => if v != 1 {
                                    Err(CompileErrorV::UnsupportedSchemaVersion { path, version: v })
                                } else if !kinds.contains(kind) {
                                    Err(CompileErrorV::UnknownKind { path, kind, allowed: kinds })
                                } else {
                                    Ok(
                                        EntityV {
                                            path,
                                            kind,
                                            id,
                                            title,
                                            status: fm.status,
                                            aliases: fm.aliases,
                                            relations: fm.relations,
                                            body: body_text(body),
                                        },
                                    )
                                },
                            },
                        },
                    },
                },
            ),
        }
    }
}

/// Errors and entities from the sources at `order[..n]`.
pub open spec fn scan_sources(
    content_dir: Seq<char>,
    kinds: Seq<Seq<char>>,
    srcs: Seq<(Seq<char>, Result<(FrontMatterV, Seq<char>), Seq<char>>)>,
    order: Seq<usize>,
    n: int,
) -> (Seq<CompileErrorV>, Seq<EntityV>)
    decreases n,
{
    if n <= 0 {
        (seq![], seq![])
    } else {
        let prev = scan_sources(content_dir, kinds, srcs, order, n - 1);
        let f = srcs[order[n - 1] as int];
        match check_source(content_dir, kinds, f.0, f.1) {
            None => prev,
            Some(Err(e)) => (prev.0.push(e), prev.1),
            Some(Ok(ent)) => (prev.0, prev.1.push(ent)),
        }
    }
}

/// An entity ready to be compiled.
pub struct Entity {
    pub path: String,
    pub kind: String,
    pub id: String,
    pub title: String,
    pub status: Option<EntityStatus>,
    pub aliases: Vec<String>,
    pub relations: Vec<Relation>,
    pub body: String,
}

impl View for Entity {
    type V = EntityV;

    open spec fn view(&self) -> EntityV {
        EntityV {
            path: self.path@,
            kind: self.kind@,
            id: self.id@,
            title: self.title@,
            status: self.status,
            aliases: string_views(self.aliases@),
            relations: relation_views(self.relations@),
            body: self.body@,
        }
    }
}

pub open spec fn entity_views(es: Seq<Entity>) -> Seq<EntityV> {
    es.map_values(|e: Entity| e@)
}

fn copy_relations(rs: &Vec<Relation>) -> (r: Vec<Relation>)
    ensures
        relation_views(r@) == relation_views(rs@),
{
    let mut r: Vec<Relation> = Vec::new();
    let mut i: usize = 0;
    while i < rs.len()
        invariant
            i <= rs.len(),
            relation_views(r@) == relation_views(rs@).take(i as int),
        decreases rs.len() - i,
    {
        let ghost old = relation_views(r@);
        let t = crate::text::copy_string(&rs[i].target);
        let l = crate::text::copy_string(&rs[i].rel);
        r.push(Relation { target: t, rel: l });
        assert(relation_views(r@) =~= old.push((t@, l@)));
        assert(relation_views(rs@).take(i + 1) =~= relation_views(rs@).take(i as int).push(
            (rs@[i as int].target@, rs@[i as int].rel@),
        ));
        i = i + 1;
    }
    assert(relation_views(rs@).take(rs.len() as int) =~= relation_views(rs@));
    r
}

fn parent_name_exec(p: &Vec<char>) -> (r: Option<Vec<char>>)
    ensures
        match r {
            Some(k) => parent_name(p@) == Some(k@),
            None => parent_name(p@) is None,
        },
{
    proof {
        lemma_last_before(p@, '/', p@.len() as int);
    }
    match last_index_of(p, '/') {
        None => None,
        Some(k) => {
            let d = slice_chars(p, 0, k);
            if d.len() == 0 {
                return None;
            }
            proof {
                lemma_last_before(d@, '/', d@.len() as int);
            }
            let start = match last_index_of(&d, '/') {
                Some(j) => j + 1,
                None => 0,
            };
            let name = slice_chars(&d, start, d.len());
            assert(name@ =~= d@.skip(last_before(d@, '/', d@.len() as int) + 1));
            Some(name)
        },
    }
}

fn body_text_exec(b: &String) -> (r: String)
    ensures
        r@ == body_text(b@),
{
    let c = string_chars(b);
    let mut i: usize = 0;
    while i < c.len() && c[i] == '\n'
        invariant
            i <= c.len(),
            skip_nl(c@, i as int) == skip_nl(c@, 0),
        decreases c.len() - i,
    {
        i = i + 1;
    }
    let t = slice_chars(&c, i, c.len());
    assert(t@ =~= c@.skip(i as int));
    from_chars(&t)
}

fn contains_string(list: &Vec<String>, s: &Vec<char>) -> (b: bool)
    ensures
        b == string_views(list@).contains(s@),
{
    let mut i: usize = 0;
    while i < list.len()
        invariant
            i <= list.len(),
            forall|k: int| 0 <= k < i ==> string_views(list@)[k] != s@,
        decreases list.len() - i,
    {
        let c = string_chars(&list[i]);
        if same_chars(&c, s) {
            assert(string_views(list@)[i as int] == s@);
            return true;
        }
        i = i + 1;
    }
    false
}

fn check_source_exec(layout: &CompileLayout, pages_dir: &Vec<char>, f: &SourceFile) -> (r: Option<Result<Entity, CompileError>>)
    requires
        pages_dir@ == layout.content_dir@ + "/pages"@,
    ensures
        match r {
            None => check_source(layout.content_dir@, string_views(layout.kinds@), source_view(*f).0, source_view(*f).1) is None,
            Some(Ok(e)) => check_source(layout.content_dir@, string_views(layout.kinds@), source_view(*f).0, source_view(*f).1) == Some(Ok::<EntityV, CompileErrorV>(e@)),
            Some(Err(e)) => check_source(layout.content_dir@, string_views(layout.kinds@), source_view(*f).0, source_view(*f).1) == Some(Err::<EntityV, CompileErrorV>(e@)),
        },
{
    let path = string_chars(&f.path);
    if crate::upkeep::is_under_path(&path, pages_dir) {
        return None;
    }
    let kind = match parent_name_exec(&path) {
        None => {
            return None;
        },
        Some(k) => k,
    };
    let p = crate::text::copy_string(&f.path);
    proof {
        reveal_strlit("id");
        reveal_strlit("title");
        reveal_strlit("schema_version");
    }
    match &f.parsed {
        Err(m) => Some(Err(CompileError::YamlParse { path: p, message: crate::text::copy_string(m) })),
        Ok((fm, body)) => match &fm.id {
            None => Some(Err(CompileError::MissingField { path: p, field: "id" })),
            Some(id) => match &fm.title {
                None => Some(Err(CompileError::MissingField { path: p, field: "title" })),
                Some(title) => match fm.schema_version {
                    None => Some(Err(CompileError::MissingField { path: p, field: "schema_version" })),
                    Some(v) => if v != 1 {
                        Some(Err(CompileError::UnsupportedSchemaVersion { path: p, version: v }))
                    } else if !contains_string(&layout.kinds, &kind) {
                        Some(
                            Err(
                                CompileError::UnknownKind {
                                    path: p,
                                    kind: from_chars(&kind),
                                    allowed: crate::text::copy_strings(&layout.kinds),
                                },
                            ),
                        )
                    } else {
                        Some(
                            Ok(
                                Entity {
                                    path: p,
                                    kind: from_chars(&kind),
                                    id: crate::text::copy_string(id),
                                    title: crate::text::copy_string(title),
                                    status: fm.status,
                                    aliases: crate::text::copy_strings(&fm.aliases),
                                    relations: copy_relations(&fm.relations),
                                    body: body_text_exec(body),
                                },
                            ),
                        )
                    },
                },
            },
        },
    }
}

fn source_paths(files: &Vec<SourceFile>) -> (r: Vec<Vec<char>>)
    ensures
        views(r@) == files@.map_values(|f: SourceFile| source_view(f).0),
        r@.len() == files@.len(),
{
    let mut r: Vec<Vec<char>> = Vec::new();
    let mut i: usize = 0;
    while i < files.len()
        invariant
            i <= files.len(),
            views(r@) == files@.map_values(|f: SourceFile| source_view(f).0).take(i as int),
            r@.len() == i,
        decreases files.len() - i,
    {
        let ghost old = views(r@);
        let p = string_chars(&files[i].path);
        r.push(p);
        assert(views(r@) =~= old.push(p@));
        assert(files@.map_values(|f: SourceFile| source_view(f).0).take(i + 1) =~= files@.map_values(
            |f: SourceFile| source_view(f).0,
        ).take(i as int).push(files@[i as int].path@));
        i = i + 1;
    }
    assert(files@.map_values(|f: SourceFile| source_view(f).0).take(files.len() as int)
        =~= files@.map_values(|f: SourceFile| source_view(f).0));
    r
}

/// The sources of a compile, as the specifications see them.
pub open spec fn source_views(files: Seq<SourceFile>) -> Seq<(Seq<char>, Result<(FrontMatterV, Seq<char>), Seq<char>>)> {
    files.map_values(|f: SourceFile| source_view(f))
}

/// The order in which compile visits its sources: by path, component by
/// component.
pub open spec fn source_order(files: Seq<SourceFile>) -> Seq<usize> {
    sorted_order(
        files.map_values(|f: SourceFile| source_view(f).0).map_values(
            |p: Seq<char>| component_key(p),
        ),
    )
}

/// Per-file checks over all sources, in path order: the errors met and the
/// entities that passed.
pub open spec fn scanned(layout: CompileLayout, files: Seq<SourceFile>) -> (Seq<CompileErrorV>, Seq<EntityV>) {
    scan_sources(
        layout.content_dir@,
        string_views(layout.kinds@),
        source_views(files),
        source_order(files),
        files.len() as int,
    )
}

fn scan_exec(layout: &CompileLayout, files: &Vec<SourceFile>) -> (r: (Vec<CompileError>, Vec<Entity>))
    ensures
        error_views(r.0@) == scanned(*layout, files@).0,
        entity_views(r.1@) == scanned(*layout, files@).1,
{
    let paths = source_paths(files);
    let keys = crate::upkeep::component_keys(&paths);
    let order = sort_indices(&keys);
    proof {
        crate::order::lemma_sort_idx_perm_len(views(keys@), keys@.len());
    }
    let mut pages_dir = to_chars(layout.content_dir.as_str());
    push_str(&mut pages_dir, "/pages");
    let mut errors: Vec<CompileError> = Vec::new();
    let mut ents: Vec<Entity> = Vec::new();
    let ghost srcs = source_views(files@);
    let ghost kinds = string_views(layout.kinds@);
    let mut n: usize = 0;
    while n < order.len()
        invariant
            n <= order.len(),
            order@ == source_order(files@),
            order@.len() == files@.len(),
            forall|k: int| 0 <= k < order@.len() ==> (#[trigger] order@[k] as int) < files@.len(),
            pages_dir@ == layout.content_dir@ + "/pages"@,
            srcs == source_views(files@),
            kinds == string_views(layout.kinds@),
            (error_views(errors@), entity_views(ents@)) == scan_sources(
                layout.content_dir@,
                kinds,
                srcs,
                order@,
                n as int,
            ),
        decreases order.len() - n,
    {
        let f = &files[order[n]];
        assert(srcs[order@[n as int] as int] == source_view(*f));
        let ghost oe = error_views(errors@);
        let ghost oen = entity_views(ents@);
        match check_source_exec(layout, &pages_dir, f) {
            None => {},
            Some(Err(e)) => {
                errors.push(e);
                assert(error_views(errors@) =~= oe.push(e@));
            },
            Some(Ok(ent)) => {
                ents.push(ent);
                assert(entity_views(ents@) =~= oen.push(ent@));
            },
        }
        n = n + 1;
    }
    (errors, ents)
}

// ---------------------------------------------------------------------------
// Cross-entity checks
// ---------------------------------------------------------------------------

/// First index below `n` of an entity with id `id`.
pub open spec fn first_with_id(ents: Seq<EntityV>, id: Seq<char>, n: int) -> Option<int>
    decreases n,
{
    if n <= 0 {
        None
    } else {
        match first_with_id(ents, id, n - 1) {
            Some(k) => Some(k),
            None => if ents[n - 1].id == id {
                Some(n - 1)
            } else {
                None
            },
        }
    }
}

/// Duplicate-id errors for the first `n` entities: each entity whose id an
/// earlier entity already has is reported against the first such entity.
pub open spec fn dup_errors(ents: Seq<EntityV>, n: int) -> Seq<CompileErrorV>
    decreases n,
{
    if n <= 0 {
        seq![]
    } else {
        let e = ents[n - 1];
        match first_with_id(ents, e.id, n - 1) {
            Some(k) => dup_errors(ents, n - 1).push(
                CompileErrorV::DuplicateId { id: e.id, first: ents[k].path, second: e.path },
            ),
            None => dup_errors(ents, n - 1),
        }
    }
}

/// Relation errors for the first `m` relations of entity `e`.
pub open spec fn rel_errors_of(ents: Seq<EntityV>, rtypes: Seq<Seq<char>>, e: EntityV, m: int) -> Seq<CompileErrorV>
    decreases m,
{
    if m <= 0 {
        seq![]
    } else {
        let r = e.relations[m - 1];
        let a = rel_errors_of(ents, rtypes, e, m - 1);
        let b = if first_with_id(ents, r.0, ents.len() as int) is None {
            a.push(
                CompileErrorV::BrokenRelation { source_path: e.path, source_id: e.id, target_id: r.0 },
            )
        } else {
            a
        };
        if rtypes.len() > 0 && !rtypes.contains(r.1) {
            b.push(
                CompileErrorV::DisallowedRelationType { source_path: e.path, rel: r.1, allowed: rtypes },
            )
        } else {
            b
        }
    }
}

/// Relation errors of the first `n` entities: unknown targets and, when an
/// allow-list is configured, relation types outside it.
pub open spec fn rel_errors(ents: Seq<EntityV>, rtypes: Seq<Seq<char>>, n: int) -> Seq<CompileErrorV>
    decreases n,
{
    if n <= 0 {
        seq![]
    } else {
        rel_errors(ents, rtypes, n - 1) + rel_errors_of(
            ents,
            rtypes,
            ents[n - 1],
            ents[n - 1].relations.len() as int,
        )
    }
}

fn first_with_id_exec(ents: &Vec<Entity>, id: &Vec<char>, n: usize) -> (r: Option<usize>)
    requires
        n <= ents.len(),
    ensures
        match r {
            Some(k) => first_with_id(entity_views(ents@), id@, n as int) == Some(k as int) && k < n,
            None => first_with_id(entity_views(ents@), id@, n as int) is None,
        },
{
    let ghost es = entity_views(ents@);
    let mut k: usize = 0;
    while k < n
        invariant
            k <= n <= ents.len(),
            es == entity_views(ents@),
            first_with_id(es, id@, k as int) is None,
        decreases n - k,
    {
        let c = string_chars(&ents[k].id);
        if same_chars(&c, id) {
            proof {
                lemma_first_stable(es, id@, (k + 1) as int, n as int);
            }
            return Some(k);
        }
        k = k + 1;
    }
    None
}

proof fn lemma_first_stable(ents: Seq<EntityV>, id: Seq<char>, k: int, n: int)
    requires
        0 <= k <= n,
        first_with_id(ents, id, k) is Some,
    ensures
        first_with_id(ents, id, n) == first_with_id(ents, id, k),
    decreases n - k,
{
    if k < n {
        lemma_first_stable(ents, id, k, n - 1);
    }
}

fn dup_errors_exec(ents: &Vec<Entity>, out: &mut Vec<CompileError>)
    ensures
        error_views(final(out)@) == error_views(old(out)@) + dup_errors(entity_views(ents@), ents@.len() as int),
{
    let ghost es = entity_views(ents@);
    let ghost start = error_views(old(out)@);
    let mut n: usize = 0;
    while n < ents.len()
        invariant
            n <= ents.len(),
            es == entity_views(ents@),
            error_views(out@) == start + dup_errors(es, n as int),
        decreases ents.len() - n,
    {
        let id = string_chars(&ents[n].id);
        let ghost before = error_views(out@);
        match first_with_id_exec(ents, &id, n) {
            Some(k) => {
                let e = CompileError::DuplicateId {
                    id: crate::text::copy_string(&ents[n].id),
                    first: crate::text::copy_string(&ents[k].path),
                    second: crate::text::copy_string(&ents[n].path),
                };
                out.push(e);
                assert(error_views(out@) =~= before.push(e@));
            },
            None => {},
        }
        n = n + 1;
    }
}

fn rel_errors_exec(ents: &Vec<Entity>, rtypes: &Vec<String>, out: &mut Vec<CompileError>)
    ensures
        error_views(final(out)@) == error_views(old(out)@) + rel_errors(
            entity_views(ents@),
            string_views(rtypes@),
            ents@.len() as int,
        ),
{
    let ghost es = entity_views(ents@);
    let ghost rt = string_views(rtypes@);
    let ghost start = error_views(old(out)@);
    let mut n: usize = 0;
    while n < ents.len()
        invariant
            n <= ents.len(),
            es == entity_views(ents@),
            rt == string_views(rtypes@),
            error_views(out@) == start + rel_errors(es, rt, n as int),
        decreases ents.len() - n,
    {
        let e = &ents[n];
        assert(es[n as int] == e@);
        let ghost mid = error_views(out@);
        let mut m: usize = 0;
        while m < e.relations.len()
            invariant
                n < ents.len(),
                m <= e.relations.len(),
                e == &ents[n as int],
                es == entity_views(ents@),
                rt == string_views(rtypes@),
                error_views(out@) == mid + rel_errors_of(es, rt, e@, m as int),
            decreases e.relations.len() - m,
        {
            let r = &e.relations[m];
            assert(e@.relations[m as int] == (r.target@, r.rel@));
            let ghost before = error_views(out@);
            let target = string_chars(&r.target);
            if first_with_id_exec(ents, &target, ents.len()).is_none() {
                let er = CompileError::BrokenRelation {
                    source_path: crate::text::copy_string(&e.path),
                    source_id: crate::text::copy_string(&e.id),
                    target_id: crate::text::copy_string(&r.target),
                };
                out.push(er);
                assert(error_views(out@) =~= before.push(er@));
            }
            let ghost before2 = error_views(out@);
            let rel = string_chars(&r.rel);
            if rtypes.len() > 0 && !contains_string(rtypes, &rel) {
                let er = CompileError::DisallowedRelationType {
                    source_path: crate::text::copy_string(&e.path),
                    rel: crate::text::copy_string(&r.rel),
                    allowed: crate::text::copy_strings(rtypes),
                };
                out.push(er);
                assert(error_views(out@) =~= before2.push(er@));
            }
            m = m + 1;
        }
        assert(error_views(out@) =~= start + rel_errors(es, rt, (n + 1) as int));
        n = n + 1;
    }
}

// ---------------------------------------------------------------------------
// Slugs and collisions
// ---------------------------------------------------------------------------

/// Entities `i` and `j` share a kind and a base slug.
pub open spec fn same_group(ents: Seq<EntityV>, i: int, j: int) -> bool {
    ents[i].kind == ents[j].kind && slug_of(ents[i].title) == slug_of(ents[j].title)
}

/// Entity `j` comes before entity `i` when sorting by path (stably).
pub open spec fn path_before(ents: Seq<EntityV>, j: int, i: int) -> bool {
    lex_lt(ents[j].path, ents[i].path) || (ents[j].path == ents[i].path && j < i)
}

/// How many of the first `n` entities share `i`'s group and sort before it.
pub open spec fn rank_upto(ents: Seq<EntityV>, i: int, n: int) -> nat
    decreases n,
{
    if n <= 0 {
        0
    } else {
        rank_upto(ents, i, n - 1) + if same_group(ents, i, n - 1) && path_before(ents, n - 1, i) {
            1nat
        } else {
            0nat
        }
    }
}

/// Paths of the first `n` entities that share `i`'s group, in entity order.
pub open spec fn colliding(ents: Seq<EntityV>, i: int, n: int) -> Seq<Seq<char>>
    decreases n,
{
    if n <= 0 {
        seq![]
    } else if same_group(ents, i, n - 1) {
        colliding(ents, i, n - 1).push(ents[n - 1].path)
    } else {
        colliding(ents, i, n - 1)
    }
}

/// The output slug of entity `i`: its base slug for the first entity of its
/// group in path order, the base slug with `-2`, `-3`, ... for later ones.
pub open spec fn final_slug(ents: Seq<EntityV>, i: int) -> Seq<char> {
    let base = slug_of(ents[i].title);
    let rank = rank_upto(ents, i, ents.len() as int) + 1;
    if rank == 1 {
        base
    } else {
        base + "-"@ + decimal(rank)
    }
}

/// Output slugs of all entities.
pub open spec fn final_slugs(ents: Seq<EntityV>) -> Seq<Seq<char>> {
    Seq::new(ents.len(), |i: int| final_slug(ents, i))
}

/// One warning per group of two or more entities with the same kind and
/// base slug, at the group's first entity.
pub open spec fn collision_warnings(ents: Seq<EntityV>, n: int) -> Seq<Seq<char>>
    decreases n,
{
    if n <= 0 {
        seq![]
    } else {
        let i = n - 1;
        let group = colliding(ents, i, ents.len() as int);
        if group.len() > 1 && colliding(ents, i, i).len() == 0 {
            collision_warnings(ents, n - 1).push(
                error_message(
                    CompileErrorV::SlugCollision {
                        kind: ents[i].kind,
                        slug: slug_of(ents[i].title),
                        paths: group,
                    },
                ),
            )
        } else {
            collision_warnings(ents, n - 1)
        }
    }
}

fn base_slugs(ents: &Vec<Entity>) -> (r: Vec<Vec<char>>)
    ensures
        r@.len() == ents@.len(),
        forall|i: int| 0 <= i < r@.len() ==> (#[trigger] r@[i])@ == slug_of(ents@[i].title@),
{
    let mut r: Vec<Vec<char>> = Vec::new();
    let mut i: usize = 0;
    while i < ents.len()
        invariant
            i <= ents.len(),
            r@.len() == i,
            forall|k: int| 0 <= k < r@.len() ==> (#[trigger] r@[k])@ == slug_of(ents@[k].title@),
        decreases ents.len() - i,
    {
        let s = title_to_slug(ents[i].title.as_str());
        r.push(string_chars(&s));
        i = i + 1;
    }
    r
}

fn same_group_exec(ents: &Vec<Entity>, bases: &Vec<Vec<char>>, i: usize, j: usize) -> (b: bool)
    requires
        i < ents.len(),
        j < ents.len(),
        bases@.len() == ents@.len(),
        forall|k: int| 0 <= k < bases@.len() ==> (#[trigger] bases@[k])@ == slug_of(ents@[k].title@),
    ensures
        b == same_group(entity_views(ents@), i as int, j as int),
{
    let ki = string_chars(&ents[i].kind);
    let kj = string_chars(&ents[j].kind);
    same_chars(&ki, &kj) && same_chars(&bases[i], &bases[j])
}

fn slug_of_entity(ents: &Vec<Entity>, bases: &Vec<Vec<char>>, paths: &Vec<Vec<char>>, i: usize) -> (r: Vec<char>)
    requires
        i < ents.len(),
        bases@.len() == ents@.len(),
        paths@.len() == ents@.len(),
        forall|k: int| 0 <= k < bases@.len() ==> (#[trigger] bases@[k])@ == slug_of(ents@[k].title@),
        forall|k: int| 0 <= k < paths@.len() ==> (#[trigger] paths@[k])@ == ents@[k].path@,
    ensures
        r@ == final_slug(entity_views(ents@), i as int),
{
    let ghost es = entity_views(ents@);
    let mut rank: usize = 0;
    let mut j: usize = 0;
    while j < ents.len()
        invariant
            j <= ents.len(),
            i < ents.len(),
            es == entity_views(ents@),
            rank == rank_upto(es, i as int, j as int),
            rank + (if j > i { 1int } else { 0int }) <= j,
            bases@.len() == ents@.len(),
            paths@.len() == ents@.len(),
            forall|k: int| 0 <= k < bases@.len() ==> (#[trigger] bases@[k])@ == slug_of(ents@[k].title@),
            forall|k: int| 0 <= k < paths@.len() ==> (#[trigger] paths@[k])@ == ents@[k].path@,
        decreases ents.len() - j,
    {
        proof {
            crate::order::lemma_lex_lt_irreflexive(es[i as int].path);
        }
        if same_group_exec(ents, bases, i, j) && (lex_less(&paths[j], &paths[i]) || (same_chars(
            &paths[j],
            &paths[i],
        ) && j < i)) {
            rank = rank + 1;
        }
        j = j + 1;
    }
    let mut out = slice_chars(&bases[i], 0, bases[i].len());
    assert(out@ =~= bases@[i as int]@);
    if rank > 0 {
        push_str(&mut out, "-");
        append_chars(&mut out, &decimal_chars((rank + 1) as u64));
    }
    out
}

fn collision_warnings_exec(ents: &Vec<Entity>, bases: &Vec<Vec<char>>) -> (r: Vec<String>)
    requires
        bases@.len() == ents@.len(),
        forall|k: int| 0 <= k < bases@.len() ==> (#[trigger] bases@[k])@ == slug_of(ents@[k].title@),
    ensures
        string_views(r@) == collision_warnings(entity_views(ents@), ents@.len() as int),
{
    let ghost es = entity_views(ents@);
    let mut out: Vec<String> = Vec::new();
    let mut i: usize = 0;
    while i < ents.len()
        invariant
            i <= ents.len(),
            es == entity_views(ents@),
            bases@.len() == ents@.len(),
            forall|k: int| 0 <= k < bases@.len() ==> (#[trigger] bases@[k])@ == slug_of(ents@[k].title@),
            string_views(out@) == collision_warnings(es, i as int),
        decreases ents.len() - i,
    {
        let mut group: Vec<String> = Vec::new();
        let mut earlier: usize = 0;
        let mut j: usize = 0;
        while j < ents.len()
            invariant
                j <= ents.len(),
                i < ents.len(),
                es == entity_views(ents@),
                bases@.len() == ents@.len(),
                forall|k: int| 0 <= k < bases@.len() ==> (#[trigger] bases@[k])@ == slug_of(ents@[k].title@),
                string_views(group@) == colliding(es, i as int, j as int),
                earlier == (if j <= i {
                    colliding(es, i as int, j as int).len()
                } else {
                    colliding(es, i as int, i as int).len()
                }),
                earlier <= j,
            decreases ents.len() - j,
        {
            if same_group_exec(ents, bases, i, j) {
                let ghost old = string_views(group@);
                let p = crate::text::copy_string(&ents[j].path);
                group.push(p);
                assert(string_views(group@) =~= old.push(p@));
                if j < i {
                    earlier = earlier + 1;
                }
            }
            j = j + 1;
        }
        if group.len() > 1 && earlier == 0 {
            let w = CompileError::SlugCollision {
                kind: crate::text::copy_string(&ents[i].kind),
                slug: from_chars(&bases[i]),
                paths: group,
            };
            let ghost old = string_views(out@);
            let m = w.message();
            out.push(m);
            assert(string_views(out@) =~= old.push(m@));
        }
        i = i + 1;
    }
    out
}

// ---------------------------------------------------------------------------
// Generated pages and the catalog
// ---------------------------------------------------------------------------

/// The `Debug` rendering of a string: in double quotes, with quotes,
/// backslashes and control or non-printable characters escaped.
pub uninterp spec fn debug_str(s: Seq<char>) -> Seq<char>;

/// A printable ASCII character that `Debug` does not escape: from space to
/// `~`, but not `"` or `\`.
pub open spec fn debug_plain_char(c: char) -> bool {
    ' ' <= c && c <= '~' && c != '"' && c != '\\'
}

/// Calls std's `Debug` formatting of `str` (`format!("{:?}", s)`). The
/// result is that rendering of the argument; of it the contract states the
/// plain case: a string of printable ASCII characters other than `"` and
/// `\` is written as itself between double quotes. The other escape rules
/// are not written out.
#[verifier::external_body]
fn debug_quoted(s: &str) -> (r: String)
    ensures
        r@ == debug_str(s@),
        (forall|i: int| 0 <= i < s@.len() ==> debug_plain_char(#[trigger] s@[i])) ==> r@ == seq!['"'] + s@
            + seq!['"'],
{
    format!("{:?}", s)
}

/// The lines of the reduced front matter of a generated page.
pub open spec fn fm_lines(e: EntityV) -> Seq<Seq<char>> {
    seq!["title: "@ + debug_str(e.title)] + (match e.status {
        Some(EntityStatus::Active) => seq!["status: active"@],
        Some(EntityStatus::Archived) => seq!["status: archived"@],
        None => seq![],
    }) + (if e.aliases.len() > 0 {
        seq![
            "aliases:\n"@ + join(
                e.aliases.map_values(|a: Seq<char>| "  - "@ + debug_str(a)),
                "\n"@,
            ),
        ]
    } else {
        seq![]
    })
}

/// The generated page of an entity: reduced front matter, a blank line, body.
pub open spec fn page_content(e: EntityV) -> Seq<char> {
    "---\n"@ + join(fm_lines(e), "\n"@) + "\n---\n\n"@ + e.body
}

/// Where the generated page of an entity is written.
pub open spec fn page_path(wiki_dir: Seq<char>, e: EntityV, slug: Seq<char>) -> Seq<char> {
    wiki_dir + "/"@ + e.kind + "/"@ + slug + ".md"@
}

fn page_content_exec(e: &Entity) -> (r: String)
    ensures
        r@ == page_content(e@),
{
    let mut lines: Vec<Vec<char>> = Vec::new();
    let mut t = lit("title: ");
    append_chars(&mut t, &string_chars(&debug_quoted(e.title.as_str())));
    lines.push(t);
    match e.status {
        Some(EntityStatus::Active) => lines.push(lit("status: active")),
        Some(EntityStatus::Archived) => lines.push(lit("status: archived")),
        None => {},
    }
    if e.aliases.len() > 0 {
        let mut items: Vec<Vec<char>> = Vec::new();
        let ghost al = string_views(e.aliases@);
        let mut k: usize = 0;
        while k < e.aliases.len()
            invariant
                k <= e.aliases.len(),
                al == string_views(e.aliases@),
                views(items@) == al.map_values(|a: Seq<char>| "  - "@ + debug_str(a)).take(k as int),
            decreases e.aliases.len() - k,
        {
            let mut item = lit("  - ");
            append_chars(&mut item, &string_chars(&debug_quoted(e.aliases[k].as_str())));
            let ghost old = views(items@);
            items.push(item);
            assert(views(items@) =~= old.push(item@));
            assert(al.map_values(|a: Seq<char>| "  - "@ + debug_str(a)).take(k + 1) =~= al.map_values(
                |a: Seq<char>| "  - "@ + debug_str(a),
            ).take(k as int).push("  - "@ + debug_str(al[k as int])));
            k = k + 1;
        }
        assert(al.map_values(|a: Seq<char>| "  - "@ + debug_str(a)).take(e.aliases.len() as int)
            =~= al.map_values(|a: Seq<char>| "  - "@ + debug_str(a)));
        let mut a = lit("aliases:\n");
        append_chars(&mut a, &join_chars(&items, &lit("\n")));
        lines.push(a);
    }
    assert(views(lines@) =~= fm_lines(e@));
    let mut out = lit("---\n");
    append_chars(&mut out, &join_chars(&lines, &lit("\n")));
    push_str(&mut out, "\n---\n\n");
    push_str(&mut out, e.body.as_str());
    from_chars(&out)
}

/// Indices in `order[..n]` of entities of kind `kind`.
pub open spec fn kind_members(ents: Seq<EntityV>, order: Seq<usize>, kind: Seq<char>, n: int) -> Seq<usize>
    decreases n,
{
    if n <= 0 {
        seq![]
    } else if ents[order[n - 1] as int].kind == kind {
        kind_members(ents, order, kind, n - 1).push(order[n - 1])
    } else {
        kind_members(ents, order, kind, n - 1)
    }
}

/// One catalog entry line per member.
pub open spec fn entry_lines(ents: Seq<EntityV>, slugs: Seq<Seq<char>>, kind: Seq<char>, members: Seq<usize>) -> Seq<Seq<char>> {
    members.map_values(
        |i: usize|
            "- ["@ + ents[i as int].title + "](wiki/"@ + kind + "/"@ + slugs[i as int] + ".md)"@,
    )
}

/// Catalog lines for the first `n` kinds: a heading, a blank line, the
/// entries ordered by lowercase title, and a blank line, for each kind that
/// has entities.
pub open spec fn catalog_lines(ents: Seq<EntityV>, slugs: Seq<Seq<char>>, kinds: Seq<Seq<char>>, order: Seq<usize>, n: int) -> Seq<Seq<char>>
    decreases n,
{
    if n <= 0 {
        seq![]
    } else {
        let kind = kinds[n - 1];
        let members = kind_members(ents, order, kind, order.len() as int);
        if members.len() == 0 {
            catalog_lines(ents, slugs, kinds, order, n - 1)
        } else {
            catalog_lines(ents, slugs, kinds, order, n - 1) + seq!["### "@ + kind, seq![]]
                + entry_lines(ents, slugs, kind, members) + seq![seq![]]
        }
    }
}

/// Entities ordered by lowercase title (stably).
pub open spec fn title_order(ents: Seq<EntityV>) -> Seq<usize> {
    sorted_order(ents.map_values(|e: EntityV| lowercase(e.title)))
}

/// The entity catalog written into `wiki/index.md`.
pub open spec fn catalog_text(ents: Seq<EntityV>, kinds: Seq<Seq<char>>, slugs: Seq<Seq<char>>) -> Seq<char> {
    trim_end(
        join(
            seq!["## Entity catalog"@, seq![]] + catalog_lines(
                ents,
                slugs,
                kinds,
                title_order(ents),
                kinds.len() as int,
            ),
            "\n"@,
        ),
    ) + "\n"@
}

fn lower_titles(ents: &Vec<Entity>) -> (r: Vec<Vec<char>>)
    ensures
        views(r@) == entity_views(ents@).map_values(|e: EntityV| lowercase(e.title)),
{
    let mut r: Vec<Vec<char>> = Vec::new();
    let mut i: usize = 0;
    while i < ents.len()
        invariant
            i <= ents.len(),
            views(r@) == entity_views(ents@).map_values(|e: EntityV| lowercase(e.title)).take(i as int),
        decreases ents.len() - i,
    {
        let l = string_chars(&str_to_lowercase(ents[i].title.as_str()));
        let ghost old = views(r@);
        r.push(l);
        assert(views(r@) =~= old.push(l@));
        assert(entity_views(ents@).map_values(|e: EntityV| lowercase(e.title)).take(i + 1)
            =~= entity_views(ents@).map_values(|e: EntityV| lowercase(e.title)).take(i as int).push(
            lowercase(ents@[i as int].title@),
        ));
        i = i + 1;
    }
    assert(entity_views(ents@).map_values(|e: EntityV| lowercase(e.title)).take(ents.len() as int)
        =~= entity_views(ents@).map_values(|e: EntityV| lowercase(e.title)));
    r
}

fn render_catalog(ents: &Vec<Entity>, kinds: &Vec<String>, slugs: &Vec<Vec<char>>) -> (r: String)
    requires
        slugs@.len() == ents@.len(),
    ensures
        r@ == catalog_text(entity_views(ents@), string_views(kinds@), views(slugs@)),
{
    let ghost es = entity_views(ents@);
    let ghost ks = string_views(kinds@);
    let ghost ss = views(slugs@);
    let keys = lower_titles(ents);
    let order = sort_indices(&keys);
    proof {
        crate::order::lemma_sort_idx_perm_len(views(keys@), keys@.len());
    }
    let mut lines: Vec<Vec<char>> = Vec::new();
    lines.push(lit("## Entity catalog"));
    lines.push(Vec::new());
    let ghost head = seq!["## Entity catalog"@, Seq::<char>::empty()];
    assert(views(lines@) =~= head);
    let mut n: usize = 0;
    while n < kinds.len()
        invariant
            n <= kinds.len(),
            es == entity_views(ents@),
            ks == string_views(kinds@),
            ss == views(slugs@),
            slugs@.len() == ents@.len(),
            order@ == title_order(es),
            order@.len() == ents@.len(),
            forall|k: int| 0 <= k < order@.len() ==> (#[trigger] order@[k] as int) < ents@.len(),
            views(lines@) == head + catalog_lines(es, ss, ks, order@, n as int),
        decreases kinds.len() - n,
    {
        let kind = string_chars(&kinds[n]);
        assert(kind@ == ks[n as int]);
        let mut members: Vec<usize> = Vec::new();
        let mut q: usize = 0;
        while q < order.len()
            invariant
                q <= order.len(),
                es == entity_views(ents@),
                order@.len() == ents@.len(),
                forall|k: int| 0 <= k < order@.len() ==> (#[trigger] order@[k] as int) < ents@.len(),
                members@ == kind_members(es, order@, kind@, q as int),
                forall|k: int| 0 <= k < members@.len() ==> (#[trigger] members@[k] as int) < ents@.len(),
            decreases order.len() - q,
        {
            let idx = order[q];
            if same_chars(&string_chars(&ents[idx].kind), &kind) {
                members.push(idx);
            }
            q = q + 1;
        }
        if members.len() > 0 {
            let ghost before = views(lines@);
            let mut h = lit("### ");
            append_chars(&mut h, &kind);
            lines.push(h);
            lines.push(Vec::new());
            let ghost mid = views(lines@);
            assert(mid =~= before + seq!["### "@ + kind@, Seq::<char>::empty()]);
            let mut m: usize = 0;
            while m < members.len()
                invariant
                    m <= members.len(),
                    es == entity_views(ents@),
                    ss == views(slugs@),
                    slugs@.len() == ents@.len(),
                    forall|k: int| 0 <= k < members@.len() ==> (#[trigger] members@[k] as int) < ents@.len(),
                    views(lines@) == mid + entry_lines(es, ss, kind@, members@).take(m as int),
                decreases members.len() - m,
            {
                let i = members[m];
                let mut line = lit("- [");
                push_str(&mut line, ents[i].title.as_str());
                push_str(&mut line, "](wiki/");
                append_chars(&mut line, &kind);
                push_str(&mut line, "/");
                append_chars(&mut line, &slugs[i]);
                push_str(&mut line, ".md)");
                let ghost old = views(lines@);
                lines.push(line);
                assert(views(lines@) =~= old.push(line@));
                assert(entry_lines(es, ss, kind@, members@).take(m + 1) =~= entry_lines(
                    es,
                    ss,
                    kind@,
                    members@,
                ).take(m as int).push(line@));
                m = m + 1;
            }
            assert(entry_lines(es, ss, kind@, members@).take(members.len() as int) =~= entry_lines(
                es,
                ss,
                kind@,
                members@,
            ));
            let ghost pre = views(lines@);
            lines.push(Vec::new());
            assert(views(lines@) =~= pre + seq![Seq::<char>::empty()]);
            assert(views(lines@) =~= head + catalog_lines(es, ss, ks, order@, (n + 1) as int));
        }
        n = n + 1;
    }
    let joined = join_chars(&lines, &lit("\n"));
    let mut out = trim_end_chars(&joined);
    out.push('\n');
    proof {
        reveal_strlit("\n");
    }
    assert(out@ =~= catalog_text(es, ks, ss));
    from_chars(&out)
}

// ---------------------------------------------------------------------------
// The compile plan
// ---------------------------------------------------------------------------

/// Inputs for a compile run.
pub struct CompileOptions {
    /// Root directory containing `agwiki.toml` and `content/`.
    pub wiki_root: String,
    /// Validate and report planned writes without modifying files.
    pub dry_run: bool,
}

/// Result summary from a compile or source validation run.
pub struct CompileReport {
    /// Number of entity source files successfully compiled.
    pub entities_compiled: usize,
    /// Number of pass-through content pages copied to `wiki/`.
    pub pages_copied: usize,
    /// Validation or configuration errors collected during the run.
    pub errors: Vec<CompileError>,
    /// Non-fatal warnings collected during the run.
    pub warnings: Vec<String>,
}

/// A generated page to write.
pub struct PlannedPage {
    pub path: String,
    pub content: String,
}

/// Everything a compile decides before writing: the report, the generated
/// pages and the catalog for `wiki/index.md` (absent when errors stop the run).
pub struct CompilePlan {
    pub report: CompileReport,
    pub pages: Vec<PlannedPage>,
    pub catalog: Option<String>,
}

/// Every error of a compile, in the order the checks meet them: per-file
/// checks in path order, then duplicate ids, then relations.
pub open spec fn all_errors(layout: CompileLayout, files: Seq<SourceFile>) -> Seq<CompileErrorV> {
    let (e1, ents) = scanned(layout, files);
    e1 + dup_errors(ents, ents.len() as int) + rel_errors(
        ents,
        string_views(layout.relation_types@),
        ents.len() as int,
    )
}

pub open spec fn page_views(ps: Seq<PlannedPage>) -> Seq<(Seq<char>, Seq<char>)> {
    ps.map_values(|p: PlannedPage| (p.path@, p.content@))
}

/// The pages planned for the entities: path and content of each, in entity order.
pub open spec fn planned_pages(wiki_dir: Seq<char>, ents: Seq<EntityV>) -> Seq<(Seq<char>, Seq<char>)> {
    Seq::new(
        ents.len(),
        |i: int| (page_path(wiki_dir, ents[i], final_slug(ents, i)), page_content(ents[i])),
    )
}

/// Validate the sources and plan the generated wiki.
pub fn plan_compile(layout: &CompileLayout, files: &Vec<SourceFile>) -> (r: CompilePlan)
    ensures
        error_views(r.report.errors@) == all_errors(*layout, files@),
        r.report.pages_copied == 0,
        all_errors(*layout, files@).len() > 0 ==> r.report.entities_compiled == 0 && r.pages@.len()
            == 0 && r.catalog is None && r.report.warnings@.len() == 0,
        all_errors(*layout, files@).len() == 0 ==> {
            let ents = scanned(*layout, files@).1;
            &&& r.report.entities_compiled == ents.len()
            &&& string_views(r.report.warnings@) == collision_warnings(ents, ents.len() as int)
            &&& page_views(r.pages@) == planned_pages(layout.wiki_dir@, ents)
            &&& r.catalog matches Some(c) && c@ == catalog_text(
                ents,
                string_views(layout.kinds@),
                final_slugs(ents),
            )
        },
{
    let (mut errors, ents) = scan_exec(layout, files);
    dup_errors_exec(&ents, &mut errors);
    rel_errors_exec(&ents, &layout.relation_types, &mut errors);
    let ghost es = entity_views(ents@);
    if errors.len() > 0 {
        return CompilePlan {
            report: CompileReport { entities_compiled: 0, pages_copied: 0, errors, warnings: Vec::new() },
            pages: Vec::new(),
            catalog: None,
        };
    }
    let bases = base_slugs(&ents);
    let mut paths: Vec<Vec<char>> = Vec::new();
    let mut i: usize = 0;
    while i < ents.len()
        invariant
            i <= ents.len(),
            paths@.len() == i,
            forall|k: int| 0 <= k < paths@.len() ==> (#[trigger] paths@[k])@ == ents@[k].path@,
        decreases ents.len() - i,
    {
        paths.push(string_chars(&ents[i].path));
        i = i + 1;
    }
    let warnings = collision_warnings_exec(&ents, &bases);
    let mut slugs: Vec<Vec<char>> = Vec::new();
    let mut pages: Vec<PlannedPage> = Vec::new();
    let mut i: usize = 0;
    while i < ents.len()
        invariant
            i <= ents.len(),
            es == entity_views(ents@),
            bases@.len() == ents@.len(),
            paths@.len() == ents@.len(),
            forall|k: int| 0 <= k < bases@.len() ==> (#[trigger] bases@[k])@ == slug_of(ents@[k].title@),
            forall|k: int| 0 <= k < paths@.len() ==> (#[trigger] paths@[k])@ == ents@[k].path@,
            slugs@.len() == i,
            forall|k: int| 0 <= k < i ==> (#[trigger] slugs@[k])@ == final_slug(es, k),
            page_views(pages@) == planned_pages(layout.wiki_dir@, es).take(i as int),
        decreases ents.len() - i,
    {
        let slug = slug_of_entity(&ents, &bases, &paths, i);
        let mut p = to_chars(layout.wiki_dir.as_str());
        push_str(&mut p, "/");
        push_str(&mut p, ents[i].kind.as_str());
        push_str(&mut p, "/");
        append_chars(&mut p, &slug);
        push_str(&mut p, ".md");
        let content = page_content_exec(&ents[i]);
        let page = PlannedPage { path: from_chars(&p), content };
        let ghost old = page_views(pages@);
        pages.push(page);
        assert(page_views(pages@) =~= old.push((p@, content@)));
        assert(planned_pages(layout.wiki_dir@, es).take(i + 1) =~= planned_pages(
            layout.wiki_dir@,
            es,
        ).take(i as int).push((p@, content@)));
        slugs.push(slug);
        i = i + 1;
    }
    assert(planned_pages(layout.wiki_dir@, es).take(ents.len() as int) =~= planned_pages(
        layout.wiki_dir@,
        es,
    ));
    assert(views(slugs@) =~= final_slugs(es));
    let catalog = render_catalog(&ents, &layout.kinds, &slugs);
    let n = ents.len();
    CompilePlan {
        report: CompileReport { entities_compiled: n, pages_copied: 0, errors, warnings },
        pages,
        catalog: Some(catalog),
    }
}

/// The navigation pages copied as they are from `content/pages/` into the
/// generated wiki.
pub open spec fn pass_through(content_dir: Seq<char>, wiki_dir: Seq<char>) -> Seq<(Seq<char>, Seq<char>)> {
    seq![
        (content_dir + "/pages/index.md"@, wiki_dir + "/index.md"@),
        (content_dir + "/pages/inbox.md"@, wiki_dir + "/inbox.md"@),
        (content_dir + "/pages/log.md"@, wiki_dir + "/log.md"@),
    ]
}

fn page_pair(content_dir: &str, wiki_dir: &str, name: &str) -> (r: (String, String))
    ensures
        r.0@ == content_dir@ + "/pages/"@ + name@ + ".md"@,
        r.1@ == wiki_dir@ + "/"@ + name@ + ".md"@,
{
    let mut from = lit(content_dir);
    push_str(&mut from, "/pages/");
    push_str(&mut from, name);
    push_str(&mut from, ".md");
    let mut to = lit(wiki_dir);
    push_str(&mut to, "/");
    push_str(&mut to, name);
    push_str(&mut to, ".md");
    (from_chars(&from), from_chars(&to))
}

/// The pass-through pages as (source, destination) pairs (see
/// [`pass_through`]); a pair is copied when its source file exists.
pub fn pass_through_pages(content_dir: &str, wiki_dir: &str) -> (r: Vec<(String, String)>)
    ensures
        r@.map_values(|p: (String, String)| (p.0@, p.1@)) == pass_through(content_dir@, wiki_dir@),
{
    let mut r: Vec<(String, String)> = Vec::new();
    r.push(page_pair(content_dir, wiki_dir, "index"));
    r.push(page_pair(content_dir, wiki_dir, "inbox"));
    r.push(page_pair(content_dir, wiki_dir, "log"));
    proof {
        reveal_strlit("index");
        reveal_strlit("inbox");
        reveal_strlit("log");
        reveal_strlit("/pages/");
        reveal_strlit("/");
        reveal_strlit(".md");
        reveal_strlit("/pages/index.md");
        reveal_strlit("/pages/inbox.md");
        reveal_strlit("/pages/log.md");
        reveal_strlit("/index.md");
        reveal_strlit("/inbox.md");
        reveal_strlit("/log.md");
        assert(r@[0].0@ =~= content_dir@ + "/pages/index.md"@);
        assert(r@[0].1@ =~= wiki_dir@ + "/index.md"@);
        assert(r@[1].0@ =~= content_dir@ + "/pages/inbox.md"@);
        assert(r@[1].1@ =~= wiki_dir@ + "/inbox.md"@);
        assert(r@[2].0@ =~= content_dir@ + "/pages/log.md"@);
        assert(r@[2].1@ =~= wiki_dir@ + "/log.md"@);
        assert(r@.map_values(|p: (String, String)| (p.0@, p.1@)) =~= pass_through(
            content_dir@,
            wiki_dir@,
        ));
    }
    r
}

// ---------------------------------------------------------------------------
// Loading `agwiki.toml`
// ---------------------------------------------------------------------------

/// Accept the wiki's `agwiki.toml` at `config_path`: `loaded` is `None`
/// when the file is missing, else what parsing it gave (the parser's message
/// on failure). Only schema version 2 is accepted.
pub fn load_config(config_path: &str, loaded: Option<Result<AgwikiConfig, String>>) -> (r: Result<
    AgwikiConfig,
    CompileError,
>)
    ensures
        match r {
            Ok(c) => loaded matches Some(Ok(c0)) && c == c0 && c.version == 2,
            Err(e) => match loaded {
                None => e@ == CompileErrorV::ConfigMissing { path: config_path@ },
                Some(Err(m)) => e@ == CompileErrorV::ConfigParse { message: m@ },
                Some(Ok(c0)) => c0.version != 2 && e@ == CompileErrorV::LegacyConfig { version: c0.version },
            },
        },
{
    match loaded {
        None => Err(CompileError::ConfigMissing { path: from_chars(&lit(config_path)) }),
        Some(Err(m)) => Err(CompileError::ConfigParse { message: m }),
        Some(Ok(c)) => if c.version != 2 {
            Err(CompileError::LegacyConfig { version: c.version })
        } else {
            Ok(c)
        },
    }
}

// ---------------------------------------------------------------------------
// New entity sources
// ---------------------------------------------------------------------------

/// A character of Crockford's base32 alphabet, which ULIDs are written in.
pub open spec fn crockford(c: char) -> bool {
    ('0' <= c && c <= '9') || ('A' <= c && c <= 'Z' && c != 'I' && c != 'L' && c != 'O' && c != 'U')
}

/// ulid's `Ulid::new().to_string()`: a fresh identifier of 26 characters of
/// Crockford's base32 alphabet. Which one depends on the clock and on
/// randomness, so nothing more is said of it.
#[verifier::external_body]
fn new_ulid() -> (r: String)
    ensures
        r@.len() == 26,
        forall|i: int| 0 <= i < 26 ==> crockford(#[trigger] r@[i]),
{
    ulid::Ulid::new().to_string()
}

/// A new entity source: where to write it and what.
#[derive(Debug)]
pub struct NewEntity {
    pub path: String,
    pub content: String,
}

/// The text of a new entity source with id `id` and title `title`.
pub open spec fn new_entity_text(id: Seq<char>, title: Seq<char>) -> Seq<char> {
    "---\nid: \""@ + id + "\"\ntitle: \""@ + title + "\"\nschema_version: 1\n---\n\n# "@ + title + "\n\n"@
}

/// Where a new entity of `kind` with id `id` is written:
/// `<wiki_root>/<content_root>/<kind>/<id>.md`.
pub open spec fn new_entity_path(wiki_root: Seq<char>, content_root: Seq<char>, kind: Seq<char>, id: Seq<char>) -> Seq<char> {
    path_join(path_join(path_join(wiki_root, content_root), kind), id + ".md"@)
}

/// The new entity source of `kind` with id `id`: refused (E010) when the
/// kind is not one of the configured kinds; the title defaults to
/// `Untitled`.
pub fn new_entity(config: &AgwikiConfig, wiki_root: &str, kind: &str, title: Option<&str>, id: &str) -> (r: Result<
    NewEntity,
    CompileError,
>)
    ensures
        match r {
            Ok(e) => {
                &&& string_views(config.ontology.kinds@).contains(kind@)
                &&& e.path@ == new_entity_path(wiki_root@, config.content_root@, kind@, id@)
                &&& e.content@ == new_entity_text(
                    id@,
                    match title {
                        Some(t) => t@,
                        None => "Untitled"@,
                    },
                )
            },
            Err(err) => !string_views(config.ontology.kinds@).contains(kind@) && err@
                == CompileErrorV::InvalidKindArg { kind: kind@, allowed: string_views(config.ontology.kinds@) },
        },
{
    let kinds = strings_chars(&config.ontology.kinds);
    if !list_has(&kinds, &lit(kind)) {
        let mut allowed: Vec<String> = Vec::new();
        let mut i: usize = 0;
        while i < config.ontology.kinds.len()
            invariant
                i <= config.ontology.kinds@.len(),
                string_views(allowed@) == string_views(config.ontology.kinds@).take(i as int),
            decreases config.ontology.kinds.len() - i,
        {
            let ghost old_seq = allowed@;
            let x = config.ontology.kinds[i].clone();
            allowed.push(x);
            assert(allowed@ == old_seq.push(x));
            assert(string_views(allowed@) =~= string_views(old_seq).push(x@));
            assert(string_views(config.ontology.kinds@).take(i + 1) =~= string_views(config.ontology.kinds@).take(
                i as int,
            ).push(config.ontology.kinds@[i as int]@));
            i = i + 1;
        }
        assert(string_views(config.ontology.kinds@).take(config.ontology.kinds@.len() as int)
            =~= string_views(config.ontology.kinds@));
        return Err(CompileError::InvalidKindArg { kind: from_chars(&lit(kind)), allowed });
    }
    let t = match title {
        Some(t) => lit(t),
        None => lit("Untitled"),
    };
    let root = join_path(wiki_root, config.content_root.as_str());
    let dir = join_path(root.as_str(), kind);
    let mut name = lit(id);
    push_str(&mut name, ".md");
    let path = join_path(dir.as_str(), from_chars(&name).as_str());
    let mut c = lit("---\nid: \"");
    push_str(&mut c, id);
    push_str(&mut c, "\"\ntitle: \"");
    append_chars(&mut c, &t);
    push_str(&mut c, "\"\nschema_version: 1\n---\n\n# ");
    append_chars(&mut c, &t);
    push_str(&mut c, "\n\n");
    Ok(NewEntity { path, content: from_chars(&c) })
}

/// Create a new entity source of `kind` under a fresh ULID (see
/// [`new_entity`]).
pub fn run_new(config: &AgwikiConfig, wiki_root: &str, kind: &str, title: Option<&str>) -> (r: Result<
    NewEntity,
    CompileError,
>)
    ensures
        match r {
            Ok(e) => string_views(config.ontology.kinds@).contains(kind@) && exists|id: Seq<char>|
                id.len() == 26 && (forall|i: int| 0 <= i < 26 ==> crockford(#[trigger] id[i])) && e.path@ == new_entity_path(wiki_root@, config.content_root@, kind@, id)
                    && e.content@ == new_entity_text(
                    id,
                    match title {
                        Some(t) => t@,
                        None => "Untitled"@,
                    },
                ),
            Err(err) => !string_views(config.ontology.kinds@).contains(kind@) && err@
                == CompileErrorV::InvalidKindArg { kind: kind@, allowed: string_views(config.ontology.kinds@) },
        },
{
    let id = new_ulid();
    new_entity(config, wiki_root, kind, title, id.as_str())
}

// ---------------------------------------------------------------------------
// Static HTML export
// ---------------------------------------------------------------------------

/// One page of the static HTML export.
#[derive(Debug)]
pub struct HtmlPage {
    /// The markdown source, relative to `wiki/`.
    pub md_rel: String,
    /// The HTML file, relative to the output directory.
    pub html_rel: String,
    /// The page title: the file stem.
    pub title: String,
}

/// `rel` with the extension of its file name replaced by `html`
/// (`Path::with_extension`).
pub open spec fn html_rel_of(rel: Seq<char>) -> Seq<char> {
    let parts = path_parts(rel);
    if parts.len() == 0 || parts.last() == seq!['.', '.'] {
        rel
    } else {
        join(parts.drop_last().push(stem_of_name(parts.last()) + ".html"@), "/"@)
    }
}

/// The title of an exported page: the stem of its file name, or `page`.
pub open spec fn html_title_of(rel: Seq<char>) -> Seq<char> {
    let parts = path_parts(rel);
    if parts.len() == 0 || parts.last() == seq!['.', '.'] {
        "page"@
    } else {
        stem_of_name(parts.last())
    }
}

fn stem_exec(name: &Vec<char>) -> (r: Vec<char>)
    ensures
        r@ == stem_of_name(name@),
{
    proof {
        lemma_last_before(name@, '.', name@.len() as int);
    }
    match last_index_of(name, '.') {
        Some(k) => if k > 0 {
            slice_chars(name, 0, k)
        } else {
            slice_chars(name, 0, name.len())
        },
        None => slice_chars(name, 0, name.len()),
    }
}

fn html_page_of(rel: &String) -> (p: HtmlPage)
    ensures
        p.md_rel@ == rel@,
        p.html_rel@ == html_rel_of(rel@),
        p.title@ == html_title_of(rel@),
{
    let parts = path_parts_exec(&string_chars(rel));
    if parts.len() == 0 {
        return HtmlPage { md_rel: rel.clone(), html_rel: rel.clone(), title: from_chars(&lit("page")) };
    }
    let last = &parts[parts.len() - 1];
    assert(views(parts@).last() == last@);
    if last.len() == 2 && last[0] == '.' && last[1] == '.' {
        assert(last@ =~= seq!['.', '.']);
        return HtmlPage { md_rel: rel.clone(), html_rel: rel.clone(), title: from_chars(&lit("page")) };
    }
    proof {
        if last@ == seq!['.', '.'] {
            assert(last@[0] == '.' && last@[1] == '.');
        }
    }
    let stem = stem_exec(last);
    let mut name = stem.clone();
    push_str(&mut name, ".html");
    let mut ps: Vec<Vec<char>> = Vec::new();
    let mut i: usize = 0;
    while i + 1 < parts.len()
        invariant
            i + 1 <= parts.len(),
            views(ps@) == views(parts@).take(i as int),
        decreases parts.len() - i,
    {
        let ghost old_seq = ps@;
        let x = parts[i].clone();
        ps.push(x);
        assert(ps@ == old_seq.push(x));
        assert(views(ps@) =~= views(old_seq).push(x@));
        assert(views(parts@).take(i + 1) =~= views(parts@).take(i as int).push(parts@[i as int]@));
        i = i + 1;
    }
    assert(views(parts@).take(i as int) =~= views(parts@).drop_last());
    let ghost before = ps@;
    ps.push(name);
    assert(ps@ == before.push(name));
    assert(views(ps@) =~= views(parts@).drop_last().push(stem@ + ".html"@));
    let sep = lit("/");
    let h = join_chars(&ps, &sep);
    HtmlPage { md_rel: rel.clone(), html_rel: from_chars(&h), title: from_chars(&stem) }
}

/// The exported pages for the markdown files under `wiki/` (paths
/// relative to it), in path order (component by component).
pub fn export_html_pages(md_rels: &Vec<String>) -> (r: Vec<HtmlPage>)
    ensures
        r@.len() == md_rels@.len(),
        forall|k: int| 0 <= k < r@.len() ==> {
            let i = sorted_order(string_views(md_rels@).map_values(|p: Seq<char>| component_key(p)))[k] as int;
            &&& (#[trigger] r@[k]).md_rel@ == md_rels@[i]@
            &&& r@[k].html_rel@ == html_rel_of(md_rels@[i]@)
            &&& r@[k].title@ == html_title_of(md_rels@[i]@)
        },
{
    let ghost keys = string_views(md_rels@).map_values(|p: Seq<char>| component_key(p));
    let mut ks: Vec<Vec<char>> = Vec::new();
    let mut i: usize = 0;
    while i < md_rels.len()
        invariant
            i <= md_rels.len(),
            keys == string_views(md_rels@).map_values(|p: Seq<char>| component_key(p)),
            views(ks@) == keys.take(i as int),
        decreases md_rels.len() - i,
    {
        let c = string_chars(&md_rels[i]);
        let mut k: Vec<char> = Vec::new();
        let mut j: usize = 0;
        while j < c.len()
            invariant
                j <= c.len(),
                k@ == c@.take(j as int).map_values(|ch: char| if ch == '/' { '\u{0}' } else { ch }),
            decreases c.len() - j,
        {
            let ch = if c[j] == '/' { '\u{0}' } else { c[j] };
            k.push(ch);
            assert(c@.take(j + 1).map_values(|ch: char| if ch == '/' { '\u{0}' } else { ch }) =~= c@.take(
                j as int,
            ).map_values(|ch: char| if ch == '/' { '\u{0}' } else { ch }).push(ch));
            j = j + 1;
        }
        assert(c@.take(c.len() as int) =~= c@);
        let ghost old_seq = ks@;
        ks.push(k);
        assert(ks@ == old_seq.push(k));
        assert(views(ks@) =~= views(old_seq).push(component_key(md_rels@[i as int]@)));
        assert(keys.take(i + 1) =~= keys.take(i as int).push(keys[i as int]));
        i = i + 1;
    }
    assert(keys.take(md_rels.len() as int) =~= keys);
    let order = sort_indices(&ks);
    proof {
        crate::order::lemma_sort_idx_perm_len(keys, keys.len());
    }
    let mut out: Vec<HtmlPage> = Vec::new();
    let mut t: usize = 0;
    while t < order.len()
        invariant
            t <= order.len(),
            order@ == sorted_order(keys),
            order@.len() == md_rels@.len(),
            keys == string_views(md_rels@).map_values(|p: Seq<char>| component_key(p)),
            forall|q: int| 0 <= q < order@.len() ==> (#[trigger] order@[q]) < md_rels@.len(),
            out@.len() == t,
            forall|k: int| 0 <= k < t ==> {
                let i = sorted_order(keys)[k] as int;
                &&& (#[trigger] out@[k]).md_rel@ == md_rels@[i]@
                &&& out@[k].html_rel@ == html_rel_of(md_rels@[i]@)
                &&& out@[k].title@ == html_title_of(md_rels@[i]@)
            },
        decreases order.len() - t,
    {
        let p = html_page_of(&md_rels[order[t]]);
        out.push(p);
        t = t + 1;
    }
    out
}

/// The HTML document of an exported page.
pub open spec fn html_document_text(title: Seq<char>, body: Seq<char>) -> Seq<char> {
    "<!DOCTYPE html><html><head><meta charset=\"utf-8\"><title>"@ + title + "</title></head><body>"@ + body
        + "</body></html>"@
}

/// The HTML document of an exported page with `title` and HTML `body`.
pub fn html_document(title: &str, body: &str) -> (r: String)
    ensures
        r@ == html_document_text(title@, body@),
{
    let mut v = lit("<!DOCTYPE html><html><head><meta charset=\"utf-8\"><title>");
    push_str(&mut v, title);
    push_str(&mut v, "</title></head><body>");
    push_str(&mut v, body);
    push_str(&mut v, "</body></html>");
    from_chars(&v)
}

/// The link to an exported page in the export's `index.html`.
pub open spec fn html_link_text(p: HtmlPage) -> Seq<char> {
    "<li><a href=\""@ + p.html_rel@ + "\">"@ + p.title@ + "</a></li>"@
}

/// The export's `index.html`: one link per page, in order.
pub fn html_index(pages: &Vec<HtmlPage>) -> (r: String)
    ensures
        r@ == "<!DOCTYPE html><html><head><meta charset=\"utf-8\"><title>Wiki</title></head><body><h1>Wiki</h1><ul>"@
            + join(pages@.map_values(|p: HtmlPage| html_link_text(p)), "\n"@) + "</ul></body></html>"@,
{
    let ghost ls = pages@.map_values(|p: HtmlPage| html_link_text(p));
    let mut links: Vec<Vec<char>> = Vec::new();
    let mut i: usize = 0;
    while i < pages.len()
        invariant
            i <= pages.len(),
            ls == pages@.map_values(|p: HtmlPage| html_link_text(p)),
            views(links@) == ls.take(i as int),
        decreases pages.len() - i,
    {
        let mut l = lit("<li><a href=\"");
        push_str(&mut l, pages[i].html_rel.as_str());
        push_str(&mut l, "\">");
        push_str(&mut l, pages[i].title.as_str());
        push_str(&mut l, "</a></li>");
        let ghost old_seq = links@;
        links.push(l);
        assert(links@ == old_seq.push(l));
        assert(views(links@) =~= views(old_seq).push(l@));
        assert(ls[i as int] == html_link_text(pages@[i as int]));
        assert(ls.take(i + 1) =~= ls.take(i as int).push(ls[i as int]));
        i = i + 1;
    }
    assert(ls.take(pages.len() as int) =~= ls);
    let mut v = lit("<!DOCTYPE html><html><head><meta charset=\"utf-8\"><title>Wiki</title></head><body><h1>Wiki</h1><ul>");
    append_chars(&mut v, &join_chars(&links, &lit("\n")));
    push_str(&mut v, "</ul></body></html>");
    from_chars(&v)
}

/// The error when there is no generated `wiki/` to export (E015).
pub fn missing_wiki_message(wiki_root: &str) -> (r: String)
    ensures
        r@ == "E015: wiki/ directory does not exist at "@ + wiki_root@ + "; run `agwiki compile` first"@,
{
    let mut v = lit("E015: wiki/ directory does not exist at ");
    push_str(&mut v, wiki_root);
    push_str(&mut v, "; run `agwiki compile` first");
    from_chars(&v)
}

// ---------------------------------------------------------------------------
// Relation-type checks
// ---------------------------------------------------------------------------

/// An error is a disallowed-relation-type error.
pub open spec fn is_rel_type_error(e: CompileErrorV) -> bool {
    e is DisallowedRelationType
}

proof fn lemma_scan_no_rel_type_errors(
    content_dir: Seq<char>,
    kinds: Seq<Seq<char>>,
    srcs: Seq<(Seq<char>, Result<(FrontMatterV, Seq<char>), Seq<char>>)>,
    order: Seq<usize>,
    n: int,
)
    ensures
        forall|i: int|
            0 <= i < scan_sources(content_dir, kinds, srcs, order, n).0.len() ==> !is_rel_type_error(
                #[trigger] scan_sources(content_dir, kinds, srcs, order, n).0[i],
            ),
    decreases n,
{
    if n > 0 {
        lemma_scan_no_rel_type_errors(content_dir, kinds, srcs, order, n - 1);
        let prev = scan_sources(content_dir, kinds, srcs, order, n - 1);
        let all = scan_sources(content_dir, kinds, srcs, order, n);
        let f = srcs[order[n - 1] as int];
        assert forall|i: int| 0 <= i < all.0.len() implies !is_rel_type_error(#[trigger] all.0[i]) by {
            if i < prev.0.len() {
                assert(all.0[i] == prev.0[i]);
            } else {
                let c = check_source(content_dir, kinds, f.0, f.1);
                assert(c matches Some(Err(e)) && all.0[i] == e);
            }
        }
    }
}

proof fn lemma_dup_no_rel_type_errors(ents: Seq<EntityV>, n: int)
    ensures
        forall|i: int| 0 <= i < dup_errors(ents, n).len() ==> !is_rel_type_error(#[trigger] dup_errors(ents, n)[i]),
    decreases n,
{
    if n > 0 {
        lemma_dup_no_rel_type_errors(ents, n - 1);
        let prev = dup_errors(ents, n - 1);
        let all = dup_errors(ents, n);
        assert forall|i: int| 0 <= i < all.len() implies !is_rel_type_error(#[trigger] all[i]) by {
            if i < prev.len() {
                assert(all[i] == prev[i]);
            }
        }
    }
}

/// A relation-type error only ever names a type missing from a non-empty
/// allow-list, and carries that list.
pub open spec fn rel_type_error_ok(e: CompileErrorV, rtypes: Seq<Seq<char>>) -> bool {
    e matches CompileErrorV::DisallowedRelationType { rel, allowed, .. } ==> allowed == rtypes && rtypes.len() > 0
        && !rtypes.contains(rel)
}

proof fn lemma_rel_errors_of_ok(ents: Seq<EntityV>, rtypes: Seq<Seq<char>>, e: EntityV, m: int)
    ensures
        forall|i: int|
            0 <= i < rel_errors_of(ents, rtypes, e, m).len() ==> rel_type_error_ok(
                #[trigger] rel_errors_of(ents, rtypes, e, m)[i],
                rtypes,
            ),
    decreases m,
{
    if m > 0 {
        lemma_rel_errors_of_ok(ents, rtypes, e, m - 1);
        let prev = rel_errors_of(ents, rtypes, e, m - 1);
        let all = rel_errors_of(ents, rtypes, e, m);
        let r = e.relations[m - 1];
        assert forall|i: int| 0 <= i < all.len() implies rel_type_error_ok(#[trigger] all[i], rtypes) by {
            if i < prev.len() {
                assert(all[i] == prev[i]);
            }
        }
    }
}

proof fn lemma_rel_errors_ok(ents: Seq<EntityV>, rtypes: Seq<Seq<char>>, n: int)
    ensures
        forall|i: int|
            0 <= i < rel_errors(ents, rtypes, n).len() ==> rel_type_error_ok(
                #[trigger] rel_errors(ents, rtypes, n)[i],
                rtypes,
            ),
    decreases n,
{
    if n > 0 {
        lemma_rel_errors_ok(ents, rtypes, n - 1);
        let prev = rel_errors(ents, rtypes, n - 1);
        let e = ents[n - 1];
        let m = e.relations.len() as int;
        lemma_rel_errors_of_ok(ents, rtypes, e, m);
        let more = rel_errors_of(ents, rtypes, e, m);
        let all = rel_errors(ents, rtypes, n);
        assert forall|i: int| 0 <= i < all.len() implies rel_type_error_ok(#[trigger] all[i], rtypes) by {
            if i < prev.len() {
                assert(all[i] == prev[i]);
            } else {
                assert(all[i] == more[i - prev.len()]);
            }
        }
    }
}

/// Relation types are checked only against a configured allow-list: every
/// disallowed-relation-type error that compiling reports names a type that
/// the layout's non-empty `relation_types` lacks. So with no allow-list
/// configured, compiling reports no relation-type error at all: any
/// relation type is accepted.
pub proof fn law_relation_types_checked_only_against_allow_list(layout: CompileLayout, files: Seq<SourceFile>)
    ensures
        forall|i: int|
            0 <= i < all_errors(layout, files).len() ==> rel_type_error_ok(
                #[trigger] all_errors(layout, files)[i],
                string_views(layout.relation_types@),
            ),
        layout.relation_types@.len() == 0 ==> forall|i: int|
            0 <= i < all_errors(layout, files).len() ==> !is_rel_type_error(#[trigger] all_errors(layout, files)[i]),
{
    let (e1, ents) = scanned(layout, files);
    let rt = string_views(layout.relation_types@);
    lemma_scan_no_rel_type_errors(
        layout.content_dir@,
        string_views(layout.kinds@),
        source_views(files),
        source_order(files),
        files.len() as int,
    );
    lemma_dup_no_rel_type_errors(ents, ents.len() as int);
    lemma_rel_errors_ok(ents, rt, ents.len() as int);
    let d = dup_errors(ents, ents.len() as int);
    let r = rel_errors(ents, rt, ents.len() as int);
    let all = all_errors(layout, files);
    assert(all == e1 + d + r);
    assert forall|i: int| 0 <= i < all.len() implies rel_type_error_ok(#[trigger] all[i], rt) by {
        if i < e1.len() {
            assert(all[i] == e1[i]);
            assert(!is_rel_type_error(e1[i]));
        } else if i < e1.len() + d.len() {
            assert(all[i] == d[i - e1.len()]);
            assert(!is_rel_type_error(d[i - e1.len()]));
        } else {
            assert(all[i] == r[i - e1.len() - d.len()]);
        }
    }
    if layout.relation_types@.len() == 0 {
        assert(rt.len() == 0);
        assert forall|i: int| 0 <= i < all.len() implies !is_rel_type_error(#[trigger] all[i]) by {
            assert(rel_type_error_ok(all[i], rt));
        }
    }
}

proof fn lemma_rel_errors_of_has(ents: Seq<EntityV>, rtypes: Seq<Seq<char>>, e: EntityV, mm: int, m: int)
    requires
        0 <= m < mm,
        rtypes.len() > 0,
        !rtypes.contains(e.relations[m].1),
    ensures
        rel_errors_of(ents, rtypes, e, mm).contains(
            CompileErrorV::DisallowedRelationType { source_path: e.path, rel: e.relations[m].1, allowed: rtypes },
        ),
    decreases mm,
{
    let err = CompileErrorV::DisallowedRelationType { source_path: e.path, rel: e.relations[m].1, allowed: rtypes };
    let all = rel_errors_of(ents, rtypes, e, mm);
    if m == mm - 1 {
        assert(all[all.len() - 1] == err);
    } else {
        lemma_rel_errors_of_has(ents, rtypes, e, mm - 1, m);
        let prev = rel_errors_of(ents, rtypes, e, mm - 1);
        let j = choose|j: int| 0 <= j < prev.len() && prev[j] == err;
        assert(prev.is_prefix_of(all) || all == prev);
        assert(all[j] == err);
    }
}

proof fn lemma_rel_errors_has(ents: Seq<EntityV>, rtypes: Seq<Seq<char>>, n: int, k: int, err: CompileErrorV)
    requires
        0 <= k < n,
        rel_errors_of(ents, rtypes, ents[k], ents[k].relations.len() as int).contains(err),
    ensures
        rel_errors(ents, rtypes, n).contains(err),
    decreases n,
{
    let all = rel_errors(ents, rtypes, n);
    let prev = rel_errors(ents, rtypes, n - 1);
    if k == n - 1 {
        let more = rel_errors_of(ents, rtypes, ents[k], ents[k].relations.len() as int);
        let j = choose|j: int| 0 <= j < more.len() && more[j] == err;
        assert(all[prev.len() + j] == err);
    } else {
        lemma_rel_errors_has(ents, rtypes, n - 1, k, err);
        let j = choose|j: int| 0 <= j < prev.len() && prev[j] == err;
        assert(all[j] == err);
    }
}

/// With an allow-list configured, every relation whose type the list lacks
/// is reported, against the entity that holds it.
pub proof fn law_disallowed_relation_types_are_reported(layout: CompileLayout, files: Seq<SourceFile>, k: int, m: int)
    requires
        0 <= k < scanned(layout, files).1.len(),
        0 <= m < scanned(layout, files).1[k].relations.len(),
        layout.relation_types@.len() > 0,
        !string_views(layout.relation_types@).contains(scanned(layout, files).1[k].relations[m].1),
    ensures
        all_errors(layout, files).contains(
            CompileErrorV::DisallowedRelationType {
                source_path: scanned(layout, files).1[k].path,
                rel: scanned(layout, files).1[k].relations[m].1,
                allowed: string_views(layout.relation_types@),
            },
        ),
{
    let (e1, ents) = scanned(layout, files);
    let rt = string_views(layout.relation_types@);
    let e = ents[k];
    let err = CompileErrorV::DisallowedRelationType { source_path: e.path, rel: e.relations[m].1, allowed: rt };
    lemma_rel_errors_of_has(ents, rt, e, e.relations.len() as int, m);
    lemma_rel_errors_has(ents, rt, ents.len() as int, k, err);
    let d = dup_errors(ents, ents.len() as int);
    let r = rel_errors(ents, rt, ents.len() as int);
    let all = all_errors(layout, files);
    assert(all == e1 + d + r);
    let j = choose|j: int| 0 <= j < r.len() && r[j] == err;
    assert(all[e1.len() + d.len() + j] == err);
}

} // verus!
