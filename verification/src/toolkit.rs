//! The ingest prompt: where its template lives and how its placeholders are
//! filled; and the check on a source given to `prep`.

use vstd::prelude::*;
use crate::text::{contains, find_chars, from_chars, lemma_find_from, lit, replace_all, replace_chars, string_chars, push_str, last_before, last_index_of, lemma_last_before};
use crate::paths::{path_join, join_path, path_starts_with, is_absolute, path_parts, path_parts_exec, parts_prefix};

verus! {

/// The default ingest template inside a toolkit: `<toolkit>/prompts/ingest.md`.
pub fn default_prompt_path(toolkit: &str) -> (r: String)
    ensures
        r@ == path_join(path_join(toolkit@, "prompts"@), "ingest.md"@),
{
    let p = join_path(toolkit, "prompts");
    join_path(p.as_str(), "ingest.md")
}

/// The placeholder replaced by the toolkit's `AGENTS.md`.
pub const AGENTS_MD_PLACEHOLDER: &'static str = "{{WIKIFY_AGENTS_MD}}";

/// Whether a template needs the toolkit's `AGENTS.md`.
pub fn needs_agents_md(template: &str) -> (b: bool)
    ensures
        b == contains(template@, AGENTS_MD_PLACEHOLDER@),
{
    let t = lit(template);
    let p = lit(AGENTS_MD_PLACEHOLDER);
    proof {
        lemma_find_from(t@, p@, 0);
    }
    find_chars(&t, &p, 0).is_some()
}

/// The prompt for one ingest: `{{WIKIFY_AGENTS_MD}}` replaced by the
/// toolkit's `AGENTS.md` (when the template uses it), then
/// `{{INGEST_PATH}}`, `{{WIKI_ROOT}}` and `{{WIKIFY_ROOT}}` by the source,
/// the wiki root and the toolkit.
pub open spec fn expanded_prompt(template: Seq<char>, agents_md: Seq<char>, toolkit: Seq<char>, wiki_root: Seq<char>, ingest_path: Seq<char>) -> Seq<char> {
    let t0 = if contains(template, AGENTS_MD_PLACEHOLDER@) {
        replace_all(template, AGENTS_MD_PLACEHOLDER@, agents_md)
    } else {
        template
    };
    let t1 = replace_all(t0, "{{INGEST_PATH}}"@, ingest_path);
    let t2 = replace_all(t1, "{{WIKI_ROOT}}"@, wiki_root);
    replace_all(t2, "{{WIKIFY_ROOT}}"@, toolkit)
}

/// Fill the placeholders of an ingest template. `agents_md` is the text of
/// the toolkit's `AGENTS.md`; it is read only when [`needs_agents_md`] says
/// so, and any text may be passed otherwise.
pub fn expand_ingest_prompt(template: &str, agents_md: &str, toolkit: &str, wiki_root: &str, ingest_path: &str) -> (r: String)
    ensures
        r@ == expanded_prompt(template@, agents_md@, toolkit@, wiki_root@, ingest_path@),
{
    let mut t = lit(template);
    proof {
        reveal_strlit("{{WIKIFY_AGENTS_MD}}");
        reveal_strlit("{{INGEST_PATH}}");
        reveal_strlit("{{WIKI_ROOT}}");
        reveal_strlit("{{WIKIFY_ROOT}}");
    }
    if needs_agents_md(template) {
        t = replace_chars(&t, &lit(AGENTS_MD_PLACEHOLDER), &lit(agents_md));
    }
    let t1 = replace_chars(&t, &lit("{{INGEST_PATH}}"), &lit(ingest_path));
    let t2 = replace_chars(&t1, &lit("{{WIKI_ROOT}}"), &lit(wiki_root));
    let t3 = replace_chars(&t2, &lit("{{WIKIFY_ROOT}}"), &lit(toolkit));
    from_chars(&t3)
}

/// The ingest template of a wiki: `<wiki-root>/ingest.md`.
pub fn wiki_ingest_prompt_path(wiki_root: &str) -> (r: String)
    ensures
        r@ == path_join(wiki_root@, "ingest.md"@),
{
    join_path(wiki_root, "ingest.md")
}

/// The wiki's ingest template, which ingest requires: its path when the
/// file exists (`present`), else the error naming it.
pub fn require_wiki_ingest_prompt(wiki_root: &str, present: bool) -> (r: Result<String, String>)
    ensures
        match r {
            Ok(p) => present && p@ == path_join(wiki_root@, "ingest.md"@),
            Err(m) => !present && m@ == "ingest prompt not found: "@ + path_join(wiki_root@, "ingest.md"@),
        },
{
    let p = wiki_ingest_prompt_path(wiki_root);
    if present {
        Ok(p)
    } else {
        let mut v = lit("ingest prompt not found: ");
        push_str(&mut v, p.as_str());
        Err(from_chars(&v))
    }
}

/// The prompt for one ingest from a wiki's own template: `{{INGEST_PATH}}`
/// and `{{WIKI_ROOT}}` replaced by the source and the wiki root.
pub open spec fn wiki_prompt(template: Seq<char>, wiki_root: Seq<char>, ingest_path: Seq<char>) -> Seq<char> {
    replace_all(replace_all(template, "{{INGEST_PATH}}"@, ingest_path), "{{WIKI_ROOT}}"@, wiki_root)
}

/// Fill the placeholders of a wiki's ingest template (see [`wiki_prompt`]).
pub fn expand_wiki_ingest_prompt(template: &str, wiki_root: &str, ingest_path: &str) -> (r: String)
    ensures
        r@ == wiki_prompt(template@, wiki_root@, ingest_path@),
{
    proof {
        reveal_strlit("{{INGEST_PATH}}");
        reveal_strlit("{{WIKI_ROOT}}");
    }
    let t1 = replace_chars(&lit(template), &lit("{{INGEST_PATH}}"), &lit(ingest_path));
    let t2 = replace_chars(&t1, &lit("{{WIKI_ROOT}}"), &lit(wiki_root));
    from_chars(&t2)
}

// ---------------------------------------------------------------------------
// Preparing a source
// ---------------------------------------------------------------------------

/// The extension of a file name (`Path::extension`): the text after the
/// last `.`, unless that `.` is the first character.
pub open spec fn extension_of(name: Seq<char>) -> Option<Seq<char>> {
    let k = last_before(name, '.', name.len() as int);
    if k > 0 {
        Some(name.skip(k + 1))
    } else {
        None
    }
}

/// ASCII lowercase of a character.
pub open spec fn ascii_lower(c: char) -> char {
    if 'A' <= c && c <= 'Z' {
        ((c as u32) + 32) as char
    } else {
        c
    }
}

/// Whether a path names a markdown file: the extension of its last
/// component, ASCII-lowercased, is `md`.
pub open spec fn is_md_source(p: Seq<char>) -> bool {
    let parts = path_parts(p);
    &&& parts.len() > 0
    &&& parts.last() != seq!['.', '.']
    &&& extension_of(parts.last()) matches Some(e)
    &&& e.map_values(|c: char| ascii_lower(c)) == "md"@
}

/// Why a source was refused by `prep`.
#[derive(Debug, PartialEq, Eq)]
pub enum PrepError {
    /// The path could not be canonicalized.
    NotFound(String),
    /// The file is not a `.md` file.
    NotMarkdown(String),
    /// `--raw-only` was asked but `<wiki-root>/raw` does not exist.
    RawMissing(String),
    /// `--raw-only` was asked and the file is not under `raw/`.
    NotUnderRaw { raw: String, file: String },
}

impl PrepError {
    /// Human-readable description.
    pub fn message(&self) -> (r: String)
        ensures
            r@ == (match self {
                PrepError::NotFound(p) => "not found: "@ + p@,
                PrepError::NotMarkdown(p) => "expected .md file, got: "@ + p@,
                PrepError::RawMissing(p) => "raw/ missing under wiki root (needed for --raw-only): "@ + p@,
                PrepError::NotUnderRaw { raw, file } => "not under "@ + raw@ + ": "@ + file@,
            }),
    {
        let mut v: Vec<char> = Vec::new();
        match self {
            PrepError::NotFound(p) => {
                push_str(&mut v, "not found: ");
                push_str(&mut v, p.as_str());
            },
            PrepError::NotMarkdown(p) => {
                push_str(&mut v, "expected .md file, got: ");
                push_str(&mut v, p.as_str());
            },
            PrepError::RawMissing(p) => {
                push_str(&mut v, "raw/ missing under wiki root (needed for --raw-only): ");
                push_str(&mut v, p.as_str());
            },
            PrepError::NotUnderRaw { raw, file } => {
                push_str(&mut v, "not under ");
                push_str(&mut v, raw.as_str());
                push_str(&mut v, ": ");
                push_str(&mut v, file.as_str());
            },
        }
        from_chars(&v)
    }
}

/// Whether a path names a markdown file (see [`is_md_source`]).
pub fn is_md_source_exec(p: &Vec<char>) -> (b: bool)
    ensures
        b == is_md_source(p@),
{
    let parts = path_parts_exec(p);
    if parts.len() == 0 {
        return false;
    }
    let last = &parts[parts.len() - 1];
    assert(crate::text::views(parts@).last() == last@);
    if last.len() == 2 && last[0] == '.' && last[1] == '.' {
        assert(last@ =~= seq!['.', '.']);
        return false;
    }
    proof {
        if last@ == seq!['.', '.'] {
            assert(last@[0] == '.' && last@[1] == '.');
        }
        lemma_last_before(last@, '.', last@.len() as int);
    }
    match last_index_of(last, '.') {
        Some(k) => {
            if k == 0 {
                return false;
            }
            let n = last.len() - (k + 1);
            let ghost e = last@.skip(k + 1);
            let ghost lower = e.map_values(|c: char| ascii_lower(c));
            if n != 2 {
                assert(lower.len() != "md"@.len()) by {
                    reveal_strlit("md");
                }
                return false;
            }
            let a = last[k + 1];
            let b = last[k + 2];
            let la = if 'A' <= a && a <= 'Z' {
                ((a as u8) + 32) as char
            } else {
                a
            };
            let lb = if 'A' <= b && b <= 'Z' {
                ((b as u8) + 32) as char
            } else {
                b
            };
            proof {
                reveal_strlit("md");
                assert(lower[0] == la);
                assert(lower[1] == lb);
                if la == 'm' && lb == 'd' {
                    assert(lower =~= "md"@);
                }
            }
            la == 'm' && lb == 'd'
        },
        None => false,
    }
}

/// Check a source for `prep`: `canonical` is its canonical path (`None`
/// when canonicalizing `file` failed); it must be a `.md` file
/// (case-insensitive) and, with `raw_only`, lie under the canonical
/// `<wiki-root>/raw` (`raw_base`, `None` when that directory is missing).
pub fn prep(wiki_root: &str, file: &str, canonical: Option<String>, raw_only: bool, raw_base: Option<String>) -> (r: Result<String, PrepError>)
    ensures
        match r {
            Ok(p) => {
                &&& canonical matches Some(c) && p@ == c@ && is_md_source(c@)
                &&& raw_only ==> (raw_base matches Some(b) && path_starts_with(p@, b@))
            },
            Err(PrepError::NotFound(f)) => canonical is None && f@ == file@,
            Err(PrepError::NotMarkdown(p)) => canonical matches Some(c) && p@ == c@ && !is_md_source(c@),
            Err(PrepError::RawMissing(w)) => canonical matches Some(c) && is_md_source(c@) && raw_only
                && raw_base is None && w@ == wiki_root@,
            Err(PrepError::NotUnderRaw { raw, file: f }) => {
                &&& canonical matches Some(c) && is_md_source(c@) && f@ == c@
                &&& raw_only
                &&& raw_base matches Some(b) && !path_starts_with(f@, b@) && raw@ == b@
            },
        },
{
    let c = match canonical {
        None => return Err(PrepError::NotFound(from_chars(&lit(file)))),
        Some(c) => c,
    };
    let cc = string_chars(&c);
    if !is_md_source_exec(&cc) {
        return Err(PrepError::NotMarkdown(c));
    }
    if raw_only {
        let b = match raw_base {
            None => return Err(PrepError::RawMissing(from_chars(&lit(wiki_root)))),
            Some(b) => b,
        };
        let bc = string_chars(&b);
        let c_abs = cc.len() > 0 && cc[0] == '/';
        let b_abs = bc.len() > 0 && bc[0] == '/';
        let under = c_abs == b_abs && parts_prefix(&path_parts_exec(&cc), &path_parts_exec(&bc));
        if !under {
            return Err(PrepError::NotUnderRaw { raw: b, file: c });
        }
    }
    Ok(c)
}

} // verus!
