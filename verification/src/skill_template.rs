//! The template-based skill export: `SKILL.md` written as a template
//! followed by the generated index, over a chosen list of sections, and the
//! mirrored reference pages' wikilinks rewritten as relative markdown links.

use vstd::prelude::*;
use crate::text::{
    append_chars, ends_with, from_chars, join, join_chars, lines, lit, push_str, replace_all,
    replace_chars, slice_chars, split_chars, split_lines, split_on, starts_with, string_chars,
    string_views, trim, trim_chars, trim_end, trim_end_chars, views, contains, find_chars,
    lemma_find_from, has_char,
};
use crate::paths::{chars_eq, is_absolute, parts_prefix, path_parts, path_parts_exec, path_starts_with, path_join, join_path};
use crate::upkeep::{scan_links, wikilinks, LinkSpan};
use crate::export_skill::{file_stem, strip_md};
use crate::serve::strip_prefixes;

verus! {

// ---------------------------------------------------------------------------
// Options
// ---------------------------------------------------------------------------

/// Inputs of a template-based skill export.
#[derive(Debug)]
pub struct ExportOptions {
    /// Content wiki root (contains `wiki/`).
    pub wiki_root: String,
    /// Skill bundle root; default `<wiki-root>/skill`.
    pub skill_dir: Option<String>,
    /// Template of `SKILL.md`; default `<skill-dir>/SKILL.md.template`.
    pub template: Option<String>,
    /// `SKILL.md` to write; default `<skill-dir>/SKILL.md`.
    pub output: Option<String>,
    /// The wiki index; default `<wiki-root>/wiki/index.md`.
    pub index: Option<String>,
    /// Comma-separated top-level names under `wiki/` to mirror.
    pub sections: String,
    pub dry_run: bool,
    pub prune: bool,
    pub rewrite_wikilinks: bool,
}

/// The trimmed, non-empty names of a comma-separated list, in order.
pub open spec fn section_list(pieces: Seq<Seq<char>>) -> Seq<Seq<char>>
    decreases pieces.len(),
{
    if pieces.len() == 0 {
        seq![]
    } else {
        let prev = section_list(pieces.drop_last());
        if trim(pieces.last()).len() > 0 {
            prev.push(trim(pieces.last()))
        } else {
            prev
        }
    }
}

/// The sections named by a comma-separated list (blank names dropped).
pub fn parse_sections(sections: &str) -> (r: Vec<String>)
    ensures
        string_views(r@) == section_list(split_on(sections@, ',')),
{
    let pieces = split_chars(&lit(sections), ',');
    let ghost pv = views(pieces@);
    let mut r: Vec<String> = Vec::new();
    let mut i: usize = 0;
    while i < pieces.len()
        invariant
            i <= pieces.len(),
            pv == views(pieces@),
            pv == split_on(sections@, ','),
            string_views(r@) == section_list(pv.take(i as int)),
        decreases pieces.len() - i,
    {
        assert(pv.take(i + 1).drop_last() =~= pv.take(i as int));
        assert(pv.take(i + 1).last() == pieces@[i as int]@);
        let t = trim_chars(&pieces[i]);
        if t.len() > 0 {
            let ghost old_seq = r@;
            let x = from_chars(&t);
            r.push(x);
            assert(r@ == old_seq.push(x));
            assert(string_views(r@) =~= string_views(old_seq).push(x@));
        }
        i = i + 1;
    }
    assert(pv.take(pieces.len() as int) =~= pv);
    r
}

/// The paths an export uses, defaults filled in.
#[derive(Debug)]
pub struct ExportPaths {
    pub skill_dir: String,
    pub template: String,
    pub output: String,
    pub index: String,
}

/// The paths of an export for the canonical `wiki_root`; `skill_dir` is
/// the skill root after canonicalization (the given one, or
/// `<wiki-root>/skill`, see [`default_skill_dir`]).
pub fn export_paths(opts: &ExportOptions, wiki_root: &str, skill_dir: &str) -> (r: ExportPaths)
    ensures
        r.skill_dir@ == skill_dir@,
        r.template@ == match opts.template {
            Some(t) => t@,
            None => path_join(skill_dir@, "SKILL.md.template"@),
        },
        r.output@ == match opts.output {
            Some(t) => t@,
            None => path_join(skill_dir@, "SKILL.md"@),
        },
        r.index@ == match opts.index {
            Some(t) => t@,
            None => path_join(path_join(wiki_root@, "wiki"@), "index.md"@),
        },
{
    let template = match &opts.template {
        Some(t) => t.clone(),
        None => join_path(skill_dir, "SKILL.md.template"),
    };
    let output = match &opts.output {
        Some(t) => t.clone(),
        None => join_path(skill_dir, "SKILL.md"),
    };
    let index = match &opts.index {
        Some(t) => t.clone(),
        None => {
            let w = join_path(wiki_root, "wiki");
            join_path(w.as_str(), "index.md")
        },
    };
    ExportPaths { skill_dir: from_chars(&lit(skill_dir)), template, output, index }
}

/// The skill root before canonicalization: the given one, else
/// `<wiki-root>/skill`.
pub fn default_skill_dir(opts: &ExportOptions, wiki_root: &str) -> (r: String)
    ensures
        r@ == match opts.skill_dir {
            Some(d) => d@,
            None => path_join(wiki_root@, "skill"@),
        },
{
    match &opts.skill_dir {
        Some(d) => d.clone(),
        None => join_path(wiki_root, "skill"),
    }
}

/// Why a template-based export cannot start.
#[derive(Debug, PartialEq, Eq)]
pub enum TemplateExportError {
    /// The `SKILL.md` template does not exist.
    TemplateNotFound(String),
    /// The wiki index does not exist.
    IndexNotFound(String),
}

impl TemplateExportError {
    /// Human-readable description.
    pub fn message(&self) -> (r: String)
        ensures
            r@ == (match self {
                TemplateExportError::TemplateNotFound(p) => "template not found: "@ + p@,
                TemplateExportError::IndexNotFound(p) => "index not found: "@ + p@,
            }),
    {
        let mut v: Vec<char> = Vec::new();
        match self {
            TemplateExportError::TemplateNotFound(p) => {
                push_str(&mut v, "template not found: ");
                push_str(&mut v, p.as_str());
            },
            TemplateExportError::IndexNotFound(p) => {
                push_str(&mut v, "index not found: ");
                push_str(&mut v, p.as_str());
            },
        }
        from_chars(&v)
    }
}

/// `SKILL.md`: the template without trailing whitespace, a blank line, then
/// the generated index.
pub fn template_skill_md(template_body: &str, generated: &str) -> (r: String)
    ensures
        r@ == trim_end(template_body@) + "\n\n"@ + generated@,
{
    let mut v = trim_end_chars(&lit(template_body));
    push_str(&mut v, "\n\n");
    push_str(&mut v, generated);
    from_chars(&v)
}

// ---------------------------------------------------------------------------
// Rewriting wikilinks in reference pages
// ---------------------------------------------------------------------------

/// The relative path from `base` to `path`.
pub uninterp spec fn path_diff(path: Seq<char>, base: Seq<char>) -> Option<Seq<char>>;

/// pathdiff's `diff_paths`: the relative path from `base` to `path`, named
/// by `path_diff`.
#[verifier::external_body]
fn diff_paths(path: &str, base: &str) -> (r: Option<String>)
    ensures
        match r {
            Some(p) => path_diff(path@, base@) == Some(p@),
            None => path_diff(path@, base@) is None,
        },
{
    match pathdiff::diff_paths(path, base) {
        Some(p) => Some(p.to_string_lossy().into_owned()),
        None => None,
    }
}

/// A mirrored reference page: its path and its text.
pub struct ReferenceFile {
    pub path: String,
    pub text: String,
}

/// The paths of reference pages.
pub open spec fn ref_paths(files: Seq<ReferenceFile>) -> Seq<Seq<char>> {
    files.map_values(|f: ReferenceFile| f.path@)
}

/// The lookup key of a page under `ref_root`: its path below the root,
/// `/`-separated, without `.md`; none for a page outside the root.
pub open spec fn ref_key(ref_root: Seq<char>, p: Seq<char>) -> Option<Seq<char>> {
    if path_starts_with(p, ref_root) {
        Some(strip_md(join(path_parts(p).skip(path_parts(ref_root).len() as int), "/"@)))
    } else {
        None
    }
}

/// The first page from `i` on whose key is `k`.
pub open spec fn first_with_key(ps: Seq<Seq<char>>, root: Seq<char>, k: Seq<char>, i: int) -> Option<int>
    decreases ps.len() - i,
{
    if i < 0 || i >= ps.len() {
        None
    } else if ref_key(root, ps[i]) == Some(k) {
        Some(i)
    } else {
        first_with_key(ps, root, k, i + 1)
    }
}

/// The first page from `i` on, under the root, whose file stem is `s`.
pub open spec fn first_with_stem(ps: Seq<Seq<char>>, root: Seq<char>, s: Seq<char>, i: int) -> Option<int>
    decreases ps.len() - i,
{
    if i < 0 || i >= ps.len() {
        None
    } else if ref_key(root, ps[i]) is Some && file_stem(ps[i]) == s {
        Some(i)
    } else {
        first_with_stem(ps, root, s, i + 1)
    }
}

/// The page a wikilink target names (the first one, in order): by its key
/// as written, by its key without `.md`, and, for a target without `/`, by
/// file stem.
pub open spec fn resolve_ref(ps: Seq<Seq<char>>, root: Seq<char>, raw: Seq<char>) -> Option<int> {
    let t = trim(raw);
    if t.len() == 0 {
        None
    } else {
        match first_with_key(ps, root, t, 0) {
            Some(i) => Some(i),
            None => match first_with_key(ps, root, strip_md(t), 0) {
                Some(i) => Some(i),
                None => if t.contains('/') {
                    None
                } else {
                    first_with_stem(ps, root, t, 0)
                },
            },
        }
    }
}

/// The first heading of a page: a line starting with `#`, its `#`s and
/// surrounding whitespace removed, when something is left.
pub open spec fn first_heading_from(ls: Seq<Seq<char>>, i: int) -> Option<Seq<char>>
    decreases ls.len() - i,
{
    if i < 0 || i >= ls.len() {
        None
    } else if ls[i].len() > 0 && ls[i][0] == '#' && trim(strip_prefixes(ls[i].skip(1), "#"@)).len() > 0 {
        Some(trim(strip_prefixes(ls[i].skip(1), "#"@)))
    } else {
        first_heading_from(ls, i + 1)
    }
}

/// The directory holding `p` (`Path::parent`): `/` for a top-level
/// absolute path, empty for a bare name; none for a path with no
/// components.
pub open spec fn dir_of(p: Seq<char>) -> Option<Seq<char>> {
    let parts = path_parts(p);
    if parts.len() == 0 {
        None
    } else if is_absolute(p) {
        Some("/"@ + join(parts.drop_last(), "/"@))
    } else {
        Some(join(parts.drop_last(), "/"@))
    }
}

/// The link from the page at `from` to `dest`: relative to `from`'s
/// directory, else `dest` below that directory, else `dest`.
pub open spec fn link_path(dest: Seq<char>, from: Seq<char>) -> Seq<char> {
    let base = match dir_of(from) {
        Some(d) => d,
        None => "."@,
    };
    match path_diff(dest, base) {
        Some(r) => r,
        None => if path_starts_with(dest, base) {
            join(path_parts(dest).skip(path_parts(base).len() as int), "/"@)
        } else {
            dest
        },
    }
}

/// A label escaped for a markdown link: `\` and `]` backslash-escaped.
pub open spec fn link_escape(l: Seq<char>) -> Seq<char> {
    replace_all(replace_all(l, "\\"@, "\\\\"@), "]"@, "\\]"@)
}

/// What the wikilink `s[m.start..m.end]` of the page at `path` becomes:
/// `[label](relative path)` when it names a reference page; itself
/// otherwise. The label is the alias when not blank, else the page's first
/// heading, else its file stem.
pub open spec fn relinked(s: Seq<char>, m: LinkSpan, path: Seq<char>, root: Seq<char>, files: Seq<ReferenceFile>) -> Seq<char> {
    let ps = ref_paths(files);
    match resolve_ref(ps, root, s.subrange(m.target_start as int, m.target_end as int)) {
        Some(i) => {
            let dest = ps[i];
            let label = match m.alias {
                Some((a, b)) => if trim(s.subrange(a as int, b as int)).len() > 0 {
                    trim(s.subrange(a as int, b as int))
                } else {
                    match first_heading_from(lines(files[i].text@), 0) {
                        Some(h) => h,
                        None => file_stem(dest),
                    }
                },
                None => match first_heading_from(lines(files[i].text@), 0) {
                    Some(h) => h,
                    None => file_stem(dest),
                },
            };
            "["@ + link_escape(label) + "]("@ + link_path(dest, path) + ")"@
        },
        None => s.subrange(m.start as int, m.end as int),
    }
}

/// `s[pos..]` with the wikilinks `ms[k..]` relinked.
pub open spec fn relink_from(s: Seq<char>, ms: Seq<LinkSpan>, k: int, pos: int, path: Seq<char>, root: Seq<char>, files: Seq<ReferenceFile>) -> Seq<char>
    decreases ms.len() - k,
{
    if k < 0 || k >= ms.len() {
        s.subrange(pos, s.len() as int)
    } else {
        s.subrange(pos, ms[k].start as int) + relinked(s, ms[k], path, root, files) + relink_from(
            s,
            ms,
            k + 1,
            ms[k].end as int,
            path,
            root,
            files,
        )
    }
}

fn ref_key_exec(root: &Vec<char>, rp: &Vec<Vec<char>>, p: &Vec<char>) -> (r: Option<Vec<char>>)
    requires
        views(rp@) == path_parts(root@),
    ensures
        match r {
            Some(k) => ref_key(root@, p@) == Some(k@),
            None => ref_key(root@, p@) is None,
        },
{
    let r_abs = root.len() > 0 && root[0] == '/';
    let p_abs = p.len() > 0 && p[0] == '/';
    let pp = path_parts_exec(p);
    if r_abs != p_abs || !parts_prefix(&pp, rp) {
        return None;
    }
    let mut rest: Vec<Vec<char>> = Vec::new();
    let mut i: usize = rp.len();
    while i < pp.len()
        invariant
            rp.len() <= i <= pp.len(),
            views(rest@) == views(pp@).subrange(rp.len() as int, i as int),
        decreases pp.len() - i,
    {
        let ghost old_seq = rest@;
        let x = pp[i].clone();
        rest.push(x);
        assert(rest@ == old_seq.push(x));
        assert(views(rest@) =~= views(old_seq).push(pp@[i as int]@));
        assert(views(pp@).subrange(rp.len() as int, i + 1) =~= views(pp@).subrange(
            rp.len() as int,
            i as int,
        ).push(pp@[i as int]@));
        i = i + 1;
    }
    assert(views(pp@).subrange(rp.len() as int, pp.len() as int) =~= views(pp@).skip(rp.len() as int));
    let j = join_chars(&rest, &lit("/"));
    Some(strip_md_chars(&j))
}

fn strip_md_chars(s: &Vec<char>) -> (r: Vec<char>)
    ensures
        r@ == strip_md(s@),
{
    let md = lit(".md");
    proof {
        reveal_strlit(".md");
    }
    if crate::text::has_suffix(s, &md) {
        slice_chars(s, 0, s.len() - 3)
    } else {
        slice_chars(s, 0, s.len())
    }
}

/// The keys and stems of the reference pages, computed once.
struct RefIndex {
    keys: Vec<Option<Vec<char>>>,
    stems: Vec<Vec<char>>,
}

fn ref_index(root: &Vec<char>, files: &Vec<ReferenceFile>) -> (r: RefIndex)
    ensures
        r.keys@.len() == files@.len(),
        r.stems@.len() == files@.len(),
        forall|i: int| 0 <= i < files@.len() ==> match #[trigger] r.keys@[i] {
            Some(k) => ref_key(root@, files@[i].path@) == Some(k@),
            None => ref_key(root@, files@[i].path@) is None,
        },
        forall|i: int| 0 <= i < files@.len() ==> (#[trigger] r.stems@[i])@ == file_stem(files@[i].path@),
{
    let rp = path_parts_exec(root);
    let mut keys: Vec<Option<Vec<char>>> = Vec::new();
    let mut stems: Vec<Vec<char>> = Vec::new();
    let mut i: usize = 0;
    while i < files.len()
        invariant
            i <= files@.len(),
            views(rp@) == path_parts(root@),
            keys@.len() == i,
            stems@.len() == i,
            forall|q: int| 0 <= q < i ==> match #[trigger] keys@[q] {
                Some(k) => ref_key(root@, files@[q].path@) == Some(k@),
                None => ref_key(root@, files@[q].path@) is None,
            },
            forall|q: int| 0 <= q < i ==> (#[trigger] stems@[q])@ == file_stem(files@[q].path@),
        decreases files.len() - i,
    {
        let p = string_chars(&files[i].path);
        keys.push(ref_key_exec(root, &rp, &p));
        stems.push(crate::export_skill::file_stem_exec(&p));
        i = i + 1;
    }
    RefIndex { keys, stems }
}

fn first_with_key_exec(idx: &RefIndex, k: &Vec<char>, Ghost(ps): Ghost<Seq<Seq<char>>>, Ghost(root): Ghost<Seq<char>>) -> (r: Option<usize>)
    requires
        idx.keys@.len() == ps.len(),
        forall|i: int| 0 <= i < ps.len() ==> match #[trigger] idx.keys@[i] {
            Some(kk) => ref_key(root, ps[i]) == Some(kk@),
            None => ref_key(root, ps[i]) is None,
        },
    ensures
        match r {
            Some(i) => first_with_key(ps, root, k@, 0) == Some(i as int),
            None => first_with_key(ps, root, k@, 0) is None,
        },
{
    let mut i: usize = 0;
    while i < idx.keys.len()
        invariant
            i <= idx.keys@.len(),
            idx.keys@.len() == ps.len(),
            forall|q: int| 0 <= q < ps.len() ==> match #[trigger] idx.keys@[q] {
                Some(kk) => ref_key(root, ps[q]) == Some(kk@),
                None => ref_key(root, ps[q]) is None,
            },
            first_with_key(ps, root, k@, 0) == first_with_key(ps, root, k@, i as int),
        decreases idx.keys.len() - i,
    {
        let hit = match &idx.keys[i] {
            Some(kk) => chars_eq(kk, k),
            None => false,
        };
        if hit {
            return Some(i);
        }
        i = i + 1;
    }
    None
}

fn first_with_stem_exec(idx: &RefIndex, st: &Vec<char>, Ghost(ps): Ghost<Seq<Seq<char>>>, Ghost(root): Ghost<Seq<char>>) -> (r: Option<usize>)
    requires
        idx.keys@.len() == ps.len(),
        idx.stems@.len() == ps.len(),
        forall|i: int| 0 <= i < ps.len() ==> match #[trigger] idx.keys@[i] {
            Some(kk) => ref_key(root, ps[i]) == Some(kk@),
            None => ref_key(root, ps[i]) is None,
        },
        forall|i: int| 0 <= i < ps.len() ==> (#[trigger] idx.stems@[i])@ == file_stem(ps[i]),
    ensures
        match r {
            Some(i) => first_with_stem(ps, root, st@, 0) == Some(i as int),
            None => first_with_stem(ps, root, st@, 0) is None,
        },
{
    let mut i: usize = 0;
    while i < idx.keys.len()
        invariant
            i <= idx.keys@.len(),
            idx.keys@.len() == ps.len(),
            idx.stems@.len() == ps.len(),
            forall|q: int| 0 <= q < ps.len() ==> match #[trigger] idx.keys@[q] {
                Some(kk) => ref_key(root, ps[q]) == Some(kk@),
                None => ref_key(root, ps[q]) is None,
            },
            forall|q: int| 0 <= q < ps.len() ==> (#[trigger] idx.stems@[q])@ == file_stem(ps[q]),
            first_with_stem(ps, root, st@, 0) == first_with_stem(ps, root, st@, i as int),
        decreases idx.keys.len() - i,
    {
        let under = idx.keys[i].is_some();
        assert(idx.stems@[i as int]@ == file_stem(ps[i as int]));
        if under && chars_eq(&idx.stems[i], st) {
            return Some(i);
        }
        i = i + 1;
    }
    None
}

proof fn lemma_first_key_bound(ps: Seq<Seq<char>>, root: Seq<char>, k: Seq<char>, i: int)
    requires
        0 <= i,
    ensures
        first_with_key(ps, root, k, i) matches Some(j) ==> i <= j < ps.len(),
    decreases ps.len() - i,
{
    if i < ps.len() && ref_key(root, ps[i]) != Some(k) {
        lemma_first_key_bound(ps, root, k, i + 1);
    }
}

proof fn lemma_first_stem_bound(ps: Seq<Seq<char>>, root: Seq<char>, k: Seq<char>, i: int)
    requires
        0 <= i,
    ensures
        first_with_stem(ps, root, k, i) matches Some(j) ==> i <= j < ps.len(),
    decreases ps.len() - i,
{
    if i < ps.len() && !(ref_key(root, ps[i]) is Some && file_stem(ps[i]) == k) {
        lemma_first_stem_bound(ps, root, k, i + 1);
    }
}

fn resolve_ref_exec(idx: &RefIndex, raw: &Vec<char>, Ghost(ps): Ghost<Seq<Seq<char>>>, Ghost(root): Ghost<Seq<char>>) -> (r: Option<usize>)
    requires
        idx.keys@.len() == ps.len(),
        idx.stems@.len() == ps.len(),
        forall|i: int| 0 <= i < ps.len() ==> match #[trigger] idx.keys@[i] {
            Some(kk) => ref_key(root, ps[i]) == Some(kk@),
            None => ref_key(root, ps[i]) is None,
        },
        forall|i: int| 0 <= i < ps.len() ==> (#[trigger] idx.stems@[i])@ == file_stem(ps[i]),
    ensures
        match r {
            Some(i) => resolve_ref(ps, root, raw@) == Some(i as int) && i < ps.len(),
            None => resolve_ref(ps, root, raw@) is None,
        },
{
    let t = trim_chars(raw);
    if t.len() == 0 {
        return None;
    }
    proof {
        lemma_first_key_bound(ps, root, t@, 0);
        lemma_first_key_bound(ps, root, strip_md(t@), 0);
        lemma_first_stem_bound(ps, root, t@, 0);
    }
    match first_with_key_exec(idx, &t, Ghost(ps), Ghost(root)) {
        Some(i) => Some(i),
        None => match first_with_key_exec(idx, &strip_md_chars(&t), Ghost(ps), Ghost(root)) {
            Some(i) => Some(i),
            None => if has_char(&t, '/') {
                None
            } else {
                first_with_stem_exec(idx, &t, Ghost(ps), Ghost(root))
            },
        },
    }
}

/// The first heading of a markdown page (see [`first_heading_from`]).
pub fn first_heading_title(md_text: &str) -> (r: Option<String>)
    ensures
        match r {
            Some(t) => first_heading_from(lines(md_text@), 0) == Some(t@),
            None => first_heading_from(lines(md_text@), 0) is None,
        },
{
    let ls = split_lines(&lit(md_text));
    let ghost lv = views(ls@);
    let hash = lit("#");
    proof {
        reveal_strlit("#");
    }
    let mut i: usize = 0;
    while i < ls.len()
        invariant
            i <= ls.len(),
            lv == views(ls@),
            lv == lines(md_text@),
            hash@ == "#"@,
            first_heading_from(lv, 0) == first_heading_from(lv, i as int),
        decreases ls.len() - i,
    {
        let l = &ls[i];
        assert(lv[i as int] == l@);
        proof {
            reveal_strlit("#");
        }
        if l.len() > 0 && l[0] == '#' {
            let rest = slice_chars(l, 1, l.len());
            assert(rest@ =~= l@.skip(1));
            let t = trim_chars(&crate::serve::strip_prefixes_exec(&rest, &hash));
            if t.len() > 0 {
                return Some(from_chars(&t));
            }
        }
        i = i + 1;
    }
    None
}

/// A label escaped for a markdown link (see [`link_escape`]).
pub fn markdown_link_escape(text: &str) -> (r: String)
    ensures
        r@ == link_escape(text@),
{
    proof {
        reveal_strlit("\\");
        reveal_strlit("]");
    }
    let a = replace_chars(&lit(text), &lit("\\"), &lit("\\\\"));
    let b = replace_chars(&a, &lit("]"), &lit("\\]"));
    from_chars(&b)
}

fn dir_of_exec(p: &Vec<char>) -> (r: Option<Vec<char>>)
    ensures
        match r {
            Some(d) => dir_of(p@) == Some(d@),
            None => dir_of(p@) is None,
        },
{
    let parts = path_parts_exec(p);
    if parts.len() == 0 {
        return None;
    }
    let mut front: Vec<Vec<char>> = Vec::new();
    let mut i: usize = 0;
    while i + 1 < parts.len()
        invariant
            i + 1 <= parts.len(),
            views(front@) == views(parts@).take(i as int),
        decreases parts.len() - i,
    {
        let ghost old_seq = front@;
        let x = parts[i].clone();
        front.push(x);
        assert(front@ == old_seq.push(x));
        assert(views(front@) =~= views(old_seq).push(x@));
        assert(views(parts@).take(i + 1) =~= views(parts@).take(i as int).push(parts@[i as int]@));
        i = i + 1;
    }
    assert(views(parts@).take(i as int) =~= views(parts@).drop_last());
    let j = join_chars(&front, &lit("/"));
    if p.len() > 0 && p[0] == '/' {
        let mut d = lit("/");
        append_chars(&mut d, &j);
        Some(d)
    } else {
        Some(j)
    }
}

fn link_path_exec(dest: &Vec<char>, from: &Vec<char>) -> (r: Vec<char>)
    ensures
        r@ == link_path(dest@, from@),
{
    let base = match dir_of_exec(from) {
        Some(d) => d,
        None => lit("."),
    };
    match diff_paths(from_chars(dest).as_str(), from_chars(&base).as_str()) {
        Some(r) => string_chars(&r),
        None => {
            let b_abs = base.len() > 0 && base[0] == '/';
            let d_abs = dest.len() > 0 && dest[0] == '/';
            let bp = path_parts_exec(&base);
            let dp = path_parts_exec(dest);
            if b_abs == d_abs && parts_prefix(&dp, &bp) {
                let mut rest: Vec<Vec<char>> = Vec::new();
                let mut i: usize = bp.len();
                while i < dp.len()
                    invariant
                        bp.len() <= i <= dp.len(),
                        views(rest@) == views(dp@).subrange(bp.len() as int, i as int),
                    decreases dp.len() - i,
                {
                    let ghost old_seq = rest@;
                    let x = dp[i].clone();
                    rest.push(x);
                    assert(rest@ == old_seq.push(x));
                    assert(views(rest@) =~= views(old_seq).push(dp@[i as int]@));
                    assert(views(dp@).subrange(bp.len() as int, i + 1) =~= views(dp@).subrange(
                        bp.len() as int,
                        i as int,
                    ).push(dp@[i as int]@));
                    i = i + 1;
                }
                assert(views(dp@).subrange(bp.len() as int, dp.len() as int) =~= views(dp@).skip(
                    bp.len() as int,
                ));
                join_chars(&rest, &lit("/"))
            } else {
                dest.clone()
            }
        },
    }
}

/// The text of the reference page at `path` with each wikilink that names
/// a mirrored page (`files`, under `ref_root`) turned into a relative
/// markdown link (see [`relinked`]).
pub fn rewrite_wikilinks_in_file(text: &str, path: &str, ref_root: &str, files: &Vec<ReferenceFile>) -> (r: String)
    ensures
        r@ == relink_from(text@, wikilinks(text@), 0, 0, path@, ref_root@, files@),
{
    let s = lit(text);
    let root = lit(ref_root);
    let pth = lit(path);
    let idx = ref_index(&root, files);
    let ghost ps = ref_paths(files@);
    assert forall|i: int| 0 <= i < ps.len() implies ps[i] == files@[i].path@ by {}
    let ms = scan_links(&s, true);
    let ghost msv = ms@;
    let mut out: Vec<char> = Vec::new();
    let mut pos: usize = 0;
    let mut k: usize = 0;
    while k < ms.len()
        invariant
            k <= ms.len(),
            s@ == text@,
            root@ == ref_root@,
            pth@ == path@,
            ps == ref_paths(files@),
            idx.keys@.len() == ps.len(),
            idx.stems@.len() == ps.len(),
            forall|i: int| 0 <= i < ps.len() ==> match #[trigger] idx.keys@[i] {
                Some(kk) => ref_key(root@, ps[i]) == Some(kk@),
                None => ref_key(root@, ps[i]) is None,
            },
            forall|i: int| 0 <= i < ps.len() ==> (#[trigger] idx.stems@[i])@ == file_stem(ps[i]),
            msv == ms@,
            msv == wikilinks(s@),
            k < ms.len() ==> pos <= ms@[k as int].start,
            pos <= s.len(),
            forall|q: int|
                0 <= q < ms@.len() ==> (#[trigger] ms@[q]).start < ms@[q].end <= s.len()
                    && ms@[q].target_start <= ms@[q].target_end <= s.len() && (ms@[q].alias matches Some(
                    (a, b),
                ) ==> a <= b <= s.len()),
            forall|q: int|
                0 <= q < ms@.len() ==> (#[trigger] ms@[q]).start <= ms@[q].target_start
                    && ms@[q].target_end <= ms@[q].end,
            forall|q: int| 0 <= q < ms@.len() - 1 ==> (#[trigger] ms@[q]).end <= ms@[q + 1].start,
            out@ + relink_from(s@, msv, k as int, pos as int, path@, ref_root@, files@) == relink_from(
                s@,
                msv,
                0,
                0,
                path@,
                ref_root@,
                files@,
            ),
        decreases ms.len() - k,
    {
        let m = ms[k];
        let ghost old_out = out@;
        append_chars(&mut out, &slice_chars(&s, pos, m.start));
        let target = slice_chars(&s, m.target_start, m.target_end);
        proof {
            assert forall|i: int| 0 <= i < ps.len() implies match #[trigger] idx.keys@[i] {
                Some(kk) => ref_key(root@, ps[i]) == Some(kk@),
                None => ref_key(root@, ps[i]) is None,
            } by {}
        }
        let repl: Vec<char> = match resolve_ref_exec(&idx, &target, Ghost(ps), Ghost(root@)) {
            Some(i) => {
                let dest = string_chars(&files[i].path);
                assert(dest@ == ps[i as int]);
                let from_heading = match first_heading_title(files[i].text.as_str()) {
                    Some(h) => string_chars(&h),
                    None => crate::export_skill::file_stem_exec(&dest),
                };
                let label = match m.alias {
                    Some((a, b)) => {
                        let al = trim_chars(&slice_chars(&s, a, b));
                        if al.len() > 0 {
                            al
                        } else {
                            from_heading
                        }
                    },
                    None => from_heading,
                };
                let mut v = lit("[");
                push_str(&mut v, markdown_link_escape(from_chars(&label).as_str()).as_str());
                push_str(&mut v, "](");
                append_chars(&mut v, &link_path_exec(&dest, &pth));
                push_str(&mut v, ")");
                v
            },
            None => slice_chars(&s, m.start, m.end),
        };
        assert(repl@ == relinked(s@, m, path@, ref_root@, files@));
        append_chars(&mut out, &repl);
        assert(out@ + relink_from(s@, msv, k + 1, m.end as int, path@, ref_root@, files@) =~= old_out
            + relink_from(s@, msv, k as int, pos as int, path@, ref_root@, files@));
        pos = m.end;
        k = k + 1;
    }
    let tail = slice_chars(&s, pos, s.len());
    append_chars(&mut out, &tail);
    assert(out@ =~= relink_from(s@, msv, 0, 0, path@, ref_root@, files@));
    from_chars(&out)
}

} // verus!
