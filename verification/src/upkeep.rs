//! Read-only wiki checks: link syntax, path resolution under a root, broken
//! links and orphan pages.
//!
//! Paths are `/`-separated text relative to the wiki home (the directory that
//! holds `wiki/`), so the generated pages live under `"wiki"`. A wiki is seen
//! through a [`WikiTree`]: the regular files under `wiki/` and the text of the
//! markdown ones.

use vstd::prelude::*;
use crate::text::{
    append_chars, ends_with, from_chars, has_prefix, has_suffix, index_of, index_of_char,
    join, join_chars, last_before, last_index_of, lemma_index_of, lemma_last_before,
    lemma_run_end, lit, occurs_at, push_str, run_end, run_end_at, slice_chars, split_chars,
    split_on, starts_with, string_chars, string_views, contains, find_chars, trim, trim_chars, views,
    is_ws, lemma_contains_survives_trim,
};
use crate::order::{sort_indices, sorted_order};

verus! {

// ---------------------------------------------------------------------------
// Link syntax
// ---------------------------------------------------------------------------

/// Where a link was found in a text: the whole match `start..end`, the link
/// target `target_start..target_end` and, for `[[target|alias]]`, the alias.
#[derive(Clone, Copy, Debug, PartialEq, Eq)]
pub struct LinkSpan {
    pub start: usize,
    pub end: usize,
    pub target_start: usize,
    pub target_end: usize,
    pub alias: Option<(usize, usize)>,
}

/// The wikilink `[[target]]` or `[[target|alias]]` that starts at `i`, if any.
/// The target is a non-empty run without `]` or `|`; the alias a non-empty run
/// without `]`.
pub open spec fn wikilink_at(s: Seq<char>, i: int) -> Option<LinkSpan> {
    if 0 <= i && i + 1 < s.len() && s[i] == '[' && s[i + 1] == '[' {
        let j = run_end(s, i + 2, ']', '|');
        if j == i + 2 || j >= s.len() {
            None
        } else if s[j] == '|' {
            let k = run_end(s, j + 1, ']', ']');
            if k > j + 1 && k + 1 < s.len() && s[k + 1] == ']' {
                Some(
                    LinkSpan {
                        start: i as usize,
                        end: (k + 2) as usize,
                        target_start: (i + 2) as usize,
                        target_end: j as usize,
                        alias: Some(((j + 1) as usize, k as usize)),
                    },
                )
            } else {
                None
            }
        } else if j + 1 < s.len() && s[j + 1] == ']' {
            Some(
                LinkSpan {
                    start: i as usize,
                    end: (j + 2) as usize,
                    target_start: (i + 2) as usize,
                    target_end: j as usize,
                    alias: None,
                },
            )
        } else {
            None
        }
    } else {
        None
    }
}

/// The markdown link `[text](target)` that starts at `i`, if any. The text
/// runs to the first `]`; the target is a non-empty run up to the first `)`.
pub open spec fn mdlink_at(s: Seq<char>, i: int) -> Option<LinkSpan> {
    if 0 <= i && i < s.len() && s[i] == '[' {
        let j = run_end(s, i + 1, ']', ']');
        if j + 1 < s.len() && s[j + 1] == '(' {
            let k = run_end(s, j + 2, ')', ')');
            if k > j + 2 && k < s.len() {
                Some(
                    LinkSpan {
                        start: i as usize,
                        end: (k + 1) as usize,
                        target_start: (j + 2) as usize,
                        target_end: k as usize,
                        alias: None,
                    },
                )
            } else {
                None
            }
        } else {
            None
        }
    } else {
        None
    }
}

/// Non-overlapping wikilinks of `s[i..]`, leftmost first, as a regex scan
/// finds them.
pub open spec fn wikilinks_from(s: Seq<char>, i: int) -> Seq<LinkSpan>
    decreases s.len() - i,
{
    if i < 0 || i >= s.len() {
        seq![]
    } else {
        match wikilink_at(s, i) {
            Some(m) => if m.end as int > i && m.end as int <= s.len() {
                seq![m] + wikilinks_from(s, m.end as int)
            } else {
                seq![]
            },
            None => wikilinks_from(s, i + 1),
        }
    }
}

/// Non-overlapping markdown links of `s[i..]`, leftmost first.
pub open spec fn mdlinks_from(s: Seq<char>, i: int) -> Seq<LinkSpan>
    decreases s.len() - i,
{
    if i < 0 || i >= s.len() {
        seq![]
    } else {
        match mdlink_at(s, i) {
            Some(m) => if m.end as int > i && m.end as int <= s.len() {
                seq![m] + mdlinks_from(s, m.end as int)
            } else {
                seq![]
            },
            None => mdlinks_from(s, i + 1),
        }
    }
}

/// All wikilinks of `s`.
pub open spec fn wikilinks(s: Seq<char>) -> Seq<LinkSpan> {
    wikilinks_from(s, 0)
}

/// All markdown links of `s`.
pub open spec fn mdlinks(s: Seq<char>) -> Seq<LinkSpan> {
    mdlinks_from(s, 0)
}

/// The wikilink starting at `i`, if any.
pub fn wikilink_at_exec(s: &Vec<char>, i: usize) -> (r: Option<LinkSpan>)
    requires
        i < s.len(),
    ensures
        r == wikilink_at(s@, i as int),
        r matches Some(m) ==> i < m.end <= s.len() && i + 2 <= m.target_start <= m.target_end
            <= s.len() && (m.alias matches Some((a, b)) ==> m.target_end < a <= b <= s.len()),
        r matches Some(m) ==> m.start == i && m.target_end <= m.end,
{
    if i + 1 < s.len() && s[i] == '[' && s[i + 1] == '[' {
        let j = run_end_at(s, i + 2, ']', '|');
        proof {
            lemma_run_end(s@, i + 2, ']', '|');
        }
        if j == i + 2 || j >= s.len() {
            None
        } else if s[j] == '|' {
            let k = run_end_at(s, j + 1, ']', ']');
            if k > j + 1 && k < s.len() && k + 1 < s.len() && s[k + 1] == ']' {
                Some(
                    LinkSpan {
                        start: i,
                        end: k + 2,
                        target_start: i + 2,
                        target_end: j,
                        alias: Some((j + 1, k)),
                    },
                )
            } else {
                None
            }
        } else if j < s.len() && j + 1 < s.len() && s[j + 1] == ']' {
            Some(LinkSpan { start: i, end: j + 2, target_start: i + 2, target_end: j, alias: None })
        } else {
            None
        }
    } else {
        None
    }
}

/// The markdown link starting at `i`, if any.
pub fn mdlink_at_exec(s: &Vec<char>, i: usize) -> (r: Option<LinkSpan>)
    requires
        i < s.len(),
    ensures
        r == mdlink_at(s@, i as int),
        r matches Some(m) ==> i < m.end <= s.len() && i < m.target_start <= m.target_end
            <= s.len() && m.alias is None,
        r matches Some(m) ==> m.start == i && m.target_end <= m.end,
{
    if s[i] == '[' {
        let j = run_end_at(s, i + 1, ']', ']');
        if j < s.len() && j + 1 < s.len() && s[j + 1] == '(' {
            let k = run_end_at(s, j + 2, ')', ')');
            if k > j + 2 && k < s.len() {
                Some(LinkSpan { start: i, end: k + 1, target_start: j + 2, target_end: k, alias: None })
            } else {
                None
            }
        } else {
            None
        }
    } else {
        None
    }
}

/// Spans of every link in `s`, scanning left to right; `wiki` selects
/// wikilinks, otherwise markdown links.
pub open spec fn links_of(s: Seq<char>, wiki: bool) -> Seq<LinkSpan> {
    if wiki {
        wikilinks(s)
    } else {
        mdlinks(s)
    }
}

/// All wikilinks (`wiki == true`) or markdown links of `s`.
pub fn scan_links(s: &Vec<char>, wiki: bool) -> (r: Vec<LinkSpan>)
    ensures
        r@ == links_of(s@, wiki),
        forall|k: int|
            0 <= k < r@.len() ==> (#[trigger] r@[k]).start < r@[k].end <= s.len()
                && r@[k].target_start <= r@[k].target_end <= s.len() && (r@[k].alias matches Some(
                (a, b),
            ) ==> a <= b <= s.len()),
        forall|k: int|
            0 <= k < r@.len() ==> (#[trigger] r@[k]).start <= r@[k].target_start
                && r@[k].target_end <= r@[k].end,
        forall|k: int| 0 <= k < r@.len() - 1 ==> (#[trigger] r@[k]).end <= r@[k + 1].start,
{
    let mut r: Vec<LinkSpan> = Vec::new();
    let mut i: usize = 0;
    while i < s.len()
        invariant
            i <= s.len(),
            r@ + (if wiki {
                wikilinks_from(s@, i as int)
            } else {
                mdlinks_from(s@, i as int)
            }) == links_of(s@, wiki),
            forall|k: int|
                0 <= k < r@.len() ==> (#[trigger] r@[k]).start < r@[k].end <= i && r@[k].target_start
                    <= r@[k].target_end <= s.len() && (r@[k].alias matches Some((a, b)) ==> a <= b
                    <= s.len()),
            forall|k: int|
                0 <= k < r@.len() ==> (#[trigger] r@[k]).start <= r@[k].target_start
                    && r@[k].target_end <= r@[k].end,
            forall|k: int| 0 <= k < r@.len() - 1 ==> (#[trigger] r@[k]).end <= r@[k + 1].start,
        decreases s.len() - i,
    {
        let m = if wiki {
            wikilink_at_exec(s, i)
        } else {
            mdlink_at_exec(s, i)
        };
        match m {
            Some(span) => {
                let ghost old_r = r@;
                r.push(span);
                assert(r@ == old_r + seq![span]);
                i = span.end;
            },
            None => {
                i = i + 1;
            },
        }
    }
    assert(r@ =~= links_of(s@, wiki));
    r
}

// ---------------------------------------------------------------------------
// Paths
// ---------------------------------------------------------------------------

/// One step of walking path segments: empty and `.` segments are skipped,
/// `..` leaves the current directory (failing above the start), anything
/// else enters a directory.
pub open spec fn walk_step(st: Option<Seq<Seq<char>>>, seg: Seq<char>) -> Option<Seq<Seq<char>>> {
    match st {
        None => None,
        Some(s) => if seg.len() == 0 || seg == seq!['.'] {
            Some(s)
        } else if seg == seq!['.', '.'] {
            if s.len() == 0 {
                None
            } else {
                Some(s.drop_last())
            }
        } else {
            Some(s.push(seg))
        },
    }
}

/// The directories entered after walking the first `n` segments.
pub open spec fn walk(segs: Seq<Seq<char>>, n: int) -> Option<Seq<Seq<char>>>
    decreases n,
{
    if n <= 0 {
        Some(seq![])
    } else {
        walk_step(walk(segs, n - 1), segs[n - 1])
    }
}

/// Once a walk has failed it stays failed.
proof fn lemma_walk_stuck(segs: Seq<Seq<char>>, i: int, n: int)
    requires
        1 <= i <= n,
        walk(segs, i) is None,
    ensures
        walk(segs, n) is None,
    decreases n - i,
{
    if i < n {
        lemma_walk_stuck(segs, i + 1, n);
    }
}

/// `root` extended by the segments in `st`.
pub open spec fn under(root: Seq<char>, st: Seq<Seq<char>>) -> Seq<char> {
    if st.len() == 0 {
        root
    } else {
        root + seq!['/'] + join(st, seq!['/'])
    }
}

/// `rel` resolved under `root`, lexically: `None` for an absolute `rel` and for
/// one whose `..` segments would leave `root`.
pub open spec fn resolve_under(root: Seq<char>, rel: Seq<char>) -> Option<Seq<char>> {
    if rel.len() > 0 && rel[0] == '/' {
        None
    } else {
        let segs = split_on(rel, '/');
        match walk(segs, segs.len() as int) {
            Some(st) => Some(under(root, st)),
            None => None,
        }
    }
}

/// `p` is `root` or lies inside it.
pub open spec fn is_under(p: Seq<char>, root: Seq<char>) -> bool {
    p == root || starts_with(p, root + seq!['/'])
}

proof fn lemma_under_is_under(root: Seq<char>, st: Seq<Seq<char>>)
    ensures
        is_under(under(root, st), root),
{
    if st.len() > 0 {
        let p = under(root, st);
        assert(p.subrange(0, root.len() + 1int) =~= root + seq!['/']);
    }
}

/// Resolve `rel` under `root` without touching the file system.
pub fn resolve_under_root(root: &Vec<char>, rel: &Vec<char>) -> (r: Option<Vec<char>>)
    ensures
        match r {
            Some(p) => resolve_under(root@, rel@) == Some(p@),
            None => resolve_under(root@, rel@) is None,
        },
{
    if rel.len() > 0 && rel[0] == '/' {
        return None;
    }
    let segs = split_chars(rel, '/');
    let ghost ss = views(segs@);
    let mut st: Vec<Vec<char>> = Vec::new();
    let mut i: usize = 0;
    let dot = lit(".");
    let dotdot = lit("..");
    proof {
        reveal_strlit(".");
        reveal_strlit("..");
        assert(dot@ =~= seq!['.']);
        assert(dotdot@ =~= seq!['.', '.']);
    }
    while i < segs.len()
        invariant
            i <= segs.len(),
            ss == views(segs@),
            ss == split_on(rel@, '/'),
            dot@ == seq!['.'],
            dotdot@ == seq!['.', '.'],
            walk(ss, i as int) == Some(views(st@)),
        decreases segs.len() - i,
    {
        let seg = &segs[i];
        assert(seg@ == ss[i as int]);
        if seg.len() == 0 || (seg.len() == 1 && seg[0] == '.') {
            proof {
                if seg.len() == 1 {
                    assert(seg@ =~= seq!['.']);
                }
            }
        } else if seg.len() == 2 && seg[0] == '.' && seg[1] == '.' {
            assert(seg@ =~= seq!['.', '.']);
            if st.len() == 0 {
                proof {
                    lemma_walk_stuck(ss, (i + 1) as int, ss.len() as int);
                }
                return None;
            }
            let ghost old = views(st@);
            st.pop();
            assert(views(st@) =~= old.drop_last());
        } else {
            proof {
                if seg@ == seq!['.'] {
                    assert(seg@.len() == 1);
                }
                if seg@ == seq!['.', '.'] {
                    assert(seg@.len() == 2);
                }
            }
            let ghost old = views(st@);
            st.push(slice_chars(seg, 0, seg.len()));
            assert(seg@.subrange(0, seg@.len() as int) =~= seg@);
            assert(views(st@) =~= old.push(seg@));
        }
        i = i + 1;
    }
    let mut out = slice_chars(root, 0, root.len());
    assert(out@ =~= root@);
    if st.len() > 0 {
        out.push('/');
        let sep = vec!['/'];
        assert(sep@ =~= seq!['/']);
        let j = join_chars(&st, &sep);
        append_chars(&mut out, &j);
    }
    Some(out)
}

/// A link target `[[target]]` as a markdown file under `wiki`: trimmed, web
/// addresses and empty targets ignored, the `#fragment` dropped, `.md` added
/// when missing.
pub open spec fn wikilink_dest(wiki: Seq<char>, target: Seq<char>) -> Option<Seq<char>> {
    let t0 = trim(target);
    if t0.len() == 0 || starts_with(t0, "http://"@) || starts_with(t0, "https://"@) {
        None
    } else {
        let t = match index_of(t0, '#') {
            Some(k) => t0.take(k),
            None => t0,
        };
        if t.len() == 0 {
            None
        } else {
            let rel = if ends_with(t, ".md"@) {
                t
            } else {
                t + ".md"@
            };
            resolve_under(wiki, rel)
        }
    }
}

/// Web addresses are never wiki paths: a markdown link target that holds
/// `://` (an `http://`, `https://`, `ftp://` or any other scheme URL)
/// resolves to no path under the wiki, so it is never checked and never
/// reported as broken.
pub proof fn law_web_links_are_not_wiki_paths(wiki: Seq<char>, src: Seq<char>, target: Seq<char>)
    requires
        contains(target, "://"@),
    ensures
        mdlink_dest(wiki, src, target) is None,
{
    reveal_strlit("://");
    let p = "://"@;
    assert forall|i: int| 0 <= i < p.len() implies !is_ws(#[trigger] p[i]) by {
        assert(p[i] == ':' || p[i] == '/');
    }
    lemma_contains_survives_trim(target, p);
}

/// The directory part of `p` (before its last `/`).
pub open spec fn parent(p: Seq<char>) -> Option<Seq<char>> {
    let k = last_before(p, '/', p.len() as int);
    if k < 0 {
        None
    } else {
        Some(p.take(k))
    }
}

/// A relative markdown link target as a path under `wiki`, resolved from the
/// directory of `src`: web addresses, pure fragments and empty targets are
/// ignored and the `#fragment` dropped.
pub open spec fn mdlink_dest(wiki: Seq<char>, src: Seq<char>, target: Seq<char>) -> Option<Seq<char>> {
    let t0 = trim(target);
    if t0.len() == 0 || contains(t0, "://"@) || starts_with(t0, "#"@) {
        None
    } else {
        let t = trim(
            match index_of(t0, '#') {
                Some(k) => t0.take(k),
                None => t0,
            },
        );
        if t.len() == 0 {
            None
        } else {
            match parent(src) {
                None => None,
                Some(base) => match resolve_under(base, t) {
                    Some(out) => if is_under(out, wiki) {
                        Some(out)
                    } else {
                        None
                    },
                    None => None,
                },
            }
        }
    }
}

fn before_hash(t0: &Vec<char>) -> (t: Vec<char>)
    ensures
        t@ == (match index_of(t0@, '#') {
            Some(k) => t0@.take(k),
            None => t0@,
        }),
{
    proof {
        lemma_index_of(t0@, '#');
    }
    match index_of_char(t0, '#') {
        Some(k) => slice_chars(t0, 0, k),
        None => slice_chars(t0, 0, t0.len()),
    }
}

/// Resolve a wikilink target to the markdown file it names under `wiki`.
pub fn norm_wikilink_target(wiki: &Vec<char>, target: &Vec<char>) -> (r: Option<Vec<char>>)
    ensures
        match r {
            Some(p) => wikilink_dest(wiki@, target@) == Some(p@),
            None => wikilink_dest(wiki@, target@) is None,
        },
{
    let t0 = trim_chars(target);
    if t0.len() == 0 || has_prefix(&t0, &lit("http://")) || has_prefix(&t0, &lit("https://")) {
        return None;
    }
    let t = before_hash(&t0);
    if t.len() == 0 {
        return None;
    }
    let md = lit(".md");
    let rel = if has_suffix(&t, &md) {
        t
    } else {
        let mut r = t;
        append_chars(&mut r, &md);
        r
    };
    resolve_under_root(wiki, &rel)
}

/// Whether `p` is `root` or lies inside it.
pub fn is_under_path(p: &Vec<char>, root: &Vec<char>) -> (b: bool)
    ensures
        b == is_under(p@, root@),
{
    let mut rs = slice_chars(root, 0, root.len());
    assert(rs@ =~= root@);
    rs.push('/');
    assert(rs@ =~= root@ + seq!['/']);
    let eq = p.len() == root.len() && has_prefix(p, root);
    proof {
        if p.len() == root.len() && starts_with(p@, root@) {
            assert(p@ =~= root@);
        }
        if p@ == root@ {
            assert(p@.subrange(0, root@.len() as int) =~= root@);
        }
    }
    eq || has_prefix(p, &rs)
}

/// Resolve a relative markdown link in page `src` to the file it names
/// under `wiki`.
pub fn norm_md_link(wiki: &Vec<char>, src: &Vec<char>, target: &Vec<char>) -> (r: Option<Vec<char>>)
    ensures
        match r {
            Some(p) => mdlink_dest(wiki@, src@, target@) == Some(p@),
            None => mdlink_dest(wiki@, src@, target@) is None,
        },
{
    let t0 = trim_chars(target);
    if t0.len() == 0 || find_chars(&t0, &lit("://"), 0).is_some() || has_prefix(&t0, &lit("#")) {
        return None;
    }
    let h = before_hash(&t0);
    let t = trim_chars(&h);
    if t.len() == 0 {
        return None;
    }
    proof {
        lemma_last_before(src@, '/', src@.len() as int);
    }
    let base = match last_index_of(src, '/') {
        None => {
            return None;
        },
        Some(k) => slice_chars(src, 0, k),
    };
    match resolve_under_root(&base, &t) {
        Some(out) => if is_under_path(&out, wiki) {
            Some(out)
        } else {
            None
        },
        None => None,
    }
}

/// Resolved paths never leave their root: a wikilink always names a file
/// under the wiki directory, and a relative link one under both the wiki
/// and its page's own directory.
pub proof fn law_links_stay_under_root(root: Seq<char>, rel: Seq<char>, wiki: Seq<char>, src: Seq<char>, target: Seq<char>)
    ensures
        resolve_under(root, rel) matches Some(p) ==> is_under(p, root),
        wikilink_dest(wiki, target) matches Some(p) ==> is_under(p, wiki),
        mdlink_dest(wiki, src, target) matches Some(p) ==> is_under(p, wiki) && is_under(
            p,
            parent(src)->0,
        ),
{
    let segs = split_on(rel, '/');
    if let Some(st) = walk(segs, segs.len() as int) {
        lemma_under_is_under(root, st);
    }
    let t0 = trim(target);
    let t = match index_of(t0, '#') {
        Some(k) => t0.take(k),
        None => t0,
    };
    let rel2 = if ends_with(t, ".md"@) {
        t
    } else {
        t + ".md"@
    };
    let segs2 = split_on(rel2, '/');
    if let Some(st) = walk(segs2, segs2.len() as int) {
        lemma_under_is_under(wiki, st);
    }
    let t3 = trim(t);
    let segs3 = split_on(t3, '/');
    if let Some(base) = parent(src) {
        if let Some(st) = walk(segs3, segs3.len() as int) {
            lemma_under_is_under(base, st);
        }
    }
}

// ---------------------------------------------------------------------------
// The wiki tree
// ---------------------------------------------------------------------------

/// One regular file under `wiki/`: its path relative to the wiki home and,
/// for a markdown file, its text (empty when it could not be read as UTF-8).
pub struct WikiFile {
    pub path: String,
    pub text: String,
}

/// The regular files under `wiki/`, as a directory walk lists them.
pub struct WikiTree {
    pub files: Vec<WikiFile>,
}

/// A path names a markdown file: its last segment has a stem and the
/// extension `md`.
pub open spec fn is_md_path(p: Seq<char>) -> bool {
    p.len() > 3 && ends_with(p, ".md"@) && p[p.len() - 4] != '/'
}

/// Whether `p` names a markdown file.
pub fn is_markdown_path(p: &str) -> (b: bool)
    ensures
        b == is_md_path(p@),
{
    let v = to_vec(p);
    let md = lit(".md");
    v.len() > 3 && has_suffix(&v, &md) && v[v.len() - 4] != '/'
}

fn to_vec(p: &str) -> (v: Vec<char>)
    ensures
        v@ == p@,
{
    lit(p)
}

impl WikiTree {
    /// Paths of all files.
    pub open spec fn paths(&self) -> Seq<Seq<char>> {
        self.files@.map_values(|f: WikiFile| f.path@)
    }

    /// Texts of all files.
    pub open spec fn texts(&self) -> Seq<Seq<char>> {
        self.files@.map_values(|f: WikiFile| f.text@)
    }

    /// A directory listing: no path twice, no NUL character in a path.
    pub open spec fn wf(&self) -> bool {
        &&& forall|i: int, j: int|
            0 <= i < j < self.files@.len() ==> self.paths()[i] != self.paths()[j]
        &&& forall|i: int| 0 <= i < self.files@.len() ==> !self.paths()[i].contains('\u{0}')
    }
}

/// `/` replaced by NUL: ordering these keys orders paths component by
/// component (a shorter component before any longer one it begins).
pub open spec fn component_key(p: Seq<char>) -> Seq<char> {
    p.map_values(|c: char| if c == '/' { '\u{0}' } else { c })
}

/// Indices of the markdown files of a tree, in component-wise path order.
pub open spec fn md_order_by(keys: Seq<Seq<char>>, paths: Seq<Seq<char>>) -> Seq<usize> {
    md_only(paths, sorted_order(keys), sorted_order(keys).len() as int)
}

/// The entries of `order[..n]` that index markdown paths.
pub open spec fn md_only(paths: Seq<Seq<char>>, order: Seq<usize>, n: int) -> Seq<usize>
    decreases n,
{
    if n <= 0 {
        seq![]
    } else {
        let i = order[n - 1];
        if (i as int) < paths.len() && is_md_path(paths[i as int]) {
            md_only(paths, order, n - 1).push(i)
        } else {
            md_only(paths, order, n - 1)
        }
    }
}

/// Messages for one page: each wikilink, then each markdown link, whose
/// resolved file does not exist.
pub open spec fn wikilink_messages(paths: Seq<Seq<char>>, md: Seq<char>, text: Seq<char>, links: Seq<LinkSpan>) -> Seq<Seq<char>>
    decreases links.len(),
{
    if links.len() == 0 {
        seq![]
    } else {
        let m = links.last();
        let target = text.subrange(m.target_start as int, m.target_end as int);
        let rest = wikilink_messages(paths, md, text, links.drop_last());
        match wikilink_dest("wiki"@, target) {
            Some(dest) => if paths.contains(dest) {
                rest
            } else {
                rest.push(md + ": broken wikilink [["@ + target + "]] -> "@ + dest)
            },
            None => rest,
        }
    }
}

/// Messages for one page's markdown links whose resolved file does not exist.
pub open spec fn mdlink_messages(paths: Seq<Seq<char>>, md: Seq<char>, text: Seq<char>, links: Seq<LinkSpan>) -> Seq<Seq<char>>
    decreases links.len(),
{
    if links.len() == 0 {
        seq![]
    } else {
        let m = links.last();
        let target = text.subrange(m.target_start as int, m.target_end as int);
        let rest = mdlink_messages(paths, md, text, links.drop_last());
        match mdlink_dest("wiki"@, md, target) {
            Some(dest) => if paths.contains(dest) {
                rest
            } else {
                rest.push(md + ": broken link ("@ + target + ") -> "@ + dest)
            },
            None => rest,
        }
    }
}

/// Broken-link messages of page `md` with text `text`.
pub open spec fn page_messages(paths: Seq<Seq<char>>, md: Seq<char>, text: Seq<char>) -> Seq<Seq<char>> {
    wikilink_messages(paths, md, text, wikilinks(text)) + mdlink_messages(
        paths,
        md,
        text,
        mdlinks(text),
    )
}

/// Broken-link messages for the pages at `order[..n]`.
pub open spec fn messages_upto(paths: Seq<Seq<char>>, texts: Seq<Seq<char>>, order: Seq<usize>, n: int) -> Seq<Seq<char>>
    decreases n,
{
    if n <= 0 {
        seq![]
    } else {
        let i = order[n - 1] as int;
        messages_upto(paths, texts, order, n - 1) + page_messages(paths, paths[i], texts[i])
    }
}

/// Every broken link of the tree, page by page in path order.
pub open spec fn broken_links(paths: Seq<Seq<char>>, texts: Seq<Seq<char>>) -> Seq<Seq<char>> {
    let order = md_order_by(paths.map_values(|p: Seq<char>| component_key(p)), paths);
    messages_upto(paths, texts, order, order.len() as int)
}

fn contains_path(paths: &Vec<Vec<char>>, p: &Vec<char>) -> (b: bool)
    ensures
        b == views(paths@).contains(p@),
{
    let mut i: usize = 0;
    while i < paths.len()
        invariant
            i <= paths.len(),
            forall|k: int| 0 <= k < i ==> views(paths@)[k] != p@,
        decreases paths.len() - i,
    {
        if paths[i].len() == p.len() && has_prefix(&paths[i], p) {
            assert(paths[i as int]@ =~= p@);
            assert(views(paths@)[i as int] == p@);
            return true;
        }
        proof {
            if paths[i as int]@ == p@ {
                assert(paths[i as int]@.subrange(0, p@.len() as int) =~= p@);
            }
        }
        i = i + 1;
    }
    false
}

fn page_messages_exec(paths: &Vec<Vec<char>>, md: &Vec<char>, text: &Vec<char>, out: &mut Vec<String>)
    ensures
        string_views(final(out)@) == string_views(old(out)@)
            + page_messages(views(paths@), md@, text@),
{
    let wiki = lit("wiki");
    proof {
        reveal_strlit("wiki");
    }
    let wl = scan_links(text, true);
    let ghost start = string_views(old(out)@);
    let mut k: usize = 0;
    while k < wl.len()
        invariant
            k <= wl.len(),
            wiki@ == "wiki"@,
            wl@ == wikilinks(text@),
            forall|q: int|
                0 <= q < wl@.len() ==> (#[trigger] wl@[q]).target_start <= wl@[q].target_end
                    <= text.len(),
            string_views(out@) == start + wikilink_messages(
                views(paths@),
                md@,
                text@,
                wl@.take(k as int),
            ),
        decreases wl.len() - k,
    {
        let m = wl[k];
        assert(wl@.take(k + 1).drop_last() =~= wl@.take(k as int));
        assert(wl@.take(k + 1).last() == m);
        let target = slice_chars(text, m.target_start, m.target_end);
        let ghost before = string_views(out@);
        match norm_wikilink_target(&wiki, &target) {
            Some(dest) => {
                if !contains_path(paths, &dest) {
                    let mut msg = slice_chars(md, 0, md.len());
                    push_str(&mut msg, ": broken wikilink [[");
                    append_chars(&mut msg, &target);
                    push_str(&mut msg, "]] -> ");
                    append_chars(&mut msg, &dest);
                    assert(msg@ =~= md@ + ": broken wikilink [["@ + target@ + "]] -> "@ + dest@);
                    out.push(from_chars(&msg));
                    assert(string_views(out@) =~= before.push(msg@));
                }
            },
            None => {},
        }
        k = k + 1;
    }
    assert(wl@.take(wl.len() as int) =~= wl@);
    let ml = scan_links(text, false);
    let ghost mid = string_views(out@);
    let mut k: usize = 0;
    while k < ml.len()
        invariant
            k <= ml.len(),
            wiki@ == "wiki"@,
            ml@ == mdlinks(text@),
            forall|q: int|
                0 <= q < ml@.len() ==> (#[trigger] ml@[q]).target_start <= ml@[q].target_end
                    <= text.len(),
            string_views(out@) == mid + mdlink_messages(
                views(paths@),
                md@,
                text@,
                ml@.take(k as int),
            ),
        decreases ml.len() - k,
    {
        let m = ml[k];
        assert(ml@.take(k + 1).drop_last() =~= ml@.take(k as int));
        assert(ml@.take(k + 1).last() == m);
        let target = slice_chars(text, m.target_start, m.target_end);
        let ghost before = string_views(out@);
        match norm_md_link(&wiki, md, &target) {
            Some(dest) => {
                if !contains_path(paths, &dest) {
                    let mut msg = slice_chars(md, 0, md.len());
                    push_str(&mut msg, ": broken link (");
                    append_chars(&mut msg, &target);
                    push_str(&mut msg, ") -> ");
                    append_chars(&mut msg, &dest);
                    assert(msg@ =~= md@ + ": broken link ("@ + target@ + ") -> "@ + dest@);
                    out.push(from_chars(&msg));
                    assert(string_views(out@) =~= before.push(msg@));
                }
            },
            None => {},
        }
        k = k + 1;
    }
    assert(ml@.take(ml.len() as int) =~= ml@);
}

proof fn lemma_messages_upto_push(paths: Seq<Seq<char>>, texts: Seq<Seq<char>>, o: Seq<usize>, i: usize, n: int)
    requires
        0 <= n <= o.len(),
    ensures
        messages_upto(paths, texts, o.push(i), n) == messages_upto(paths, texts, o, n),
    decreases n,
{
    if n > 0 {
        lemma_messages_upto_push(paths, texts, o, i, n - 1);
    }
}

/// Character vectors of the paths and texts of a tree.
fn tree_chars(tree: &WikiTree) -> (r: (Vec<Vec<char>>, Vec<Vec<char>>))
    ensures
        views(r.0@) == tree.paths(),
        views(r.1@) == tree.texts(),
        r.0@.len() == tree.files@.len(),
        r.1@.len() == tree.files@.len(),
{
    let mut paths: Vec<Vec<char>> = Vec::new();
    let mut texts: Vec<Vec<char>> = Vec::new();
    let mut i: usize = 0;
    while i < tree.files.len()
        invariant
            i <= tree.files.len(),
            views(paths@) == tree.paths().take(i as int),
            views(texts@) == tree.texts().take(i as int),
        decreases tree.files.len() - i,
    {
        let ghost op = views(paths@);
        let ghost ot = views(texts@);
        let p = string_chars(&tree.files[i].path);
        let t = string_chars(&tree.files[i].text);
        paths.push(p);
        texts.push(t);
        assert(views(paths@) =~= op.push(p@));
        assert(views(texts@) =~= ot.push(t@));
        assert(tree.paths().take(i + 1) =~= tree.paths().take(i as int).push(tree.paths()[i as int]));
        assert(tree.texts().take(i + 1) =~= tree.texts().take(i as int).push(tree.texts()[i as int]));
        i = i + 1;
    }
    assert(tree.paths().take(tree.files.len() as int) =~= tree.paths());
    assert(tree.texts().take(tree.files.len() as int) =~= tree.texts());
    (paths, texts)
}

/// The keys ordering paths component by component.
pub(crate) fn component_keys(paths: &Vec<Vec<char>>) -> (r: Vec<Vec<char>>)
    ensures
        views(r@) == views(paths@).map_values(|p: Seq<char>| component_key(p)),
{
    let mut r: Vec<Vec<char>> = Vec::new();
    let mut i: usize = 0;
    while i < paths.len()
        invariant
            i <= paths.len(),
            views(r@) == views(paths@).map_values(|p: Seq<char>| component_key(p)).take(i as int),
        decreases paths.len() - i,
    {
        let p = &paths[i];
        let mut k: Vec<char> = Vec::new();
        let mut j: usize = 0;
        while j < p.len()
            invariant
                j <= p.len(),
                k@ == component_key(p@).take(j as int),
            decreases p.len() - j,
        {
            k.push(if p[j] == '/' { '\u{0}' } else { p[j] });
            assert(k@ =~= component_key(p@).take(j + 1));
            j = j + 1;
        }
        assert(component_key(p@).take(p.len() as int) =~= component_key(p@));
        let ghost old = views(r@);
        r.push(k);
        assert(views(r@) =~= old.push(k@));
        assert(views(paths@)[i as int] == p@);
        assert(views(paths@).map_values(|p: Seq<char>| component_key(p)).take(i + 1) =~= views(
            paths@,
        ).map_values(|p: Seq<char>| component_key(p)).take(i as int).push(component_key(p@)));
        i = i + 1;
    }
    assert(views(paths@).map_values(|p: Seq<char>| component_key(p)).take(paths.len() as int)
        =~= views(paths@).map_values(|p: Seq<char>| component_key(p)));
    r
}

pub(crate) fn is_md_chars(p: &Vec<char>) -> (b: bool)
    ensures
        b == is_md_path(p@),
{
    let md = lit(".md");
    p.len() > 3 && has_suffix(p, &md) && p[p.len() - 4] != '/'
}

/// Indices of the markdown paths among `order`, in that order.
fn md_indices(paths: &Vec<Vec<char>>, order: &Vec<usize>) -> (r: Vec<usize>)
    ensures
        r@ == md_only(views(paths@), order@, order@.len() as int),
        forall|k: int| 0 <= k < r@.len() ==> (#[trigger] r@[k] as int) < paths.len(),
{
    let mut r: Vec<usize> = Vec::new();
    let mut n: usize = 0;
    while n < order.len()
        invariant
            n <= order.len(),
            r@ == md_only(views(paths@), order@, n as int),
            forall|k: int| 0 <= k < r@.len() ==> (#[trigger] r@[k] as int) < paths.len(),
        decreases order.len() - n,
    {
        let i = order[n];
        if i < paths.len() && is_md_chars(&paths[i]) {
            r.push(i);
        }
        n = n + 1;
    }
    r
}

/// Return one human-readable line for each broken wikilink or relative
/// markdown link: pages in path order, each page's wikilinks before its
/// markdown links.
pub fn check_links(tree: &WikiTree) -> (r: Vec<String>)
    ensures
        string_views(r@) == broken_links(tree.paths(), tree.texts()),
{
    let (paths, texts) = tree_chars(tree);
    let keys = component_keys(&paths);
    let order = sort_indices(&keys);
    let md = md_indices(&paths, &order);
    let ghost ps = views(paths@);
    let ghost ts = views(texts@);
    let mut out: Vec<String> = Vec::new();
    let mut n: usize = 0;
    while n < md.len()
        invariant
            n <= md.len(),
            ps == views(paths@),
            ts == views(texts@),
            texts.len() == paths.len(),
            forall|k: int| 0 <= k < md@.len() ==> (#[trigger] md@[k] as int) < paths.len(),
            string_views(out@) == messages_upto(ps, ts, md@, n as int),
        decreases md.len() - n,
    {
        let i = md[n];
        page_messages_exec(&paths, &paths[i], &texts[i], &mut out);
        n = n + 1;
    }
    out
}

/// The entry pages, never reported as orphans.
pub open spec fn is_entry(p: Seq<char>) -> bool {
    p == "wiki/index.md"@ || p == "wiki/inbox.md"@ || p == "wiki/sources/index.md"@ || p
        == "wiki/log.md"@
}

/// Existing files that the wikilinks `links` of `text` name.
pub open spec fn link_targets(paths: Seq<Seq<char>>, text: Seq<char>, links: Seq<LinkSpan>) -> Seq<Seq<char>>
    decreases links.len(),
{
    if links.len() == 0 {
        seq![]
    } else {
        let m = links.last();
        let rest = link_targets(paths, text, links.drop_last());
        match wikilink_dest(
            "wiki"@,
            text.subrange(m.target_start as int, m.target_end as int),
        ) {
            Some(dest) => if paths.contains(dest) {
                rest.push(dest)
            } else {
                rest
            },
            None => rest,
        }
    }
}

/// Existing files named by a wikilink in one of the first `n` files.
pub open spec fn linked_upto(paths: Seq<Seq<char>>, texts: Seq<Seq<char>>, n: int) -> Seq<Seq<char>>
    decreases n,
{
    if n <= 0 {
        seq![]
    } else {
        linked_upto(paths, texts, n - 1) + (if is_md_path(paths[n - 1]) {
            link_targets(paths, texts[n - 1], wikilinks(texts[n - 1]))
        } else {
            seq![]
        })
    }
}

/// The markdown pages at `order[..n]` that are neither entry pages nor the
/// target of any wikilink.
pub open spec fn orphans_upto(paths: Seq<Seq<char>>, linked: Seq<Seq<char>>, order: Seq<usize>, n: int) -> Seq<Seq<char>>
    decreases n,
{
    if n <= 0 {
        seq![]
    } else {
        let p = paths[order[n - 1] as int];
        if !is_entry(p) && !linked.contains(p) {
            orphans_upto(paths, linked, order, n - 1).push(p)
        } else {
            orphans_upto(paths, linked, order, n - 1)
        }
    }
}

/// Pages under `wiki/` never targeted by a `[[wikilink]]`, excluding the entry
/// pages, in path order.
pub open spec fn orphans(paths: Seq<Seq<char>>, texts: Seq<Seq<char>>) -> Seq<Seq<char>> {
    let order = md_order_by(paths, paths);
    orphans_upto(paths, linked_upto(paths, texts, paths.len() as int), order, order.len() as int)
}

proof fn lemma_orphans_upto(paths: Seq<Seq<char>>, linked: Seq<Seq<char>>, order: Seq<usize>, n: int)
    ensures
        forall|i: int|
            0 <= i < orphans_upto(paths, linked, order, n).len() ==> {
                let p = #[trigger] orphans_upto(paths, linked, order, n)[i];
                !is_entry(p) && !linked.contains(p)
            },
    decreases n,
{
    if n > 0 {
        lemma_orphans_upto(paths, linked, order, n - 1);
        let prev = orphans_upto(paths, linked, order, n - 1);
        let all = orphans_upto(paths, linked, order, n);
        assert forall|i: int| 0 <= i < all.len() implies {
            let p = #[trigger] all[i];
            !is_entry(p) && !linked.contains(p)
        } by {
            if i < prev.len() {
                assert(all[i] == prev[i]);
            }
        }
    }
}

/// An orphan is never an entry page and never the target of a wikilink
/// from any page of the wiki.
pub proof fn law_orphans_are_unlinked_pages(paths: Seq<Seq<char>>, texts: Seq<Seq<char>>)
    ensures
        forall|i: int|
            0 <= i < orphans(paths, texts).len() ==> {
                let p = #[trigger] orphans(paths, texts)[i];
                !is_entry(p) && !linked_upto(paths, texts, paths.len() as int).contains(p)
            },
{
    let order = md_order_by(paths, paths);
    lemma_orphans_upto(paths, linked_upto(paths, texts, paths.len() as int), order, order.len() as int);
}

fn link_targets_exec(paths: &Vec<Vec<char>>, text: &Vec<char>, out: &mut Vec<Vec<char>>)
    ensures
        views(final(out)@) == views(old(out)@) + link_targets(views(paths@), text@, wikilinks(text@)),
{
    let wiki = lit("wiki");
    proof {
        reveal_strlit("wiki");
    }
    let wl = scan_links(text, true);
    let ghost start = views(old(out)@);
    let mut k: usize = 0;
    while k < wl.len()
        invariant
            k <= wl.len(),
            wiki@ == "wiki"@,
            wl@ == wikilinks(text@),
            forall|q: int|
                0 <= q < wl@.len() ==> (#[trigger] wl@[q]).target_start <= wl@[q].target_end
                    <= text.len(),
            views(out@) == start + link_targets(views(paths@), text@, wl@.take(k as int)),
        decreases wl.len() - k,
    {
        let m = wl[k];
        assert(wl@.take(k + 1).drop_last() =~= wl@.take(k as int));
        assert(wl@.take(k + 1).last() == m);
        let target = slice_chars(text, m.target_start, m.target_end);
        let ghost before = views(out@);
        match norm_wikilink_target(&wiki, &target) {
            Some(dest) => {
                if contains_path(paths, &dest) {
                    out.push(dest);
                    assert(views(out@) =~= before.push(dest@));
                }
            },
            None => {},
        }
        k = k + 1;
    }
    assert(wl@.take(wl.len() as int) =~= wl@);
}

/// The entry pages are never orphans: `wiki/index.md`, `wiki/inbox.md`,
/// `wiki/sources/index.md` and `wiki/log.md` are not in the orphan list,
/// whatever the wiki holds and whatever links to them.
pub proof fn law_entry_pages_are_never_orphans(paths: Seq<Seq<char>>, texts: Seq<Seq<char>>)
    ensures
        forall|i: int|
            0 <= i < orphans(paths, texts).len() ==> {
                let p = #[trigger] orphans(paths, texts)[i];
                &&& p != "wiki/index.md"@
                &&& p != "wiki/inbox.md"@
                &&& p != "wiki/sources/index.md"@
                &&& p != "wiki/log.md"@
            },
{
    let order = md_order_by(paths, paths);
    lemma_orphans_upto(paths, linked_upto(paths, texts, paths.len() as int), order, order.len() as int);
}

fn is_entry_chars(p: &Vec<char>) -> (b: bool)
    ensures
        b == is_entry(p@),
{
    let a = lit("wiki/index.md");
    let b = lit("wiki/inbox.md");
    let c = lit("wiki/sources/index.md");
    let d = lit("wiki/log.md");
    let r = same_chars(p, &a) || same_chars(p, &b) || same_chars(p, &c) || same_chars(p, &d);
    r
}

/// Whether two character vectors are equal.
pub fn same_chars(a: &Vec<char>, b: &Vec<char>) -> (r: bool)
    ensures
        r == (a@ == b@),
{
    let r = a.len() == b.len() && has_prefix(a, b);
    proof {
        if a.len() == b.len() && starts_with(a@, b@) {
            assert(a@ =~= b@);
        }
        if a@ == b@ {
            assert(a@.subrange(0, b@.len() as int) =~= b@);
        }
    }
    r
}

/// Pages under `wiki/` never targeted by an incoming `[[wikilink]]`,
/// excluding known entry files, in path order (relative to the wiki home).
pub fn list_orphans(tree: &WikiTree) -> (r: Vec<String>)
    ensures
        string_views(r@) == orphans(tree.paths(), tree.texts()),
{
    let (paths, texts) = tree_chars(tree);
    let ghost ps = views(paths@);
    let ghost ts = views(texts@);
    let mut linked: Vec<Vec<char>> = Vec::new();
    let mut i: usize = 0;
    while i < paths.len()
        invariant
            i <= paths.len(),
            ps == views(paths@),
            ts == views(texts@),
            texts.len() == paths.len(),
            views(linked@) == linked_upto(ps, ts, i as int),
        decreases paths.len() - i,
    {
        if is_md_chars(&paths[i]) {
            link_targets_exec(&paths, &texts[i], &mut linked);
        } else {
            assert(views(linked@) =~= linked_upto(ps, ts, i + 1));
        }
        i = i + 1;
    }
    let order = sort_indices(&paths);
    let md = md_indices(&paths, &order);
    let mut out: Vec<String> = Vec::new();
    let mut n: usize = 0;
    while n < md.len()
        invariant
            n <= md.len(),
            ps == views(paths@),
            views(linked@) == linked_upto(ps, ts, ps.len() as int),
            forall|k: int| 0 <= k < md@.len() ==> (#[trigger] md@[k] as int) < paths.len(),
            string_views(out@) == orphans_upto(ps, views(linked@), md@, n as int),
        decreases md.len() - n,
    {
        let p = &paths[md[n]];
        assert(p@ == ps[md@[n as int] as int]);
        if !is_entry_chars(p) && !contains_path(&linked, p) {
            let ghost old = string_views(out@);
            out.push(from_chars(p));
            assert(string_views(out@) =~= old.push(p@));
        }
        n = n + 1;
    }
    out
}

/// Whether a wiki root is usable: it could be canonicalized and holds a
/// `wiki/` directory.
#[derive(Debug, PartialEq, Eq)]
pub enum WikiRootError {
    /// The given path could not be canonicalized (does not exist).
    NotFound(String),
    /// The canonical path holds no `wiki/` directory.
    MissingWikiDir(String),
}

/// Accept a canonicalized wiki root when it contains a `wiki/` directory.
/// `canonical` is `None` when canonicalizing `given` failed.
pub fn validate_wiki_root(given: &str, canonical: Option<String>, has_wiki_dir: bool) -> (r: Result<String, WikiRootError>)
    ensures
        match r {
            Ok(w) => canonical matches Some(c) && has_wiki_dir && w@ == c@,
            Err(WikiRootError::NotFound(g)) => canonical is None && g@ == given@,
            Err(WikiRootError::MissingWikiDir(c)) => canonical matches Some(c0) && !has_wiki_dir
                && c@ == c0@,
        },
{
    match canonical {
        None => Err(WikiRootError::NotFound(from_chars(&lit(given)))),
        Some(c) => if has_wiki_dir {
            Ok(c)
        } else {
            Err(WikiRootError::MissingWikiDir(c))
        },
    }
}

/// The description of a [`WikiRootError`].
pub open spec fn wiki_root_error_text(e: WikiRootError) -> Seq<char> {
    match e {
        WikiRootError::NotFound(g) => "wiki root "@ + g@,
        WikiRootError::MissingWikiDir(c) => "not a wiki root (missing wiki/): "@ + c@,
    }
}

impl WikiRootError {
    /// Human-readable description.
    pub fn message(&self) -> (r: String)
        ensures
            r@ == wiki_root_error_text(*self),
    {
        let mut v: Vec<char> = Vec::new();
        match self {
            WikiRootError::NotFound(g) => {
                push_str(&mut v, "wiki root ");
                push_str(&mut v, g.as_str());
            },
            WikiRootError::MissingWikiDir(c) => {
                push_str(&mut v, "not a wiki root (missing wiki/): ");
                push_str(&mut v, c.as_str());
            },
        }
        from_chars(&v)
    }
}

} // verus!
