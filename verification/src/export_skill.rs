//! The Agent Skill export: the wiki index grouped under its headings, the
//! generated block listing every mirrored reference page, and where the
//! bundle lives.
//!
//! Copying files into `skill/references/` happens outside the library; the
//! functions here receive the index text, the section directories, the
//! markdown files under each section and the files already mirrored, and
//! decide the text of the generated block.

use vstd::prelude::*;
use crate::text::{
    append_chars, ends_with, from_chars, index_of, index_of_char, join, join_chars, last_before,
    last_index_of, lemma_index_of, lemma_last_before, lines, lit, push_str, slice_chars,
    split_chars, split_lines, split_on, string_chars, string_views, strings_chars, trim,
    trim_chars, trim_end, trim_end_chars, views, is_ws, is_whitespace, has_suffix,
};
use crate::upkeep::{LinkSpan, scan_links, wikilinks, is_md_path, is_md_chars};
use crate::ingest::{path_sorted, sort_paths};
use crate::paths::{chars_eq, path_parts, path_parts_exec};
use crate::order::{sort_indices, sorted_order, lemma_sort_idx_perm_len};
pub use crate::marker::{merge_skill_generated_index, GENERATED_INDEX_END, GENERATED_INDEX_START};

verus! {

// ---------------------------------------------------------------------------
// Titles from file names
// ---------------------------------------------------------------------------

/// The uppercase mapping of a character (one or more characters).
pub uninterp spec fn upper(c: char) -> Seq<char>;

/// The ASCII uppercase of a character: `a`..`z` become `A`..`Z`, every other
/// character stays.
pub open spec fn ascii_upper(c: char) -> char {
    if 'a' <= c && c <= 'z' {
        ((c as int) - 32) as char
    } else {
        c
    }
}

/// std's `char::to_uppercase`, collected into a string: the uppercase
/// mapping of `c`, named by `upper`; an ASCII character maps to its ASCII
/// uppercase alone.
#[verifier::external_body]
fn char_to_upper(c: char) -> (r: String)
    ensures
        r@ == upper(c),
        (c as int) < 0x80 ==> r@ == seq![ascii_upper(c)],
{
    c.to_uppercase().collect::<String>()
}

/// The last component of a path (`Path::file_name`): none for a path that
/// names no component or ends in `..`.
pub open spec fn file_name(p: Seq<char>) -> Option<Seq<char>> {
    let parts = path_parts(p);
    if parts.len() == 0 || parts.last() == seq!['.', '.'] {
        None
    } else {
        Some(parts.last())
    }
}

/// A file name without its extension: everything before the last `.`,
/// unless that `.` is the first character.
pub open spec fn stem_of_name(n: Seq<char>) -> Seq<char> {
    let k = last_before(n, '.', n.len() as int);
    if k > 0 {
        n.take(k)
    } else {
        n
    }
}

/// `Path::file_stem`, empty when there is no file name.
pub open spec fn file_stem(p: Seq<char>) -> Seq<char> {
    match file_name(p) {
        Some(n) => stem_of_name(n),
        None => seq![],
    }
}

/// A word with its first character uppercased.
pub open spec fn capitalize(w: Seq<char>) -> Seq<char> {
    if w.len() == 0 {
        seq![]
    } else {
        upper(w[0]) + w.drop_first()
    }
}

/// A display title from a path: its file stem split at `-`, each word
/// capitalized, joined by spaces (`hello-world.md` gives `Hello World`).
pub open spec fn titleish(s: Seq<char>) -> Seq<char> {
    join(split_on(file_stem(s), '-').map_values(|w: Seq<char>| capitalize(w)), " "@)
}

/// The file stem of a path (see [`file_stem`]).
pub fn file_stem_exec(p: &Vec<char>) -> (r: Vec<char>)
    ensures
        r@ == file_stem(p@),
{
    let parts = path_parts_exec(p);
    if parts.len() == 0 {
        return Vec::new();
    }
    let last = &parts[parts.len() - 1];
    assert(views(parts@).last() == last@);
    if last.len() == 2 && last[0] == '.' && last[1] == '.' {
        assert(last@ =~= seq!['.', '.']);
        return Vec::new();
    }
    proof {
        if last@ == seq!['.', '.'] {
            assert(last@[0] == '.' && last@[1] == '.');
        }
    }
    proof {
        lemma_last_before(last@, '.', last@.len() as int);
    }
    match last_index_of(last, '.') {
        Some(k) => if k > 0 {
            slice_chars(last, 0, k)
        } else {
            slice_chars(last, 0, last.len())
        },
        None => slice_chars(last, 0, last.len()),
    }
}

fn capitalize_exec(w: &Vec<char>) -> (r: Vec<char>)
    ensures
        r@ == capitalize(w@),
        w@.len() > 0 && (w@[0] as int) < 0x80 ==> r@ == seq![ascii_upper(w@[0])] + w@.drop_first(),
{
    if w.len() == 0 {
        return Vec::new();
    }
    let mut r = string_chars(&char_to_upper(w[0]));
    let rest = slice_chars(w, 1, w.len());
    append_chars(&mut r, &rest);
    assert(rest@ =~= w@.drop_first());
    r
}

/// A display title from a path: its stem's `-`-separated words capitalized.
pub fn titleish_stem(s: &str) -> (r: String)
    ensures
        r@ == titleish(s@),
{
    let stem = file_stem_exec(&lit(s));
    let words = split_chars(&stem, '-');
    let ghost ws = views(words@);
    let mut caps: Vec<Vec<char>> = Vec::new();
    let mut i: usize = 0;
    while i < words.len()
        invariant
            i <= words.len(),
            ws == views(words@),
            views(caps@) == ws.take(i as int).map_values(|w: Seq<char>| capitalize(w)),
        decreases words.len() - i,
    {
        let ghost old_caps = views(caps@);
        let c = capitalize_exec(&words[i]);
        caps.push(c);
        assert(views(caps@) =~= old_caps.push(c@));
        assert(ws.take(i + 1).map_values(|w: Seq<char>| capitalize(w)) =~= ws.take(
            i as int,
        ).map_values(|w: Seq<char>| capitalize(w)).push(capitalize(ws[i as int])));
        i = i + 1;
    }
    assert(ws.take(ws.len() as int) =~= ws);
    let sp = lit(" ");
    from_chars(&join_chars(&caps, &sp))
}

// ---------------------------------------------------------------------------
// Reading the index
// ---------------------------------------------------------------------------

/// The heading of an index line, as `^(#{2,3})\s+(.+?)\s*$` captures it
/// (trimmed): two or three `#`, whitespace, then at least one more
/// character.
pub open spec fn heading_of(line: Seq<char>) -> Option<Seq<char>> {
    if line.len() >= 2 && line[0] == '#' && line[1] == '#' {
        let p: int = if line.len() >= 3 && line[2] == '#' {
            3
        } else {
            2
        };
        if line.len() >= p + 2 && is_ws(line[p]) {
            Some(trim(line.skip(p)))
        } else {
            None
        }
    } else {
        None
    }
}

/// Only level-two and level-three headings group the index: a line gives a
/// heading only when it opens with exactly two or three `#` followed by
/// whitespace. In particular a level-one `# Title` line, a line with four
/// or more `#`, and a line with no whitespace after its `#`s give none.
pub proof fn law_index_headings_are_levels_two_and_three(line: Seq<char>)
    ensures
        heading_of(line) is Some ==> line.len() >= 3 && line[0] == '#' && line[1] == '#' && ((line[2] != '#'
            && is_ws(line[2])) || (line.len() >= 4 && line[2] == '#' && is_ws(line[3]))),
        line.len() >= 2 && line[0] == '#' && line[1] != '#' ==> heading_of(line) is None,
        line.len() >= 4 && line[0] == '#' && line[1] == '#' && line[2] == '#' && line[3] == '#' ==> heading_of(
            line,
        ) is None,
{
    if line.len() >= 3 && line[2] == '#' {
        assert(!is_ws('#'));
    }
    if line.len() >= 4 && line[3] == '#' {
        assert(!is_ws('#'));
    }
}

fn heading_of_exec(line: &Vec<char>) -> (r: Option<Vec<char>>)
    ensures
        match r {
            Some(h) => heading_of(line@) == Some(h@),
            None => heading_of(line@) is None,
        },
{
    if line.len() >= 2 && line[0] == '#' && line[1] == '#' {
        let p: usize = if line.len() >= 3 && line[2] == '#' {
            3
        } else {
            2
        };
        if line.len() >= p + 2 && is_whitespace(line[p]) {
            let rest = slice_chars(line, p, line.len());
            assert(rest@ =~= line@.skip(p as int));
            Some(trim_chars(&rest))
        } else {
            None
        }
    } else {
        None
    }
}

/// Where a flat link key (no `/`) lives: the first section holding
/// `<key>.md` at its top, else the first section holding exactly one
/// markdown file with that stem (its path under the section, without
/// `.md`).
pub open spec fn locate_stem(key: Seq<char>, sections: Seq<Seq<char>>, files: Seq<Seq<Seq<char>>>) -> Option<(Seq<char>, Seq<char>)> {
    match first_flat(key, files, 0) {
        Some(k) => Some((sections[k], key)),
        None => match first_unique(key, files, 0) {
            Some(k) => Some((sections[k], strip_md(unique_match(key, files[k])))),
            None => None,
        },
    }
}

/// `s` without a trailing `.md`.
pub open spec fn strip_md(s: Seq<char>) -> Seq<char> {
    if ends_with(s, ".md"@) {
        s.take(s.len() - 3)
    } else {
        s
    }
}

/// The first section index from `k` whose files hold `<key>.md`.
pub open spec fn first_flat(key: Seq<char>, files: Seq<Seq<Seq<char>>>, k: int) -> Option<int>
    decreases files.len() - k,
{
    if k < 0 || k >= files.len() {
        None
    } else if files[k].contains(key + ".md"@) {
        Some(k)
    } else {
        first_flat(key, files, k + 1)
    }
}

proof fn lemma_first_flat(key: Seq<char>, files: Seq<Seq<Seq<char>>>, k: int)
    requires
        0 <= k,
    ensures
        first_flat(key, files, k) matches Some(j) ==> k <= j < files.len(),
    decreases files.len() - k,
{
    if k < files.len() && !files[k].contains(key + ".md"@) {
        lemma_first_flat(key, files, k + 1);
    }
}

proof fn lemma_first_unique(key: Seq<char>, files: Seq<Seq<Seq<char>>>, k: int)
    requires
        0 <= k,
    ensures
        first_unique(key, files, k) matches Some(j) ==> k <= j < files.len(),
    decreases files.len() - k,
{
    if k < files.len() && stem_matches(key, files[k]).len() != 1 {
        lemma_first_unique(key, files, k + 1);
    }
}

/// The files of a section whose stem is `key`, in order.
pub open spec fn stem_matches(key: Seq<char>, fs: Seq<Seq<char>>) -> Seq<Seq<char>>
    decreases fs.len(),
{
    if fs.len() == 0 {
        seq![]
    } else {
        let prev = stem_matches(key, fs.drop_last());
        if file_stem(fs.last()) == key {
            prev.push(fs.last())
        } else {
            prev
        }
    }
}

/// The one file with stem `key`.
pub open spec fn unique_match(key: Seq<char>, fs: Seq<Seq<char>>) -> Seq<char> {
    stem_matches(key, fs)[0]
}

/// The first section index from `k` holding exactly one file with stem `key`.
pub open spec fn first_unique(key: Seq<char>, files: Seq<Seq<Seq<char>>>, k: int) -> Option<int>
    decreases files.len() - k,
{
    if k < 0 || k >= files.len() {
        None
    } else if stem_matches(key, files[k]).len() == 1 {
        Some(k)
    } else {
        first_unique(key, files, k + 1)
    }
}

/// The `(label, reference)` entry an index wikilink contributes, if it
/// resolves to a mirrored section: the reference is
/// `references/<section>/<path>.md`, the label the alias when non-empty,
/// otherwise the title of the path.
pub open spec fn link_entry(line: Seq<char>, m: LinkSpan, sections: Seq<Seq<char>>, files: Seq<Seq<Seq<char>>>) -> Option<(Seq<char>, Seq<char>)> {
    let target = trim(line.subrange(m.target_start as int, m.target_end as int));
    let key = strip_md(target);
    if key.len() == 0 {
        None
    } else {
        let loc = match index_of(key, '/') {
            Some(p) => Some((key.take(p), key.skip(p + 1))),
            None => locate_stem(key, sections, files),
        };
        match loc {
            None => None,
            Some((sec, rel)) => if sections.contains(sec) {
                let label = match m.alias {
                    Some((a, b)) => if trim(line.subrange(a as int, b as int)).len() > 0 {
                        trim(line.subrange(a as int, b as int))
                    } else {
                        titleish(rel)
                    },
                    None => titleish(rel),
                };
                Some((label, "references/"@ + sec + "/"@ + rel + ".md"@))
            } else {
                None
            },
        }
    }
}

/// The views of the file lists of the sections.
pub open spec fn nested_views(files: Seq<Vec<Vec<char>>>) -> Seq<Seq<Seq<char>>> {
    files.map_values(|v: Vec<Vec<char>>| views(v@))
}

/// Whether `list` holds `x`.
pub fn list_has(list: &Vec<Vec<char>>, x: &Vec<char>) -> (r: bool)
    ensures
        r == views(list@).contains(x@),
{
    let mut i: usize = 0;
    while i < list.len()
        invariant
            i <= list.len(),
            forall|k: int| 0 <= k < i ==> views(list@)[k] != x@,
        decreases list.len() - i,
    {
        if chars_eq(&list[i], x) {
            assert(views(list@)[i as int] == x@);
            return true;
        }
        i = i + 1;
    }
    proof {
        if views(list@).contains(x@) {
            let k = choose|k: int| 0 <= k < views(list@).len() && views(list@)[k] == x@;
            assert(views(list@)[k] != x@);
        }
    }
    false
}

fn first_flat_exec(key: &Vec<char>, files: &Vec<Vec<Vec<char>>>) -> (r: Option<usize>)
    ensures
        match r {
            Some(k) => first_flat(key@, nested_views(files@), 0) == Some(k as int),
            None => first_flat(key@, nested_views(files@), 0) is None,
        },
{
    let mut name = slice_chars(key, 0, key.len());
    push_str(&mut name, ".md");
    let ghost fs = nested_views(files@);
    let mut k: usize = 0;
    while k < files.len()
        invariant
            k <= files.len(),
            fs == nested_views(files@),
            name@ == key@ + ".md"@,
            first_flat(key@, fs, 0) == first_flat(key@, fs, k as int),
        decreases files.len() - k,
    {
        assert(fs[k as int] == views(files@[k as int]@));
        if list_has(&files[k], &name) {
            return Some(k);
        }
        k = k + 1;
    }
    None
}

fn stem_match_info(key: &Vec<char>, fs: &Vec<Vec<char>>) -> (r: (usize, Vec<char>))
    ensures
        r.0 == stem_matches(key@, views(fs@)).len(),
        r.0 > 0 ==> r.1@ == stem_matches(key@, views(fs@))[0],
{
    let ghost v = views(fs@);
    let mut count: usize = 0;
    let mut first: Vec<char> = Vec::new();
    let mut i: usize = 0;
    while i < fs.len()
        invariant
            i <= fs.len(),
            v == views(fs@),
            count == stem_matches(key@, v.take(i as int)).len(),
            count <= i,
            count > 0 ==> first@ == stem_matches(key@, v.take(i as int))[0],
        decreases fs.len() - i,
    {
        assert(v.take(i + 1).drop_last() =~= v.take(i as int));
        assert(v.take(i + 1).last() == fs@[i as int]@);
        let st = file_stem_exec(&fs[i]);
        if chars_eq(&st, key) {
            if count == 0 {
                first = slice_chars(&fs[i], 0, fs[i].len());
            }
            count = count + 1;
        }
        i = i + 1;
    }
    assert(v.take(fs.len() as int) =~= v);
    (count, first)
}

fn first_unique_exec(key: &Vec<char>, files: &Vec<Vec<Vec<char>>>) -> (r: Option<(usize, Vec<char>)>)
    ensures
        match r {
            Some((k, f)) => first_unique(key@, nested_views(files@), 0) == Some(k as int)
                && f@ == unique_match(key@, nested_views(files@)[k as int]),
            None => first_unique(key@, nested_views(files@), 0) is None,
        },
{
    let ghost fs = nested_views(files@);
    let mut k: usize = 0;
    while k < files.len()
        invariant
            k <= files.len(),
            fs == nested_views(files@),
            first_unique(key@, fs, 0) == first_unique(key@, fs, k as int),
        decreases files.len() - k,
    {
        assert(fs[k as int] == views(files@[k as int]@));
        let (n, f) = stem_match_info(key, &files[k]);
        if n == 1 {
            return Some((k, f));
        }
        k = k + 1;
    }
    None
}

fn strip_md_exec(s: &Vec<char>) -> (r: Vec<char>)
    ensures
        r@ == strip_md(s@),
{
    let md = lit(".md");
    proof {
        reveal_strlit(".md");
    }
    if has_suffix(s, &md) {
        slice_chars(s, 0, s.len() - 3)
    } else {
        slice_chars(s, 0, s.len())
    }
}

fn link_entry_exec(
    line: &Vec<char>,
    m: LinkSpan,
    sections: &Vec<Vec<char>>,
    files: &Vec<Vec<Vec<char>>>,
) -> (r: Option<(Vec<char>, Vec<char>)>)
    requires
        m.target_start <= m.target_end <= line.len(),
        m.alias matches Some((a, b)) ==> a <= b <= line.len(),
        sections.len() == files.len(),
    ensures
        match r {
            Some((l, f)) => link_entry(line@, m, views(sections@), nested_views(files@)) == Some(
                (l@, f@),
            ),
            None => link_entry(line@, m, views(sections@), nested_views(files@)) is None,
        },
{
    let ghost secs = views(sections@);
    let ghost fs = nested_views(files@);
    let target = trim_chars(&slice_chars(line, m.target_start, m.target_end));
    let key = strip_md_exec(&target);
    if key.len() == 0 {
        return None;
    }
    proof {
        lemma_index_of(key@, '/');
        lemma_first_flat(key@, fs, 0);
        lemma_first_unique(key@, fs, 0);
    }
    let (sec, rel) = match index_of_char(&key, '/') {
        Some(p) => (slice_chars(&key, 0, p), slice_chars(&key, p + 1, key.len())),
        None => match first_flat_exec(&key, files) {
            Some(k) => {
                assert(secs[k as int] == sections@[k as int]@);
                (slice_chars(&sections[k], 0, sections[k].len()), slice_chars(&key, 0, key.len()))
            },
            None => match first_unique_exec(&key, files) {
                Some((k, f)) => {
                    assert(secs[k as int] == sections@[k as int]@);
                    (slice_chars(&sections[k], 0, sections[k].len()), strip_md_exec(&f))
                },
                None => {
                    return None;
                },
            },
        },
    };
    assert(sec@ =~= match index_of(key@, '/') {
        Some(p) => key@.take(p),
        None => locate_stem(key@, secs, fs)->Some_0.0,
    });
    assert(rel@ =~= match index_of(key@, '/') {
        Some(p) => key@.skip(p + 1),
        None => locate_stem(key@, secs, fs)->Some_0.1,
    });
    if !list_has(sections, &sec) {
        return None;
    }
    let label = match m.alias {
        Some((a, b)) => {
            let al = trim_chars(&slice_chars(line, a, b));
            if al.len() > 0 {
                al
            } else {
                string_chars(&titleish_stem(from_chars(&rel).as_str()))
            }
        },
        None => string_chars(&titleish_stem(from_chars(&rel).as_str())),
    };
    let mut r = lit("references/");
    append_chars(&mut r, &sec);
    push_str(&mut r, "/");
    append_chars(&mut r, &rel);
    push_str(&mut r, ".md");
    Some((label, r))
}

/// The entries contributed by the links of one index line, in order.
pub open spec fn line_entries(line: Seq<char>, links: Seq<LinkSpan>, sections: Seq<Seq<char>>, files: Seq<Seq<Seq<char>>>) -> Seq<(Seq<char>, Seq<char>)>
    decreases links.len(),
{
    if links.len() == 0 {
        seq![]
    } else {
        let prev = line_entries(line, links.drop_last(), sections, files);
        match link_entry(line, links.last(), sections, files) {
            Some(e) => prev.push(e),
            None => prev,
        }
    }
}

/// Entries tagged with the heading they stand under.
pub open spec fn with_heading(h: Seq<char>, es: Seq<(Seq<char>, Seq<char>)>) -> Seq<(Seq<char>, Seq<char>, Seq<char>)> {
    es.map_values(|e: (Seq<char>, Seq<char>)| (h, e.0, e.1))
}

/// After the first `n` lines of the index: the heading in force (initially
/// `Index`) and the `(heading, label, reference)` entries so far. A heading
/// line changes the heading and contributes no entries.
pub open spec fn index_state(ls: Seq<Seq<char>>, n: int, sections: Seq<Seq<char>>, files: Seq<Seq<Seq<char>>>) -> (Seq<char>, Seq<(Seq<char>, Seq<char>, Seq<char>)>)
    decreases n,
{
    if n <= 0 {
        ("Index"@, seq![])
    } else {
        let prev = index_state(ls, n - 1, sections, files);
        let line = ls[n - 1];
        match heading_of(line) {
            Some(h) => (h, prev.1),
            None => (prev.0, prev.1 + with_heading(
                prev.0,
                line_entries(line, wikilinks(line), sections, files),
            )),
        }
    }
}

/// All `(heading, label, reference)` entries of an index text.
pub open spec fn index_entries(text: Seq<char>, sections: Seq<Seq<char>>, files: Seq<Seq<Seq<char>>>) -> Seq<(Seq<char>, Seq<char>, Seq<char>)> {
    index_state(lines(text), lines(text).len() as int, sections, files).1
}

/// The distinct members of `s`, in order of first appearance.
pub open spec fn distinct(s: Seq<Seq<char>>) -> Seq<Seq<char>>
    decreases s.len(),
{
    if s.len() == 0 {
        seq![]
    } else {
        let prev = distinct(s.drop_last());
        if prev.contains(s.last()) {
            prev
        } else {
            prev.push(s.last())
        }
    }
}

/// The `(label, reference)` items under heading `h`, in order.
pub open spec fn group_items(es: Seq<(Seq<char>, Seq<char>, Seq<char>)>, h: Seq<char>) -> Seq<(Seq<char>, Seq<char>)>
    decreases es.len(),
{
    if es.len() == 0 {
        seq![]
    } else {
        let prev = group_items(es.drop_last(), h);
        if es.last().0 == h {
            prev.push((es.last().1, es.last().2))
        } else {
            prev
        }
    }
}

/// The headings of the entries.
pub open spec fn entry_headings(es: Seq<(Seq<char>, Seq<char>, Seq<char>)>) -> Seq<Seq<char>> {
    es.map_values(|e: (Seq<char>, Seq<char>, Seq<char>)| e.0)
}

/// The references of the entries.
pub open spec fn entry_refs(es: Seq<(Seq<char>, Seq<char>, Seq<char>)>) -> Seq<Seq<char>> {
    es.map_values(|e: (Seq<char>, Seq<char>, Seq<char>)| e.2)
}

/// The entries grouped by heading, headings in order of first appearance.
pub open spec fn index_groups(es: Seq<(Seq<char>, Seq<char>, Seq<char>)>) -> Seq<(Seq<char>, Seq<(Seq<char>, Seq<char>)>)> {
    distinct(entry_headings(es)).map_values(|h: Seq<char>| (h, group_items(es, h)))
}

/// The reference of page `rel` of section `sec` in the skill bundle.
pub open spec fn ref_of(sec: Seq<char>, rel: Seq<char>) -> Seq<char> {
    "references/"@ + sec + "/"@ + rel + ".md"@
}

/// `r` is the reference of a page of one of `sections`.
pub open spec fn mirrored_ref(r: Seq<char>, sections: Seq<Seq<char>>) -> bool {
    exists|sec: Seq<char>, rel: Seq<char>| sections.contains(sec) && #[trigger] ref_of(sec, rel) == r
}

proof fn lemma_link_entry_mirrored(line: Seq<char>, m: LinkSpan, sections: Seq<Seq<char>>, files: Seq<Seq<Seq<char>>>)
    ensures
        link_entry(line, m, sections, files) matches Some(e) ==> mirrored_ref(e.1, sections),
{
    let target = trim(line.subrange(m.target_start as int, m.target_end as int));
    let key = strip_md(target);
    if key.len() > 0 {
        let loc = match index_of(key, '/') {
            Some(p) => Some((key.take(p), key.skip(p + 1))),
            None => locate_stem(key, sections, files),
        };
        if let Some((sec, rel)) = loc {
            if sections.contains(sec) {
                assert(ref_of(sec, rel) == "references/"@ + sec + "/"@ + rel + ".md"@);
            }
        }
    }
}

proof fn lemma_line_entries_mirrored(line: Seq<char>, links: Seq<LinkSpan>, sections: Seq<Seq<char>>, files: Seq<Seq<Seq<char>>>)
    ensures
        forall|i: int|
            0 <= i < line_entries(line, links, sections, files).len() ==> mirrored_ref(
                #[trigger] line_entries(line, links, sections, files)[i].1,
                sections,
            ),
    decreases links.len(),
{
    if links.len() > 0 {
        lemma_line_entries_mirrored(line, links.drop_last(), sections, files);
        lemma_link_entry_mirrored(line, links.last(), sections, files);
        let prev = line_entries(line, links.drop_last(), sections, files);
        let all = line_entries(line, links, sections, files);
        assert forall|i: int| 0 <= i < all.len() implies mirrored_ref(#[trigger] all[i].1, sections) by {
            if i < prev.len() {
                assert(all[i] == prev[i]);
            }
        }
    }
}

proof fn lemma_index_state_mirrored(ls: Seq<Seq<char>>, n: int, sections: Seq<Seq<char>>, files: Seq<Seq<Seq<char>>>)
    ensures
        forall|i: int|
            0 <= i < index_state(ls, n, sections, files).1.len() ==> mirrored_ref(
                #[trigger] index_state(ls, n, sections, files).1[i].2,
                sections,
            ),
    decreases n,
{
    if n > 0 {
        lemma_index_state_mirrored(ls, n - 1, sections, files);
        let prev = index_state(ls, n - 1, sections, files);
        let line = ls[n - 1];
        if heading_of(line) is None {
            let le = line_entries(line, wikilinks(line), sections, files);
            lemma_line_entries_mirrored(line, wikilinks(line), sections, files);
            let add = with_heading(prev.0, le);
            let all = prev.1 + add;
            assert forall|i: int| 0 <= i < all.len() implies mirrored_ref(#[trigger] all[i].2, sections) by {
                if i >= prev.1.len() {
                    assert(all[i] == add[i - prev.1.len()]);
                    assert(add[i - prev.1.len()].2 == le[i - prev.1.len()].1);
                } else {
                    assert(all[i] == prev.1[i]);
                }
            }
        }
    }
}

proof fn lemma_distinct_from(s: Seq<Seq<char>>)
    ensures
        forall|i: int| 0 <= i < distinct(s).len() ==> s.contains(#[trigger] distinct(s)[i]),
    decreases s.len(),
{
    if s.len() > 0 {
        lemma_distinct_from(s.drop_last());
        let prev = distinct(s.drop_last());
        assert forall|i: int| 0 <= i < distinct(s).len() implies s.contains(#[trigger] distinct(s)[i]) by {
            if i < prev.len() {
                assert(distinct(s)[i] == prev[i]);
                let j = choose|j: int| 0 <= j < s.drop_last().len() && s.drop_last()[j] == prev[i];
                assert(s[j] == prev[i]);
            } else {
                assert(distinct(s)[i] == s.last());
                assert(s[s.len() - 1] == s.last());
            }
        }
    }
}

/// The generated index links only into the mirrored bundle: every entry
/// read from the wiki index, and every reference it counts as linked, is
/// `references/<section>/<page>.md` for one of the mirrored sections.
pub proof fn law_index_links_only_mirrored_pages(text: Seq<char>, sections: Seq<MirrorSection>)
    ensures
        forall|i: int|
            0 <= i < index_entries(text, section_names(sections), section_files(sections)).len()
                ==> mirrored_ref(
                #[trigger] index_entries(text, section_names(sections), section_files(sections))[i].2,
                section_names(sections),
            ),
        forall|i: int|
            0 <= i < index_parse(text, sections).1.len() ==> mirrored_ref(
                #[trigger] index_parse(text, sections).1[i],
                section_names(sections),
            ),
{
    let names = section_names(sections);
    let files = section_files(sections);
    let ls = lines(text);
    lemma_index_state_mirrored(ls, ls.len() as int, names, files);
    let es = index_entries(text, names, files);
    let refs = entry_refs(es);
    lemma_distinct_from(refs);
    assert forall|i: int| 0 <= i < index_parse(text, sections).1.len() implies mirrored_ref(
        #[trigger] index_parse(text, sections).1[i],
        names,
    ) by {
        let r = distinct(refs)[i];
        let j = choose|j: int| 0 <= j < refs.len() && refs[j] == r;
        assert(refs[j] == es[j].2);
    }
}

proof fn lemma_unlinked_keeps(m: Seq<Seq<char>>, inc: Seq<Seq<char>>, x: Seq<char>)
    requires
        m.contains(x),
        !inc.contains(x),
    ensures
        unlinked(m, inc).contains(x),
    decreases m.len(),
{
    let j = choose|j: int| 0 <= j < m.len() && m[j] == x;
    if j == m.len() - 1 {
        let prev = unlinked(m.drop_last(), inc);
        assert(unlinked(m, inc) == prev.push(x));
        assert(unlinked(m, inc)[prev.len() as int] == x);
    } else {
        assert(m.drop_last()[j] == x);
        lemma_unlinked_keeps(m.drop_last(), inc, x);
        let prev = unlinked(m.drop_last(), inc);
        let k = choose|k: int| 0 <= k < prev.len() && prev[k] == x;
        if !inc.contains(m.last()) {
            assert(unlinked(m, inc)[k] == x);
        }
    }
}

proof fn lemma_unlinked_len(m: Seq<Seq<char>>, inc: Seq<Seq<char>>)
    ensures
        unlinked(m, inc).len() <= m.len(),
    decreases m.len(),
{
    if m.len() > 0 {
        lemma_unlinked_len(m.drop_last(), inc);
    }
}

/// Every mirrored page shows in the generated index: linked from the wiki
/// index, or else listed among the unlinked references. (The mirrored
/// pages are a list held in memory, so their count fits a `usize`.)
pub proof fn law_every_mirrored_page_is_listed(text: Seq<char>, sections: Seq<MirrorSection>, mirrored: Seq<Seq<char>>, x: Seq<char>)
    requires
        mirrored.len() <= usize::MAX,
        mirrored.contains(x),
    ensures
        index_parse(text, sections).1.contains(x) || orphan_refs(mirrored, index_parse(text, sections).1).contains(x),
{
    let inc = index_parse(text, sections).1;
    if !inc.contains(x) {
        lemma_unlinked_keeps(mirrored, inc, x);
        lemma_unlinked_len(mirrored, inc);
        let u = unlinked(mirrored, inc);
        let j = choose|j: int| 0 <= j < u.len() && u[j] == x;
        crate::order::lemma_sort_idx_complete(u, u.len());
        crate::order::lemma_sort_idx_perm_len(u, u.len());
        let o = sorted_order(u);
        assert(o.contains(j as usize));
        let k = choose|k: int| 0 <= k < o.len() && o[k] == j as usize;
        let r = o.map_values(|i: usize| u[i as int]);
        assert(r[k] == u[o[k] as int]);
        assert(orphan_refs(mirrored, inc) == r);
        assert(r[k] == x);
    }
}

/// The views of entry triples.
pub open spec fn triples(v: Seq<(Vec<char>, Vec<char>, Vec<char>)>) -> Seq<(Seq<char>, Seq<char>, Seq<char>)> {
    v.map_values(|e: (Vec<char>, Vec<char>, Vec<char>)| (e.0@, e.1@, e.2@))
}

/// The views of `(label, reference)` pairs.
pub open spec fn pairs(v: Seq<(Vec<char>, Vec<char>)>) -> Seq<(Seq<char>, Seq<char>)> {
    v.map_values(|e: (Vec<char>, Vec<char>)| (e.0@, e.1@))
}

fn line_entries_exec(
    line: &Vec<char>,
    h: &Vec<char>,
    sections: &Vec<Vec<char>>,
    files: &Vec<Vec<Vec<char>>>,
    out: &mut Vec<(Vec<char>, Vec<char>, Vec<char>)>,
)
    requires
        sections.len() == files.len(),
    ensures
        triples(final(out)@) == triples(old(out)@) + with_heading(
            h@,
            line_entries(line@, wikilinks(line@), views(sections@), nested_views(files@)),
        ),
{
    let ghost secs = views(sections@);
    let ghost fs = nested_views(files@);
    let wl = scan_links(line, true);
    let ghost start = triples(out@);
    let mut k: usize = 0;
    while k < wl.len()
        invariant
            k <= wl.len(),
            sections.len() == files.len(),
            secs == views(sections@),
            fs == nested_views(files@),
            wl@ == wikilinks(line@),
            forall|q: int|
                0 <= q < wl@.len() ==> (#[trigger] wl@[q]).target_start <= wl@[q].target_end
                    <= line.len() && (wl@[q].alias matches Some((a, b)) ==> a <= b <= line.len()),
            triples(out@) == start + with_heading(h@, line_entries(line@, wl@.take(k as int), secs, fs)),
        decreases wl.len() - k,
    {
        let m = wl[k];
        assert(wl@.take(k + 1).drop_last() =~= wl@.take(k as int));
        assert(wl@.take(k + 1).last() == m);
        let ghost before = triples(out@);
        match link_entry_exec(line, m, sections, files) {
            Some((l, f)) => {
                let hh = h.clone();
                let ghost old_seq = out@;
                let item = (hh, l, f);
                out.push(item);
                assert(out@ == old_seq.push(item));
                assert(triples(out@) =~= triples(old_seq).push((h@, l@, f@)));
                assert(with_heading(h@, line_entries(line@, wl@.take(k + 1), secs, fs)) =~= with_heading(
                    h@,
                    line_entries(line@, wl@.take(k as int), secs, fs),
                ).push((h@, l@, f@)));
            },
            None => {},
        }
        k = k + 1;
    }
    assert(wl@.take(wl.len() as int) =~= wl@);
}

fn entries_exec(text: &Vec<char>, sections: &Vec<Vec<char>>, files: &Vec<Vec<Vec<char>>>) -> (r: Vec<
    (Vec<char>, Vec<char>, Vec<char>),
>)
    requires
        sections.len() == files.len(),
    ensures
        triples(r@) == index_entries(text@, views(sections@), nested_views(files@)),
{
    let ghost secs = views(sections@);
    let ghost fs = nested_views(files@);
    let ls = split_lines(text);
    let ghost lv = views(ls@);
    let mut heading = lit("Index");
    let mut out: Vec<(Vec<char>, Vec<char>, Vec<char>)> = Vec::new();
    let mut i: usize = 0;
    while i < ls.len()
        invariant
            i <= ls.len(),
            sections.len() == files.len(),
            secs == views(sections@),
            fs == nested_views(files@),
            lv == views(ls@),
            lv == lines(text@),
            heading@ == index_state(lv, i as int, secs, fs).0,
            triples(out@) == index_state(lv, i as int, secs, fs).1,
        decreases ls.len() - i,
    {
        assert(lv[i as int] == ls@[i as int]@);
        match heading_of_exec(&ls[i]) {
            Some(h) => {
                heading = h;
            },
            None => {
                line_entries_exec(&ls[i], &heading, sections, files, &mut out);
            },
        }
        i = i + 1;
    }
    out
}

/// The distinct members of `s`, in order of first appearance.
pub fn distinct_exec(s: &Vec<Vec<char>>) -> (r: Vec<Vec<char>>)
    ensures
        views(r@) == distinct(views(s@)),
{
    let ghost v = views(s@);
    let mut r: Vec<Vec<char>> = Vec::new();
    let mut i: usize = 0;
    while i < s.len()
        invariant
            i <= s.len(),
            v == views(s@),
            views(r@) == distinct(v.take(i as int)),
        decreases s.len() - i,
    {
        assert(v.take(i + 1).drop_last() =~= v.take(i as int));
        assert(v.take(i + 1).last() == s@[i as int]@);
        if !list_has(&r, &s[i]) {
            let ghost old_seq = r@;
            let x = (s[i]).clone();
            r.push(x);
            assert(r@ == old_seq.push(x));
            assert(views(r@) =~= views(old_seq).push(s@[i as int]@));
        }
        i = i + 1;
    }
    assert(v.take(s.len() as int) =~= v);
    r
}

fn group_items_exec(es: &Vec<(Vec<char>, Vec<char>, Vec<char>)>, h: &Vec<char>) -> (r: Vec<
    (Vec<char>, Vec<char>),
>)
    ensures
        pairs(r@) == group_items(triples(es@), h@),
{
    let ghost t = triples(es@);
    let mut r: Vec<(Vec<char>, Vec<char>)> = Vec::new();
    let mut i: usize = 0;
    while i < es.len()
        invariant
            i <= es.len(),
            t == triples(es@),
            pairs(r@) == group_items(t.take(i as int), h@),
        decreases es.len() - i,
    {
        assert(t.take(i + 1).drop_last() =~= t.take(i as int));
        assert(t.take(i + 1).last() == t[i as int]);
        let (a, b, c) = &es[i];
        if chars_eq(a, h) {
            let ghost old_seq = r@;
            let item = (b.clone(), c.clone());
            r.push(item);
            assert(r@ == old_seq.push(item));
            assert(pairs(r@) =~= pairs(old_seq).push((b@, c@)));
        }
        i = i + 1;
    }
    assert(t.take(es.len() as int) =~= t);
    r
}

fn column(es: &Vec<(Vec<char>, Vec<char>, Vec<char>)>, first: bool) -> (r: Vec<Vec<char>>)
    ensures
        views(r@) == if first {
            entry_headings(triples(es@))
        } else {
            entry_refs(triples(es@))
        },
{
    let ghost t = triples(es@);
    let mut r: Vec<Vec<char>> = Vec::new();
    let mut i: usize = 0;
    while i < es.len()
        invariant
            i <= es.len(),
            t == triples(es@),
            views(r@) == if first {
                entry_headings(t.take(i as int))
            } else {
                entry_refs(t.take(i as int))
            },
        decreases es.len() - i,
    {
        let ghost old_seq = r@;
        let (a, _b, c) = &es[i];
        assert(t[i as int] == (a@, _b@, c@));
        let x = if first {
            a.clone()
        } else {
            c.clone()
        };
        r.push(x);
        assert(r@ == old_seq.push(x));
        assert(views(r@) =~= views(old_seq).push(x@));
        assert(entry_headings(t.take(i + 1)) =~= entry_headings(t.take(i as int)).push(t[i as int].0));
        assert(entry_refs(t.take(i + 1)) =~= entry_refs(t.take(i as int)).push(t[i as int].2));
        i = i + 1;
    }
    assert(t.take(es.len() as int) =~= t);
    r
}

// ---------------------------------------------------------------------------
// The generated block
// ---------------------------------------------------------------------------

/// `- [label](reference)`.
pub open spec fn item_line(label: Seq<char>, r: Seq<char>) -> Seq<char> {
    "- ["@ + label + "]("@ + r + ")"@
}

/// One line per item.
pub open spec fn items_lines(items: Seq<(Seq<char>, Seq<char>)>) -> Seq<Seq<char>> {
    items.map_values(|it: (Seq<char>, Seq<char>)| item_line(it.0, it.1))
}

/// The lines of one group: its `###` heading, a blank line, its items and
/// a blank line.
pub open spec fn group_lines(h: Seq<char>, items: Seq<(Seq<char>, Seq<char>)>) -> Seq<Seq<char>> {
    seq!["### "@ + h, seq![]] + items_lines(items) + seq![seq![]]
}

/// The lines of all groups, in order.
pub open spec fn groups_lines(gs: Seq<(Seq<char>, Seq<(Seq<char>, Seq<char>)>)>) -> Seq<Seq<char>>
    decreases gs.len(),
{
    if gs.len() == 0 {
        seq![]
    } else {
        groups_lines(gs.drop_last()) + group_lines(gs.last().0, gs.last().1)
    }
}

/// The lines listing mirrored pages the index does not link, titled from
/// their file names; nothing when there are none.
pub open spec fn orphan_lines(os: Seq<Seq<char>>) -> Seq<Seq<char>> {
    if os.len() == 0 {
        seq![]
    } else {
        seq!["### On disk but not linked from index"@, seq![]] + os.map_values(
            |r: Seq<char>| item_line(titleish(file_stem(r)), r),
        ) + seq![seq![]]
    }
}

/// The generated block: `## Wiki index`, the groups and the unlinked
/// pages, lines joined by newlines, trailing whitespace replaced by a single
/// newline.
pub open spec fn generated_block(gs: Seq<(Seq<char>, Seq<(Seq<char>, Seq<char>)>)>, os: Seq<Seq<char>>) -> Seq<char> {
    trim_end(join(seq!["## Wiki index"@, seq![]] + groups_lines(gs) + orphan_lines(os), "\n"@)) + "\n"@
}

/// The members of `m` that `inc` does not hold, in order.
pub open spec fn unlinked(m: Seq<Seq<char>>, inc: Seq<Seq<char>>) -> Seq<Seq<char>>
    decreases m.len(),
{
    if m.len() == 0 {
        seq![]
    } else {
        let prev = unlinked(m.drop_last(), inc);
        if inc.contains(m.last()) {
            prev
        } else {
            prev.push(m.last())
        }
    }
}

/// The mirrored pages the index does not link, sorted.
pub open spec fn orphan_refs(m: Seq<Seq<char>>, inc: Seq<Seq<char>>) -> Seq<Seq<char>> {
    let u = unlinked(m, inc);
    sorted_order(u).map_values(|i: usize| u[i as int])
}

/// A section of the wiki to mirror: its directory name under `wiki/` and
/// the markdown files under it (paths relative to it, `/`-separated).
pub struct MirrorSection {
    pub name: String,
    pub files: Vec<String>,
}

/// The names of the sections.
pub open spec fn section_names(s: Seq<MirrorSection>) -> Seq<Seq<char>> {
    s.map_values(|m: MirrorSection| m.name@)
}

/// The file lists of the sections.
pub open spec fn section_files(s: Seq<MirrorSection>) -> Seq<Seq<Seq<char>>> {
    s.map_values(|m: MirrorSection| string_views(m.files@))
}

/// The views of groups of strings.
pub open spec fn group_views(g: Seq<(String, Vec<(String, String)>)>) -> Seq<(Seq<char>, Seq<(Seq<char>, Seq<char>)>)> {
    g.map_values(|x: (String, Vec<(String, String)>)| (x.0@, string_pairs(x.1@)))
}

/// The views of pairs of strings.
pub open spec fn string_pairs(v: Seq<(String, String)>) -> Seq<(Seq<char>, Seq<char>)> {
    v.map_values(|e: (String, String)| (e.0@, e.1@))
}

/// The index text of `sections` read into groups of `(label, reference)`
/// items under their headings, and the references it links.
pub open spec fn index_parse(text: Seq<char>, sections: Seq<MirrorSection>) -> (Seq<(Seq<char>, Seq<(Seq<char>, Seq<char>)>)>, Seq<Seq<char>>) {
    let es = index_entries(text, section_names(sections), section_files(sections));
    (index_groups(es), distinct(entry_refs(es)))
}

fn sections_chars(sections: &Vec<MirrorSection>) -> (r: (Vec<Vec<char>>, Vec<Vec<Vec<char>>>))
    ensures
        views(r.0@) == section_names(sections@),
        nested_views(r.1@) == section_files(sections@),
        r.0.len() == r.1.len(),
{
    let mut names: Vec<Vec<char>> = Vec::new();
    let mut files: Vec<Vec<Vec<char>>> = Vec::new();
    let mut i: usize = 0;
    while i < sections.len()
        invariant
            i <= sections.len(),
            names.len() == i,
            files.len() == i,
            views(names@) == section_names(sections@).take(i as int),
            nested_views(files@) == section_files(sections@).take(i as int),
        decreases sections.len() - i,
    {
        let ghost old_n = names@;
        let ghost old_f = files@;
        let n = string_chars(&sections[i].name);
        let f = strings_chars(&sections[i].files);
        names.push(n);
        files.push(f);
        assert(names@ == old_n.push(n));
        assert(files@ == old_f.push(f));
        assert(views(names@) =~= section_names(sections@).take(i + 1));
        assert(nested_views(files@) =~= section_files(sections@).take(i + 1));
        i = i + 1;
    }
    assert(section_names(sections@).take(sections.len() as int) =~= section_names(sections@));
    assert(section_files(sections@).take(sections.len() as int) =~= section_files(sections@));
    (names, files)
}

fn pairs_to_strings(v: &Vec<(Vec<char>, Vec<char>)>) -> (r: Vec<(String, String)>)
    ensures
        string_pairs(r@) == pairs(v@),
{
    let mut r: Vec<(String, String)> = Vec::new();
    let mut i: usize = 0;
    while i < v.len()
        invariant
            i <= v.len(),
            string_pairs(r@) == pairs(v@).take(i as int),
        decreases v.len() - i,
    {
        let ghost old_seq = r@;
        let item = (from_chars(&v[i].0), from_chars(&v[i].1));
        r.push(item);
        assert(r@ == old_seq.push(item));
        assert(string_pairs(r@) =~= string_pairs(old_seq).push((item.0@, item.1@)));
        assert(pairs(v@)[i as int] == (v@[i as int].0@, v@[i as int].1@));
        assert(pairs(v@).take(i + 1) =~= pairs(v@).take(i as int).push(pairs(v@)[i as int]));
        i = i + 1;
    }
    assert(pairs(v@).take(v.len() as int) =~= pairs(v@));
    r
}

/// Strings holding the character vectors.
pub fn chars_to_strings(v: &Vec<Vec<char>>) -> (r: Vec<String>)
    ensures
        string_views(r@) == views(v@),
{
    let mut r: Vec<String> = Vec::new();
    let mut i: usize = 0;
    while i < v.len()
        invariant
            i <= v.len(),
            string_views(r@) == views(v@).take(i as int),
        decreases v.len() - i,
    {
        let ghost old_seq = r@;
        let x = from_chars(&v[i]);
        r.push(x);
        assert(r@ == old_seq.push(x));
        assert(string_views(r@) =~= string_views(old_seq).push(x@));
        assert(views(v@)[i as int] == v@[i as int]@);
        assert(views(v@).take(i + 1) =~= views(v@).take(i as int).push(views(v@)[i as int]));
        i = i + 1;
    }
    assert(views(v@).take(v.len() as int) =~= views(v@));
    r
}

/// Read the wiki index: each wikilink under a `##`/`###` heading (initially
/// `Index`) that resolves to a page of a mirrored section becomes an item
/// `(label, references/<section>/<path>.md)`; items are grouped by heading,
/// headings in order of first appearance. Also returns the linked
/// references, each once.
pub fn parse_index_for_groups(index_text: &str, sections: &Vec<MirrorSection>) -> (r: (
    Vec<(String, Vec<(String, String)>)>,
    Vec<String>,
))
    ensures
        group_views(r.0@) == index_parse(index_text@, sections@).0,
        string_views(r.1@) == index_parse(index_text@, sections@).1,
{
    let (names, files) = sections_chars(sections);
    let text = lit(index_text);
    let es = entries_exec(&text, &names, &files);
    let ghost t = triples(es@);
    let heads = distinct_exec(&column(&es, true));
    let mut groups: Vec<(String, Vec<(String, String)>)> = Vec::new();
    let mut k: usize = 0;
    while k < heads.len()
        invariant
            k <= heads.len(),
            t == triples(es@),
            views(heads@) == distinct(entry_headings(t)),
            group_views(groups@) == index_groups(t).take(k as int),
        decreases heads.len() - k,
    {
        let items = group_items_exec(&es, &heads[k]);
        let g = (from_chars(&heads[k]), pairs_to_strings(&items));
        let ghost old_seq = groups@;
        groups.push(g);
        assert(groups@ == old_seq.push(g));
        assert(views(heads@)[k as int] == heads@[k as int]@);
        assert(group_views(groups@) =~= group_views(old_seq).push((g.0@, string_pairs(g.1@))));
        assert(index_groups(t)[k as int] == (heads@[k as int]@, group_items(t, heads@[k as int]@)));
        assert(index_groups(t).take(k + 1) =~= index_groups(t).take(k as int).push(
            index_groups(t)[k as int],
        ));
        k = k + 1;
    }
    assert(index_groups(t).take(heads.len() as int) =~= index_groups(t));
    let refs = chars_to_strings(&distinct_exec(&column(&es, false)));
    (groups, refs)
}

fn group_lines_exec(h: &String, items: &Vec<(String, String)>, lines: &mut Vec<Vec<char>>)
    ensures
        views(final(lines)@) == views(old(lines)@) + group_lines(h@, string_pairs(items@)),
{
    let ghost start = views(lines@);
    let mut hl = lit("### ");
    push_str(&mut hl, h.as_str());
    lines.push(hl);
    lines.push(Vec::new());
    assert(views(lines@) =~= start + seq!["### "@ + h@, seq![]]);
    let mut i: usize = 0;
    while i < items.len()
        invariant
            i <= items.len(),
            views(lines@) == start + seq!["### "@ + h@, seq![]] + items_lines(string_pairs(items@).take(i as int)),
        decreases items.len() - i,
    {
        let ghost old_seq = lines@;
        let mut l = lit("- [");
        push_str(&mut l, items[i].0.as_str());
        push_str(&mut l, "](");
        push_str(&mut l, items[i].1.as_str());
        push_str(&mut l, ")");
        lines.push(l);
        assert(lines@ == old_seq.push(l));
        assert(items_lines(string_pairs(items@).take(i + 1)) =~= items_lines(string_pairs(items@).take(i as int)).push(l@));
        assert(views(lines@) =~= views(old_seq).push(l@));
        i = i + 1;
    }
    assert(string_pairs(items@).take(items.len() as int) =~= string_pairs(items@));
    let ghost mid = lines@;
    let e: Vec<char> = Vec::new();
    lines.push(e);
    assert(lines@ == mid.push(e));
    assert(views(lines@) =~= views(mid).push(seq![]));
    assert(views(lines@) =~= views(old(lines)@) + group_lines(h@, string_pairs(items@)));
}

/// The generated block for `groups` and the unlinked `orphan_refs`.
pub fn render_generated_block(groups: &Vec<(String, Vec<(String, String)>)>, orphan_refs: &Vec<String>) -> (r: String)
    ensures
        r@ == generated_block(group_views(groups@), string_views(orphan_refs@)),
{
    let ghost gs = group_views(groups@);
    let mut lines: Vec<Vec<char>> = Vec::new();
    lines.push(lit("## Wiki index"));
    lines.push(Vec::new());
    assert(views(lines@) =~= seq!["## Wiki index"@, seq![]]);
    let mut k: usize = 0;
    while k < groups.len()
        invariant
            k <= groups.len(),
            gs == group_views(groups@),
            views(lines@) == seq!["## Wiki index"@, seq![]] + groups_lines(gs.take(k as int)),
        decreases groups.len() - k,
    {
        assert(gs.take(k + 1).drop_last() =~= gs.take(k as int));
        assert(gs.take(k + 1).last() == gs[k as int]);
        group_lines_exec(&groups[k].0, &groups[k].1, &mut lines);
        k = k + 1;
    }
    assert(gs.take(groups.len() as int) =~= gs);
    let ghost before = views(lines@);
    let ghost os = string_views(orphan_refs@);
    if orphan_refs.len() > 0 {
        lines.push(lit("### On disk but not linked from index"));
        lines.push(Vec::new());
        let mut i: usize = 0;
        while i < orphan_refs.len()
            invariant
                i <= orphan_refs.len(),
                os == string_views(orphan_refs@),
                views(lines@) == before + seq!["### On disk but not linked from index"@, seq![]]
                    + os.take(i as int).map_values(|r: Seq<char>| item_line(titleish(file_stem(r)), r)),
            decreases orphan_refs.len() - i,
        {
            let ghost old_seq = lines@;
            let stem = file_stem_exec(&string_chars(&orphan_refs[i]));
            let title = titleish_stem(from_chars(&stem).as_str());
            let mut l = lit("- [");
            push_str(&mut l, title.as_str());
            push_str(&mut l, "](");
            push_str(&mut l, orphan_refs[i].as_str());
            push_str(&mut l, ")");
            lines.push(l);
            assert(lines@ == old_seq.push(l));
            assert(os.take(i + 1).map_values(|r: Seq<char>| item_line(titleish(file_stem(r)), r)) =~= os.take(
                i as int,
            ).map_values(|r: Seq<char>| item_line(titleish(file_stem(r)), r)).push(l@));
            assert(views(lines@) =~= views(old_seq).push(l@));
            i = i + 1;
        }
        assert(os.take(orphan_refs.len() as int) =~= os);
        let ghost mid = lines@;
        let e: Vec<char> = Vec::new();
        lines.push(e);
        assert(lines@ == mid.push(e));
        assert(views(lines@) =~= views(mid).push(seq![]));
        assert(views(lines@) =~= before + orphan_lines(os));
    } else {
        assert(orphan_lines(os) =~= seq![]);
        assert(views(lines@) =~= before + orphan_lines(os));
    }
    assert(views(lines@) =~= seq!["## Wiki index"@, seq![]] + groups_lines(gs) + orphan_lines(os));
    let nl = lit("\n");
    let joined = join_chars(&lines, &nl);
    let mut out = trim_end_chars(&joined);
    out.push('\n');
    proof {
        reveal_strlit("\n");
    }
    assert(out@ =~= generated_block(gs, os));
    from_chars(&out)
}

/// The mirrored pages (`references/<section>/<path>.md`, relative to the
/// skill root) that `included` does not hold, sorted.
pub fn unlinked_refs(mirrored: &Vec<String>, included: &Vec<String>) -> (r: Vec<String>)
    ensures
        string_views(r@) == orphan_refs(string_views(mirrored@), string_views(included@)),
{
    let inc = strings_chars(included);
    let ghost m = string_views(mirrored@);
    let ghost iv = string_views(included@);
    let mut u: Vec<Vec<char>> = Vec::new();
    let mut i: usize = 0;
    while i < mirrored.len()
        invariant
            i <= mirrored.len(),
            m == string_views(mirrored@),
            views(inc@) == iv,
            views(u@) == unlinked(m.take(i as int), iv),
        decreases mirrored.len() - i,
    {
        assert(m.take(i + 1).drop_last() =~= m.take(i as int));
        assert(m.take(i + 1).last() == mirrored@[i as int]@);
        let c = string_chars(&mirrored[i]);
        if !list_has(&inc, &c) {
            let ghost old_seq = u@;
            u.push(c);
            assert(u@ == old_seq.push(c));
            assert(views(u@) =~= views(old_seq).push(c@));
        }
        i = i + 1;
    }
    assert(m.take(mirrored.len() as int) =~= m);
    let ghost uv = views(u@);
    let order = sort_indices(&u);
    proof {
        lemma_sort_idx_perm_len(uv, uv.len());
    }
    let mut r: Vec<String> = Vec::new();
    let mut k: usize = 0;
    while k < order.len()
        invariant
            k <= order.len(),
            uv == views(u@),
            order@ == sorted_order(uv),
            order@.len() == uv.len(),
            forall|q: int| 0 <= q < order@.len() ==> (#[trigger] order@[q]) < uv.len(),
            string_views(r@) == sorted_order(uv).take(k as int).map_values(|j: usize| uv[j as int]),
        decreases order.len() - k,
    {
        let ghost old_seq = r@;
        let j = order[k];
        let x = from_chars(&u[j]);
        r.push(x);
        assert(r@ == old_seq.push(x));
        assert(sorted_order(uv).take(k + 1).map_values(|j: usize| uv[j as int]) =~= sorted_order(uv).take(
            k as int,
        ).map_values(|j: usize| uv[j as int]).push(uv[j as int]));
        assert(string_views(r@) =~= string_views(old_seq).push(x@));
        k = k + 1;
    }
    assert(sorted_order(uv).take(order.len() as int) =~= sorted_order(uv));
    r
}

/// The generated `SKILL.md` block for a wiki: the index grouped under its
/// headings, then the mirrored pages (`references/...`) the index does not
/// link, sorted.
pub open spec fn skill_index(text: Seq<char>, sections: Seq<MirrorSection>, mirrored: Seq<Seq<char>>) -> Seq<char> {
    let p = index_parse(text, sections);
    generated_block(p.0, orphan_refs(mirrored, p.1))
}

/// The generated block for the index text, the mirrored sections and the
/// reference pages found on disk.
pub fn generated_index(index_text: &str, sections: &Vec<MirrorSection>, mirrored: &Vec<String>) -> (r: String)
    ensures
        r@ == skill_index(index_text@, sections@, string_views(mirrored@)),
{
    let (groups, included) = parse_index_for_groups(index_text, sections);
    let orphans = unlinked_refs(mirrored, &included);
    render_generated_block(&groups, &orphans)
}

// ---------------------------------------------------------------------------
// Options and paths
// ---------------------------------------------------------------------------

/// Inputs of a skill export.
#[derive(Debug)]
pub struct ExportOptions {
    /// Content wiki root (contains `wiki/`).
    pub wiki_root: String,
    /// Agent Skill bundle root; default `<wiki-root>/skill`.
    pub skill_root: Option<String>,
    /// Path to `SKILL.md` to create or update; default `<skill-root>/SKILL.md`.
    pub skill_md: Option<String>,
    pub dry_run: bool,
    pub prune: bool,
}

impl ExportOptions {
    /// The skill root: the one given, else `<wiki_root>/skill`.
    pub fn skill_root_or(&self, wiki_root: &str) -> (r: String)
        ensures
            r@ == match self.skill_root {
                Some(s) => s@,
                None => wiki_root@ + "/skill"@,
            },
    {
        match &self.skill_root {
            Some(s) => s.clone(),
            None => {
                let mut v = lit(wiki_root);
                push_str(&mut v, "/skill");
                from_chars(&v)
            },
        }
    }

    /// The `SKILL.md` to update: the one given, else `<skill_root>/SKILL.md`.
    pub fn skill_md_or(&self, skill_root: &str) -> (r: String)
        ensures
            r@ == match self.skill_md {
                Some(s) => s@,
                None => skill_root@ + "/SKILL.md"@,
            },
    {
        match &self.skill_md {
            Some(s) => s.clone(),
            None => {
                let mut v = lit(skill_root);
                push_str(&mut v, "/SKILL.md");
                from_chars(&v)
            },
        }
    }
}

/// The top-level directory names under `wiki/`, sorted; each is mirrored
/// to `skill/references/<name>/`.
pub fn wiki_mirror_sections(dir_names: &Vec<String>) -> (r: Vec<String>)
    ensures
        string_views(r@) == sorted_order(string_views(dir_names@)).map_values(
            |i: usize| string_views(dir_names@)[i as int],
        ),
{
    let names = strings_chars(dir_names);
    let ghost nv = views(names@);
    let order = sort_indices(&names);
    proof {
        lemma_sort_idx_perm_len(nv, nv.len());
    }
    let mut r: Vec<String> = Vec::new();
    let mut k: usize = 0;
    while k < order.len()
        invariant
            k <= order.len(),
            nv == views(names@),
            nv == string_views(dir_names@),
            order@ == sorted_order(nv),
            order@.len() == nv.len(),
            forall|q: int| 0 <= q < order@.len() ==> (#[trigger] order@[q]) < nv.len(),
            string_views(r@) == sorted_order(nv).take(k as int).map_values(|j: usize| nv[j as int]),
        decreases order.len() - k,
    {
        let ghost old_seq = r@;
        let j = order[k];
        let x = from_chars(&names[j]);
        r.push(x);
        assert(r@ == old_seq.push(x));
        assert(sorted_order(nv).take(k + 1).map_values(|j: usize| nv[j as int]) =~= sorted_order(nv).take(
            k as int,
        ).map_values(|j: usize| nv[j as int]).push(nv[j as int]));
        assert(string_views(r@) =~= string_views(old_seq).push(x@));
        k = k + 1;
    }
    assert(sorted_order(nv).take(order.len() as int) =~= sorted_order(nv));
    r
}

/// Why an export cannot start.
#[derive(Debug, PartialEq, Eq)]
pub enum ExportError {
    /// The wiki root holds no `wiki/` directory.
    MissingWiki(String),
    /// The wiki holds no `index.md`.
    IndexNotFound(String),
}

impl ExportError {
    /// Human-readable description.
    pub fn message(&self) -> (r: String)
        ensures
            r@ == (match self {
                ExportError::MissingWiki(p) => "missing wiki directory: "@ + p@,
                ExportError::IndexNotFound(p) => "index not found: "@ + p@,
            }),
    {
        let mut v: Vec<char> = Vec::new();
        match self {
            ExportError::MissingWiki(p) => {
                push_str(&mut v, "missing wiki directory: ");
                push_str(&mut v, p.as_str());
            },
            ExportError::IndexNotFound(p) => {
                push_str(&mut v, "index not found: ");
                push_str(&mut v, p.as_str());
            },
        }
        from_chars(&v)
    }
}

/// The markdown paths among `found`, in order.
pub open spec fn md_paths(found: Seq<Seq<char>>) -> Seq<Seq<char>>
    decreases found.len(),
{
    if found.len() == 0 {
        seq![]
    } else {
        let prev = md_paths(found.drop_last());
        if is_md_path(found.last()) {
            prev.push(found.last())
        } else {
            prev
        }
    }
}

/// The markdown paths among `found` that `kept` does not hold, in order.
pub open spec fn stale_paths(found: Seq<Seq<char>>, kept: Seq<Seq<char>>) -> Seq<Seq<char>>
    decreases found.len(),
{
    if found.len() == 0 {
        seq![]
    } else {
        let prev = stale_paths(found.drop_last(), kept);
        if is_md_path(found.last()) && !kept.contains(found.last()) {
            prev.push(found.last())
        } else {
            prev
        }
    }
}

/// The files of a wiki section to mirror into `references/<section>/`,
/// given the files found under the section (relative to it): its markdown
/// files, in path order.
pub fn mirror_files(found: &Vec<String>) -> (r: Vec<String>)
    ensures
        string_views(r@) == path_sorted(md_paths(string_views(found@))),
{
    let ghost fv = string_views(found@);
    let mut md: Vec<Vec<char>> = Vec::new();
    let mut i: usize = 0;
    while i < found.len()
        invariant
            i <= found.len(),
            fv == string_views(found@),
            views(md@) == md_paths(fv.take(i as int)),
        decreases found.len() - i,
    {
        assert(fv.take(i + 1).drop_last() =~= fv.take(i as int));
        let c = string_chars(&found[i]);
        if is_md_chars(&c) {
            let ghost old_seq = md@;
            md.push(c);
            assert(views(md@) =~= views(old_seq).push(c@));
        }
        i = i + 1;
    }
    assert(fv.take(found.len() as int) =~= fv);
    sort_paths(&md)
}

/// The mirrored copies of a section to prune, given the files under
/// `references/<section>/` and those under `wiki/<section>/` (both relative
/// to the section): the markdown copies with no file at the same place in
/// the wiki, in path order.
pub fn prune_files(mirrored: &Vec<String>, wiki_files: &Vec<String>) -> (r: Vec<String>)
    ensures
        string_views(r@) == path_sorted(stale_paths(string_views(mirrored@), string_views(wiki_files@))),
{
    let ghost mv = string_views(mirrored@);
    let kept = strings_chars(wiki_files);
    let mut md: Vec<Vec<char>> = Vec::new();
    let mut i: usize = 0;
    while i < mirrored.len()
        invariant
            i <= mirrored.len(),
            mv == string_views(mirrored@),
            views(kept@) == string_views(wiki_files@),
            views(md@) == stale_paths(mv.take(i as int), string_views(wiki_files@)),
        decreases mirrored.len() - i,
    {
        assert(mv.take(i + 1).drop_last() =~= mv.take(i as int));
        let c = string_chars(&mirrored[i]);
        if is_md_chars(&c) && !list_has(&kept, &c) {
            let ghost old_seq = md@;
            md.push(c);
            assert(views(md@) =~= views(old_seq).push(c@));
        }
        i = i + 1;
    }
    assert(mv.take(mirrored.len() as int) =~= mv);
    sort_paths(&md)
}

} // verus!
