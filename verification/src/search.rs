//! Full-text search over the wiki's markdown pages: the index of word
//! occurrences built at startup, and ranked results for a query.

use vstd::prelude::*;
use crate::text::{lines, lit, split_lines, string_chars, trim, trim_chars, views, from_chars, append_chars};
use crate::order::{lex_less, lex_lt, sorted_order};
use crate::export_skill::{chars_to_strings, distinct, distinct_exec, list_has};
use crate::paths::chars_eq;
use crate::serve::{display_path, display_path_for, extract_title, page_title, page_url, url_for_md_path};
use crate::toolkit::ascii_lower;

verus! {

// ---------------------------------------------------------------------------
// Words
// ---------------------------------------------------------------------------

/// Whether a character is alphanumeric (Unicode `Alphabetic` or `Numeric`).
pub uninterp spec fn alnum(c: char) -> bool;

/// std's `char::is_alphanumeric`, named by `alnum`.
#[verifier::external_body]
fn is_alnum(c: char) -> (b: bool)
    ensures
        b == alnum(c),
{
    c.is_alphanumeric()
}

/// After the first `n` characters of `s`: the words completed so far and
/// the word being read.
pub open spec fn tok_state(s: Seq<char>, n: int) -> (Seq<Seq<char>>, Seq<char>)
    decreases n,
{
    if n <= 0 {
        (seq![], seq![])
    } else {
        let prev = tok_state(s, n - 1);
        let c = s[n - 1];
        if alnum(c) {
            (prev.0, prev.1.push(ascii_lower(c)))
        } else if prev.1.len() > 0 {
            (prev.0.push(prev.1), seq![])
        } else {
            prev
        }
    }
}

/// The words of `s`: maximal runs of alphanumeric characters, ASCII
/// letters lowercased.
pub open spec fn tokens(s: Seq<char>) -> Seq<Seq<char>> {
    let st = tok_state(s, s.len() as int);
    if st.1.len() > 0 {
        st.0.push(st.1)
    } else {
        st.0
    }
}

fn lower_char(c: char) -> (r: char)
    ensures
        r == ascii_lower(c),
{
    if 'A' <= c && c <= 'Z' {
        ((c as u8) + 32) as char
    } else {
        c
    }
}

/// The words of `s` (see [`tokens`]).
pub fn tokenize(s: &str) -> (r: Vec<String>)
    ensures
        crate::text::string_views(r@) == tokens(s@),
{
    let v = lit(s);
    let mut out: Vec<String> = Vec::new();
    let mut cur: Vec<char> = Vec::new();
    let mut i: usize = 0;
    while i < v.len()
        invariant
            i <= v.len(),
            v@ == s@,
            crate::text::string_views(out@) == tok_state(s@, i as int).0,
            cur@ == tok_state(s@, i as int).1,
        decreases v.len() - i,
    {
        let c = v[i];
        if is_alnum(c) {
            cur.push(lower_char(c));
        } else if cur.len() > 0 {
            let ghost old_seq = out@;
            let w = from_chars(&cur);
            out.push(w);
            assert(out@ == old_seq.push(w));
            assert(crate::text::string_views(out@) =~= crate::text::string_views(old_seq).push(w@));
            cur = Vec::new();
            assert(cur@ =~= seq![]);
        }
        i = i + 1;
    }
    if cur.len() > 0 {
        let ghost old_seq = out@;
        let w = from_chars(&cur);
        out.push(w);
        assert(out@ == old_seq.push(w));
        assert(crate::text::string_views(out@) =~= crate::text::string_views(old_seq).push(w@));
    }
    out
}

// ---------------------------------------------------------------------------
// The index
// ---------------------------------------------------------------------------

/// One word occurrence in a page line, used for snippets and ranking.
#[derive(Debug, Clone)]
pub struct SearchEntry {
    /// Canonical path of the page that holds the word.
    pub file_path: String,
    /// 1-based line number within the page.
    pub line_number: usize,
    /// The trimmed line (used for snippets).
    pub context: String,
}

/// The abstract value of a [`SearchEntry`].
pub struct EntryV {
    pub file: Seq<char>,
    pub line: int,
    pub ctx: Seq<char>,
}

impl View for SearchEntry {
    type V = EntryV;

    open spec fn view(&self) -> EntryV {
        EntryV { file: self.file_path@, line: self.line_number as int, ctx: self.context@ }
    }
}

/// A markdown page handed to the index: the path it was found at (pages
/// are indexed in the order of these paths), its canonical path and its
/// text.
pub struct SearchPage {
    pub path: String,
    pub canonical: String,
    pub text: String,
}

/// In-memory full-text index of the pages under `wiki/`.
#[derive(Debug)]
pub struct SearchIndex {
    /// Word occurrences, in page order, line order and word order.
    pub word_map: Vec<(String, SearchEntry)>,
    /// Canonical page path and full text, in page order.
    pub file_content: Vec<(String, String)>,
}

/// The views of word occurrences.
pub open spec fn word_views(w: Seq<(String, SearchEntry)>) -> Seq<(Seq<char>, EntryV)> {
    w.map_values(|x: (String, SearchEntry)| (x.0@, x.1@))
}

/// The views of page contents.
pub open spec fn content_views(c: Seq<(String, String)>) -> Seq<(Seq<char>, Seq<char>)> {
    c.map_values(|x: (String, String)| (x.0@, x.1@))
}

/// The occurrences of the words of line `n` (1-based) of `file`.
pub open spec fn line_words(file: Seq<char>, n: int, line: Seq<char>) -> Seq<(Seq<char>, EntryV)> {
    tokens(line).map_values(|w: Seq<char>| (w, EntryV { file: file, line: n, ctx: trim(line) }))
}

/// The occurrences in the first `k` lines of a page.
pub open spec fn page_words(file: Seq<char>, ls: Seq<Seq<char>>, k: int) -> Seq<(Seq<char>, EntryV)>
    decreases k,
{
    if k <= 0 {
        seq![]
    } else {
        page_words(file, ls, k - 1) + line_words(file, k, ls[k - 1])
    }
}

/// The occurrences in the first `n` pages.
pub open spec fn pages_words(ps: Seq<(Seq<char>, Seq<char>)>, n: int) -> Seq<(Seq<char>, EntryV)>
    decreases n,
{
    if n <= 0 {
        seq![]
    } else {
        pages_words(ps, n - 1) + page_words(
            ps[n - 1].0,
            lines(ps[n - 1].1),
            lines(ps[n - 1].1).len() as int,
        )
    }
}

/// The paths the pages were found at.
pub open spec fn page_paths(pages: Seq<SearchPage>) -> Seq<Seq<char>> {
    pages.map_values(|p: SearchPage| p.path@)
}

/// The pages as `(canonical path, text)`, sorted by the path they were
/// found at.
pub open spec fn page_order(pages: Seq<SearchPage>) -> Seq<(Seq<char>, Seq<char>)> {
    sorted_order(page_paths(pages)).map_values(
        |i: usize| (pages[i as int].canonical@, pages[i as int].text@),
    )
}

fn line_words_exec(file: &String, n: usize, line: &Vec<char>, out: &mut Vec<(String, SearchEntry)>)
    ensures
        word_views(final(out)@) == word_views(old(out)@) + line_words(file@, n as int, line@),
{
    let ctx = from_chars(&trim_chars(line));
    let ws = tokenize(from_chars(line).as_str());
    let ghost start = word_views(out@);
    let ghost tv = crate::text::string_views(ws@);
    let mut k: usize = 0;
    while k < ws.len()
        invariant
            k <= ws.len(),
            tv == crate::text::string_views(ws@),
            tv == tokens(line@),
            ctx@ == trim(line@),
            word_views(out@) == start + tv.take(k as int).map_values(
                |w: Seq<char>| (w, EntryV { file: file@, line: n as int, ctx: trim(line@) }),
            ),
        decreases ws.len() - k,
    {
        let ghost old_seq = out@;
        let e = SearchEntry { file_path: file.clone(), line_number: n, context: ctx.clone() };
        let item = (ws[k].clone(), e);
        out.push(item);
        assert(out@ == old_seq.push(item));
        assert(word_views(out@) =~= word_views(old_seq).push((tv[k as int], e@)));
        assert(tv.take(k + 1).map_values(
            |w: Seq<char>| (w, EntryV { file: file@, line: n as int, ctx: trim(line@) }),
        ) =~= tv.take(k as int).map_values(
            |w: Seq<char>| (w, EntryV { file: file@, line: n as int, ctx: trim(line@) }),
        ).push((tv[k as int], e@)));
        k = k + 1;
    }
    assert(tv.take(ws.len() as int) =~= tv);
}

impl SearchIndex {
    /// Index the pages, in the order of the paths they were found at: each
    /// word of each line becomes an occurrence with its line number and the
    /// trimmed line.
    pub fn build(pages: &Vec<SearchPage>) -> (r: SearchIndex)
        ensures
            content_views(r.file_content@) == page_order(pages@),
            word_views(r.word_map@) == pages_words(page_order(pages@), pages@.len() as int),
    {
        let mut paths: Vec<Vec<char>> = Vec::new();
        let mut i: usize = 0;
        while i < pages.len()
            invariant
                i <= pages.len(),
                views(paths@) == page_paths(pages@).take(i as int),
            decreases pages.len() - i,
        {
            let ghost old_seq = paths@;
            let x = string_chars(&pages[i].path);
            paths.push(x);
            assert(paths@ == old_seq.push(x));
            assert(views(paths@) =~= views(old_seq).push(x@));
            assert(page_paths(pages@)[i as int] == pages@[i as int].path@);
            assert(page_paths(pages@).take(i + 1) =~= page_paths(pages@).take(i as int).push(
                pages@[i as int].path@,
            ));
            i = i + 1;
        }
        assert(page_paths(pages@).take(pages.len() as int) =~= page_paths(pages@));
        let order = crate::order::sort_indices(&paths);
        let ghost pv = page_paths(pages@);
        let ghost po = page_order(pages@);
        proof {
            crate::order::lemma_sort_idx_perm_len(pv, pv.len());
        }
        let mut word_map: Vec<(String, SearchEntry)> = Vec::new();
        let mut file_content: Vec<(String, String)> = Vec::new();
        let mut k: usize = 0;
        while k < order.len()
            invariant
                k <= order.len(),
                order@ == sorted_order(pv),
                order@.len() == pages@.len(),
                pv == page_paths(pages@),
                po == page_order(pages@),
                po.len() == pages@.len(),
                forall|q: int| 0 <= q < order@.len() ==> (#[trigger] order@[q]) < pages@.len(),
                content_views(file_content@) == po.take(k as int),
                word_views(word_map@) == pages_words(po, k as int),
            decreases order.len() - k,
        {
            let j = order[k];
            let page = &pages[j];
            assert(po[k as int] == (page.canonical@, page.text@));
            let ghost old_c = file_content@;
            let item = (page.canonical.clone(), page.text.clone());
            file_content.push(item);
            assert(file_content@ == old_c.push(item));
            assert(content_views(file_content@) =~= content_views(old_c).push(po[k as int]));
            assert(po.take(k + 1) =~= po.take(k as int).push(po[k as int]));
            let ls = split_lines(&string_chars(&page.text));
            let ghost lv = views(ls@);
            let ghost base = word_views(word_map@);
            let mut n: usize = 0;
            while n < ls.len()
                invariant
                    n <= ls.len(),
                    lv == views(ls@),
                    lv == lines(page.text@),
                    word_views(word_map@) == base + page_words(page.canonical@, lv, n as int),
                decreases ls.len() - n,
            {
                assert(lv[n as int] == ls@[n as int]@);
                line_words_exec(&page.canonical, n + 1, &ls[n], &mut word_map);
                n = n + 1;
            }
            k = k + 1;
        }
        SearchIndex { word_map, file_content }
    }
}

// ---------------------------------------------------------------------------
// Snippets
// ---------------------------------------------------------------------------

/// How many bytes UTF-8 takes for `c`.
pub open spec fn utf8_width(c: char) -> int {
    if (c as u32) < 0x80 {
        1
    } else if (c as u32) < 0x800 {
        2
    } else if (c as u32) < 0x10000 {
        3
    } else {
        4
    }
}

/// The UTF-8 length of `s` in bytes.
pub open spec fn byte_len(s: Seq<char>) -> int
    decreases s.len(),
{
    if s.len() == 0 {
        0
    } else {
        byte_len(s.drop_last()) + utf8_width(s.last())
    }
}

/// The first prefix length from `k` whose UTF-8 length reaches `n` bytes
/// (or the whole length).
pub open spec fn reach(s: Seq<char>, n: int, k: int) -> int
    decreases s.len() - k,
{
    if k >= s.len() || byte_len(s.take(k)) >= n {
        k
    } else {
        reach(s, n, k + 1)
    }
}

/// The longest snippet, in bytes.
pub const SNIPPET_MAX: usize = 180;

/// The snippet of a line: the trimmed line when it takes at most 180
/// bytes, else its first 180 bytes followed by `…`. `None` when byte 180
/// falls inside a character, where the cut is not possible.
pub open spec fn snippet_of(line: Seq<char>) -> Option<Seq<char>> {
    let t = trim(line);
    if byte_len(t) <= SNIPPET_MAX {
        Some(t)
    } else {
        let k = reach(t, SNIPPET_MAX as int, 0);
        if byte_len(t.take(k)) == SNIPPET_MAX {
            Some(t.take(k) + seq!['\u{2026}'])
        } else {
            None
        }
    }
}

proof fn lemma_byte_len_split(s: Seq<char>, k: int)
    requires
        0 <= k <= s.len(),
    ensures
        byte_len(s) == byte_len(s.take(k)) + byte_len(s.skip(k)),
        byte_len(s.take(k)) >= 0,
        k < s.len() ==> byte_len(s.skip(k)) >= 1,
    decreases s.len(),
{
    if k == s.len() {
        assert(s.take(k) =~= s);
        assert(s.skip(k) =~= seq![]);
        lemma_byte_len_nonneg(s);
    } else {
        lemma_byte_len_split(s.drop_last(), k);
        assert(s.drop_last().take(k) =~= s.take(k));
        assert(s.skip(k).drop_last() =~= s.drop_last().skip(k));
        assert(s.skip(k).last() == s.last());
        lemma_byte_len_nonneg(s.drop_last().skip(k));
    }
}

proof fn lemma_byte_len_nonneg(s: Seq<char>)
    ensures
        byte_len(s) >= 0,
    decreases s.len(),
{
    if s.len() > 0 {
        lemma_byte_len_nonneg(s.drop_last());
    }
}

proof fn lemma_reach(s: Seq<char>, n: int, k: int)
    requires
        0 <= k <= s.len(),
        forall|j: int| 0 <= j < k ==> byte_len(#[trigger] s.take(j)) < n,
    ensures
        k <= reach(s, n, k) <= s.len(),
        reach(s, n, k) < s.len() ==> byte_len(s.take(reach(s, n, k))) >= n,
        forall|j: int| 0 <= j < reach(s, n, k) ==> byte_len(#[trigger] s.take(j)) < n,
    decreases s.len() - k,
{
    if k < s.len() && byte_len(s.take(k)) < n {
        lemma_reach(s, n, k + 1);
    }
}

fn width(c: char) -> (w: usize)
    ensures
        w == utf8_width(c),
{
    if (c as u32) < 0x80 {
        1
    } else if (c as u32) < 0x800 {
        2
    } else if (c as u32) < 0x10000 {
        3
    } else {
        4
    }
}

fn snippet_exec(line: &Vec<char>) -> (r: Option<Vec<char>>)
    ensures
        match r {
            Some(s) => snippet_of(line@) == Some(s@),
            None => snippet_of(line@) is None,
        },
{
    let t = trim_chars(line);
    let mut k: usize = 0;
    let mut acc: usize = 0;
    assert(t@.take(0) =~= seq![]);
    while k < t.len() && acc < 180
        invariant
            k <= t.len(),
            acc == byte_len(t@.take(k as int)),
            acc <= 183,
            forall|j: int| 0 <= j < k ==> byte_len(#[trigger] t@.take(j)) < 180,
        decreases t.len() - k,
    {
        assert(t@.take(k + 1).drop_last() =~= t@.take(k as int));
        assert(t@.take(k + 1).last() == t@[k as int]);
        acc = acc + width(t[k]);
        k = k + 1;
    }
    proof {
        lemma_byte_len_split(t@, k as int);
        lemma_reach(t@, 180, 0);
        if acc >= 180 {
            assert(reach(t@, 180, 0) == k) by {
                lemma_reach_at(t@, 180, 0, k as int);
            }
        }
    }
    if acc < 180 || (acc == 180 && k == t.len()) {
        assert(t@.take(k as int) =~= t@);
        return Some(t);
    }
    if acc == 180 {
        let mut s = crate::text::slice_chars(&t, 0, k);
        s.push('\u{2026}');
        return Some(s);
    }
    None
}

proof fn lemma_reach_at(s: Seq<char>, n: int, k: int, m: int)
    requires
        0 <= k <= m <= s.len(),
        forall|j: int| 0 <= j < m ==> byte_len(#[trigger] s.take(j)) < n,
        byte_len(s.take(m)) >= n,
    ensures
        reach(s, n, k) == m,
    decreases m - k,
{
    if k < m {
        assert(byte_len(s.take(k)) < n);
        lemma_reach_at(s, n, k + 1, m);
    }
}

// ---------------------------------------------------------------------------
// Ranking
// ---------------------------------------------------------------------------

/// The occurrences of word `w`, in index order.
pub open spec fn entries_of(ws: Seq<(Seq<char>, EntryV)>, w: Seq<char>) -> Seq<EntryV>
    decreases ws.len(),
{
    if ws.len() == 0 {
        seq![]
    } else {
        let prev = entries_of(ws.drop_last(), w);
        if ws.last().0 == w {
            prev.push(ws.last().1)
        } else {
            prev
        }
    }
}

/// The occurrences of the query words, word by word: the order in which
/// pages are scored.
pub open spec fn visits(ws: Seq<(Seq<char>, EntryV)>, u: Seq<Seq<char>>) -> Seq<EntryV>
    decreases u.len(),
{
    if u.len() == 0 {
        seq![]
    } else {
        visits(ws, u.drop_last()) + entries_of(ws, u.last())
    }
}

/// The pages of occurrences.
pub open spec fn files_of(v: Seq<EntryV>) -> Seq<Seq<char>> {
    v.map_values(|e: EntryV| e.file)
}

/// How many occurrences are in page `f`.
pub open spec fn hits(v: Seq<EntryV>, f: Seq<char>) -> int
    decreases v.len(),
{
    if v.len() == 0 {
        0
    } else {
        hits(v.drop_last(), f) + if v.last().file == f {
            1int
        } else {
            0int
        }
    }
}

/// How many of the query words occur in page `f`.
pub open spec fn matched(ws: Seq<(Seq<char>, EntryV)>, u: Seq<Seq<char>>, f: Seq<char>) -> int
    decreases u.len(),
{
    if u.len() == 0 {
        0
    } else {
        matched(ws, u.drop_last(), f) + if files_of(entries_of(ws, u.last())).contains(f) {
            1int
        } else {
            0int
        }
    }
}

/// The line of the first occurrence in page `f`.
pub open spec fn first_ctx(v: Seq<EntryV>, f: Seq<char>) -> Seq<char>
    decreases v.len(),
{
    if v.len() == 0 {
        seq![]
    } else if v[0].file == f {
        v[0].ctx
    } else {
        first_ctx(v.drop_first(), f)
    }
}

/// `a` ranks before `b`: more query words matched, then more occurrences,
/// then the smaller path.
pub open spec fn ranks_before(a: (int, int, Seq<char>), b: (int, int, Seq<char>)) -> bool {
    a.0 > b.0 || (a.0 == b.0 && (a.1 > b.1 || (a.1 == b.1 && lex_lt(a.2, b.2))))
}

/// Insertion of index `i` into `s`, after every entry that `i` does not
/// rank before.
pub open spec fn rank_ins(keys: Seq<(int, int, Seq<char>)>, s: Seq<usize>, i: usize) -> Seq<usize>
    decreases s.len(),
{
    if s.len() == 0 {
        seq![i]
    } else if ranks_before(keys[i as int], keys[s[0] as int]) {
        seq![i] + s
    } else {
        seq![s[0]] + rank_ins(keys, s.drop_first(), i)
    }
}

/// The indices `0..n` in rank order.
pub open spec fn rank_sort(keys: Seq<(int, int, Seq<char>)>, n: nat) -> Seq<usize>
    decreases n,
{
    if n == 0 {
        seq![]
    } else {
        rank_ins(keys, rank_sort(keys, (n - 1) as nat), (n - 1) as usize)
    }
}

/// First position in `s` that `i` ranks before.
pub open spec fn rank_pos(keys: Seq<(int, int, Seq<char>)>, s: Seq<usize>, i: usize) -> int
    decreases s.len(),
{
    if s.len() == 0 {
        0
    } else if ranks_before(keys[i as int], keys[s[0] as int]) {
        0
    } else {
        1 + rank_pos(keys, s.drop_first(), i)
    }
}

proof fn lemma_rank_pos(keys: Seq<(int, int, Seq<char>)>, s: Seq<usize>, i: usize)
    ensures
        0 <= rank_pos(keys, s, i) <= s.len(),
        rank_ins(keys, s, i) == s.take(rank_pos(keys, s, i)) + seq![i] + s.skip(rank_pos(keys, s, i)),
        forall|k: int| 0 <= k < rank_pos(keys, s, i) ==> !ranks_before(keys[i as int], keys[s[k] as int]),
        rank_pos(keys, s, i) < s.len() ==> ranks_before(keys[i as int], keys[s[rank_pos(keys, s, i)] as int]),
    decreases s.len(),
{
    if s.len() == 0 {
        assert(s.take(0) + seq![i] + s.skip(0) =~= seq![i]);
    } else if ranks_before(keys[i as int], keys[s[0] as int]) {
        assert(s.take(0) + seq![i] + s.skip(0) =~= seq![i] + s);
    } else {
        let t = s.drop_first();
        lemma_rank_pos(keys, t, i);
        let p = rank_pos(keys, t, i);
        assert(s.take(p + 1) + seq![i] + s.skip(p + 1) =~= seq![s[0]] + (t.take(p) + seq![i]
            + t.skip(p)));
        assert forall|k: int| 0 <= k < p + 1 implies !ranks_before(keys[i as int], keys[s[k] as int]) by {
            if k > 0 {
                assert(s[k] == t[k - 1]);
            }
        }
    }
}

proof fn lemma_rank_sort_len(keys: Seq<(int, int, Seq<char>)>, n: nat)
    ensures
        rank_sort(keys, n).len() == n,
        forall|k: int| 0 <= k < n ==> (#[trigger] rank_sort(keys, n)[k]) < n,
    decreases n,
{
    if n > 0 {
        let prev = rank_sort(keys, (n - 1) as nat);
        lemma_rank_sort_len(keys, (n - 1) as nat);
        lemma_rank_pos(keys, prev, (n - 1) as usize);
        let p = rank_pos(keys, prev, (n - 1) as usize);
        let r = rank_sort(keys, n);
        assert forall|k: int| 0 <= k < n implies (#[trigger] r[k]) < n by {
            if k < p {
                assert(r[k] == prev[k]);
            } else if k > p {
                assert(r[k] == prev[k - 1]);
            }
        }
    }
}

proof fn lemma_ranks_before_order(a: (int, int, Seq<char>), b: (int, int, Seq<char>), c: (int, int, Seq<char>))
    ensures
        ranks_before(a, b) ==> !ranks_before(b, a),
        ranks_before(a, b) && ranks_before(b, c) ==> ranks_before(a, c),
{
    crate::order::lemma_lex_lt_asymmetric(a.2, b.2);
    crate::order::lemma_lex_lt_transitive(a.2, b.2, c.2);
}

/// No entry of `s` ranks before an entry earlier in `s`.
pub open spec fn rank_sorted(keys: Seq<(int, int, Seq<char>)>, s: Seq<usize>) -> bool {
    forall|p: int, q: int| 0 <= p < q < s.len() ==> !ranks_before(#[trigger] keys[s[q] as int], #[trigger] keys[s[p] as int])
}

proof fn lemma_rank_ins_sorted(keys: Seq<(int, int, Seq<char>)>, s: Seq<usize>, i: usize)
    requires
        rank_sorted(keys, s),
    ensures
        rank_sorted(keys, rank_ins(keys, s, i)),
{
    lemma_rank_pos(keys, s, i);
    let p = rank_pos(keys, s, i);
    let r = rank_ins(keys, s, i);
    assert(r.len() == s.len() + 1);
    assert forall|a: int, b: int| 0 <= a < b < r.len() implies !ranks_before(
        #[trigger] keys[r[b] as int],
        #[trigger] keys[r[a] as int],
    ) by {
        let ka = keys[r[a] as int];
        let kb = keys[r[b] as int];
        if b < p {
            assert(r[a] == s[a] && r[b] == s[b]);
        } else if b == p {
            assert(r[a] == s[a] && r[b] == i);
        } else if a < p {
            assert(r[a] == s[a] && r[b] == s[b - 1]);
        } else if a == p {
            assert(r[a] == i && r[b] == s[b - 1]);
            let ki = keys[i as int];
            let kp = keys[s[p] as int];
            assert(ranks_before(ki, kp));
            lemma_ranks_before_order(ki, kp, kp);
            if b - 1 > p {
                assert(!ranks_before(keys[s[b - 1] as int], keys[s[p] as int]));
                lemma_ranks_before_order(kb, ki, kp);
            }
        } else {
            assert(r[a] == s[a - 1] && r[b] == s[b - 1]);
        }
    }
}

proof fn lemma_rank_sort_sorted(keys: Seq<(int, int, Seq<char>)>, n: nat)
    ensures
        rank_sorted(keys, rank_sort(keys, n)),
    decreases n,
{
    if n > 0 {
        lemma_rank_sort_sorted(keys, (n - 1) as nat);
        lemma_rank_ins_sorted(keys, rank_sort(keys, (n - 1) as nat), (n - 1) as usize);
    }
}

/// Search ranking: in the order pages are ranked, a page never comes after
/// one that matched fewer query words; among pages matching as many words,
/// never after one with fewer hits; and among pages equal in both, never
/// after one with a greater path.
pub proof fn law_search_ranks_by_words_then_hits_then_path(keys: Seq<(int, int, Seq<char>)>, n: nat)
    ensures
        forall|p: int, q: int|
            0 <= p < q < rank_sort(keys, n).len() ==> {
                let a = #[trigger] keys[rank_sort(keys, n)[p] as int];
                let b = #[trigger] keys[rank_sort(keys, n)[q] as int];
                &&& a.0 >= b.0
                &&& a.0 == b.0 ==> a.1 >= b.1
                &&& a.0 == b.0 && a.1 == b.1 ==> !crate::order::lex_lt(b.2, a.2)
            },
{
    lemma_rank_sort_sorted(keys, n);
}

// ---------------------------------------------------------------------------
// Results
// ---------------------------------------------------------------------------

/// JSON-serializable search result.
#[derive(Debug, Clone)]
pub struct SearchResult {
    /// Display path (e.g. `wiki/concepts/example.md`).
    pub file_path: String,
    /// Best-effort title (first `# ` heading or file stem).
    pub title: String,
    /// Short snippet for quick scanning.
    pub snippet: String,
    /// Server-relative URL of the page (e.g. `/wiki/concepts/example`).
    pub url: String,
}

/// The abstract value of a [`SearchResult`].
pub struct ResultV {
    pub file_path: Seq<char>,
    pub title: Seq<char>,
    pub snippet: Seq<char>,
    pub url: Seq<char>,
}

impl View for SearchResult {
    type V = ResultV;

    open spec fn view(&self) -> ResultV {
        ResultV { file_path: self.file_path@, title: self.title@, snippet: self.snippet@, url: self.url@ }
    }
}

/// The views of results.
pub open spec fn result_views(v: Seq<SearchResult>) -> Seq<ResultV> {
    v.map_values(|r: SearchResult| r@)
}

/// The text indexed for page `f` (the last one recorded under that path),
/// empty when there is none.
pub open spec fn content_of(cs: Seq<(Seq<char>, Seq<char>)>, f: Seq<char>) -> Seq<char>
    decreases cs.len(),
{
    if cs.len() == 0 {
        seq![]
    } else if cs.last().0 == f {
        cs.last().1
    } else {
        content_of(cs.drop_last(), f)
    }
}

/// The result for page `f` whose first occurrence is on line `ctx`: none
/// for a page outside `wiki_dir`; `None` outside when its snippet cannot be
/// cut.
pub open spec fn result_for(cs: Seq<(Seq<char>, Seq<char>)>, d: Seq<char>, f: Seq<char>, ctx: Seq<char>) -> Option<Option<ResultV>> {
    match page_url(d, f) {
        None => Some(None),
        Some(url) => match display_path(d, f) {
            None => Some(None),
            Some(fp) => match snippet_of(ctx) {
                None => None,
                Some(sn) => Some(
                    Some(ResultV { file_path: fp, title: page_title(content_of(cs, f), f), snippet: sn, url }),
                ),
            },
        },
    }
}

/// The results of a list of candidates, in order: `None` when any of them
/// fails.
pub open spec fn collect(rs: Seq<Option<Option<ResultV>>>) -> Option<Seq<ResultV>>
    decreases rs.len(),
{
    if rs.len() == 0 {
        Some(seq![])
    } else {
        match collect(rs.drop_last()) {
            None => None,
            Some(prev) => match rs.last() {
                None => None,
                Some(None) => Some(prev),
                Some(Some(r)) => Some(prev.push(r)),
            },
        }
    }
}

/// The most results a search returns.
pub const MAX_RESULTS: usize = 50;

/// The results of `query` over an index with occurrences `ws` and contents
/// `cs` under the canonical `wiki_dir`: the pages holding a query word,
/// ranked by distinct query words matched, then occurrences, then path;
/// the first 50 of them, each with its display path, title, the snippet of
/// its first occurrence's line and its URL. `None` when a snippet cannot be
/// cut.
pub open spec fn search_outcome(ws: Seq<(Seq<char>, EntryV)>, cs: Seq<(Seq<char>, Seq<char>)>, query: Seq<char>, wiki_dir: Seq<char>) -> Option<Seq<ResultV>> {
    let words = tokens(query);
    if words.len() == 0 {
        Some(seq![])
    } else {
        let u = distinct(words);
        let v = visits(ws, u);
        let fs = distinct(files_of(v));
        let keys = fs.map_values(|f: Seq<char>| (matched(ws, u, f), hits(v, f), f));
        let top = rank_sort(keys, keys.len()).take(
            if keys.len() < MAX_RESULTS {
                keys.len() as int
            } else {
                MAX_RESULTS as int
            },
        );
        collect(top.map_values(|i: usize| result_for(cs, wiki_dir, fs[i as int], first_ctx(v, fs[i as int]))))
    }
}

/// The occurrences at the given positions of the index.
pub open spec fn idx_entries(ws: Seq<(Seq<char>, EntryV)>, vi: Seq<usize>) -> Seq<EntryV> {
    vi.map_values(|k: usize| ws[k as int].1)
}

fn visit_indices(wm: &Vec<(String, SearchEntry)>, us: &Vec<String>) -> (vi: Vec<usize>)
    ensures
        forall|q: int| 0 <= q < vi@.len() ==> (#[trigger] vi@[q]) < wm@.len(),
        idx_entries(word_views(wm@), vi@) == visits(word_views(wm@), crate::text::string_views(us@)),
{
    let ghost ws = word_views(wm@);
    let ghost u = crate::text::string_views(us@);
    let mut vi: Vec<usize> = Vec::new();
    let mut j: usize = 0;
    while j < us.len()
        invariant
            j <= us.len(),
            ws == word_views(wm@),
            u == crate::text::string_views(us@),
            forall|q: int| 0 <= q < vi@.len() ==> (#[trigger] vi@[q]) < wm@.len(),
            idx_entries(ws, vi@) == visits(ws, u.take(j as int)),
        decreases us.len() - j,
    {
        let ghost base = idx_entries(ws, vi@);
        assert(u.take(j + 1).drop_last() =~= u.take(j as int));
        assert(u.take(j + 1).last() == us@[j as int]@);
        let mut k: usize = 0;
        assert(ws.take(0) =~= seq![]);
        while k < wm.len()
            invariant
                j < us.len(),
                k <= wm.len(),
                ws == word_views(wm@),
                u == crate::text::string_views(us@),
                forall|q: int| 0 <= q < vi@.len() ==> (#[trigger] vi@[q]) < wm@.len(),
                idx_entries(ws, vi@) == base + entries_of(ws.take(k as int), us@[j as int]@),
            decreases wm.len() - k,
        {
            assert(ws.take(k + 1).drop_last() =~= ws.take(k as int));
            assert(ws.take(k + 1).last() == ws[k as int]);
            assert(ws[k as int] == (wm@[k as int].0@, wm@[k as int].1@));
            if wm[k].0 == us[j] {
                let ghost old_seq = vi@;
                vi.push(k);
                assert(vi@ == old_seq.push(k));
                assert(idx_entries(ws, vi@) =~= idx_entries(ws, old_seq).push(ws[k as int].1));
            }
            k = k + 1;
        }
        assert(ws.take(wm.len() as int) =~= ws);
        j = j + 1;
    }
    assert(u.take(us.len() as int) =~= u);
    vi
}

fn count_hits(wm: &Vec<(String, SearchEntry)>, vi: &Vec<usize>, f: &String) -> (r: usize)
    requires
        forall|q: int| 0 <= q < vi@.len() ==> (#[trigger] vi@[q]) < wm@.len(),
    ensures
        r == hits(idx_entries(word_views(wm@), vi@), f@),
{
    let ghost v = idx_entries(word_views(wm@), vi@);
    let mut r: usize = 0;
    let mut k: usize = 0;
    while k < vi.len()
        invariant
            k <= vi.len(),
            r <= k,
            v == idx_entries(word_views(wm@), vi@),
            forall|q: int| 0 <= q < vi@.len() ==> (#[trigger] vi@[q]) < wm@.len(),
            r == hits(v.take(k as int), f@),
        decreases vi.len() - k,
    {
        assert(v.take(k + 1).drop_last() =~= v.take(k as int));
        assert(v.take(k + 1).last() == v[k as int]);
        let idx = vi[k];
        assert(v[k as int] == wm@[idx as int].1@);
        if wm[idx].1.file_path == *f {
            r = r + 1;
        }
        k = k + 1;
    }
    assert(v.take(vi.len() as int) =~= v);
    r
}

proof fn lemma_files_push(v: Seq<EntryV>, e: EntryV, f: Seq<char>)
    ensures
        files_of(v.push(e)).contains(f) == (files_of(v).contains(f) || e.file == f),
{
    assert(files_of(v.push(e)) =~= files_of(v).push(e.file));
    if files_of(v).contains(f) {
        let k = choose|k: int| 0 <= k < files_of(v).len() && files_of(v)[k] == f;
        assert(files_of(v.push(e))[k] == f);
    }
    if e.file == f {
        assert(files_of(v.push(e))[v.len() as int] == f);
    }
    if files_of(v.push(e)).contains(f) && e.file != f {
        let k = choose|k: int| 0 <= k < files_of(v.push(e)).len() && files_of(v.push(e))[k] == f;
        assert(files_of(v)[k] == f);
    }
}

fn occurs_in(wm: &Vec<(String, SearchEntry)>, w: &String, f: &String) -> (b: bool)
    ensures
        b == files_of(entries_of(word_views(wm@), w@)).contains(f@),
{
    let ghost ws = word_views(wm@);
    let mut found = false;
    let mut k: usize = 0;
    assert(ws.take(0) =~= seq![]);
    while k < wm.len()
        invariant
            k <= wm.len(),
            ws == word_views(wm@),
            found == files_of(entries_of(ws.take(k as int), w@)).contains(f@),
        decreases wm.len() - k,
    {
        assert(ws.take(k + 1).drop_last() =~= ws.take(k as int));
        assert(ws.take(k + 1).last() == ws[k as int]);
        assert(ws[k as int] == (wm@[k as int].0@, wm@[k as int].1@));
        proof {
            lemma_files_push(entries_of(ws.take(k as int), w@), ws[k as int].1, f@);
        }
        if wm[k].0 == *w && wm[k].1.file_path == *f {
            found = true;
        }
        k = k + 1;
    }
    assert(ws.take(wm.len() as int) =~= ws);
    found
}

fn count_matched(wm: &Vec<(String, SearchEntry)>, us: &Vec<String>, f: &String) -> (r: usize)
    ensures
        r == matched(word_views(wm@), crate::text::string_views(us@), f@),
{
    let ghost u = crate::text::string_views(us@);
    let mut r: usize = 0;
    let mut j: usize = 0;
    while j < us.len()
        invariant
            j <= us.len(),
            r <= j,
            u == crate::text::string_views(us@),
            r == matched(word_views(wm@), u.take(j as int), f@),
        decreases us.len() - j,
    {
        assert(u.take(j + 1).drop_last() =~= u.take(j as int));
        assert(u.take(j + 1).last() == us@[j as int]@);
        if occurs_in(wm, &us[j], f) {
            r = r + 1;
        }
        j = j + 1;
    }
    assert(u.take(us.len() as int) =~= u);
    r
}

fn first_context(wm: &Vec<(String, SearchEntry)>, vi: &Vec<usize>, f: &String) -> (r: Vec<char>)
    requires
        forall|q: int| 0 <= q < vi@.len() ==> (#[trigger] vi@[q]) < wm@.len(),
    ensures
        r@ == first_ctx(idx_entries(word_views(wm@), vi@), f@),
{
    let ghost v = idx_entries(word_views(wm@), vi@);
    let mut k: usize = 0;
    assert(v.skip(0) =~= v);
    while k < vi.len()
        invariant
            k <= vi.len(),
            v == idx_entries(word_views(wm@), vi@),
            forall|q: int| 0 <= q < vi@.len() ==> (#[trigger] vi@[q]) < wm@.len(),
            first_ctx(v, f@) == first_ctx(v.skip(k as int), f@),
        decreases vi.len() - k,
    {
        let idx = vi[k];
        assert(v[k as int] == wm@[idx as int].1@);
        assert(v.skip(k as int)[0] == v[k as int]);
        if wm[idx].1.file_path == *f {
            return string_chars(&wm[idx].1.context);
        }
        assert(v.skip(k as int).drop_first() =~= v.skip(k + 1));
        k = k + 1;
    }
    assert(v.skip(vi.len() as int) =~= seq![]);
    Vec::new()
}

fn content_for(cs: &Vec<(String, String)>, f: &String) -> (r: String)
    ensures
        r@ == content_of(content_views(cs@), f@),
{
    let ghost c = content_views(cs@);
    let mut r = String::new();
    let mut k: usize = 0;
    assert(c.take(0) =~= seq![]);
    while k < cs.len()
        invariant
            k <= cs.len(),
            c == content_views(cs@),
            r@ == content_of(c.take(k as int), f@),
        decreases cs.len() - k,
    {
        assert(c.take(k + 1).drop_last() =~= c.take(k as int));
        assert(c.take(k + 1).last() == c[k as int]);
        assert(c[k as int] == (cs@[k as int].0@, cs@[k as int].1@));
        if cs[k].0 == *f {
            r = cs[k].1.clone();
        }
        k = k + 1;
    }
    assert(c.take(cs.len() as int) =~= c);
    r
}

/// The view of a ranking key.
pub open spec fn key_view(k: (usize, usize, Vec<char>)) -> (int, int, Seq<char>) {
    (k.0 as int, k.1 as int, k.2@)
}

/// The views of ranking keys.
pub open spec fn key_views(ks: Seq<(usize, usize, Vec<char>)>) -> Seq<(int, int, Seq<char>)> {
    ks.map_values(|k: (usize, usize, Vec<char>)| key_view(k))
}

fn ranks_before_exec(a: &(usize, usize, Vec<char>), b: &(usize, usize, Vec<char>)) -> (r: bool)
    ensures
        r == ranks_before(key_view(*a), key_view(*b)),
{
    a.0 > b.0 || (a.0 == b.0 && (a.1 > b.1 || (a.1 == b.1 && lex_less(&a.2, &b.2))))
}

fn rank_indices(keys: &Vec<(usize, usize, Vec<char>)>) -> (r: Vec<usize>)
    ensures
        r@ == rank_sort(key_views(keys@), keys@.len()),
{
    let ghost ks = key_views(keys@);
    let mut r: Vec<usize> = Vec::new();
    let mut i: usize = 0;
    while i < keys.len()
        invariant
            i <= keys.len(),
            ks == key_views(keys@),
            ks.len() == keys.len(),
            r@ == rank_sort(ks, i as nat),
            forall|k: int| 0 <= k < r.len() ==> #[trigger] r@[k] < i,
        decreases keys.len() - i,
    {
        proof {
            lemma_rank_pos(ks, r@, i);
            lemma_rank_sort_len(ks, i as nat);
        }
        let ghost p = rank_pos(ks, r@, i);
        let mut pos: usize = 0;
        while pos < r.len() && !ranks_before_exec(&keys[i], &keys[r[pos]])
            invariant
                i < keys.len(),
                ks == key_views(keys@),
                ks.len() == keys.len(),
                pos <= r.len(),
                pos <= p,
                0 <= p <= r.len(),
                forall|k: int| 0 <= k < r.len() ==> #[trigger] r@[k] < i,
                forall|k: int| 0 <= k < p ==> !ranks_before(ks[i as int], ks[r@[k] as int]),
                p < r.len() ==> ranks_before(ks[i as int], ks[r@[p] as int]),
            decreases r.len() - pos,
        {
            pos = pos + 1;
        }
        let ghost old_r = r@;
        r.insert(pos, i);
        assert(r@ =~= old_r.take(p) + seq![i] + old_r.skip(p));
        assert(r@ == rank_sort(ks, (i + 1) as nat));
        proof {
            lemma_rank_sort_len(ks, (i + 1) as nat);
        }
        i = i + 1;
    }
    r
}

proof fn lemma_collect_none(rs: Seq<Option<Option<ResultV>>>, m: int, n: int)
    requires
        0 <= m <= n <= rs.len(),
        collect(rs.take(m)) is None,
    ensures
        collect(rs.take(n)) is None,
    decreases n - m,
{
    if m < n {
        lemma_collect_none(rs, m, n - 1);
        assert(rs.take(n).drop_last() =~= rs.take(n - 1));
    }
}

impl SearchIndex {
    /// The results of `query` for pages under the canonical `wiki_dir` (see
    /// [`search_outcome`]); `None` when the snippet of a returned page
    /// cannot be cut at 180 bytes.
    pub fn search_checked(&self, query: &str, wiki_dir: &str) -> (r: Option<Vec<SearchResult>>)
        ensures
            match r {
                Some(v) => search_outcome(word_views(self.word_map@), content_views(self.file_content@), query@, wiki_dir@)
                    == Some(result_views(v@)),
                None => search_outcome(word_views(self.word_map@), content_views(self.file_content@), query@, wiki_dir@) is None,
            },
    {
        let ghost ws = word_views(self.word_map@);
        let ghost cs = content_views(self.file_content@);
        let words = tokenize(query);
        if words.len() == 0 {
            let none: Vec<SearchResult> = Vec::new();
            assert(result_views(none@) =~= seq![]);
            return Some(none);
        }
        let uc = distinct_exec(&crate::text::strings_chars(&words));
        let us = chars_to_strings(&uc);
        let ghost u = crate::text::string_views(us@);
        assert(u == distinct(tokens(query@)));
        let vi = visit_indices(&self.word_map, &us);
        let ghost v = idx_entries(ws, vi@);
        let mut vf: Vec<Vec<char>> = Vec::new();
        let mut k: usize = 0;
        while k < vi.len()
            invariant
                k <= vi.len(),
                v == idx_entries(ws, vi@),
                ws == word_views(self.word_map@),
                forall|q: int| 0 <= q < vi@.len() ==> (#[trigger] vi@[q]) < self.word_map@.len(),
                views(vf@) == files_of(v).take(k as int),
            decreases vi.len() - k,
        {
            let idx = vi[k];
            assert(v[k as int] == self.word_map@[idx as int].1@);
            let ghost old_seq = vf@;
            let x = string_chars(&self.word_map[idx].1.file_path);
            vf.push(x);
            assert(vf@ == old_seq.push(x));
            assert(views(vf@) =~= views(old_seq).push(x@));
            assert(files_of(v).take(k + 1) =~= files_of(v).take(k as int).push(v[k as int].file));
            k = k + 1;
        }
        assert(files_of(v).take(vi.len() as int) =~= files_of(v));
        let fs = chars_to_strings(&distinct_exec(&vf));
        let ghost fv = crate::text::string_views(fs@);
        let ghost kv_spec = fv.map_values(|f: Seq<char>| (matched(ws, u, f), hits(v, f), f));
        let mut keys: Vec<(usize, usize, Vec<char>)> = Vec::new();
        let mut j: usize = 0;
        while j < fs.len()
            invariant
                j <= fs.len(),
                fv == crate::text::string_views(fs@),
                kv_spec == fv.map_values(|f: Seq<char>| (matched(ws, u, f), hits(v, f), f)),
                v == idx_entries(ws, vi@),
                ws == word_views(self.word_map@),
                u == crate::text::string_views(us@),
                forall|q: int| 0 <= q < vi@.len() ==> (#[trigger] vi@[q]) < self.word_map@.len(),
                key_views(keys@) == kv_spec.take(j as int),
            decreases fs.len() - j,
        {
            let m = count_matched(&self.word_map, &us, &fs[j]);
            let h = count_hits(&self.word_map, &vi, &fs[j]);
            let item = (m, h, string_chars(&fs[j]));
            let ghost old_seq = keys@;
            keys.push(item);
            assert(keys@ == old_seq.push(item));
            assert(key_views(keys@) =~= key_views(old_seq).push(key_view(item)));
            assert(kv_spec.take(j + 1) =~= kv_spec.take(j as int).push(kv_spec[j as int]));
            j = j + 1;
        }
        assert(kv_spec.take(fs.len() as int) =~= kv_spec);
        let order = rank_indices(&keys);
        proof {
            lemma_rank_sort_len(kv_spec, kv_spec.len());
        }
        let top: usize = if order.len() < MAX_RESULTS {
            order.len()
        } else {
            MAX_RESULTS
        };
        let ghost topseq = rank_sort(kv_spec, kv_spec.len()).take(top as int);
        let ghost rr = topseq.map_values(
            |i: usize| result_for(cs, wiki_dir@, fv[i as int], first_ctx(v, fv[i as int])),
        );
        let mut out: Vec<SearchResult> = Vec::new();
        let mut t: usize = 0;
        assert(rr.take(0) =~= seq![]);
        assert(result_views(out@) =~= seq![]);
        while t < top
            invariant
                t <= top,
                top <= order@.len(),
                order@ == rank_sort(kv_spec, kv_spec.len()),
                order@.len() == fs@.len(),
                forall|q: int| 0 <= q < order@.len() ==> (#[trigger] order@[q]) < fs@.len(),
                fv == crate::text::string_views(fs@),
                topseq == rank_sort(kv_spec, kv_spec.len()).take(top as int),
                rr == topseq.map_values(
                    |i: usize| result_for(cs, wiki_dir@, fv[i as int], first_ctx(v, fv[i as int])),
                ),
                v == idx_entries(ws, vi@),
                ws == word_views(self.word_map@),
                cs == content_views(self.file_content@),
                forall|q: int| 0 <= q < vi@.len() ==> (#[trigger] vi@[q]) < self.word_map@.len(),
                collect(rr.take(t as int)) == Some(result_views(out@)),
                u == distinct(tokens(query@)),
                tokens(query@).len() > 0,
                v == visits(ws, u),
                fv == distinct(files_of(v)),
                kv_spec == fv.map_values(|f: Seq<char>| (matched(ws, u, f), hits(v, f), f)),
                top == (if kv_spec.len() < MAX_RESULTS {
                    kv_spec.len() as int
                } else {
                    MAX_RESULTS as int
                }),
                rr.len() == top,
            decreases top - t,
        {
            let i = order[t];
            let f = &fs[i];
            assert(fv[i as int] == f@);
            assert(rr[t as int] == result_for(cs, wiki_dir@, f@, first_ctx(v, f@)));
            assert(rr.take(t + 1).drop_last() =~= rr.take(t as int));
            assert(rr.take(t + 1).last() == rr[t as int]);
            match url_for_md_path(wiki_dir, f.as_str()) {
                None => {},
                Some(url) => match display_path_for(wiki_dir, f.as_str()) {
                    None => {},
                    Some(fp) => {
                        let ctx = first_context(&self.word_map, &vi, f);
                        match snippet_exec(&ctx) {
                            None => {
                                proof {
                                    lemma_collect_none(rr, t + 1, rr.len() as int);
                                    assert(rr.take(rr.len() as int) =~= rr);
                                }
                                return None;
                            },
                            Some(sn) => {
                                let body = content_for(&self.file_content, f);
                                let title = extract_title(body.as_str(), f.as_str());
                                let res = SearchResult { file_path: fp, title, snippet: from_chars(&sn), url };
                                let ghost old_seq = out@;
                                out.push(res);
                                assert(out@ == old_seq.push(res));
                                assert(result_views(out@) =~= result_views(old_seq).push(res@));
                            },
                        }
                    },
                },
            }
            t = t + 1;
        }
        assert(rr.take(top as int) =~= rr);
        assert(tokens(query@).len() > 0);
        Some(out)
    }

    /// The results of `query` for pages under the canonical `wiki_dir`,
    /// ranked (see [`search_outcome`]).
    pub fn search(&self, query: &str, wiki_dir: &str) -> (r: Vec<SearchResult>)
        requires
            search_outcome(word_views(self.word_map@), content_views(self.file_content@), query@, wiki_dir@) is Some,
        ensures
            search_outcome(word_views(self.word_map@), content_views(self.file_content@), query@, wiki_dir@)
                == Some(result_views(r@)),
    {
        match self.search_checked(query, wiki_dir) {
            Some(v) => v,
            None => Vec::new(),
        }
    }
}

proof fn lemma_collect_len(rs: Seq<Option<Option<ResultV>>>)
    ensures
        collect(rs) matches Some(p) ==> p.len() <= rs.len(),
    decreases rs.len(),
{
    if rs.len() > 0 {
        lemma_collect_len(rs.drop_last());
    }
}

/// A search returns at most 50 results, whatever the index and the query.
pub proof fn law_results_are_capped(ws: Seq<(Seq<char>, EntryV)>, cs: Seq<(Seq<char>, Seq<char>)>, query: Seq<char>, wiki_dir: Seq<char>)
    ensures
        search_outcome(ws, cs, query, wiki_dir) matches Some(rs) ==> rs.len() <= MAX_RESULTS,
{
    let words = tokens(query);
    if words.len() > 0 {
        let u = distinct(words);
        let v = visits(ws, u);
        let fs = distinct(files_of(v));
        let keys = fs.map_values(|f: Seq<char>| (matched(ws, u, f), hits(v, f), f));
        lemma_rank_sort_len(keys, keys.len());
        let top = rank_sort(keys, keys.len()).take(
            if keys.len() < MAX_RESULTS {
                keys.len() as int
            } else {
                MAX_RESULTS as int
            },
        );
        lemma_collect_len(top.map_values(|i: usize| result_for(cs, wiki_dir, fs[i as int], first_ctx(v, fs[i as int]))));
    }
}

/// A query without words finds nothing.
pub proof fn law_blank_query_finds_nothing(ws: Seq<(Seq<char>, EntryV)>, cs: Seq<(Seq<char>, Seq<char>)>, query: Seq<char>, wiki_dir: Seq<char>)
    requires
        tokens(query).len() == 0,
    ensures
        search_outcome(ws, cs, query, wiki_dir) == Some(Seq::<ResultV>::empty()),
{
}

} // verus!
