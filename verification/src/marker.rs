//! Generated blocks delimited by marker comments inside a larger markdown file.
//!
//! `SKILL.md` carries the generated wiki index between
//! [`GENERATED_INDEX_START`] and [`GENERATED_INDEX_END`]; `wiki/index.md` carries
//! the entity catalog between [`COMPILE_INDEX_START`] and [`COMPILE_INDEX_END`].
//! A merge replaces the block in place when both markers are present and
//! appends a fresh block otherwise.

use vstd::prelude::*;
use crate::text::{
    append_chars, contains, ends_with, find_chars, find_from, from_chars, has_suffix, lemma_find_from,
    occurs_at, push_str, slice_chars, to_chars, trim_end, trim_end_chars,
};

verus! {

/// Opening comment of the generated wiki index in `SKILL.md`.
pub const GENERATED_INDEX_START: &'static str = "<!-- agwiki:generated-index -->";

/// Closing comment of the generated wiki index in `SKILL.md`.
pub const GENERATED_INDEX_END: &'static str = "<!-- /agwiki:generated-index -->";

/// Opening comment of the entity catalog in `wiki/index.md`.
pub const COMPILE_INDEX_START: &'static str = "<!-- agwiki:compile-index -->";

/// Closing comment of the entity catalog in `wiki/index.md`.
pub const COMPILE_INDEX_END: &'static str = "<!-- /agwiki:compile-index -->";

/// Why a marked block could not be merged into `SKILL.md`.
#[derive(Debug, Clone, Copy, PartialEq, Eq)]
pub enum MarkerError {
    /// The opening marker is present but no closing marker follows it.
    MissingEnd,
    /// The closing marker is present without an opening marker.
    EndWithoutStart,
}

/// The one-character sequence `"\n"`.
pub open spec fn nl() -> Seq<char> {
    seq!['\n']
}

/// The block written for `body`: opening marker, the body without trailing
/// whitespace, closing marker, each on its own line.
pub open spec fn block(start: Seq<char>, end: Seq<char>, body: Seq<char>) -> Seq<char> {
    start + nl() + trim_end(body) + nl() + end + nl()
}

/// Separator placed between existing text and an appended block.
pub open spec fn append_sep(existing: Seq<char>) -> Seq<char> {
    if existing.len() == 0 || ends_with(existing, seq!['\n', '\n']) {
        seq![]
    } else if ends_with(existing, nl()) {
        nl()
    } else {
        seq!['\n', '\n']
    }
}

/// `existing` with the first marked block replaced by the block for `body`,
/// when an opening marker is followed by a closing marker.
pub open spec fn splice(existing: Seq<char>, start: Seq<char>, end: Seq<char>, body: Seq<char>) -> Option<Seq<char>> {
    match find_from(existing, start, 0) {
        Some(si) => match find_from(existing, end, si + start.len()) {
            Some(ei) => Some(
                existing.subrange(0, si) + block(start, end, body) + existing.subrange(
                    ei + end.len(),
                    existing.len() as int,
                ),
            ),
            None => None,
        },
        None => None,
    }
}

/// The text between the first opening marker and the first closing marker
/// after it.
pub open spec fn block_body(s: Seq<char>, start: Seq<char>, end: Seq<char>) -> Option<Seq<char>> {
    match find_from(s, start, 0) {
        Some(si) => match find_from(s, end, si + start.len()) {
            Some(ei) => Some(s.subrange(si + start.len(), ei)),
            None => None,
        },
        None => None,
    }
}

/// Result of merging `body` into `SKILL.md` text `existing`.
pub open spec fn merged_skill(existing: Seq<char>, body: Seq<char>) -> Result<Seq<char>, MarkerError> {
    let start = GENERATED_INDEX_START@;
    let end = GENERATED_INDEX_END@;
    if contains(existing, start) {
        match splice(existing, start, end, body) {
            Some(r) => Ok(r),
            None => Err(MarkerError::MissingEnd),
        }
    } else if contains(existing, end) {
        Err(MarkerError::EndWithoutStart)
    } else {
        Ok(existing + append_sep(existing) + block(start, end, body))
    }
}

/// Result of merging catalog `body` into `wiki/index.md` text `existing`:
/// the marked block is replaced when complete, otherwise a block is appended.
pub open spec fn injected_index(existing: Seq<char>, body: Seq<char>) -> Seq<char> {
    let start = COMPILE_INDEX_START@;
    let end = COMPILE_INDEX_END@;
    match splice(existing, start, end, body) {
        Some(r) => r,
        None => existing + append_sep(existing) + block(start, end, body),
    }
}

// ---------------------------------------------------------------------------
// Search lemmas
// ---------------------------------------------------------------------------

/// `find_from` returns `k` when nothing matches in `[i, k)` and `p` occurs at `k`.
pub proof fn lemma_find_at(s: Seq<char>, p: Seq<char>, i: int, k: int)
    requires
        0 <= i <= k,
        occurs_at(s, p, k),
        forall|j: int| i <= j < k ==> !occurs_at(s, p, j),
    ensures
        find_from(s, p, i) == Some(k),
    decreases k - i,
{
    if i < k {
        lemma_find_at(s, p, i + 1, k);
    }
}

/// Extending the text after a found occurrence keeps that first occurrence.
pub proof fn lemma_find_prefix(x: Seq<char>, y: Seq<char>, p: Seq<char>, i: int)
    requires
        0 <= i,
        find_from(x, p, i) is Some,
    ensures
        find_from(x + y, p, i) == find_from(x, p, i),
{
    lemma_find_from(x, p, i);
    let k = find_from(x, p, i)->0;
    assert(occurs_at(x + y, p, k)) by {
        assert((x + y).subrange(k, k + p.len()) =~= x.subrange(k, k + p.len()));
    }
    assert forall|j: int| i <= j < k implies !occurs_at(x + y, p, j) by {
        if occurs_at(x + y, p, j) {
            assert(j + p.len() <= x.len());
            assert((x + y).subrange(j, j + p.len()) =~= x.subrange(j, j + p.len()));
            assert(occurs_at(x, p, j));
        }
    }
    lemma_find_at(x + y, p, i, k);
}

/// Searching after a prefix is searching the rest, shifted by its length.
pub proof fn lemma_find_shift(x: Seq<char>, y: Seq<char>, p: Seq<char>, i: int)
    requires
        0 <= i,
    ensures
        find_from(x + y, p, x.len() + i) == (match find_from(y, p, i) {
            Some(k) => Some(k + x.len()),
            None => None,
        }),
    decreases y.len() - i,
{
    let s = x + y;
    let n = x.len() as int;
    if i + p.len() > y.len() {
    } else {
        assert(occurs_at(s, p, n + i) == occurs_at(y, p, i)) by {
            assert(s.subrange(n + i, n + i + p.len()) =~= y.subrange(i, i + p.len()));
        }
        if !occurs_at(y, p, i) && i < y.len() {
            lemma_find_shift(x, y, p, i + 1);
        }
    }
}

/// No occurrence of `p` in `s` at all when `find_from(s, p, 0)` is `None`.
pub proof fn lemma_no_occurrence(s: Seq<char>, p: Seq<char>, j: int)
    requires
        !contains(s, p),
        0 <= j,
    ensures
        !occurs_at(s, p, j),
{
    lemma_find_from(s, p, 0);
}

/// In `"\n" + t + "\n" + end + q`, the first `end` is the one after `t`,
/// provided `end` has no line break and `t` does not contain it.
pub proof fn lemma_end_after_body(t: Seq<char>, end: Seq<char>, q: Seq<char>)
    requires
        end.len() > 0,
        !end.contains('\n'),
        !contains(t, end),
    ensures
        find_from(nl() + t + nl() + end + q, end, 0) == Some(t.len() + 2int),
{
    let s = nl() + t + nl() + end + q;
    let k: int = t.len() + 2int;
    assert(s.subrange(k, k + end.len()) =~= end);
    assert forall|j: int| 0 <= j < k implies !occurs_at(s, end, j) by {
        if occurs_at(s, end, j) {
            if j == 0 {
                assert(s.subrange(j, j + end.len())[0] == '\n');
                assert(end[0] == '\n');
            } else if j + end.len() <= t.len() + 1 {
                assert(s.subrange(j, j + end.len()) =~= t.subrange(j - 1, j - 1 + end.len()));
                lemma_no_occurrence(t, end, j - 1);
            } else {
                let d = t.len() + 1 - j;
                assert(s[t.len() + 1int] == '\n');
                assert(s.subrange(j, j + end.len())[d] == '\n');
                assert(end[d] == '\n');
            }
        }
    }
    lemma_find_at(s, end, 0, k);
}

/// Searching `x + start + rest`, where `x + start` finds `start` at `x.len()`,
/// finds it there.
pub proof fn lemma_start_found(x: Seq<char>, start: Seq<char>, rest: Seq<char>)
    requires
        find_from(x + start, start, 0) == Some(x.len() as int),
    ensures
        find_from(x + start + rest, start, 0) == Some(x.len() as int),
{
    lemma_find_prefix(x + start, rest, start, 0);
}

/// Reading a block written at the end of prefix `x`: the opening marker is
/// found at `x.len()` and the block body is `"\n" + trim_end(body) + "\n"`.
pub proof fn lemma_read_block(x: Seq<char>, start: Seq<char>, end: Seq<char>, body: Seq<char>, q: Seq<char>)
    requires
        start.len() > 0,
        end.len() > 0,
        !end.contains('\n'),
        !contains(trim_end(body), end),
        find_from(x + start, start, 0) == Some(x.len() as int),
    ensures
        find_from(x + block(start, end, body) + q, start, 0) == Some(x.len() as int),
        find_from(x + block(start, end, body) + q, end, x.len() + start.len() as int) == Some(
            x.len() + start.len() + trim_end(body).len() + 2int,
        ),
        block_body(x + block(start, end, body) + q, start, end) == Some(
            nl() + trim_end(body) + nl(),
        ),
{
    let t = trim_end(body);
    let s = x + block(start, end, body) + q;
    let tail = nl() + t + nl() + end + nl() + q;
    assert(s =~= x + start + tail);
    lemma_start_found(x, start, tail);
    lemma_end_after_body(t, end, nl() + q);
    assert(tail =~= nl() + t + nl() + end + (nl() + q));
    lemma_find_shift(x + start, tail, end, 0);
    assert(s.subrange(x.len() + start.len() as int, x.len() + start.len() + t.len() + 2int) =~= nl() + t
        + nl());
}

// ---------------------------------------------------------------------------
// Facts about the marker literals
// ---------------------------------------------------------------------------

pub proof fn lemma_skill_markers()
    ensures
        GENERATED_INDEX_START@.len() > 0,
        GENERATED_INDEX_END@.len() > 0,
        !GENERATED_INDEX_START@.contains('\n'),
        !GENERATED_INDEX_END@.contains('\n'),
{
    reveal_strlit("<!-- agwiki:generated-index -->");
    reveal_strlit("<!-- /agwiki:generated-index -->");
}

pub proof fn lemma_compile_markers()
    ensures
        COMPILE_INDEX_START@.len() > 0,
        COMPILE_INDEX_END@.len() > 0,
        !COMPILE_INDEX_START@.contains('\n'),
        !COMPILE_INDEX_END@.contains('\n'),
{
    reveal_strlit("<!-- agwiki:compile-index -->");
    reveal_strlit("<!-- /agwiki:compile-index -->");
}

// ---------------------------------------------------------------------------
// Executable merge
// ---------------------------------------------------------------------------

fn block_chars(start: &Vec<char>, end: &Vec<char>, body: &Vec<char>) -> (r: Vec<char>)
    ensures
        r@ == block(start@, end@, body@),
{
    let mut r: Vec<char> = Vec::new();
    append_chars(&mut r, start);
    r.push('\n');
    let t = trim_end_chars(body);
    append_chars(&mut r, &t);
    r.push('\n');
    append_chars(&mut r, end);
    r.push('\n');
    assert(r@ =~= block(start@, end@, body@));
    r
}

fn append_sep_chars(existing: &Vec<char>) -> (r: Vec<char>)
    ensures
        r@ == append_sep(existing@),
{
    let nn = vec!['\n', '\n'];
    let n1 = vec!['\n'];
    assert(nn@ =~= seq!['\n', '\n']);
    assert(n1@ =~= nl());
    if existing.len() == 0 || has_suffix(existing, &nn) {
        Vec::new()
    } else if has_suffix(existing, &n1) {
        n1
    } else {
        nn
    }
}

fn splice_chars(existing: &Vec<char>, start: &Vec<char>, end: &Vec<char>, body: &Vec<char>) -> (r: Option<Vec<char>>)
    ensures
        match r {
            Some(v) => splice(existing@, start@, end@, body@) == Some(v@),
            None => splice(existing@, start@, end@, body@) is None,
        },
{
    match find_chars(existing, start, 0) {
        None => None,
        Some(si) => {
            proof {
                lemma_find_from(existing@, start@, 0);
                assert(occurs_at(existing@, start@, si as int));
                assert(si + start.len() <= existing.len());
            }
            let after_start = si + start.len();
            match find_chars(existing, end, after_start) {
                None => None,
                Some(ei) => {
                    proof {
                        lemma_find_from(existing@, end@, after_start as int);
                        assert(occurs_at(existing@, end@, ei as int));
                        assert(ei + end.len() <= existing.len());
                    }
                    let mut r = slice_chars(existing, 0, si);
                    let b = block_chars(start, end, body);
                    append_chars(&mut r, &b);
                    let tail = slice_chars(existing, ei + end.len(), existing.len());
                    append_chars(&mut r, &tail);
                    Some(r)
                },
            }
        },
    }
}

fn append_block_chars(existing: &Vec<char>, start: &Vec<char>, end: &Vec<char>, body: &Vec<char>) -> (r: Vec<char>)
    ensures
        r@ == existing@ + append_sep(existing@) + block(start@, end@, body@),
{
    let mut r = slice_chars(existing, 0, existing.len());
    assert(r@ =~= existing@);
    let sep = append_sep_chars(existing);
    append_chars(&mut r, &sep);
    let b = block_chars(start, end, body);
    append_chars(&mut r, &b);
    r
}

/// Insert or replace the generated wiki index between [`GENERATED_INDEX_START`]
/// and [`GENERATED_INDEX_END`] in `SKILL.md` text.
///
/// A complete marked block is replaced in place. An opening marker without a
/// closing one, or a closing marker alone, is an error. Text without markers
/// gets the block appended after a blank line.
pub fn merge_skill_generated_index(existing: &str, generated_body: &str) -> (r: Result<String, MarkerError>)
    ensures
        match r {
            Ok(s) => merged_skill(existing@, generated_body@) == Ok::<Seq<char>, MarkerError>(s@),
            Err(e) => merged_skill(existing@, generated_body@) == Err::<Seq<char>, MarkerError>(e),
        },
{
    let ex = to_chars(existing);
    let body = to_chars(generated_body);
    let start = to_chars(GENERATED_INDEX_START);
    let end = to_chars(GENERATED_INDEX_END);
    if find_chars(&ex, &start, 0).is_some() {
        match splice_chars(&ex, &start, &end, &body) {
            Some(v) => Ok(from_chars(&v)),
            None => Err(MarkerError::MissingEnd),
        }
    } else if find_chars(&ex, &end, 0).is_some() {
        Err(MarkerError::EndWithoutStart)
    } else {
        let v = append_block_chars(&ex, &start, &end, &body);
        Ok(from_chars(&v))
    }
}

/// Insert or replace the entity catalog between [`COMPILE_INDEX_START`] and
/// [`COMPILE_INDEX_END`] in `wiki/index.md` text; a block is appended when no
/// complete marked block exists.
pub fn inject_compile_index(existing: &str, generated_body: &str) -> (r: String)
    ensures
        r@ == injected_index(existing@, generated_body@),
{
    let ex = to_chars(existing);
    let body = to_chars(generated_body);
    let start = to_chars(COMPILE_INDEX_START);
    let end = to_chars(COMPILE_INDEX_END);
    match splice_chars(&ex, &start, &end, &body) {
        Some(v) => from_chars(&v),
        None => {
            let v = append_block_chars(&ex, &start, &end, &body);
            from_chars(&v)
        },
    }
}

impl MarkerError {
    /// Human-readable description, naming the markers involved.
    pub fn message(&self) -> (r: String)
        ensures
            r@ == (match *self {
                MarkerError::MissingEnd => "SKILL.md: found "@ + GENERATED_INDEX_START@
                    + " but no closing "@ + GENERATED_INDEX_END@,
                MarkerError::EndWithoutStart => "SKILL.md: found "@ + GENERATED_INDEX_END@
                    + " without "@ + GENERATED_INDEX_START@,
            }),
    {
        let mut v: Vec<char> = Vec::new();
        push_str(&mut v, "SKILL.md: found ");
        match self {
            MarkerError::MissingEnd => {
                push_str(&mut v, GENERATED_INDEX_START);
                push_str(&mut v, " but no closing ");
                push_str(&mut v, GENERATED_INDEX_END);
            },
            MarkerError::EndWithoutStart => {
                push_str(&mut v, GENERATED_INDEX_END);
                push_str(&mut v, " without ");
                push_str(&mut v, GENERATED_INDEX_START);
            },
        }
        from_chars(&v)
    }
}

// ---------------------------------------------------------------------------
// Laws
// ---------------------------------------------------------------------------

/// Occurrences that fit inside a prefix are the same in the prefix and the whole.
proof fn lemma_occurs_prefix(s: Seq<char>, n: int, p: Seq<char>, j: int)
    requires
        0 <= j,
        j + p.len() <= n <= s.len(),
    ensures
        occurs_at(s.subrange(0, n), p, j) == occurs_at(s, p, j),
{
    assert(s.subrange(0, n).subrange(j, j + p.len()) =~= s.subrange(j, j + p.len()));
}

/// Prefix text without an opening marker, extended by the marker, finds the
/// marker right after the prefix.
proof fn lemma_first_start(e: Seq<char>, start: Seq<char>, si: int)
    requires
        find_from(e, start, 0) == Some(si),
    ensures
        find_from(e.subrange(0, si) + start, start, 0) == Some(si),
{
    lemma_find_from(e, start, 0);
    let n = si + start.len();
    let x = e.subrange(0, si) + start;
    assert(x =~= e.subrange(0, n));
    assert forall|j: int| 0 <= j < si implies !occurs_at(x, start, j) by {
        lemma_occurs_prefix(e, n, start, j);
    }
    lemma_occurs_prefix(e, n, start, si);
    lemma_find_at(x, start, 0, si);
}

/// Text without any opening marker, followed by the append separator and a
/// marker, finds the marker right after the separator.
proof fn lemma_appended_start(e: Seq<char>, start: Seq<char>)
    requires
        !contains(e, start),
        start.len() > 0,
        !start.contains('\n'),
    ensures
        find_from(e + append_sep(e) + start, start, 0) == Some(e.len() + append_sep(e).len() as int),
{
    let sep = append_sep(e);
    let x = e + sep + start;
    let k: int = e.len() as int + sep.len();
    assert(x.subrange(k, k + start.len()) =~= start);
    assert forall|j: int| 0 <= j < k implies !occurs_at(x, start, j) by {
        if occurs_at(x, start, j) {
            if j + start.len() <= e.len() {
                assert(x.subrange(j, j + start.len()) =~= e.subrange(j, j + start.len()));
                lemma_no_occurrence(e, start, j);
            } else {
                // the window covers a line break: the last char of e, or one of sep
                if sep.len() > 0 {
                    let d = e.len() - j;
                    if d >= 0 {
                        assert(x[e.len() as int] == '\n');
                        assert(x.subrange(j, j + start.len())[d] == '\n');
                    } else {
                        assert(x[j] == '\n');
                        assert(x.subrange(j, j + start.len())[0] == '\n');
                    }
                } else {
                    assert(e.len() > 0);
                    assert(e.subrange(e.len() - 2, e.len() as int) =~= seq!['\n', '\n']);
                    assert(e[e.len() - 1int] == '\n');
                    let d = e.len() - 1 - j;
                    assert(x[e.len() - 1int] == '\n');
                    assert(x.subrange(j, j + start.len())[d] == '\n');
                }
                assert(start.contains('\n'));
            }
        }
    }
    lemma_find_at(x, start, 0, k);
}

/// Reading back a merged `SKILL.md`: the block between the markers is exactly
/// the generated body without trailing whitespace (framed by line breaks),
/// whenever the merge succeeds and the body does not itself contain the
/// closing marker.
pub proof fn law_skill_block_reads_back(existing: Seq<char>, body: Seq<char>)
    requires
        merged_skill(existing, body) is Ok,
        !contains(trim_end(body), GENERATED_INDEX_END@),
    ensures
        block_body(merged_skill(existing, body)->Ok_0, GENERATED_INDEX_START@, GENERATED_INDEX_END@)
            == Some(nl() + trim_end(body) + nl()),
{
    lemma_skill_markers();
    let start = GENERATED_INDEX_START@;
    let end = GENERATED_INDEX_END@;
    if contains(existing, start) {
        let si = find_from(existing, start, 0)->0;
        let ei = find_from(existing, end, si + start.len())->0;
        lemma_find_from(existing, start, 0);
        lemma_first_start(existing, start, si);
        let x = existing.subrange(0, si);
        let q = existing.subrange(ei + end.len(), existing.len() as int);
        lemma_read_block(x, start, end, body, q);
    } else {
        lemma_appended_start(existing, start);
        let x = existing + append_sep(existing);
        assert(x + start =~= existing + append_sep(existing) + start);
        lemma_read_block(x, start, end, body, seq![]);
        assert(x + block(start, end, body) + seq![] =~= existing + append_sep(existing) + block(
            start,
            end,
            body,
        ));
    }
}

/// Re-merging replaces only the block: merging `b2` into the result of merging
/// `b1` gives the same text as merging `b2` into the result of merging `b3`,
/// for bodies that do not contain the closing marker.
pub proof fn law_skill_remerge_depends_only_on_last_body(
    existing: Seq<char>,
    b1: Seq<char>,
    b3: Seq<char>,
    b2: Seq<char>,
)
    requires
        merged_skill(existing, b1) is Ok,
        !contains(trim_end(b1), GENERATED_INDEX_END@),
        !contains(trim_end(b3), GENERATED_INDEX_END@),
    ensures
        merged_skill(merged_skill(existing, b1)->Ok_0, b2) == merged_skill(
            merged_skill(existing, b3)->Ok_0,
            b2,
        ),
        merged_skill(merged_skill(existing, b1)->Ok_0, b2) is Ok,
{
    lemma_skill_markers();
    let start = GENERATED_INDEX_START@;
    let end = GENERATED_INDEX_END@;
    let (x, q) = if contains(existing, start) {
        let si = find_from(existing, start, 0)->0;
        let ei = find_from(existing, end, si + start.len())->0;
        lemma_find_from(existing, start, 0);
        lemma_first_start(existing, start, si);
        (existing.subrange(0, si), existing.subrange(ei + end.len(), existing.len() as int))
    } else {
        lemma_appended_start(existing, start);
        let x = existing + append_sep(existing);
        assert(x + start =~= existing + append_sep(existing) + start);
        assert(x + block(start, end, b1) + seq![] =~= existing + append_sep(existing) + block(
            start,
            end,
            b1,
        ));
        assert(x + block(start, end, b3) + seq![] =~= existing + append_sep(existing) + block(
            start,
            end,
            b3,
        ));
        (x, seq![])
    };
    let r1 = x + block(start, end, b1) + q;
    let r3 = x + block(start, end, b3) + q;
    assert(merged_skill(existing, b1) == Ok::<Seq<char>, MarkerError>(r1));
    assert(merged_skill(existing, b3) == Ok::<Seq<char>, MarkerError>(r3));
    lemma_read_block(x, start, end, b1, q);
    lemma_read_block(x, start, end, b3, q);
    let t1 = trim_end(b1);
    let t3 = trim_end(b3);
    let e1: int = x.len() + start.len() + t1.len() + 2int;
    let e3: int = x.len() + start.len() + t3.len() + 2int;
    assert(r1.subrange(e1 + end.len(), r1.len() as int) =~= nl() + q);
    assert(r3.subrange(e3 + end.len(), r3.len() as int) =~= nl() + q);
    assert(r1.subrange(0, x.len() as int) =~= x);
    assert(r3.subrange(0, x.len() as int) =~= x);
    assert(contains(r1, start));
    assert(contains(r3, start));
}

/// Where the first marked block ends: just after the first closing marker
/// that follows the first opening marker.
pub open spec fn block_end(s: Seq<char>, start: Seq<char>, end: Seq<char>) -> Option<int> {
    match find_from(s, start, 0) {
        Some(si) => match find_from(s, end, si + start.len()) {
            Some(ei) => Some(ei + end.len()),
            None => None,
        },
        None => None,
    }
}

/// Merging the same body again keeps the block and everything around it,
/// and adds one line break right after the closing marker: the block is
/// written with a line break after its closing marker, and a merge replaces
/// the text only up to the closing marker, so the line break that followed
/// it stays. (So merging is not idempotent: each re-merge adds a line.)
pub proof fn law_skill_remerge_adds_a_line_break(existing: Seq<char>, body: Seq<char>)
    requires
        merged_skill(existing, body) is Ok,
        !contains(trim_end(body), GENERATED_INDEX_END@),
    ensures
        ({
            let r = merged_skill(existing, body)->Ok_0;
            block_end(r, GENERATED_INDEX_START@, GENERATED_INDEX_END@) matches Some(k) && merged_skill(r, body)
                == Ok::<Seq<char>, MarkerError>(r.subrange(0, k) + nl() + r.subrange(k, r.len() as int))
        }),
{
    lemma_skill_markers();
    let start = GENERATED_INDEX_START@;
    let end = GENERATED_INDEX_END@;
    let (x, q) = if contains(existing, start) {
        let si = find_from(existing, start, 0)->0;
        let ei = find_from(existing, end, si + start.len())->0;
        lemma_find_from(existing, start, 0);
        lemma_first_start(existing, start, si);
        (existing.subrange(0, si), existing.subrange(ei + end.len(), existing.len() as int))
    } else {
        lemma_appended_start(existing, start);
        let x = existing + append_sep(existing);
        assert(x + start =~= existing + append_sep(existing) + start);
        assert(x + block(start, end, body) + seq![] =~= existing + append_sep(existing) + block(
            start,
            end,
            body,
        ));
        (x, seq![])
    };
    let r = x + block(start, end, body) + q;
    assert(merged_skill(existing, body) == Ok::<Seq<char>, MarkerError>(r));
    lemma_read_block(x, start, end, body, q);
    let t = trim_end(body);
    let e: int = x.len() + start.len() + t.len() + 2int;
    let k: int = e + end.len();
    assert(block_end(r, start, end) == Some(k));
    assert(contains(r, start));
    assert(r.subrange(k, r.len() as int) =~= nl() + q);
    assert(r.subrange(0, x.len() as int) =~= x);
    assert(r.subrange(0, k) + nl() + r.subrange(k, r.len() as int) =~= x + block(start, end, body) + (nl()
        + q));
}

/// Merging into `wiki/index.md` also reads back: the catalog block holds the
/// generated catalog (without trailing whitespace) between line breaks.
pub proof fn law_compile_block_reads_back(existing: Seq<char>, body: Seq<char>)
    requires
        !contains(trim_end(body), COMPILE_INDEX_END@),
        !contains(existing, COMPILE_INDEX_START@) || splice(
            existing,
            COMPILE_INDEX_START@,
            COMPILE_INDEX_END@,
            body,
        ) is Some,
    ensures
        block_body(injected_index(existing, body), COMPILE_INDEX_START@, COMPILE_INDEX_END@) == Some(
            nl() + trim_end(body) + nl(),
        ),
{
    lemma_compile_markers();
    let start = COMPILE_INDEX_START@;
    let end = COMPILE_INDEX_END@;
    if contains(existing, start) {
        let si = find_from(existing, start, 0)->0;
        let ei = find_from(existing, end, si + start.len())->0;
        lemma_find_from(existing, start, 0);
        lemma_first_start(existing, start, si);
        lemma_read_block(
            existing.subrange(0, si),
            start,
            end,
            body,
            existing.subrange(ei + end.len(), existing.len() as int),
        );
    } else {
        lemma_appended_start(existing, start);
        let x = existing + append_sep(existing);
        assert(x + start =~= existing + append_sep(existing) + start);
        lemma_read_block(x, start, end, body, seq![]);
        assert(x + block(start, end, body) + seq![] =~= existing + append_sep(existing) + block(
            start,
            end,
            body,
        ));
    }
}

} // verus!
