//! URL-safe slugs for entity titles.

use vstd::prelude::*;
use crate::text::{from_chars, string_chars};

verus! {

/// Unicode lowercase mapping of a whole string, as `str::to_lowercase`
/// computes it (context-sensitive for a final Greek sigma).
pub uninterp spec fn lowercase(s: Seq<char>) -> Seq<char>;

/// An ASCII character.
pub open spec fn is_ascii_char(c: char) -> bool {
    (c as int) < 0x80
}

/// The ASCII lowercase of a character: `A`..`Z` become `a`..`z`, every other
/// character stays.
pub open spec fn ascii_lower(c: char) -> char {
    if 'A' <= c && c <= 'Z' {
        ((c as int) + 32) as char
    } else {
        c
    }
}

/// An ASCII uppercase letter.
pub open spec fn is_ascii_upper(c: char) -> bool {
    'A' <= c && c <= 'Z'
}

/// Calls std's `str::to_lowercase`. The result is the lowercase mapping of
/// the argument; of it the contract states that it holds no ASCII uppercase
/// letter (each maps to its lowercase, and no Unicode lowercase mapping
/// yields one), and that a string of ASCII characters is lowercased
/// character by character, ASCII letters to their lowercase and the rest
/// unchanged. The Unicode case tables are not written out.
#[verifier::external_body]
pub(crate) fn str_to_lowercase(s: &str) -> (r: String)
    ensures
        r@ == lowercase(s@),
        forall|i: int| 0 <= i < r@.len() ==> !is_ascii_upper(#[trigger] r@[i]),
        (forall|i: int| 0 <= i < s@.len() ==> is_ascii_char(#[trigger] s@[i])) ==> r@ == s@.map_values(
            |c: char| ascii_lower(c),
        ),
{
    s.to_lowercase()
}

/// Characters a slug may hold: ASCII letters, digits and `-`.
pub open spec fn slug_char(c: char) -> bool {
    ('a' <= c && c <= 'z') || ('A' <= c && c <= 'Z') || ('0' <= c && c <= '9') || c == '-'
}

/// Spaces become hyphens.
pub open spec fn hyphenate(s: Seq<char>) -> Seq<char> {
    s.map_values(|c: char| if c == ' ' { '-' } else { c })
}

/// The characters of `s` that a slug may hold, in order.
pub open spec fn keep_slug_chars(s: Seq<char>) -> Seq<char>
    decreases s.len(),
{
    if s.len() == 0 {
        seq![]
    } else if slug_char(s.last()) {
        keep_slug_chars(s.drop_last()).push(s.last())
    } else {
        keep_slug_chars(s.drop_last())
    }
}

/// At most the first 80 characters.
pub open spec fn take80(s: Seq<char>) -> Seq<char> {
    if s.len() > 80 {
        s.take(80)
    } else {
        s
    }
}

/// The slug of a title: lowercased, spaces turned to hyphens, every other
/// character outside `[A-Za-z0-9-]` dropped, cut to 80 characters.
pub open spec fn slug_of(title: Seq<char>) -> Seq<char> {
    take80(keep_slug_chars(hyphenate(lowercase(title))))
}

fn is_slug_char(c: char) -> (b: bool)
    ensures
        b == slug_char(c),
{
    ('a' <= c && c <= 'z') || ('A' <= c && c <= 'Z') || ('0' <= c && c <= '9') || c == '-'
}

/// Compute the URL-safe slug of a title.
pub fn title_to_slug(title: &str) -> (r: String)
    ensures
        r@ == slug_of(title@),
        forall|i: int| 0 <= i < r@.len() ==> lower_slug_char(#[trigger] r@[i]),
        (forall|i: int| 0 <= i < title@.len() ==> plain_title_char(#[trigger] title@[i])) ==> r@ == take80(
            hyphenate(title@.map_values(|c: char| ascii_lower(c))),
        ),
{
    let lower = str_to_lowercase(title);
    proof {
        lemma_slug_is_lowercase(lower@);
        if forall|i: int| 0 <= i < title@.len() ==> plain_title_char(#[trigger] title@[i]) {
            assert forall|i: int| 0 <= i < title@.len() implies is_ascii_char(#[trigger] title@[i]) by {
                assert(plain_title_char(title@[i]));
            }
            lemma_plain_title_slug(title@, lower@);
        }
    }
    let chars = string_chars(&lower);
    let ghost h = hyphenate(chars@);
    let mut kept: Vec<char> = Vec::new();
    let mut i: usize = 0;
    while i < chars.len()
        invariant
            i <= chars.len(),
            h == hyphenate(chars@),
            h.len() == chars.len(),
            kept@ == keep_slug_chars(h.take(i as int)),
        decreases chars.len() - i,
    {
        let c = if chars[i] == ' ' {
            '-'
        } else {
            chars[i]
        };
        assert(c == h[i as int]);
        assert(h.take(i + 1).drop_last() =~= h.take(i as int));
        if is_slug_char(c) {
            kept.push(c);
        }
        i = i + 1;
    }
    assert(h.take(chars.len() as int) =~= h);
    let mut out: Vec<char> = Vec::new();
    let mut k: usize = 0;
    while k < kept.len() && k < 80
        invariant
            k <= kept.len(),
            k <= 80,
            out@ == kept@.take(k as int),
        decreases kept.len() - k,
    {
        out.push(kept[k]);
        assert(kept@.take(k + 1) =~= kept@.take(k as int).push(kept@[k as int]));
        k = k + 1;
    }
    assert(out@ =~= take80(kept@));
    from_chars(&out)
}

proof fn lemma_keep_slug_chars_from(s: Seq<char>)
    ensures
        forall|i: int| 0 <= i < keep_slug_chars(s).len() ==> s.contains(#[trigger] keep_slug_chars(s)[i]),
    decreases s.len(),
{
    if s.len() > 0 {
        lemma_keep_slug_chars_from(s.drop_last());
        let k = keep_slug_chars(s);
        assert forall|i: int| 0 <= i < k.len() implies s.contains(#[trigger] k[i]) by {
            if i < keep_slug_chars(s.drop_last()).len() {
                let x = keep_slug_chars(s.drop_last())[i];
                assert(k[i] == x);
                let j = choose|j: int| 0 <= j < s.drop_last().len() && s.drop_last()[j] == x;
                assert(s[j] == x);
            } else {
                assert(k[i] == s.last());
                assert(s[s.len() - 1] == s.last());
            }
        }
    }
}

/// A character a title may hold for its slug to be its lowercase with
/// spaces turned to hyphens: an ASCII letter or digit, a space or `-`.
pub open spec fn plain_title_char(c: char) -> bool {
    slug_char(c) || c == ' '
}

/// A slug character that is not an uppercase letter.
pub open spec fn lower_slug_char(c: char) -> bool {
    ('a' <= c && c <= 'z') || ('0' <= c && c <= '9') || c == '-'
}

proof fn lemma_slug_is_lowercase(lower: Seq<char>)
    requires
        forall|i: int| 0 <= i < lower.len() ==> !is_ascii_upper(#[trigger] lower[i]),
    ensures
        forall|i: int| 0 <= i < take80(keep_slug_chars(hyphenate(lower))).len() ==> lower_slug_char(
            #[trigger] take80(keep_slug_chars(hyphenate(lower)))[i],
        ),
{
    let h = hyphenate(lower);
    lemma_keep_slug_chars(h);
    lemma_keep_slug_chars_from(h);
    let k = keep_slug_chars(h);
    let t = take80(k);
    assert forall|i: int| 0 <= i < t.len() implies lower_slug_char(#[trigger] t[i]) by {
        let c = t[i];
        assert(c == k[i]);
        assert(slug_char(k[i]));
        let j = choose|j: int| 0 <= j < h.len() && h[j] == c;
        assert(h[j] == if lower[j] == ' ' { '-' } else { lower[j] });
        assert(!is_ascii_upper(lower[j]));
    }
}

proof fn lemma_keep_all_slug_chars(s: Seq<char>)
    requires
        forall|i: int| 0 <= i < s.len() ==> slug_char(#[trigger] s[i]),
    ensures
        keep_slug_chars(s) == s,
    decreases s.len(),
{
    if s.len() > 0 {
        lemma_keep_all_slug_chars(s.drop_last());
        assert(s.drop_last().push(s.last()) =~= s);
    }
}

proof fn lemma_plain_title_slug(title: Seq<char>, lower: Seq<char>)
    requires
        forall|i: int| 0 <= i < title.len() ==> plain_title_char(#[trigger] title[i]),
        lower == title.map_values(|c: char| ascii_lower(c)),
    ensures
        take80(keep_slug_chars(hyphenate(lower))) == take80(hyphenate(lower)),
{
    let h = hyphenate(lower);
    assert forall|i: int| 0 <= i < h.len() implies slug_char(#[trigger] h[i]) by {
        assert(plain_title_char(title[i]));
        assert(lower[i] == ascii_lower(title[i]));
    }
    lemma_keep_all_slug_chars(h);
}

proof fn lemma_keep_slug_chars(s: Seq<char>)
    ensures
        keep_slug_chars(s).len() <= s.len(),
        forall|i: int| 0 <= i < keep_slug_chars(s).len() ==> slug_char(#[trigger] keep_slug_chars(s)[i]),
    decreases s.len(),
{
    if s.len() > 0 {
        lemma_keep_slug_chars(s.drop_last());
    }
}

/// Slugs are URL-safe: every character is an ASCII letter, digit or `-`, and
/// a slug is at most 80 characters long.
pub proof fn law_slug_is_url_safe(title: Seq<char>)
    ensures
        slug_of(title).len() <= 80,
        forall|i: int| 0 <= i < slug_of(title).len() ==> slug_char(#[trigger] slug_of(title)[i]),
{
    lemma_keep_slug_chars(hyphenate(lowercase(title)));
}

} // verus!
