//! Ingest bookkeeping: content digests, the text check on a source, the
//! stable source key, the resume ledger and the tally of a folder run.
//!
//! Reading files, canonicalizing paths, parsing ledger lines as JSON and
//! running agents happen outside the library; the functions here take what
//! those steps produced and decide the rest.

use vstd::prelude::*;
use vstd::utf8::valid_utf8;
use sha2::Digest;
use crate::text::{
    append_chars, decimal, decimal_chars, from_chars, has_prefix, join, join_chars, lines, lit, push_str,
    slice_chars, split_chars, split_lines, split_on, starts_with, string_chars, trim, trim_chars, trim_end,
    trim_end_chars, views,
};
use crate::config::opt_view;
use crate::paths::{chars_eq, is_absolute, parts_prefix, path_parts, path_parts_exec, path_starts_with};
use crate::toolkit::is_md_source;
use crate::upkeep::component_key;
use crate::order::{sort_indices, sorted_order, lemma_sort_idx_perm_len};
use crate::hooks::exit_code_text;

verus! {

// ---------------------------------------------------------------------------
// Digests
// ---------------------------------------------------------------------------

/// The SHA-256 digest of a byte string.
pub uninterp spec fn sha256(data: Seq<u8>) -> Seq<u8>;

/// sha2's `Sha256::digest`: the SHA-256 digest of `data`, which is 32 bytes
/// long.
#[verifier::external_body]
fn sha256_digest(data: &[u8]) -> (r: Vec<u8>)
    ensures
        r@ == sha256(data@),
        r@.len() == 32,
{
    sha2::Sha256::digest(data).to_vec()
}

/// The lowercase hexadecimal digit for `d < 16`.
pub open spec fn hex_digit(d: int) -> char {
    if d < 10 {
        (('0' as int) + d) as char
    } else {
        (('a' as int) + d - 10) as char
    }
}

/// Lowercase hexadecimal rendering of a byte string, two digits per byte.
pub open spec fn hex(bytes: Seq<u8>) -> Seq<char>
    decreases bytes.len(),
{
    if bytes.len() == 0 {
        seq![]
    } else {
        hex(bytes.drop_last()) + seq![
            hex_digit((bytes.last() / 16) as int),
            hex_digit((bytes.last() % 16) as int),
        ]
    }
}

proof fn lemma_hex_len(bytes: Seq<u8>)
    ensures
        hex(bytes).len() == 2 * bytes.len(),
    decreases bytes.len(),
{
    if bytes.len() > 0 {
        lemma_hex_len(bytes.drop_last());
    }
}

pub(crate) fn hex_digit_char(d: u8) -> (c: char)
    requires
        d < 16,
    ensures
        c == hex_digit(d as int),
{
    if d < 10 {
        (48u8 + d) as char
    } else {
        (87u8 + d) as char
    }
}

/// Lowercase hexadecimal rendering of `bytes`.
pub fn lower_hex(bytes: &[u8]) -> (r: String)
    ensures
        r@ == hex(bytes@),
{
    let mut v: Vec<char> = Vec::new();
    let mut i: usize = 0;
    while i < bytes.len()
        invariant
            i <= bytes@.len(),
            v@ == hex(bytes@.take(i as int)),
        decreases bytes.len() - i,
    {
        let b = bytes[i];
        assert(bytes@.take(i + 1).drop_last() =~= bytes@.take(i as int));
        v.push(hex_digit_char(b / 16));
        v.push(hex_digit_char(b % 16));
        i = i + 1;
    }
    assert(bytes@.take(bytes@.len() as int) =~= bytes@);
    from_chars(&v)
}

/// SHA-256 of `data` as 64 lowercase hexadecimal digits.
pub fn sha256_hex(data: &[u8]) -> (r: String)
    ensures
        r@ == hex(sha256(data@)),
        r@.len() == 64,
{
    let d = sha256_digest(data);
    proof {
        lemma_hex_len(d@);
    }
    lower_hex(d.as_slice())
}

/// SHA-256 of the raw bytes of the wiki's ingest policy (`ingest.md`, not
/// expanded), as lowercase hex.
pub fn ingest_policy_sha256(policy: &[u8]) -> (r: String)
    ensures
        r@ == hex(sha256(policy@)),
        r@.len() == 64,
{
    sha256_hex(policy)
}

// ---------------------------------------------------------------------------
// Text check on an ingest source
// ---------------------------------------------------------------------------

/// std's `str::from_utf8`, reduced to whether it accepts `bytes`: it does
/// exactly when they are well-formed UTF-8.
#[verifier::external_body]
fn is_utf8(bytes: &[u8]) -> (b: bool)
    ensures
        b == valid_utf8(bytes@),
{
    std::str::from_utf8(bytes).is_ok()
}

/// Why a path cannot be ingested.
#[derive(Debug, PartialEq, Eq)]
pub enum SourceError {
    /// The path could not be canonicalized.
    NotFound(String),
    /// The file could not be opened or read.
    Unreadable(String),
    /// The file holds a NUL byte.
    Binary(String),
    /// The file is not well-formed UTF-8.
    InvalidUtf8(String),
}

impl SourceError {
    /// Human-readable description.
    pub fn message(&self) -> (r: String)
        ensures
            r@ == (match self {
                SourceError::NotFound(p) => "not found: "@ + p@,
                SourceError::Unreadable(p) => "cannot read file: "@ + p@,
                SourceError::Binary(p) => "file appears to be binary: "@ + p@,
                SourceError::InvalidUtf8(p) => "file does not contain valid UTF-8 text: "@ + p@,
            }),
    {
        let mut v: Vec<char> = Vec::new();
        match self {
            SourceError::NotFound(p) => {
                push_str(&mut v, "not found: ");
                push_str(&mut v, p.as_str());
            },
            SourceError::Unreadable(p) => {
                push_str(&mut v, "cannot read file: ");
                push_str(&mut v, p.as_str());
            },
            SourceError::Binary(p) => {
                push_str(&mut v, "file appears to be binary: ");
                push_str(&mut v, p.as_str());
            },
            SourceError::InvalidUtf8(p) => {
                push_str(&mut v, "file does not contain valid UTF-8 text: ");
                push_str(&mut v, p.as_str());
            },
        }
        from_chars(&v)
    }
}

/// Accept an ingest source: `canonical` is its canonical path (`None` when
/// canonicalizing `file` failed) and `contents` all the bytes of the file
/// (`None` when it could not be read). Any text file is accepted, whatever
/// its extension: the whole file must hold no NUL byte and be well-formed
/// UTF-8.
pub fn resolve_ingest_source(file: &str, canonical: Option<String>, contents: Option<Vec<u8>>) -> (r:
    Result<String, SourceError>)
    ensures
        match r {
            Ok(p) => {
                &&& canonical matches Some(c) && p@ == c@
                &&& contents matches Some(h) && !h@.contains(0u8) && valid_utf8(h@)
            },
            Err(SourceError::NotFound(f)) => canonical is None && f@ == file@,
            Err(SourceError::Unreadable(p)) => canonical matches Some(c) && p@ == c@ && contents is None,
            Err(SourceError::Binary(p)) => {
                &&& canonical matches Some(c) && p@ == c@
                &&& contents matches Some(h) && h@.contains(0u8)
            },
            Err(SourceError::InvalidUtf8(p)) => {
                &&& canonical matches Some(c) && p@ == c@
                &&& contents matches Some(h) && !h@.contains(0u8) && !valid_utf8(h@)
            },
        },
{
    let c = match canonical {
        None => return Err(SourceError::NotFound(from_chars(&lit(file)))),
        Some(c) => c,
    };
    let h = match contents {
        None => return Err(SourceError::Unreadable(c)),
        Some(h) => h,
    };
    let mut i: usize = 0;
    while i < h.len()
        invariant
            i <= h@.len(),
            !h@.take(i as int).contains(0u8),
            canonical matches Some(cc) && cc@ == c@,
            contents matches Some(hh) && hh@ == h@,
        decreases h.len() - i,
    {
        if h[i] == 0u8 {
            assert(h@[i as int] == 0u8);
            assert(h@.contains(0u8));
            return Err(SourceError::Binary(c));
        }
        assert(h@.take(i + 1) =~= h@.take(i as int).push(h@[i as int]));
        i = i + 1;
    }
    assert(h@.take(h.len() as int) =~= h@);
    if !is_utf8(h.as_slice()) {
        Err(SourceError::InvalidUtf8(c))
    } else {
        Ok(c)
    }
}

// ---------------------------------------------------------------------------
// External ids
// ---------------------------------------------------------------------------

/// A front matter fence: `---`, trailing whitespace aside.
pub open spec fn is_fence(l: Seq<char>) -> bool {
    trim_end(l) == "---"@
}

/// A value without one pair of surrounding double or single quotes.
pub open spec fn unquoted(v: Seq<char>) -> Seq<char> {
    if v.len() >= 2 && ((v[0] == '"' && v.last() == '"') || (v[0] == '\'' && v.last() == '\'')) {
        v.subrange(1, v.len() - 1)
    } else {
        v
    }
}

/// The external id an `external_id: <value>` line gives: the value, trimmed
/// and unquoted, when it is not empty.
pub open spec fn external_id_value(l: Seq<char>) -> Option<Seq<char>> {
    let key = "external_id:"@;
    if starts_with(l, key) {
        let v = unquoted(trim(l.subrange(key.len() as int, l.len() as int)));
        if v.len() > 0 {
            Some(v)
        } else {
            None
        }
    } else {
        None
    }
}

/// The index of the first fence at or after line `i`.
pub open spec fn first_fence(ls: Seq<Seq<char>>, i: int) -> Option<int>
    decreases ls.len() - i,
{
    if i < 0 || i >= ls.len() {
        None
    } else if is_fence(ls[i]) {
        Some(i)
    } else {
        first_fence(ls, i + 1)
    }
}

/// The first external id given among lines `i..j`.
pub open spec fn first_external_id(ls: Seq<Seq<char>>, i: int, j: int) -> Option<Seq<char>>
    decreases j - i,
{
    if i < 0 || i >= j || i >= ls.len() {
        None
    } else {
        match external_id_value(ls[i]) {
            Some(v) => Some(v),
            None => first_external_id(ls, i + 1, j),
        }
    }
}

/// The external id in a source's YAML front matter: the text opens with a
/// `---` line, the front matter runs to the next `---` line, and the first
/// `external_id:` line in it with a non-empty value gives the id.
pub open spec fn frontmatter_external_id(text: Seq<char>) -> Option<Seq<char>> {
    let ls = lines(text);
    if ls.len() > 0 && is_fence(ls[0]) {
        match first_fence(ls, 1) {
            Some(j) => first_external_id(ls, 1, j),
            None => None,
        }
    } else {
        None
    }
}

/// The external id of a source: the `--external-id` flag when given,
/// otherwise the front matter's.
pub open spec fn source_external_id_spec(flag: Option<Seq<char>>, text: Seq<char>) -> Option<Seq<char>> {
    match flag {
        Some(e) => Some(e),
        None => frontmatter_external_id(text),
    }
}

fn external_id_of_line(l: &Vec<char>) -> (r: Option<Vec<char>>)
    ensures
        opt_chars(r) == external_id_value(l@),
{
    let key = lit("external_id:");
    proof {
        reveal_strlit("external_id:");
    }
    if !has_prefix(l, &key) {
        return None;
    }
    let rest = slice_chars(l, key.len(), l.len());
    let v = trim_chars(&rest);
    let n = v.len();
    let u = if n >= 2 && ((v[0] == '"' && v[n - 1] == '"') || (v[0] == '\'' && v[n - 1] == '\'')) {
        slice_chars(&v, 1, n - 1)
    } else {
        slice_chars(&v, 0, n)
    };
    assert(v@.subrange(0, n as int) =~= v@);
    if u.len() > 0 {
        Some(u)
    } else {
        None
    }
}

/// The view of an optional character vector.
pub open spec fn opt_chars(o: Option<Vec<char>>) -> Option<Seq<char>> {
    match o {
        Some(v) => Some(v@),
        None => None,
    }
}

fn is_fence_line(l: &Vec<char>) -> (b: bool)
    ensures
        b == is_fence(l@),
{
    let t = trim_end_chars(l);
    let fence = lit("---");
    chars_eq(&t, &fence)
}

/// The external id in the YAML front matter of a source's text (see
/// [`frontmatter_external_id`]).
pub fn frontmatter_external_id_of(text: &str) -> (r: Option<String>)
    ensures
        opt_view(r) == frontmatter_external_id(text@),
{
    let ls = split_lines(&lit(text));
    let ghost vs = views(ls@);
    if ls.len() == 0 || !is_fence_line(&ls[0]) {
        proof {
            if ls.len() > 0 {
                assert(vs[0] == ls@[0]@);
            }
        }
        return None;
    }
    assert(vs[0] == ls@[0]@);
    let mut j: usize = 1;
    while j < ls.len() && !is_fence_line(&ls[j])
        invariant
            1 <= j <= ls.len(),
            vs == views(ls@),
            vs == lines(text@),
            is_fence(vs[0]),
            first_fence(vs, 1) == first_fence(vs, j as int),
        decreases ls.len() - j,
    {
        j = j + 1;
    }
    if j == ls.len() {
        return None;
    }
    assert(vs[j as int] == ls@[j as int]@);
    let mut k: usize = 1;
    while k < j
        invariant
            1 <= k <= j < ls.len(),
            vs == views(ls@),
            vs == lines(text@),
            is_fence(vs[0]),
            first_fence(vs, 1) == Some(j as int),
            first_external_id(vs, 1, j as int) == first_external_id(vs, k as int, j as int),
        decreases j - k,
    {
        assert(vs[k as int] == ls@[k as int]@);
        match external_id_of_line(&ls[k]) {
            Some(v) => {
                assert(first_external_id(vs, k as int, j as int) == Some(v@));
                return Some(from_chars(&v));
            },
            None => {},
        }
        k = k + 1;
    }
    None
}

/// The external id of a source: the `--external-id` flag when given,
/// otherwise the one in the front matter of its text.
pub fn source_external_id(flag: Option<String>, text: &str) -> (r: Option<String>)
    ensures
        opt_view(r) == source_external_id_spec(opt_view(flag), text@),
{
    match flag {
        Some(e) => Some(e),
        None => frontmatter_external_id_of(text),
    }
}

// ---------------------------------------------------------------------------
// Source keys
// ---------------------------------------------------------------------------

/// The stable key of a canonical source: its path relative to the wiki root,
/// components joined by `/`, when it lies under the root; otherwise the
/// absolute path itself; `None` for a relative path outside the root.
pub open spec fn source_key(root: Seq<char>, src: Seq<char>) -> Option<Seq<char>> {
    if path_starts_with(src, root) {
        Some(join(path_parts(src).skip(path_parts(root).len() as int), seq!['/']))
    } else if is_absolute(src) {
        Some(src)
    } else {
        None
    }
}

/// A relative source path that lies outside the wiki root.
#[derive(Debug, PartialEq, Eq)]
pub enum SourceKeyError {
    /// The path is neither under the wiki root nor absolute.
    NotAbsolute(String),
}

impl SourceKeyError {
    /// Human-readable description, with its code.
    pub fn message(&self) -> (r: String)
        ensures
            r@ == (match self {
                SourceKeyError::NotAbsolute(p) =>
                    "AGWIKI_INGEST_STATE_UTF8_PATH: source path is not absolute after canonicalization: "@
                        + p@,
            }),
    {
        let mut v: Vec<char> = Vec::new();
        match self {
            SourceKeyError::NotAbsolute(p) => {
                push_str(
                    &mut v,
                    "AGWIKI_INGEST_STATE_UTF8_PATH: source path is not absolute after canonicalization: ",
                );
                push_str(&mut v, p.as_str());
            },
        }
        from_chars(&v)
    }
}

/// The stable `source_key` of a canonical source path: relative to the
/// canonical `wiki_root` with `/` separators when the source lies under it,
/// otherwise the absolute path itself.
pub fn source_key_for(wiki_root: &str, canonical_source: &str) -> (r: Result<String, SourceKeyError>)
    ensures
        match r {
            Ok(k) => source_key(wiki_root@, canonical_source@) == Some(k@),
            Err(SourceKeyError::NotAbsolute(p)) => source_key(wiki_root@, canonical_source@) is None
                && p@ == canonical_source@,
        },
{
    let root = lit(wiki_root);
    let src = lit(canonical_source);
    let root_abs = root.len() > 0 && root[0] == '/';
    let src_abs = src.len() > 0 && src[0] == '/';
    let rp = path_parts_exec(&root);
    let sp = path_parts_exec(&src);
    if root_abs == src_abs && parts_prefix(&sp, &rp) {
        let mut rest: Vec<Vec<char>> = Vec::new();
        let mut i: usize = rp.len();
        while i < sp.len()
            invariant
                rp.len() <= i <= sp.len(),
                views(rest@) == views(sp@).subrange(rp.len() as int, i as int),
            decreases sp.len() - i,
        {
            let ghost old_rest = rest@;
            rest.push(sp[i].clone());
            assert(views(rest@) =~= views(old_rest).push(sp@[i as int]@));
            assert(views(sp@).subrange(rp.len() as int, i + 1) =~= views(sp@).subrange(
                rp.len() as int,
                i as int,
            ).push(sp@[i as int]@));
            i = i + 1;
        }
        assert(views(sp@).subrange(rp.len() as int, sp.len() as int) =~= views(sp@).skip(
            rp.len() as int,
        ));
        let sep = vec!['/'];
        assert(sep@ =~= seq!['/']);
        let key = join_chars(&rest, &sep);
        Ok(from_chars(&key))
    } else if src_abs {
        Ok(from_chars(&src))
    } else {
        Err(SourceKeyError::NotAbsolute(from_chars(&src)))
    }
}

// ---------------------------------------------------------------------------
// The resume ledger
// ---------------------------------------------------------------------------

/// Ledger record status.
#[derive(Debug, Clone, Copy, PartialEq, Eq, Structural)]
pub enum IngestStatus {
    /// A completed ingest where the agent run succeeded.
    Success,
}

/// Ledger record for a single successful ingest (one JSON line of the
/// append-only ledger). Records are appended only after an agent run
/// succeeds.
#[derive(Debug, Clone)]
pub struct IngestStateRecordV1 {
    /// Schema version (must be `1`).
    pub schema_version: u32,
    /// Record status.
    pub status: IngestStatus,
    /// Canonical wiki root path.
    pub wiki_root: String,
    /// Stable source identity key.
    pub source_key: String,
    /// SHA-256 of the source bytes (lowercase hex).
    pub content_sha256: String,
    /// SHA-256 of the wiki's `ingest.md` bytes (lowercase hex).
    pub ingest_policy_sha256: String,
    /// Agent key used for the ingest.
    pub agent: String,
    /// Optional model override.
    pub model: Option<String>,
    /// The source's stable external id, when it has one.
    pub external_id: Option<String>,
    /// Completion time (RFC 3339, UTC).
    pub completed_at: String,
    /// Version of the tool that wrote the record.
    pub agwiki_version: String,
}

/// Identity key used to decide whether a prior success record can be
/// reused (see [`same_source`]): by external id when the source has one,
/// otherwise by content identity.
#[derive(Debug, Clone)]
pub struct IngestIdentity {
    pub wiki_root: String,
    pub source_key: String,
    pub content_sha256: String,
    pub ingest_policy_sha256: String,
    pub agent: String,
    pub model: Option<String>,
    /// A stable id of the source (`--external-id` or front matter
    /// `external_id:`), e.g. a message id, a video id or a URL.
    pub external_id: Option<String>,
}

/// The abstract value of an [`IngestIdentity`].
pub struct IdentityV {
    pub wiki_root: Seq<char>,
    pub source_key: Seq<char>,
    pub content_sha256: Seq<char>,
    pub ingest_policy_sha256: Seq<char>,
    pub agent: Seq<char>,
    pub model: Option<Seq<char>>,
    pub external_id: Option<Seq<char>>,
}

impl View for IngestIdentity {
    type V = IdentityV;

    open spec fn view(&self) -> IdentityV {
        IdentityV {
            wiki_root: self.wiki_root@,
            source_key: self.source_key@,
            content_sha256: self.content_sha256@,
            ingest_policy_sha256: self.ingest_policy_sha256@,
            agent: self.agent@,
            model: opt_view(self.model),
            external_id: opt_view(self.external_id),
        }
    }
}

/// The identity a record was written under.
pub open spec fn record_identity(r: IngestStateRecordV1) -> IdentityV {
    IdentityV {
        wiki_root: r.wiki_root@,
        source_key: r.source_key@,
        content_sha256: r.content_sha256@,
        ingest_policy_sha256: r.ingest_policy_sha256@,
        agent: r.agent@,
        model: opt_view(r.model),
        external_id: opt_view(r.external_id),
    }
}

/// Whether a success recorded under `recorded` counts for a source of
/// identity `id`. External ids are authoritative: a source with an external
/// id matches a record of the same wiki root, external id and policy hash,
/// whatever its content, path, agent or model. Without an external id the
/// content identity decides: same wiki root, source key, content hash,
/// policy hash, agent and model.
pub open spec fn same_source(recorded: IdentityV, id: IdentityV) -> bool {
    &&& recorded.wiki_root == id.wiki_root
    &&& recorded.ingest_policy_sha256 == id.ingest_policy_sha256
    &&& match id.external_id {
        Some(e) => recorded.external_id == Some(e),
        None => {
            &&& recorded.source_key == id.source_key
            &&& recorded.content_sha256 == id.content_sha256
            &&& recorded.agent == id.agent
            &&& recorded.model == id.model
        },
    }
}

/// Some recorded identity counts for `id`.
pub open spec fn recorded(ids: Seq<IdentityV>, id: IdentityV) -> bool {
    exists|k: int| 0 <= k < ids.len() && same_source(#[trigger] ids[k], id)
}

/// Configuration for resume mode. With `resume`, ingests consult the ledger
/// and may skip sources with a matching prior success; with `force`,
/// sources are never skipped (but successes are still appended).
#[derive(Debug, Clone)]
pub struct IngestResumeConfig {
    /// Enable resume ledger behavior.
    pub resume: bool,
    /// Force ingest even when a matching success record exists.
    pub force: bool,
    /// Path to the append-only JSON Lines ledger file.
    pub ingest_state_path: String,
}

/// One line of the ledger file: its text, and what parsing its trimmed text
/// as a record gave (the parser's message when it failed).
pub struct LedgerLine {
    pub text: String,
    pub parsed: Result<IngestStateRecordV1, String>,
}

/// The success records of a ledger, in file order.
#[derive(Debug)]
pub struct IngestLedger {
    pub records: Vec<IngestStateRecordV1>,
}

/// A line that holds only whitespace.
pub open spec fn is_blank(t: Seq<char>) -> bool {
    trim(t).len() == 0
}

/// A record that counts for resume: schema 1 with status `success`.
pub open spec fn usable(r: IngestStateRecordV1) -> bool {
    r.schema_version == 1 && r.status == IngestStatus::Success
}

/// The usable records among the first `n` lines; blank lines and lines that
/// did not parse are passed over.
pub open spec fn kept(lines: Seq<LedgerLine>, n: int) -> Seq<IngestStateRecordV1>
    decreases n,
{
    if n <= 0 {
        seq![]
    } else {
        let prev = kept(lines, n - 1);
        let l = lines[n - 1];
        if is_blank(l.text@) {
            prev
        } else {
            match l.parsed {
                Ok(r) => if usable(r) {
                    prev.push(r)
                } else {
                    prev
                },
                Err(_) => prev,
            }
        }
    }
}

/// A line that is not blank and did not parse.
pub open spec fn is_invalid(l: LedgerLine) -> bool {
    !is_blank(l.text@) && l.parsed is Err
}

/// The index of the first invalid line among the first `n`.
pub open spec fn first_invalid(lines: Seq<LedgerLine>, n: int) -> Option<int>
    decreases n,
{
    if n <= 0 {
        None
    } else {
        match first_invalid(lines, n - 1) {
            Some(i) => Some(i),
            None => if is_invalid(lines[n - 1]) {
                Some(n - 1)
            } else {
                None
            },
        }
    }
}

proof fn lemma_first_invalid(lines: Seq<LedgerLine>, n: int)
    requires
        0 <= n,
    ensures
        match first_invalid(lines, n) {
            Some(i) => 0 <= i < n && is_invalid(lines[i]) && forall|k: int|
                0 <= k < i ==> !is_invalid(#[trigger] lines[k]),
            None => forall|k: int| 0 <= k < n ==> !is_invalid(#[trigger] lines[k]),
        },
    decreases n,
{
    if n > 0 {
        lemma_first_invalid(lines, n - 1);
    }
}

/// What loading a ledger for resuming gives: its usable records in file
/// order, or nothing when a non-blank line does not parse.
pub open spec fn ledger_load(lines: Seq<LedgerLine>) -> Option<Seq<IngestStateRecordV1>> {
    if first_invalid(lines, lines.len() as int) is Some {
        None
    } else {
        Some(kept(lines, lines.len() as int))
    }
}

/// The identities of a sequence of records.
pub open spec fn record_ids(rs: Seq<IngestStateRecordV1>) -> Seq<IdentityV> {
    rs.map_values(|r: IngestStateRecordV1| record_identity(r))
}

proof fn lemma_first_invalid_stays(lines: Seq<LedgerLine>, m: int, n: int)
    requires
        0 <= m <= n,
        first_invalid(lines, m) is Some,
    ensures
        first_invalid(lines, n) == first_invalid(lines, m),
    decreases n - m,
{
    if m < n {
        lemma_first_invalid_stays(lines, m, n - 1);
    }
}

impl IngestLedger {
    /// The identities of the records.
    pub open spec fn ids(&self) -> Seq<IdentityV> {
        record_ids(self.records@)
    }

    /// An empty ledger.
    pub fn new() -> (l: IngestLedger)
        ensures
            l.records@.len() == 0,
    {
        IngestLedger { records: Vec::new() }
    }

    /// Whether a recorded success counts for a source of identity `id`.
    pub fn contains(&self, id: &IngestIdentity) -> (b: bool)
        ensures
            b == recorded(self.ids(), id@),
    {
        let mut i: usize = 0;
        while i < self.records.len()
            invariant
                i <= self.records@.len(),
                forall|k: int| 0 <= k < i ==> !same_source(#[trigger] self.ids()[k], id@),
            decreases self.records.len() - i,
        {
            if same_identity(&self.records[i], id) {
                assert(same_source(self.ids()[i as int], id@));
                return true;
            }
            i = i + 1;
        }
        false
    }

    /// Record a success.
    pub fn insert(&mut self, record: IngestStateRecordV1)
        ensures
            final(self).records@ == old(self).records@.push(record),
    {
        self.records.push(record);
    }
}

fn same_opt(a: &Option<String>, b: &Option<String>) -> (r: bool)
    ensures
        r == (opt_view(*a) == opt_view(*b)),
{
    match a {
        Some(x) => match b {
            Some(y) => chars_eq(&string_chars(x), &string_chars(y)),
            None => false,
        },
        None => b.is_none(),
    }
}

fn same_identity(r: &IngestStateRecordV1, id: &IngestIdentity) -> (b: bool)
    ensures
        b == same_source(record_identity(*r), id@),
{
    if !(r.wiki_root == id.wiki_root && r.ingest_policy_sha256 == id.ingest_policy_sha256) {
        return false;
    }
    match &id.external_id {
        Some(_) => same_opt(&r.external_id, &id.external_id),
        None => r.source_key == id.source_key && r.content_sha256 == id.content_sha256 && r.agent
            == id.agent && same_opt(&r.model, &id.model),
    }
}

fn copy_opt(o: &Option<String>) -> (r: Option<String>)
    ensures
        r == *o,
{
    match o {
        Some(s) => Some(s.clone()),
        None => None,
    }
}

fn copy_record(r: &IngestStateRecordV1) -> (c: IngestStateRecordV1)
    ensures
        c == *r,
{
    IngestStateRecordV1 {
        schema_version: r.schema_version,
        status: r.status,
        wiki_root: r.wiki_root.clone(),
        source_key: r.source_key.clone(),
        content_sha256: r.content_sha256.clone(),
        ingest_policy_sha256: r.ingest_policy_sha256.clone(),
        agent: r.agent.clone(),
        model: copy_opt(&r.model),
        external_id: copy_opt(&r.external_id),
        completed_at: r.completed_at.clone(),
        agwiki_version: r.agwiki_version.clone(),
    }
}

/// The identity a record was written under.
pub fn identity_of(record: &IngestStateRecordV1) -> (id: IngestIdentity)
    ensures
        id@ == record_identity(*record),
{
    IngestIdentity {
        wiki_root: record.wiki_root.clone(),
        source_key: record.source_key.clone(),
        content_sha256: record.content_sha256.clone(),
        ingest_policy_sha256: record.ingest_policy_sha256.clone(),
        agent: record.agent.clone(),
        model: copy_opt(&record.model),
        external_id: copy_opt(&record.external_id),
    }
}

/// A ledger line that could not be parsed while resuming.
#[derive(Debug, PartialEq, Eq)]
pub enum LedgerError {
    /// The line (1-based) of the ledger at `path` is not a valid record.
    InvalidJson { path: String, line: usize, message: String },
}

impl LedgerError {
    /// Human-readable description, with its code.
    pub fn message(&self) -> (r: String)
        ensures
            r@ == (match self {
                LedgerError::InvalidJson { path, line, message } =>
                    "AGWIKI_INGEST_STATE_READ_FAILED: invalid JSON at "@ + path@ + ":"@ + decimal(
                        *line as nat,
                    ) + ": "@ + message@,
            }),
    {
        let mut v: Vec<char> = Vec::new();
        match self {
            LedgerError::InvalidJson { path, line, message } => {
                push_str(&mut v, "AGWIKI_INGEST_STATE_READ_FAILED: invalid JSON at ");
                push_str(&mut v, path.as_str());
                push_str(&mut v, ":");
                append_chars(&mut v, &decimal_chars(*line as u64));
                push_str(&mut v, ": ");
                push_str(&mut v, message.as_str());
            },
        }
        from_chars(&v)
    }
}

/// Load the ledger at `path` from its lines. Blank lines are skipped, and so
/// are records that are not schema 1 successes. A line that does not parse is
/// an error when resuming and is skipped otherwise.
pub fn load_ingest_state(path: &str, lines: &Vec<LedgerLine>, resume: bool) -> (r: Result<
    IngestLedger,
    LedgerError,
>)
    ensures
        match r {
            Ok(l) => {
                &&& !(resume && first_invalid(lines@, lines@.len() as int) is Some)
                &&& l.records@ == kept(lines@, lines@.len() as int)
                &&& resume ==> ledger_load(lines@) == Some(l.records@)
            },
            Err(LedgerError::InvalidJson { path: p, line, message }) => {
                &&& resume
                &&& ledger_load(lines@) is None
                &&& first_invalid(lines@, lines@.len() as int) matches Some(i)
                &&& lines@[i].parsed matches Err(e)
                &&& p@ == path@ && line == i + 1 && message@ == e@
            },
        },
{
    let mut out = IngestLedger::new();
    let mut i: usize = 0;
    while i < lines.len()
        invariant
            i <= lines@.len(),
            out.records@ == kept(lines@, i as int),
            resume ==> first_invalid(lines@, i as int) is None,
        decreases lines.len() - i,
    {
        let line = &lines[i];
        let t = trim_chars(&string_chars(&line.text));
        if t.len() != 0 {
            match &line.parsed {
                Ok(rec) => {
                    if rec.schema_version == 1 && rec.status == IngestStatus::Success {
                        out.insert(copy_record(rec));
                    }
                },
                Err(e) => {
                    if resume {
                        proof {
                            assert(is_invalid(lines@[i as int]));
                            assert(first_invalid(lines@, i + 1) == Some(i as int));
                            lemma_first_invalid_stays(lines@, i + 1, lines@.len() as int);
                        }
                        return Err(
                            LedgerError::InvalidJson {
                                path: from_chars(&lit(path)),
                                line: i + 1,
                                message: e.clone(),
                            },
                        );
                    }
                },
            }
        }
        i = i + 1;
    }
    Ok(out)
}

// ---------------------------------------------------------------------------
// Resume decisions
// ---------------------------------------------------------------------------

/// Whether a source with identity `id` is skipped: resuming, not forced, and
/// a recorded success counts for it (see [`same_source`]).
pub open spec fn skips(resume: bool, force: bool, ids: Seq<IdentityV>, id: IdentityV) -> bool {
    resume && !force && recorded(ids, id)
}

/// Whether the source with identity `id` is skipped under `cfg`.
pub fn should_skip(cfg: &IngestResumeConfig, ledger: &IngestLedger, id: &IngestIdentity) -> (b: bool)
    ensures
        b == skips(cfg.resume, cfg.force, ledger.ids(), id@),
{
    cfg.resume && !cfg.force && ledger.contains(id)
}

/// The record appended after a successful agent run for `id`.
pub fn success_record(id: &IngestIdentity, completed_at: String, agwiki_version: String) -> (r:
    IngestStateRecordV1)
    ensures
        usable(r),
        record_identity(r) == id@,
        r.completed_at == completed_at,
        r.agwiki_version == agwiki_version,
{
    IngestStateRecordV1 {
        schema_version: 1,
        status: IngestStatus::Success,
        wiki_root: id.wiki_root.clone(),
        source_key: id.source_key.clone(),
        content_sha256: id.content_sha256.clone(),
        ingest_policy_sha256: id.ingest_policy_sha256.clone(),
        agent: id.agent.clone(),
        model: copy_opt(&id.model),
        external_id: copy_opt(&id.external_id),
        completed_at,
        agwiki_version,
    }
}

/// The notice printed when a source is skipped.
pub fn skip_notice(source_key: &str) -> (r: String)
    ensures
        r@ == "SKIP: "@ + source_key@ + " (already ingested under same policy/content/agent/model)"@,
{
    let mut v: Vec<char> = Vec::new();
    push_str(&mut v, "SKIP: ");
    push_str(&mut v, source_key);
    push_str(&mut v, " (already ingested under same policy/content/agent/model)");
    from_chars(&v)
}

/// The lock file guarding a ledger: the ledger path with `.lock` appended.
pub fn lock_path_for(ingest_state_path: &str) -> (r: String)
    ensures
        r@ == ingest_state_path@ + ".lock"@,
{
    let mut v = lit(ingest_state_path);
    push_str(&mut v, ".lock");
    from_chars(&v)
}

/// A recorded success is found again: once a usable record of identity `id`
/// is in the ledger, a resumed, unforced ingest of `id` is skipped.
pub proof fn law_recorded_success_is_skipped(ids: Seq<IdentityV>, r: IngestStateRecordV1)
    requires
        usable(r),
    ensures
        skips(true, false, ids.push(record_identity(r)), record_identity(r)),
{
    assert(same_source(ids.push(record_identity(r))[ids.len() as int], record_identity(r)));
}

/// Forcing never skips a source.
pub proof fn law_force_never_skips(resume: bool, ids: Seq<IdentityV>, id: IdentityV)
    ensures
        !skips(resume, true, ids, id),
{
}

/// Changing `ingest.md` re-ingests everything: a source whose policy hash
/// differs from that of every recorded success is never skipped.
pub proof fn law_policy_change_reingests(resume: bool, force: bool, ids: Seq<IdentityV>, id: IdentityV)
    requires
        forall|i: int| 0 <= i < ids.len() ==> #[trigger] ids[i].ingest_policy_sha256 != id.ingest_policy_sha256,
    ensures
        !skips(resume, force, ids, id),
{
    if recorded(ids, id) {
        let i = choose|i: int| 0 <= i < ids.len() && same_source(ids[i], id);
        assert(ids[i].ingest_policy_sha256 != id.ingest_policy_sha256);
    }
}

/// A change re-ingests: after one recorded success, a source that the
/// record does not count for is not skipped. Without an external id that is
/// any change of content, path, agent or model; with one, a change of
/// external id; and in both cases a change of root or policy.
pub proof fn law_identity_change_reingests(r: IngestStateRecordV1, id: IdentityV)
    requires
        !same_source(record_identity(r), id),
    ensures
        !skips(true, false, seq![record_identity(r)], id),
{
    if recorded(seq![record_identity(r)], id) {
        assert(seq![record_identity(r)][0] == record_identity(r));
    }
}

/// Without an external id, content identity decides: after one recorded
/// success, a source with no external id whose content hash, key, agent or
/// model differs from the record's is not skipped.
pub proof fn law_content_change_reingests(r: IngestStateRecordV1, id: IdentityV)
    requires
        id.external_id is None,
        r.content_sha256@ != id.content_sha256 || r.source_key@ != id.source_key || r.agent@ != id.agent
            || opt_view(r.model) != id.model,
    ensures
        !skips(true, false, seq![record_identity(r)], id),
{
    law_identity_change_reingests(r, id);
}

/// External ids are authoritative: after a success recorded with external
/// id `e`, a source of the same wiki root and policy that carries `e` is
/// skipped, however its content, path, agent or model drifted.
pub proof fn law_external_id_ignores_content_drift(r: IngestStateRecordV1, id: IdentityV)
    requires
        id.external_id is Some,
        opt_view(r.external_id) == id.external_id,
        r.wiki_root@ == id.wiki_root,
        r.ingest_policy_sha256@ == id.ingest_policy_sha256,
    ensures
        skips(true, false, seq![record_identity(r)], id),
{
    assert(same_source(seq![record_identity(r)][0], id));
}

/// A success line written to the ledger survives a reload: every non-blank
/// line that parses as a usable record puts its identity among the loaded
/// identities, so resuming skips that source.
pub proof fn law_ledger_line_is_loaded(lines: Seq<LedgerLine>, i: int)
    requires
        0 <= i < lines.len(),
        !is_blank(lines[i].text@),
        lines[i].parsed matches Ok(r) && usable(r),
    ensures
        lines[i].parsed matches Ok(r) && skips(
            true,
            false,
            record_ids(kept(lines, lines.len() as int)),
            record_identity(r),
        ),
{
    lemma_kept_keeps(lines, i, lines.len() as int);
    let r = lines[i].parsed->Ok_0;
    let ids = record_ids(kept(lines, lines.len() as int));
    let k = choose|k: int| 0 <= k < ids.len() && ids[k] == record_identity(r);
    assert(same_source(ids[k], record_identity(r)));
}

proof fn lemma_prefix_unchanged(lines: Seq<LedgerLine>, l: LedgerLine, n: int)
    requires
        0 <= n <= lines.len(),
    ensures
        kept(lines.push(l), n) == kept(lines, n),
        first_invalid(lines.push(l), n) == first_invalid(lines, n),
    decreases n,
{
    if n > 0 {
        lemma_prefix_unchanged(lines, l, n - 1);
        assert(lines.push(l)[n - 1] == lines[n - 1]);
    }
}

/// The ledger round trip: when a ledger loads for resuming, appending the
/// line written for a success record `r` (a non-blank line that parses back
/// as `r`) and loading again gives the records loaded before followed by
/// `r`; so the identities known after the reload are those known before and
/// `r`'s, and nothing else changes.
pub proof fn law_appended_success_reloads(lines: Seq<LedgerLine>, l: LedgerLine)
    requires
        ledger_load(lines) is Some,
        !is_blank(l.text@),
        l.parsed matches Ok(r) && usable(r),
    ensures
        l.parsed matches Ok(r) && ledger_load(lines.push(l)) == Some(ledger_load(lines)->0.push(r))
            && record_ids(ledger_load(lines.push(l))->0) == record_ids(ledger_load(lines)->0).push(
            record_identity(r),
        ),
{
    lemma_appended_line(lines, l);
    let r = l.parsed->Ok_0;
    let m0 = kept(lines, lines.len() as int);
    assert(record_ids(m0.push(r)) =~= record_ids(m0).push(record_identity(r)));
}

proof fn lemma_appended_line(lines: Seq<LedgerLine>, l: LedgerLine)
    requires
        !is_blank(l.text@),
        l.parsed matches Ok(r) && usable(r),
    ensures
        l.parsed matches Ok(r) && kept(lines.push(l), lines.len() + 1int) == kept(
            lines,
            lines.len() as int,
        ).push(r),
        first_invalid(lines.push(l), lines.len() + 1int) == first_invalid(lines, lines.len() as int),
{
    lemma_prefix_unchanged(lines, l, lines.len() as int);
    assert(lines.push(l)[lines.len() as int] == l);
}

/// Ingest is idempotent across runs: when a run appends the success line of
/// a record that counts for `id` (for instance the record written for `id`
/// itself) to a ledger that loads, the next run over the reloaded ledger
/// skips `id` unless it is forced, in which case it runs again.
pub proof fn law_second_run_skips(lines: Seq<LedgerLine>, l: LedgerLine, id: IdentityV, force: bool)
    requires
        ledger_load(lines) is Some,
        !is_blank(l.text@),
        l.parsed matches Ok(r) && usable(r) && same_source(record_identity(r), id),
    ensures
        ledger_load(lines.push(l)) is Some,
        skips(true, force, record_ids(ledger_load(lines.push(l))->0), id) == !force,
{
    law_appended_success_reloads(lines, l);
    let ks = ledger_load(lines.push(l))->0;
    assert(same_source(record_ids(ks)[ks.len() - 1], id));
}

/// A changed source runs again on the next run: when the line appended by a
/// run holds a record that does not count for `id` (see [`same_source`]),
/// and no record of the ledger counted for it before, `id` is not skipped
/// over the reloaded ledger.
pub proof fn law_second_run_changed_source_reingests(lines: Seq<LedgerLine>, l: LedgerLine, id: IdentityV)
    requires
        ledger_load(lines) is Some,
        !is_blank(l.text@),
        l.parsed matches Ok(r) && usable(r) && !same_source(record_identity(r), id),
        !recorded(record_ids(ledger_load(lines)->0), id),
    ensures
        ledger_load(lines.push(l)) is Some,
        !skips(true, false, record_ids(ledger_load(lines.push(l))->0), id),
{
    law_appended_success_reloads(lines, l);
    let before = ledger_load(lines)->0;
    let after = ledger_load(lines.push(l))->0;
    if recorded(record_ids(after), id) {
        let k = choose|k: int| 0 <= k < record_ids(after).len() && same_source(record_ids(after)[k], id);
        if k < before.len() {
            assert(record_ids(before)[k] == record_ids(after)[k]);
            assert(same_source(record_ids(before)[k], id));
        } else {
            assert(after[k] == l.parsed->Ok_0);
        }
    }
}

proof fn lemma_kept_keeps(lines: Seq<LedgerLine>, i: int, n: int)
    requires
        0 <= i < n <= lines.len(),
        !is_blank(lines[i].text@),
        lines[i].parsed matches Ok(r) && usable(r),
    ensures
        lines[i].parsed matches Ok(r) && record_ids(kept(lines, n)).contains(record_identity(r)),
    decreases n,
{
    let r = lines[i].parsed->Ok_0;
    if n == i + 1 {
        let ks = kept(lines, n);
        assert(ks == kept(lines, i).push(r));
        assert(record_ids(ks)[ks.len() - 1] == record_identity(r));
    } else {
        lemma_kept_keeps(lines, i, n - 1);
        let prev = kept(lines, n - 1);
        let ks = kept(lines, n);
        let k = choose|k: int| 0 <= k < record_ids(prev).len() && record_ids(prev)[k] == record_identity(r);
        if ks != prev {
            assert(ks == prev.push(lines[n - 1].parsed->Ok_0));
            assert(record_ids(ks)[k] == record_ids(prev)[k]);
        }
        assert(record_ids(ks)[k] == record_identity(r));
    }
}

// ---------------------------------------------------------------------------
// Folder runs
// ---------------------------------------------------------------------------

/// Outcome of a resume-aware single-file ingest.
#[derive(Debug, Clone, Copy, PartialEq, Eq, Structural)]
pub enum IngestFileOutcome {
    /// The file was ingested (agent executed).
    Ingested,
    /// The file was skipped due to a matching prior success record.
    Skipped,
}

/// Summary of a folder ingest.
#[derive(Debug)]
pub struct FolderIngestResult {
    /// Total files discovered.
    pub total: usize,
    /// Files that completed without error.
    pub succeeded: usize,
    /// Files that failed, paired with their error message.
    pub failures: Vec<(String, String)>,
}

/// Summary of a folder ingest with resume, including the skipped count.
#[derive(Debug)]
pub struct FolderIngestResultV2 {
    pub total: usize,
    pub succeeded: usize,
    pub skipped: usize,
    pub failures: Vec<(String, String)>,
}

/// More markdown files were found than the cap allows.
#[derive(Debug, PartialEq, Eq)]
pub struct IngestCapError {
    pub folder: String,
    pub found: usize,
    pub cap: usize,
}

impl IngestCapError {
    /// Human-readable description, with the count found and the flag to pass.
    pub fn message(&self) -> (r: String)
        ensures
            r@ == "found "@ + decimal(self.found as nat) + " markdown file(s) under "@ + self.folder@
                + "; exceeds --max-files cap of "@ + decimal(self.cap as nat)
                + ". Pass --max-files "@ + decimal(self.found as nat) + " (or higher) to proceed."@,
    {
        let mut v: Vec<char> = Vec::new();
        push_str(&mut v, "found ");
        append_chars(&mut v, &decimal_chars(self.found as u64));
        push_str(&mut v, " markdown file(s) under ");
        push_str(&mut v, self.folder.as_str());
        push_str(&mut v, "; exceeds --max-files cap of ");
        append_chars(&mut v, &decimal_chars(self.cap as u64));
        push_str(&mut v, ". Pass --max-files ");
        append_chars(&mut v, &decimal_chars(self.found as u64));
        push_str(&mut v, " (or higher) to proceed.");
        from_chars(&v)
    }
}

/// The progress of a folder ingest over its discovered files, in order.
#[derive(Debug)]
pub struct FolderRun {
    pub files: Vec<String>,
    pub position: usize,
    pub succeeded: usize,
    pub skipped: usize,
    pub failures: Vec<(String, String)>,
}

impl FolderRun {
    /// Every file before `position` was counted exactly once, and every
    /// failure names one of those files.
    pub open spec fn wf(&self) -> bool {
        &&& self.position <= self.files@.len()
        &&& self.succeeded + self.skipped + self.failures@.len() == self.position
        &&& forall|k: int|
            0 <= k < self.failures@.len() ==> self.files@.take(self.position as int).contains(
                #[trigger] self.failures@[k].0,
            )
    }

    /// Every file was handled.
    pub open spec fn done(&self) -> bool {
        self.position == self.files@.len()
    }

    /// The next file to ingest, if any.
    pub fn current(&self) -> (r: Option<String>)
        requires
            self.wf(),
        ensures
            !self.done() ==> r == Some(self.files@[self.position as int]),
            self.done() ==> r is None,
    {
        if self.position < self.files.len() {
            Some(self.files[self.position].clone())
        } else {
            None
        }
    }

    /// The current file was ingested.
    pub fn record_success(&mut self)
        requires
            old(self).wf(),
            !old(self).done(),
        ensures
            final(self).wf(),
            final(self).files == old(self).files,
            final(self).position == old(self).position + 1,
            final(self).succeeded == old(self).succeeded + 1,
            final(self).skipped == old(self).skipped,
            final(self).failures == old(self).failures,
    {
        let n = self.files.len();
        assert(self.position < n);
        proof {
            lemma_take_grows(self.files@, self.position as int, self.failures@);
        }
        self.succeeded = self.succeeded + 1;
        self.position = self.position + 1;
    }

    /// The current file was skipped under resume.
    pub fn record_skip(&mut self)
        requires
            old(self).wf(),
            !old(self).done(),
        ensures
            final(self).wf(),
            final(self).files == old(self).files,
            final(self).position == old(self).position + 1,
            final(self).succeeded == old(self).succeeded,
            final(self).skipped == old(self).skipped + 1,
            final(self).failures == old(self).failures,
    {
        let n = self.files.len();
        assert(self.position < n);
        proof {
            lemma_take_grows(self.files@, self.position as int, self.failures@);
        }
        self.skipped = self.skipped + 1;
        self.position = self.position + 1;
    }

    /// The current file failed with `message`.
    pub fn record_failure(&mut self, message: String)
        requires
            old(self).wf(),
            !old(self).done(),
        ensures
            final(self).wf(),
            final(self).files == old(self).files,
            final(self).position == old(self).position + 1,
            final(self).succeeded == old(self).succeeded,
            final(self).skipped == old(self).skipped,
            final(self).failures@ == old(self).failures@.push(
                (old(self).files@[old(self).position as int], message),
            ),
    {
        let n = self.files.len();
        assert(self.position < n);
        let ghost pos = self.position as int;
        proof {
            lemma_take_grows(self.files@, pos, self.failures@);
            assert(self.files@.take(pos + 1)[pos] == self.files@[pos]);
        }
        let f = self.files[self.position].clone();
        self.failures.push((f, message));
        self.position = self.position + 1;
    }

    /// Summary without resume: every file that did not fail succeeded.
    pub fn result(&self) -> (r: FolderIngestResult)
        requires
            self.wf(),
            self.done(),
        ensures
            r.total == self.files@.len(),
            r.succeeded == r.total - self.failures@.len(),
            r.failures@ == self.failures@,
            forall|k: int| 0 <= k < r.failures@.len() ==> self.files@.contains(#[trigger] r.failures@[k].0),
    {
        assert(self.files@.take(self.position as int) =~= self.files@);
        FolderIngestResult {
            total: self.files.len(),
            succeeded: self.files.len() - self.failures.len(),
            failures: copy_failures(&self.failures),
        }
    }

    /// Summary with resume: every file is counted once as succeeded, skipped
    /// or failed.
    pub fn result_v2(&self) -> (r: FolderIngestResultV2)
        requires
            self.wf(),
            self.done(),
        ensures
            r.total == self.files@.len(),
            r.succeeded == self.succeeded,
            r.skipped == self.skipped,
            r.failures@ == self.failures@,
            r.total == r.succeeded + r.skipped + r.failures@.len(),
            forall|k: int| 0 <= k < r.failures@.len() ==> self.files@.contains(#[trigger] r.failures@[k].0),
    {
        assert(self.files@.take(self.position as int) =~= self.files@);
        FolderIngestResultV2 {
            total: self.files.len(),
            succeeded: self.succeeded,
            skipped: self.skipped,
            failures: copy_failures(&self.failures),
        }
    }
}

proof fn lemma_take_grows(files: Seq<String>, pos: int, failures: Seq<(String, String)>)
    requires
        0 <= pos < files.len(),
        forall|k: int| 0 <= k < failures.len() ==> files.take(pos).contains(#[trigger] failures[k].0),
    ensures
        forall|k: int| 0 <= k < failures.len() ==> files.take(pos + 1).contains(#[trigger] failures[k].0),
{
    assert forall|k: int| 0 <= k < failures.len() implies files.take(pos + 1).contains(
        #[trigger] failures[k].0,
    ) by {
        assert(files.take(pos).contains(failures[k].0));
        let j = choose|j: int| 0 <= j < files.take(pos).len() && files.take(pos)[j] == failures[k].0;
        assert(files.take(pos + 1)[j] == failures[k].0);
    }
}

fn copy_failures(v: &Vec<(String, String)>) -> (r: Vec<(String, String)>)
    ensures
        r@ == v@,
{
    let mut r: Vec<(String, String)> = Vec::new();
    let mut i: usize = 0;
    while i < v.len()
        invariant
            i <= v@.len(),
            r@ == v@.take(i as int),
        decreases v.len() - i,
    {
        let (a, b) = &v[i];
        r.push((a.clone(), b.clone()));
        assert(v@.take(i + 1) =~= v@.take(i as int).push(v@[i as int]));
        i = i + 1;
    }
    assert(v@.take(v@.len() as int) =~= v@);
    r
}

/// Start ingesting the markdown `files` discovered under `folder` (in
/// order). Fails before any file is ingested when `max_files > 0` and more
/// files than that were found; `max_files == 0` means no cap.
pub fn run_folder_ingest(folder: &str, files: Vec<String>, max_files: usize) -> (r: Result<
    FolderRun,
    IngestCapError,
>)
    ensures
        match r {
            Ok(run) => {
                &&& !(max_files > 0 && files@.len() > max_files)
                &&& run.wf() && run.files@ == files@ && run.position == 0
            },
            Err(e) => {
                &&& max_files > 0 && files@.len() > max_files
                &&& e.folder@ == folder@ && e.found == files@.len() && e.cap == max_files
            },
        },
{
    if max_files > 0 && files.len() > max_files {
        return Err(IngestCapError { folder: from_chars(&lit(folder)), found: files.len(), cap: max_files });
    }
    Ok(FolderRun { files, position: 0, succeeded: 0, skipped: 0, failures: Vec::new() })
}

// ---------------------------------------------------------------------------
// Discovering sources and running agents
// ---------------------------------------------------------------------------

/// The markdown files among `paths`, in order.
pub open spec fn md_only(paths: Seq<Seq<char>>) -> Seq<Seq<char>>
    decreases paths.len(),
{
    if paths.len() == 0 {
        seq![]
    } else {
        let prev = md_only(paths.drop_last());
        if is_md_source(paths.last()) {
            prev.push(paths.last())
        } else {
            prev
        }
    }
}

/// The markdown files of a folder: of the regular files found under it
/// (symlinks not followed), those whose extension is `md` in any case,
/// sorted by path component by component.
pub open spec fn md_sources(found: Seq<Seq<char>>) -> Seq<Seq<char>> {
    path_sorted(md_only(found))
}

fn key_chars(c: &Vec<char>) -> (k: Vec<char>)
    ensures
        k@ == component_key(c@),
{
    let mut k: Vec<char> = Vec::new();
    let mut j: usize = 0;
    while j < c.len()
        invariant
            j <= c.len(),
            k@ == c@.take(j as int).map_values(|ch: char| if ch == '/' { '\u{0}' } else { ch }),
        decreases c.len() - j,
    {
        let ch = if c[j] == '/' { '\u{0}' } else { c[j] };
        k.push(ch);
        assert(c@.take(j + 1).map_values(|ch: char| if ch == '/' { '\u{0}' } else { ch }) =~= c@.take(
            j as int,
        ).map_values(|ch: char| if ch == '/' { '\u{0}' } else { ch }).push(ch));
        j = j + 1;
    }
    assert(c@.take(c.len() as int) =~= c@);
    k
}

/// The markdown files to ingest among the regular files found under a
/// folder (see [`md_sources`]).
pub fn discover_md_files(found: &Vec<String>) -> (r: Vec<String>)
    ensures
        crate::text::string_views(r@) == md_sources(crate::text::string_views(found@)),
{
    let ghost fv = crate::text::string_views(found@);
    let mut md: Vec<Vec<char>> = Vec::new();
    let mut i: usize = 0;
    while i < found.len()
        invariant
            i <= found.len(),
            fv == crate::text::string_views(found@),
            views(md@) == md_only(fv.take(i as int)),
        decreases found.len() - i,
    {
        assert(fv.take(i + 1).drop_last() =~= fv.take(i as int));
        assert(fv.take(i + 1).last() == found@[i as int]@);
        let c = string_chars(&found[i]);
        if crate::toolkit::is_md_source_exec(&c) {
            let ghost old_seq = md@;
            md.push(c);
            assert(md@ == old_seq.push(c));
            assert(views(md@) =~= views(old_seq).push(c@));
        }
        i = i + 1;
    }
    assert(fv.take(found.len() as int) =~= fv);
    sort_paths(&md)
}

/// Paths in component-wise order: compared as if each `/` were the lowest
/// character, as a sorted list of `PathBuf`s orders them.
pub open spec fn path_sorted(m: Seq<Seq<char>>) -> Seq<Seq<char>> {
    sorted_order(m.map_values(|p: Seq<char>| component_key(p))).map_values(|i: usize| m[i as int])
}

/// `md` in component-wise path order (see [`path_sorted`]).
pub fn sort_paths(md: &Vec<Vec<char>>) -> (r: Vec<String>)
    ensures
        crate::text::string_views(r@) == path_sorted(views(md@)),
{
    let ghost mv = views(md@);
    let ghost keys = mv.map_values(|p: Seq<char>| component_key(p));
    let mut ks: Vec<Vec<char>> = Vec::new();
    let mut j: usize = 0;
    while j < md.len()
        invariant
            j <= md.len(),
            mv == views(md@),
            keys == mv.map_values(|p: Seq<char>| component_key(p)),
            views(ks@) == keys.take(j as int),
        decreases md.len() - j,
    {
        let k = key_chars(&md[j]);
        let ghost old_seq = ks@;
        ks.push(k);
        assert(ks@ == old_seq.push(k));
        assert(views(ks@) =~= views(old_seq).push(k@));
        assert(keys.take(j + 1) =~= keys.take(j as int).push(keys[j as int]));
        j = j + 1;
    }
    assert(keys.take(md.len() as int) =~= keys);
    let order = sort_indices(&ks);
    proof {
        lemma_sort_idx_perm_len(keys, keys.len());
    }
    let mut r: Vec<String> = Vec::new();
    let mut t: usize = 0;
    while t < order.len()
        invariant
            t <= order.len(),
            order@ == sorted_order(keys),
            order@.len() == mv.len(),
            mv == views(md@),
            forall|q: int| 0 <= q < order@.len() ==> (#[trigger] order@[q]) < mv.len(),
            crate::text::string_views(r@) == sorted_order(keys).take(t as int).map_values(|q: usize| mv[q as int]),
        decreases order.len() - t,
    {
        let ghost old_seq = r@;
        let x = from_chars(&md[order[t]]);
        r.push(x);
        assert(r@ == old_seq.push(x));
        assert(crate::text::string_views(r@) =~= crate::text::string_views(old_seq).push(x@));
        assert(sorted_order(keys).take(t + 1).map_values(|q: usize| mv[q as int]) =~= sorted_order(keys).take(
            t as int,
        ).map_values(|q: usize| mv[q as int]).push(mv[order@[t as int] as int]));
        t = t + 1;
    }
    assert(sorted_order(keys).take(order.len() as int) =~= sorted_order(keys));
    r
}

/// The error for an agent that cannot run, listing the runnable ones.
pub fn agent_not_runnable_message(agent: &str, available: &Vec<String>) -> (r: String)
    ensures
        r@ == "agent '"@ + agent@ + "' is not runnable; available agents: "@ + join(
            crate::text::string_views(available@),
            ", "@,
        ),
{
    let mut v = lit("agent '");
    push_str(&mut v, agent);
    push_str(&mut v, "' is not runnable; available agents: ");
    append_chars(&mut v, &join_chars(&crate::text::strings_chars(available), &lit(", ")));
    from_chars(&v)
}

/// The error for an agent run that did not succeed, with its exit status
/// as `{:?}` shows an `Option<i32>`.
pub fn agent_failed_message(code: Option<i32>) -> (r: String)
    ensures
        r@ == "agent exited with status "@ + match code {
            Some(_) => "Some("@ + exit_code_text(code) + ")"@,
            None => "None"@,
        },
{
    let mut v = lit("agent exited with status ");
    match code {
        Some(_) => {
            push_str(&mut v, "Some(");
            append_chars(&mut v, &string_chars(&crate::hooks::exit_code_string(code)));
            push_str(&mut v, ")");
        },
        None => push_str(&mut v, "None"),
    }
    from_chars(&v)
}

} // verus!
