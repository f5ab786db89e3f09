//! The local wiki server's logic: page templates, titles, the URL of each
//! markdown page, which file a request names (never one outside `wiki/`),
//! link rewriting and full-text search.
//!
//! Listening and reading files happen outside the library; markdown is
//! turned into HTML by pulldown-cmark, with raw HTML dropped.

use vstd::prelude::*;
use pulldown_cmark::{html, CowStr, Event, Options, Parser};
use crate::text::{
    append_chars, ends_with, from_chars, has_prefix, join, join_chars, lines, lit, push_str,
    replace_all, replace_chars, slice_chars, split_lines, starts_with, string_chars, trim,
    trim_chars, trim_start, views, last_before, last_index_of, lemma_last_before, decimal, decimal_chars,
};
use crate::paths::{chars_eq, is_absolute, parts_prefix, path_parts, path_parts_exec, path_starts_with};
use crate::upkeep::{
    mdlink_dest, mdlinks, norm_md_link, norm_wikilink_target, resolve_under, resolve_under_root, scan_links,
    wiki_root_error_text, wikilink_dest, wikilinks, LinkSpan, WikiRootError, is_under, law_links_stay_under_root, wikilinks_from, mdlinks_from,
};
use crate::text::{contains, index_of, index_of_char, lemma_index_of};
use crate::search::{content_views, page_order, pages_words, search_outcome, word_views, result_views, SearchIndex, SearchPage, SearchResult};
use crate::export_skill::{file_name, stem_of_name};
use crate::toolkit::extension_of;

verus! {

// ---------------------------------------------------------------------------
// Templates
// ---------------------------------------------------------------------------

/// The page shell; `{{TITLE}}`, `{{CONTENT}}` and `{{CURRENT_URL}}` are
/// filled in for each page.
pub const PAGE_TEMPLATE: &'static str = "<!doctype html>\n<html lang=\"en\">\n<head>\n<meta charset=\"utf-8\">\n<title>{{TITLE}}</title>\n<link rel=\"stylesheet\" href=\"/assets/style.css\">\n</head>\n<body>\n<header><a href=\"/\">Wiki</a> <input id=\"q\" type=\"search\" placeholder=\"Search\" data-current=\"{{CURRENT_URL}}\"><ul id=\"results\"></ul></header>\n<main>\n{{CONTENT}}\n</main>\n<script src=\"/assets/search.js\"></script>\n</body>\n</html>\n";

/// The landing page shell.
pub const INDEX_TEMPLATE: &'static str = "<!doctype html>\n<html lang=\"en\">\n<head>\n<meta charset=\"utf-8\">\n<title>Wiki</title>\n<link rel=\"stylesheet\" href=\"/assets/style.css\">\n</head>\n<body>\n<main><a href=\"/wiki/index\">Index</a></main>\n</body>\n</html>\n";

/// The search page shell.
pub const SEARCH_TEMPLATE: &'static str = "<!doctype html>\n<html lang=\"en\">\n<head>\n<meta charset=\"utf-8\">\n<title>Search</title>\n<link rel=\"stylesheet\" href=\"/assets/style.css\">\n</head>\n<body>\n<input id=\"q\" type=\"search\" placeholder=\"Search\"><ul id=\"results\"></ul>\n<script src=\"/assets/search.js\"></script>\n</body>\n</html>\n";

/// The stylesheet served at `/assets/style.css`.
pub const STYLE_CSS: &'static str = "body{font-family:sans-serif;max-width:50rem;margin:0 auto;padding:1rem;line-height:1.5}\nheader{display:flex;gap:1rem;align-items:center;border-bottom:1px solid #ddd;padding-bottom:.5rem}\n#results{list-style:none;padding:0}\npre{overflow:auto;background:#f6f6f6;padding:.5rem}\n";

/// The script served at `/assets/search.js`: queries `/search` as the user
/// types and lists the hits.
pub const SEARCH_JS: &'static str = "(function(){\nvar q=document.getElementById('q');var out=document.getElementById('results');\nif(!q||!out){return;}\nq.addEventListener('input',function(){\nvar v=q.value.trim();out.innerHTML='';if(!v){return;}\nfetch('/search?q='+encodeURIComponent(v)).then(function(r){return r.json();}).then(function(rs){\nrs.forEach(function(r){var li=document.createElement('li');var a=document.createElement('a');a.href=r.url;a.textContent=r.title;li.appendChild(a);out.appendChild(li);});\n});\n});\n})();\n";

/// The built-in page shells and assets.
#[derive(Debug, Clone, Copy)]
pub struct Templates {
    pub page_template: &'static str,
    pub index_template: &'static str,
    pub search_template: &'static str,
    pub style_css: &'static str,
    pub search_js: &'static str,
}

impl Templates {
    /// The built-in templates.
    pub fn new() -> (t: Templates)
        ensures
            t.page_template@ == PAGE_TEMPLATE@,
            t.index_template@ == INDEX_TEMPLATE@,
            t.search_template@ == SEARCH_TEMPLATE@,
            t.style_css@ == STYLE_CSS@,
            t.search_js@ == SEARCH_JS@,
    {
        Templates {
            page_template: PAGE_TEMPLATE,
            index_template: INDEX_TEMPLATE,
            search_template: SEARCH_TEMPLATE,
            style_css: STYLE_CSS,
            search_js: SEARCH_JS,
        }
    }

    /// A page: the page template with the escaped title, the content HTML
    /// and the escaped current URL filled in, in that order.
    pub fn render_page(&self, title: &str, content_html: &str, current_url: &str) -> (r: Result<String, String>)
        ensures
            r matches Ok(s) && s@ == rendered_page(self.page_template@, title@, content_html@, current_url@),
    {
        proof {
            reveal_strlit("{{TITLE}}");
            reveal_strlit("{{CONTENT}}");
            reveal_strlit("{{CURRENT_URL}}");
        }
        let t0 = lit(self.page_template);
        let t1 = replace_chars(&t0, &lit("{{TITLE}}"), &html_escape(&lit(title)));
        let t2 = replace_chars(&t1, &lit("{{CONTENT}}"), &lit(content_html));
        let t3 = replace_chars(&t2, &lit("{{CURRENT_URL}}"), &html_escape(&lit(current_url)));
        Ok(from_chars(&t3))
    }
}

/// The escape of one character for HTML text and attributes.
pub open spec fn escape_char(c: char) -> Seq<char> {
    if c == '&' {
        "&amp;"@
    } else if c == '<' {
        "&lt;"@
    } else if c == '>' {
        "&gt;"@
    } else if c == '"' {
        "&quot;"@
    } else if c == '\'' {
        "&#39;"@
    } else {
        seq![c]
    }
}

/// `s` with `& < > " '` escaped.
pub open spec fn escaped(s: Seq<char>) -> Seq<char>
    decreases s.len(),
{
    if s.len() == 0 {
        seq![]
    } else {
        escaped(s.drop_last()) + escape_char(s.last())
    }
}

/// A page: the escaped title, the content and the escaped URL put in place
/// of their placeholders, in that order.
pub open spec fn rendered_page(template: Seq<char>, title: Seq<char>, content: Seq<char>, url: Seq<char>) -> Seq<char> {
    replace_all(
        replace_all(replace_all(template, "{{TITLE}}"@, escaped(title)), "{{CONTENT}}"@, content),
        "{{CURRENT_URL}}"@,
        escaped(url),
    )
}

fn html_escape(s: &Vec<char>) -> (r: Vec<char>)
    ensures
        r@ == escaped(s@),
{
    let mut r: Vec<char> = Vec::new();
    let mut i: usize = 0;
    while i < s.len()
        invariant
            i <= s.len(),
            r@ == escaped(s@.take(i as int)),
        decreases s.len() - i,
    {
        assert(s@.take(i + 1).drop_last() =~= s@.take(i as int));
        let c = s[i];
        if c == '&' {
            push_str(&mut r, "&amp;");
        } else if c == '<' {
            push_str(&mut r, "&lt;");
        } else if c == '>' {
            push_str(&mut r, "&gt;");
        } else if c == '"' {
            push_str(&mut r, "&quot;");
        } else if c == '\'' {
            push_str(&mut r, "&#39;");
        } else {
            r.push(c);
        }
        i = i + 1;
    }
    assert(s@.take(s.len() as int) =~= s@);
    r
}

// ---------------------------------------------------------------------------
// Titles
// ---------------------------------------------------------------------------

/// The title of a markdown page: the first line that, trimmed, starts with
/// `# ` and has a non-blank rest (that rest, trimmed); otherwise the file
/// stem of its path, or `Wiki` when it has none.
pub open spec fn page_title(markdown: Seq<char>, path: Seq<char>) -> Seq<char> {
    match first_h1(lines(markdown), 0) {
        Some(t) => t,
        None => match file_name(path) {
            Some(n) => stem_of_name(n),
            None => "Wiki"@,
        },
    }
}

/// The title of the first `# ` line from line `i` on.
pub open spec fn first_h1(ls: Seq<Seq<char>>, i: int) -> Option<Seq<char>>
    decreases ls.len() - i,
{
    if i < 0 || i >= ls.len() {
        None
    } else {
        let t = trim(ls[i]);
        if starts_with(t, "# "@) && trim(t.skip(2)).len() > 0 {
            Some(trim(t.skip(2)))
        } else {
            first_h1(ls, i + 1)
        }
    }
}

/// The title of a markdown page (see [`page_title`]).
pub fn extract_title(markdown: &str, md_path: &str) -> (r: String)
    ensures
        r@ == page_title(markdown@, md_path@),
{
    let ls = split_lines(&lit(markdown));
    let ghost lv = views(ls@);
    let h = lit("# ");
    proof {
        reveal_strlit("# ");
    }
    let mut i: usize = 0;
    while i < ls.len()
        invariant
            i <= ls.len(),
            lv == views(ls@),
            lv == lines(markdown@),
            h@ == "# "@,
            first_h1(lv, 0) == first_h1(lv, i as int),
        decreases ls.len() - i,
    {
        assert(lv[i as int] == ls@[i as int]@);
        proof {
            reveal_strlit("# ");
        }
        let t = trim_chars(&ls[i]);
        if has_prefix(&t, &h) {
            let rest = trim_chars(&slice_chars(&t, 2, t.len()));
            assert(t@.skip(2) =~= t@.subrange(2, t@.len() as int));
            if rest.len() > 0 {
                return from_chars(&rest);
            }
        }
        i = i + 1;
    }
    let p = lit(md_path);
    let parts = path_parts_exec(&p);
    if parts.len() == 0 {
        return from_chars(&lit("Wiki"));
    }
    let last = &parts[parts.len() - 1];
    assert(views(parts@).last() == last@);
    if last.len() == 2 && last[0] == '.' && last[1] == '.' {
        assert(last@ =~= seq!['.', '.']);
        return from_chars(&lit("Wiki"));
    }
    proof {
        if last@ == seq!['.', '.'] {
            assert(last@[0] == '.' && last@[1] == '.');
        }
        lemma_last_before(last@, '.', last@.len() as int);
    }
    match last_index_of(last, '.') {
        Some(k) => if k > 0 {
            from_chars(&slice_chars(last, 0, k))
        } else {
            from_chars(last)
        },
        None => from_chars(last),
    }
}

// ---------------------------------------------------------------------------
// URLs and requests
// ---------------------------------------------------------------------------

/// The URL of a page at `p` under the canonical `wiki_dir`:
/// `/wiki/<path under wiki_dir>`, without a final `.md` extension; none
/// for a path outside `wiki_dir`.
pub open spec fn page_url(wiki_dir: Seq<char>, p: Seq<char>) -> Option<Seq<char>> {
    if path_starts_with(p, wiki_dir) {
        let rel = path_parts(p).skip(path_parts(wiki_dir).len() as int);
        let r = join(rel, "/"@);
        let r2 = if rel.len() > 0 && extension_of(rel.last()) == Some("md"@) {
            r.take(r.len() - 3)
        } else {
            r
        };
        Some("/wiki/"@ + r2)
    } else {
        None
    }
}

/// The path of a page under the canonical `wiki_dir`, as search results
/// show it: `wiki/<path under wiki_dir>`.
pub open spec fn display_path(wiki_dir: Seq<char>, p: Seq<char>) -> Option<Seq<char>> {
    if path_starts_with(p, wiki_dir) {
        Some("wiki/"@ + join(path_parts(p).skip(path_parts(wiki_dir).len() as int), "/"@))
    } else {
        None
    }
}

fn rel_parts(wiki_dir: &Vec<char>, p: &Vec<char>) -> (r: Option<Vec<Vec<char>>>)
    ensures
        match r {
            Some(rel) => path_starts_with(p@, wiki_dir@) && views(rel@) == path_parts(p@).skip(
                path_parts(wiki_dir@).len() as int,
            ),
            None => !path_starts_with(p@, wiki_dir@),
        },
{
    let w_abs = wiki_dir.len() > 0 && wiki_dir[0] == '/';
    let p_abs = p.len() > 0 && p[0] == '/';
    let wp = path_parts_exec(wiki_dir);
    let pp = path_parts_exec(p);
    if w_abs != p_abs || !parts_prefix(&pp, &wp) {
        return None;
    }
    let mut rest: Vec<Vec<char>> = Vec::new();
    let mut i: usize = wp.len();
    while i < pp.len()
        invariant
            wp.len() <= i <= pp.len(),
            views(rest@) == views(pp@).subrange(wp.len() as int, i as int),
        decreases pp.len() - i,
    {
        let ghost old_seq = rest@;
        let x = pp[i].clone();
        rest.push(x);
        assert(rest@ == old_seq.push(x));
        assert(views(rest@) =~= views(old_seq).push(pp@[i as int]@));
        assert(views(pp@).subrange(wp.len() as int, i + 1) =~= views(pp@).subrange(
            wp.len() as int,
            i as int,
        ).push(pp@[i as int]@));
        i = i + 1;
    }
    assert(views(pp@).subrange(wp.len() as int, pp.len() as int) =~= views(pp@).skip(wp.len() as int));
    Some(rest)
}

fn has_md_extension(name: &Vec<char>) -> (b: bool)
    ensures
        b == (extension_of(name@) == Some("md"@)),
{
    proof {
        lemma_last_before(name@, '.', name@.len() as int);
        reveal_strlit("md");
    }
    match last_index_of(name, '.') {
        Some(k) => {
            if k == 0 {
                return false;
            }
            assert(k < name.len());
            let e = slice_chars(name, k + 1, name.len());
            assert(e@ =~= name@.skip(k + 1));
            chars_eq(&e, &lit("md"))
        },
        None => false,
    }
}

/// The URL of the page at `md_path` (see [`page_url`]).
pub fn url_for_md_path(wiki_dir: &str, md_path: &str) -> (r: Option<String>)
    ensures
        match r {
            Some(u) => page_url(wiki_dir@, md_path@) == Some(u@),
            None => page_url(wiki_dir@, md_path@) is None,
        },
{
    let rel = match rel_parts(&lit(wiki_dir), &lit(md_path)) {
        Some(rel) => rel,
        None => return None,
    };
    let sep = lit("/");
    let r = join_chars(&rel, &sep);
    let strip = rel.len() > 0 && has_md_extension(&rel[rel.len() - 1]);
    proof {
        if rel.len() > 0 {
            assert(views(rel@).last() == rel@[rel.len() - 1]@);
        }
        reveal_strlit("md");
    }
    let r2 = if strip {
        proof {
            lemma_join_last(views(rel@), "/"@);
            lemma_md_ext_len(rel@[rel.len() - 1]@);
        }
        slice_chars(&r, 0, r.len() - 3)
    } else {
        slice_chars(&r, 0, r.len())
    };
    let mut u = lit("/wiki/");
    append_chars(&mut u, &r2);
    proof {
        if !strip {
            assert(r2@ =~= r@);
        }
    }
    Some(from_chars(&u))
}

proof fn lemma_md_ext_len(n: Seq<char>)
    requires
        extension_of(n) == Some("md"@),
    ensures
        n.len() >= 3,
{
    reveal_strlit("md");
    lemma_last_before(n, '.', n.len() as int);
    let k = last_before(n, '.', n.len() as int);
    assert(n.skip(k + 1).len() == 2);
}

/// The join of a non-empty list ends with its last piece.
proof fn lemma_join_last(list: Seq<Seq<char>>, sep: Seq<char>)
    requires
        list.len() > 0,
    ensures
        join(list, sep).len() >= list.last().len(),
        join(list, sep).skip(join(list, sep).len() - list.last().len()) == list.last(),
{
    let j = join(list, sep);
    if list.len() == 1 {
        assert(j.skip(0) =~= j);
    } else {
        assert(j == join(list.drop_last(), sep) + sep + list.last());
        assert(j.skip(j.len() - list.last().len()) =~= list.last());
    }
}

/// The display path of the page at `md_path` (see [`display_path`]).
pub fn display_path_for(wiki_dir: &str, md_path: &str) -> (r: Option<String>)
    ensures
        match r {
            Some(u) => display_path(wiki_dir@, md_path@) == Some(u@),
            None => display_path(wiki_dir@, md_path@) is None,
        },
{
    let rel = match rel_parts(&lit(wiki_dir), &lit(md_path)) {
        Some(rel) => rel,
        None => return None,
    };
    let mut u = lit("wiki/");
    append_chars(&mut u, &join_chars(&rel, &lit("/")));
    Some(from_chars(&u))
}

/// The file a `/wiki/<path>` request names, relative to `wiki/`: `index.md`
/// for a blank path; otherwise the path without leading `/`, with `.md`
/// added when it has no extension.
pub open spec fn requested_file(path: Seq<char>) -> Seq<char> {
    if trim(path).len() == 0 {
        "index.md"@
    } else {
        let t = strip_slashes(path);
        if requested_extension(t) is Some {
            t
        } else {
            t + ".md"@
        }
    }
}

/// `p` without its leading `/` characters.
pub open spec fn strip_slashes(p: Seq<char>) -> Seq<char>
    decreases p.len(),
{
    if p.len() > 0 && p[0] == '/' {
        strip_slashes(p.drop_first())
    } else {
        p
    }
}

/// The extension of the last component of a relative request path.
pub open spec fn requested_extension(p: Seq<char>) -> Option<Seq<char>> {
    match file_name(p) {
        Some(n) => extension_of(n),
        None => None,
    }
}

/// What a page request resolves to.
#[derive(Debug, PartialEq, Eq)]
pub enum PageRequest {
    /// The path climbs out of `wiki/`: answered 404 without touching disk.
    Blocked,
    /// A markdown page to render, at this path.
    Markdown(String),
    /// Another file to serve as it is, at this path.
    Static(String),
}

fn strip_slashes_exec(p: &Vec<char>) -> (r: Vec<char>)
    ensures
        r@ == strip_slashes(p@),
{
    let mut i: usize = 0;
    assert(p@.skip(0) =~= p@);
    while i < p.len() && p[i] == '/'
        invariant
            i <= p.len(),
            strip_slashes(p@) == strip_slashes(p@.skip(i as int)),
        decreases p.len() - i,
    {
        assert(p@.skip(i as int).drop_first() =~= p@.skip(i + 1));
        i = i + 1;
    }
    let r = slice_chars(p, i, p.len());
    assert(r@ =~= p@.skip(i as int));
    r
}

fn requested_extension_exec(p: &Vec<char>) -> (r: Option<Vec<char>>)
    ensures
        match r {
            Some(e) => requested_extension(p@) == Some(e@),
            None => requested_extension(p@) is None,
        },
{
    let parts = path_parts_exec(p);
    if parts.len() == 0 {
        return None;
    }
    let last = &parts[parts.len() - 1];
    assert(views(parts@).last() == last@);
    if last.len() == 2 && last[0] == '.' && last[1] == '.' {
        assert(last@ =~= seq!['.', '.']);
        return None;
    }
    proof {
        if last@ == seq!['.', '.'] {
            assert(last@[0] == '.' && last@[1] == '.');
        }
        lemma_last_before(last@, '.', last@.len() as int);
    }
    match last_index_of(last, '.') {
        Some(k) => if k > 0 {
            let e = slice_chars(last, k + 1, last.len());
            assert(e@ =~= last@.skip(k + 1));
            Some(e)
        } else {
            None
        },
        None => None,
    }
}

/// The file a page request under the canonical `wiki_dir` names: blocked
/// when it would leave `wiki_dir`, markdown when the requested name ends in
/// `.md` (added when no extension was given), a static file otherwise.
pub fn resolve_page_request(wiki_dir: &str, path: &str) -> (r: PageRequest)
    ensures
        match r {
            PageRequest::Blocked => resolve_under(wiki_dir@, requested_file(path@)) is None,
            PageRequest::Markdown(f) => resolve_under(wiki_dir@, requested_file(path@)) == Some(f@)
                && requested_extension(requested_file(path@)) == Some("md"@),
            PageRequest::Static(f) => resolve_under(wiki_dir@, requested_file(path@)) == Some(f@)
                && requested_extension(requested_file(path@)) != Some("md"@),
        },
{
    let pc = lit(path);
    let rel = if trim_chars(&pc).len() == 0 {
        lit("index.md")
    } else {
        let t = strip_slashes_exec(&pc);
        match requested_extension_exec(&t) {
            Some(_) => t,
            None => {
                let mut u = t;
                push_str(&mut u, ".md");
                u
            },
        }
    };
    assert(rel@ == requested_file(path@));
    let file = match resolve_under_root(&lit(wiki_dir), &rel) {
        Some(f) => f,
        None => return PageRequest::Blocked,
    };
    let is_md = match requested_extension_exec(&rel) {
        Some(e) => {
            proof {
                reveal_strlit("md");
            }
            chars_eq(&e, &lit("md"))
        },
        None => false,
    };
    if is_md {
        PageRequest::Markdown(from_chars(&file))
    } else {
        PageRequest::Static(from_chars(&file))
    }
}

/// A built-in asset and its content type: `style.css` and `search.js`;
/// nothing for any other name.
pub fn asset_bytes(templates: &Templates, file: &str) -> (r: Option<(&'static str, &'static str)>)
    ensures
        match r {
            Some((body, ct)) => (file@ == "style.css"@ && body@ == templates.style_css@ && ct@
                == "text/css; charset=utf-8"@) || (file@ == "search.js"@ && body@ == templates.search_js@
                && ct@ == "text/javascript; charset=utf-8"@),
            None => file@ != "style.css"@ && file@ != "search.js"@,
        },
{
    let f = lit(file);
    proof {
        reveal_strlit("style.css");
        reveal_strlit("search.js");
    }
    if chars_eq(&f, &lit("style.css")) {
        Some((templates.style_css, "text/css; charset=utf-8"))
    } else if chars_eq(&f, &lit("search.js")) {
        Some((templates.search_js, "text/javascript; charset=utf-8"))
    } else {
        None
    }
}

/// Runtime configuration for `serve`.
#[derive(Debug, Clone)]
pub struct ServerConfig {
    /// TCP port to bind to (`0` asks the system for a free port).
    pub port: u16,
    /// Host or IP address to bind to (default `127.0.0.1`).
    pub host: String,
    /// Open the server's URL in the default browser.
    pub open_browser: bool,
    /// Wiki root path (must contain a `wiki/` directory).
    pub wiki_root: String,
}

/// The `q` parameter of `GET /search`.
#[derive(Debug)]
pub struct SearchQuery {
    pub q: Option<String>,
}

/// A wiki server's state: its configuration with the canonical wiki root,
/// the canonical `wiki/` directory, the templates and the search index
/// built at startup.
#[derive(Debug)]
pub struct WikiServer {
    pub config: ServerConfig,
    pub wiki_dir: String,
    pub templates: Templates,
    pub search_index: SearchIndex,
}

impl WikiServer {
    /// Create a server for `config`. `root` is the outcome of checking the
    /// configured wiki root (see `validate_wiki_root`), `wiki_dir` that of
    /// canonicalizing its `wiki/` directory and `pages` that of reading the
    /// markdown pages under it; the first failure, in that order, is the
    /// error.
    pub fn new(
        config: ServerConfig,
        root: Result<String, WikiRootError>,
        wiki_dir: Result<String, String>,
        pages: Result<Vec<SearchPage>, String>,
    ) -> (r: Result<WikiServer, String>)
        ensures
            match r {
                Ok(s) => {
                    &&& root matches Ok(w) && s.config.wiki_root@ == w@
                    &&& wiki_dir matches Ok(d) && s.wiki_dir@ == d@
                    &&& pages matches Ok(ps) && content_views(s.search_index.file_content@) == page_order(ps@)
                        && word_views(s.search_index.word_map@) == pages_words(page_order(ps@), ps@.len() as int)
                    &&& s.config.port == config.port && s.config.host == config.host
                        && s.config.open_browser == config.open_browser
                    &&& s.templates.page_template@ == PAGE_TEMPLATE@
                },
                Err(m) => match root {
                    Err(e) => m@ == "SERVE_INVALID_WIKI: "@ + wiki_root_error_text(e),
                    Ok(_) => match wiki_dir {
                        Err(d) => m@ == d@,
                        Ok(_) => pages matches Err(p) && m@ == "SERVE_SEARCH_BUILD_ERROR: "@ + p@,
                    },
                },
            },
    {
        let w = match root {
            Err(e) => {
                let mut v = lit("SERVE_INVALID_WIKI: ");
                push_str(&mut v, e.message().as_str());
                return Err(from_chars(&v));
            },
            Ok(w) => w,
        };
        let d = match wiki_dir {
            Err(d) => return Err(d),
            Ok(d) => d,
        };
        let ps = match pages {
            Err(p) => {
                let mut v = lit("SERVE_SEARCH_BUILD_ERROR: ");
                push_str(&mut v, p.as_str());
                return Err(from_chars(&v));
            },
            Ok(ps) => ps,
        };
        let search_index = SearchIndex::build(&ps);
        let cfg = ServerConfig { port: config.port, host: config.host, open_browser: config.open_browser, wiki_root: w };
        Ok(WikiServer { config: cfg, wiki_dir: d, templates: Templates::new(), search_index })
    }

    /// The URL of the page at `md_path` (see [`page_url`]).
    pub fn url_for(&self, md_path: &str) -> (r: Option<String>)
        ensures
            match r {
                Some(u) => page_url(self.wiki_dir@, md_path@) == Some(u@),
                None => page_url(self.wiki_dir@, md_path@) is None,
            },
    {
        url_for_md_path(self.wiki_dir.as_str(), md_path)
    }

    /// The file a `/wiki/<path>` request names (see [`resolve_page_request`]).
    pub fn page_request(&self, path: &str) -> (r: PageRequest)
        ensures
            match r {
                PageRequest::Blocked => resolve_under(self.wiki_dir@, requested_file(path@)) is None,
                PageRequest::Markdown(f) => resolve_under(self.wiki_dir@, requested_file(path@)) == Some(f@)
                    && requested_extension(requested_file(path@)) == Some("md"@),
                PageRequest::Static(f) => resolve_under(self.wiki_dir@, requested_file(path@)) == Some(f@)
                    && requested_extension(requested_file(path@)) != Some("md"@),
            },
    {
        resolve_page_request(self.wiki_dir.as_str(), path)
    }

    /// The results of a `/search?q=` request: the query trimmed, then
    /// searched; `None` when a snippet cannot be cut.
    pub fn search(&self, query: &str) -> (r: Option<Vec<SearchResult>>)
        ensures
            match r {
                Some(v) => search_outcome(
                    word_views(self.search_index.word_map@),
                    content_views(self.search_index.file_content@),
                    trim(query@),
                    self.wiki_dir@,
                ) == Some(result_views(v@)),
                None => search_outcome(
                    word_views(self.search_index.word_map@),
                    content_views(self.search_index.file_content@),
                    trim(query@),
                    self.wiki_dir@,
                ) is None,
            },
    {
        let q = from_chars(&trim_chars(&lit(query)));
        self.search_index.search_checked(q.as_str(), self.wiki_dir.as_str())
    }
}

// ---------------------------------------------------------------------------
// Link rewriting
// ---------------------------------------------------------------------------

/// `s` without its leading copies of `p` (`str::trim_start_matches`).
pub open spec fn strip_prefixes(s: Seq<char>, p: Seq<char>) -> Seq<char>
    decreases s.len(),
{
    if p.len() > 0 && starts_with(s, p) {
        strip_prefixes(s.skip(p.len() as int), p)
    } else {
        s
    }
}

/// `s` without its trailing copies of `p` (`str::trim_end_matches`).
pub open spec fn strip_suffixes(s: Seq<char>, p: Seq<char>) -> Seq<char>
    decreases s.len(),
{
    if p.len() > 0 && ends_with(s, p) {
        strip_suffixes(s.take(s.len() - p.len()), p)
    } else {
        s
    }
}

/// The target and label of a matched wikilink text: the text between the
/// brackets split at its first `|` (both sides trimmed); without `|`, the
/// trimmed text is both.
pub open spec fn wikilink_parts(full: Seq<char>) -> (Seq<char>, Seq<char>) {
    let inner = strip_suffixes(strip_prefixes(full, "[["@), "]]"@);
    match index_of(inner, '|') {
        Some(k) => (trim(inner.take(k)), trim(inner.skip(k + 1))),
        None => (trim(inner), trim(inner)),
    }
}

/// The `#fragment` of a link target (from its first `#`, after trimming),
/// empty when it has none.
pub open spec fn fragment(t: Seq<char>) -> Seq<char> {
    match index_of(trim(t), '#') {
        Some(k) => trim(t).skip(k),
        None => seq![],
    }
}

/// The fragment of a link target (see [`fragment`]).
fn fragment_exec(t: &Vec<char>) -> (r: Vec<char>)
    ensures
        r@ == fragment(t@),
{
    let u = trim_chars(t);
    proof {
        lemma_index_of(u@, '#');
    }
    match index_of_char(&u, '#') {
        Some(k) => {
            let r = slice_chars(&u, k, u.len());
            assert(r@ =~= u@.skip(k as int));
            r
        },
        None => Vec::new(),
    }
}

/// What a wikilink `s[m.start..m.end]` becomes: `[label](url#fragment)` when
/// its target names a page under `wiki_dir` that has a URL (the target's
/// `#fragment`, if any, is kept after the URL); itself otherwise.
pub open spec fn wikilink_replacement(s: Seq<char>, m: LinkSpan, wiki_dir: Seq<char>) -> Seq<char> {
    let full = s.subrange(m.start as int, m.end as int);
    let parts = wikilink_parts(full);
    match wikilink_dest(wiki_dir, parts.0) {
        Some(dest) => match page_url(wiki_dir, dest) {
            Some(url) => "["@ + parts.1 + "]("@ + url + fragment(parts.0) + ")"@,
            None => full,
        },
        None => full,
    }
}

/// What a markdown link `s[m.start..m.end]` becomes: its target replaced by
/// the URL of the page it names (resolved from the directory of `src`),
/// followed by the target's `#fragment` if any, when that page lies under
/// `wiki_dir` and has a URL; itself otherwise.
pub open spec fn mdlink_replacement(s: Seq<char>, m: LinkSpan, wiki_dir: Seq<char>, src: Seq<char>) -> Seq<char> {
    let target = s.subrange(m.target_start as int, m.target_end as int);
    match mdlink_dest(wiki_dir, src, target) {
        Some(dest) => match page_url(wiki_dir, dest) {
            Some(url) => s.subrange(m.start as int, m.target_start as int) + url + fragment(target) + s.subrange(
                m.target_end as int,
                m.end as int,
            ),
            None => s.subrange(m.start as int, m.end as int),
        },
        None => s.subrange(m.start as int, m.end as int),
    }
}

/// `s[pos..]` with the links `ms[k..]` replaced: wikilinks when `wiki`,
/// markdown links otherwise.
pub open spec fn rewrite_from(s: Seq<char>, ms: Seq<LinkSpan>, k: int, pos: int, wiki: bool, wiki_dir: Seq<char>, src: Seq<char>) -> Seq<char>
    decreases ms.len() - k,
{
    if k < 0 || k >= ms.len() {
        s.subrange(pos, s.len() as int)
    } else {
        s.subrange(pos, ms[k].start as int) + (if wiki {
            wikilink_replacement(s, ms[k], wiki_dir)
        } else {
            mdlink_replacement(s, ms[k], wiki_dir, src)
        }) + rewrite_from(s, ms, k + 1, ms[k].end as int, wiki, wiki_dir, src)
    }
}

/// A page's markdown with its links pointed at the server's URLs: first
/// every wikilink `[[target|label]]` naming a page becomes `[label](url)`,
/// then every markdown link to a page under `wiki_dir` gets its URL; a
/// `#fragment` of the target is kept after the URL.
pub open spec fn rewritten(markdown: Seq<char>, src: Seq<char>, wiki_dir: Seq<char>) -> Seq<char> {
    let s1 = rewrite_from(markdown, wikilinks(markdown), 0, 0, true, wiki_dir, src);
    rewrite_from(s1, mdlinks(s1), 0, 0, false, wiki_dir, src)
}

/// `s` without its leading copies of `p` (see [`strip_prefixes`]).
pub fn strip_prefixes_exec(s: &Vec<char>, p: &Vec<char>) -> (r: Vec<char>)
    requires
        p.len() > 0,
    ensures
        r@ == strip_prefixes(s@, p@),
{
    let mut i: usize = 0;
    assert(s@.skip(0) =~= s@);
    while p.len() <= s.len() - i && crate::text::matches_at(s, p, i)
        invariant
            p.len() > 0,
            i <= s.len(),
            strip_prefixes(s@, p@) == strip_prefixes(s@.skip(i as int), p@),
        decreases s.len() - i,
    {
        proof {
            assert(s@.skip(i as int).subrange(0, p@.len() as int) =~= s@.subrange(i as int, i + p@.len()));
            assert(s@.skip(i as int).skip(p@.len() as int) =~= s@.skip(i + p@.len()));
        }
        i = i + p.len();
    }
    proof {
        if p.len() <= s.len() - i {
            assert(s@.skip(i as int).subrange(0, p@.len() as int) =~= s@.subrange(i as int, i + p@.len()));
        }
    }
    let r = slice_chars(s, i, s.len());
    assert(r@ =~= s@.skip(i as int));
    r
}

fn strip_suffixes_exec(s: &Vec<char>, p: &Vec<char>) -> (r: Vec<char>)
    requires
        p.len() > 0,
    ensures
        r@ == strip_suffixes(s@, p@),
{
    let mut j: usize = s.len();
    assert(s@.take(s.len() as int) =~= s@);
    while j >= p.len() && crate::text::matches_at(s, p, j - p.len())
        invariant
            p.len() > 0,
            j <= s.len(),
            strip_suffixes(s@, p@) == strip_suffixes(s@.take(j as int), p@),
        decreases j,
    {
        proof {
            let t = s@.take(j as int);
            assert(t.subrange(t.len() - p@.len(), t.len() as int) =~= s@.subrange(j - p@.len(), j as int));
            assert(t.take(t.len() - p@.len()) =~= s@.take(j - p@.len()));
        }
        j = j - p.len();
    }
    proof {
        let t = s@.take(j as int);
        if j >= p.len() {
            assert(t.subrange(t.len() - p@.len(), t.len() as int) =~= s@.subrange(j - p@.len(), j as int));
        }
    }
    slice_chars(s, 0, j)
}

fn wikilink_parts_exec(full: &Vec<char>) -> (r: (Vec<char>, Vec<char>))
    ensures
        (r.0@, r.1@) == wikilink_parts(full@),
{
    proof {
        reveal_strlit("[[");
        reveal_strlit("]]");
    }
    let a = strip_prefixes_exec(full, &lit("[["));
    let inner = strip_suffixes_exec(&a, &lit("]]"));
    proof {
        lemma_index_of(inner@, '|');
    }
    match index_of_char(&inner, '|') {
        Some(k) => (trim_chars(&slice_chars(&inner, 0, k)), trim_chars(&slice_chars(&inner, k + 1, inner.len()))),
        None => {
            let t = trim_chars(&inner);
            (t.clone(), t)
        },
    }
}

fn rewrite_pass(s: &Vec<char>, wiki: bool, wiki_dir: &Vec<char>, src: &Vec<char>) -> (r: Vec<char>)
    ensures
        r@ == rewrite_from(s@, if wiki { wikilinks(s@) } else { mdlinks(s@) }, 0, 0, wiki, wiki_dir@, src@),
{
    let ms = scan_links(s, wiki);
    let ghost msv = ms@;
    let mut out: Vec<char> = Vec::new();
    let mut pos: usize = 0;
    let mut k: usize = 0;
    while k < ms.len()
        invariant
            k <= ms.len(),
            msv == ms@,
            msv == (if wiki { wikilinks(s@) } else { mdlinks(s@) }),
            k < ms.len() ==> pos <= ms@[k as int].start,
            pos <= s.len(),
            k > 0 ==> pos == ms@[k - 1].end,
            k == 0 ==> pos == 0,
            forall|q: int|
                0 <= q < ms@.len() ==> (#[trigger] ms@[q]).start < ms@[q].end <= s.len()
                    && ms@[q].target_start <= ms@[q].target_end <= s.len() && (ms@[q].alias matches Some(
                    (a, b),
                ) ==> a <= b <= s.len()),
            forall|q: int|
                0 <= q < ms@.len() ==> (#[trigger] ms@[q]).start <= ms@[q].target_start
                    && ms@[q].target_end <= ms@[q].end,
            forall|q: int| 0 <= q < ms@.len() - 1 ==> (#[trigger] ms@[q]).end <= ms@[q + 1].start,
            out@ + rewrite_from(s@, msv, k as int, pos as int, wiki, wiki_dir@, src@) == rewrite_from(
                s@,
                msv,
                0,
                0,
                wiki,
                wiki_dir@,
                src@,
            ),
        decreases ms.len() - k,
    {
        let m = ms[k];
        let ghost old_out = out@;
        append_chars(&mut out, &slice_chars(s, pos, m.start));
        let full = slice_chars(s, m.start, m.end);
        let repl: Vec<char> = if wiki {
            let (target, label) = wikilink_parts_exec(&full);
            match norm_wikilink_target(wiki_dir, &target) {
                Some(dest) => match url_for_md_path(from_chars(wiki_dir).as_str(), from_chars(&dest).as_str()) {
                    Some(url) => {
                        let mut v = lit("[");
                        append_chars(&mut v, &label);
                        push_str(&mut v, "](");
                        push_str(&mut v, url.as_str());
                        append_chars(&mut v, &fragment_exec(&target));
                        push_str(&mut v, ")");
                        v
                    },
                    None => full,
                },
                None => full,
            }
        } else {
            let target = slice_chars(s, m.target_start, m.target_end);
            match norm_md_link(wiki_dir, src, &target) {
                Some(dest) => match url_for_md_path(from_chars(wiki_dir).as_str(), from_chars(&dest).as_str()) {
                    Some(url) => {
                        let mut v = slice_chars(s, m.start, m.target_start);
                        push_str(&mut v, url.as_str());
                        append_chars(&mut v, &fragment_exec(&target));
                        append_chars(&mut v, &slice_chars(s, m.target_end, m.end));
                        v
                    },
                    None => full,
                },
                None => full,
            }
        };
        assert(repl@ == (if wiki {
            wikilink_replacement(s@, m, wiki_dir@)
        } else {
            mdlink_replacement(s@, m, wiki_dir@, src@)
        }));
        append_chars(&mut out, &repl);
        assert(out@ + rewrite_from(s@, msv, k + 1, m.end as int, wiki, wiki_dir@, src@) =~= old_out
            + rewrite_from(s@, msv, k as int, pos as int, wiki, wiki_dir@, src@));
        pos = m.end;
        k = k + 1;
    }
    let tail = slice_chars(s, pos, s.len());
    append_chars(&mut out, &tail);
    assert(out@ =~= rewrite_from(s@, msv, 0, 0, wiki, wiki_dir@, src@));
    out
}

/// A page's markdown with its links pointed at the server's URLs (see
/// [`rewritten`]); `src_md` is the page's own path.
pub fn rewrite_links(markdown: &str, src_md: &str, wiki_dir: &str) -> (r: String)
    ensures
        r@ == rewritten(markdown@, src_md@, wiki_dir@),
{
    let d = lit(wiki_dir);
    let src = lit(src_md);
    let s1 = rewrite_pass(&lit(markdown), true, &d, &src);
    let s2 = rewrite_pass(&s1, false, &d, &src);
    from_chars(&s2)
}

// ---------------------------------------------------------------------------
// Markdown rendering
// ---------------------------------------------------------------------------

/// The markdown extensions a text is parsed with, and whether raw HTML
/// (blocks and inline tags) is dropped from the output.
#[derive(Debug, Clone, Copy, PartialEq, Eq, Structural)]
pub struct MarkdownOptions {
    pub tables: bool,
    pub footnotes: bool,
    pub strikethrough: bool,
    pub tasklists: bool,
    pub drop_raw_html: bool,
}

/// The options wiki pages are rendered with: tables, footnotes,
/// strikethrough and task lists, and raw HTML dropped, so that a page cannot
/// inject a script into the served document.
pub open spec fn page_options() -> MarkdownOptions {
    MarkdownOptions { tables: true, footnotes: true, strikethrough: true, tasklists: true, drop_raw_html: true }
}

/// See [`page_options`].
pub fn page_markdown_options() -> (o: MarkdownOptions)
    ensures
        o == page_options(),
{
    MarkdownOptions { tables: true, footnotes: true, strikethrough: true, tasklists: true, drop_raw_html: true }
}

/// The kind of a parser event, as far as the raw-HTML rule is concerned.
#[derive(Debug, Clone, Copy, PartialEq, Eq, Structural)]
pub enum MdEventKind {
    /// A block of raw HTML.
    BlockHtml,
    /// An inline raw HTML tag.
    InlineHtml,
    /// Any other event.
    Other,
}

/// What becomes of an event before it is rendered.
#[derive(Debug, Clone, Copy, PartialEq, Eq, Structural)]
pub enum MdEventAction {
    /// The event is rendered as parsed.
    Keep,
    /// The event is replaced by empty text.
    Blank,
}

/// Raw HTML is blanked when the options drop it; every other event is kept.
pub open spec fn event_action_spec(kind: MdEventKind, drop_raw_html: bool) -> MdEventAction {
    if drop_raw_html && kind != MdEventKind::Other {
        MdEventAction::Blank
    } else {
        MdEventAction::Keep
    }
}

/// The raw-HTML rule applied to one parser event.
pub fn event_action(kind: MdEventKind, drop_raw_html: bool) -> (a: MdEventAction)
    ensures
        a == event_action_spec(kind, drop_raw_html),
{
    match kind {
        MdEventKind::Other => MdEventAction::Keep,
        _ => if drop_raw_html {
            MdEventAction::Blank
        } else {
            MdEventAction::Keep
        },
    }
}

impl MarkdownOptions {
    /// The extensions as pulldown-cmark's `Options` bits: tables `1 << 1`,
    /// footnotes `1 << 2`, strikethrough `1 << 3`, task lists `1 << 4`.
    pub open spec fn flag_bits_spec(self) -> u32 {
        ((if self.tables { 2int } else { 0int }) + (if self.footnotes { 4int } else { 0int }) + (if self.strikethrough {
            8int
        } else {
            0int
        }) + (if self.tasklists { 16int } else { 0int })) as u32
    }

    /// See [`MarkdownOptions::flag_bits_spec`].
    pub fn flag_bits(&self) -> (b: u32)
        ensures
            b == self.flag_bits_spec(),
    {
        let mut b: u32 = 0;
        if self.tables {
            b = b + 2;
        }
        if self.footnotes {
            b = b + 4;
        }
        if self.strikethrough {
            b = b + 8;
        }
        if self.tasklists {
            b = b + 16;
        }
        b
    }
}

/// The HTML pulldown-cmark writes (`html::push_html`) for the events it
/// parses (`Parser::new_ext`) from a markdown text with the `Options` of the
/// given bits, each event first passed through [`event_action`] with
/// `drop_raw_html`.
pub uninterp spec fn rendered_html(markdown: Seq<char>, option_bits: u32, drop_raw_html: bool) -> Seq<char>;

/// Renders markdown with pulldown-cmark, named by `rendered_html`: the
/// parser gets `Options::from_bits_truncate(option_bits)`, and each event's
/// kind is handed to [`event_action`], whose answer the closure applies.
/// When raw HTML is dropped the output holds no `<script`: `push_html`
/// escapes `<` in every text, code, attribute and link it writes (with
/// `escape_html`, `escape_html_body_text` and `escape_href`), and writes a
/// `<` unescaped only in its own fixed tags and in raw HTML events.
#[verifier::external_body]
fn render_markdown(markdown: &str, option_bits: u32, drop_raw_html: bool) -> (html: String)
    ensures
        html@ == rendered_html(markdown@, option_bits, drop_raw_html),
        drop_raw_html ==> !contains(html@, "<script"@),
{
    let events = Parser::new_ext(markdown, Options::from_bits_truncate(option_bits)).map(|e| {
        let kind = match &e {
            Event::Html(_) => MdEventKind::BlockHtml,
            Event::InlineHtml(_) => MdEventKind::InlineHtml,
            _ => MdEventKind::Other,
        };
        match event_action(kind, drop_raw_html) {
            MdEventAction::Keep => e,
            MdEventAction::Blank => Event::Text(CowStr::Borrowed("")),
        }
    });
    let mut out = String::new();
    html::push_html(&mut out, events);
    out
}

/// Converts a page's markdown to HTML with the page options: tables,
/// footnotes, strikethrough and task lists, with raw HTML dropped, so the
/// result holds no `<script`.
pub fn markdown_to_html(markdown: &str) -> (html: String)
    ensures
        html@ == rendered_html(markdown@, page_options().flag_bits_spec(), true),
        !contains(html@, "<script"@),
{
    let options = page_markdown_options();
    render_markdown(markdown, options.flag_bits(), options.drop_raw_html)
}

/// mime_guess's first guess for a path, from its extension; `None` when the
/// extension is unknown or missing.
pub uninterp spec fn first_mime_guess(path: Seq<char>) -> Option<Seq<char>>;

/// mime_guess's `from_path(..).first_raw()`, named by `first_mime_guess`.
#[verifier::external_body]
fn guess_mime(path: &str) -> (r: Option<String>)
    ensures
        crate::config::opt_view(r) == first_mime_guess(path@),
{
    mime_guess::from_path(path).first_raw().map(String::from)
}

/// The content type a static file is served with: mime_guess's first guess
/// from its extension, `application/octet-stream` when there is none.
pub fn static_content_type(path: &str) -> (r: String)
    ensures
        r@ == match first_mime_guess(path@) {
            Some(m) => m,
            None => "application/octet-stream"@,
        },
{
    match guess_mime(path) {
        Some(m) => m,
        None => {
            proof {
                reveal_strlit("application/octet-stream");
            }
            from_chars(&lit("application/octet-stream"))
        },
    }
}

/// HTTP protocol versions, as the request log names them.
#[derive(Debug, Clone, Copy, PartialEq, Eq, Structural)]
pub enum HttpVersion {
    Http09,
    Http10,
    Http11,
    Http2,
    Http3,
    Other,
}

/// The request-log name of a protocol version.
pub open spec fn version_text(v: HttpVersion) -> Seq<char> {
    match v {
        HttpVersion::Http09 => "HTTP/0.9"@,
        HttpVersion::Http10 => "HTTP/1.0"@,
        HttpVersion::Http11 => "HTTP/1.1"@,
        HttpVersion::Http2 => "HTTP/2.0"@,
        HttpVersion::Http3 => "HTTP/3.0"@,
        HttpVersion::Other => "HTTP/?"@,
    }
}

/// The request-log name of a protocol version (see [`version_text`]).
pub fn version_to_str(v: HttpVersion) -> (r: &'static str)
    ensures
        r@ == version_text(v),
{
    match v {
        HttpVersion::Http09 => "HTTP/0.9",
        HttpVersion::Http10 => "HTTP/1.0",
        HttpVersion::Http11 => "HTTP/1.1",
        HttpVersion::Http2 => "HTTP/2.0",
        HttpVersion::Http3 => "HTTP/3.0",
        HttpVersion::Other => "HTTP/?",
    }
}

/// One request in Common Log Format:
/// `host ident authuser [date] "request" status bytes`, with `-` for the
/// identity and user.
pub open spec fn clf_text(remote: Seq<char>, timestamp: Seq<char>, method: Seq<char>, target: Seq<char>, version: HttpVersion, status: u16, bytes: Seq<char>) -> Seq<char> {
    remote + " - - ["@ + timestamp + "] \""@ + method + " "@ + target + " "@ + version_text(version) + "\" "@
        + decimal(status as nat) + " "@ + bytes
}

/// The log line of one request (see [`clf_text`]).
pub fn clf_line(remote: &str, timestamp: &str, method: &str, target: &str, version: HttpVersion, status: u16, bytes: &str) -> (r: String)
    ensures
        r@ == clf_text(remote@, timestamp@, method@, target@, version, status, bytes@),
{
    let mut v = lit(remote);
    push_str(&mut v, " - - [");
    push_str(&mut v, timestamp);
    push_str(&mut v, "] \"");
    push_str(&mut v, method);
    push_str(&mut v, " ");
    push_str(&mut v, target);
    push_str(&mut v, " ");
    push_str(&mut v, version_to_str(version));
    push_str(&mut v, "\" ");
    append_chars(&mut v, &decimal_chars(status as u64));
    push_str(&mut v, " ");
    push_str(&mut v, bytes);
    from_chars(&v)
}

proof fn lemma_no_links_without_brackets(s: Seq<char>, i: int)
    requires
        !s.contains('['),
    ensures
        wikilinks_from(s, i) == Seq::<LinkSpan>::empty(),
        mdlinks_from(s, i) == Seq::<LinkSpan>::empty(),
    decreases s.len() - i,
{
    if 0 <= i && i < s.len() {
        assert(s[i] != '[');
        lemma_no_links_without_brackets(s, i + 1);
    }
}

/// Text without a `[` holds no link, so rendering leaves it as it is.
pub proof fn law_text_without_links_is_unchanged(markdown: Seq<char>, src: Seq<char>, wiki_dir: Seq<char>)
    requires
        !markdown.contains('['),
    ensures
        rewritten(markdown, src, wiki_dir) == markdown,
{
    lemma_no_links_without_brackets(markdown, 0);
    let s1 = rewrite_from(markdown, wikilinks(markdown), 0, 0, true, wiki_dir, src);
    assert(s1 =~= markdown);
    lemma_no_links_without_brackets(s1, 0);
    assert(rewrite_from(s1, mdlinks(s1), 0, 0, false, wiki_dir, src) =~= markdown);
}

/// A page request never reaches outside the wiki directory: whatever the
/// requested path, the file it resolves to lies under `wiki_dir`, and a
/// path that would climb out is blocked.
pub proof fn law_page_requests_stay_in_wiki(wiki_dir: Seq<char>, path: Seq<char>)
    ensures
        resolve_under(wiki_dir, requested_file(path)) matches Some(f) ==> is_under(f, wiki_dir),
{
    law_links_stay_under_root(wiki_dir, requested_file(path), wiki_dir, seq![], seq![]);
}

} // verus!
