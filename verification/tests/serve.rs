use agwiki::serve::{clf_line, event_action, markdown_to_html, page_markdown_options, version_to_str, HttpVersion, MarkdownOptions, MdEventAction, MdEventKind};
use agwiki::search::{tokenize, SearchIndex, SearchPage};
use agwiki::serve::{
    asset_bytes, display_path_for, extract_title, resolve_page_request, rewrite_links,
    url_for_md_path, PageRequest, ServerConfig, Templates, WikiServer, STYLE_CSS,
};
use agwiki::upkeep::WikiRootError;

fn page(path: &str, text: &str) -> SearchPage {
    SearchPage { path: path.to_string(), canonical: path.to_string(), text: text.to_string() }
}

fn config() -> ServerConfig {
    ServerConfig { port: 0, host: "127.0.0.1".to_string(), open_browser: false, wiki_root: "/w".to_string() }
}

#[test]
fn new_rejects_missing_wiki_dir() {
    let err = WikiServer::new(
        config(),
        Err(WikiRootError::MissingWikiDir("/tmp/x".to_string())),
        Err("unreached".to_string()),
        Ok(Vec::new()),
    )
    .unwrap_err();
    assert!(err.contains("SERVE_INVALID_WIKI"));
    assert_eq!(err, "SERVE_INVALID_WIKI: not a wiki root (missing wiki/): /tmp/x");
}

#[test]
fn new_reports_search_build_errors() {
    let err = WikiServer::new(
        config(),
        Ok("/w".to_string()),
        Ok("/w/wiki".to_string()),
        Err("read markdown /w/wiki/bad.md".to_string()),
    )
    .unwrap_err();
    assert_eq!(err, "SERVE_SEARCH_BUILD_ERROR: read markdown /w/wiki/bad.md");
}

#[test]
fn search_index_finds_words_across_files() {
    let pages = vec![page("/w/wiki/index.md", "# Index\nhello world\n"), page("/w/wiki/a.md", "# A\nworld peace\n")];
    let server = WikiServer::new(config(), Ok("/w".into()), Ok("/w/wiki".into()), Ok(pages)).unwrap();
    let results = server.search("  world ").unwrap();
    assert!(results.iter().any(|r| r.url == "/wiki/index"));
    assert!(results.iter().any(|r| r.url == "/wiki/a"));
    // Equal scores: ordered by path.
    assert_eq!(results[0].file_path, "wiki/a.md");
    assert_eq!(results[0].title, "A");
    assert_eq!(results[0].snippet, "world peace");
    assert_eq!(results[1].url, "/wiki/index");
}

#[test]
fn search_ranks_by_words_matched_then_hits() {
    let pages = vec![
        page("/w/wiki/a.md", "alpha\nalpha alpha\n"),
        page("/w/wiki/b.md", "alpha beta\n"),
        page("/w/wiki/c.md", "gamma\n"),
    ];
    let idx = SearchIndex::build(&pages);
    let r = idx.search("Alpha BETA alpha", "/w/wiki");
    let urls: Vec<&str> = r.iter().map(|x| x.url.as_str()).collect();
    assert_eq!(urls, vec!["/wiki/b", "/wiki/a"]);
    assert_eq!(r[1].snippet, "alpha");
    assert!(idx.search("   ", "/w/wiki").is_empty());
    assert!(idx.search("delta", "/w/wiki").is_empty());
}

#[test]
fn search_returns_at_most_fifty() {
    let pages: Vec<SearchPage> = (0..60).map(|i| page(&format!("/w/wiki/p{i:02}.md"), "common\n")).collect();
    let idx = SearchIndex::build(&pages);
    let r = idx.search("common", "/w/wiki");
    assert_eq!(r.len(), 50);
    assert_eq!(r[0].url, "/wiki/p00");
    assert_eq!(r[49].url, "/wiki/p49");
}

#[test]
fn search_snippet_is_cut_at_180_bytes() {
    let line = format!("word {}", "x".repeat(300));
    let idx = SearchIndex::build(&vec![page("/w/wiki/long.md", &line)]);
    let r = idx.search("word", "/w/wiki");
    assert_eq!(r[0].snippet, format!("word {}\u{2026}", "x".repeat(175)));
    // A cut inside a multi-byte character cannot be made.
    let bad = format!("word {}", "é".repeat(200));
    let idx2 = SearchIndex::build(&vec![page("/w/wiki/bad.md", &bad)]);
    assert!(idx2.search_checked("word", "/w/wiki").is_none());
}

#[test]
fn search_pages_outside_wiki_dir_are_dropped() {
    let idx = SearchIndex::build(&vec![page("/elsewhere/x.md", "word\n")]);
    assert!(idx.search("word", "/w/wiki").is_empty());
}

#[test]
fn tokenize_alphanumeric_runs_lowercased() {
    assert_eq!(tokenize("Hello, World! x2 ÀB"), vec!["hello", "world", "x2", "Àb"]);
    assert!(tokenize("--- !!").is_empty());
}

#[test]
fn index_records_lines_and_context() {
    let idx = SearchIndex::build(&vec![page("/w/wiki/b.md", "  Two words  \n"), page("/w/wiki/a.md", "one\n")]);
    assert_eq!(idx.file_content[0].0, "/w/wiki/a.md");
    assert_eq!(idx.word_map.len(), 3);
    assert_eq!(idx.word_map[1].0, "two");
    assert_eq!(idx.word_map[1].1.line_number, 1);
    assert_eq!(idx.word_map[1].1.context, "Two words");
}

#[test]
fn extract_title_prefers_first_h1() {
    assert_eq!(extract_title("intro\n  #  Big Title  \n# Second\n", "/w/wiki/x.md"), "Big Title");
    assert_eq!(extract_title("## Not h1\n#   \n", "/w/wiki/some-page.md"), "some-page");
    assert_eq!(extract_title("", "/"), "Wiki");
}

#[test]
fn urls_of_pages() {
    assert_eq!(url_for_md_path("/w/wiki", "/w/wiki/concepts/hello.md").as_deref(), Some("/wiki/concepts/hello"));
    assert_eq!(url_for_md_path("/w/wiki", "/w/wiki/img.png").as_deref(), Some("/wiki/img.png"));
    assert_eq!(url_for_md_path("/w/wiki", "/w/other/a.md"), None);
    assert_eq!(display_path_for("/w/wiki", "/w/wiki/concepts/hello.md").as_deref(), Some("wiki/concepts/hello.md"));
}

#[test]
fn page_requests_stay_inside_wiki() {
    assert_eq!(resolve_page_request("/w/wiki", ""), PageRequest::Markdown("/w/wiki/index.md".to_string()));
    assert_eq!(resolve_page_request("/w/wiki", "/concepts/hello"), PageRequest::Markdown("/w/wiki/concepts/hello.md".to_string()));
    assert_eq!(resolve_page_request("/w/wiki", "img/logo.png"), PageRequest::Static("/w/wiki/img/logo.png".to_string()));
    assert_eq!(resolve_page_request("/w/wiki", "../secret"), PageRequest::Blocked);
    assert_eq!(resolve_page_request("/w/wiki", "a/../../etc/passwd"), PageRequest::Blocked);
}

#[test]
fn render_page_escapes_title_and_url() {
    let t = Templates::new();
    let html = t.render_page("A <b> & \"c\"", "<p>body</p>", "/wiki/x?a='1'").unwrap();
    assert!(html.contains("<title>A &lt;b&gt; &amp; &quot;c&quot;</title>"));
    assert!(html.contains("<p>body</p>"));
    assert!(html.contains("/wiki/x?a=&#39;1&#39;"));
}

#[test]
fn serve_assets_are_embedded() {
    let t = Templates::new();
    let (css, ct) = asset_bytes(&t, "style.css").unwrap();
    assert_eq!(css, STYLE_CSS);
    assert_eq!(ct, "text/css; charset=utf-8");
    assert_eq!(asset_bytes(&t, "search.js").unwrap().1, "text/javascript; charset=utf-8");
    assert!(asset_bytes(&t, "secret.txt").is_none());
}

#[test]
fn rewrite_links_converts_wikilinks_to_urls() {
    let out = rewrite_links("See [[concepts/hello|Hello]]\n", "/w/wiki/index.md", "/w/wiki");
    assert!(out.contains("[Hello](/wiki/concepts/hello)"));
    assert_eq!(out, "See [Hello](/wiki/concepts/hello)\n");
}

#[test]
fn rewrite_links_markdown_links_and_outside_targets() {
    let md = "[a](sub/page.md) [b](https://x.org) [c](../../etc.md) [[https://x]]";
    let out = rewrite_links(md, "/w/wiki/index.md", "/w/wiki");
    assert_eq!(out, "[a](/wiki/sub/page) [b](https://x.org) [c](../../etc.md) [[https://x]]");
    assert_eq!(rewrite_links("[[ plain ]]", "/w/wiki/i.md", "/w/wiki"), "[plain](/wiki/plain)");
}

#[test]
fn clf_line_formats_common_log_format() {
    assert_eq!(
        clf_line("127.0.0.1", "10/Oct/2024:13:55:36 +0000", "GET", "/wiki/index?q=1", HttpVersion::Http11, 200, "512"),
        "127.0.0.1 - - [10/Oct/2024:13:55:36 +0000] \"GET /wiki/index?q=1 HTTP/1.1\" 200 512"
    );
    assert_eq!(version_to_str(HttpVersion::Http2), "HTTP/2.0");
    assert_eq!(version_to_str(HttpVersion::Other), "HTTP/?");
    assert_eq!(
        clf_line("-", "-", "POST", "/", HttpVersion::Http10, 404, "-"),
        "- - - [-] \"POST / HTTP/1.0\" 404 -"
    );
}

#[test]
fn page_requests_that_climb_out_are_blocked() {
    assert_eq!(resolve_page_request("/w/wiki", "../secret"), PageRequest::Blocked);
    assert_eq!(resolve_page_request("/w/wiki", "a/../../x.md"), PageRequest::Blocked);
    assert_eq!(
        resolve_page_request("/w/wiki", "a/../b"),
        PageRequest::Markdown("/w/wiki/b.md".to_string())
    );
}

#[test]
fn static_files_get_guessed_content_type() {
    assert_eq!(agwiki::serve::static_content_type("/w/wiki/img/a.png"), "image/png");
    assert_eq!(agwiki::serve::static_content_type("/w/wiki/notes.txt"), "text/plain");
    assert_eq!(agwiki::serve::static_content_type("/w/wiki/blob"), "application/octet-stream");
    assert_eq!(agwiki::serve::static_content_type("/w/wiki/x.unknownext"), "application/octet-stream");
}

#[test]
fn text_without_links_renders_unchanged() {
    let text = "# Title\n\nplain (text) with ] and ) only\n";
    assert_eq!(rewrite_links(text, "/w/wiki/a.md", "/w/wiki"), text);
}

#[test]
fn serve_root_renders_index_and_converts_links() {
    let md = "# Index\n\n- [[concepts/hello|Hello]]\n- [Hello md](concepts/hello.md)\n- [[concepts/hello#sec|Hello sec]]\n- [Hello sec md](concepts/hello.md#sec)\n";
    let out = rewrite_links(md, "/w/wiki/index.md", "/w/wiki");
    assert_eq!(
        out,
        "# Index\n\n- [Hello](/wiki/concepts/hello)\n- [Hello md](/wiki/concepts/hello)\n- [Hello sec](/wiki/concepts/hello#sec)\n- [Hello sec md](/wiki/concepts/hello#sec)\n"
    );
    let html = markdown_to_html(&out);
    assert!(html.contains("href=\"/wiki/concepts/hello\""));
    assert!(html.contains("href=\"/wiki/concepts/hello#sec\""));
}

#[test]
fn markdown_to_html_strips_raw_html() {
    let html = markdown_to_html("# T\n\n<script>alert(1)</script>\n");
    assert!(!html.contains("<script>"));
    assert!(html.contains("<h1>"));
}

#[test]
fn markdown_to_html_renders_tables_and_strikethrough() {
    let html = markdown_to_html("a <b>bold</b> ~~gone~~\n\n| x | y |\n|---|---|\n| 1 | 2 |\n");
    assert!(!html.contains("<b>"));
    assert!(html.contains("<del>gone</del>"));
    assert!(html.contains("<table>"));
    assert!(html.contains("<td>1</td>"));
}

#[test]
fn raw_html_events_are_blanked_only_when_dropped() {
    assert_eq!(event_action(MdEventKind::BlockHtml, true), MdEventAction::Blank);
    assert_eq!(event_action(MdEventKind::InlineHtml, true), MdEventAction::Blank);
    assert_eq!(event_action(MdEventKind::Other, true), MdEventAction::Keep);
    assert_eq!(event_action(MdEventKind::BlockHtml, false), MdEventAction::Keep);
    let o = page_markdown_options();
    assert!(o.drop_raw_html);
    assert_eq!(o.flag_bits(), 2 + 4 + 8 + 16);
    let no_tables = MarkdownOptions { tables: false, ..o };
    assert_eq!(no_tables.flag_bits(), 4 + 8 + 16);
}

#[test]
fn markdown_to_html_escapes_script_text_and_links() {
    let html = markdown_to_html("a <script>x</script> `<script>` [l](<script>)\n\n    <script>\n");
    assert!(!html.contains("<script"));
    assert!(html.contains("&lt;script&gt;"));
}
