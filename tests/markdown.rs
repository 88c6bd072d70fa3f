use zorto::config::{AnchorLinks, MarkdownConfig};
use zorto::execute::ExecutableBlock;
use zorto::markdown::{
    emojify, escape_xml, exec_placeholder, extract_summary, heading_anchor, highlight_code,
    html_escape, is_external_url, link_open_tag, parse_code_attrs, replace_exec_placeholders,
    MarkdownState, MdEmit, MdEvent,
};

fn default_config() -> MarkdownConfig {
    MarkdownConfig::default()
}

#[test]
fn test_extract_summary_present() {
    let content = "First part\n<!-- more -->\nRest of content";
    let result = extract_summary(content);
    assert!(result.is_some());
    let (summary, full) = result.unwrap();
    assert_eq!(summary, "First part\n");
    assert_eq!(full, content);
}

#[test]
fn test_extract_summary_absent() {
    let content = "No summary marker here";
    assert!(extract_summary(content).is_none());
}

#[test]
fn test_is_external_url() {
    assert!(is_external_url("https://other.com", "https://example.com"));
    assert!(is_external_url("http://other.com", "https://example.com"));
    assert!(!is_external_url("https://example.com/page", "https://example.com"));
    assert!(!is_external_url("/relative/path", "https://example.com"));
    assert!(!is_external_url("#anchor", "https://example.com"));
}

#[test]
fn test_replace_exec_with_output() {
    let html = "before <!-- EXEC_BLOCK_0 --> after";
    let blocks = vec![ExecutableBlock {
        language: "python".into(),
        source: "print('hi')".into(),
        file_ref: None,
        output: Some("hi\n".into()),
        error: None,
    }];
    let result = replace_exec_placeholders(html, &blocks, &default_config());
    assert!(result.contains("code-block-executed"));
    assert!(result.contains("code-output"));
    assert!(result.contains("hi\n"));
    assert!(!result.contains("EXEC_BLOCK_0"));
}

#[test]
fn test_replace_exec_with_error() {
    let html = "<!-- EXEC_BLOCK_0 -->";
    let blocks = vec![ExecutableBlock {
        language: "python".into(),
        source: "bad".into(),
        file_ref: None,
        output: None,
        error: Some("NameError".into()),
    }];
    let result = replace_exec_placeholders(html, &blocks, &default_config());
    assert!(result.contains("code-error"));
    assert!(result.contains("NameError"));
}

#[test]
fn failing_block_shows_error_panel_and_no_placeholder() {
    let mut state = MarkdownState::new();
    state.start_code_block("{bash}");
    assert!(state.text("exit 3\n"));
    let html = state.end_code_block(&default_config());
    assert_eq!(html, "<!-- EXEC_BLOCK_0 -->");
    let mut blocks = state.blocks;
    blocks[0].output = Some(String::new());
    blocks[0].error = Some("boom <oops>".into());
    let page = format!("<p>x</p>{html}<p>y</p>");
    let result = replace_exec_placeholders(&page, &blocks, &default_config());
    assert!(result.contains("<div class=\"code-error\"><pre><code>boom &lt;oops&gt;</code></pre></div>"));
    assert!(!result.contains("code-output"));
    assert!(!result.contains("EXEC_BLOCK"));
}

#[test]
fn escaping() {
    assert_eq!(html_escape("<a href=\"x\">&'"), "&lt;a href=&quot;x&quot;&gt;&amp;'");
    assert_eq!(escape_xml("'&'"), "&apos;&amp;&apos;");
}

#[test]
fn placeholders_are_numbered() {
    assert_eq!(exec_placeholder(0), "<!-- EXEC_BLOCK_0 -->");
    assert_eq!(exec_placeholder(12), "<!-- EXEC_BLOCK_12 -->");
}

#[test]
fn code_attrs_are_parsed() {
    let (lang, file) = parse_code_attrs("python file=\"script.py\"");
    assert_eq!(lang, "python");
    assert_eq!(file.as_deref(), Some("script.py"));
    let (lang, file) = parse_code_attrs("bash");
    assert_eq!(lang, "bash");
    assert!(file.is_none());
}

#[test]
fn test_render_executable_block_detected() {
    let mut state = MarkdownState::new();
    state.start_code_block("{python}");
    state.text("print('hello')\n");
    let html = state.end_code_block(&default_config());
    assert_eq!(state.blocks.len(), 1);
    assert_eq!(state.blocks[0].language, "python");
    assert!(state.blocks[0].source.contains("print('hello')"));
    assert!(html.contains("<!-- EXEC_BLOCK_0 -->"));
}

#[test]
fn plain_code_when_highlighting_off() {
    let mut config = default_config();
    config.highlight_code = false;
    assert_eq!(
        highlight_code("a < b", "rust", &config),
        "<pre><code class=\"language-rust\">a &lt; b</code></pre>"
    );
}

#[test]
fn test_render_code_block_highlighted() {
    let html = highlight_code("fn main() {}\n", "rust", &default_config());
    assert!(html.contains("<pre"));
    assert!(!html.contains("language-rust"));
}

#[test]
fn test_render_heading_anchor_right() {
    let mut config = default_config();
    config.insert_anchor_links = AnchorLinks::Right;
    let mut state = MarkdownState::new();
    state.start_heading();
    assert!(!state.text("Hello World"));
    let a = state.end_heading(&config).unwrap();
    assert!(a.contains("zola-anchor"));
    assert!(a.contains("href=\"#hello-world\""));
}

#[test]
fn test_render_heading_anchor_none() {
    let mut state = MarkdownState::new();
    state.start_heading();
    state.text("Hello World");
    assert!(state.end_heading(&default_config()).is_none());
    assert!(heading_anchor("x", &default_config()).is_none());
}

#[test]
fn test_render_external_link_target_blank() {
    let mut config = default_config();
    config.external_links_target_blank = true;
    let tag = link_open_tag("https://other.com", "", &config, "https://example.com").unwrap();
    assert!(tag.contains(r#"target="_blank""#));
    assert_eq!(tag, "<a href=\"https://other.com\" title=\"\" target=\"_blank\">");
}

#[test]
fn test_render_internal_link_no_target_blank() {
    let mut config = default_config();
    config.external_links_target_blank = true;
    assert!(link_open_tag("https://example.com/page", "", &config, "https://example.com").is_none());
}

#[test]
fn external_link_rel_values() {
    let mut config = default_config();
    config.external_links_target_blank = true;
    config.external_links_no_follow = true;
    config.external_links_no_referrer = true;
    let tag = link_open_tag("https://other.com", "t", &config, "https://example.com").unwrap();
    assert!(tag.contains("rel=\"nofollow noreferrer\""));
}

#[test]
fn emoji_names() {
    assert_eq!(emojify("rocket"), Some("\u{1f680}"));
    assert_eq!(emojify("+1"), Some("\u{1f44d}"));
    assert_eq!(emojify("nope"), None);
}

#[test]
fn test_render_emoji() {
    let html = zorto::markdown::render_emoji("<p>Hello :rocket: :unknown: :fire:</p>");
    assert!(html.contains("\u{1f680}"));
    assert!(!html.contains(":rocket:"));
    assert!(html.contains(":unknown:"));
    assert!(html.contains("\u{1f525}"));
}

#[test]
fn events_drive_the_renderer() {
    let mut config = default_config();
    config.insert_anchor_links = AnchorLinks::Right;
    config.external_links_target_blank = true;
    let mut state = MarkdownState::new();
    let base = "https://example.com";
    assert!(matches!(state.on_event(&MdEvent::HeadingStart, &config, base), MdEmit::Keep));
    assert!(matches!(state.on_event(&MdEvent::Text("Intro".into()), &config, base), MdEmit::Keep));
    match state.on_event(&MdEvent::HeadingEnd, &config, base) {
        MdEmit::HtmlBefore(h) => assert!(h.contains("href=\"#intro\"")),
        _ => panic!("expected an anchor"),
    }
    assert!(matches!(state.on_event(&MdEvent::CodeStart("{sh}".into()), &config, base), MdEmit::Drop));
    assert!(matches!(state.on_event(&MdEvent::Text("ls\n".into()), &config, base), MdEmit::Drop));
    match state.on_event(&MdEvent::CodeEnd, &config, base) {
        MdEmit::Html(h) => assert_eq!(h, "<!-- EXEC_BLOCK_0 -->"),
        _ => panic!("expected a placeholder"),
    }
    let link = MdEvent::LinkStart { dest: "https://other.com".into(), title: String::new() };
    assert!(matches!(state.on_event(&link, &config, base), MdEmit::Html(_)));
    assert!(matches!(state.on_event(&MdEvent::Other, &config, base), MdEmit::Keep));
    assert_eq!(state.blocks.len(), 1);
    assert_eq!(state.blocks[0].language, "sh");
    assert_eq!(state.blocks[0].source, "ls\n");
}
