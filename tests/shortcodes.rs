use zorto::shortcodes::{
    builtin_tabs, finish_include, is_within, parse_args, process_shortcodes, render_shortcode,
    strip_toml_frontmatter, ShortcodeError, ShortcodeRequest, TabsError,
};

fn no_files(_req: ShortcodeRequest) -> Result<String, ShortcodeError> {
    Err(ShortcodeError::TemplateNotFound { name: "none".into() })
}

fn templates(req: ShortcodeRequest) -> Result<String, ShortcodeError> {
    match req {
        ShortcodeRequest::Template { name, args, body } => {
            let text = match name.as_str() {
                "greeting" => "<b>Hello {{ name }}</b>",
                "note" => r#"<div class="{{ kind }}">{{ body }}</div>"#,
                "broken" => "{{ unclosed",
                _ => return Err(ShortcodeError::TemplateNotFound { name }),
            };
            render_shortcode(&name, text, &args, body.as_deref())
        }
        ShortcodeRequest::Include { path, strip_frontmatter } => {
            Ok(format!("[{path}:{strip_frontmatter}]"))
        }
    }
}

#[test]
fn test_parse_args_double_quotes() {
    let args = parse_args(r#"key="value", other="test""#).unwrap();
    assert_eq!(args.get("key").unwrap(), "value");
    assert_eq!(args.get("other").unwrap(), "test");
}

#[test]
fn test_parse_args_single_quotes() {
    let args = parse_args("key='value'").unwrap();
    assert_eq!(args.get("key").unwrap(), "value");
}

#[test]
fn double_quotes_win_over_single() {
    let args = parse_args(r#"k='single', k="double", j='one', j='two'"#).unwrap();
    assert_eq!(args.get("k").unwrap(), "double");
    assert_eq!(args.get("j").unwrap(), "one");
    assert!(args.get("missing").is_none());
}

#[test]
fn test_no_shortcodes() {
    let input = "Plain markdown with no shortcodes";
    let result = process_shortcodes(input, &no_files).unwrap();
    assert_eq!(result, input);
}

#[test]
fn test_inline_shortcode() {
    let result = process_shortcodes(r#"Before {{ greeting(name="World") }} after"#, &templates).unwrap();
    assert!(result.contains("<b>Hello World</b>"));
    assert!(result.starts_with("Before "));
    assert!(result.ends_with(" after"));
}

#[test]
fn test_body_shortcode() {
    let result = process_shortcodes(r#"{% note(kind="warning") %}Be careful!{% end %}"#, &templates).unwrap();
    assert!(result.contains(r#"<div class="warning">Be careful!</div>"#));
}

#[test]
fn block_body_is_trimmed() {
    let result = process_shortcodes(r#"{% note(kind="k") %}
  Be careful!  {% end %}"#, &templates).unwrap();
    assert_eq!(result, r#"<div class="k">Be careful!</div>"#);
}

#[test]
fn test_missing_shortcode_template_errors() {
    let result = process_shortcodes(r#"{{ missing(key="value") }}"#, &templates);
    let failure = result.unwrap_err();
    assert_eq!(failure.name, "missing");
}

#[test]
fn test_include_missing_arg_errors() {
    let result = process_shortcodes(r#"{{ include() }}"#, &templates);
    assert!(matches!(result.unwrap_err().error, ShortcodeError::MissingPath));
}

#[test]
fn include_request_carries_arguments() {
    let result = process_shortcodes(r#"{{ include(path="a.md", strip_frontmatter="true") }}"#, &templates).unwrap();
    assert_eq!(result, "[a.md:true]");
}

#[test]
fn test_tabs_shortcode() {
    let input = r#"{% tabs(labels="Python|Bash") %}print("hello")<!-- tab -->echo hello{% end %}"#;
    let result = process_shortcodes(input, &no_files).unwrap();
    assert!(result.contains("data-tabs"));
    assert!(result.contains(r#"data-tab-idx="0""#));
    assert!(result.contains(r#"data-tab-idx="1""#));
    assert!(result.contains(">Python</button>"));
    assert!(result.contains(">Bash</button>"));
    assert!(result.contains("tabs__btn--active"));
    assert!(result.contains("tabs__panel--active"));
    assert!(result.contains("print(\"hello\")"));
    assert!(result.contains("echo hello"));
}

#[test]
fn test_tabs_missing_labels_errors() {
    let input = r#"{% tabs() %}content{% end %}"#;
    let result = process_shortcodes(input, &no_files);
    assert!(matches!(result.unwrap_err().error, ShortcodeError::Tabs(TabsError::MissingLabels)));
}

#[test]
fn test_tabs_mismatched_count_errors() {
    let input = r#"{% tabs(labels="A|B|C") %}only one{% end %}"#;
    let result = process_shortcodes(input, &no_files);
    assert!(matches!(
        result.unwrap_err().error,
        ShortcodeError::Tabs(TabsError::PanelCount { labels: 3, panels: 1 })
    ));
}

#[test]
fn tabs_two_labels() {
    let bad = builtin_tabs(r#"labels="A|B|C""#, Some("one<!-- tab -->two"));
    assert!(matches!(bad, Err(ShortcodeError::Tabs(TabsError::PanelCount { labels: 3, panels: 2 }))));
    let good = builtin_tabs(r#"labels="A|B""#, Some("one<!-- tab -->two")).unwrap();
    assert!(good.contains(r#"data-tab-idx="0""#));
    assert!(good.contains(r#"data-tab-idx="1""#));
    assert!(good.starts_with("<div class=\"tabs\" data-tabs>\n<div class=\"tabs__nav\">\n<button class=\"tabs__btn tabs__btn--active\" data-tab-idx=\"0\">A</button><button class=\"tabs__btn\" data-tab-idx=\"1\">B</button>\n</div>\n"));
    assert!(matches!(builtin_tabs(r#"labels="A""#, None), Err(ShortcodeError::Tabs(TabsError::MissingBody))));
}

#[test]
fn nested_block_shortcodes_expand() {
    let input = r#"{% note(kind="outer") %}x{% end %} and {% tabs(labels="A") %}{{ greeting(name="N") }}{% end %}"#;
    let result = process_shortcodes(input, &templates).unwrap();
    assert!(result.starts_with(r#"<div class="outer">x</div> and "#));
    assert!(result.contains("<b>Hello N</b>"));
}

#[test]
fn include_sandbox_boundary() {
    let ok = finish_include("readme.md", "/site/readme.md", "/site", "# Hello\n\nWorld".into(), false);
    assert_eq!(ok.unwrap(), "# Hello\n\nWorld");
    let outside = finish_include("../outside-sandbox.md", "/outside-sandbox.md", "/site", "x".into(), false);
    assert!(matches!(outside, Err(ShortcodeError::OutsideSandbox { .. })));
    let widened = finish_include("../outside-sandbox.md", "/outside-sandbox.md", "/", "x".into(), false);
    assert_eq!(widened.unwrap(), "x");
    let sibling = finish_include("../site2/a.md", "/site2/a.md", "/site", "x".into(), false);
    assert!(sibling.is_err());
    let stripped = finish_include("a.md", "/site/a.md", "/site", "+++\ntitle = 1\n+++\nbody".into(), true);
    assert_eq!(stripped.unwrap(), "\nbody");
}

#[test]
fn within_checks_components() {
    assert!(is_within("/a/b", "/a"));
    assert!(is_within("/a", "/a"));
    assert!(!is_within("/ab", "/a"));
    assert!(is_within("/x", "/"));
}

#[test]
fn strip_frontmatter_from_included_file() {
    assert_eq!(strip_toml_frontmatter("  +++\na = 1\n+++\nrest"), "\nrest");
    assert_eq!(strip_toml_frontmatter("no header"), "no header");
    assert_eq!(strip_toml_frontmatter("+++ unclosed"), "+++ unclosed");
}

#[test]
fn broken_template_reports_its_shortcode() {
    let failure = process_shortcodes(r#"{{ broken() }}"#, &templates).unwrap_err();
    assert_eq!(failure.name, "broken");
    assert!(matches!(failure.error, ShortcodeError::Template { .. }));
}

#[test]
fn template_renders_arguments() {
    let args = parse_args(r#"name="Ada""#).unwrap();
    assert_eq!(render_shortcode("greeting", "<b>{{ name }}</b>", &args, None).unwrap(), "<b>Ada</b>");
}
