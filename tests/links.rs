use zorto::content::{build_page, build_section, Frontmatter, Page, Section};
use zorto::links::{resolve_internal_links, LinkError};

fn make_page(relative_path: &str, base_url: &str) -> Page {
    build_page(Frontmatter::default(), "body".into(), relative_path, base_url)
}

fn make_section(relative_path: &str, base_url: &str) -> Section {
    build_section(Frontmatter::default(), "body".into(), relative_path, base_url)
}

#[test]
fn test_resolve_page_link() {
    let pages = vec![make_page("posts/hello.md", "https://example.com")];
    let sections = vec![];
    let input = "Check out [this post](@/posts/hello.md)";
    let result = resolve_internal_links(input, &pages, &sections).unwrap();
    assert!(result.contains("https://example.com/posts/hello/"));
    assert!(!result.contains("@/"));
}

#[test]
fn test_resolve_section_link() {
    let pages = vec![];
    let sections = vec![make_section("posts/_index.md", "https://example.com")];
    let input = "See [blog](@/posts/_index.md)";
    let result = resolve_internal_links(input, &pages, &sections).unwrap();
    assert!(result.contains("https://example.com/posts/"));
    assert!(!result.contains("@/"));
}

#[test]
fn test_resolve_with_anchor() {
    let pages = vec![make_page("posts/hello.md", "https://example.com")];
    let sections = vec![];
    let input = "[heading](@/posts/hello.md#section)";
    let result = resolve_internal_links(input, &pages, &sections).unwrap();
    assert!(result.contains("https://example.com/posts/hello/#section"));
    assert_eq!(result, "[heading](https://example.com/posts/hello/#section)");
}

#[test]
fn test_no_internal_links() {
    let input = "No [links](https://example.com) here";
    let result = resolve_internal_links(input, &vec![], &vec![]).unwrap();
    assert_eq!(result, input);
}

#[test]
fn test_unresolved_link_errors() {
    let input = "See [missing](@/posts/missing.md)";
    let result = resolve_internal_links(input, &vec![], &vec![]);
    match result {
        Err(LinkError::Unresolved(paths)) => assert_eq!(paths, vec!["posts/missing.md".to_string()]),
        _ => panic!("expected an unresolved link"),
    }
}

#[test]
fn all_unresolved_links_are_reported() {
    let pages = vec![make_page("a.md", "https://example.com")];
    let input = "[x](@/b.md) [y](@/a.md) [z](@/c/d.md#top)";
    match resolve_internal_links(input, &pages, &vec![]) {
        Err(LinkError::Unresolved(paths)) => {
            assert_eq!(paths, vec!["b.md".to_string(), "c/d.md".to_string()])
        }
        _ => panic!("expected unresolved links"),
    }
}

#[test]
fn pages_win_over_sections() {
    let pages = vec![make_page("x/_index.md", "https://p.example")];
    let sections = vec![make_section("x/_index.md", "https://s.example")];
    let r = resolve_internal_links("(@/x/_index.md)", &pages, &sections).unwrap();
    assert!(r.starts_with("(https://p.example"));
}
