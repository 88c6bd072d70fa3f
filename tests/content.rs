use zorto::config::SortBy;
use zorto::content::{
    assign_pages_to_sections, build_page, build_section, parent_dir, section_key_for,
    sort_pages_by_date, split_frontmatter, ExtraField, FieldValue, Frontmatter, FrontmatterError,
    Page,
};

fn page(rel: &str) -> Page {
    build_page(Frontmatter::default(), "body".to_string(), rel, "https://example.com")
}

fn dated(rel: &str, date: Option<&str>) -> Page {
    let mut fm = Frontmatter::default();
    fm.date = date.map(|d| d.to_string());
    build_page(fm, "body".to_string(), rel, "https://example.com")
}

#[test]
fn test_parse_frontmatter_basic() {
    let input = "+++\ntitle = \"Hello\"\n+++\nBody text here";
    let (header, body) = split_frontmatter(input).unwrap();
    let table: toml::Table = toml::from_str(&header.unwrap()).unwrap();
    assert_eq!(table.get("title").and_then(|v| v.as_str()), Some("Hello"));
    assert_eq!(body, "Body text here");
}

#[test]
fn test_parse_frontmatter_no_frontmatter() {
    let input = "Just plain markdown content";
    let (header, body) = split_frontmatter(input).unwrap();
    assert!(header.is_none());
    let fm = Frontmatter::default();
    assert!(fm.title.is_none());
    assert!(!fm.draft);
    assert_eq!(body, "Just plain markdown content");
}

#[test]
fn split_frontmatter_unclosed_is_error() {
    assert!(matches!(split_frontmatter("+++\ntitle = \"x\"\nbody"), Err(FrontmatterError::Unclosed)));
}

#[test]
fn split_frontmatter_strips_bom_and_one_newline() {
    let (header, body) = split_frontmatter("\u{feff}+++\na = 1\n+++\n\nrest").unwrap();
    assert_eq!(header.as_deref(), Some("\na = 1"));
    assert_eq!(body, "\nrest");
}

#[test]
fn split_frontmatter_round_trip() {
    let header = "\ntitle = \"T\"\ndraft = true";
    let body = "Line one\nLine two";
    let text = format!("+++{header}\n+++\n{body}");
    let (h, b) = split_frontmatter(&text).unwrap();
    assert_eq!(h.as_deref(), Some(header));
    assert_eq!(b, body);
}

#[test]
fn test_build_page_slug_from_filename() {
    let p = build_page(Frontmatter::default(), "body".into(), "hello-world.md", "https://example.com");
    assert_eq!(p.slug, "hello-world");
}

#[test]
fn test_build_page_slug_from_frontmatter() {
    let fm = Frontmatter { slug: Some("custom".into()), ..Default::default() };
    let p = build_page(fm, "body".into(), "hello-world.md", "https://example.com");
    assert_eq!(p.slug, "custom");
}

#[test]
fn test_build_page_path_nested() {
    assert_eq!(page("posts/hello.md").path, "/posts/hello/");
}

#[test]
fn test_build_page_path_root() {
    assert_eq!(page("hello.md").path, "/hello/");
}

#[test]
fn test_build_page_permalink() {
    assert_eq!(page("posts/hello.md").permalink, "https://example.com/posts/hello/");
}

#[test]
fn test_build_page_colocated_index() {
    let p = page("posts/my-post/index.md");
    assert_eq!(p.slug, "my-post");
    assert_eq!(p.path, "/posts/my-post/");
    assert_eq!(p.permalink, "https://example.com/posts/my-post/");
}

#[test]
fn test_build_page_colocated_with_custom_slug() {
    let fm = Frontmatter { slug: Some("custom".into()), ..Default::default() };
    let p = build_page(fm, "body".into(), "posts/my-post/index.md", "https://example.com");
    assert_eq!(p.slug, "custom");
    assert_eq!(p.path, "/posts/custom/");
}

#[test]
fn test_build_page_word_count() {
    let body = "one two three four five six seven eight nine ten";
    let p = build_page(Frontmatter::default(), body.into(), "test.md", "https://example.com");
    assert_eq!(p.word_count, 10);
    assert_eq!(p.reading_time, 1);
}

#[test]
fn reading_time_counts_hundreds_of_words() {
    let body = vec!["w"; 450].join(" \n\t");
    let p = build_page(Frontmatter::default(), body, "test.md", "https://example.com");
    assert_eq!(p.word_count, 450);
    assert_eq!(p.reading_time, 2);
}

#[test]
fn slug_is_slugified_from_stem() {
    let p = page("Posts/My Great Post.md");
    assert_eq!(p.slug, "my-great-post");
    assert_eq!(p.path, "/Posts/my-great-post/");
}

#[test]
fn test_build_page_tags() {
    let fm = Frontmatter {
        rest: vec![ExtraField {
            key: "tags".into(),
            value: FieldValue::Array(vec![Some("rust".into()), Some("test".into())]),
        }],
        ..Default::default()
    };
    let p = build_page(fm, "body".into(), "test.md", "https://example.com");
    assert_eq!(p.taxonomies.len(), 1);
    assert_eq!(p.taxonomies[0].name, "tags");
    assert_eq!(p.taxonomies[0].terms, vec!["rust".to_string(), "test".to_string()]);
}

#[test]
fn test_build_page_custom_taxonomy() {
    let fm = Frontmatter {
        rest: vec![
            ExtraField { key: "categories".into(), value: FieldValue::Array(vec![Some("tutorial".into())]) },
            ExtraField { key: "numbers".into(), value: FieldValue::Array(vec![None, None]) },
            ExtraField { key: "other".into(), value: FieldValue::Other },
        ],
        ..Default::default()
    };
    let p = build_page(fm, "body".into(), "test.md", "https://example.com");
    assert_eq!(p.taxonomies.len(), 1);
    assert_eq!(p.taxonomies[0].name, "categories");
    assert_eq!(p.taxonomies[0].terms, vec!["tutorial".to_string()]);
}

#[test]
fn declared_fields_are_kept() {
    let fm = Frontmatter {
        title: Some("Full Post".into()),
        date: Some("2025-01-15".into()),
        author: Some("Cody".into()),
        description: Some("A test post".into()),
        draft: true,
        aliases: vec!["/old-url/".into()],
        ..Default::default()
    };
    let p = build_page(fm, "Content goes here".into(), "posts/full.md", "https://example.com");
    assert_eq!(p.title, "Full Post");
    assert_eq!(p.date.as_deref(), Some("2025-01-15"));
    assert_eq!(p.author.as_deref(), Some("Cody"));
    assert_eq!(p.description.as_deref(), Some("A test post"));
    assert!(p.draft);
    assert_eq!(p.aliases, vec!["/old-url/".to_string()]);
    assert_eq!(p.raw_content, "Content goes here");
    assert_eq!(p.relative_path, "posts/full.md");
}

#[test]
fn test_build_section_root() {
    let fm = Frontmatter { title: Some("Home".into()), ..Default::default() };
    let s = build_section(fm, "body".into(), "_index.md", "https://example.com");
    assert_eq!(s.path, "/");
    assert_eq!(s.permalink, "https://example.com/");
    assert_eq!(s.title, "Home");
}

#[test]
fn test_build_section_nested() {
    let fm = Frontmatter { title: Some("Blog".into()), ..Default::default() };
    let s = build_section(fm, "body".into(), "posts/_index.md", "https://example.com");
    assert_eq!(s.path, "/posts/");
    assert_eq!(s.permalink, "https://example.com/posts/");
}

#[test]
fn section_keys() {
    assert_eq!(section_key_for("posts/hello.md"), "posts/_index.md");
    assert_eq!(section_key_for("hello.md"), "_index.md");
    assert_eq!(section_key_for("posts/vibe-coding/index.md"), "posts/_index.md");
    assert_eq!(section_key_for("a/index.md"), "_index.md");
    let k = section_key_for("docs/guide/intro.md");
    assert_eq!(section_key_for(&k), k);
    assert_eq!(parent_dir("posts/hello.md"), "posts");
    assert_eq!(parent_dir("hello.md"), "");
}

#[test]
fn sort_by_date_newest_first_undated_last() {
    let mut pages = vec![
        dated("a.md", None),
        dated("b.md", Some("2025-01-01")),
        dated("c.md", Some("2025-02-01")),
    ];
    sort_pages_by_date(&mut pages);
    let order: Vec<&str> = pages.iter().map(|p| p.relative_path.as_str()).collect();
    assert_eq!(order, vec!["c.md", "b.md", "a.md"]);
}

#[test]
fn assign_pages_sorts_each_section() {
    let mut sections = vec![
        build_section(Frontmatter::default(), String::new(), "posts/_index.md", "https://example.com"),
        build_section(
            Frontmatter { sort_by: Some(SortBy::Title), ..Default::default() },
            String::new(),
            "docs/_index.md",
            "https://example.com",
        ),
    ];
    let mut b = dated("docs/b.md", None);
    b.title = "Beta".into();
    let mut a = dated("docs/a.md", None);
    a.title = "Alpha".into();
    let pages = vec![
        dated("posts/undated.md", None),
        dated("posts/jan.md", Some("2025-01-01")),
        b,
        dated("posts/feb/index.md", Some("2025-02-01")),
        a,
        dated("elsewhere/x.md", Some("2024-01-01")),
    ];
    assign_pages_to_sections(&mut sections, &pages);
    let posts: Vec<&str> = sections[0].pages.iter().map(|p| p.relative_path.as_str()).collect();
    assert_eq!(posts, vec!["posts/feb/index.md", "posts/jan.md", "posts/undated.md"]);
    let docs: Vec<&str> = sections[1].pages.iter().map(|p| p.title.as_str()).collect();
    assert_eq!(docs, vec!["Alpha", "Beta"]);
}

#[test]
fn permalinks_follow_a_new_base_url() {
    let p = page("posts/hello.md");
    assert_eq!(
        zorto::content::rebase_permalink(&p.permalink, "https://example.com", "http://localhost:1111"),
        "http://localhost:1111/posts/hello/"
    );
    assert_eq!(zorto::content::rebase_permalink("/x/", "https://a", "https://b"), "/x/");
}

fn tagged_page(rel: &str, date: &str, tags: &[&str]) -> Page {
    let fm = Frontmatter {
        date: Some(date.to_string()),
        rest: vec![ExtraField {
            key: "tags".into(),
            value: FieldValue::Array(tags.iter().map(|t| Some(t.to_string())).collect()),
        }],
        ..Default::default()
    };
    build_page(fm, "body".into(), rel, "https://example.com")
}

#[test]
fn taxonomy_terms_group_pages() {
    let pages = vec![
        tagged_page("rust.md", "2025-01-01", &["rust"]),
        tagged_page("both.md", "2025-03-01", &["python", "rust"]),
        tagged_page("none.md", "2025-02-01", &[]),
    ];
    let terms = zorto::taxonomy::collect_taxonomy_terms(&pages, "tags", "https://example.com");
    let names: Vec<&str> = terms.iter().map(|t| t.name.as_str()).collect();
    assert_eq!(names, vec!["python", "rust"]);
    let rust: Vec<&str> = terms[1].pages.iter().map(|p| p.relative_path.as_str()).collect();
    assert_eq!(rust, vec!["both.md", "rust.md"]);
    assert_eq!(terms[1].permalink, "https://example.com/tags/rust/");
    assert_eq!(terms[0].pages.len(), 1);
    assert!(zorto::taxonomy::collect_taxonomy_terms(&pages, "categories", "https://example.com").is_empty());
}

#[test]
fn output_directory_is_relative_to_root() {
    assert_eq!(zorto::content::resolve_output("/site", "public"), "/site/public");
    assert_eq!(zorto::content::resolve_output("/site/", "public"), "/site/public");
    assert_eq!(zorto::content::resolve_output("/site", "/tmp/out"), "/tmp/out");
}
