use zorto::templates::{format_date, get_taxonomy_url, get_url, pluralize, slice_bounds, starting_with};
use zorto::dates::normalize_date;
use zorto::paginate::paginate;

#[test]
fn test_normalize_date_date_only() {
    assert_eq!(normalize_date("2025-01-15"), "2025-01-15T00:00:00Z");
}

#[test]
fn test_normalize_date_with_utc_z() {
    assert_eq!(normalize_date("2025-01-15T10:30:00Z"), "2025-01-15T10:30:00Z");
}

#[test]
fn test_normalize_date_bare_datetime() {
    assert_eq!(normalize_date("2025-01-15T10:30:00"), "2025-01-15T10:30:00Z");
}

#[test]
fn test_normalize_date_positive_offset() {
    assert_eq!(normalize_date("2025-01-15T10:30:00+05:00"), "2025-01-15T10:30:00+05:00");
}

#[test]
fn test_normalize_date_negative_offset() {
    assert_eq!(normalize_date("2025-01-15T10:30:00-05:00"), "2025-01-15T10:30:00-05:00");
}

#[test]
fn test_section_context_with_paginator() {
    let pagers = paginate(5, 2, "https://example.com/posts/");
    assert_eq!(pagers.len(), 3);
    let second = &pagers[1];
    assert_eq!(second.current_index, 2);
    assert_eq!(second.number_pagers, 3);
    assert_eq!((second.start, second.end), (2, 4));
    assert_eq!(second.previous.as_deref(), Some("https://example.com/posts/"));
    assert_eq!(second.next.as_deref(), Some("https://example.com/posts/page/3/"));
    assert_eq!(second.first, "https://example.com/posts/");
    assert_eq!(second.last, "https://example.com/posts/page/3/");
    assert_eq!((pagers[2].start, pagers[2].end), (4, 5));
    assert_eq!(pagers[2].previous.as_deref(), Some("https://example.com/posts/page/2/"));
    assert!(pagers[2].next.is_none());
    assert!(pagers[0].previous.is_none());
}

#[test]
fn empty_section_has_one_pager() {
    let pagers = paginate(0, 10, "https://example.com/");
    assert_eq!(pagers.len(), 1);
    assert_eq!((pagers[0].start, pagers[0].end), (0, 0));
    assert_eq!(pagers[0].last, "https://example.com/");
    let exact = paginate(4, 2, "/p/");
    assert_eq!(exact.len(), 2);
}


#[test]
fn test_get_url_content_path() {
    assert_eq!(get_url("https://example.com", "@/posts/hello.md"), "https://example.com/posts/hello/");
    assert_eq!(get_url("https://example.com", "@/posts/_index.md"), "https://example.com/posts/");
    assert_eq!(get_url("https://example.com", "@/_index.md"), "https://example.com/");
    assert_eq!(get_url("https://example.com", "@/Top Post.md"), "https://example.com/top-post/");
}

#[test]
fn test_get_url_static_path() {
    assert_eq!(get_url("https://example.com", "/img/photo.png"), "https://example.com/img/photo.png");
    assert_eq!(get_url("https://example.com", "https://other.org/x"), "https://other.org/x");
}

#[test]
fn test_pluralize_filter() {
    assert_eq!(pluralize(1), "");
    assert_eq!(pluralize(2), "s");
    assert_eq!(pluralize(0), "s");
}

#[test]
fn test_slice_filter() {
    assert_eq!(slice_bounds(3, None, Some(2)), (0, 2));
    assert_eq!(slice_bounds(3, Some(5), Some(10)), (3, 3));
    assert_eq!(slice_bounds(3, None, None), (0, 3));
}

#[test]
fn test_date_filter() {
    assert_eq!(format_date("2025-06-15", Some("%B %d, %Y")), "June 15, 2025");
    assert_eq!(format_date("2025-06-15T08:00:00", None), "2025-06-15");
    assert_eq!(format_date("soon", None), "soon");
}

#[test]
fn test_starting_with_tester() {
    assert!(starting_with("/blog/post", "/blog"));
    assert!(!starting_with("/about", "/blog"));
}

#[test]
fn taxonomy_urls() {
    assert_eq!(get_taxonomy_url("https://example.com", "tags", "Rust Lang"), "https://example.com/tags/rust-lang/");
}
