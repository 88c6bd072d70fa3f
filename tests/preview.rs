use zorto::assets::{content_type, css_output_name};
use zorto::serve::{after_rebuild, inject_livereload, needs_rebuild, resolve_serve_path, AfterRebuild, ChangeKind, PathFacts, LIVERELOAD_JS};

fn site(rel: String) -> PathFacts {
    match rel.as_str() {
        "style.css" | "index.html" | "posts/index.html" => PathFacts { exists: true, is_dir: false, within_root: true },
        "posts" => PathFacts { exists: true, is_dir: true, within_root: true },
        "escape" => PathFacts { exists: true, is_dir: false, within_root: false },
        _ => PathFacts { exists: false, is_dir: false, within_root: true },
    }
}

#[test]
fn test_resolve_serve_path_root() {
    assert_eq!(resolve_serve_path("/", &site).unwrap(), "index.html");
}

#[test]
fn test_resolve_serve_path_normal_file() {
    assert_eq!(resolve_serve_path("/style.css", &site).unwrap(), "style.css");
}

#[test]
fn test_resolve_serve_path_directory_traversal_rejected() {
    let never = |_p: String| -> PathFacts { panic!("the disk must not be consulted") };
    assert!(resolve_serve_path("/../../../etc/passwd", &never).is_none());
    assert!(resolve_serve_path("/../../etc/passwd", &never).is_none());
    assert!(resolve_serve_path("/..", &never).is_none());
    assert!(resolve_serve_path("/foo/../../..", &never).is_none());
    assert!(resolve_serve_path("/./x", &never).is_none());
}

#[test]
fn test_resolve_serve_path_dir_index() {
    assert_eq!(resolve_serve_path("/posts", &site).unwrap(), "posts/index.html");
    assert_eq!(resolve_serve_path("/posts/", &site).unwrap(), "posts/index.html");
}

#[test]
fn test_resolve_serve_path_nonexistent_returns_none() {
    assert!(resolve_serve_path("/nope.html", &site).is_none());
}

#[test]
fn symlink_escape_rejected() {
    assert!(resolve_serve_path("/escape", &site).is_none());
}

#[test]
fn livereload_injected_before_last_body() {
    let html = "<html><body>a</body><body>b</body></html>";
    let out = inject_livereload(html);
    assert_eq!(out, format!("<html><body>a</body><body>b{LIVERELOAD_JS}</body></html>"));
    assert_eq!(inject_livereload("plain"), format!("plain{LIVERELOAD_JS}"));
}

#[test]
fn rebuild_decisions() {
    assert!(needs_rebuild(&vec![ChangeKind::AnyContinuous, ChangeKind::Any, ChangeKind::Any]));
    assert!(!needs_rebuild(&vec![ChangeKind::AnyContinuous]));
    assert!(!needs_rebuild(&vec![]));
    assert_eq!(after_rebuild(true), AfterRebuild::Reload);
    assert_eq!(after_rebuild(false), AfterRebuild::KeepServing);
}

#[test]
fn media_types_and_stylesheets() {
    assert_eq!(content_type("css"), "text/css");
    assert_eq!(content_type("woff2"), "font/woff2");
    assert_eq!(content_type("bin"), "application/octet-stream");
    assert_eq!(css_output_name("style.scss").as_deref(), Some("style.css"));
    assert_eq!(css_output_name("_vars.scss"), None);
    assert_eq!(css_output_name("notes.txt"), None);
}

#[test]
fn index_outside_root_rejected() {
    let probe = |rel: String| -> PathFacts {
        match rel.as_str() {
            "link/index.html" => PathFacts { exists: true, is_dir: false, within_root: false },
            _ => PathFacts { exists: false, is_dir: false, within_root: true },
        }
    };
    assert!(resolve_serve_path("/link", &probe).is_none());
}
