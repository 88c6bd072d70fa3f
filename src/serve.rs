//! The preview server's decisions: which file under the output directory a
//! request names (refusing any way out of it), the reload script injected into
//! served HTML, and when a batch of file changes calls for a rebuild.
use vstd::prelude::*;

use crate::text::{chars_of, push_all, push_str, slice_chars, string_of, find_last, is_last, contains_seq, split_on, split_text};

verus! {

/// The script that reloads the page when the server signals a rebuild.
pub const LIVERELOAD_JS: &'static str = "\n<script>\n(function() {\n    var ws = new WebSocket('ws://' + location.host + '/__livereload');\n    ws.onmessage = function(event) {\n        if (event.data === 'reload') {\n            location.reload();\n        }\n    };\n    ws.onclose = function() {\n        setTimeout(function() { location.reload(); }, 1000);\n    };\n})();\n</script>\n";

/// `html` with the reload script inserted before its last `</body>`, or
/// appended when it has none.
pub open spec fn with_livereload(html: Seq<char>) -> Seq<char> {
    if contains_seq(html, "</body>"@) {
        let pos = choose|p: int| is_last(html, "</body>"@, p);
        html.subrange(0, pos) + LIVERELOAD_JS@ + html.subrange(pos, html.len() as int)
    } else {
        html + LIVERELOAD_JS@
    }
}

/// Inserts the live-reload script into an HTML page.
pub fn inject_livereload(html: &str) -> (r: String)
    ensures
        r@ == with_livereload(html@),
{
    let v = chars_of(html);
    let tag = chars_of("</body>");
    match find_last(&v, &tag) {
        Some(pos) => {
            proof {
                assert forall|p: int| is_last(v@, tag@, p) implies p == pos by {
                    if p < pos {
                    } else if p > pos {
                    }
                }
            }
            let mut out = slice_chars(&v, 0, pos);
            push_str(&mut out, LIVERELOAD_JS);
            let rest = slice_chars(&v, pos, v.len());
            push_all(&mut out, &rest);
            string_of(&out)
        },
        None => {
            let mut out = v;
            push_str(&mut out, LIVERELOAD_JS);
            string_of(&out)
        },
    }
}

/// `s` without its leading slashes.
pub open spec fn without_leading_slashes(s: Seq<char>) -> Seq<char>
    decreases s.len(),
{
    if s.len() > 0 && s[0] == '/' {
        without_leading_slashes(s.drop_first())
    } else {
        s
    }
}

/// Some `/`-separated segment of `rel` is `.` or `..`.
pub open spec fn has_dot_segment(rel: Seq<char>) -> bool {
    exists|i: int| 0 <= i < split_on(rel, "/"@).len() && (split_on(rel, "/"@)[i] == "."@ || split_on(rel, "/"@)[i] == ".."@)
}

/// `rel/index.html`.
pub open spec fn index_of(rel: Seq<char>) -> Seq<char> {
    if rel.len() == 0 {
        "index.html"@
    } else if rel.last() == '/' {
        rel + "index.html"@
    } else {
        rel + "/index.html"@
    }
}

/// What the output directory holds at a relative path.
#[derive(Clone, Copy, Debug, PartialEq, Eq, Structural)]
pub struct PathFacts {
    pub exists: bool,
    pub is_dir: bool,
    /// Once canonicalized, the path lies within the canonical output directory.
    pub within_root: bool,
}

/// The file to serve for a request, relative to the output directory, given
/// what the directory holds at the request's path (`at`) and at its
/// `index.html` (`at_index`).
pub open spec fn served_path(request: Seq<char>, at: PathFacts, at_index: PathFacts) -> Option<Seq<char>> {
    let rel = without_leading_slashes(request);
    if request == "/"@ {
        Some("index.html"@)
    } else if has_dot_segment(rel) {
        None
    } else if at.exists && !at.within_root {
        None
    } else if at.is_dir {
        Some(index_of(rel))
    } else if at.exists {
        Some(rel)
    } else if at_index.exists && at_index.within_root {
        Some(index_of(rel))
    } else {
        None
    }
}

fn strip_slashes(v: &Vec<char>) -> (r: Vec<char>)
    ensures
        r@ == without_leading_slashes(v@),
{
    let mut i: usize = 0;
    assert(v@.subrange(0, v.len() as int) =~= v@);
    while i < v.len() && v[i] == '/'
        invariant
            i <= v.len(),
            without_leading_slashes(v@) == without_leading_slashes(v@.subrange(i as int, v.len() as int)),
        decreases v.len() - i,
    {
        assert(v@.subrange(i as int, v.len() as int).drop_first() =~= v@.subrange(i + 1, v.len() as int));
        i = i + 1;
    }
    slice_chars(v, i, v.len())
}

fn dot_segment(rel: &Vec<char>) -> (r: bool)
    ensures
        r == has_dot_segment(rel@),
{
    let slash = chars_of("/");
    let dot = chars_of(".");
    let dots = chars_of("..");
    proof { reveal_strlit("/"); }
    let parts = split_text(rel, &slash);
    let ghost all = parts@.map_values(|x: Vec<char>| x@);
    let mut i: usize = 0;
    while i < parts.len()
        invariant
            i <= parts.len(),
            all == parts@.map_values(|x: Vec<char>| x@),
            all == split_on(rel@, "/"@),
            dot@ == "."@,
            dots@ == ".."@,
            forall|k: int| 0 <= k < i ==> all[k] != "."@ && all[k] != ".."@,
        decreases parts.len() - i,
    {
        if crate::text::same_chars(&parts[i], &dot) || crate::text::same_chars(&parts[i], &dots) {
            assert(all[i as int] == parts@[i as int]@);
            return true;
        }
        i = i + 1;
    }
    false
}

fn index_path(rel: &Vec<char>) -> (r: Vec<char>)
    ensures
        r@ == index_of(rel@),
{
    if rel.len() == 0 {
        chars_of("index.html")
    } else if rel[rel.len() - 1] == '/' {
        let mut out = slice_chars(rel, 0, rel.len());
        assert(rel@.subrange(0, rel.len() as int) =~= rel@);
        push_str(&mut out, "index.html");
        out
    } else {
        let mut out = slice_chars(rel, 0, rel.len());
        assert(rel@.subrange(0, rel.len() as int) =~= rel@);
        push_str(&mut out, "/index.html");
        out
    }
}

pub open spec fn same_opt(r: Option<String>, v: Option<Seq<char>>) -> bool {
    match r {
        Some(s) => v == Some(s@),
        None => v is None,
    }
}

/// Resolves a request path to the file to serve, relative to the output
/// directory; `None` means "not found". A request with a `.` or `..` segment is
/// refused without looking at the disk, and so is one whose existing target
/// resolves outside the output directory (the request's own path or its
/// `index.html`). `probe` reports what the output
/// directory holds at a relative path; it is asked about the request's path,
/// and then, if nothing is there, about that path's `index.html`.
pub fn resolve_serve_path<F>(request_path: &str, probe: &F) -> (r: Option<String>)
    where
        F: Fn(String) -> PathFacts,
    requires
        forall|p: String| probe.requires((p,)),
    ensures
        request_path@ == "/"@ ==> same_opt(r, Some("index.html"@)),
        request_path@ != "/"@ && has_dot_segment(without_leading_slashes(request_path@)) ==> r is None,
        request_path@ != "/"@ && !has_dot_segment(without_leading_slashes(request_path@)) ==> exists|at: PathFacts, p: String|
            p@ == without_leading_slashes(request_path@) && probe.ensures((p,), at) && {
                if at.exists || at.is_dir {
                    same_opt(r, served_path(request_path@, at, at))
                } else {
                    exists|at_index: PathFacts, q: String|
                        q@ == index_of(p@) && probe.ensures((q,), at_index) && same_opt(r, served_path(request_path@, at, at_index))
                }
            },
{
    let req = chars_of(request_path);
    let root = chars_of("/");
    let rel = strip_slashes(&req);
    let idx = index_path(&rel);
    if crate::text::same_chars(&req, &root) {
        return Some(String::from_str("index.html"));
    }
    if dot_segment(&rel) {
        return None;
    }
    let arg = string_of(&rel);
    let ghost p = arg;
    let at = probe(arg);
    if at.exists && !at.within_root {
        return None;
    }
    if at.is_dir {
        return Some(string_of(&idx));
    }
    if at.exists {
        return Some(string_of(&rel));
    }
    let arg2 = string_of(&idx);
    let ghost q = arg2;
    let at_index = probe(arg2);
    if at_index.exists && at_index.within_root {
        Some(string_of(&idx))
    } else {
        None
    }
}

/// The kind of a debounced file-system event.
#[derive(Clone, Copy, Debug, PartialEq, Eq, Structural)]
pub enum ChangeKind {
    /// Something changed.
    Any,
    /// Changes continue beyond the debounce window.
    AnyContinuous,
}

/// Whether a batch of debounced events holds a change that calls for a rebuild.
pub fn needs_rebuild(batch: &Vec<ChangeKind>) -> (r: bool)
    ensures
        r == exists|i: int| 0 <= i < batch@.len() && batch@[i] == ChangeKind::Any,
{
    let mut i: usize = 0;
    while i < batch.len()
        invariant
            i <= batch.len(),
            forall|k: int| 0 <= k < i ==> batch@[k] != ChangeKind::Any,
        decreases batch.len() - i,
    {
        if batch[i] == ChangeKind::Any {
            return true;
        }
        i = i + 1;
    }
    false
}

/// What the preview server does once a rebuild has finished.
#[derive(Clone, Copy, Debug, PartialEq, Eq, Structural)]
pub enum AfterRebuild {
    /// Tell every connected browser to reload.
    Reload,
    /// Report the error and go on serving what was built before; no reload.
    KeepServing,
}

/// The step after a rebuild: reload the browsers on success only.
pub fn after_rebuild(succeeded: bool) -> (r: AfterRebuild)
    ensures
        succeeded <==> r == AfterRebuild::Reload,
        !succeeded <==> r == AfterRebuild::KeepServing,
{
    if succeeded {
        AfterRebuild::Reload
    } else {
        AfterRebuild::KeepServing
    }
}

} // verus!
