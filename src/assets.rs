//! Static assets: the media type a file is served with, and the stylesheet
//! a Sass source compiles to.
use vstd::prelude::*;

use crate::content::stem_of;
use crate::execute::opt_text;
use crate::text::{chars_of, has_prefix, has_suffix, matches_at, push_str, str_eq, string_of};

verus! {

/// The media type served for a file extension.
pub open spec fn media_type(ext: Seq<char>) -> Seq<char> {
    if ext == "html"@ {
        "text/html"@
    } else if ext == "css"@ {
        "text/css"@
    } else if ext == "js"@ {
        "application/javascript"@
    } else if ext == "json"@ {
        "application/json"@
    } else if ext == "png"@ {
        "image/png"@
    } else if ext == "jpg"@ {
        "image/jpeg"@
    } else if ext == "jpeg"@ {
        "image/jpeg"@
    } else if ext == "gif"@ {
        "image/gif"@
    } else if ext == "svg"@ {
        "image/svg+xml"@
    } else if ext == "ico"@ {
        "image/x-icon"@
    } else if ext == "woff"@ {
        "font/woff"@
    } else if ext == "woff2"@ {
        "font/woff2"@
    } else if ext == "pdf"@ {
        "application/pdf"@
    } else if ext == "xml"@ {
        "application/xml"@
    } else if ext == "txt"@ {
        "text/plain"@
    } else {
        "application/octet-stream"@
    }
}

/// The `Content-Type` of a served file, by its extension.
pub fn content_type(ext: &str) -> (r: &'static str)
    ensures
        r@ == media_type(ext@),
{
    if str_eq(ext, "html") {
        "text/html"
    } else if str_eq(ext, "css") {
        "text/css"
    } else if str_eq(ext, "js") {
        "application/javascript"
    } else if str_eq(ext, "json") {
        "application/json"
    } else if str_eq(ext, "png") {
        "image/png"
    } else if str_eq(ext, "jpg") {
        "image/jpeg"
    } else if str_eq(ext, "jpeg") {
        "image/jpeg"
    } else if str_eq(ext, "gif") {
        "image/gif"
    } else if str_eq(ext, "svg") {
        "image/svg+xml"
    } else if str_eq(ext, "ico") {
        "image/x-icon"
    } else if str_eq(ext, "woff") {
        "font/woff"
    } else if str_eq(ext, "woff2") {
        "font/woff2"
    } else if str_eq(ext, "pdf") {
        "application/pdf"
    } else if str_eq(ext, "xml") {
        "application/xml"
    } else if str_eq(ext, "txt") {
        "text/plain"
    } else {
        "application/octet-stream"
    }
}

/// The stylesheet that a Sass file in the style directory compiles to: a
/// `.scss` file whose name does not start with `_` (a partial) gives
/// `{stem}.css`; any other file gives none.
pub open spec fn css_name(name: Seq<char>) -> Option<Seq<char>> {
    if has_suffix(name, ".scss"@) && !has_prefix(name, "_"@) {
        Some(stem_of(name) + ".css"@)
    } else {
        None
    }
}

/// The stylesheet name for a Sass file name, if it is compiled.
pub fn css_output_name(name: &str) -> (r: Option<String>)
    ensures
        opt_text(r) == css_name(name@),
{
    let v = chars_of(name);
    let ext = chars_of(".scss");
    let under = chars_of("_");
    proof {
        reveal_strlit(".scss");
    }
    let is_scss = v.len() >= ext.len() && matches_at(&v, &ext, v.len() - ext.len());
    if !is_scss || matches_at(&v, &under, 0) {
        return None;
    }
    let stem = crate::content::file_stem(name);
    let mut out = chars_of(stem.as_str());
    push_str(&mut out, ".css");
    Some(string_of(&out))
}

} // verus!
