//! The functions, filters and tests that templates can call: URLs of content
//! and taxonomy terms, plural suffixes, slices, dates and prefixes.
use std::fmt::Write;
use vstd::prelude::*;

use crate::content::{file_name_of, parent_of, slugified, slugify, stem_of};
use crate::execute::opt_text;
use crate::serve::without_leading_slashes;
use crate::text::{chars_of, has_prefix, has_suffix, matches_at, push_all, push_str, slice_chars, string_of};

verus! {

/// The URL that `get_url` gives for `path`: an `@/` content path becomes the
/// permalink its page or section gets; an absolute `http(s)://` URL stays as
/// it is; anything else is a file under the base URL.
pub open spec fn url_for(base_url: Seq<char>, path: Seq<char>) -> Seq<char> {
    if has_prefix(path, "@/"@) {
        let cp = path.subrange(2, path.len() as int);
        if has_suffix(cp, "_index.md"@) {
            let dir = parent_of(cp);
            if dir.len() == 0 { base_url + "/"@ } else { base_url + "/"@ + dir + "/"@ }
        } else {
            let parent = parent_of(cp);
            let slug = slugified(stem_of(file_name_of(cp)));
            if parent.len() == 0 {
                base_url + "/"@ + slug + "/"@
            } else {
                base_url + "/"@ + parent + "/"@ + slug + "/"@
            }
        }
    } else if has_prefix(path, "http://"@) || has_prefix(path, "https://"@) {
        path
    } else {
        base_url + "/"@ + without_leading_slashes(path)
    }
}

fn strip_leading_slashes(v: &Vec<char>) -> (r: Vec<char>)
    ensures
        r@ == without_leading_slashes(v@),
{
    let mut i: usize = 0;
    assert(v@.subrange(0, v.len() as int) =~= v@);
    while i < v.len() && v[i] == '/'
        invariant
            i <= v.len(),
            without_leading_slashes(v@) == without_leading_slashes(v@.subrange(i as int, v.len() as int)),
        decreases v.len() - i,
    {
        assert(v@.subrange(i as int, v.len() as int).drop_first() =~= v@.subrange(i + 1, v.len() as int));
        i = i + 1;
    }
    slice_chars(v, i, v.len())
}

/// The `get_url` template function.
pub fn get_url(base_url: &str, path: &str) -> (r: String)
    ensures
        r@ == url_for(base_url@, path@),
{
    let p = chars_of(path);
    let at = chars_of("@/");
    let mut out = chars_of(base_url);
    proof { reveal_strlit("@/"); reveal_strlit("_index.md"); }
    if matches_at(&p, &at, 0) {
        let cp = slice_chars(&p, 2, p.len());
        let idx = chars_of("_index.md");
        let is_section = cp.len() >= idx.len() && matches_at(&cp, &idx, cp.len() - idx.len());
        let cps = string_of(&cp);
        let parent = crate::content::parent_dir(cps.as_str());
        if is_section {
            push_str(&mut out, "/");
            if parent.unicode_len() > 0 {
                push_str(&mut out, parent.as_str());
                push_str(&mut out, "/");
            }
        } else {
            let name = crate::content::file_name(cps.as_str());
            let stem = crate::content::file_stem(name.as_str());
            let slug = slugify(stem.as_str());
            push_str(&mut out, "/");
            if parent.unicode_len() > 0 {
                push_str(&mut out, parent.as_str());
                push_str(&mut out, "/");
            }
            push_str(&mut out, slug.as_str());
            push_str(&mut out, "/");
        }
        assert(out@ =~= url_for(base_url@, path@));
        return string_of(&out);
    }
    let h1 = chars_of("http://");
    let h2 = chars_of("https://");
    if matches_at(&p, &h1, 0) || matches_at(&p, &h2, 0) {
        return String::from_str(path);
    }
    push_str(&mut out, "/");
    let rest = strip_leading_slashes(&p);
    push_all(&mut out, &rest);
    string_of(&out)
}

/// The URL of a taxonomy term's page.
pub open spec fn taxonomy_url(base_url: Seq<char>, kind: Seq<char>, name: Seq<char>) -> Seq<char> {
    base_url + "/"@ + kind + "/"@ + slugified(name) + "/"@
}

/// The `get_taxonomy_url` template function.
pub fn get_taxonomy_url(base_url: &str, kind: &str, name: &str) -> (r: String)
    ensures
        r@ == taxonomy_url(base_url@, kind@, name@),
{
    let slug = slugify(name);
    let mut out = chars_of(base_url);
    push_str(&mut out, "/");
    push_str(&mut out, kind);
    push_str(&mut out, "/");
    push_str(&mut out, slug.as_str());
    push_str(&mut out, "/");
    string_of(&out)
}

/// The `pluralize` filter: no suffix for one, `s` otherwise.
pub fn pluralize(n: u64) -> (r: &'static str)
    ensures
        n == 1 ==> r@ == ""@,
        n != 1 ==> r@ == "s"@,
{
    if n == 1 {
        ""
    } else {
        "s"
    }
}

/// The bounds the `slice` filter takes of an array of `len` items: `end`
/// (default: all) capped at `len`, and `start` (default: 0) capped at that end.
pub fn slice_bounds(len: usize, start: Option<usize>, end: Option<usize>) -> (r: (usize, usize))
    ensures
        r.1 == match end {
            Some(e) => if e < len { e } else { len },
            None => len,
        },
        r.0 == match start {
            Some(s) => if s < r.1 { s } else { r.1 },
            None => 0,
        },
        r.0 <= r.1 <= len,
{
    let e = match end {
        Some(e) => if e < len { e } else { len },
        None => len,
    };
    let s = match start {
        Some(s) => if s < e { s } else { e },
        None => 0,
    };
    (s, e)
}

/// The `starting_with` test.
pub fn starting_with(value: &str, prefix: &str) -> (r: bool)
    ensures
        r == has_prefix(value@, prefix@),
{
    let v = chars_of(value);
    let p = chars_of(prefix);
    matches_at(&v, &p, 0)
}

/// `s`, read as a date-time in `in_fmt`, written out in `out_fmt`; `None`
/// when it does not parse or `out_fmt` cannot be written.
pub uninterp spec fn datetime_reformatted(s: Seq<char>, in_fmt: Seq<char>, out_fmt: Seq<char>) -> Option<Seq<char>>;

/// `s`, read as a date in `in_fmt`, written out in `out_fmt`; `None` when it
/// does not parse or `out_fmt` cannot be written.
pub uninterp spec fn date_reformatted(s: Seq<char>, in_fmt: Seq<char>, out_fmt: Seq<char>) -> Option<Seq<char>>;

/// Relies on `chrono::NaiveDateTime::parse_from_str` and its `format`.
#[verifier::external_body]
fn reformat_datetime(s: &str, in_fmt: &str, out_fmt: &str) -> (r: Option<String>)
    ensures
        opt_text(r) == datetime_reformatted(s@, in_fmt@, out_fmt@),
{
    let dt = chrono::NaiveDateTime::parse_from_str(s, in_fmt).ok()?;
    let mut out = String::new();
    write!(out, "{}", dt.format(out_fmt)).ok()?;
    Some(out)
}

/// Relies on `chrono::NaiveDate::parse_from_str` and its `format`.
#[verifier::external_body]
fn reformat_date(s: &str, in_fmt: &str, out_fmt: &str) -> (r: Option<String>)
    ensures
        opt_text(r) == date_reformatted(s@, in_fmt@, out_fmt@),
{
    let d = chrono::NaiveDate::parse_from_str(s, in_fmt).ok()?;
    let mut out = String::new();
    write!(out, "{}", d.format(out_fmt)).ok()?;
    Some(out)
}

/// The output format of the `date` filter when none is given.
pub const DEFAULT_DATE_FORMAT: &'static str = "%Y-%m-%d";

/// What the `date` filter makes of a front-matter date: the date-time or
/// date it holds, written in `format`; the value as it is if it is neither.
pub open spec fn date_filtered(value: Seq<char>, format: Seq<char>) -> Seq<char> {
    match datetime_reformatted(value, crate::dates::DATETIME_FORMAT@, format) {
        Some(t) => t,
        None => match date_reformatted(value, crate::dates::DATE_FORMAT@, format) {
            Some(t) => t,
            None => value,
        },
    }
}

/// The `date` filter.
pub fn format_date(value: &str, format: Option<&str>) -> (r: String)
    ensures
        r@ == date_filtered(value@, match format {
            Some(f) => f@,
            None => DEFAULT_DATE_FORMAT@,
        }),
{
    let fmt = match format {
        Some(f) => f,
        None => DEFAULT_DATE_FORMAT,
    };
    if let Some(t) = reformat_datetime(value, crate::dates::DATETIME_FORMAT, fmt) {
        return t;
    }
    if let Some(t) = reformat_date(value, crate::dates::DATE_FORMAT, fmt) {
        return t;
    }
    String::from_str(value)
}

} // verus!
