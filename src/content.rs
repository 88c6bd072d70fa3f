//! The content store: URL paths and section keys derived from a file's
//! location, front-matter framing, and the pages and sections built from it.
use vstd::prelude::*;

use crate::config::SortBy;
use crate::text::{is_space, space, lex_lt, lemma_lex_irreflexive, lemma_lex_transitive, chars_of, has_prefix, is_first_from, find_from, push_str, slice_chars, string_of, same_chars, str_eq, matches_at};

verus! {

/// Index of the last occurrence of `c` in `s`, if any.
pub open spec fn last_index_of(s: Seq<char>, c: char) -> Option<int>
    decreases s.len(),
{
    if s.len() == 0 {
        None
    } else if s.last() == c {
        Some(s.len() - 1)
    } else {
        last_index_of(s.drop_last(), c)
    }
}

/// The directory part of a content-relative path (`"posts/a.md"` gives `"posts"`).
pub open spec fn parent_of(p: Seq<char>) -> Seq<char> {
    match last_index_of(p, '/') {
        Some(i) => p.subrange(0, i),
        None => Seq::empty(),
    }
}

/// The last component of a content-relative path.
pub open spec fn file_name_of(p: Seq<char>) -> Seq<char> {
    match last_index_of(p, '/') {
        Some(i) => p.subrange(i + 1, p.len() as int),
        None => p,
    }
}

/// A file name without its last extension; a name whose only dot leads is kept whole.
pub open spec fn stem_of(n: Seq<char>) -> Seq<char> {
    match last_index_of(n, '.') {
        Some(i) => if i > 0 { n.subrange(0, i) } else { n },
        None => n,
    }
}

/// `dir/index.md` holds a page together with its assets.
pub open spec fn is_colocated(p: Seq<char>) -> bool {
    file_name_of(p) == "index.md"@
}

/// The directory of the section that owns the file at `p`.
pub open spec fn section_dir_of(p: Seq<char>) -> Seq<char> {
    if is_colocated(p) {
        parent_of(parent_of(p))
    } else {
        parent_of(p)
    }
}

/// The key (path of the `_index.md`) of the section that owns the file at `p`.
pub open spec fn section_key(p: Seq<char>) -> Seq<char> {
    let d = section_dir_of(p);
    if d.len() == 0 {
        "_index.md"@
    } else {
        d + "/_index.md"@
    }
}

/// URL path of a page: `/{dir}/{slug}/`, or `/{slug}/` at the root.
pub open spec fn page_url(dir: Seq<char>, slug: Seq<char>) -> Seq<char> {
    if dir.len() == 0 {
        "/"@ + slug + "/"@
    } else {
        "/"@ + dir + "/"@ + slug + "/"@
    }
}

/// URL path of a section: `/{dir}/`, or `/` at the root.
pub open spec fn section_url(dir: Seq<char>) -> Seq<char> {
    if dir.len() == 0 {
        "/"@
    } else {
        "/"@ + dir + "/"@
    }
}

pub proof fn lemma_last_index_bounds(s: Seq<char>, c: char)
    ensures
        match last_index_of(s, c) {
            Some(i) => 0 <= i < s.len() && s[i] == c
                && forall|j: int| i < j < s.len() ==> s[j] != c,
            None => forall|j: int| 0 <= j < s.len() ==> s[j] != c,
        },
    decreases s.len(),
{
    if s.len() > 0 {
        lemma_last_index_bounds(s.drop_last(), c);
        assert(forall|j: int| 0 <= j < s.len() - 1 ==> s.drop_last()[j] == s[j]);
    }
}

/// Index of the last `c` in `s`.
pub fn find_last_char(s: &Vec<char>, c: char) -> (r: Option<usize>)
    ensures
        match r {
            Some(i) => last_index_of(s@, c) == Some(i as int) && i < s.len(),
            None => last_index_of(s@, c) is None,
        },
{
    proof { lemma_whole_prefix(s@); lemma_last_index_bounds(s@, c); }
    let mut k: usize = s.len();
    while k > 0
        invariant
            k <= s.len(),
            last_index_of(s@, c) == last_index_of(s@.subrange(0, k as int), c),
        decreases k,
    {
        assert(s@.subrange(0, k as int).drop_last() =~= s@.subrange(0, k - 1));
        if s[k - 1] == c {
            return Some(k - 1);
        }
        k = k - 1;
    }
    None
}

proof fn lemma_whole_prefix(s: Seq<char>)
    ensures
        s.subrange(0, s.len() as int) == s,
{
    assert(s.subrange(0, s.len() as int) =~= s);
}

/// The parent directory of a content-relative path (`"posts/hello.md"` gives `"posts"`, `"hello.md"` gives `""`).
pub fn parent_dir(relative_path: &str) -> (r: String)
    ensures
        r@ == parent_of(relative_path@),
{
    let s = chars_of(relative_path);
    proof { lemma_whole_prefix(s@); }
    match find_last_char(&s, '/') {
        Some(i) => {
            let d = slice_chars(&s, 0, i);
            string_of(&d)
        },
        None => String::new(),
    }
}

fn parent_chars(s: &Vec<char>) -> (r: Vec<char>)
    ensures
        r@ == parent_of(s@),
{
    proof { lemma_whole_prefix(s@); }
    match find_last_char(s, '/') {
        Some(i) => slice_chars(s, 0, i),
        None => Vec::new(),
    }
}

fn file_name_chars(s: &Vec<char>) -> (r: Vec<char>)
    ensures
        r@ == file_name_of(s@),
{
    proof { lemma_whole_prefix(s@); }
    match find_last_char(s, '/') {
        Some(i) => slice_chars(s, i + 1, s.len()),
        None => slice_chars(s, 0, s.len()),
    }
}

/// The last component of a content-relative path.
pub fn file_name(path: &str) -> (r: String)
    ensures
        r@ == file_name_of(path@),
{
    let v = chars_of(path);
    let n = file_name_chars(&v);
    string_of(&n)
}

/// A file name without its last extension.
pub fn file_stem(name: &str) -> (r: String)
    ensures
        r@ == stem_of(name@),
{
    let v = chars_of(name);
    let n = stem_chars(&v);
    string_of(&n)
}

fn stem_chars(s: &Vec<char>) -> (r: Vec<char>)
    ensures
        r@ == stem_of(s@),
{
    proof { lemma_whole_prefix(s@); }
    match find_last_char(s, '.') {
        Some(i) => if i > 0 { slice_chars(s, 0, i) } else { slice_chars(s, 0, s.len()) },
        None => slice_chars(s, 0, s.len()),
    }
}

fn colocated_chars(s: &Vec<char>) -> (r: bool)
    ensures
        r == is_colocated(s@),
{
    let n = file_name_chars(s);
    let idx = chars_of("index.md");
    same_chars(&n, &idx)
}

fn section_dir_chars(s: &Vec<char>) -> (r: Vec<char>)
    ensures
        r@ == section_dir_of(s@),
{
    if colocated_chars(s) {
        let p = parent_chars(s);
        parent_chars(&p)
    } else {
        parent_chars(s)
    }
}

/// The section key of a content-relative path: the `_index.md` of the owning
/// directory, where `dir/index.md` belongs to the section above `dir`.
pub fn section_key_for(relative_path: &str) -> (r: String)
    ensures
        r@ == section_key(relative_path@),
{
    let s = chars_of(relative_path);
    let d = section_dir_chars(&s);
    if d.len() == 0 {
        String::from_str("_index.md")
    } else {
        let mut out = d;
        push_str(&mut out, "/_index.md");
        string_of(&out)
    }
}

/// URL path of a page with the given section directory and slug.
pub fn page_url_path(parent_dir: &str, slug: &str) -> (r: String)
    ensures
        r@ == page_url(parent_dir@, slug@),
{
    let mut out: Vec<char> = Vec::new();
    push_str(&mut out, "/");
    if parent_dir.unicode_len() > 0 {
        push_str(&mut out, parent_dir);
        push_str(&mut out, "/");
    }
    push_str(&mut out, slug);
    push_str(&mut out, "/");
    assert(out@ =~= page_url(parent_dir@, slug@));
    string_of(&out)
}

/// URL path of the section whose `_index.md` lies in `dir`.
pub fn section_url_path(dir: &str) -> (r: String)
    ensures
        r@ == section_url(dir@),
{
    let mut out: Vec<char> = Vec::new();
    push_str(&mut out, "/");
    if dir.unicode_len() > 0 {
        push_str(&mut out, dir);
        push_str(&mut out, "/");
    }
    assert(out@ =~= section_url(dir@));
    string_of(&out)
}

proof fn lemma_last_index_append(a: Seq<char>, b: Seq<char>, c: char)
    requires
        forall|k: int| 0 <= k < b.len() ==> b[k] != c,
    ensures
        last_index_of(a + b, c) == last_index_of(a, c),
    decreases b.len(),
{
    if b.len() > 0 {
        assert((a + b).drop_last() =~= a + b.drop_last());
        lemma_last_index_append(a, b.drop_last(), c);
    } else {
        assert(a + b =~= a);
    }
}

proof fn lemma_split_at_slash(d: Seq<char>, f: Seq<char>)
    requires
        forall|k: int| 0 <= k < f.len() ==> f[k] != '/',
    ensures
        parent_of(d + "/"@ + f) == d,
        file_name_of(d + "/"@ + f) == f,
{
    let s = d + "/"@ + f;
    reveal_strlit("/");
    lemma_last_index_append(d + "/"@, f, '/');
    assert((d + "/"@).drop_last() =~= d);
    assert(last_index_of(d + "/"@, '/') == Some(d.len() as int));
    assert(s.subrange(0, d.len() as int) =~= d);
    assert(s.subrange(d.len() as int + 1, s.len() as int) =~= f);
}

/// The section key is stable under itself: the key of a section key is that key.
/// A co-located `dir/index.md` has the key of a `_index.md` placed beside `dir`,
/// that is, of the grandparent section.
pub proof fn lemma_section_key(p: Seq<char>, dir: Seq<char>)
    requires
        dir.len() > 0,
    ensures
        section_key(section_key(p)) == section_key(p),
        section_key(dir + "/index.md"@) == section_key(parent_of(dir) + "/_index.md"@),
{
    reveal_strlit("_index.md");
    reveal_strlit("/_index.md");
    reveal_strlit("index.md");
    reveal_strlit("/index.md");
    reveal_strlit("/");
    let k = section_key(p);
    let d = section_dir_of(p);
    let idx = "_index.md"@;
    assert(forall|i: int| 0 <= i < idx.len() ==> idx[i] != '/');
    if d.len() == 0 {
        lemma_last_index_append(Seq::empty(), idx, '/');
        assert(Seq::<char>::empty() + idx =~= idx);
        assert(file_name_of(k) == idx);
        assert(idx != "index.md"@) by {
            assert(idx.len() != "index.md"@.len());
        }
        assert(parent_of(k) =~= Seq::<char>::empty());
    } else {
        assert("/_index.md"@ =~= "/"@ + idx);
        assert(k =~= d + "/"@ + idx);
        lemma_split_at_slash(d, idx);
        assert(idx != "index.md"@) by {
            assert(idx.len() != "index.md"@.len());
        }
    }
    let nm = "index.md"@;
    assert(forall|i: int| 0 <= i < nm.len() ==> nm[i] != '/');
    assert(dir + "/index.md"@ =~= dir + "/"@ + nm);
    lemma_split_at_slash(dir, nm);
    let g = parent_of(dir);
    assert(g + "/_index.md"@ =~= g + "/"@ + idx);
    lemma_split_at_slash(g, idx);
    assert(idx != nm) by {
        assert(idx.len() != nm.len());
    }
}

/// What `slug::slugify` makes of a text.
pub uninterp spec fn slugified(s: Seq<char>) -> Seq<char>;

/// Relies on `slug::slugify`: the URL slug of `s`, which depends on `s` alone.
#[verifier::external_body]
pub(crate) fn slugify(s: &str) -> (r: String)
    ensures
        r@ == slugified(s@),
{
    slug::slugify(s)
}

/// A front-matter value outside the declared fields, as the pipeline reads it.
#[derive(Clone, Debug)]
pub enum FieldValue {
    /// An array; each item is `Some` text where it is a string.
    Array(Vec<Option<String>>),
    /// Any other value.
    Other,
}

/// An undeclared front-matter field.
#[derive(Clone, Debug)]
pub struct ExtraField {
    pub key: String,
    pub value: FieldValue,
}

/// Parsed front matter: the declared fields, and the undeclared ones in order.
#[derive(Clone, Debug)]
pub struct Frontmatter {
    pub title: Option<String>,
    /// The date as text (a TOML date is written in its TOML form).
    pub date: Option<String>,
    pub author: Option<String>,
    pub description: Option<String>,
    pub draft: bool,
    pub slug: Option<String>,
    pub aliases: Vec<String>,
    pub sort_by: Option<crate::config::SortBy>,
    pub paginate_by: Option<usize>,
    pub rest: Vec<ExtraField>,
}

impl Frontmatter {
    /// Front matter with no field set.
    pub fn empty() -> (r: Frontmatter)
        ensures
            r.title is None && r.date is None && r.author is None && r.description is None,
            !r.draft && r.slug is None && r.aliases@.len() == 0,
            r.sort_by is None && r.paginate_by is None && r.rest@.len() == 0,
    {
        Frontmatter {
            title: None,
            date: None,
            author: None,
            description: None,
            draft: false,
            slug: None,
            aliases: Vec::new(),
            sort_by: None,
            paginate_by: None,
            rest: Vec::new(),
        }
    }
}

impl Default for Frontmatter {
    fn default() -> (r: Frontmatter)
        ensures
            r.title is None && r.date is None && r.author is None && r.description is None,
            !r.draft && r.slug is None && r.aliases@.len() == 0,
            r.sort_by is None && r.paginate_by is None && r.rest@.len() == 0,
    {
        Frontmatter::empty()
    }
}

/// The terms of one taxonomy on a page.
#[derive(Clone, Debug)]
pub struct Taxonomy {
    pub name: String,
    pub terms: Vec<String>,
}

/// A page: any Markdown file other than a section's `_index.md`.
#[derive(Clone, Debug)]
pub struct Page {
    pub title: String,
    pub date: Option<String>,
    pub author: Option<String>,
    pub description: Option<String>,
    pub draft: bool,
    pub slug: String,
    /// URL path relative to the site root (e.g. `/posts/hello/`).
    pub path: String,
    /// Base URL followed by the path.
    pub permalink: String,
    /// Rendered HTML, filled in during the build.
    pub content: String,
    /// Rendered summary, filled in during the build.
    pub summary: Option<String>,
    /// Markdown body after the front matter.
    pub raw_content: String,
    pub taxonomies: Vec<Taxonomy>,
    pub aliases: Vec<String>,
    pub word_count: usize,
    /// Minutes: a fifth of the word count in hundreds, at least one.
    pub reading_time: usize,
    /// Source path relative to the content directory; the page's identity.
    pub relative_path: String,
}

/// A section, defined by an `_index.md` file.
#[derive(Clone, Debug)]
pub struct Section {
    pub title: String,
    pub description: Option<String>,
    pub path: String,
    pub permalink: String,
    pub content: String,
    pub raw_content: String,
    /// Pages of the section, filled in by `assign_pages_to_sections`.
    pub pages: Vec<Page>,
    pub sort_by: Option<crate::config::SortBy>,
    pub paginate_by: Option<usize>,
    pub relative_path: String,
}

/// The string items of a front-matter array, in order.
pub open spec fn strings_of(items: Seq<Option<String>>) -> Seq<Seq<char>>
    decreases items.len(),
{
    if items.len() == 0 {
        Seq::empty()
    } else {
        let prev = strings_of(items.drop_last());
        match items.last() {
            Some(s) => prev.push(s@),
            None => prev,
        }
    }
}

/// The taxonomies that undeclared fields give: every array with at least one
/// string item, under its own key, with its string items.
pub open spec fn taxonomies_of(rest: Seq<ExtraField>) -> Seq<(Seq<char>, Seq<Seq<char>>)>
    decreases rest.len(),
{
    if rest.len() == 0 {
        Seq::empty()
    } else {
        let prev = taxonomies_of(rest.drop_last());
        let f = rest.last();
        match f.value {
            FieldValue::Array(items) => {
                let ss = strings_of(items@);
                if ss.len() > 0 {
                    prev.push((f.key@, ss))
                } else {
                    prev
                }
            },
            FieldValue::Other => prev,
        }
    }
}

/// The view of a page's taxonomies.
pub open spec fn taxonomies_view(t: Seq<Taxonomy>) -> Seq<(Seq<char>, Seq<Seq<char>>)> {
    t.map_values(|x: Taxonomy| (x.name@, x.terms@.map_values(|s: String| s@)))
}

/// Number of maximal runs of non-whitespace characters in `s`.
pub open spec fn word_count(s: Seq<char>) -> nat
    decreases s.len(),
{
    if s.len() == 0 {
        0
    } else {
        word_count(s.drop_last()) + if !is_space(s.last()) && (s.len() == 1 || is_space(
            s[s.len() - 2],
        )) {
            1nat
        } else {
            0nat
        }
    }
}

/// The number of whitespace-separated words in `s`.
pub fn count_words(s: &str) -> (r: usize)
    ensures
        r == word_count(s@),
{
    let v = chars_of(s);
    let mut n: usize = 0;
    let mut i: usize = 0;
    while i < v.len()
        invariant
            v@ == s@,
            i <= v.len(),
            n == word_count(v@.subrange(0, i as int)),
            n <= i,
        decreases v.len() - i,
    {
        let ghost pre = v@.subrange(0, i as int);
        assert(v@.subrange(0, i + 1).drop_last() =~= pre);
        if !space(v[i]) && (i == 0 || space(v[i - 1])) {
            n = n + 1;
        }
        i = i + 1;
    }
    assert(v@.subrange(0, v.len() as int) =~= v@);
    n
}

fn strings_in(items: &Vec<Option<String>>) -> (r: Vec<String>)
    ensures
        r@.map_values(|s: String| s@) == strings_of(items@),
{
    let mut r: Vec<String> = Vec::new();
    let mut i: usize = 0;
    while i < items.len()
        invariant
            i <= items.len(),
            r@.map_values(|s: String| s@) == strings_of(items@.subrange(0, i as int)),
        decreases items.len() - i,
    {
        assert(items@.subrange(0, i + 1).drop_last() =~= items@.subrange(0, i as int));
        match &items[i] {
            Some(s) => {
                r.push(s.clone());
                assert(r@.map_values(|s: String| s@) =~= strings_of(items@.subrange(0, i + 1)));
            },
            None => {},
        }
        i = i + 1;
    }
    assert(items@.subrange(0, items.len() as int) =~= items@);
    r
}

/// The taxonomies declared by the undeclared fields of a front matter.
pub fn collect_taxonomies(rest: &Vec<ExtraField>) -> (r: Vec<Taxonomy>)
    ensures
        taxonomies_view(r@) == taxonomies_of(rest@),
{
    let mut r: Vec<Taxonomy> = Vec::new();
    let mut i: usize = 0;
    while i < rest.len()
        invariant
            i <= rest.len(),
            taxonomies_view(r@) == taxonomies_of(rest@.subrange(0, i as int)),
        decreases rest.len() - i,
    {
        assert(rest@.subrange(0, i + 1).drop_last() =~= rest@.subrange(0, i as int));
        assert(rest@.subrange(0, i + 1).last() == rest@[i as int]);
        match &rest[i].value {
            FieldValue::Array(items) => {
                let ss = strings_in(items);
                if ss.len() > 0 {
                    let t = Taxonomy { name: rest[i].key.clone(), terms: ss };
                    r.push(t);
                    assert(taxonomies_view(r@) =~= taxonomies_of(rest@.subrange(0, i + 1)));
                } else {
                    assert(taxonomies_view(r@) =~= taxonomies_of(rest@.subrange(0, i + 1)));
                }
            },
            FieldValue::Other => {},
        }
        i = i + 1;
    }
    assert(rest@.subrange(0, rest.len() as int) =~= rest@);
    r
}

/// The slug of a page: the front matter's, else the slugified file stem, or
/// for a co-located `dir/index.md` the slugified name of `dir`.
pub open spec fn page_slug(fm_slug: Option<String>, rel: Seq<char>) -> Seq<char> {
    match fm_slug {
        Some(s) => s@,
        None => if is_colocated(rel) {
            slugified(file_name_of(parent_of(rel)))
        } else {
            slugified(stem_of(file_name_of(rel)))
        },
    }
}

pub open spec fn text_or_empty(t: Option<String>) -> Seq<char> {
    match t {
        Some(s) => s@,
        None => Seq::empty(),
    }
}

/// Builds a page from its front matter, body, content-relative path and the site's base URL.
pub fn build_page(fm: Frontmatter, raw_content: String, relative_path: &str, base_url: &str) -> (r: Page)
    ensures
        r.title@ == text_or_empty(fm.title),
        r.date == fm.date,
        r.author == fm.author,
        r.description == fm.description,
        r.draft == fm.draft,
        r.aliases == fm.aliases,
        r.slug@ == page_slug(fm.slug, relative_path@),
        r.path@ == page_url(section_dir_of(relative_path@), r.slug@),
        r.permalink@ == base_url@ + r.path@,
        r.content@.len() == 0,
        r.summary is None,
        r.raw_content == raw_content,
        taxonomies_view(r.taxonomies@) == taxonomies_of(fm.rest@),
        r.word_count == word_count(raw_content@),
        r.reading_time == if word_count(raw_content@) / 200 >= 1 { word_count(raw_content@) / 200 } else { 1 },
        r.relative_path@ == relative_path@,
{
    let title = match fm.title {
        Some(t) => t,
        None => String::new(),
    };
    let rel = chars_of(relative_path);
    let colocated = colocated_chars(&rel);
    let slug = match fm.slug {
        Some(s) => s,
        None => {
            if colocated {
                let p = parent_chars(&rel);
                let n = file_name_chars(&p);
                let n = string_of(&n);
                slugify(n.as_str())
            } else {
                let n = file_name_chars(&rel);
                let st = stem_chars(&n);
                let st = string_of(&st);
                slugify(st.as_str())
            }
        },
    };
    let dir = section_dir_chars(&rel);
    let dir = string_of(&dir);
    let path = page_url_path(dir.as_str(), slug.as_str());
    let mut link = chars_of(base_url);
    push_str(&mut link, path.as_str());
    let permalink = string_of(&link);
    let taxonomies = collect_taxonomies(&fm.rest);
    let word_count = count_words(raw_content.as_str());
    let reading_time = if word_count / 200 >= 1 { word_count / 200 } else { 1 };
    Page {
        title,
        date: fm.date,
        author: fm.author,
        description: fm.description,
        draft: fm.draft,
        slug,
        path,
        permalink,
        content: String::new(),
        summary: None,
        raw_content,
        taxonomies,
        aliases: fm.aliases,
        word_count,
        reading_time,
        relative_path: String::from_str(relative_path),
    }
}

/// Builds a section from its front matter, body, content-relative path and the site's base URL.
pub fn build_section(fm: Frontmatter, raw_content: String, relative_path: &str, base_url: &str) -> (r: Section)
    ensures
        r.title@ == text_or_empty(fm.title),
        r.description == fm.description,
        r.path@ == section_url(parent_of(relative_path@)),
        r.permalink@ == base_url@ + r.path@,
        r.content@.len() == 0,
        r.raw_content == raw_content,
        r.pages@.len() == 0,
        r.sort_by == fm.sort_by,
        r.paginate_by == fm.paginate_by,
        r.relative_path@ == relative_path@,
{
    let title = match fm.title {
        Some(t) => t,
        None => String::new(),
    };
    let dir = parent_dir(relative_path);
    let path = section_url_path(dir.as_str());
    let mut link = chars_of(base_url);
    push_str(&mut link, path.as_str());
    let permalink = string_of(&link);
    Section {
        title,
        description: fm.description,
        path,
        permalink,
        content: String::new(),
        raw_content,
        pages: Vec::new(),
        sort_by: fm.sort_by,
        paginate_by: fm.paginate_by,
        relative_path: String::from_str(relative_path),
    }
}

/// Why front matter could not be framed.
#[derive(Clone, Copy, Debug, PartialEq, Eq, Structural)]
pub enum FrontmatterError {
    /// The opening `+++` has no closing line.
    Unclosed,
}

/// `s` without its leading byte-order marks.
pub open spec fn without_bom(s: Seq<char>) -> Seq<char>
    decreases s.len(),
{
    if s.len() > 0 && s[0] == '\u{feff}' {
        without_bom(s.drop_first())
    } else {
        s
    }
}

/// How a file is framed: `None` when it has no front matter (the whole text
/// is the body), else the header text and the body after the closing line.
pub open spec fn frontmatter_frame(content: Seq<char>) -> Result<(Option<Seq<char>>, Seq<char>), FrontmatterError> {
    let c = without_bom(content);
    if !has_prefix(c, "+++"@) {
        Ok((None, c))
    } else {
        let rest = c.subrange(3, c.len() as int);
        if exists|e: int| is_first_from(rest, "\n+++"@, 0, e) {
            let e = choose|e: int| is_first_from(rest, "\n+++"@, 0, e);
            let body = rest.subrange(e + 4, rest.len() as int);
            if body.len() > 0 && body[0] == '\n' {
                Ok((Some(rest.subrange(0, e)), body.subrange(1, body.len() as int)))
            } else {
                Ok((Some(rest.subrange(0, e)), body))
            }
        } else {
            Err(FrontmatterError::Unclosed)
        }
    }
}

pub open spec fn frame_view(r: Result<(Option<String>, String), FrontmatterError>) -> Result<(Option<Seq<char>>, Seq<char>), FrontmatterError> {
    match r {
        Ok((h, b)) => Ok((match h { Some(x) => Some(x@), None => None }, b@)),
        Err(e) => Err(e),
    }
}

/// Splits a content file into its front-matter header and body.
///
/// A file that does not start with `+++` has no header; one whose `+++` is
/// never closed by a line starting with `+++` is an error.
pub fn split_frontmatter(content: &str) -> (r: Result<(Option<String>, String), FrontmatterError>)
    ensures
        frame_view(r) == frontmatter_frame(content@),
{
    let all = chars_of(content);
    let mut start: usize = 0;
    proof {
        assert(all@.subrange(0, all.len() as int) =~= all@);
    }
    while start < all.len() && all[start] == '\u{feff}'
        invariant
            start <= all.len(),
            without_bom(all@) == without_bom(all@.subrange(start as int, all.len() as int)),
        decreases all.len() - start,
    {
        assert(all@.subrange(start as int, all.len() as int).drop_first() =~= all@.subrange(start + 1, all.len() as int));
        start = start + 1;
    }
    let c = slice_chars(&all, start, all.len());
    assert(without_bom(c@) == c@);
    let open = chars_of("+++");
    proof { reveal_strlit("+++"); }
    if !crate::text::matches_at(&c, &open, 0) {
        return Ok((None, string_of(&c)));
    }
    let rest = slice_chars(&c, 3, c.len());
    let close = chars_of("\n+++");
    match find_from(&rest, &close, 0) {
        None => {
            assert(!exists|e: int| is_first_from(rest@, "\n+++"@, 0, e));
            Err(FrontmatterError::Unclosed)
        },
        Some(e) => {
            proof {
                reveal_strlit("\n+++");
                assert forall|e2: int| is_first_from(rest@, "\n+++"@, 0, e2) implies e2 == e by {
                    if e2 < e {
                    } else if e2 > e {
                    }
                }
            }
            let header = slice_chars(&rest, 0, e);
            let body = slice_chars(&rest, e + 4, rest.len());
            if body.len() > 0 && body[0] == '\n' {
                let b = slice_chars(&body, 1, body.len());
                Ok((Some(string_of(&header)), string_of(&b)))
            } else {
                Ok((Some(string_of(&header)), string_of(&body)))
            }
        },
    }
}

/// `a` comes strictly before `b` in a section ordered by `by`: newer date
/// first (an undated page counts as the empty date, so it comes last), or
/// smaller title first.
pub open spec fn goes_before(a: Page, b: Page, by: SortBy) -> bool {
    match by {
        SortBy::Date => lex_lt(text_or_empty(b.date), text_or_empty(a.date)),
        SortBy::Title => lex_lt(a.title@, b.title@),
    }
}

/// No page of `s` goes before one that precedes it.
pub open spec fn sorted_by(s: Seq<Page>, by: SortBy) -> bool {
    forall|i: int, j: int| 0 <= i < j < s.len() ==> !goes_before(s[j], s[i], by)
}

pub open spec fn rel_paths(s: Seq<Page>) -> Seq<Seq<char>> {
    s.map_values(|p: Page| p.relative_path@)
}

proof fn lemma_goes_before_order(a: Page, b: Page, c: Page, by: SortBy)
    ensures
        !goes_before(a, a, by),
        goes_before(a, b, by) && goes_before(b, c, by) ==> goes_before(a, c, by),
{
    lemma_lex_irreflexive(a.title@);
    lemma_lex_irreflexive(text_or_empty(a.date));
    if goes_before(a, b, by) && goes_before(b, c, by) {
        match by {
            SortBy::Date => lemma_lex_transitive(text_or_empty(c.date), text_or_empty(b.date), text_or_empty(a.date)),
            SortBy::Title => lemma_lex_transitive(a.title@, b.title@, c.title@),
        }
    }
}

/// Whether `a` is strictly less than `b`, character by character.
pub fn text_less(a: &Vec<char>, b: &Vec<char>) -> (r: bool)
    ensures
        r == lex_lt(a@, b@),
{
    let mut i: usize = 0;
    proof {
        assert(a@.subrange(0, a.len() as int) =~= a@);
        assert(b@.subrange(0, b.len() as int) =~= b@);
    }
    while i < a.len() && i < b.len() && a[i] == b[i]
        invariant
            i <= a.len() && i <= b.len(),
            lex_lt(a@, b@) == lex_lt(a@.subrange(i as int, a.len() as int), b@.subrange(i as int, b.len() as int)),
        decreases a.len() - i,
    {
        assert(a@.subrange(i as int, a.len() as int).drop_first() =~= a@.subrange(i + 1, a.len() as int));
        assert(b@.subrange(i as int, b.len() as int).drop_first() =~= b@.subrange(i + 1, b.len() as int));
        i = i + 1;
    }
    if i == a.len() {
        i < b.len()
    } else if i == b.len() {
        false
    } else {
        a[i] < b[i]
    }
}

fn date_chars(d: &Option<String>) -> (r: Vec<char>)
    ensures
        r@ == text_or_empty(*d),
{
    match d {
        Some(s) => chars_of(s.as_str()),
        None => Vec::new(),
    }
}

/// Whether `a` comes strictly before `b` under the order `by`.
pub fn page_goes_before(a: &Page, b: &Page, by: SortBy) -> (r: bool)
    ensures
        r == goes_before(*a, *b, by),
{
    match by {
        SortBy::Date => {
            let da = date_chars(&a.date);
            let db = date_chars(&b.date);
            text_less(&db, &da)
        },
        SortBy::Title => {
            let ta = chars_of(a.title.as_str());
            let tb = chars_of(b.title.as_str());
            text_less(&ta, &tb)
        },
    }
}

/// `after` is `before` reordered: `perm` gives the position in `before` of
/// each page of `after`, and pages that compare equal keep their order.
pub open spec fn stable_reordering(after: Seq<Page>, before: Seq<Page>, by: SortBy, perm: Seq<int>) -> bool {
    &&& perm.len() == after.len() && after.len() == before.len()
    &&& forall|i: int| 0 <= i < perm.len() ==> 0 <= #[trigger] perm[i] < before.len() && after[i] == before[perm[i]]
    &&& forall|i: int, j: int| 0 <= i < j < perm.len() ==> #[trigger] perm[i] != #[trigger] perm[j]
    &&& forall|i: int, j: int| 0 <= i < j < perm.len() && !goes_before(after[i], after[j], by)
        && !goes_before(after[j], after[i], by) ==> #[trigger] perm[i] < #[trigger] perm[j]
}

proof fn lemma_tie_substitute(a: Page, b: Page, c: Page, by: SortBy)
    requires
        !goes_before(a, b, by),
        !goes_before(b, a, by),
    ensures
        goes_before(a, c, by) == goes_before(b, c, by),
{
    match by {
        SortBy::Date => crate::text::lemma_lex_total(text_or_empty(a.date), text_or_empty(b.date)),
        SortBy::Title => crate::text::lemma_lex_total(a.title@, b.title@),
    }
}

/// Orders `pages` by `by`, keeping pages that compare equal in their order.
pub fn sort_pages(pages: &mut Vec<Page>, by: SortBy)
    ensures
        sorted_by(final(pages)@, by),
        final(pages)@.to_multiset() == old(pages)@.to_multiset(),
        rel_paths(final(pages)@).to_multiset() == rel_paths(old(pages)@).to_multiset(),
        exists|perm: Seq<int>| stable_reordering(final(pages)@, old(pages)@, by, perm),
{
    broadcast use vstd::seq_lib::group_to_multiset_ensures;
    broadcast use vstd::multiset::group_multiset_axioms;
    let ghost initial = pages@;
    let mut src: Vec<Page> = Vec::new();
    std::mem::swap(pages, &mut src);
    let mut out: Vec<Page> = Vec::new();
    let ghost mut perm: Seq<int> = Seq::empty();
    assert(src@ =~= initial.subrange(0, initial.len() as int));
    while src.len() > 0
        invariant
            sorted_by(out@, by),
            out@.to_multiset().add(src@.to_multiset()) == initial.to_multiset(),
            rel_paths(out@).to_multiset().add(rel_paths(src@).to_multiset()) == rel_paths(initial).to_multiset(),
            out@.len() + src@.len() == initial.len(),
            src@ == initial.subrange(out@.len() as int, initial.len() as int),
            perm.len() == out@.len(),
            forall|i: int| 0 <= i < perm.len() ==> 0 <= #[trigger] perm[i] < out@.len() && out@[i] == initial[perm[i]],
            forall|i: int, j: int| 0 <= i < j < perm.len() ==> #[trigger] perm[i] != #[trigger] perm[j],
            forall|i: int, j: int| 0 <= i < j < perm.len() && !goes_before(out@[i], out@[j], by)
                && !goes_before(out@[j], out@[i], by) ==> #[trigger] perm[i] < #[trigger] perm[j],
        decreases src.len(),
    {
        let ghost src0 = src@;
        let ghost t: int = out@.len() as int;
        let x = src.remove(0);
        assert(x == initial[t]);
        assert(src@ =~= initial.subrange(t + 1, initial.len() as int));
        assert(rel_paths(src@) =~= rel_paths(src0).remove(0));
        let mut pos: usize = 0;
        while pos < out.len() && !page_goes_before(&x, &out[pos], by)
            invariant
                pos <= out.len(),
                forall|k: int| 0 <= k < pos ==> !goes_before(x, out@[k], by),
            decreases out.len() - pos,
        {
            pos = pos + 1;
        }
        let ghost before = out@;
        proof {
            assert forall|j: int| pos <= j < before.len() implies !goes_before(before[j], x, by) by {
                lemma_goes_before_order(before[j], x, before[pos as int], by);
                lemma_goes_before_order(before[pos as int], x, before[pos as int], by);
            }
        }
        out.insert(pos, x);
        proof {
            let perm0 = perm;
            perm = perm.insert(pos as int, t);
            assert(out@ == before.insert(pos as int, x));
            assert forall|i: int| 0 <= i < perm.len() implies 0 <= #[trigger] perm[i] < out@.len() && out@[i] == initial[perm[i]] by {
                if i < pos {
                    assert(perm[i] == perm0[i]);
                } else if i > pos {
                    assert(perm[i] == perm0[i - 1]);
                }
            }
            assert forall|i: int, j: int| 0 <= i < j < perm.len() implies #[trigger] perm[i] != #[trigger] perm[j] by {
                if i < pos {
                    assert(perm[i] == perm0[i]);
                } else if i > pos {
                    assert(perm[i] == perm0[i - 1]);
                }
                if j < pos {
                    assert(perm[j] == perm0[j]);
                } else if j > pos {
                    assert(perm[j] == perm0[j - 1]);
                }
            }
            assert forall|i: int, j: int| 0 <= i < j < perm.len() && !goes_before(out@[i], out@[j], by)
                && !goes_before(out@[j], out@[i], by) implies #[trigger] perm[i] < #[trigger] perm[j] by {
                if j < pos {
                    assert(perm[i] == perm0[i] && perm[j] == perm0[j]);
                } else if j == pos {
                    assert(perm[i] == perm0[i]);
                } else if i < pos {
                    assert(perm[i] == perm0[i] && perm[j] == perm0[j - 1]);
                } else if i == pos {
                    lemma_tie_substitute(x, before[j - 1], before[pos as int], by);
                    lemma_goes_before_order(before[j - 1], before[j - 1], before[j - 1], by);
                } else {
                    assert(perm[i] == perm0[i - 1] && perm[j] == perm0[j - 1]);
                }
            }
            assert(rel_paths(out@) =~= rel_paths(before).insert(pos as int, x.relative_path@));
            assert forall|i: int, j: int| 0 <= i < j < out@.len() implies !goes_before(out@[j], out@[i], by) by {
                if j < pos {
                } else if j == pos {
                } else if i < pos {
                    lemma_goes_before_order(before[j - 1], x, before[i], by);
                } else if i == pos {
                } else {
                }
            }
            vstd::seq_lib::to_multiset_insert(before, pos as int, x);
            vstd::seq_lib::to_multiset_insert(rel_paths(before), pos as int, x.relative_path@);
            vstd::seq_lib::to_multiset_remove(src0, 0);
            vstd::seq_lib::to_multiset_remove(rel_paths(src0), 0);
            assert(src0.remove(0) == src@);
            assert(src0.contains(x));
            assert(src0[0] == x);
            vstd::seq_lib::to_multiset_contains(src0, x);
            assert(src0.to_multiset().count(x) > 0);
            assert(src@.to_multiset() == src0.to_multiset().remove(x));
            assert(src0.to_multiset() =~= src@.to_multiset().insert(x));
            assert(rel_paths(src0).remove(0) == rel_paths(src@));
            assert(rel_paths(src0)[0] == x.relative_path@);
            assert(rel_paths(src0).contains(x.relative_path@));
            vstd::seq_lib::to_multiset_contains(rel_paths(src0), x.relative_path@);
            assert(rel_paths(src0).to_multiset().count(x.relative_path@) > 0);
            assert(rel_paths(src@).to_multiset() == rel_paths(src0).to_multiset().remove(x.relative_path@));
            assert(rel_paths(src0).to_multiset() =~= rel_paths(src@).to_multiset().insert(x.relative_path@));
            assert(out@.to_multiset().add(src@.to_multiset()) =~= initial.to_multiset());
            assert(rel_paths(out@).to_multiset().add(rel_paths(src@).to_multiset()) =~= rel_paths(initial).to_multiset());
        }
    }
    proof {
        assert(src@.to_multiset() =~= vstd::multiset::Multiset::empty());
        assert(rel_paths(src@).to_multiset() =~= vstd::multiset::Multiset::empty());
        assert(out@.to_multiset() =~= initial.to_multiset());
        assert(rel_paths(out@).to_multiset() =~= rel_paths(initial).to_multiset());
        assert(stable_reordering(out@, initial, by, perm));
    }
    *pages = out;
}

/// Orders `pages` newest first; undated pages come last.
pub fn sort_pages_by_date(pages: &mut Vec<Page>)
    ensures
        sorted_by(final(pages)@, SortBy::Date),
        final(pages)@.to_multiset() == old(pages)@.to_multiset(),
        exists|perm: Seq<int>| stable_reordering(final(pages)@, old(pages)@, SortBy::Date, perm),
{
    sort_pages(pages, SortBy::Date);
}

pub open spec fn strings_view(v: Seq<String>) -> Seq<Seq<char>> {
    v.map_values(|x: String| x@)
}

pub open spec fn opt_view(t: Option<String>) -> Option<Seq<char>> {
    match t {
        Some(x) => Some(x@),
        None => None,
    }
}

/// `a` holds the same values as `b`, field by field.
pub open spec fn same_page(a: Page, b: Page) -> bool {
    &&& a.title@ == b.title@
    &&& opt_view(a.date) == opt_view(b.date)
    &&& opt_view(a.author) == opt_view(b.author)
    &&& opt_view(a.description) == opt_view(b.description)
    &&& a.draft == b.draft
    &&& a.slug@ == b.slug@
    &&& a.path@ == b.path@
    &&& a.permalink@ == b.permalink@
    &&& a.content@ == b.content@
    &&& opt_view(a.summary) == opt_view(b.summary)
    &&& a.raw_content@ == b.raw_content@
    &&& taxonomies_view(a.taxonomies@) == taxonomies_view(b.taxonomies@)
    &&& strings_view(a.aliases@) == strings_view(b.aliases@)
    &&& a.word_count == b.word_count
    &&& a.reading_time == b.reading_time
    &&& a.relative_path@ == b.relative_path@
}

fn copy_opt(t: &Option<String>) -> (r: Option<String>)
    ensures
        opt_view(r) == opt_view(*t),
{
    match t {
        Some(x) => Some(x.clone()),
        None => None,
    }
}

fn copy_strings(v: &Vec<String>) -> (r: Vec<String>)
    ensures
        strings_view(r@) == strings_view(v@),
{
    let mut r: Vec<String> = Vec::new();
    let mut i: usize = 0;
    while i < v.len()
        invariant
            i <= v@.len(),
            strings_view(r@) == strings_view(v@.subrange(0, i as int)),
        decreases v@.len() - i,
    {
        let x = v[i].clone();
        let ghost pre = r@;
        r.push(x);
        assert(strings_view(r@) =~= strings_view(pre).push(x@));
        i = i + 1;
        assert(strings_view(v@.subrange(0, i as int)) =~= strings_view(v@.subrange(0, i - 1)).push(v@[i - 1]@));
    }
    assert(v@.subrange(0, v@.len() as int) =~= v@);
    r
}

fn copy_taxonomies(v: &Vec<Taxonomy>) -> (r: Vec<Taxonomy>)
    ensures
        taxonomies_view(r@) == taxonomies_view(v@),
{
    let mut r: Vec<Taxonomy> = Vec::new();
    let mut i: usize = 0;
    while i < v.len()
        invariant
            i <= v@.len(),
            taxonomies_view(r@) == taxonomies_view(v@.subrange(0, i as int)),
        decreases v@.len() - i,
    {
        let t = Taxonomy { name: v[i].name.clone(), terms: copy_strings(&v[i].terms) };
        let ghost pre = r@;
        r.push(t);
        assert(t.terms@.map_values(|s: String| s@) == strings_view(t.terms@));
        assert(taxonomies_view(r@) =~= taxonomies_view(pre).push((t.name@, strings_view(t.terms@))));
        i = i + 1;
        assert(taxonomies_view(v@.subrange(0, i as int)) =~= taxonomies_view(v@.subrange(0, i - 1)).push(
            (v@[i - 1].name@, strings_view(v@[i - 1].terms@)),
        ));
    }
    assert(v@.subrange(0, v@.len() as int) =~= v@);
    r
}

impl Page {
    /// A copy of the page, field by field.
    pub fn duplicate(&self) -> (r: Page)
        ensures
            same_page(r, *self),
    {
        Page {
            title: self.title.clone(),
            date: copy_opt(&self.date),
            author: copy_opt(&self.author),
            description: copy_opt(&self.description),
            draft: self.draft,
            slug: self.slug.clone(),
            path: self.path.clone(),
            permalink: self.permalink.clone(),
            content: self.content.clone(),
            summary: copy_opt(&self.summary),
            raw_content: self.raw_content.clone(),
            taxonomies: copy_taxonomies(&self.taxonomies),
            aliases: copy_strings(&self.aliases),
            word_count: self.word_count,
            reading_time: self.reading_time,
            relative_path: self.relative_path.clone(),
        }
    }
}

/// `p` copies one of the section's own pages `own`, or one of `pages` that
/// belongs to the section keyed `key`.
pub open spec fn copied_from(p: Page, own: Seq<Page>, pages: Seq<Page>, key: Seq<char>) -> bool {
    (exists|k: int| 0 <= k < own.len() && same_page(p, own[k]))
        || (exists|k: int| 0 <= k < pages.len() && section_key(pages[k].relative_path@) == key && same_page(p, pages[k]))
}

/// Relative paths of the pages of `pages` that belong to the section keyed `key`, in order.
pub open spec fn pages_in(pages: Seq<Page>, key: Seq<char>) -> Seq<Seq<char>>
    decreases pages.len(),
{
    if pages.len() == 0 {
        Seq::empty()
    } else {
        let prev = pages_in(pages.drop_last(), key);
        if section_key(pages.last().relative_path@) == key {
            prev.push(pages.last().relative_path@)
        } else {
            prev
        }
    }
}

/// The order of a section's pages: its own, else by date.
pub open spec fn order_of(s: Section) -> SortBy {
    match s.sort_by {
        Some(b) => b,
        None => SortBy::Date,
    }
}

/// Adds each page to the section that owns it (by `section_key_for`), then
/// orders every section's pages by the section's order.
pub fn assign_pages_to_sections(sections: &mut Vec<Section>, pages: &Vec<Page>)
    ensures
        final(sections)@.len() == old(sections)@.len(),
        forall|i: int| 0 <= i < final(sections)@.len() ==> #[trigger] final(sections)@[i] == (Section {
            pages: final(sections)@[i].pages,
            ..old(sections)@[i]
        }),
        forall|i: int| 0 <= i < final(sections)@.len() ==>
            rel_paths(#[trigger] final(sections)@[i].pages@).to_multiset() == rel_paths(
                old(sections)@[i].pages@,
            ).to_multiset().add(pages_in(pages@, old(sections)@[i].relative_path@).to_multiset()),
        forall|i: int| 0 <= i < final(sections)@.len() ==>
            sorted_by(#[trigger] final(sections)@[i].pages@, order_of(old(sections)@[i])),
        forall|i: int, j: int| 0 <= i < final(sections)@.len() && 0 <= j < final(sections)@[i].pages@.len() ==>
            copied_from(#[trigger] final(sections)@[i].pages@[j], old(sections)@[i].pages@, pages@, old(sections)@[i].relative_path@),
{
    broadcast use vstd::seq_lib::group_to_multiset_ensures;
    broadcast use vstd::multiset::group_multiset_axioms;
    let ghost initial = sections@;
    let mut src: Vec<Section> = Vec::new();
    std::mem::swap(sections, &mut src);
    let mut out: Vec<Section> = Vec::new();
    let mut n: usize = 0;
    while n < src.len()
        invariant
            src@ == initial,
            n <= src.len(),
            out@.len() == n,
            forall|i: int| 0 <= i < n ==> #[trigger] out@[i] == (Section { pages: out@[i].pages, ..initial[i] }),
            forall|i: int| 0 <= i < n ==>
                rel_paths(#[trigger] out@[i].pages@).to_multiset() == rel_paths(initial[i].pages@).to_multiset().add(
                    pages_in(pages@, initial[i].relative_path@).to_multiset()),
            forall|i: int| 0 <= i < n ==> sorted_by(#[trigger] out@[i].pages@, order_of(initial[i])),
            forall|i: int, j: int| 0 <= i < n && 0 <= j < out@[i].pages@.len() ==>
                copied_from(#[trigger] out@[i].pages@[j], initial[i].pages@, pages@, initial[i].relative_path@),
        decreases src.len() - n,
    {
        let sec = &src[n];
        let mut ps: Vec<Page> = Vec::new();
        let mut k: usize = 0;
        while k < sec.pages.len()
            invariant
                k <= sec.pages.len(),
                rel_paths(ps@) == rel_paths(sec.pages@.subrange(0, k as int)),
                forall|m: int| 0 <= m < ps@.len() ==> copied_from(#[trigger] ps@[m], sec.pages@, pages@, sec.relative_path@),
            decreases sec.pages.len() - k,
        {
            let d = sec.pages[k].duplicate();
            let ghost pre = ps@;
            ps.push(d);
            assert(copied_from(d, sec.pages@, pages@, sec.relative_path@));
            assert forall|m: int| 0 <= m < ps@.len() implies copied_from(#[trigger] ps@[m], sec.pages@, pages@, sec.relative_path@) by {
                if m < pre.len() {
                    assert(ps@[m] == pre[m]);
                }
            }
            assert(sec.pages@.subrange(0, k + 1) =~= sec.pages@.subrange(0, k as int).push(sec.pages@[k as int]));
            assert(rel_paths(ps@) =~= rel_paths(pre).push(d.relative_path@));
            k = k + 1;
            assert(rel_paths(ps@) =~= rel_paths(sec.pages@.subrange(0, k as int)));
        }
        assert(sec.pages@.subrange(0, sec.pages.len() as int) =~= sec.pages@);
        let ghost base = rel_paths(ps@);
        let mut j: usize = 0;
        while j < pages.len()
            invariant
                j <= pages.len(),
                rel_paths(ps@) == base + pages_in(pages@.subrange(0, j as int), sec.relative_path@),
                forall|m: int| 0 <= m < ps@.len() ==> copied_from(#[trigger] ps@[m], sec.pages@, pages@, sec.relative_path@),
            decreases pages.len() - j,
        {
            assert(pages@.subrange(0, j + 1).drop_last() =~= pages@.subrange(0, j as int));
            let key = section_key_for(pages[j].relative_path.as_str());
            if str_eq(key.as_str(), sec.relative_path.as_str()) {
                let d = pages[j].duplicate();
                let ghost pre = ps@;
                ps.push(d);
                assert(copied_from(d, sec.pages@, pages@, sec.relative_path@)) by {
                    assert(section_key(pages@[j as int].relative_path@) == sec.relative_path@);
                }
                assert forall|m: int| 0 <= m < ps@.len() implies copied_from(#[trigger] ps@[m], sec.pages@, pages@, sec.relative_path@) by {
                    if m < pre.len() {
                        assert(ps@[m] == pre[m]);
                    }
                }
                assert(rel_paths(ps@) =~= rel_paths(pre).push(d.relative_path@));
                assert(pages@.subrange(0, j + 1).last() == pages@[j as int]);
                assert(rel_paths(ps@) =~= base + pages_in(pages@.subrange(0, j + 1), sec.relative_path@));
            }
            j = j + 1;
        }
        assert(pages@.subrange(0, pages.len() as int) =~= pages@);
        proof {
            vstd::seq_lib::lemma_multiset_commutative(base, pages_in(pages@, sec.relative_path@));
        }
        let by = match sec.sort_by {
            Some(b) => b,
            None => SortBy::Date,
        };
        let ghost unsorted = ps@;
        sort_pages(&mut ps, by);
        proof {
            lemma_same_members(unsorted, ps@, sec.pages@, pages@, sec.relative_path@);
        }
        let s = Section {
            title: sec.title.clone(),
            description: sec.description.clone(),
            path: sec.path.clone(),
            permalink: sec.permalink.clone(),
            content: sec.content.clone(),
            raw_content: sec.raw_content.clone(),
            pages: ps,
            sort_by: sec.sort_by,
            paginate_by: sec.paginate_by,
            relative_path: sec.relative_path.clone(),
        };
        let ghost out0 = out@;
        out.push(s);
        proof {
            assert forall|i: int, j: int| 0 <= i < n + 1 && 0 <= j < out@[i].pages@.len() implies
                copied_from(#[trigger] out@[i].pages@[j], initial[i].pages@, pages@, initial[i].relative_path@) by {
                if i < n {
                    assert(out@[i] == out0[i]);
                }
            }
        }
        n = n + 1;
    }
    *sections = out;
}

proof fn lemma_same_members(a: Seq<Page>, b: Seq<Page>, own: Seq<Page>, pages: Seq<Page>, key: Seq<char>)
    requires
        a.to_multiset() == b.to_multiset(),
        forall|m: int| 0 <= m < a.len() ==> copied_from(#[trigger] a[m], own, pages, key),
    ensures
        forall|m: int| 0 <= m < b.len() ==> copied_from(#[trigger] b[m], own, pages, key),
{
    broadcast use vstd::seq_lib::group_to_multiset_ensures;
    assert forall|m: int| 0 <= m < b.len() implies copied_from(#[trigger] b[m], own, pages, key) by {
        assert(b.contains(b[m]));
        vstd::seq_lib::to_multiset_contains(b, b[m]);
        vstd::seq_lib::to_multiset_contains(a, b[m]);
        assert(a.contains(b[m]));
        let idx = choose|idx: int| 0 <= idx < a.len() && a[idx] == b[m];
        assert(copied_from(a[idx], own, pages, key));
    }
}

/// Framing a header and a body and splitting the result gives them back: a
/// file written as `+++`, the header, a line `+++`, then the body, splits into
/// that header and that body, provided the header holds no line starting with
/// `+++` (which would close it early).
pub proof fn lemma_frontmatter_round_trip(header: Seq<char>, body: Seq<char>)
    requires
        forall|j: int| !crate::text::occurs_at(header, "\n+++"@, j),
    ensures
        frontmatter_frame("+++"@ + header + "\n+++\n"@ + body) == Ok::<(Option<Seq<char>>, Seq<char>), FrontmatterError>((Some(header), body)),
{
    reveal_strlit("+++");
    reveal_strlit("\n+++");
    reveal_strlit("\n+++\n");
    let c = "+++"@ + header + "\n+++\n"@ + body;
    assert(c[0] == '+');
    assert(without_bom(c) == c);
    assert(c.subrange(0, 3) =~= "+++"@);
    let rest = c.subrange(3, c.len() as int);
    assert(rest =~= header + "\n+++\n"@ + body);
    let e = header.len() as int;
    let close = "\n+++"@;
    assert(rest.subrange(e, e + 4) =~= close);
    assert forall|j: int| 0 <= j < e implies !crate::text::occurs_at(rest, close, j) by {
        if crate::text::occurs_at(rest, close, j) {
            if j + 4 <= e {
                assert(header.subrange(j, j + 4) =~= rest.subrange(j, j + 4));
                assert(crate::text::occurs_at(header, close, j));
            } else {
                let k = e - j;
                assert(rest.subrange(j, j + 4)[k] == rest[e]);
                assert(rest[e] == '\n');
                assert(close[k] == '+');
            }
        }
    }
    assert(is_first_from(rest, close, 0, e));
    let e2 = choose|e2: int| is_first_from(rest, close, 0, e2);
    assert(e2 == e) by {
        if e2 < e {
        } else if e2 > e {
        }
    }
    let b0 = rest.subrange(e + 4, rest.len() as int);
    assert(b0 =~= "\n"@ + body) by {
        reveal_strlit("\n");
    }
    assert(b0[0] == '\n');
    assert(b0.subrange(1, b0.len() as int) =~= body);
    assert(rest.subrange(0, e) =~= header);
}

/// `s` with its first occurrence of `old` replaced by `new` (as
/// `str::replacen(old, new, 1)` gives it).
pub open spec fn replaced_first(s: Seq<char>, old: Seq<char>, new: Seq<char>) -> Seq<char> {
    if exists|e: int| is_first_from(s, old, 0, e) {
        let e = choose|e: int| is_first_from(s, old, 0, e);
        s.subrange(0, e) + new + s.subrange(e + old.len(), s.len() as int)
    } else {
        s
    }
}

/// A permalink moved from the base URL `old` to `new`: the first occurrence
/// of `old` is replaced.
pub fn rebase_permalink(permalink: &str, old: &str, new: &str) -> (r: String)
    ensures
        r@ == replaced_first(permalink@, old@, new@),
{
    let s = chars_of(permalink);
    let o = chars_of(old);
    match find_from(&s, &o, 0) {
        Some(e) => {
            proof {
                assert forall|e2: int| is_first_from(s@, o@, 0, e2) implies e2 == e by {
                    if e2 < e {
                    } else if e2 > e {
                    }
                }
            }
            assert(crate::text::occurs_at(s@, o@, e as int));
            assert(e + o.len() <= s.len());
            let mut out = slice_chars(&s, 0, e);
            push_str(&mut out, new);
            let rest = slice_chars(&s, e + o.len(), s.len());
            crate::text::push_all(&mut out, &rest);
            string_of(&out)
        },
        None => String::from_str(permalink),
    }
}

/// `rel` joined onto `root` as `Path::join` joins them: an absolute `rel`
/// replaces `root`.
pub open spec fn joined_path(root: Seq<char>, rel: Seq<char>) -> Seq<char> {
    if has_prefix(rel, "/"@) || root.len() == 0 {
        rel
    } else if root.last() == '/' {
        root + rel
    } else {
        root + "/"@ + rel
    }
}

/// The output directory: relative to the site root unless it is absolute.
pub fn resolve_output(root: &str, output: &str) -> (r: String)
    ensures
        r@ == joined_path(root@, output@),
{
    let o = chars_of(output);
    let slash = chars_of("/");
    let rv = chars_of(root);
    if matches_at(&o, &slash, 0) || rv.len() == 0 {
        return String::from_str(output);
    }
    let mut out = chars_of(root);
    if rv[rv.len() - 1] != '/' {
        push_str(&mut out, "/");
    }
    push_str(&mut out, output);
    string_of(&out)
}

} // verus!
