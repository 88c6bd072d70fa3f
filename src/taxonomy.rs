//! Taxonomies: the terms that pages list under a taxonomy, and for each
//! term the pages that list it.
use vstd::prelude::*;

use crate::config::SortBy;
use crate::content::{Page, Taxonomy, rel_paths, slugified, slugify, sort_pages, sorted_by, text_less};
use crate::text::{chars_of, lex_lt, push_str, same_chars, str_eq, string_of};

verus! {

/// The terms a page lists under the taxonomy `tax` (its first entry of that name).
pub open spec fn terms_of(t: Seq<Taxonomy>, tax: Seq<char>) -> Seq<Seq<char>>
    decreases t.len(),
{
    if t.len() == 0 {
        Seq::empty()
    } else if t[0].name@ == tax {
        t[0].terms@.map_values(|s: String| s@)
    } else {
        terms_of(t.drop_first(), tax)
    }
}

/// `rel` once for each time `term` occurs in `ts`.
pub open spec fn hits(ts: Seq<Seq<char>>, term: Seq<char>, rel: Seq<char>) -> Seq<Seq<char>>
    decreases ts.len(),
{
    if ts.len() == 0 {
        Seq::empty()
    } else {
        hits(ts.drop_last(), term, rel) + if ts.last() == term { seq![rel] } else { Seq::empty() }
    }
}

/// The relative paths of the pages listing `term` under `tax`, once per listing, in page order.
pub open spec fn tagged(pages: Seq<Page>, tax: Seq<char>, term: Seq<char>) -> Seq<Seq<char>>
    decreases pages.len(),
{
    if pages.len() == 0 {
        Seq::empty()
    } else {
        tagged(pages.drop_last(), tax, term) + hits(terms_of(pages.last().taxonomies@, tax), term, pages.last().relative_path@)
    }
}

/// Some page lists `term` under `tax`.
pub open spec fn is_term(pages: Seq<Page>, tax: Seq<char>, term: Seq<char>) -> bool {
    exists|i: int, j: int| 0 <= i < pages.len() && 0 <= j < terms_of(pages[i].taxonomies@, tax).len()
        && terms_of(pages[i].taxonomies@, tax)[j] == term
}

/// A term of a taxonomy and the pages that list it.
#[derive(Clone, Debug)]
pub struct TaxonomyTerm {
    pub name: String,
    pub slug: String,
    pub permalink: String,
    /// Newest first.
    pub pages: Vec<Page>,
}

fn taxonomy_terms_of(t: &Vec<Taxonomy>, tax: &str) -> (r: Vec<String>)
    ensures
        r@.map_values(|s: String| s@) == terms_of(t@, tax@),
{
    let mut i: usize = 0;
    assert(t@.subrange(0, t@.len() as int) =~= t@);
    while i < t.len()
        invariant
            i <= t.len(),
            terms_of(t@, tax@) == terms_of(t@.subrange(i as int, t@.len() as int), tax@),
        decreases t.len() - i,
    {
        assert(t@.subrange(i as int, t@.len() as int).drop_first() =~= t@.subrange(i + 1, t@.len() as int));
        if str_eq(t[i].name.as_str(), tax) {
            let mut r: Vec<String> = Vec::new();
            let mut k: usize = 0;
            while k < t[i].terms.len()
                invariant
                    i < t.len(),
                    k <= t@[i as int].terms@.len(),
                    r@.map_values(|s: String| s@) == t@[i as int].terms@.map_values(|s: String| s@).subrange(0, k as int),
                decreases t@[i as int].terms@.len() - k,
            {
                let x = t[i].terms[k].clone();
                let ghost pre = r@;
                r.push(x);
                assert(r@.map_values(|s: String| s@) =~= pre.map_values(|s: String| s@).push(x@));
                k = k + 1;
                assert(r@.map_values(|s: String| s@) =~= t@[i as int].terms@.map_values(|s: String| s@).subrange(0, k as int));
            }
            assert(t@[i as int].terms@.map_values(|s: String| s@).subrange(0, k as int) =~= t@[i as int].terms@.map_values(|s: String| s@));
            return r;
        }
        i = i + 1;
    }
    Vec::new()
}

fn name_before(a: &String, b: &Vec<char>) -> (r: bool)
    ensures
        r == lex_lt(a@, b@),
{
    let x = chars_of(a.as_str());
    text_less(&x, b)
}

/// Some string of `s` reads `x`.
pub open spec fn lists(s: Seq<String>, x: Seq<char>) -> bool {
    exists|k: int| 0 <= k < s.len() && #[trigger] s[k]@ == x
}

proof fn lemma_lists_push(s: Seq<String>, y: String, x: Seq<char>)
    ensures
        lists(s.push(y), x) <==> (lists(s, x) || y@ == x),
{
    let t = s.push(y);
    if lists(t, x) {
        let k = choose|k: int| 0 <= k < t.len() && #[trigger] t[k]@ == x;
        if k < s.len() {
            assert(s[k]@ == x);
        }
    }
    if lists(s, x) {
        let k = choose|k: int| 0 <= k < s.len() && #[trigger] s[k]@ == x;
        assert(t[k]@ == x);
    }
    if y@ == x {
        assert(t[s.len() as int]@ == x);
    }
}

/// Inserts `name` into the strictly ordered `names` unless it is there.
fn insert_sorted(names: &mut Vec<String>, name: String)
    requires
        forall|a: int, b: int| 0 <= a < b < old(names)@.len() ==> lex_lt(old(names)@[a]@, old(names)@[b]@),
    ensures
        forall|a: int, b: int| 0 <= a < b < final(names)@.len() ==> lex_lt(final(names)@[a]@, final(names)@[b]@),
        forall|x: Seq<char>| #[trigger] lists(final(names)@, x) <==> (x == name@ || lists(old(names)@, x)),
{
    let nv = chars_of(name.as_str());
    let mut pos: usize = 0;
    while pos < names.len() && name_before(&names[pos], &nv)
        invariant
            pos <= names@.len(),
            nv@ == name@,
            forall|k: int| 0 <= k < pos ==> lex_lt(names@[k]@, name@),
        decreases names@.len() - pos,
    {
        pos = pos + 1;
    }
    if pos < names.len() {
        let cur = chars_of(names[pos].as_str());
        if same_chars(&cur, &nv) {
            assert(lists(names@, name@)) by {
                assert(names@[pos as int]@ == name@);
            }
            return;
        }
        proof {
            crate::text::lemma_lex_total(names@[pos as int]@, name@);
        }
    }
    let ghost before = names@;
    proof {
        assert forall|j: int| pos <= j < before.len() implies lex_lt(name@, before[j]@) by {
            if j > pos {
                crate::text::lemma_lex_transitive(name@, before[pos as int]@, before[j]@);
            }
        }
    }
    names.insert(pos, name);
    proof {
        assert forall|a: int, b: int| 0 <= a < b < names@.len() implies lex_lt(names@[a]@, names@[b]@) by {
            if b < pos {
            } else if b == pos {
            } else if a < pos {
                crate::text::lemma_lex_transitive(names@[a]@, name@, names@[b]@);
            } else if a == pos {
            } else {
            }
        }
        assert(names@ == before.insert(pos as int, name));
        assert forall|x: Seq<char>| #[trigger] lists(names@, x) <==> (x == name@ || lists(before, x)) by {
            if lists(names@, x) {
                let k = choose|k: int| 0 <= k < names@.len() && #[trigger] names@[k]@ == x;
                if k < pos {
                    assert(before[k]@ == x);
                } else if k > pos {
                    assert(before[k - 1]@ == x);
                }
            }
            if x == name@ {
                assert(names@[pos as int]@ == x);
            } else if lists(before, x) {
                let k = choose|k: int| 0 <= k < before.len() && #[trigger] before[k]@ == x;
                if k < pos {
                    assert(names@[k]@ == x);
                } else {
                    assert(names@[k + 1]@ == x);
                }
            }
        }
    }
}

/// The sorted, distinct terms that the pages list under `tax`.
fn term_names(pages: &Vec<Page>, tax: &str) -> (r: Vec<String>)
    ensures
        forall|a: int, b: int| 0 <= a < b < r@.len() ==> lex_lt(r@[a]@, r@[b]@),
        forall|x: Seq<char>| #[trigger] lists(r@, x) <==> is_term(pages@, tax@, x),
{
    let mut names: Vec<String> = Vec::new();
    let mut i: usize = 0;
    while i < pages.len()
        invariant
            i <= pages@.len(),
            forall|a: int, b: int| 0 <= a < b < names@.len() ==> lex_lt(names@[a]@, names@[b]@),
            forall|x: Seq<char>| #[trigger] lists(names@, x) <==> is_term(pages@.subrange(0, i as int), tax@, x),
        decreases pages@.len() - i,
    {
        let ts = taxonomy_terms_of(&pages[i].taxonomies, tax);
        let ghost tv = ts@.map_values(|s: String| s@);
        let mut k: usize = 0;
        while k < ts.len()
            invariant
                i < pages@.len(),
                k <= ts@.len(),
                tv == ts@.map_values(|s: String| s@),
                forall|a: int, b: int| 0 <= a < b < names@.len() ==> lex_lt(names@[a]@, names@[b]@),
                forall|x: Seq<char>| #[trigger] lists(names@, x) <==> (is_term(pages@.subrange(0, i as int), tax@, x)
                    || lists(ts@.subrange(0, k as int), x)),
            decreases ts@.len() - k,
        {
            let ghost pre = names@;
            insert_sorted(&mut names, ts[k].clone());
            proof {
                assert(ts@.subrange(0, k + 1) =~= ts@.subrange(0, k as int).push(ts@[k as int]));
                assert forall|x: Seq<char>| #[trigger] lists(ts@.subrange(0, k + 1), x) <==> (lists(ts@.subrange(0, k as int), x) || x == ts@[k as int]@) by {
                    lemma_lists_push(ts@.subrange(0, k as int), ts@[k as int], x);
                }
                assert forall|x: Seq<char>| #[trigger] lists(names@, x) <==> (is_term(pages@.subrange(0, i as int), tax@, x)
                    || lists(ts@.subrange(0, k + 1), x)) by {
                    assert(lists(names@, x) <==> (x == ts@[k as int]@ || lists(pre, x)));
                }
            }
            k = k + 1;
        }
        proof {
            let pi = pages@.subrange(0, i as int);
            let pn = pages@.subrange(0, i + 1);
            let t = terms_of(pages@[i as int].taxonomies@, tax@);
            assert(ts@.subrange(0, k as int) =~= ts@);
            assert forall|x: Seq<char>| #[trigger] is_term(pn, tax@, x) <==> (is_term(pi, tax@, x) || lists(ts@, x)) by {
                if is_term(pn, tax@, x) {
                    let (a, j) = choose|a: int, j: int| 0 <= a < pn.len() && 0 <= j < terms_of(pn[a].taxonomies@, tax@).len()
                        && terms_of(pn[a].taxonomies@, tax@)[j] == x;
                    if a < i {
                        assert(pi[a] == pn[a]);
                        assert(is_term(pi, tax@, x));
                    } else {
                        assert(pn[a] == pages@[i as int]);
                        assert(tv[j] == x);
                        assert(ts@[j]@ == x);
                    }
                }
                if is_term(pi, tax@, x) {
                    let (a, j) = choose|a: int, j: int| 0 <= a < pi.len() && 0 <= j < terms_of(pi[a].taxonomies@, tax@).len()
                        && terms_of(pi[a].taxonomies@, tax@)[j] == x;
                    assert(pn[a] == pi[a]);
                    assert(is_term(pn, tax@, x));
                }
                if lists(ts@, x) {
                    let j = choose|j: int| 0 <= j < ts@.len() && #[trigger] ts@[j]@ == x;
                    assert(tv[j] == x);
                    assert(pn[i as int] == pages@[i as int]);
                    assert(terms_of(pn[i as int].taxonomies@, tax@)[j] == x);
                    assert(is_term(pn, tax@, x));
                }
            }
        }
        i = i + 1;
    }
    proof {
        assert(pages@.subrange(0, pages@.len() as int) =~= pages@);
    }
    names
}

/// Copies of the pages that list `term` under `tax`, once per listing, in page order.
fn pages_tagged(pages: &Vec<Page>, tax: &str, term: &str) -> (r: Vec<Page>)
    ensures
        rel_paths(r@) == tagged(pages@, tax@, term@),
{
    let mut out: Vec<Page> = Vec::new();
    let mut i: usize = 0;
    while i < pages.len()
        invariant
            i <= pages@.len(),
            rel_paths(out@) == tagged(pages@.subrange(0, i as int), tax@, term@),
        decreases pages@.len() - i,
    {
        let ts = taxonomy_terms_of(&pages[i].taxonomies, tax);
        let ghost tv = ts@.map_values(|s: String| s@);
        let ghost base = rel_paths(out@);
        let mut k: usize = 0;
        while k < ts.len()
            invariant
                i < pages@.len(),
                k <= ts@.len(),
                tv == ts@.map_values(|s: String| s@),
                tv == terms_of(pages@[i as int].taxonomies@, tax@),
                rel_paths(out@) == base + hits(tv.subrange(0, k as int), term@, pages@[i as int].relative_path@),
            decreases ts@.len() - k,
        {
            assert(tv.subrange(0, k + 1).drop_last() =~= tv.subrange(0, k as int));
            assert(tv.subrange(0, k + 1).last() == ts@[k as int]@);
            if str_eq(ts[k].as_str(), term) {
                let d = pages[i].duplicate();
                let ghost pre = out@;
                out.push(d);
                assert(rel_paths(out@) =~= rel_paths(pre).push(d.relative_path@));
                assert(rel_paths(out@) =~= base + hits(tv.subrange(0, k + 1), term@, pages@[i as int].relative_path@));
            } else {
                assert(rel_paths(out@) =~= base + hits(tv.subrange(0, k + 1), term@, pages@[i as int].relative_path@));
            }
            k = k + 1;
        }
        assert(tv.subrange(0, k as int) =~= tv);
        assert(pages@.subrange(0, i + 1).drop_last() =~= pages@.subrange(0, i as int));
        assert(pages@.subrange(0, i + 1).last() == pages@[i as int]);
        i = i + 1;
    }
    assert(pages@.subrange(0, pages@.len() as int) =~= pages@);
    out
}

/// The URL of a taxonomy term's page under the site's base URL.
pub open spec fn term_permalink(base_url: Seq<char>, tax: Seq<char>, slug: Seq<char>) -> Seq<char> {
    base_url + "/"@ + tax + "/"@ + slug + "/"@
}

/// The terms of the taxonomy `tax` over all pages, by name, each with its
/// slug, its permalink and the pages that list it, newest first.
pub fn collect_taxonomy_terms(pages: &Vec<Page>, tax: &str, base_url: &str) -> (r: Vec<TaxonomyTerm>)
    ensures
        forall|a: int, b: int| 0 <= a < b < r@.len() ==> lex_lt(r@[a].name@, r@[b].name@),
        forall|x: Seq<char>| is_term(pages@, tax@, x) <==> exists|i: int| 0 <= i < r@.len() && #[trigger] r@[i].name@ == x,
        forall|i: int| 0 <= i < r@.len() ==> rel_paths(#[trigger] r@[i].pages@).to_multiset()
            == tagged(pages@, tax@, r@[i].name@).to_multiset(),
        forall|i: int| 0 <= i < r@.len() ==> sorted_by(#[trigger] r@[i].pages@, SortBy::Date),
        forall|i: int| 0 <= i < r@.len() ==> #[trigger] r@[i].slug@ == slugified(r@[i].name@)
            && r@[i].permalink@ == term_permalink(base_url@, tax@, r@[i].slug@),
{
    let names = term_names(pages, tax);
    let mut out: Vec<TaxonomyTerm> = Vec::new();
    let mut i: usize = 0;
    while i < names.len()
        invariant
            i <= names@.len(),
            out@.len() == i,
            forall|a: int, b: int| 0 <= a < b < names@.len() ==> lex_lt(names@[a]@, names@[b]@),
            forall|x: Seq<char>| #[trigger] lists(names@, x) <==> is_term(pages@, tax@, x),
            forall|k: int| 0 <= k < i ==> #[trigger] out@[k].name@ == names@[k]@,
            forall|k: int| 0 <= k < i ==> rel_paths(#[trigger] out@[k].pages@).to_multiset()
                == tagged(pages@, tax@, out@[k].name@).to_multiset(),
            forall|k: int| 0 <= k < i ==> sorted_by(#[trigger] out@[k].pages@, SortBy::Date),
            forall|k: int| 0 <= k < i ==> #[trigger] out@[k].slug@ == slugified(out@[k].name@)
                && out@[k].permalink@ == term_permalink(base_url@, tax@, out@[k].slug@),
        decreases names@.len() - i,
    {
        let name = names[i].clone();
        let mut ps = pages_tagged(pages, tax, name.as_str());
        sort_pages(&mut ps, SortBy::Date);
        let slug = slugify(name.as_str());
        let mut link = chars_of(base_url);
        push_str(&mut link, "/");
        push_str(&mut link, tax);
        push_str(&mut link, "/");
        push_str(&mut link, slug.as_str());
        push_str(&mut link, "/");
        let permalink = string_of(&link);
        out.push(TaxonomyTerm { name, slug, permalink, pages: ps });
        i = i + 1;
    }
    proof {
        assert forall|x: Seq<char>| is_term(pages@, tax@, x) <==> exists|i: int| 0 <= i < out@.len() && #[trigger] out@[i].name@ == x by {
            if is_term(pages@, tax@, x) {
                assert(lists(names@, x));
                let k = choose|k: int| 0 <= k < names@.len() && #[trigger] names@[k]@ == x;
                assert(out@[k].name@ == x);
            }
            if exists|i: int| 0 <= i < out@.len() && #[trigger] out@[i].name@ == x {
                let k = choose|k: int| 0 <= k < out@.len() && #[trigger] out@[k].name@ == x;
                assert(names@[k]@ == x);
                assert(lists(names@, x));
            }
        }
        assert forall|a: int, b: int| 0 <= a < b < out@.len() implies lex_lt(out@[a].name@, out@[b].name@) by {
            assert(out@[a].name@ == names@[a]@);
            assert(out@[b].name@ == names@[b]@);
        }
    }
    out
}

} // verus!
