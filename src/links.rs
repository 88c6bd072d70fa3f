//! Internal links: `@/path/to/file.md` (with an optional `#fragment`) in raw
//! Markdown, rewritten to the permalink of the page or section at that path.
use vstd::prelude::*;

use crate::content::{Page, Section};
use crate::pattern::{Piece, scan, regex_compiles, regex_pieces, joined, group, group_text};
use crate::text::{push_str, str_eq, string_of};

verus! {

/// An internal link: the content-relative path, then an optional fragment.
pub const INTERNAL_LINK_PATTERN: &'static str = "@/([^)#\\s]+\\.md)(#[^)\\s]+)?";

/// Why internal links could not be resolved.
#[derive(Clone, Debug)]
pub enum LinkError {
    /// The paths, in order of appearance, that name no page or section.
    Unresolved(Vec<String>),
    /// The link pattern could not be compiled.
    Pattern,
}

/// The permalink of the first page at `path`, else of the first section there.
pub open spec fn link_target(pages: Seq<Page>, sections: Seq<Section>, path: Seq<char>) -> Option<Seq<char>> {
    if exists|i: int| 0 <= i < pages.len() && pages[i].relative_path@ == path {
        let i = choose|i: int| 0 <= i < pages.len() && pages[i].relative_path@ == path
            && forall|j: int| 0 <= j < i ==> pages[j].relative_path@ != path;
        Some(pages[i].permalink@)
    } else if exists|i: int| 0 <= i < sections.len() && sections[i].relative_path@ == path {
        let i = choose|i: int| 0 <= i < sections.len() && sections[i].relative_path@ == path
            && forall|j: int| 0 <= j < i ==> sections[j].relative_path@ != path;
        Some(sections[i].permalink@)
    } else {
        None
    }
}

pub open spec fn text_of(t: Option<Seq<char>>) -> Seq<char> {
    match t {
        Some(s) => s,
        None => Seq::empty(),
    }
}

/// What a piece becomes: text stays; a link becomes its target's permalink
/// followed by its fragment, or stays as written when nothing is at its path.
pub open spec fn resolved_piece(p: Piece, pages: Seq<Page>, sections: Seq<Section>) -> Seq<char> {
    match p {
        Piece::Text(t) => t@,
        Piece::Found(c) => match group_text(c, 1) {
            None => c.whole@,
            Some(path) => match link_target(pages, sections, path) {
                Some(link) => link + text_of(group_text(c, 2)),
                None => "@/"@ + path + text_of(group_text(c, 2)),
            },
        },
    }
}

pub open spec fn resolved_text(ps: Seq<Piece>, pages: Seq<Page>, sections: Seq<Section>) -> Seq<char>
    decreases ps.len(),
{
    if ps.len() == 0 {
        Seq::empty()
    } else {
        resolved_text(ps.drop_last(), pages, sections) + resolved_piece(ps.last(), pages, sections)
    }
}

/// The paths of the links among `ps` that name nothing, in order.
pub open spec fn unresolved(ps: Seq<Piece>, pages: Seq<Page>, sections: Seq<Section>) -> Seq<Seq<char>>
    decreases ps.len(),
{
    if ps.len() == 0 {
        Seq::empty()
    } else {
        let prev = unresolved(ps.drop_last(), pages, sections);
        match ps.last() {
            Piece::Found(c) => match group_text(c, 1) {
                Some(path) => if link_target(pages, sections, path) is None { prev.push(path) } else { prev },
                None => prev,
            },
            Piece::Text(_) => prev,
        }
    }
}

fn find_target(pages: &Vec<Page>, sections: &Vec<Section>, path: &str) -> (r: Option<String>)
    ensures
        match r {
            Some(t) => link_target(pages@, sections@, path@) == Some(t@),
            None => link_target(pages@, sections@, path@) is None,
        },
{
    let mut i: usize = 0;
    while i < pages.len()
        invariant
            i <= pages.len(),
            forall|j: int| 0 <= j < i ==> pages@[j].relative_path@ != path@,
        decreases pages.len() - i,
    {
        if str_eq(pages[i].relative_path.as_str(), path) {
            proof {
                let k = choose|k: int| 0 <= k < pages@.len() && pages@[k].relative_path@ == path@
                    && forall|j: int| 0 <= j < k ==> pages@[j].relative_path@ != path@;
                assert(k == i) by {
                    if k < i {
                    } else if k > i {
                    }
                }
            }
            return Some(pages[i].permalink.clone());
        }
        i = i + 1;
    }
    let mut i: usize = 0;
    while i < sections.len()
        invariant
            i <= sections.len(),
            forall|j: int| 0 <= j < pages@.len() ==> pages@[j].relative_path@ != path@,
            forall|j: int| 0 <= j < i ==> sections@[j].relative_path@ != path@,
        decreases sections.len() - i,
    {
        if str_eq(sections[i].relative_path.as_str(), path) {
            proof {
                let k = choose|k: int| 0 <= k < sections@.len() && sections@[k].relative_path@ == path@
                    && forall|j: int| 0 <= j < k ==> sections@[j].relative_path@ != path@;
                assert(k == i) by {
                    if k < i {
                    } else if k > i {
                    }
                }
            }
            return Some(sections[i].permalink.clone());
        }
        i = i + 1;
    }
    None
}

/// Rewrites the internal links of `content` to permalinks, looking each path
/// up among the pages first and then the sections. Every link that names
/// nothing is collected, and then all of them are reported together.
pub fn resolve_internal_links(content: &str, pages: &Vec<Page>, sections: &Vec<Section>) -> (r: Result<String, LinkError>)
    ensures
        match r {
            Ok(t) => {
                let ps = regex_pieces(INTERNAL_LINK_PATTERN@, content@);
                joined(ps) == content@ && unresolved(ps, pages@, sections@).len() == 0
                    && t@ == resolved_text(ps, pages@, sections@)
            },
            Err(LinkError::Unresolved(list)) => {
                let ps = regex_pieces(INTERNAL_LINK_PATTERN@, content@);
                joined(ps) == content@ && unresolved(ps, pages@, sections@).len() > 0
                    && list@.map_values(|s: String| s@) == unresolved(ps, pages@, sections@)
            },
            Err(LinkError::Pattern) => !regex_compiles(INTERNAL_LINK_PATTERN@),
        },
{
    let ps = match scan(INTERNAL_LINK_PATTERN, content) {
        Some(p) => p,
        None => {
            return Err(LinkError::Pattern);
        },
    };
    let mut out: Vec<char> = Vec::new();
    let mut missing: Vec<String> = Vec::new();
    let mut i: usize = 0;
    while i < ps.len()
        invariant
            i <= ps.len(),
            out@ == resolved_text(ps@.subrange(0, i as int), pages@, sections@),
            missing@.map_values(|s: String| s@) == unresolved(ps@.subrange(0, i as int), pages@, sections@),
        decreases ps.len() - i,
    {
        assert(ps@.subrange(0, i + 1).drop_last() =~= ps@.subrange(0, i as int));
        assert(ps@.subrange(0, i + 1).last() == ps@[i as int]);
        let ghost pre_missing = missing@;
        match &ps[i] {
            Piece::Text(t) => {
                push_str(&mut out, t.as_str());
            },
            Piece::Found(c) => {
                match group(c, 1) {
                    None => {
                        push_str(&mut out, c.whole.as_str());
                    },
                    Some(path) => {
                        let anchor = match group(c, 2) {
                            Some(a) => a,
                            None => String::new(),
                        };
                        match find_target(pages, sections, path.as_str()) {
                            Some(link) => {
                                push_str(&mut out, link.as_str());
                                push_str(&mut out, anchor.as_str());
                            },
                            None => {
                                push_str(&mut out, "@/");
                                push_str(&mut out, path.as_str());
                                push_str(&mut out, anchor.as_str());
                                missing.push(path);
                                assert(missing@.map_values(|s: String| s@) =~= pre_missing.map_values(|s: String| s@).push(path@));
                            },
                        }
                    },
                }
            },
        }
        i = i + 1;
    }
    assert(ps@.subrange(0, ps.len() as int) =~= ps@);
    if missing.len() > 0 {
        Err(LinkError::Unresolved(missing))
    } else {
        Ok(string_of(&out))
    }
}

} // verus!
