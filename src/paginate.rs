//! Pagination of a section's page list: how many pagers, which pages each
//! holds, and the permalinks between them.
use vstd::prelude::*;

use crate::text::{chars_of, decimal, decimal_chars, push_all, push_str, string_of};

verus! {

/// One pager of a paginated section.
#[derive(Clone, Debug)]
pub struct Paginator {
    /// 1-based position of this pager.
    pub current_index: usize,
    pub number_pagers: usize,
    /// The pager holds the section's pages from `start` up to `end` (exclusive).
    pub start: usize,
    pub end: usize,
    pub previous: Option<String>,
    pub next: Option<String>,
    pub first: String,
    pub last: String,
}

/// Number of pagers: the ceiling of `total / per_page`, and at least one.
pub open spec fn pager_count(total: nat, per_page: nat) -> nat
    recommends
        per_page > 0,
{
    let n = if total % per_page == 0 { total / per_page } else { total / per_page + 1 };
    if n == 0 { 1 } else { n }
}

/// The permalink of pager `n` (1-based) beyond the first.
pub open spec fn pager_link(permalink: Seq<char>, n: nat) -> Seq<char> {
    permalink + "page/"@ + decimal(n) + "/"@
}

/// Pager `k` (0-based) of a section of `total` pages, `per_page` to a pager.
pub open spec fn is_pager(p: Paginator, k: nat, total: nat, per_page: nat, permalink: Seq<char>) -> bool {
    let n = pager_count(total, per_page);
    &&& p.current_index == k + 1
    &&& p.number_pagers == n
    &&& p.start == k * per_page
    &&& p.end == if k * per_page + per_page <= total { k * per_page + per_page } else { total }
    &&& match p.previous {
        Some(s) => k > 0 && s@ == if k == 1 { permalink } else { pager_link(permalink, k) },
        None => k == 0,
    }
    &&& match p.next {
        Some(s) => k + 1 < n && s@ == pager_link(permalink, k + 2),
        None => k + 1 >= n,
    }
    &&& p.first@ == permalink
    &&& p.last@ == if n > 1 { pager_link(permalink, n) } else { permalink }
}

fn link_to(permalink: &str, n: usize) -> (r: String)
    ensures
        r@ == pager_link(permalink@, n as nat),
{
    let mut out = chars_of(permalink);
    push_str(&mut out, "page/");
    let d = decimal_chars(n);
    push_all(&mut out, &d);
    push_str(&mut out, "/");
    string_of(&out)
}

/// The pagers of a section with `total` pages, `per_page` to a pager, whose
/// first pager lives at `permalink`; later pagers live at `{permalink}page/{n}/`.
pub fn paginate(total: usize, per_page: usize, permalink: &str) -> (r: Vec<Paginator>)
    requires
        per_page > 0,
    ensures
        r@.len() == pager_count(total as nat, per_page as nat),
        forall|k: int| 0 <= k < r@.len() ==> is_pager(#[trigger] r@[k], k as nat, total as nat, per_page as nat, permalink@),
{
    let q = total / per_page;
    proof {
        if total % per_page != 0 {
            assert(per_page >= 2);
            assert(q * 2 <= q * per_page) by (nonlinear_arith)
                requires per_page >= 2;
            assert(q * per_page <= total) by (nonlinear_arith)
                requires q == total / per_page, per_page > 0;
        }
    }
    let n: usize = if total % per_page == 0 { q } else { q + 1 };
    let n: usize = if n == 0 { 1 } else { n };
    proof {
        assert(q * per_page <= total) by (nonlinear_arith)
            requires q == total / per_page, per_page > 0;
    }
    let mut out: Vec<Paginator> = Vec::new();
    let mut k: usize = 0;
    let mut start: usize = 0;
    while k < n
        invariant
            n == pager_count(total as nat, per_page as nat),
            per_page > 0,
            q == total / per_page,
            q * per_page <= total,
            n <= q + 1,
            total % per_page == 0 && q > 0 ==> n == q,
            q == 0 ==> n == 1,
            k <= n,
            out@.len() == k,
            k < n ==> start == k * per_page,
            k < n ==> start <= total,
            forall|j: int| 0 <= j < k ==> is_pager(#[trigger] out@[j], j as nat, total as nat, per_page as nat, permalink@),
        decreases n - k,
    {
        let end = if total - start >= per_page { start + per_page } else { total };
        let previous = if k == 0 {
            None
        } else if k == 1 {
            Some(String::from_str(permalink))
        } else {
            Some(link_to(permalink, k))
        };
        let next = if k + 1 < n {
            Some(link_to(permalink, k + 2))
        } else {
            None
        };
        let last = if n > 1 { link_to(permalink, n) } else { String::from_str(permalink) };
        let p = Paginator {
            current_index: k + 1,
            number_pagers: n,
            start,
            end,
            previous,
            next,
            first: String::from_str(permalink),
            last,
        };
        out.push(p);
        proof {
            assert(out@[k as int] == p);
            assert((k + 1) * per_page == k * per_page + per_page) by (nonlinear_arith);
            if k + 1 < n {
                assert(q > 0);
                assert(k + 1 <= q);
                assert((k + 1) * per_page <= q * per_page) by (nonlinear_arith)
                    requires
                        k + 1 <= q,
                        per_page > 0,
                ;
            }
        }
        if k + 1 < n {
            start = start + per_page;
        }
        k = k + 1;
        proof {
            if k < n {
                assert(start == k * per_page);
            }
        }
    }
    out
}

} // verus!
