//! Regular-expression scanning: a text cut into the stretches between matches
//! and the matches themselves.
use vstd::prelude::*;

verus! {

/// One match, with the text of each capture group (group 0 is the match).
#[derive(Clone, Debug)]
pub struct Captured {
    pub whole: String,
    pub groups: Vec<Option<String>>,
}

/// A stretch of text between matches, or a match.
#[derive(Clone, Debug)]
pub enum Piece {
    Text(String),
    Found(Captured),
}

/// `pattern` is a regular expression that the regex crate accepts.
pub uninterp spec fn regex_compiles(pattern: Seq<char>) -> bool;

/// The pieces that the regex crate cuts `s` into for `pattern`.
pub uninterp spec fn regex_pieces(pattern: Seq<char>, s: Seq<char>) -> Seq<Piece>;

/// The text a piece stands for in the scanned string.
pub open spec fn piece_text(p: Piece) -> Seq<char> {
    match p {
        Piece::Text(t) => t@,
        Piece::Found(c) => c.whole@,
    }
}

/// The pieces put back together.
pub open spec fn joined(ps: Seq<Piece>) -> Seq<char>
    decreases ps.len(),
{
    if ps.len() == 0 {
        Seq::empty()
    } else {
        joined(ps.drop_last()) + piece_text(ps.last())
    }
}

/// Some piece is a match.
pub open spec fn has_match(ps: Seq<Piece>) -> bool {
    exists|i: int| 0 <= i < ps.len() && ps[i] is Found
}

/// Relies on `regex::Regex::new` (whether `pattern` compiles) and
/// `regex::Regex::captures_iter`: the matches of `pattern` in `s`, left to
/// right and not overlapping, with the text before, between and after them.
#[verifier::external_body]
pub(crate) fn scan(pattern: &str, s: &str) -> (r: Option<Vec<Piece>>)
    ensures
        match r {
            Some(ps) => regex_compiles(pattern@) && ps@ == regex_pieces(pattern@, s@) && joined(ps@) == s@,
            None => !regex_compiles(pattern@),
        },
{
    let re = regex::Regex::new(pattern).ok()?;
    let mut out = Vec::new();
    let mut last: usize = 0;
    for caps in re.captures_iter(s) {
        let m = caps.get_match();
        out.push(Piece::Text(s[last..m.start()].to_string()));
        let groups = caps.iter().map(|g| g.map(|x| x.as_str().to_string())).collect();
        out.push(Piece::Found(Captured { whole: m.as_str().to_string(), groups }));
        last = m.end();
    }
    out.push(Piece::Text(s[last..].to_string()));
    Some(out)
}

/// The text of capture group `i` of a match, if it took part.
pub open spec fn group_text(c: Captured, i: int) -> Option<Seq<char>> {
    if 0 <= i < c.groups@.len() {
        match c.groups@[i] {
            Some(t) => Some(t@),
            None => None,
        }
    } else {
        None
    }
}

/// The text of capture group `i`, if it took part.
pub fn group(c: &Captured, i: usize) -> (r: Option<String>)
    ensures
        match r {
            Some(t) => group_text(*c, i as int) == Some(t@),
            None => group_text(*c, i as int) is None,
        },
{
    if i < c.groups.len() {
        match &c.groups[i] {
            Some(t) => Some(t.clone()),
            None => None,
        }
    } else {
        None
    }
}

} // verus!
