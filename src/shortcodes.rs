//! Shortcode expansion over raw Markdown: block forms
//! `{% name(k="v") %}body{% end %}` first, then inline forms `{{ name(k="v") }}`.
//! `tabs` is built in; `include` and template-backed shortcodes need files and
//! are handed to the caller as requests.
use vstd::prelude::*;

use crate::pattern::{Captured, Piece, scan, regex_compiles, regex_pieces, joined, group, group_text, has_match};
use crate::text::{
    chars_of, string_of, push_all, push_str, slice_chars, find_from, matches_at, trimmed,
    trimmed_start, trim, trim_start, split_on, split_text, has_prefix, is_first_from, decimal,
    decimal_chars, str_eq,
};

verus! {

/// Block shortcodes: name, argument list, body.
pub const BLOCK_PATTERN: &'static str = "(?s)\\{%\\s*(\\w+)\\s*\\(((?:[^)\"']|\"[^\"]*\"|'[^']*')*)\\)\\s*%\\}(.*?)\\{%\\s*end\\s*%\\}";

/// Inline shortcodes: name, argument list.
pub const INLINE_PATTERN: &'static str = "\\{\\{\\s*(\\w+)\\s*\\(((?:[^)\"']|\"[^\"]*\"|'[^']*')*)\\)\\s*\\}\\}";

/// `key="value"` arguments.
pub const DOUBLE_ARG_PATTERN: &'static str = "(\\w+)\\s*=\\s*\"([^\"]*)\"";

/// `key='value'` arguments.
pub const SINGLE_ARG_PATTERN: &'static str = "(\\w+)\\s*=\\s*'([^']*)'";

/// The marker that separates the panels of a `tabs` body.
pub const TAB_MARKER: &'static str = "<!-- tab -->";

/// Passes of block expansion, enough for shortcodes nested this deep.
pub const MAX_BLOCK_PASSES: usize = 10;

/// The map that a list of entries gives, later entries winning.
pub open spec fn entries_map(s: Seq<(String, String)>) -> Map<Seq<char>, Seq<char>>
    decreases s.len(),
{
    if s.len() == 0 {
        Map::empty()
    } else {
        entries_map(s.drop_last()).insert(s.last().0@, s.last().1@)
    }
}

/// Parsed shortcode arguments.
#[derive(Clone, Debug)]
pub struct ShortcodeArgs {
    pub entries: Vec<(String, String)>,
}

impl View for ShortcodeArgs {
    type V = Map<Seq<char>, Seq<char>>;

    open spec fn view(&self) -> Map<Seq<char>, Seq<char>> {
        entries_map(self.entries@)
    }
}

proof fn lemma_entries_tail(s: Seq<(String, String)>, j: int, k: Seq<char>)
    requires
        0 <= j <= s.len(),
        forall|i: int| j <= i < s.len() ==> s[i].0@ != k,
    ensures
        entries_map(s).contains_key(k) == entries_map(s.subrange(0, j)).contains_key(k),
        entries_map(s).contains_key(k) ==> entries_map(s)[k] == entries_map(s.subrange(0, j))[k],
    decreases s.len(),
{
    if s.len() == j {
        assert(s.subrange(0, j) =~= s);
    } else {
        lemma_entries_tail(s.drop_last(), j, k);
        assert(s.drop_last().subrange(0, j) =~= s.subrange(0, j));
    }
}

impl ShortcodeArgs {
    /// No arguments.
    pub fn new() -> (r: ShortcodeArgs)
        ensures
            r@ == Map::<Seq<char>, Seq<char>>::empty(),
    {
        ShortcodeArgs { entries: Vec::new() }
    }

    /// Sets `key` to `value`.
    pub fn insert(&mut self, key: String, value: String)
        ensures
            final(self)@ == old(self)@.insert(key@, value@),
    {
        let ghost pre = self.entries@;
        self.entries.push((key, value));
        assert(self.entries@.drop_last() =~= pre);
    }

    /// The value of `key`.
    pub fn get(&self, key: &str) -> (r: Option<String>)
        ensures
            match r {
                Some(v) => self@.contains_key(key@) && self@[key@] == v@,
                None => !self@.contains_key(key@),
            },
    {
        let k = chars_of(key);
        let mut j: usize = self.entries.len();
        while j > 0
            invariant
                j <= self.entries@.len(),
                k@ == key@,
                forall|i: int| j <= i < self.entries@.len() ==> self.entries@[i].0@ != key@,
            decreases j,
        {
            let e = chars_of(self.entries[j - 1].0.as_str());
            if e.len() == k.len() && matches_at(&e, &k, 0) {
                proof {
                    assert(e@.subrange(0, k@.len() as int) =~= e@);
                    lemma_entries_tail(self.entries@, j as int, key@);
                    assert(self.entries@.subrange(0, j as int).drop_last() =~= self.entries@.subrange(0, j - 1));
                }
                return Some(self.entries[j - 1].1.clone());
            }
            proof {
                if e@ == k@ {
                    assert(e@.subrange(0, k@.len() as int) =~= e@);
                }
            }
            j = j - 1;
        }
        proof {
            lemma_entries_tail(self.entries@, 0, key@);
            assert(self.entries@.subrange(0, 0) =~= Seq::<(String, String)>::empty());
        }
        None
    }
}

/// The `(key, value)` pairs that the argument matches capture, in order.
pub open spec fn pairs_of(ps: Seq<Piece>) -> Seq<(Seq<char>, Seq<char>)>
    decreases ps.len(),
{
    if ps.len() == 0 {
        Seq::empty()
    } else {
        let prev = pairs_of(ps.drop_last());
        match ps.last() {
            Piece::Found(c) => match (group_text(c, 1), group_text(c, 2)) {
                (Some(k), Some(v)) => prev.push((k, v)),
                _ => prev,
            },
            Piece::Text(_) => prev,
        }
    }
}

/// `m` with every pair set, later pairs winning.
pub open spec fn overwrite_all(m: Map<Seq<char>, Seq<char>>, pairs: Seq<(Seq<char>, Seq<char>)>) -> Map<Seq<char>, Seq<char>>
    decreases pairs.len(),
{
    if pairs.len() == 0 {
        m
    } else {
        overwrite_all(m, pairs.drop_last()).insert(pairs.last().0, pairs.last().1)
    }
}

/// `m` with every pair whose key is not yet set added, earlier pairs winning.
pub open spec fn keep_first(m: Map<Seq<char>, Seq<char>>, pairs: Seq<(Seq<char>, Seq<char>)>) -> Map<Seq<char>, Seq<char>>
    decreases pairs.len(),
{
    if pairs.len() == 0 {
        m
    } else {
        let prev = keep_first(m, pairs.drop_last());
        if prev.contains_key(pairs.last().0) {
            prev
        } else {
            prev.insert(pairs.last().0, pairs.last().1)
        }
    }
}

/// Arguments from double-quoted matches (the last of a key wins) and then
/// single-quoted ones for keys not yet set (the first wins).
pub open spec fn parsed_args(double: Seq<Piece>, single: Seq<Piece>) -> Map<Seq<char>, Seq<char>> {
    keep_first(overwrite_all(Map::empty(), pairs_of(double)), pairs_of(single))
}

fn add_pairs(args: &mut ShortcodeArgs, ps: &Vec<Piece>, overwrite: bool)
    ensures
        overwrite ==> final(args)@ == overwrite_all(old(args)@, pairs_of(ps@)),
        !overwrite ==> final(args)@ == keep_first(old(args)@, pairs_of(ps@)),
{
    let ghost start = args@;
    let mut i: usize = 0;
    while i < ps.len()
        invariant
            i <= ps.len(),
            overwrite ==> args@ == overwrite_all(start, pairs_of(ps@.subrange(0, i as int))),
            !overwrite ==> args@ == keep_first(start, pairs_of(ps@.subrange(0, i as int))),
        decreases ps.len() - i,
    {
        assert(ps@.subrange(0, i + 1).drop_last() =~= ps@.subrange(0, i as int));
        assert(ps@.subrange(0, i + 1).last() == ps@[i as int]);
        match &ps[i] {
            Piece::Found(c) => {
                let k = group(c, 1);
                let v = group(c, 2);
                match (k, v) {
                    (Some(k), Some(v)) => {
                        proof {
                            let prevp = pairs_of(ps@.subrange(0, i as int));
                            assert(pairs_of(ps@.subrange(0, i + 1)) == prevp.push((k@, v@)));
                            assert(prevp.push((k@, v@)).drop_last() =~= prevp);
                        }
                        if overwrite {
                            args.insert(k, v);
                        } else {
                            match args.get(k.as_str()) {
                                Some(_) => {},
                                None => args.insert(k, v),
                            }
                        }
                    },
                    _ => {},
                }
            },
            Piece::Text(_) => {},
        }
        i = i + 1;
    }
    assert(ps@.subrange(0, ps.len() as int) =~= ps@);
}

/// Parses `key="value"` and `key='value'` shortcode arguments; a double-quoted
/// value wins over a single-quoted one for the same key.
pub fn parse_args(args_str: &str) -> (r: Option<ShortcodeArgs>)
    ensures
        match r {
            Some(a) => arg_patterns_compile() && a@ == args_map_of(args_str@),
            None => !arg_patterns_compile(),
        },
{
    let double = scan(DOUBLE_ARG_PATTERN, args_str)?;
    let single = scan(SINGLE_ARG_PATTERN, args_str)?;
    let mut args = ShortcodeArgs::new();
    add_pairs(&mut args, &double, true);
    add_pairs(&mut args, &single, false);
    Some(args)
}

/// Why a `tabs` shortcode failed.
#[derive(Clone, Copy, Debug, PartialEq, Eq, Structural)]
pub enum TabsError {
    /// No `labels` argument.
    MissingLabels,
    /// Used inline, without a body.
    MissingBody,
    /// The labels and the panels differ in number.
    PanelCount { labels: usize, panels: usize },
}

/// Why a shortcode failed.
#[derive(Clone, Debug)]
pub enum ShortcodeError {
    /// The argument list could not be scanned.
    Pattern,
    Tabs(TabsError),
    /// `include` without a `path` argument.
    MissingPath,
    /// The included file lies outside the sandbox boundary.
    OutsideSandbox { path: String },
    /// A file could not be resolved or read.
    Unreadable { path: String, reason: String },
    /// No template for a shortcode of this name.
    TemplateNotFound { name: String },
    /// The shortcode's template failed to render.
    Template { name: String, reason: String },
}

/// A failed expansion: the shortcode's name and what went wrong.
#[derive(Clone, Debug)]
pub struct ShortcodeFailure {
    pub name: String,
    pub error: ShortcodeError,
}

pub open spec fn btn_active(i: int) -> Seq<char> {
    if i == 0 { " tabs__btn--active"@ } else { Seq::empty() }
}

pub open spec fn panel_active(i: int) -> Seq<char> {
    if i == 0 { " tabs__panel--active"@ } else { Seq::empty() }
}

/// The button of tab `i`.
pub open spec fn tab_button(i: nat, label: Seq<char>) -> Seq<char> {
    "<button class=\"tabs__btn"@ + btn_active(i as int) + "\" data-tab-idx=\""@ + decimal(i) + "\">"@
        + trim(label) + "</button>"@
}

/// The panel of tab `i`.
pub open spec fn tab_panel(i: nat, part: Seq<char>) -> Seq<char> {
    "<div class=\"tabs__panel"@ + panel_active(i as int) + "\" data-tab-idx=\""@ + decimal(i) + "\">\n\n"@
        + trim(part) + "\n\n</div>\n"@
}

pub open spec fn tab_buttons(labels: Seq<Seq<char>>) -> Seq<char>
    decreases labels.len(),
{
    if labels.len() == 0 {
        Seq::empty()
    } else {
        tab_buttons(labels.drop_last()) + tab_button((labels.len() - 1) as nat, labels.last())
    }
}

pub open spec fn tab_panels(parts: Seq<Seq<char>>) -> Seq<char>
    decreases parts.len(),
{
    if parts.len() == 0 {
        Seq::empty()
    } else {
        tab_panels(parts.drop_last()) + tab_panel((parts.len() - 1) as nat, parts.last())
    }
}

pub const TABS_OPEN: &'static str = "<div class=\"tabs\" data-tabs>\n<div class=\"tabs__nav\">\n";

pub const TABS_NAV_CLOSE: &'static str = "\n</div>\n";

pub const TABS_SCRIPT: &'static str = "</div>\n<script>\ndocument.currentScript.previousElementSibling.querySelectorAll('.tabs__btn').forEach(btn => {\n  btn.addEventListener('click', () => {\n    const t = btn.closest('[data-tabs]'), i = btn.dataset.tabIdx;\n    t.querySelectorAll('.tabs__btn').forEach(b => b.classList.remove('tabs__btn--active'));\n    t.querySelectorAll('.tabs__panel').forEach(p => p.classList.remove('tabs__panel--active'));\n    btn.classList.add('tabs__btn--active');\n    t.querySelector('.tabs__panel[data-tab-idx=\"' + i + '\"]').classList.add('tabs__panel--active');\n  });\n});\n</script>\n";

/// The markup of a tab set: the buttons, the panels (the first of each
/// active), and the script that switches between them.
pub open spec fn tabs_html(labels: Seq<Seq<char>>, parts: Seq<Seq<char>>) -> Seq<char> {
    TABS_OPEN@ + tab_buttons(labels) + TABS_NAV_CLOSE@ + tab_panels(parts) + TABS_SCRIPT@
}

/// What a `tabs` shortcode gives for its arguments and body.
pub open spec fn tabs_outcome(args: Map<Seq<char>, Seq<char>>, body: Option<Seq<char>>) -> Result<Seq<char>, TabsError> {
    if !args.contains_key("labels"@) {
        Err(TabsError::MissingLabels)
    } else {
        match body {
            None => Err(TabsError::MissingBody),
            Some(b) => {
                let labels = split_on(args["labels"@], "|"@);
                let parts = split_on(b, TAB_MARKER@);
                if labels.len() != parts.len() {
                    Err(TabsError::PanelCount { labels: labels.len() as usize, panels: parts.len() as usize })
                } else {
                    Ok(tabs_html(labels, parts))
                }
            },
        }
    }
}

fn tab_piece(out: &mut Vec<char>, i: usize, text: &Vec<char>, button: bool)
    ensures
        button ==> final(out)@ == old(out)@ + tab_button(i as nat, text@),
        !button ==> final(out)@ == old(out)@ + tab_panel(i as nat, text@),
{
    let ghost start = out@;
    let t = trimmed(text);
    let n = decimal_chars(i);
    if button {
        push_str(out, "<button class=\"tabs__btn");
        if i == 0 {
            push_str(out, " tabs__btn--active");
        }
        push_str(out, "\" data-tab-idx=\"");
        push_all(out, &n);
        push_str(out, "\">");
        push_all(out, &t);
        push_str(out, "</button>");
        proof {
            if i != 0 {
                assert(btn_active(i as int) =~= Seq::<char>::empty());
            }
        }
        assert(out@ =~= start + tab_button(i as nat, text@));
    } else {
        push_str(out, "<div class=\"tabs__panel");
        if i == 0 {
            push_str(out, " tabs__panel--active");
        }
        push_str(out, "\" data-tab-idx=\"");
        push_all(out, &n);
        push_str(out, "\">\n\n");
        push_all(out, &t);
        push_str(out, "\n\n</div>\n");
        assert(out@ =~= start + tab_panel(i as nat, text@));
    }
}

fn tab_pieces(out: &mut Vec<char>, items: &Vec<Vec<char>>, button: bool)
    ensures
        button ==> final(out)@ == old(out)@ + tab_buttons(items@.map_values(|v: Vec<char>| v@)),
        !button ==> final(out)@ == old(out)@ + tab_panels(items@.map_values(|v: Vec<char>| v@)),
{
    let ghost start = out@;
    let ghost all = items@.map_values(|v: Vec<char>| v@);
    let mut i: usize = 0;
    while i < items.len()
        invariant
            i <= items.len(),
            all == items@.map_values(|v: Vec<char>| v@),
            button ==> out@ == start + tab_buttons(all.subrange(0, i as int)),
            !button ==> out@ == start + tab_panels(all.subrange(0, i as int)),
        decreases items.len() - i,
    {
        tab_piece(out, i, &items[i], button);
        assert(all.subrange(0, i + 1).drop_last() =~= all.subrange(0, i as int));
        assert(all.subrange(0, i + 1).last() == items@[i as int]@);
        i = i + 1;
    }
    assert(all.subrange(0, items.len() as int) =~= all);
}

/// The built-in `tabs` shortcode: the body is cut at each tab marker into
/// panels, one for each `|`-separated label.
pub fn builtin_tabs(args_str: &str, body: Option<&str>) -> (r: Result<String, ShortcodeError>)
    ensures
        match r {
            Ok(h) => tabs_outcome(args_map_of(args_str@), opt_view(body)) == Ok::<Seq<char>, TabsError>(h@),
            Err(ShortcodeError::Tabs(e)) => tabs_outcome(args_map_of(args_str@), opt_view(body)) == Err::<Seq<char>, TabsError>(e),
            Err(ShortcodeError::Pattern) => !arg_patterns_compile(),
            Err(_) => false,
        },
{
    let args = match parse_args(args_str) {
        Some(a) => a,
        None => {
            return Err(ShortcodeError::Pattern);
        },
    };
    let labels_str = match args.get("labels") {
        Some(l) => l,
        None => {
            return Err(ShortcodeError::Tabs(TabsError::MissingLabels));
        },
    };
    let body = match body {
        Some(b) => b,
        None => {
            return Err(ShortcodeError::Tabs(TabsError::MissingBody));
        },
    };
    let lv = chars_of(labels_str.as_str());
    let bar = chars_of("|");
    let bv = chars_of(body);
    let marker = chars_of(TAB_MARKER);
    proof {
        reveal_strlit("|");
        reveal_strlit("<!-- tab -->");
    }
    let labels = split_text(&lv, &bar);
    let parts = split_text(&bv, &marker);
    if labels.len() != parts.len() {
        return Err(ShortcodeError::Tabs(TabsError::PanelCount { labels: labels.len(), panels: parts.len() }));
    }
    let mut out = chars_of(TABS_OPEN);
    tab_pieces(&mut out, &labels, true);
    push_str(&mut out, TABS_NAV_CLOSE);
    tab_pieces(&mut out, &parts, false);
    push_str(&mut out, TABS_SCRIPT);
    Ok(string_of(&out))
}

pub open spec fn opt_view(b: Option<&str>) -> Option<Seq<char>> {
    match b {
        Some(s) => Some(s@),
        None => None,
    }
}

/// Both argument patterns compile.
pub open spec fn arg_patterns_compile() -> bool {
    regex_compiles(DOUBLE_ARG_PATTERN@) && regex_compiles(SINGLE_ARG_PATTERN@)
}

/// The arguments that `s` declares.
pub open spec fn args_map_of(s: Seq<char>) -> Map<Seq<char>, Seq<char>> {
    parsed_args(regex_pieces(DOUBLE_ARG_PATTERN@, s), regex_pieces(SINGLE_ARG_PATTERN@, s))
}

/// What `strip_toml_frontmatter` leaves of a file: after leading whitespace,
/// an opening `+++` and the next `+++`, the text after that; else the file as it is.
pub open spec fn without_frontmatter(content: Seq<char>) -> Seq<char> {
    let t = trim_start(content);
    if has_prefix(t, "+++"@) {
        let rest = t.subrange(3, t.len() as int);
        if exists|e: int| is_first_from(rest, "+++"@, 0, e) {
            let e = choose|e: int| is_first_from(rest, "+++"@, 0, e);
            rest.subrange(e + 3, rest.len() as int)
        } else {
            content
        }
    } else {
        content
    }
}

/// Removes a leading `+++`-delimited front-matter block from an included file.
pub fn strip_toml_frontmatter(content: &str) -> (r: String)
    ensures
        r@ == without_frontmatter(content@),
{
    let all = chars_of(content);
    let t = trimmed_start(&all);
    let delim = chars_of("+++");
    proof { reveal_strlit("+++"); }
    if matches_at(&t, &delim, 0) {
        let rest = slice_chars(&t, 3, t.len());
        match find_from(&rest, &delim, 0) {
            Some(e) => {
                proof {
                    assert forall|e2: int| is_first_from(rest@, "+++"@, 0, e2) implies e2 == e by {
                        if e2 < e {
                        } else if e2 > e {
                        }
                    }
                }
                let out = slice_chars(&rest, e + 3, rest.len());
                string_of(&out)
            },
            None => String::from_str(content),
        }
    } else {
        String::from_str(content)
    }
}

/// `path` is `root` or lies under it, component by component (both canonical).
pub open spec fn path_within(path: Seq<char>, root: Seq<char>) -> bool {
    path == root || (root.len() > 0 && root.last() == '/' && has_prefix(path, root))
        || has_prefix(path, root + "/"@)
}

/// Whether the canonical `path` lies within the canonical `root`.
pub fn is_within(path: &str, root: &str) -> (r: bool)
    ensures
        r == path_within(path@, root@),
{
    let p = chars_of(path);
    let q = chars_of(root);
    let mut qs = chars_of(root);
    push_str(&mut qs, "/");
    if p.len() == q.len() && matches_at(&p, &q, 0) {
        assert(p@.subrange(0, q@.len() as int) =~= p@);
        return true;
    }
    proof {
        if p@ == q@ {
            assert(p@.subrange(0, q@.len() as int) =~= p@);
        }
    }
    let slash_end = q.len() > 0 && q[q.len() - 1] == '/';
    if slash_end && matches_at(&p, &q, 0) {
        return true;
    }
    matches_at(&p, &qs, 0)
}

/// What an `include` shortcode gives for a file that was resolved to
/// `canonical` and read as `text`, with the sandbox boundary resolved to
/// `canonical_sandbox`: the text (without its front matter if asked), or a
/// refusal when the file lies outside the boundary.
pub fn finish_include(path: &str, canonical: &str, canonical_sandbox: &str, text: String, strip_frontmatter: bool) -> (r: Result<String, ShortcodeError>)
    ensures
        match r {
            Ok(t) => path_within(canonical@, canonical_sandbox@) && t@ == if strip_frontmatter {
                without_frontmatter(text@)
            } else {
                text@
            },
            Err(ShortcodeError::OutsideSandbox { path: p }) => !path_within(canonical@, canonical_sandbox@) && p@ == path@,
            Err(_) => false,
        },
{
    if !is_within(canonical, canonical_sandbox) {
        return Err(ShortcodeError::OutsideSandbox { path: String::from_str(path) });
    }
    if strip_frontmatter {
        Ok(strip_toml_frontmatter(text.as_str()))
    } else {
        Ok(text)
    }
}

/// A shortcode that needs files: the caller reads them and answers.
#[derive(Clone, Debug)]
pub enum ShortcodeRequest {
    /// `include`: the file at `path`, relative to the site root, to be checked
    /// against the sandbox boundary (see `finish_include`).
    Include { path: String, strip_frontmatter: bool },
    /// A template-backed shortcode: the template `{name}.html` rendered with the
    /// arguments and, for the block form, the trimmed body as `body`.
    Template { name: String, args: ShortcodeArgs, body: Option<String> },
}

/// The request an `include` shortcode makes for its arguments: `None` when it has no `path`.
pub open spec fn include_request(args: Map<Seq<char>, Seq<char>>, req: ShortcodeRequest) -> bool {
    match req {
        ShortcodeRequest::Include { path, strip_frontmatter } => args.contains_key("path"@)
            && path@ == args["path"@]
            && strip_frontmatter == (args.contains_key("strip_frontmatter"@) && args["strip_frontmatter"@] == "true"@),
        _ => false,
    }
}

/// The request a template-backed shortcode makes.
pub open spec fn template_request(name: Seq<char>, args: Map<Seq<char>, Seq<char>>, body: Option<Seq<char>>, req: ShortcodeRequest) -> bool {
    match req {
        ShortcodeRequest::Template { name: n, args: a, body: b } => n@ == name && a@ == args && opt_string_view(b) == body,
        _ => false,
    }
}

pub open spec fn opt_string_view(b: Option<String>) -> Option<Seq<char>> {
    match b {
        Some(s) => Some(s@),
        None => None,
    }
}

/// `r` is what expanding the shortcode `name` with arguments `args` and body
/// `body` may give: for `tabs`, exactly its built-in outcome; for `include`
/// without a `path`, that error; otherwise an answer of `fetch` to the
/// request that the shortcode makes.
pub open spec fn resolved<F: Fn(ShortcodeRequest) -> Result<String, ShortcodeError>>(
    fetch: F,
    name: Seq<char>,
    args: Seq<char>,
    body: Option<Seq<char>>,
    r: Result<String, ShortcodeError>,
) -> bool {
    if name == "tabs"@ {
        match r {
            Ok(h) => tabs_outcome(args_map_of(args), body) == Ok::<Seq<char>, TabsError>(h@),
            Err(ShortcodeError::Tabs(e)) => tabs_outcome(args_map_of(args), body) == Err::<Seq<char>, TabsError>(e),
            Err(ShortcodeError::Pattern) => !arg_patterns_compile(),
            Err(_) => false,
        }
    } else if !arg_patterns_compile() {
        r matches Err(ShortcodeError::Pattern)
    } else if name == "include"@ {
        if args_map_of(args).contains_key("path"@) {
            exists|q: ShortcodeRequest| include_request(args_map_of(args), q) && fetch.ensures((q,), r)
        } else {
            r matches Err(ShortcodeError::MissingPath)
        }
    } else {
        exists|q: ShortcodeRequest| template_request(name, args_map_of(args), body, q) && fetch.ensures((q,), r)
    }
}

/// Expands one shortcode. `tabs` is built in; `include` and every other name
/// are handed to `fetch` as a request, and its answer is the expansion.
pub fn resolve_shortcode<F>(name: &str, args_str: &str, body: Option<&str>, fetch: &F) -> (r: Result<String, ShortcodeError>)
    where
        F: Fn(ShortcodeRequest) -> Result<String, ShortcodeError>,
    requires
        forall|q: ShortcodeRequest| fetch.requires((q,)),
    ensures
        resolved(*fetch, name@, args_str@, opt_view(body), r),
{
    proof {
        reveal_strlit("include");
        reveal_strlit("tabs");
        assert("include"@ != "tabs"@) by {
            assert("include"@.len() != "tabs"@.len());
        }
    }
    if str_eq(name, "include") {
        let args = match parse_args(args_str) {
            Some(a) => a,
            None => {
                return Err(ShortcodeError::Pattern);
            },
        };
        let path = match args.get("path") {
            Some(p) => p,
            None => {
                return Err(ShortcodeError::MissingPath);
            },
        };
        let strip = match args.get("strip_frontmatter") {
            Some(v) => str_eq(v.as_str(), "true"),
            None => false,
        };
        let req = ShortcodeRequest::Include { path, strip_frontmatter: strip };
        let r = fetch(req);
        proof {
            reveal_strlit("include");
            reveal_strlit("tabs");
            assert(include_request(args_map_of(args_str@), req));
        }
        r
    } else if str_eq(name, "tabs") {
        proof {
            reveal_strlit("include");
            reveal_strlit("tabs");
        }
        builtin_tabs(args_str, body)
    } else {
        let args = match parse_args(args_str) {
            Some(a) => a,
            None => {
                return Err(ShortcodeError::Pattern);
            },
        };
        let b = match body {
            Some(t) => Some(String::from_str(t)),
            None => None,
        };
        let req = ShortcodeRequest::Template { name: String::from_str(name), args, body: b };
        let r = fetch(req);
        proof {
            assert(template_request(name@, args_map_of(args_str@), opt_view(body), req));
        }
        r
    }
}

fn any_match(pieces: &Vec<Piece>) -> (r: bool)
    ensures
        r == has_match(pieces@),
{
    let mut i: usize = 0;
    while i < pieces.len()
        invariant
            i <= pieces.len(),
            forall|k: int| 0 <= k < i ==> !(pieces@[k] is Found),
        decreases pieces.len() - i,
    {
        match &pieces[i] {
            Piece::Found(_) => {
                return true;
            },
            Piece::Text(_) => {},
        }
        i = i + 1;
    }
    false
}

/// The number of matches among `ps`.
pub open spec fn match_count(ps: Seq<Piece>) -> nat
    decreases ps.len(),
{
    if ps.len() == 0 {
        0
    } else {
        match_count(ps.drop_last()) + if ps.last() is Found { 1nat } else { 0nat }
    }
}

/// The pieces put together with the `k`-th match replaced by `outs[k]`.
pub open spec fn spliced(ps: Seq<Piece>, outs: Seq<Seq<char>>) -> Seq<char>
    decreases ps.len(),
{
    if ps.len() == 0 {
        Seq::empty()
    } else {
        match ps.last() {
            Piece::Text(t) => spliced(ps.drop_last(), outs) + t@,
            Piece::Found(_) => spliced(ps.drop_last(), outs.drop_last()) + outs.last(),
        }
    }
}

proof fn lemma_spliced_plain(ps: Seq<Piece>, outs: Seq<Seq<char>>)
    requires
        !has_match(ps),
    ensures
        spliced(ps, outs) == joined(ps),
        match_count(ps) == 0,
    decreases ps.len(),
{
    if ps.len() > 0 {
        assert(!has_match(ps.drop_last())) by {
            assert forall|k: int| 0 <= k < ps.drop_last().len() implies !(ps.drop_last()[k] is Found) by {
                assert(ps.drop_last()[k] == ps[k]);
            }
        }
        assert(!(ps[ps.len() - 1] is Found));
        lemma_spliced_plain(ps.drop_last(), outs);
    }
}

/// The matches among `ps`, in order.
pub open spec fn found_of(ps: Seq<Piece>) -> Seq<Captured>
    decreases ps.len(),
{
    if ps.len() == 0 {
        Seq::empty()
    } else {
        match ps.last() {
            Piece::Found(c) => found_of(ps.drop_last()).push(c),
            Piece::Text(_) => found_of(ps.drop_last()),
        }
    }
}

proof fn lemma_found_prefix(ps: Seq<Piece>, j: int)
    requires
        0 <= j <= ps.len(),
    ensures
        found_of(ps.subrange(0, j)).len() <= found_of(ps).len(),
        forall|k: int| 0 <= k < found_of(ps.subrange(0, j)).len() ==> found_of(ps.subrange(0, j))[k] == found_of(ps)[k],
    decreases ps.len(),
{
    if j == ps.len() {
        assert(ps.subrange(0, j) =~= ps);
    } else {
        lemma_found_prefix(ps.drop_last(), j);
        assert(ps.drop_last().subrange(0, j) =~= ps.subrange(0, j));
    }
}

pub open spec fn arg_text(t: Option<Seq<char>>) -> Seq<char> {
    match t {
        Some(s) => s,
        None => Seq::empty(),
    }
}

/// The body a match hands to its shortcode: the trimmed body of a block form.
pub open spec fn call_body(c: Captured, block: bool) -> Option<Seq<char>> {
    if block {
        match group_text(c, 3) {
            Some(b) => Some(trim(b)),
            None => None,
        }
    } else {
        None
    }
}

/// `r` is what the match `c` may expand to: the shortcode it names, resolved
/// with its arguments and body (a match without a name stays as it is).
pub open spec fn call_result<F: Fn(ShortcodeRequest) -> Result<String, ShortcodeError>>(
    fetch: F,
    c: Captured,
    block: bool,
    r: Result<String, ShortcodeError>,
) -> bool {
    match group_text(c, 1) {
        None => r matches Ok(t) && t@ == c.whole@,
        Some(n) => resolved(fetch, n, arg_text(group_text(c, 2)), call_body(c, block), r),
    }
}

/// The texts of successful expansions.
pub open spec fn ok_texts(rs: Seq<Result<String, ShortcodeError>>) -> Seq<Seq<char>>
    decreases rs.len(),
{
    if rs.len() == 0 {
        Seq::empty()
    } else {
        ok_texts(rs.drop_last()).push(
            match rs.last() {
                Ok(t) => t@,
                Err(_) => Seq::empty(),
            },
        )
    }
}

/// `r` is what expanding the matches of `ps` one after another may give:
/// with `rs` the results of the matches expanded, in order, either every
/// match expanded and `r` is the pieces with each match replaced by its
/// expansion, or the last of `rs` is the first failure and `r` names its
/// shortcode and carries its error.
pub open spec fn expanded<F: Fn(ShortcodeRequest) -> Result<String, ShortcodeError>>(
    fetch: F,
    ps: Seq<Piece>,
    block: bool,
    r: Result<String, ShortcodeFailure>,
) -> bool {
    let calls = found_of(ps);
    exists|rs: Seq<Result<String, ShortcodeError>>| {
        &&& rs.len() <= calls.len()
        &&& forall|k: int| 0 <= k < rs.len() ==> call_result(fetch, calls[k], block, #[trigger] rs[k])
        &&& match r {
            Ok(t) => {
                &&& rs.len() == calls.len()
                &&& forall|k: int| 0 <= k < rs.len() ==> #[trigger] rs[k] is Ok
                &&& t@ == spliced(ps, ok_texts(rs))
            },
            Err(f) => {
                &&& rs.len() > 0
                &&& forall|k: int| 0 <= k < rs.len() - 1 ==> #[trigger] rs[k] is Ok
                &&& rs.last() == Err::<String, ShortcodeError>(f.error)
                &&& group_text(calls[rs.len() - 1], 1) == Some(f.name@)
            },
        }
    }
}

/// The text of each piece, with every match replaced by its expansion; the
/// first failing shortcode stops the expansion. The text between shortcodes
/// is kept as it is.
fn expand_pieces<F>(pieces: &Vec<Piece>, block: bool, fetch: &F) -> (r: Result<String, ShortcodeFailure>)
    where
        F: Fn(ShortcodeRequest) -> Result<String, ShortcodeError>,
    requires
        forall|q: ShortcodeRequest| fetch.requires((q,)),
    ensures
        !has_match(pieces@) ==> (r matches Ok(t) && t@ == joined(pieces@)),
        expanded(*fetch, pieces@, block, r),
{
    let mut out: Vec<char> = Vec::new();
    let ghost mut rs: Seq<Result<String, ShortcodeError>> = Seq::empty();
    let mut i: usize = 0;
    while i < pieces.len()
        invariant
            i <= pieces.len(),
            forall|q: ShortcodeRequest| fetch.requires((q,)),
            rs.len() == found_of(pieces@.subrange(0, i as int)).len(),
            forall|k: int| 0 <= k < rs.len() ==> call_result(*fetch, found_of(pieces@.subrange(0, i as int))[k], block, #[trigger] rs[k]),
            forall|k: int| 0 <= k < rs.len() ==> #[trigger] rs[k] is Ok,
            out@ == spliced(pieces@.subrange(0, i as int), ok_texts(rs)),
        decreases pieces.len() - i,
    {
        let ghost prefix = pieces@.subrange(0, i + 1);
        assert(prefix.drop_last() =~= pieces@.subrange(0, i as int));
        assert(prefix.last() == pieces@[i as int]);
        let ghost rs0 = rs;
        match &pieces[i] {
            Piece::Text(t) => {
                push_str(&mut out, t.as_str());
            },
            Piece::Found(c) => {
                match group(c, 1) {
                    None => {
                        push_str(&mut out, c.whole.as_str());
                        proof {
                            rs = rs.push(Ok(c.whole));
                            assert(rs.drop_last() =~= rs0);
                            assert(ok_texts(rs).drop_last() =~= ok_texts(rs0));
                        }
                    },
                    Some(name) => {
                        let args = match group(c, 2) {
                            Some(a) => a,
                            None => String::new(),
                        };
                        let body = if block {
                            match group(c, 3) {
                                Some(b) => Some(trim_text(b.as_str())),
                                None => None,
                            }
                        } else {
                            None
                        };
                        let res = match &body {
                            Some(b) => resolve_shortcode(name.as_str(), args.as_str(), Some(b.as_str()), fetch),
                            None => resolve_shortcode(name.as_str(), args.as_str(), None, fetch),
                        };
                        assert(call_result(*fetch, *c, block, res));
                        match res {
                            Ok(h) => {
                                push_str(&mut out, h.as_str());
                                proof {
                                    rs = rs.push(Ok(h));
                                    assert(rs.drop_last() =~= rs0);
                                    assert(ok_texts(rs).drop_last() =~= ok_texts(rs0));
                                }
                            },
                            Err(e) => {
                                let ghost ge = e;
                                let f = ShortcodeFailure { name, error: e };
                                proof {
                                    rs = rs.push(Err(ge));
                                    lemma_found_prefix(pieces@, i + 1);
                                    assert(found_of(prefix) == found_of(pieces@.subrange(0, i as int)).push(*c));
                                    assert forall|k: int| 0 <= k < rs.len() implies call_result(*fetch, found_of(pieces@)[k], block, #[trigger] rs[k]) by {
                                        assert(found_of(prefix)[k] == found_of(pieces@)[k]);
                                        if k < rs.len() - 1 {
                                            assert(rs[k] == rs0[k]);
                                        }
                                    }
                                    assert forall|k: int| 0 <= k < rs.len() - 1 implies #[trigger] rs[k] is Ok by {
                                        assert(rs[k] == rs0[k]);
                                    }
                                    assert(found_of(prefix)[rs.len() - 1] == found_of(pieces@)[rs.len() - 1]);
                                }
                                return Err(f);
                            },
                        }
                    },
                }
            },
        }
        proof {
            if pieces@[i as int] is Found {
                assert(found_of(prefix) == found_of(pieces@.subrange(0, i as int)).push(found_of(prefix).last()));
                assert forall|k: int| 0 <= k < rs.len() implies call_result(*fetch, found_of(prefix)[k], block, #[trigger] rs[k]) by {
                    if k < rs.len() - 1 {
                        assert(rs[k] == rs0[k]);
                    }
                }
                assert forall|k: int| 0 <= k < rs.len() implies #[trigger] rs[k] is Ok by {
                    if k < rs.len() - 1 {
                        assert(rs[k] == rs0[k]);
                    }
                }
            }
        }
        i = i + 1;
    }
    assert(pieces@.subrange(0, pieces.len() as int) =~= pieces@);
    proof {
        if !has_match(pieces@) {
            lemma_spliced_plain(pieces@, ok_texts(rs));
        }
    }
    Ok(string_of(&out))
}

fn trim_text(s: &str) -> (r: String)
    ensures
        r@ == trim(s@),
{
    let v = chars_of(s);
    let t = trimmed(&v);
    string_of(&t)
}

/// `r` is the failure for a pattern that does not compile.
pub open spec fn pattern_failure(r: Result<String, ShortcodeFailure>) -> bool {
    r matches Err(f) && f.name@.len() == 0 && f.error is Pattern
}

/// `r` is what expanding the shortcodes of `content` may give with `passes`
/// block passes left: while block forms remain, one pass over them (a failure
/// ends the expansion), then the inline forms of what is left.
pub open spec fn processed<F: Fn(ShortcodeRequest) -> Result<String, ShortcodeError>>(
    fetch: F,
    content: Seq<char>,
    passes: nat,
    r: Result<String, ShortcodeFailure>,
) -> bool
    decreases passes,
{
    if !regex_compiles(BLOCK_PATTERN@) {
        pattern_failure(r)
    } else if passes > 0 && has_match(regex_pieces(BLOCK_PATTERN@, content)) {
        exists|mid: Result<String, ShortcodeFailure>| expanded(fetch, regex_pieces(BLOCK_PATTERN@, content), true, mid)
            && match mid {
                Ok(t) => processed(fetch, t@, (passes - 1) as nat, r),
                Err(_) => r == mid,
            }
    } else if !regex_compiles(INLINE_PATTERN@) {
        pattern_failure(r)
    } else {
        expanded(fetch, regex_pieces(INLINE_PATTERN@, content), false, r)
    }
}

/// Expands the shortcodes of raw Markdown: block forms first, again and again
/// (up to `MAX_BLOCK_PASSES` times) while any remain, so that nested ones
/// expand too; then inline forms. The first failing shortcode stops the
/// expansion with its name and error. Text without shortcodes comes back
/// unchanged.
pub fn process_shortcodes<F>(content: &str, fetch: &F) -> (r: Result<String, ShortcodeFailure>)
    where
        F: Fn(ShortcodeRequest) -> Result<String, ShortcodeError>,
    requires
        forall|q: ShortcodeRequest| fetch.requires((q,)),
    ensures
        processed(*fetch, content@, MAX_BLOCK_PASSES as nat, r),
        regex_compiles(BLOCK_PATTERN@) && !has_match(regex_pieces(BLOCK_PATTERN@, content@))
            && regex_compiles(INLINE_PATTERN@) && !has_match(regex_pieces(INLINE_PATTERN@, content@))
            ==> (r matches Ok(t) && t@ == content@),
{
    let mut result = String::from_str(content);
    let mut passes: usize = 0;
    let mut done = false;
    while passes < MAX_BLOCK_PASSES && !done
        invariant
            forall|q: ShortcodeRequest| fetch.requires((q,)),
            passes <= MAX_BLOCK_PASSES,
            passes == 0 ==> result@ == content@,
            passes > 0 ==> has_match(regex_pieces(BLOCK_PATTERN@, content@)),
            passes > 0 || done ==> regex_compiles(BLOCK_PATTERN@),
            done ==> !has_match(regex_pieces(BLOCK_PATTERN@, result@)),
            forall|rr: Result<String, ShortcodeFailure>| #[trigger] processed(*fetch, result@, (MAX_BLOCK_PASSES - passes) as nat, rr)
                ==> processed(*fetch, content@, MAX_BLOCK_PASSES as nat, rr),
        decreases MAX_BLOCK_PASSES - passes + if done { 0usize } else { 1usize },
    {
        let pieces = match scan(BLOCK_PATTERN, result.as_str()) {
            Some(p) => p,
            None => {
                let f = Err(ShortcodeFailure { name: String::new(), error: ShortcodeError::Pattern });
                assert(processed(*fetch, result@, (MAX_BLOCK_PASSES - passes) as nat, f));
                return f;
            },
        };
        if !any_match(&pieces) {
            done = true;
        } else {
            let ghost old_result = result@;
            let ghost n: nat = (MAX_BLOCK_PASSES - passes) as nat;
            match expand_pieces(&pieces, true, fetch) {
                Ok(t) => {
                    proof {
                        assert forall|rr: Result<String, ShortcodeFailure>| #[trigger] processed(*fetch, t@, (n - 1) as nat, rr)
                            implies processed(*fetch, content@, MAX_BLOCK_PASSES as nat, rr) by {
                            let mid = Ok::<String, ShortcodeFailure>(t);
                            assert(processed(*fetch, old_result, n, rr));
                        }
                    }
                    result = t;
                    passes = passes + 1;
                },
                Err(f) => {
                    let r = Err(f);
                    assert(processed(*fetch, old_result, n, r));
                    return r;
                },
            }
        }
    }
    let ghost n: nat = (MAX_BLOCK_PASSES - passes) as nat;
    let pieces = match scan(INLINE_PATTERN, result.as_str()) {
        Some(p) => p,
        None => {
            let f = Err(ShortcodeFailure { name: String::new(), error: ShortcodeError::Pattern });
            assert(processed(*fetch, result@, n, f));
            return f;
        },
    };
    let r = expand_pieces(&pieces, false, fetch);
    assert(processed(*fetch, result@, n, r));
    r
}

/// Relies on tera: a fresh `tera::Tera::default()`, `add_raw_template(name,
/// text)`, and `render` with a `tera::Context` holding each argument (later
/// entries overwrite earlier ones) and `body` when given. Nothing is stated
/// of what comes back: tera's built-in functions read the clock, the
/// environment and a random source, so the output is not a function of the
/// arguments.
#[verifier::external_body]
fn tera_render(name: &str, text: &str, args: &ShortcodeArgs, body: Option<&str>) -> (r: Result<String, String>)
{
    let mut context = tera::Context::new();
    for (k, v) in &args.entries {
        context.insert(k.as_str(), v);
    }
    if let Some(b) = body {
        context.insert("body", b);
    }
    let mut tera = tera::Tera::default();
    tera.add_raw_template(name, text).map_err(|e| e.to_string())?;
    tera.render(name, &context).map_err(|e| e.to_string())
}

/// Renders the template `template_text` of the shortcode `name` (registered
/// as `shortcodes/{name}.html`) with its arguments and, for the block form,
/// its body. The rendered text is tera's; a failure is reported as a
/// template error of this shortcode.
pub fn render_shortcode(name: &str, template_text: &str, args: &ShortcodeArgs, body: Option<&str>) -> (r: Result<String, ShortcodeError>)
    ensures
        match r {
            Ok(_) => true,
            Err(ShortcodeError::Template { name: n, reason: _ }) => n@ == name@,
            Err(_) => false,
        },
{
    let mut tn = chars_of("shortcodes/");
    push_str(&mut tn, name);
    push_str(&mut tn, ".html");
    let tn = string_of(&tn);
    match tera_render(tn.as_str(), template_text, args, body) {
        Ok(h) => Ok(h),
        Err(reason) => Err(ShortcodeError::Template { name: String::from_str(name), reason }),
    }
}

} // verus!
