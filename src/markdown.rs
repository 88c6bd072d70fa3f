//! Markdown post-processing: escaping, summaries, external links, heading
//! anchors, code blocks (highlighted, or executable and left as indexed
//! placeholders) and the substitution of executed blocks into the HTML.
use vstd::prelude::*;

use crate::config::{AnchorLinks, MarkdownConfig};
use crate::content::slugified;
use crate::execute::{ExecutableBlock, opt_text};
use crate::pattern::{Piece, scan, regex_compiles, regex_pieces, joined};
use crate::text::{
    chars_of, string_of, push_all, push_str, slice_chars, find_from, matches_at, has_prefix,
    is_first_from, occurs_at, contains_seq, decimal, decimal_chars, str_eq,
    split_on, split_text,
};

verus! {

/// What HTML escaping makes of one character; `apos` also escapes `'`.
pub open spec fn escape_char(c: char, apos: bool) -> Seq<char> {
    if c == '&' {
        "&amp;"@
    } else if c == '<' {
        "&lt;"@
    } else if c == '>' {
        "&gt;"@
    } else if c == '"' {
        "&quot;"@
    } else if apos && c == '\'' {
        "&apos;"@
    } else {
        seq![c]
    }
}

/// `s` with each character escaped.
pub open spec fn escaped(s: Seq<char>, apos: bool) -> Seq<char>
    decreases s.len(),
{
    if s.len() == 0 {
        Seq::empty()
    } else {
        escaped(s.drop_last(), apos) + escape_char(s.last(), apos)
    }
}

fn escape(s: &str, apos: bool) -> (r: String)
    ensures
        r@ == escaped(s@, apos),
{
    let v = chars_of(s);
    let mut out: Vec<char> = Vec::new();
    let mut i: usize = 0;
    while i < v.len()
        invariant
            v@ == s@,
            i <= v.len(),
            out@ == escaped(v@.subrange(0, i as int), apos),
        decreases v.len() - i,
    {
        let c = v[i];
        let ghost pre = out@;
        if c == '&' {
            push_str(&mut out, "&amp;");
        } else if c == '<' {
            push_str(&mut out, "&lt;");
        } else if c == '>' {
            push_str(&mut out, "&gt;");
        } else if c == '"' {
            push_str(&mut out, "&quot;");
        } else if apos && c == '\'' {
            push_str(&mut out, "&apos;");
        } else {
            out.push(c);
            assert(out@ =~= pre + seq![c]);
        }
        assert(v@.subrange(0, i + 1).drop_last() =~= v@.subrange(0, i as int));
        i = i + 1;
    }
    assert(v@.subrange(0, v.len() as int) =~= v@);
    string_of(&out)
}

/// Escapes `&`, `<`, `>` and `"` for HTML text and attributes.
pub fn html_escape(s: &str) -> (r: String)
    ensures
        r@ == escaped(s@, false),
{
    escape(s, false)
}

/// Escapes `&`, `<`, `>`, `"` and `'` for HTML and XML output.
pub fn escape_xml(s: &str) -> (r: String)
    ensures
        r@ == escaped(s@, true),
{
    escape(s, true)
}

/// The marker that ends a page's summary.
pub const MORE_MARKER: &'static str = "<!-- more -->";

/// The summary of `content`: the text before the first summary marker, with the whole content.
pub open spec fn summary_of(content: Seq<char>) -> Option<(Seq<char>, Seq<char>)> {
    if exists|i: int| is_first_from(content, MORE_MARKER@, 0, i) {
        let i = choose|i: int| is_first_from(content, MORE_MARKER@, 0, i);
        Some((content.subrange(0, i), content))
    } else {
        None
    }
}

/// Splits off the summary at the first `<!-- more -->` marker: the text before
/// it and the full content, or `None` when there is no marker.
pub fn extract_summary(content: &str) -> (r: Option<(String, String)>)
    ensures
        match r {
            Some((a, b)) => summary_of(content@) == Some((a@, b@)),
            None => summary_of(content@) is None,
        },
{
    let v = chars_of(content);
    let m = chars_of(MORE_MARKER);
    match find_from(&v, &m, 0) {
        Some(i) => {
            proof {
                assert forall|j: int| is_first_from(v@, m@, 0, j) implies j == i by {
                    if j < i {
                    } else if j > i {
                    }
                }
            }
            let before = slice_chars(&v, 0, i);
            Some((string_of(&before), String::from_str(content)))
        },
        None => None,
    }
}

/// An absolute `http://` or `https://` URL that is not under `base_url`.
pub open spec fn external(url: Seq<char>, base_url: Seq<char>) -> bool {
    (has_prefix(url, "http://"@) || has_prefix(url, "https://"@)) && !has_prefix(url, base_url)
}

/// Whether `url` points outside the site.
pub fn is_external_url(url: &str, base_url: &str) -> (r: bool)
    ensures
        r == external(url@, base_url@),
{
    let u = chars_of(url);
    let h1 = chars_of("http://");
    let h2 = chars_of("https://");
    let b = chars_of(base_url);
    (matches_at(&u, &h1, 0) || matches_at(&u, &h2, 0)) && !matches_at(&u, &b, 0)
}

/// The `rel` values of an external link.
pub open spec fn rel_values(no_follow: bool, no_referrer: bool) -> Seq<char> {
    if no_follow && no_referrer {
        "nofollow noreferrer"@
    } else if no_follow {
        "nofollow"@
    } else {
        "noreferrer"@
    }
}

/// The opening tag of an external link that opens in a new tab.
pub open spec fn external_link_tag(dest: Seq<char>, title: Seq<char>, no_follow: bool, no_referrer: bool) -> Seq<char> {
    "<a href=\""@ + dest + "\" title=\""@ + title + "\" target=\"_blank\""@ + if no_follow || no_referrer {
        " rel=\""@ + rel_values(no_follow, no_referrer) + "\""@
    } else {
        Seq::empty()
    } + ">"@
}

/// The opening tag to emit for a link to `dest`: a new-tab tag for an external
/// link when the configuration asks for one, else `None` (the link stays as it is).
pub fn link_open_tag(dest: &str, title: &str, config: &MarkdownConfig, base_url: &str) -> (r: Option<String>)
    ensures
        match r {
            Some(t) => external(dest@, base_url@) && config.external_links_target_blank && t@ == external_link_tag(
                dest@,
                title@,
                config.external_links_no_follow,
                config.external_links_no_referrer,
            ),
            None => !(external(dest@, base_url@) && config.external_links_target_blank),
        },
{
    if !(is_external_url(dest, base_url) && config.external_links_target_blank) {
        return None;
    }
    let nf = config.external_links_no_follow;
    let nr = config.external_links_no_referrer;
    let mut out = chars_of("<a href=\"");
    push_str(&mut out, dest);
    push_str(&mut out, "\" title=\"");
    push_str(&mut out, title);
    push_str(&mut out, "\" target=\"_blank\"");
    if nf || nr {
        push_str(&mut out, " rel=\"");
        if nf && nr {
            push_str(&mut out, "nofollow noreferrer");
        } else if nf {
            push_str(&mut out, "nofollow");
        } else {
            push_str(&mut out, "noreferrer");
        }
        push_str(&mut out, "\"");
    }
    push_str(&mut out, ">");
    proof {
        if !(nf || nr) {
            assert(out@ =~= external_link_tag(dest@, title@, nf, nr));
        } else {
            assert(out@ =~= external_link_tag(dest@, title@, nf, nr));
        }
    }
    Some(string_of(&out))
}

/// The anchor link placed after a heading whose text is `text`.
pub open spec fn anchor_link(text: Seq<char>) -> Seq<char> {
    " <a class=\"zola-anchor\" href=\"#"@ + slugified(text) + "\" aria-label=\"Anchor link for: "@ + text
        + "\">#</a>"@
}

/// The HTML to append to a heading with the given text, if anchors are on.
pub fn heading_anchor(text: &str, config: &MarkdownConfig) -> (r: Option<String>)
    ensures
        match r {
            Some(h) => config.insert_anchor_links == AnchorLinks::Right && h@ == anchor_link(text@),
            None => config.insert_anchor_links == AnchorLinks::Off,
        },
{
    match config.insert_anchor_links {
        AnchorLinks::Off => None,
        AnchorLinks::Right => {
            let id = crate::content::slugify(text);
            let mut out = chars_of(" <a class=\"zola-anchor\" href=\"#");
            push_str(&mut out, id.as_str());
            push_str(&mut out, "\" aria-label=\"Anchor link for: ");
            push_str(&mut out, text);
            push_str(&mut out, "\">#</a>");
            assert(out@ =~= anchor_link(text@));
            Some(string_of(&out))
        },
    }
}

/// The placeholder left in the HTML for executable block `i`.
pub open spec fn placeholder(i: nat) -> Seq<char> {
    "<!-- EXEC_BLOCK_"@ + decimal(i) + " -->"@
}

/// The placeholder for executable block `i`.
pub fn exec_placeholder(i: usize) -> (r: String)
    ensures
        r@ == placeholder(i as nat),
{
    let mut out = chars_of("<!-- EXEC_BLOCK_");
    let d = decimal_chars(i);
    push_all(&mut out, &d);
    push_str(&mut out, " -->");
    string_of(&out)
}

/// What the highlighter makes of `code` in language `lang` with the known
/// theme `theme`: `None` when highlighting fails.
pub uninterp spec fn syntect_html(code: Seq<char>, lang: Seq<char>, theme: Seq<char>) -> Option<Seq<char>>;

/// syntect's default theme set holds a theme of this name.
pub uninterp spec fn theme_known(theme: Seq<char>) -> bool;

/// Why highlighting gave no HTML.
#[derive(Clone, Copy, Debug, PartialEq, Eq, Structural)]
pub enum HighlightFailure {
    UnknownTheme,
    Failed,
}

/// Relies on syntect's default syntax and theme sets and
/// `syntect::html::highlighted_html_for_string`: `code` highlighted with the
/// syntax whose token is `lang` (plain text when none is) and the theme named
/// `theme`, or which of the two steps failed.
#[verifier::external_body]
fn syntect_highlight(code: &str, lang: &str, theme: &str) -> (r: Result<String, HighlightFailure>)
    ensures
        match r {
            Ok(h) => theme_known(theme@) && syntect_html(code@, lang@, theme@) == Some(h@),
            Err(HighlightFailure::UnknownTheme) => !theme_known(theme@),
            Err(HighlightFailure::Failed) => theme_known(theme@) && syntect_html(code@, lang@, theme@) is None,
        },
{
    let ss = syntect::parsing::SyntaxSet::load_defaults_newlines();
    let ts = syntect::highlighting::ThemeSet::load_defaults();
    let syntax = ss.find_syntax_by_token(lang).unwrap_or_else(|| ss.find_syntax_plain_text());
    let Some(theme) = ts.themes.get(theme) else {
        return Err(HighlightFailure::UnknownTheme);
    };
    syntect::html::highlighted_html_for_string(code, &ss, syntax, theme).map_err(|_| HighlightFailure::Failed)
}

/// The theme used when none is configured, or when the configured one is unknown.
pub const DEFAULT_THEME: &'static str = "base16-ocean.dark";

/// A code block without highlighting.
pub open spec fn plain_code(lang: Seq<char>, code: Seq<char>) -> Seq<char> {
    "<pre><code class=\"language-"@ + lang + "\">"@ + escaped(code, false) + "</code></pre>"@
}

/// The theme the configuration selects (`css` selects the default theme).
pub open spec fn theme_of(config: MarkdownConfig) -> Seq<char> {
    match config.highlight_theme {
        Some(t) => if t@ == "css"@ { DEFAULT_THEME@ } else { t@ },
        None => DEFAULT_THEME@,
    }
}

/// The theme used for highlighting: the configured one when the theme set
/// knows it, else the default one.
pub open spec fn theme_used(config: MarkdownConfig) -> Seq<char> {
    if theme_known(theme_of(config)) { theme_of(config) } else { DEFAULT_THEME@ }
}

/// The HTML of a highlighted code block: plain when highlighting is off or the
/// block has no language; else the highlighter's output with the configured
/// theme (the default one if that is unknown), or plain if highlighting fails.
pub open spec fn highlighted(config: MarkdownConfig, code: Seq<char>, lang: Seq<char>) -> Seq<char> {
    if !config.highlight_code || lang.len() == 0 || !theme_known(theme_used(config)) {
        plain_code(lang, code)
    } else {
        match syntect_html(code, lang, theme_used(config)) {
            Some(h) => h,
            None => plain_code(lang, code),
        }
    }
}

fn plain_code_html(lang: &str, code: &str) -> (r: String)
    ensures
        r@ == plain_code(lang@, code@),
{
    let mut out = chars_of("<pre><code class=\"language-");
    push_str(&mut out, lang);
    push_str(&mut out, "\">");
    let e = html_escape(code);
    push_str(&mut out, e.as_str());
    push_str(&mut out, "</code></pre>");
    string_of(&out)
}

/// Highlights a code block according to the configuration.
pub fn highlight_code(code: &str, lang: &str, config: &MarkdownConfig) -> (r: String)
    ensures
        r@ == highlighted(*config, code@, lang@),
{
    if !config.highlight_code || lang.unicode_len() == 0 {
        return plain_code_html(lang, code);
    }
    let theme = match &config.highlight_theme {
        Some(t) => if str_eq(t.as_str(), "css") { String::from_str(DEFAULT_THEME) } else { t.clone() },
        None => String::from_str(DEFAULT_THEME),
    };
    match syntect_highlight(code, lang, theme.as_str()) {
        Ok(h) => h,
        Err(HighlightFailure::Failed) => plain_code_html(lang, code),
        Err(HighlightFailure::UnknownTheme) => match syntect_highlight(code, lang, DEFAULT_THEME) {
            Ok(h) => h,
            Err(_) => plain_code_html(lang, code),
        },
    }
}

/// The parts joined with `sep` between them.
pub open spec fn join_with(parts: Seq<Seq<char>>, sep: Seq<char>) -> Seq<char>
    decreases parts.len(),
{
    if parts.len() == 0 {
        Seq::empty()
    } else if parts.len() == 1 {
        parts[0]
    } else {
        join_with(parts.drop_last(), sep) + sep + parts.last()
    }
}

/// `s` with every occurrence of `pat` (found left to right) replaced by `rep`, as `str::replace` does.
pub open spec fn replaced(s: Seq<char>, pat: Seq<char>, rep: Seq<char>) -> Seq<char> {
    join_with(split_on(s, pat), rep)
}

fn replace_all(s: &str, pat: &str, rep: &str) -> (r: String)
    requires
        pat@.len() > 0,
    ensures
        r@ == replaced(s@, pat@, rep@),
{
    let v = chars_of(s);
    let p = chars_of(pat);
    let parts = split_text(&v, &p);
    let ghost all = parts@.map_values(|x: Vec<char>| x@);
    let mut out: Vec<char> = Vec::new();
    let mut i: usize = 0;
    while i < parts.len()
        invariant
            i <= parts.len(),
            all == parts@.map_values(|x: Vec<char>| x@),
            out@ == join_with(all.subrange(0, i as int), rep@),
        decreases parts.len() - i,
    {
        assert(all.subrange(0, i + 1).drop_last() =~= all.subrange(0, i as int));
        if i > 0 {
            push_str(&mut out, rep);
        }
        push_all(&mut out, &parts[i]);
        proof {
            if i == 0 {
                assert(out@ =~= join_with(all.subrange(0, 1), rep@));
            }
        }
        i = i + 1;
    }
    assert(all.subrange(0, parts.len() as int) =~= all);
    string_of(&out)
}

/// The HTML that takes the place of an executed block: its highlighted source,
/// then its output and its error, each only when there is one.
pub open spec fn executed_html(b: ExecutableBlock, config: MarkdownConfig) -> Seq<char> {
    "<div class=\"code-block-executed\">"@ + highlighted(config, b.source@, b.language@) + match opt_text(b.output) {
        Some(o) => if o.len() > 0 {
            "<div class=\"code-output\"><pre><code>"@ + escaped(o, false) + "</code></pre></div>"@
        } else {
            Seq::empty()
        },
        None => Seq::empty(),
    } + match opt_text(b.error) {
        Some(e) => if e.len() > 0 {
            "<div class=\"code-error\"><pre><code>"@ + escaped(e, false) + "</code></pre></div>"@
        } else {
            Seq::empty()
        },
        None => Seq::empty(),
    } + "</div>"@
}

/// `html` with the placeholder of each block, in block order, replaced by the block's HTML.
pub open spec fn with_blocks(html: Seq<char>, blocks: Seq<ExecutableBlock>, config: MarkdownConfig) -> Seq<char>
    decreases blocks.len(),
{
    if blocks.len() == 0 {
        html
    } else {
        let prev = with_blocks(html, blocks.drop_last(), config);
        let ph = placeholder((blocks.len() - 1) as nat);
        if contains_seq(prev, ph) {
            replaced(prev, ph, executed_html(blocks.last(), config))
        } else {
            prev
        }
    }
}

pub open spec fn panel_open(is_error: bool) -> Seq<char> {
    if is_error {
        "<div class=\"code-error\"><pre><code>"@
    } else {
        "<div class=\"code-output\"><pre><code>"@
    }
}

fn panel(out: &mut Vec<char>, text: &Option<String>, is_error: bool)
    ensures
        final(out)@ == old(out)@ + match opt_text(*text) {
            Some(t) => if t.len() > 0 {
                panel_open(is_error) + escaped(t, false) + "</code></pre></div>"@
            } else {
                Seq::empty()
            },
            None => Seq::empty(),
        },
{
    match text {
        Some(t) => {
            if t.unicode_len() > 0 {
                if is_error {
                    push_str(out, "<div class=\"code-error\"><pre><code>");
                } else {
                    push_str(out, "<div class=\"code-output\"><pre><code>");
                }
                let e = html_escape(t.as_str());
                push_str(out, e.as_str());
                push_str(out, "</code></pre></div>");
            } else {
                assert(old(out)@ + Seq::<char>::empty() =~= old(out)@);
            }
        },
        None => {
            assert(old(out)@ + Seq::<char>::empty() =~= old(out)@);
        },
    }
}

/// The HTML of one executed block.
pub fn executed_block_html(b: &ExecutableBlock, config: &MarkdownConfig) -> (r: String)
    ensures
        r@ == executed_html(*b, *config),
{
    let mut out = chars_of("<div class=\"code-block-executed\">");
    let src = highlight_code(b.source.as_str(), b.language.as_str(), config);
    push_str(&mut out, src.as_str());
    panel(&mut out, &b.output, false);
    panel(&mut out, &b.error, true);
    push_str(&mut out, "</div>");
    assert(out@ =~= executed_html(*b, *config));
    string_of(&out)
}

/// Replaces the placeholder of each executed block with its highlighted
/// source and its output and error panels.
pub fn replace_exec_placeholders(html: &str, blocks: &Vec<ExecutableBlock>, config: &MarkdownConfig) -> (r: String)
    ensures
        r@ == with_blocks(html@, blocks@, *config),
{
    let mut result = String::from_str(html);
    let mut i: usize = 0;
    while i < blocks.len()
        invariant
            i <= blocks.len(),
            result@ == with_blocks(html@, blocks@.subrange(0, i as int), *config),
        decreases blocks.len() - i,
    {
        assert(blocks@.subrange(0, i + 1).drop_last() =~= blocks@.subrange(0, i as int));
        let ph = exec_placeholder(i);
        let hv = chars_of(result.as_str());
        let pv = chars_of(ph.as_str());
        proof {
            reveal_strlit("<!-- EXEC_BLOCK_");
        }
        if crate::text::find_from(&hv, &pv, 0).is_some() {
            let bh = executed_block_html(&blocks[i], config);
            result = replace_all(result.as_str(), ph.as_str(), bh.as_str());
        } else {
            assert(!contains_seq(hv@, pv@));
        }
        i = i + 1;
    }
    assert(blocks@.subrange(0, blocks.len() as int) =~= blocks@);
    result
}

/// The `file="..."` attribute of an executable block.
pub const FILE_ATTR_PATTERN: &'static str = "file=\"([^\"]+)\"";

/// The first capture of the first match among `ps`.
pub open spec fn first_capture(ps: Seq<Piece>) -> Option<Seq<char>>
    decreases ps.len(),
{
    if ps.len() == 0 {
        None
    } else {
        match ps[0] {
            Piece::Found(c) => crate::pattern::group_text(c, 1),
            Piece::Text(_) => first_capture(ps.drop_first()),
        }
    }
}

/// The language of an executable block's tag (inside the braces) and its
/// referenced file: the tag up to the first space, and the `file="..."`
/// attribute after it, if any.
pub open spec fn code_attrs(tag: Seq<char>) -> (Seq<char>, Option<Seq<char>>) {
    match crate::text::first_index_of(tag, ' ') {
        None => (tag, None),
        Some(i) => {
            let rest = tag.subrange(i + 1, tag.len() as int);
            let ps = regex_pieces(FILE_ATTR_PATTERN@, rest);
            (tag.subrange(0, i), if regex_compiles(FILE_ATTR_PATTERN@) { first_capture(ps) } else { None })
        },
    }
}

proof fn lemma_first_index(s: Seq<char>, c: char)
    ensures
        match crate::text::first_index_of(s, c) {
            Some(i) => 0 <= i < s.len() && s[i] == c && forall|j: int| 0 <= j < i ==> s[j] != c,
            None => forall|j: int| 0 <= j < s.len() ==> s[j] != c,
        },
    decreases s.len(),
{
    if s.len() > 0 {
        lemma_first_index(s.drop_first(), c);
        assert(forall|j: int| 0 < j < s.len() ==> s.drop_first()[j - 1] == s[j]);
    }
}

fn first_found(ps: &Vec<Piece>) -> (r: Option<String>)
    ensures
        opt_text(r) == first_capture(ps@),
{
    let mut i: usize = 0;
    assert(ps@.subrange(0, ps.len() as int) =~= ps@);
    while i < ps.len()
        invariant
            i <= ps.len(),
            first_capture(ps@) == first_capture(ps@.subrange(i as int, ps.len() as int)),
        decreases ps.len() - i,
    {
        assert(ps@.subrange(i as int, ps.len() as int).drop_first() =~= ps@.subrange(i + 1, ps.len() as int));
        match &ps[i] {
            Piece::Found(c) => {
                return crate::pattern::group(c, 1);
            },
            Piece::Text(_) => {},
        }
        i = i + 1;
    }
    None
}

/// Parses an executable block's tag such as `python file="x.py"`.
pub fn parse_code_attrs(tag: &str) -> (r: (String, Option<String>))
    ensures
        code_attrs(tag@).0 == r.0@,
        code_attrs(tag@).1 == opt_text(r.1),
{
    let v = chars_of(tag);
    proof { lemma_first_index(v@, ' '); }
    let mut i: usize = 0;
    while i < v.len() && v[i] != ' '
        invariant
            i <= v.len(),
            v@ == tag@,
            forall|j: int| 0 <= j < i ==> v@[j] != ' ',
        decreases v.len() - i,
    {
        i = i + 1;
    }
    if i == v.len() {
        assert(v@.subrange(0, v.len() as int) =~= v@);
        return (String::from_str(tag), None);
    }
    let lang = slice_chars(&v, 0, i);
    let rest = slice_chars(&v, i + 1, v.len());
    let rest_s = string_of(&rest);
    let file = match scan(FILE_ATTR_PATTERN, rest_s.as_str()) {
        Some(ps) => first_found(&ps),
        None => None,
    };
    (string_of(&lang), file)
}

/// A fenced code block's language tag marks it executable when it is wrapped in braces.
pub open spec fn is_executable_tag(lang: Seq<char>) -> bool {
    lang.len() >= 2 && lang[0] == '{' && lang.last() == '}'
}

/// What the Markdown renderer remembers while it walks the parser's events:
/// the code block or heading it is inside, and the executable blocks found so far.
pub struct MarkdownState {
    pub in_code_block: bool,
    pub code_lang: String,
    pub code_content: String,
    pub in_heading: bool,
    pub heading_text: String,
    /// Executable blocks, in the order of their placeholders.
    pub blocks: Vec<ExecutableBlock>,
}

impl MarkdownState {
    /// Outside any code block or heading, with no block found.
    pub fn new() -> (r: MarkdownState)
        ensures
            !r.in_code_block && !r.in_heading && r.blocks@.len() == 0,
            r.code_content@.len() == 0 && r.heading_text@.len() == 0,
    {
        MarkdownState {
            in_code_block: false,
            code_lang: String::new(),
            code_content: String::new(),
            in_heading: false,
            heading_text: String::new(),
            blocks: Vec::new(),
        }
    }

    /// A code block starts; `lang` is its fence's language tag (empty when indented).
    pub fn start_code_block(&mut self, lang: &str)
        ensures
            final(self).in_code_block,
            final(self).code_lang@ == lang@,
            final(self).code_content@.len() == 0,
            final(self).in_heading == old(self).in_heading,
            final(self).heading_text == old(self).heading_text,
            final(self).blocks == old(self).blocks,
    {
        self.in_code_block = true;
        self.code_lang = String::from_str(lang);
        self.code_content = String::new();
    }

    /// Text. Inside a code block it is collected and consumed (`true`); inside a
    /// heading it is collected as the heading's text and still emitted.
    pub fn text(&mut self, t: &str) -> (consumed: bool)
        ensures
            consumed == old(self).in_code_block,
            old(self).in_code_block ==> final(self).code_content@ == old(self).code_content@ + t@,
            !old(self).in_code_block ==> final(self).code_content == old(self).code_content,
            !old(self).in_code_block && old(self).in_heading ==> final(self).heading_text@ == old(self).heading_text@ + t@,
            old(self).in_code_block || !old(self).in_heading ==> final(self).heading_text == old(self).heading_text,
            final(self).in_code_block == old(self).in_code_block,
            final(self).in_heading == old(self).in_heading,
            final(self).code_lang == old(self).code_lang,
            final(self).blocks == old(self).blocks,
    {
        if self.in_code_block {
            let mut v = chars_of(self.code_content.as_str());
            push_str(&mut v, t);
            self.code_content = string_of(&v);
            true
        } else {
            if self.in_heading {
                let mut v = chars_of(self.heading_text.as_str());
                push_str(&mut v, t);
                self.heading_text = string_of(&v);
            }
            false
        }
    }

    /// The code block ends. An executable one is recorded as the next block and
    /// leaves its placeholder; any other is highlighted.
    pub fn end_code_block(&mut self, config: &MarkdownConfig) -> (html: String)
        ensures
            !final(self).in_code_block,
            final(self).in_heading == old(self).in_heading,
            final(self).heading_text == old(self).heading_text,
            is_executable_tag(old(self).code_lang@) ==> {
                let tag = old(self).code_lang@.subrange(1, old(self).code_lang@.len() - 1);
                let b = final(self).blocks@.last();
                &&& final(self).blocks@.len() == old(self).blocks@.len() + 1
                &&& final(self).blocks@.drop_last() == old(self).blocks@
                &&& b.language@ == code_attrs(tag).0
                &&& opt_text(b.file_ref) == code_attrs(tag).1
                &&& b.source@ == old(self).code_content@
                &&& b.output is None && b.error is None
                &&& html@ == placeholder(old(self).blocks@.len() as nat)
            },
            !is_executable_tag(old(self).code_lang@) ==> {
                &&& final(self).blocks == old(self).blocks
                &&& html@ == highlighted(*config, old(self).code_content@, old(self).code_lang@)
            },
    {
        self.in_code_block = false;
        let lang = chars_of(self.code_lang.as_str());
        if lang.len() >= 2 && lang[0] == '{' && lang[lang.len() - 1] == '}' {
            let inner = slice_chars(&lang, 1, lang.len() - 1);
            let inner = string_of(&inner);
            let (language, file_ref) = parse_code_attrs(inner.as_str());
            let idx = self.blocks.len();
            let ghost pre = self.blocks@;
            self.blocks.push(ExecutableBlock {
                language,
                source: self.code_content.clone(),
                file_ref,
                output: None,
                error: None,
            });
            assert(self.blocks@.drop_last() =~= pre);
            exec_placeholder(idx)
        } else {
            highlight_code(self.code_content.as_str(), self.code_lang.as_str(), config)
        }
    }

    /// A heading starts.
    pub fn start_heading(&mut self)
        ensures
            final(self).in_heading,
            final(self).heading_text@.len() == 0,
            final(self).in_code_block == old(self).in_code_block,
            final(self).code_lang == old(self).code_lang,
            final(self).code_content == old(self).code_content,
            final(self).blocks == old(self).blocks,
    {
        self.in_heading = true;
        self.heading_text = String::new();
    }

    /// The heading ends: the anchor link to emit before its closing tag, if any.
    pub fn end_heading(&mut self, config: &MarkdownConfig) -> (r: Option<String>)
        ensures
            !final(self).in_heading,
            final(self).in_code_block == old(self).in_code_block,
            final(self).code_lang == old(self).code_lang,
            final(self).code_content == old(self).code_content,
            final(self).blocks == old(self).blocks,
            match r {
                Some(h) => config.insert_anchor_links == AnchorLinks::Right && h@ == anchor_link(old(self).heading_text@),
                None => config.insert_anchor_links == AnchorLinks::Off,
            },
    {
        self.in_heading = false;
        heading_anchor(self.heading_text.as_str(), config)
    }
}

/// The parser events that rendering looks at; every other event is `Other`.
#[derive(Clone, Debug)]
pub enum MdEvent {
    /// A code block opens; its fence's language tag (empty when indented).
    CodeStart(String),
    CodeEnd,
    Text(String),
    HeadingStart,
    HeadingEnd,
    LinkStart { dest: String, title: String },
    Other,
}

/// What to emit for an event.
#[derive(Clone, Debug)]
pub enum MdEmit {
    /// The event as it was parsed.
    Keep,
    /// Nothing.
    Drop,
    /// This HTML in place of the event.
    Html(String),
    /// This HTML, then the event.
    HtmlBefore(String),
}

impl MarkdownState {
    /// Handles one parser event: code blocks are collected and replaced by
    /// their HTML (highlighted, or a placeholder for an executable block),
    /// headings get their anchor link, external links their new-tab tag.
    pub fn on_event(&mut self, ev: &MdEvent, config: &MarkdownConfig, base_url: &str) -> (r: MdEmit)
        ensures
            match *ev {
                MdEvent::CodeStart(lang) => r is Drop && final(self).in_code_block
                    && final(self).code_lang@ == lang@ && final(self).code_content@.len() == 0
                    && final(self).in_heading == old(self).in_heading
                    && final(self).heading_text == old(self).heading_text
                    && final(self).blocks == old(self).blocks,
                MdEvent::CodeEnd => !final(self).in_code_block && (r matches MdEmit::Html(h) && ({
                    let lang = old(self).code_lang@;
                    if is_executable_tag(lang) {
                        let tag = lang.subrange(1, lang.len() - 1);
                        let b = final(self).blocks@.last();
                        &&& final(self).blocks@.len() == old(self).blocks@.len() + 1
                        &&& final(self).blocks@.drop_last() == old(self).blocks@
                        &&& b.language@ == code_attrs(tag).0
                        &&& opt_text(b.file_ref) == code_attrs(tag).1
                        &&& b.source@ == old(self).code_content@
                        &&& b.output is None && b.error is None
                        &&& h@ == placeholder(old(self).blocks@.len() as nat)
                    } else {
                        final(self).blocks == old(self).blocks
                            && h@ == highlighted(*config, old(self).code_content@, lang)
                    }
                })),
                MdEvent::Text(t) => {
                    &&& (r is Drop <==> old(self).in_code_block)
                    &&& (r is Keep <==> !old(self).in_code_block)
                    &&& old(self).in_code_block ==> final(self).code_content@ == old(self).code_content@ + t@
                    &&& !old(self).in_code_block && old(self).in_heading ==> final(self).heading_text@ == old(self).heading_text@ + t@
                    &&& final(self).blocks == old(self).blocks
                },
                MdEvent::HeadingStart => r is Keep && final(self).in_heading && final(self).heading_text@.len() == 0
                    && final(self).blocks == old(self).blocks,
                MdEvent::HeadingEnd => !final(self).in_heading && final(self).blocks == old(self).blocks && match r {
                    MdEmit::HtmlBefore(h) => config.insert_anchor_links == AnchorLinks::Right
                        && h@ == anchor_link(old(self).heading_text@),
                    MdEmit::Keep => config.insert_anchor_links == AnchorLinks::Off,
                    _ => false,
                },
                MdEvent::LinkStart { dest, title } => *final(self) == *old(self) && match r {
                    MdEmit::Html(t) => external(dest@, base_url@) && config.external_links_target_blank
                        && t@ == external_link_tag(dest@, title@, config.external_links_no_follow, config.external_links_no_referrer),
                    MdEmit::Keep => !(external(dest@, base_url@) && config.external_links_target_blank),
                    _ => false,
                },
                MdEvent::Other => r is Keep && *final(self) == *old(self),
            },
    {
        match ev {
            MdEvent::CodeStart(lang) => {
                self.start_code_block(lang.as_str());
                MdEmit::Drop
            },
            MdEvent::CodeEnd => MdEmit::Html(self.end_code_block(config)),
            MdEvent::Text(t) => {
                if self.text(t.as_str()) {
                    MdEmit::Drop
                } else {
                    MdEmit::Keep
                }
            },
            MdEvent::HeadingStart => {
                self.start_heading();
                MdEmit::Keep
            },
            MdEvent::HeadingEnd => match self.end_heading(config) {
                Some(a) => MdEmit::HtmlBefore(a),
                None => MdEmit::Keep,
            },
            MdEvent::LinkStart { dest, title } => match link_open_tag(dest.as_str(), title.as_str(), config, base_url) {
                Some(tag) => MdEmit::Html(tag),
                None => MdEmit::Keep,
            },
            MdEvent::Other => MdEmit::Keep,
        }
    }
}

/// The emoji for a shortcode name such as `rocket`.
pub open spec fn emoji_of(name: Seq<char>) -> Option<Seq<char>> {
    if name == "smile"@ {
        Some("\u{1f604}"@)
    } else if name == "laughing"@ {
        Some("\u{1f606}"@)
    } else if name == "heart"@ {
        Some("\u{2764}\u{fe0f}"@)
    } else if name == "thumbsup"@ {
        Some("\u{1f44d}"@)
    } else if name == "+1"@ {
        Some("\u{1f44d}"@)
    } else if name == "thumbsdown"@ {
        Some("\u{1f44e}"@)
    } else if name == "-1"@ {
        Some("\u{1f44e}"@)
    } else if name == "rocket"@ {
        Some("\u{1f680}"@)
    } else if name == "fire"@ {
        Some("\u{1f525}"@)
    } else if name == "star"@ {
        Some("\u{2b50}"@)
    } else if name == "warning"@ {
        Some("\u{26a0}\u{fe0f}"@)
    } else if name == "check"@ {
        Some("\u{2705}"@)
    } else if name == "white_check_mark"@ {
        Some("\u{2705}"@)
    } else if name == "x"@ {
        Some("\u{274c}"@)
    } else if name == "wave"@ {
        Some("\u{1f44b}"@)
    } else if name == "tada"@ {
        Some("\u{1f389}"@)
    } else if name == "thinking"@ {
        Some("\u{1f914}"@)
    } else if name == "eyes"@ {
        Some("\u{1f440}"@)
    } else if name == "100"@ {
        Some("\u{1f4af}"@)
    } else {
        None
    }
}

/// The emoji for a shortcode name, if it is one of the known ones.
pub fn emojify(name: &str) -> (r: Option<&'static str>)
    ensures
        match r {
            Some(e) => emoji_of(name@) == Some(e@),
            None => emoji_of(name@) is None,
        },
{
    if str_eq(name, "smile") {
        Some("\u{1f604}")
    } else if str_eq(name, "laughing") {
        Some("\u{1f606}")
    } else if str_eq(name, "heart") {
        Some("\u{2764}\u{fe0f}")
    } else if str_eq(name, "thumbsup") {
        Some("\u{1f44d}")
    } else if str_eq(name, "+1") {
        Some("\u{1f44d}")
    } else if str_eq(name, "thumbsdown") {
        Some("\u{1f44e}")
    } else if str_eq(name, "-1") {
        Some("\u{1f44e}")
    } else if str_eq(name, "rocket") {
        Some("\u{1f680}")
    } else if str_eq(name, "fire") {
        Some("\u{1f525}")
    } else if str_eq(name, "star") {
        Some("\u{2b50}")
    } else if str_eq(name, "warning") {
        Some("\u{26a0}\u{fe0f}")
    } else if str_eq(name, "check") {
        Some("\u{2705}")
    } else if str_eq(name, "white_check_mark") {
        Some("\u{2705}")
    } else if str_eq(name, "x") {
        Some("\u{274c}")
    } else if str_eq(name, "wave") {
        Some("\u{1f44b}")
    } else if str_eq(name, "tada") {
        Some("\u{1f389}")
    } else if str_eq(name, "thinking") {
        Some("\u{1f914}")
    } else if str_eq(name, "eyes") {
        Some("\u{1f440}")
    } else if str_eq(name, "100") {
        Some("\u{1f4af}")
    } else {
        None
    }
}

/// A block that failed leaves its message visible: when its error is not
/// empty, the HTML that replaces its placeholder holds the escaped error in an
/// error panel.
pub proof fn lemma_error_panel_shown(b: ExecutableBlock, config: MarkdownConfig)
    requires
        b.error matches Some(e) && e@.len() > 0,
    ensures
        contains_seq(
            executed_html(b, config),
            panel_open(true) + escaped(b.error->0@, false) + "</code></pre></div>"@,
        ),
{
    let e = b.error->0@;
    let pre = "<div class=\"code-block-executed\">"@ + highlighted(config, b.source@, b.language@) + match opt_text(b.output) {
        Some(o) => if o.len() > 0 {
            "<div class=\"code-output\"><pre><code>"@ + escaped(o, false) + "</code></pre></div>"@
        } else {
            Seq::empty()
        },
        None => Seq::empty(),
    };
    let p = panel_open(true) + escaped(e, false) + "</code></pre></div>"@;
    let h = executed_html(b, config);
    assert(h =~= pre + p + "</div>"@);
    assert(h.subrange(pre.len() as int, pre.len() + p.len() as int) =~= p);
    assert(occurs_at(h, p, pre.len() as int));
}

/// Emoji shortcodes such as `:rocket:`.
pub const EMOJI_PATTERN: &'static str = ":(\\w+):";

/// What a piece becomes: a known emoji shortcode becomes its emoji; anything else stays.
pub open spec fn emoji_piece(p: Piece) -> Seq<char> {
    match p {
        Piece::Text(t) => t@,
        Piece::Found(c) => match crate::pattern::group_text(c, 1) {
            Some(n) => match emoji_of(n) {
                Some(e) => e,
                None => c.whole@,
            },
            None => c.whole@,
        },
    }
}

pub open spec fn emoji_text(ps: Seq<Piece>) -> Seq<char>
    decreases ps.len(),
{
    if ps.len() == 0 {
        Seq::empty()
    } else {
        emoji_text(ps.drop_last()) + emoji_piece(ps.last())
    }
}

/// Replaces the known emoji shortcodes of `html` with their emoji.
pub fn render_emoji(html: &str) -> (r: String)
    ensures
        regex_compiles(EMOJI_PATTERN@) ==> r@ == emoji_text(regex_pieces(EMOJI_PATTERN@, html@)),
        !regex_compiles(EMOJI_PATTERN@) ==> r@ == html@,
{
    let ps = match scan(EMOJI_PATTERN, html) {
        Some(p) => p,
        None => {
            return String::from_str(html);
        },
    };
    let mut out: Vec<char> = Vec::new();
    let mut i: usize = 0;
    while i < ps.len()
        invariant
            i <= ps.len(),
            out@ == emoji_text(ps@.subrange(0, i as int)),
        decreases ps.len() - i,
    {
        assert(ps@.subrange(0, i + 1).drop_last() =~= ps@.subrange(0, i as int));
        assert(ps@.subrange(0, i + 1).last() == ps@[i as int]);
        match &ps[i] {
            Piece::Text(t) => push_str(&mut out, t.as_str()),
            Piece::Found(c) => {
                match crate::pattern::group(c, 1) {
                    Some(n) => match emojify(n.as_str()) {
                        Some(e) => push_str(&mut out, e),
                        None => push_str(&mut out, c.whole.as_str()),
                    },
                    None => push_str(&mut out, c.whole.as_str()),
                }
            },
        }
        i = i + 1;
    }
    assert(ps@.subrange(0, ps.len() as int) =~= ps@);
    string_of(&out)
}

} // verus!
