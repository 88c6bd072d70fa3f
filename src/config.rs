//! Rendering options that the pipeline reads from the site configuration.
use vstd::prelude::*;

verus! {

/// Where to insert anchor links on headings.
#[derive(Clone, Copy, Debug, PartialEq, Eq, Structural)]
pub enum AnchorLinks {
    /// No anchor links.
    Off,
    /// Anchor link appended after the heading text.
    Right,
}

/// How the pages of a section are ordered.
#[derive(Clone, Copy, Debug, PartialEq, Eq, Structural)]
pub enum SortBy {
    /// Newest first; undated pages last.
    Date,
    /// Alphabetical by title.
    Title,
}

/// Options of the Markdown rendering pipeline.
#[derive(Clone, Debug)]
pub struct MarkdownConfig {
    /// Highlight fenced code blocks.
    pub highlight_code: bool,
    /// Insert anchor links on headings.
    pub insert_anchor_links: AnchorLinks,
    /// Highlighting theme name; `None` selects the default theme.
    pub highlight_theme: Option<String>,
    /// Open external links in a new tab.
    pub external_links_target_blank: bool,
    /// Add `nofollow` to the `rel` of external links.
    pub external_links_no_follow: bool,
    /// Add `noreferrer` to the `rel` of external links.
    pub external_links_no_referrer: bool,
    /// Enable smart punctuation.
    pub smart_punctuation: bool,
}

impl MarkdownConfig {
    /// Highlighting on, everything else off.
    pub fn new() -> (r: MarkdownConfig)
        ensures
            r.highlight_code,
            r.insert_anchor_links == AnchorLinks::Off,
            r.highlight_theme is None,
            !r.external_links_target_blank,
            !r.external_links_no_follow,
            !r.external_links_no_referrer,
            !r.smart_punctuation,
    {
        MarkdownConfig {
            highlight_code: true,
            insert_anchor_links: AnchorLinks::Off,
            highlight_theme: None,
            external_links_target_blank: false,
            external_links_no_follow: false,
            external_links_no_referrer: false,
            smart_punctuation: false,
        }
    }
}

impl Default for MarkdownConfig {
    fn default() -> (r: MarkdownConfig)
        ensures
            r.highlight_code,
            r.insert_anchor_links == AnchorLinks::Off,
            r.highlight_theme is None,
            !r.external_links_target_blank,
            !r.external_links_no_follow,
            !r.external_links_no_referrer,
            !r.smart_punctuation,
    {
        MarkdownConfig::new()
    }
}

/// A taxonomy declared by the site (e.g. `tags`).
#[derive(Clone, Debug)]
pub struct TaxonomyConfig {
    /// Taxonomy name, also the front-matter key that lists its terms.
    pub name: String,
}

/// Default for boolean options that are on unless switched off.
pub fn default_true() -> (r: bool)
    ensures
        r,
{
    true
}

/// Default site language.
pub fn default_en() -> (r: String)
    ensures
        r@ == "en"@,
{
    String::from_str("en")
}

} // verus!
