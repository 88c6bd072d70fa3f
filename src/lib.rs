//! A static site generator's content pipeline: content paths and front
//! matter, internal links, shortcodes, Markdown post-processing, executable
//! code blocks and the preview server's decisions.
pub mod assets;
pub mod config;
pub mod content;
pub mod dates;
pub mod execute;
pub mod links;
pub mod markdown;
pub mod paginate;
pub mod pattern;
pub mod serve;
pub mod shortcodes;
pub mod taxonomy;
pub mod templates;
pub mod text;
