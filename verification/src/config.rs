//! What the user can set about the way a book is rendered.

use vstd::prelude::*;
use crate::paths::{join, joined, PathStyle};

verus! {

/// The configuration struct used to tweak how an EPUB document is generated.
#[derive(Debug, Clone, PartialEq)]
pub struct Config {
    /// A list of additional stylesheets to include in the document.
    pub additional_css: Vec<String>,
    /// Should we use the default stylesheet (default: true)?
    pub use_default_css: bool,
    /// The template file to use when rendering individual chapters (relative
    /// to the book root).
    pub index_template: Option<String>,
    /// A cover image to use for the epub.
    pub cover_image: Option<String>,
    /// Additional assets to include in the ebook, such as typefaces.
    pub additional_resources: Vec<String>,
    /// Don't render section labels.
    pub no_section_label: bool,
    /// Use "smart quotes" instead of the usual `"` character.
    pub curly_quotes: bool,
    /// Add backreference links to footnote definitions and allow pop-up
    /// footnote behaviour. Takes effect only with `epub_version` 3.
    pub footnote_backrefs: bool,
    /// EPUB version to use if specified, otherwise the container writer's
    /// own default.
    pub epub_version: Option<u8>,
}

impl Default for Config {
    fn default() -> (r: Config)
        ensures
            r.additional_css@.len() == 0,
            r.use_default_css,
            r.index_template is None,
            r.cover_image is None,
            r.additional_resources@.len() == 0,
            !r.no_section_label,
            !r.curly_quotes,
            !r.footnote_backrefs,
            r.epub_version is None,
    {
        Config {
            use_default_css: true,
            additional_css: Vec::new(),
            index_template: None,
            cover_image: None,
            additional_resources: Vec::new(),
            no_section_label: false,
            curly_quotes: false,
            footnote_backrefs: false,
            epub_version: None,
        }
    }
}

impl Config {
    /// The configuration with the template file, where one is set, placed
    /// under the book's root; every other setting is kept.
    pub fn rooted_at(self, style: PathStyle, root: &str) -> (r: Config)
        ensures
            match self.index_template {
                Some(t) => r.index_template matches Some(p) && p@ == joined(style, root@, t@),
                None => r.index_template is None,
            },
            r.additional_css == self.additional_css,
            r.use_default_css == self.use_default_css,
            r.cover_image == self.cover_image,
            r.additional_resources == self.additional_resources,
            r.no_section_label == self.no_section_label,
            r.curly_quotes == self.curly_quotes,
            r.footnote_backrefs == self.footnote_backrefs,
            r.epub_version == self.epub_version,
    {
        let mut cfg = self;
        let placed = match &cfg.index_template {
            Some(t) => Some(join(style, root, t.as_str())),
            None => None,
        };
        cfg.index_template = placed;
        cfg
    }

    /// Whether footnotes are collected and given back-references: only for
    /// version 3 of the format, and only when asked for.
    pub open spec fn wants_footnote_backrefs(self) -> bool {
        self.epub_version == Some(3u8) && self.footnote_backrefs
    }

    /// Executable form of [`Config::wants_footnote_backrefs`].
    pub fn footnote_backrefs_enabled(&self) -> (r: bool)
        ensures
            r == self.wants_footnote_backrefs(),
    {
        match self.epub_version {
            Some(v) => v == 3 && self.footnote_backrefs,
            None => false,
        }
    }
}

} // verus!
