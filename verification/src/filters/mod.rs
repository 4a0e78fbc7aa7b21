//! The filters a chapter's tokens pass through, in this order: quotes,
//! asset links, footnotes.

pub mod asset_link;
pub mod footnote;
pub mod quote_converter;
