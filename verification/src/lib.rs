//! Turns the chapters of a markdown book into the content of an e-book:
//! resolves the assets a chapter links to, rewrites the links, and filters
//! the chapter's tokens on their way to HTML.

use vstd::prelude::*;

pub mod asset;
pub mod book;
pub mod config;
pub mod errors;
pub mod filters;
pub mod generator;
pub mod html;
pub mod paths;
pub mod resource;
pub mod retrieve;
pub mod table;
pub mod text;
pub mod token;
pub mod validation;

pub use config::Config;
pub use errors::{file_io, path_io, EpubError};
pub use filters::asset_link::AssetRemoteLinkFilter;
pub use filters::footnote::FootnoteFilter;
pub use filters::quote_converter::QuoteConverterFilter;
pub use paths::{normalize_path, PathStyle};
pub use retrieve::RetrievedContent;
pub use validation::is_valid_filename;

verus! {

/// Whether a version satisfies a requirement, as `semver` reads both, or
/// nothing where it can read one of them not.
pub uninterp spec fn version_satisfies(requirement: Seq<char>, version: Seq<char>) -> Option<bool>;

/// `semver::Version::parse` on the version, `semver::VersionReq::parse` on
/// the requirement, and `VersionReq::matches` on the two. The result is the
/// named function of the two texts.
#[verifier::external_body]
fn semver_matches(requirement: &str, version: &str) -> (r: Result<bool, semver::Error>)
    ensures
        r is Ok == version_satisfies(requirement@, version@) is Some,
        r is Ok ==> r->Ok_0 == version_satisfies(requirement@, version@)->0,
{
    let provided = semver::Version::parse(version)?;
    let required = semver::VersionReq::parse(requirement)?;
    Ok(required.matches(&provided))
}

/// Check that the version of `mdbook` we're called by is compatible with
/// this backend: it must lie in the same minor line as the version this
/// backend was made for, which is what the requirement `~` and that
/// version says.
pub fn version_check(required: &str, provided: &str) -> (r: Result<(), EpubError>)
    ensures
        match version_satisfies("~"@ + required@, provided@) {
            Some(ok) => if ok {
                r is Ok
            } else {
                r matches Err(EpubError::IncompatibleVersion(want, got)) && want@ == required@
                    && got@ == provided@
            },
            None => r matches Err(EpubError::Semver(_)),
        },
{
    let mut req: Vec<char> = Vec::new();
    text::push_str(&mut req, "~");
    text::push_str(&mut req, required);
    assert(req@ =~= "~"@ + required@);
    let requirement = text::string_of(&req);
    match semver_matches(requirement.as_str(), provided) {
        Ok(true) => Ok(()),
        Ok(false) => Err(EpubError::IncompatibleVersion(required.to_owned(), provided.to_owned())),
        Err(e) => Err(EpubError::Semver(e)),
    }
}

/// Where the book is written, as text: under `dest`, the title with the
/// extension `epub`, or `book.epub` for a book without a title.
pub open spec fn output_path(style: PathStyle, dest: Seq<char>, title: Option<Seq<char>>) -> Seq<
    char,
> {
    match title {
        Some(t) => paths::extended(style, paths::joined(style, dest, t), "epub"@),
        None => paths::joined(style, dest, "book.epub"@),
    }
}

/// Calculate the output filename from the book's title. A title that
/// cannot serve as a file name gives [`EpubError::EpubBookNameOrPath`].
pub fn output_filename(style: PathStyle, dest: &str, title: Option<&str>) -> (r: Result<
    String,
    EpubError,
>)
    ensures
        match title {
            Some(t) => if validation::valid_filename(t@) {
                r matches Ok(p) && p@ == output_path(style, dest@, Some(t@))
            } else {
                r matches Err(EpubError::EpubBookNameOrPath(name)) && name@ == t@
            },
            None => r matches Ok(p) && p@ == output_path(style, dest@, None),
        },
{
    match title {
        Some(t) => {
            match validation::validate_config_title_file_name(Some(t)) {
                Ok(_) => {
                    let joined = paths::join(style, dest, t);
                    Ok(paths::with_extension(style, joined.as_str(), "epub"))
                },
                Err(e) => Err(e),
            }
        },
        None => Ok(paths::join(style, dest, "book.epub")),
    }
}

} // verus!
