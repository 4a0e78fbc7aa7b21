//! The failures this library reports.

use vstd::prelude::*;

verus! {

/// An error of the operating system, carried through untouched.
#[verifier::external_type_specification]
#[verifier::external_body]
pub struct ExIoError(std::io::Error);

/// A version text that `semver` could not read.
#[verifier::external_type_specification]
#[verifier::external_body]
pub struct ExSemverError(semver::Error);

/// A template that `handlebars` could not render.
#[verifier::external_type_specification]
#[verifier::external_body]
pub struct ExRenderError(handlebars::RenderError);

/// A content type that `mime` could not read.
#[verifier::external_type_specification]
#[verifier::external_body]
pub struct ExMimeError(mime_guess::mime::FromStrError);

/// Everything that can go wrong while a book is turned into an e-book.
#[derive(Debug)]
pub enum EpubError {
    /// The caller's `mdbook` is not one this backend works with: the
    /// version wanted, then the version found.
    IncompatibleVersion(String, String),
    /// The document could not be set up.
    EpubDocCreate(String),
    /// The chapter template is not a valid template.
    TemplateParse,
    /// A chapter has no content file: it is a draft.
    ContentFileNotFound(String),
    /// An asset link leads to no file, or the remote resource is missing.
    AssetFileNotFound(String),
    /// An asset link leads to something that is not a plain file; holds the
    /// location found.
    AssetFile(String),
    /// A stylesheet could not be opened.
    CssOpen(String),
    /// The template file could not be opened.
    OpenTemplate(String),
    /// The render context could not be read.
    RenderContext,
    /// An action on an asset file failed.
    AssetFileIo { action: String, path: String, source: std::io::Error },
    /// A path could not be resolved.
    AssetPathIo { path: String, source: std::io::Error },
    /// An asset could not be opened.
    AssetOpen(std::io::Error),
    /// A resource file was not found under any root that was tried.
    ResourceNotFound(String),
    /// A stylesheet could not be read.
    StylesheetRead,
    /// The validator rejected the finished document.
    EpubCheck(String),
    /// An asset link leads out of the book's source directory; holds the
    /// location the link was resolved to.
    AssetOutsideSrcDir(String),
    /// The book could not be loaded.
    Book(String),
    /// A version text could not be read.
    Semver(semver::Error),
    /// The container could not be written.
    EpubBuilder(String),
    /// A chapter could not be rendered through the template.
    Render(handlebars::RenderError),
    /// The configuration could not be read.
    TomlDeser(String),
    /// A download failed for a reason other than a missing resource.
    HttpError(String),
    /// The content type of a download could not be read.
    MimeTypeError(mime_guess::mime::FromStrError),
    /// The book's title cannot serve as a file name.
    EpubBookNameOrPath(String),
}

/// Tells which action on which file failed: an `Err` becomes
/// [`EpubError::AssetFileIo`] with the action and the path, an `Ok` is handed on.
pub fn file_io<T>(result: Result<T, std::io::Error>, action: &str, path: &str) -> (r: Result<
    T,
    EpubError,
>)
    ensures
        match result {
            Ok(v) => r == Ok::<T, EpubError>(v),
            Err(e) => r matches Err(EpubError::AssetFileIo { action: a, path: p, source })
                && a@ == action@ && p@ == path@ && source == e,
        },
{
    match result {
        Ok(v) => Ok(v),
        Err(e) => Err(
            EpubError::AssetFileIo { action: action.to_owned(), path: path.to_owned(), source: e },
        ),
    }
}

/// Tells which path could not be resolved: an `Err` becomes
/// [`EpubError::AssetPathIo`] with the path, an `Ok` is handed on.
pub fn path_io<T>(result: Result<T, std::io::Error>, path: &str) -> (r: Result<T, EpubError>)
    ensures
        match result {
            Ok(v) => r == Ok::<T, EpubError>(v),
            Err(e) => r matches Err(EpubError::AssetPathIo { path: p, source }) && p@ == path@
                && source == e,
        },
{
    match result {
        Ok(v) => Ok(v),
        Err(e) => Err(EpubError::AssetPathIo { path: path.to_owned(), source: e }),
    }
}

} // verus!
