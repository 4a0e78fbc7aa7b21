//! What a download brings back, and what it changes about an asset.

use vstd::prelude::*;
use crate::asset::{Asset, AssetKind, AssetView, SourceView, UpdatedAssetData};
use crate::errors::EpubError;
use crate::paths::{extension, extension_of, parent, parent_of, PathStyle};
use crate::text::{framed, push_decimal, push_str, string_of};

verus! {

/// The bytes of a downloaded resource with the content type and the file
/// extension that the bytes themselves show.
#[derive(Debug, Clone, PartialEq)]
pub struct RetrievedContent {
    /// The content itself.
    pub bytes: Vec<u8>,
    /// Mime type as string.
    pub mime_type: String,
    /// File extension.
    pub extension: String,
    /// The content's size in bytes, where it is known.
    pub size: Option<u64>,
}

impl RetrievedContent {
    /// A record of exactly the given values.
    pub fn new(bytes: Vec<u8>, mime_type: String, extension: String, size: Option<u64>) -> (r:
        Self)
        ensures
            r.bytes == bytes,
            r.mime_type == mime_type,
            r.extension == extension,
            r.size == size,
    {
        Self { bytes, mime_type, extension, size }
    }

    /// How the size is written: the number and ` bytes`, or `unknown size`.
    pub open spec fn size_text(size: Option<u64>) -> Seq<char> {
        match size {
            Some(n) => crate::text::decimal(n as nat) + " bytes"@,
            None => "unknown size"@,
        }
    }

    /// The one-line description of a record.
    pub open spec fn description(self) -> Seq<char> {
        "RetrievedContent { mime_type: "@ + self.mime_type@ + ", extension: "@ + self.extension@
            + ", size: "@ + Self::size_text(self.size) + " }"@
    }

    /// The record in one line, without the content.
    pub fn describe(&self) -> (r: String)
        ensures
            r@ == self.description(),
    {
        let mut out: Vec<char> = Vec::new();
        push_str(&mut out, "RetrievedContent { mime_type: ");
        push_str(&mut out, self.mime_type.as_str());
        push_str(&mut out, ", extension: ");
        push_str(&mut out, self.extension.as_str());
        push_str(&mut out, ", size: ");
        let ghost before = out@;
        match self.size {
            Some(n) => {
                push_decimal(&mut out, n);
                push_str(&mut out, " bytes");
                assert(out@ =~= before + Self::size_text(self.size));
            },
            None => {
                push_str(&mut out, "unknown size");
            },
        }
        push_str(&mut out, " }");
        assert(out@ =~= self.description());
        string_of(&out)
    }
}

/// The content type and the file extension that `infer` reads off the first
/// bytes of a content, where it knows the signature.
pub uninterp spec fn sniffed(bytes: Seq<u8>) -> Option<(Seq<char>, Seq<char>)>;

/// `infer::Infer::new().get` on the bytes, with `mime_type` and `extension`
/// of the type found. The result is the named function of the bytes.
#[verifier::external_body]
fn sniff(bytes: &Vec<u8>) -> (r: Option<(String, String)>)
    ensures
        match r {
            Some(kind) => sniffed(bytes@) == Some((kind.0@, kind.1@)),
            None => sniffed(bytes@) is None,
        },
{
    let kind = infer::Infer::new().get(bytes.as_slice())?;
    Some((kind.mime_type().to_string(), kind.extension().to_string()))
}

/// How `mime` writes a content type that it can read, or nothing where it
/// cannot read the text.
pub uninterp spec fn parsed_mime(text: Seq<char>) -> Option<Seq<char>>;

/// `<mime::Mime as FromStr>::from_str` on the text, and the content type it
/// gives written out again. The result is the named function of the text.
#[verifier::external_body]
fn parse_mime(text: &str) -> (r: Result<String, mime_guess::mime::FromStrError>)
    ensures
        r is Ok == parsed_mime(text@) is Some,
        r is Ok ==> r->Ok_0@ == parsed_mime(text@)->0,
{
    let mime: mime_guess::mime::Mime = text.parse()?;
    Ok(mime.to_string())
}

/// The message for a download whose content shows no known type.
pub open spec fn unknown_type_message(url: Seq<char>) -> Seq<char> {
    "Could not determine mime-type for resource: "@ + url
}

/// The message for a resource that the server does not have.
pub open spec fn missing_resource_message(url: Seq<char>) -> Seq<char> {
    "Missing remote resource: "@ + url
}

/// The message for an answer that is neither the resource nor its absence.
pub open spec fn unexpected_status_message(url: Seq<char>) -> Seq<char> {
    "Unexpected response status for '"@ + url + "'"@
}

/// What an answer to a download comes to, for a content type that was read
/// off the bytes before.
///
/// Status 200 with a known type gives the content with that type; status
/// 200 with no known type and status 404 give
/// [`EpubError::AssetFileNotFound`]; any other status gives
/// [`EpubError::HttpError`].
pub fn content_of(url: &str, status: u16, bytes: Vec<u8>, kind: Option<(String, String)>) -> (r:
    Result<RetrievedContent, EpubError>)
    ensures
        status == 200 ==> match kind {
            Some(k) => r matches Ok(c) && c.bytes == bytes && c.mime_type == k.0 && c.extension
                == k.1 && c.size == Some(bytes@.len() as u64),
            None => true,
        },
        status == 200 && kind is None ==> (r matches Err(EpubError::AssetFileNotFound(m)) && m@
            == unknown_type_message(url@)),
        status == 404 ==> (r matches Err(EpubError::AssetFileNotFound(m)) && m@
            == missing_resource_message(url@)),
        status != 200 && status != 404 ==> (r matches Err(EpubError::HttpError(m)) && m@
            == unexpected_status_message(url@)),
{
    if status == 200 {
        match kind {
            Some((mime_type, extension)) => {
                let size = bytes.len() as u64;
                Ok(RetrievedContent { bytes, mime_type, extension, size: Some(size) })
            },
            None => {
                let m = framed("Could not determine mime-type for resource: ", url, "");
                proof {
                    reveal_strlit("");
                }
                assert(m@ =~= unknown_type_message(url@));
                Err(EpubError::AssetFileNotFound(m))
            },
        }
    } else if status == 404 {
        let m = framed("Missing remote resource: ", url, "");
        proof {
            reveal_strlit("");
        }
        assert(m@ =~= missing_resource_message(url@));
        Err(EpubError::AssetFileNotFound(m))
    } else {
        Err(EpubError::HttpError(framed("Unexpected response status for '", url, "'")))
    }
}

/// What an answer to a download comes to: the content with the type that
/// its own bytes show. See [`content_of`].
pub fn retrieve(url: &str, status: u16, bytes: Vec<u8>) -> (r: Result<RetrievedContent, EpubError>)
    ensures
        status == 200 && sniffed(bytes@) is Some ==> (r matches Ok(c) && c.bytes == bytes && (
            c.mime_type@,
            c.extension@,
        ) == sniffed(bytes@)->0 && c.size == Some(bytes@.len() as u64)),
        status == 200 && sniffed(bytes@) is None ==> (r matches Err(
            EpubError::AssetFileNotFound(m),
        ) && m@ == unknown_type_message(url@)),
        status == 404 ==> (r matches Err(EpubError::AssetFileNotFound(m)) && m@
            == missing_resource_message(url@)),
        status != 200 && status != 404 ==> (r matches Err(EpubError::HttpError(m)) && m@
            == unexpected_status_message(url@)),
{
    let kind = if status == 200 {
        sniff(&bytes)
    } else {
        None
    };
    content_of(url, status, bytes, kind)
}

/// The fields of an asset that a download settles, as mathematical values.
pub struct UpdateView {
    /// The content type.
    pub mimetype: Seq<char>,
    /// The absolute location on disk.
    pub location_on_disk: Seq<char>,
    /// The name inside the container.
    pub filename: Seq<char>,
}

impl View for UpdatedAssetData {
    type V = UpdateView;

    open spec fn view(&self) -> UpdateView {
        UpdateView {
            mimetype: self.mimetype@,
            location_on_disk: self.location_on_disk@,
            filename: self.filename@,
        }
    }
}

/// The fields of an asset as they stand.
pub open spec fn fields_of(a: AssetView) -> UpdateView {
    UpdateView {
        mimetype: a.mimetype,
        location_on_disk: a.location_on_disk,
        filename: a.filename,
    }
}

/// The asset with the fields that a download settles replaced.
pub open spec fn updated(a: AssetView, u: UpdateView) -> AssetView {
    AssetView {
        original_link: a.original_link,
        location_on_disk: u.location_on_disk,
        filename: u.filename,
        mimetype: u.mimetype,
        source: a.source,
    }
}

/// What is to be done next for an asset, as a mathematical value.
pub enum StepView {
    /// Nothing: the asset's fields stand as given.
    Keep(UpdateView),
    /// The content is to be fetched from `url`, after `cache_dir` was made
    /// if the location has a directory above it.
    Fetch { url: Seq<char>, cache_dir: Option<Seq<char>> },
}

/// What is to be done next for an asset.
#[derive(Debug, Clone, PartialEq, Eq)]
pub enum DownloadStep {
    /// Nothing: the asset's fields stand as given.
    Keep(UpdatedAssetData),
    /// The content is to be fetched from `url`, after `cache_dir` was made
    /// if the location has a directory above it.
    Fetch { url: String, cache_dir: Option<String> },
}

impl View for DownloadStep {
    type V = StepView;

    open spec fn view(&self) -> StepView {
        match self {
            DownloadStep::Keep(u) => StepView::Keep(u@),
            DownloadStep::Fetch { url, cache_dir } => StepView::Fetch {
                url: url@,
                cache_dir: match cache_dir {
                    Some(d) => Some(d@),
                    None => None,
                },
            },
        }
    }
}

/// What is to be done next for an asset, given whether a regular file lies
/// at its location: a local asset and a remote one whose file is there are
/// kept as they are; any other remote asset is to be fetched.
pub open spec fn next_step(style: PathStyle, a: AssetView, dest_is_file: bool) -> StepView {
    match a.source {
        SourceView::Local(_) => StepView::Keep(fields_of(a)),
        SourceView::Remote(url) => if dest_is_file {
            StepView::Keep(fields_of(a))
        } else {
            StepView::Fetch { url: url.text, cache_dir: parent_of(style, a.location_on_disk) }
        },
    }
}

/// The fields of an asset after its content was fetched: the content type
/// is that of the content, and an asset whose name has no extension gets
/// the content's extension, after a `.`, at the end of both its name and
/// its location. `mime` stands for the content type as `mime` writes it.
pub open spec fn fetched_fields(
    style: PathStyle,
    a: AssetView,
    extension: Seq<char>,
    mime: Seq<char>,
) -> UpdateView {
    if extension_of(style, a.filename) is None {
        UpdateView {
            mimetype: mime,
            location_on_disk: a.location_on_disk + seq!['.'] + extension,
            filename: a.filename + seq!['.'] + extension,
        }
    } else {
        UpdateView { mimetype: mime, location_on_disk: a.location_on_disk, filename: a.filename }
    }
}

/// The fields of the asset, copied.
fn current_fields(asset: &Asset) -> (r: UpdatedAssetData)
    ensures
        r@ == fields_of(asset@),
{
    UpdatedAssetData {
        mimetype: asset.mimetype.clone(),
        location_on_disk: asset.location_on_disk.clone(),
        filename: asset.filename.clone(),
    }
}

/// What is to be done to have an asset's content on disk, given whether a
/// regular file lies at its location already: see [`next_step`]. Where the
/// file is there nothing is fetched, and the fields handed back are the
/// asset's own.
pub fn download(style: PathStyle, asset: &Asset, dest_is_file: bool) -> (r: DownloadStep)
    ensures
        r@ == next_step(style, asset@, dest_is_file),
        dest_is_file ==> r@ == StepView::Keep(fields_of(asset@)),
{
    match &asset.source {
        AssetKind::Local(_) => DownloadStep::Keep(current_fields(asset)),
        AssetKind::Remote(url) => {
            if dest_is_file {
                DownloadStep::Keep(current_fields(asset))
            } else {
                DownloadStep::Fetch {
                    url: url.text.clone(),
                    cache_dir: parent(style, asset.location_on_disk.as_str()),
                }
            }
        },
    }
}

/// The fields of an asset after its content was fetched: see
/// [`fetched_fields`]. A content type that `mime` cannot read gives
/// [`EpubError::MimeTypeError`].
pub fn downloaded(style: PathStyle, asset: &Asset, content: &RetrievedContent) -> (r: Result<
    UpdatedAssetData,
    EpubError,
>)
    ensures
        match parsed_mime(content.mime_type@) {
            Some(mime) => r matches Ok(u) && u@ == fetched_fields(
                style,
                asset@,
                content.extension@,
                mime,
            ),
            None => r matches Err(EpubError::MimeTypeError(_)),
        },
{
    let mimetype = match parse_mime(content.mime_type.as_str()) {
        Ok(m) => m,
        Err(e) => {
            return Err(EpubError::MimeTypeError(e));
        },
    };
    if extension(style, asset.filename.as_str()).is_none() {
        let filename = framed(asset.filename.as_str(), ".", content.extension.as_str());
        let location_on_disk = framed(
            asset.location_on_disk.as_str(),
            ".",
            content.extension.as_str(),
        );
        proof {
            reveal_strlit(".");
            assert("."@ =~= seq!['.']);
        }
        Ok(UpdatedAssetData { mimetype, location_on_disk, filename })
    } else {
        Ok(
            UpdatedAssetData {
                mimetype,
                location_on_disk: asset.location_on_disk.clone(),
                filename: asset.filename.clone(),
            },
        )
    }
}

/// Downloading is idempotent: once the file of an asset is there, nothing
/// is fetched, the fields handed back are the asset's own, and writing them
/// over the asset leaves it as it was.
pub proof fn cached_download_changes_nothing(style: PathStyle, a: AssetView)
    ensures
        next_step(style, a, true) == StepView::Keep(fields_of(a)),
        updated(a, fields_of(a)) == a,
{
}

} // verus!
