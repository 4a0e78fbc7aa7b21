//! Assets: what a link in a chapter leads to, where its bytes lie, and under
//! which name it goes into the container.

use std::hash::{Hash, Hasher};
use vstd::prelude::*;
use crate::errors::EpubError;
use crate::paths::{
    clean_name, ends_with_name, extension, extension_of, join, joined, lemma_above_is_not_below,
    lemma_extension_is_plain, named, normalize_path, normalized, pop, popped, rendered,
    slash_form, strip_prefix, stripped, to_slash_form, well_formed, Part, PathStyle,
};
use crate::text::{
    chars_of, has_prefix, lemma_lower_hex_digits, lower_hex, matches_at, push_hex, push_str,
    starts_with, string_of, substring,
};

verus! {

/// What the logic reads of a parsed URL, as mathematical values.
pub struct UrlParts {
    /// The URL as it is written once parsed.
    pub text: Seq<char>,
    /// The path part of the URL.
    pub path: Seq<char>,
    /// The number the URL hashes to.
    pub digest: u64,
}

/// What `url::Url::parse` makes of a link: whether it is an absolute URL
/// and, if so, how the URL is written, its path, and what it hashes to.
pub uninterp spec fn parsed_url(link: Seq<char>) -> Option<UrlParts>;

/// A parsed absolute URL, held as the values the logic reads.
#[derive(Debug, Clone, PartialEq, Eq)]
pub struct RemoteUrl {
    /// The URL as it is written once parsed.
    pub text: String,
    /// The path part of the URL.
    pub path: String,
    /// The number the URL hashes to: the identity of the resource.
    pub digest: u64,
}

impl View for RemoteUrl {
    type V = UrlParts;

    open spec fn view(&self) -> UrlParts {
        UrlParts { text: self.text@, path: self.path@, digest: self.digest }
    }
}

impl RemoteUrl {
    /// A copy of this URL.
    pub fn duplicate(&self) -> (r: RemoteUrl)
        ensures
            r@ == self@,
    {
        RemoteUrl { text: self.text.clone(), path: self.path.clone(), digest: self.digest }
    }

    /// The URL that a link spells, if it spells one.
    pub fn parse(link: &str) -> (r: Option<RemoteUrl>)
        ensures
            r is Some == parsed_url(link@) is Some,
            r is Some ==> r->0@ == parsed_url(link@)->0,
    {
        parse_url(link)
    }
}

/// `url::Url::parse` on the link; of a URL that parses, `as_str`, `path`,
/// and the number its `Hash` impl feeds to a fresh
/// `std::collections::hash_map::DefaultHasher`. The result is the named
/// function of the link: the same link gives the same values, as long as
/// the hasher of the standard library stays the one it is.
#[verifier::external_body]
fn parse_url(link: &str) -> (r: Option<RemoteUrl>)
    ensures
        r is Some == parsed_url(link@) is Some,
        r is Some ==> r->0@ == parsed_url(link@)->0,
{
    let url = url::Url::parse(link).ok()?;
    let mut hasher = std::collections::hash_map::DefaultHasher::new();
    url.hash(&mut hasher);
    Some(
        RemoteUrl {
            text: url.as_str().to_string(),
            path: url.path().to_string(),
            digest: hasher.finish(),
        },
    )
}

/// What kind of link a chapter holds.
#[derive(Debug, Clone, PartialEq, Eq)]
pub enum LinkKind {
    /// A link into the file system, relative to the chapter.
    Local,
    /// An absolute `http` or `https` URL.
    Remote(RemoteUrl),
}

/// Whether a parsed URL is written with the scheme `http` or `https`.
pub open spec fn web_url(text: Seq<char>) -> bool {
    has_prefix(text, "http://"@) || has_prefix(text, "https://"@)
}

/// Whether the link is remote: it parses as an absolute URL whose scheme is
/// `http` or `https`. Every other link is local.
pub open spec fn remote_link(link: Seq<char>) -> bool {
    parsed_url(link) is Some && web_url(parsed_url(link)->0.text)
}

/// Whether the link is an absolute URL of a scheme other than `http` and
/// `https`, such as `data:` or `mailto:`. Such a link is not remote, and it
/// names no file of the book either.
pub open spec fn foreign_link(link: Seq<char>) -> bool {
    parsed_url(link) is Some && !web_url(parsed_url(link)->0.text)
}

/// Executable form of [`foreign_link`].
pub fn is_foreign_link(link: &str) -> (r: bool)
    ensures
        r == foreign_link(link@),
{
    match parse_url(link) {
        Some(url) => !(starts_with(url.text.as_str(), "http://") || starts_with(
            url.text.as_str(),
            "https://",
        )),
        None => false,
    }
}

/// Tells a remote link from a local one. The link is taken as written: it is
/// neither decoded nor normalized first.
pub fn classify(link: &str) -> (r: LinkKind)
    ensures
        remote_link(link@) ==> (r matches LinkKind::Remote(u) && u@ == parsed_url(link@)->0),
        !remote_link(link@) ==> r is Local,
{
    match parse_url(link) {
        Some(url) => {
            if starts_with(url.text.as_str(), "http://") || starts_with(
                url.text.as_str(),
                "https://",
            ) {
                LinkKind::Remote(url)
            } else {
                LinkKind::Local
            }
        },
        None => LinkKind::Local,
    }
}

/// The content type that `mime_guess` knows for a file extension, or
/// `application/octet-stream` where it knows none.
pub uninterp spec fn guessed_mime(ext: Seq<char>) -> Seq<char>;

/// `mime_guess::from_ext(ext).first_or_octet_stream()`, written out as
/// text. The result is the named function of the extension.
#[verifier::external_body]
fn guess_mime(ext: &str) -> (r: String)
    ensures
        r@ == guessed_mime(ext@),
{
    mime_guess::from_ext(ext).first_or_octet_stream().to_string()
}

/// The content type guessed for a path: that of its extension, where a path
/// without one counts as having the empty extension.
pub open spec fn mime_of_path(style: PathStyle, path: Seq<char>) -> Seq<char> {
    match extension_of(style, path) {
        Some(e) => guessed_mime(e),
        None => guessed_mime(Seq::<char>::empty()),
    }
}

/// Executable form of [`mime_of_path`].
pub fn guess_mime_of_path(style: PathStyle, path: &str) -> (r: String)
    ensures
        r@ == mime_of_path(style, path@),
{
    match extension(style, path) {
        Some(e) => guess_mime(e.as_str()),
        None => {
            let e = String::new();
            guess_mime(e.as_str())
        },
    }
}

/// The file name under which a remote resource is cached: the URL's hash
/// in lower-case hexadecimal, followed by `.` and the extension of the URL's
/// path where that is not empty.
pub open spec fn hashed_name(url: UrlParts) -> Seq<char> {
    match extension_of(PathStyle::Slash, url.path) {
        Some(e) => if e.len() > 0 {
            lower_hex(url.digest as nat) + seq!['.'] + e
        } else {
            lower_hex(url.digest as nat)
        },
        None => lower_hex(url.digest as nat),
    }
}

/// Generate file name + extension from supplied remote URL. A URL whose
/// path has no extension gives the bare hash; the extension is then found
/// once the content is there.
pub fn hash_link(url: &RemoteUrl) -> (r: String)
    ensures
        r@ == hashed_name(url@),
{
    let mut out: Vec<char> = Vec::new();
    push_hex(&mut out, url.digest);
    assert(out@ =~= lower_hex(url.digest as nat));
    match extension(PathStyle::Slash, url.path.as_str()) {
        Some(e) => {
            let t = chars_of(e.as_str());
            if t.len() > 0 {
                out.push('.');
                crate::text::push_all(&mut out, &t);
                assert(out@ =~= hashed_name(url@));
            }
        },
        None => {},
    }
    string_of(&out)
}

/// The name of a remote asset in the cache is a function of its link
/// alone: the same link gives the same name, whichever chapter holds it and
/// wherever the cache lies.
pub proof fn cache_name_is_a_function_of_the_link(
    style: PathStyle,
    other_style: PathStyle,
    link: Seq<char>,
    dest_dir: Seq<char>,
    other_dest_dir: Seq<char>,
)
    requires
        parsed_url(link) is Some,
    ensures
        remote_asset(style, link, parsed_url(link)->0, dest_dir).filename == hashed_name(
            parsed_url(link)->0,
        ),
        remote_asset(style, link, parsed_url(link)->0, dest_dir).filename == remote_asset(
            other_style,
            link,
            parsed_url(link)->0,
            other_dest_dir,
        ).filename,
{
}

/// The name of a remote asset in the cache is a single clean file name:
/// hexadecimal digits, and after a dot the extension where there is one.
pub proof fn lemma_hashed_name_is_clean(url: UrlParts)
    ensures
        clean_name(PathStyle::Slash, hashed_name(url)),
{
    let h = lower_hex(url.digest as nat);
    let name = hashed_name(url);
    lemma_lower_hex_digits(url.digest as nat);
    assert(h[0] != '.');
    match extension_of(PathStyle::Slash, url.path) {
        Some(e) => {
            lemma_extension_is_plain(PathStyle::Slash, url.path);
            if e.len() > 0 {
                assert(name == h + seq!['.'] + e);
                assert(name[0] == h[0]);
                assert forall|i: int| 0 <= i < name.len() implies !PathStyle::Slash.separates(
                    #[trigger] name[i],
                ) by {
                    if i < h.len() {
                        assert(name[i] == h[i]);
                    } else if i == h.len() {
                        assert(name[i] == '.');
                    } else {
                        assert(name[i] == e[i - h.len() - 1]);
                    }
                }
            }
        },
        None => {},
    }
    assert(name[0] == h[0]);
    if name == seq!['.'] {
        assert(seq!['.'][0] == '.');
    }
    if name == seq!['.', '.'] {
        assert(seq!['.', '.'][0] == '.');
    }
}

/// The type of asset, remote or local.
#[derive(Debug, Clone, PartialEq, Eq)]
pub enum AssetKind {
    /// A resource behind a URL.
    Remote(RemoteUrl),
    /// A file of the book, by the link that led to it.
    Local(String),
}

/// Where an asset comes from, as a mathematical value.
pub enum SourceView {
    /// A resource behind a URL.
    Remote(UrlParts),
    /// A file of the book, by the link that led to it.
    Local(Seq<char>),
}

impl View for AssetKind {
    type V = SourceView;

    open spec fn view(&self) -> SourceView {
        match self {
            AssetKind::Remote(u) => SourceView::Remote(u@),
            AssetKind::Local(l) => SourceView::Local(l@),
        }
    }
}

/// An asset as a mathematical value.
pub struct AssetView {
    /// The link that led to the asset.
    pub original_link: Seq<char>,
    /// The asset's absolute location on disk.
    pub location_on_disk: Seq<char>,
    /// The name the asset carries inside the container.
    pub filename: Seq<char>,
    /// The content type.
    pub mimetype: Seq<char>,
    /// Where the asset comes from.
    pub source: SourceView,
}

/// A resolved reference found in a chapter.
#[derive(Debug, Clone, PartialEq, Eq)]
pub struct Asset {
    /// The asset's original raw link from source: the key it is found by.
    pub original_link: String,
    /// The asset's absolute location on disk.
    pub location_on_disk: String,
    /// The name the asset carries inside the container, written with `/`:
    /// for a local asset its path below the book's source directory, for a
    /// remote one its name in the cache.
    pub filename: String,
    /// The content type, as well as it is known.
    pub mimetype: String,
    /// Where the asset comes from.
    pub source: AssetKind,
}

impl View for Asset {
    type V = AssetView;

    open spec fn view(&self) -> AssetView {
        AssetView {
            original_link: self.original_link@,
            location_on_disk: self.location_on_disk@,
            filename: self.filename@,
            mimetype: self.mimetype@,
            source: self.source@,
        }
    }
}

/// The views of a list of assets.
pub open spec fn asset_views(es: Seq<Asset>) -> Seq<AssetView> {
    Seq::new(es.len(), |i: int| es[i]@)
}

/// The changes a download makes to an asset.
#[derive(Debug, Clone, PartialEq, Eq)]
pub struct UpdatedAssetData {
    /// The content type.
    pub mimetype: String,
    /// The absolute location on disk.
    pub location_on_disk: String,
    /// The name inside the container.
    pub filename: String,
}

impl Default for UpdatedAssetData {
    fn default() -> (r: UpdatedAssetData)
        ensures
            r.mimetype@ == "plain/txt"@,
            r.location_on_disk@.len() == 0,
            r.filename@.len() == 0,
    {
        UpdatedAssetData {
            mimetype: "plain/txt".to_owned(),
            location_on_disk: String::new(),
            filename: String::new(),
        }
    }
}

/// What is known of a chapter's path on disk.
#[derive(Debug, Clone, Copy, PartialEq, Eq, Structural)]
pub struct ChapterProbe {
    /// Whether anything exists at the path.
    pub exists: bool,
    /// Whether a regular file exists at the path.
    pub is_file: bool,
}

/// What is known of the place an asset link leads to.
#[derive(Debug, Clone, PartialEq, Eq)]
pub enum TargetProbe {
    /// Nothing could be found there; holds the reason as the system gave it.
    Missing(String),
    /// Something is there.
    Found {
        /// The place with every symbolic link resolved.
        location: String,
        /// Whether it is a regular file.
        is_file: bool,
        /// Whether it is a symbolic link.
        is_symlink: bool,
    },
}

/// What is known of the place an asset link leads to, as a mathematical
/// value.
pub enum TargetView {
    /// Nothing could be found there; holds the reason.
    Missing(Seq<char>),
    /// Something is there.
    Found { location: Seq<char>, is_file: bool, is_symlink: bool },
}

impl View for TargetProbe {
    type V = TargetView;

    open spec fn view(&self) -> TargetView {
        match self {
            TargetProbe::Missing(why) => TargetView::Missing(why@),
            TargetProbe::Found { location, is_file, is_symlink } => TargetView::Found {
                location: location@,
                is_file: *is_file,
                is_symlink: *is_symlink,
            },
        }
    }
}

/// Why a local link could not be resolved.
pub enum Failure {
    /// The link leads to no file; holds the message.
    NotFound(Seq<char>),
    /// The link leads to something that is not a plain file; holds the
    /// location found.
    NotAFile(Seq<char>),
    /// The link leads out of the book's source directory; holds the path it
    /// was resolved to.
    Outside(Seq<char>),
}

/// The failure that an error of asset resolution stands for.
pub open spec fn failure_of(e: EpubError) -> Option<Failure> {
    match e {
        EpubError::AssetFileNotFound(m) => Some(Failure::NotFound(m@)),
        EpubError::AssetFile(p) => Some(Failure::NotAFile(p@)),
        EpubError::AssetOutsideSrcDir(p) => Some(Failure::Outside(p@)),
        _ => None,
    }
}

/// The prefixes that make a link point one directory up, in the order in
/// which they are tried: a separator, then `..` and a separator.
pub open spec fn markers(style: PathStyle) -> Seq<Seq<char>> {
    if style == PathStyle::Backslash {
        seq![seq!['/'], seq!['\\'], seq!['.', '.', '\\'], seq!['.', '.', '/']]
    } else {
        seq![seq!['/'], seq!['.', '.', '/'], seq!['.', '.', '/']]
    }
}

/// The views of a list of strings.
pub open spec fn str_views(ss: Seq<&str>) -> Seq<Seq<char>> {
    Seq::new(ss.len(), |i: int| ss[i]@)
}

/// The prefixes that make a link point one directory up.
pub fn upper_folder_paths(style: PathStyle) -> (r: Vec<&'static str>)
    ensures
        str_views(r@) == markers(style),
{
    proof {
        reveal_strlit("/");
        reveal_strlit("\\");
        reveal_strlit("..\\");
        reveal_strlit("../");
        assert("/"@ =~= seq!['/']);
        assert("\\"@ =~= seq!['\\']);
        assert("..\\"@ =~= seq!['.', '.', '\\']);
        assert("../"@ =~= seq!['.', '.', '/']);
    }
    let mut v: Vec<&'static str> = Vec::new();
    v.push("/");
    if style == PathStyle::Backslash {
        v.push("\\");
        v.push("..\\");
        v.push("../");
    } else {
        v.push("../");
        v.push("../");
    }
    assert(str_views(v@) =~= markers(style));
    v
}

/// The link without the first of the prefixes that it begins with; a link
/// that begins with none of them is left as it is.
pub open spec fn without_first_prefix(link: Seq<char>, prefixes: Seq<Seq<char>>) -> Seq<char>
    decreases prefixes.len(),
{
    if prefixes.len() == 0 {
        link
    } else if has_prefix(link, prefixes[0]) {
        link.skip(prefixes[0].len() as int)
    } else {
        without_first_prefix(link, prefixes.drop_first())
    }
}

/// Where an asset link is resolved from: the directory at `root`, one level
/// up for every marker that the link begins with.
pub open spec fn climbed(style: PathStyle, link: Seq<char>, root: Seq<char>) -> Seq<char>
    decreases link.len(),
{
    let rest = without_first_prefix(link, markers(style));
    if rest.len() < link.len() {
        climbed(style, rest, popped(style, root))
    } else {
        root
    }
}

/// The directory that a chapter's links start from: the chapter's path
/// without the file name when the path is a file, or is an `index.md` that
/// does not exist because the file on disk is a `README.md`; otherwise the
/// path itself.
pub open spec fn chapter_dir(style: PathStyle, chapter: Seq<char>, probe: ChapterProbe) -> Seq<
    char,
> {
    if (named(style, chapter, "index.md"@) && !probe.exists) || probe.is_file {
        popped(style, chapter)
    } else {
        chapter
    }
}

/// The directory that `link` is resolved from, for a chapter at `chapter`.
pub open spec fn asset_root(
    style: PathStyle,
    link: Seq<char>,
    chapter: Seq<char>,
    probe: ChapterProbe,
) -> Seq<char> {
    climbed(style, link, chapter_dir(style, chapter, probe))
}

/// The place on disk that a local link of a chapter leads to, before the
/// file system has a say.
pub open spec fn local_candidate(
    style: PathStyle,
    link: Seq<char>,
    src_dir: Seq<char>,
    chapter_path: Seq<char>,
    probe: ChapterProbe,
) -> Seq<char> {
    joined(
        style,
        asset_root(style, link, joined(style, src_dir, chapter_path), probe),
        normalized(style, link),
    )
}

/// The message for a link that leads to no file.
pub open spec fn not_found_message(link: Seq<char>, candidate: Seq<char>, why: Seq<char>) -> Seq<
    char,
> {
    "Asset was not found: '"@ + link + "' by '"@ + candidate + "', error = "@ + why
}

/// The asset that a local link resolves to: found at `location`, and
/// `relative` to the book's source directory.
pub open spec fn local_asset(
    style: PathStyle,
    link: Seq<char>,
    location: Seq<char>,
    relative: Seq<char>,
) -> AssetView {
    AssetView {
        original_link: link,
        location_on_disk: location,
        filename: slash_form(style, relative),
        mimetype: mime_of_path(style, location),
        source: SourceView::Local(link),
    }
}

/// The asset that a remote link resolves to: its name in the cache is the
/// hashed name of the URL, its location the place of that name under the
/// normalized cache directory.
pub open spec fn remote_asset(
    style: PathStyle,
    link: Seq<char>,
    url: UrlParts,
    dest_dir: Seq<char>,
) -> AssetView {
    AssetView {
        original_link: link,
        location_on_disk: joined(style, normalized(style, dest_dir), hashed_name(url)),
        filename: hashed_name(url),
        mimetype: mime_of_path(
            style,
            joined(style, normalized(style, dest_dir), hashed_name(url)),
        ),
        source: SourceView::Remote(url),
    }
}

/// What resolving a local link comes to, given what the file system says of
/// the chapter and of the place the link leads to.
///
/// A place where nothing was found is a failure, as is one that is not a
/// regular file or is a symbolic link. So is a file that was found at a
/// location that does not lie below `src_dir`, and so is a link whose own
/// path does not lie below `src_dir`. Otherwise the asset is the file
/// found, under the link's path below `src_dir`.
pub open spec fn local_outcome(
    style: PathStyle,
    link: Seq<char>,
    src_dir: Seq<char>,
    chapter_path: Seq<char>,
    chapter: ChapterProbe,
    target: TargetView,
) -> Result<AssetView, Failure> {
    let candidate = local_candidate(style, link, src_dir, chapter_path, chapter);
    match target {
        TargetView::Missing(why) => Err(
            Failure::NotFound(not_found_message(link, candidate, why)),
        ),
        TargetView::Found { location, is_file, is_symlink } => if !is_file || is_symlink {
            Err(Failure::NotAFile(location))
        } else if stripped(style, location, src_dir) is None {
            Err(Failure::Outside(location))
        } else {
            match stripped(style, candidate, src_dir) {
                None => Err(Failure::Outside(candidate)),
                Some(relative) => Ok(local_asset(style, link, location, relative)),
            }
        },
    }
}

/// A local asset that resolves lies inside the book's source directory: it
/// is the regular file that was found, its location lies below `src_dir`,
/// and its name in the container is the link's path below `src_dir`.
pub proof fn resolved_local_asset_lies_in_source(
    style: PathStyle,
    link: Seq<char>,
    src_dir: Seq<char>,
    chapter_path: Seq<char>,
    chapter: ChapterProbe,
    target: TargetView,
)
    requires
        local_outcome(style, link, src_dir, chapter_path, chapter, target) is Ok,
    ensures
        target matches TargetView::Found { location, is_file, is_symlink } && is_file
            && !is_symlink && local_outcome(
            style,
            link,
            src_dir,
            chapter_path,
            chapter,
            target,
        )->Ok_0.location_on_disk == location,
        stripped(
            style,
            local_outcome(style, link, src_dir, chapter_path, chapter, target)->Ok_0.location_on_disk,
            src_dir,
        ) is Some,
        stripped(style, local_candidate(style, link, src_dir, chapter_path, chapter), src_dir)
            is Some,
        local_outcome(style, link, src_dir, chapter_path, chapter, target)->Ok_0.filename
            == slash_form(
            style,
            stripped(
                style,
                local_candidate(style, link, src_dir, chapter_path, chapter),
                src_dir,
            )->0,
        ),
        local_outcome(style, link, src_dir, chapter_path, chapter, target)->Ok_0.original_link
            == link,
{
}

/// A link that climbs above the source root to a file that is there fails
/// as out of bounds: for a source directory with the components `source`,
/// a regular file that lies `levels` directories above it, two or more, is
/// no asset, whatever the link and the chapter.
pub proof fn climbing_above_the_source_root_is_out_of_bounds(
    style: PathStyle,
    link: Seq<char>,
    source: Seq<Part>,
    levels: nat,
    name: Seq<char>,
    chapter_path: Seq<char>,
    chapter: ChapterProbe,
)
    requires
        well_formed(style, source),
        2 <= levels <= source.len(),
        clean_name(style, name),
    ensures
        local_outcome(
            style,
            link,
            rendered(style, source),
            chapter_path,
            chapter,
            TargetView::Found {
                location: rendered(
                    style,
                    source.take(source.len() - levels).push(Part::Name(name)),
                ),
                is_file: true,
                is_symlink: false,
            },
        ) == Err::<AssetView, Failure>(
            Failure::Outside(
                rendered(style, source.take(source.len() - levels).push(Part::Name(name))),
            ),
        ),
{
    lemma_above_is_not_below(style, source, levels, name);
}

/// A link that leads to a regular file outside the book's source directory
/// fails as out of bounds, whatever the link and the chapter: so does a link
/// that climbs above the source root to a file that is there.
pub proof fn target_outside_source_is_out_of_bounds(
    style: PathStyle,
    link: Seq<char>,
    src_dir: Seq<char>,
    chapter_path: Seq<char>,
    chapter: ChapterProbe,
    location: Seq<char>,
)
    requires
        stripped(style, location, src_dir) is None,
    ensures
        local_outcome(
            style,
            link,
            src_dir,
            chapter_path,
            chapter,
            TargetView::Found { location, is_file: true, is_symlink: false },
        ) == Err::<AssetView, Failure>(Failure::Outside(location)),
{
}


impl Asset {
    /// An asset with the given fields and the content type that its location
    /// on disk suggests.
    pub fn new(
        style: PathStyle,
        original_link: &str,
        filename: &str,
        absolute_location: &str,
        source: AssetKind,
    ) -> (r: Asset)
        ensures
            r@ == (AssetView {
                original_link: original_link@,
                location_on_disk: absolute_location@,
                filename: filename@,
                mimetype: mime_of_path(style, absolute_location@),
                source: source@,
            }),
    {
        let mt = guess_mime_of_path(style, absolute_location);
        Asset {
            original_link: original_link.to_owned(),
            location_on_disk: absolute_location.to_owned(),
            filename: filename.to_owned(),
            mimetype: mt,
            source,
        }
    }

    /// A copy of this asset.
    pub fn duplicate(&self) -> (r: Asset)
        ensures
            r@ == self@,
    {
        Asset {
            original_link: self.original_link.clone(),
            location_on_disk: self.location_on_disk.clone(),
            filename: self.filename.clone(),
            mimetype: self.mimetype.clone(),
            source: match &self.source {
                AssetKind::Remote(u) => AssetKind::Remote(u.duplicate()),
                AssetKind::Local(l) => AssetKind::Local(l.clone()),
            },
        }
    }

    /// The asset for a remote link: its name in the cache is the hashed name
    /// of the URL and its location the place of that name under the
    /// normalized cache directory. Nothing is fetched and nothing on disk is
    /// looked at, so this cannot fail.
    pub fn from_url(style: PathStyle, original_link: &str, url: RemoteUrl, dest_dir: &str) -> (r:
        Asset)
        ensures
            r@ == remote_asset(style, original_link@, url@, dest_dir@),
    {
        let filename = hash_link(&url);
        let dest = normalize_path(style, dest_dir);
        let location = join(style, dest.as_str(), filename.as_str());
        Asset::new(
            style,
            original_link,
            filename.as_str(),
            location.as_str(),
            AssetKind::Remote(url),
        )
    }

    /// The place on disk that a local link of a chapter leads to, before the
    /// file system has a say: the link, normalized, under the directory it
    /// is resolved from.
    pub fn candidate(
        style: PathStyle,
        link: &str,
        src_dir: &str,
        chapter_path: &str,
        chapter: ChapterProbe,
    ) -> (r: String)
        ensures
            r@ == local_candidate(style, link@, src_dir@, chapter_path@, chapter),
    {
        let chapter_full = join(style, src_dir, chapter_path);
        let root = Self::compute_asset_path_by_src_and_link(
            style,
            link,
            chapter_full.as_str(),
            chapter,
        );
        let normalized_link = normalize_path(style, link);
        join(style, root.as_str(), normalized_link.as_str())
    }

    /// The asset for a local link, given what the file system says of the
    /// place the link leads to.
    ///
    /// A place where nothing was found gives [`EpubError::AssetFileNotFound`];
    /// one that is not a regular file, or is a symbolic link, gives
    /// [`EpubError::AssetFile`]; a file found at a location that does not
    /// lie below `src_dir`, and a link whose own path does not, give
    /// [`EpubError::AssetOutsideSrcDir`]. Otherwise the asset's name in the
    /// container is the link's path below `src_dir`, written with `/`.
    pub fn from_local(
        style: PathStyle,
        link: &str,
        src_dir: &str,
        chapter_path: &str,
        chapter: ChapterProbe,
        target: &TargetProbe,
    ) -> (r: Result<Asset, EpubError>)
        ensures
            match local_outcome(style, link@, src_dir@, chapter_path@, chapter, target@) {
                Ok(v) => r matches Ok(a) && a@ == v,
                Err(f) => r matches Err(e) && failure_of(e) == Some(f),
            },
    {
        let full_filename = Self::candidate(style, link, src_dir, chapter_path, chapter);
        match target {
            TargetProbe::Missing(why) => {
                let mut m: Vec<char> = Vec::new();
                push_str(&mut m, "Asset was not found: '");
                push_str(&mut m, link);
                push_str(&mut m, "' by '");
                push_str(&mut m, full_filename.as_str());
                push_str(&mut m, "', error = ");
                push_str(&mut m, why.as_str());
                assert(m@ =~= not_found_message(link@, full_filename@, why@));
                Err(EpubError::AssetFileNotFound(string_of(&m)))
            },
            TargetProbe::Found { location, is_file, is_symlink } => {
                if !*is_file || *is_symlink {
                    return Err(EpubError::AssetFile(location.clone()));
                }
                if strip_prefix(style, location.as_str(), src_dir).is_none() {
                    return Err(EpubError::AssetOutsideSrcDir(location.clone()));
                }
                match strip_prefix(style, full_filename.as_str(), src_dir) {
                    None => Err(EpubError::AssetOutsideSrcDir(full_filename)),
                    Some(relative) => {
                        let filename = to_slash_form(style, relative.as_str());
                        Ok(
                            Asset::new(
                                style,
                                link,
                                filename.as_str(),
                                location.as_str(),
                                AssetKind::Local(link.to_owned()),
                            ),
                        )
                    },
                }
            },
        }
    }

    /// The directory that `link` is resolved from: the chapter's directory,
    /// one level up for every marker that the link begins with.
    pub fn compute_asset_path_by_src_and_link(
        style: PathStyle,
        link: &str,
        chapter_dir: &str,
        chapter: ChapterProbe,
    ) -> (r: String)
        ensures
            r@ == asset_root(style, link@, chapter_dir@, chapter),
    {
        let mut root: String = if (ends_with_name(style, chapter_dir, "index.md")
            && !chapter.exists) || chapter.is_file {
            pop(style, chapter_dir)
        } else {
            chapter_dir.to_owned()
        };
        let prefixes = upper_folder_paths(style);
        let mut rest: String = link.to_owned();
        loop
            invariant
                str_views(prefixes@) == markers(style),
                climbed(style, rest@, root@) == asset_root(style, link@, chapter_dir@, chapter),
            ensures
                root@ == asset_root(style, link@, chapter_dir@, chapter),
            decreases rest@.len(),
        {
            let shorter = Self::remove_prefixes(rest.clone(), prefixes.as_slice());
            if shorter.as_str().unicode_len() < rest.as_str().unicode_len() {
                root = pop(style, root.as_str());
                rest = shorter;
            } else {
                break ;
            }
        }
        root
    }

    /// The link without the first of the prefixes that it begins with; a
    /// link that begins with none of them is returned as it is.
    pub fn remove_prefixes(link_to_strip: String, prefixes: &[&str]) -> (r: String)
        ensures
            r@ == without_first_prefix(link_to_strip@, str_views(prefixes@)),
    {
        let text = chars_of(link_to_strip.as_str());
        let ghost all = str_views(prefixes@);
        let mut i: usize = 0;
        assert(all.skip(0) =~= all);
        while i < prefixes.len()
            invariant
                i <= prefixes.len(),
                text@ == link_to_strip@,
                all == str_views(prefixes@),
                without_first_prefix(text@, all.skip(i as int)) == without_first_prefix(
                    text@,
                    all,
                ),
            decreases prefixes.len() - i,
        {
            let p = chars_of(prefixes[i]);
            proof {
                assert(all.skip(i as int)[0] == prefixes@[i as int]@);
                assert(all.skip(i as int).drop_first() =~= all.skip(i + 1));
            }
            if matches_at(&text, 0, &p) {
                let s = substring(&text, p.len(), text.len());
                assert(text@.subrange(p.len() as int, text.len() as int) =~= text@.skip(
                    p.len() as int,
                ));
                return s;
            }
            i = i + 1;
        }
        link_to_strip
    }

    /// The asset with the fields that a download settles replaced.
    pub fn with_updated_fields(&self, updated: UpdatedAssetData) -> (r: Asset)
        ensures
            r@ == (AssetView {
                original_link: self.original_link@,
                location_on_disk: updated.location_on_disk@,
                filename: updated.filename@,
                mimetype: updated.mimetype@,
                source: self.source@,
            }),
            r@ == crate::retrieve::updated(self@, updated@),
    {
        Asset {
            original_link: self.original_link.clone(),
            location_on_disk: updated.location_on_disk,
            filename: updated.filename,
            mimetype: updated.mimetype,
            source: match &self.source {
                AssetKind::Remote(u) => AssetKind::Remote(u.duplicate()),
                AssetKind::Local(l) => AssetKind::Local(l.clone()),
            },
        }
    }
}

} // verus!
