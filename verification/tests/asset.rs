use mdbook_epub::asset::{
    classify, guess_mime_of_path, hash_link, is_foreign_link, upper_folder_paths, Asset,
    AssetKind, ChapterProbe, LinkKind, RemoteUrl, TargetProbe, UpdatedAssetData,
};
use mdbook_epub::errors::EpubError;
use mdbook_epub::paths::{components, join, normalize_path, PathStyle};

const UPPER_PARENT_LINUX: &str = "../";
const MAIN_SEPARATOR_STR: &str = "/";
const UPPER_PARENT: &str = "../";

fn missing_chapter() -> ChapterProbe {
    ChapterProbe { exists: false, is_file: false }
}

fn chapter_file() -> ChapterProbe {
    ChapterProbe { exists: true, is_file: true }
}

fn found_file(location: &str) -> TargetProbe {
    TargetProbe::Found { location: location.to_string(), is_file: true, is_symlink: false }
}

fn root_and_link(style: PathStyle, link: &str, chapter_dir: &str) -> String {
    let asset_path =
        Asset::compute_asset_path_by_src_and_link(style, link, chapter_dir, missing_chapter());
    let normalized_link = normalize_path(style, link);
    join(style, &asset_path, &normalized_link)
}

#[test]
fn test_hash_named_url_with_extension() {
    let test_url = "https://www.rust-lang.org/static/images/rust-logo-blk.svg";
    let hashed_filename = hash_link(&RemoteUrl::parse(test_url).unwrap());
    assert_eq!("b20b2723e874918.svg", hashed_filename);
}

#[test]
fn test_hash_parametrized_url_no_extension() {
    let test_avatar_url = "https://avatars.githubusercontent.com/u/274803?v=4";
    let hashed_filename = hash_link(&RemoteUrl::parse(test_avatar_url).unwrap());
    println!("{}", hashed_filename);
    assert!(hashed_filename.starts_with("4dbdb25800b6fa1b"));
}

#[test]
fn hash_is_the_same_for_the_same_url_and_differs_between_urls() {
    let a = "https://host/b.svg";
    let b = "https://host/c.svg";
    let first = hash_link(&RemoteUrl::parse(a).unwrap());
    let second = hash_link(&RemoteUrl::parse(a).unwrap());
    let other = hash_link(&RemoteUrl::parse(b).unwrap());
    assert_eq!(first, second);
    assert_ne!(first, other);
    assert!(first.ends_with(".svg"));
    assert_eq!(hash_link(&RemoteUrl::parse("https://mdbook.epub/dummy.svg").unwrap()), "811c431d49ec880b.svg");
    assert_eq!(
        hash_link(
            &RemoteUrl::parse(
                "https://github.com/sunface/rust-course/blob/main/assets/studyrust公众号.png?raw=true"
            )
            .unwrap()
        ),
        "b270cb6837d41f98.png"
    );
}

#[test]
fn url_parts_are_those_of_the_parsed_url() {
    let url = RemoteUrl::parse("HTTPS://Example.com/a/../b.png?x=1#frag").unwrap();
    assert_eq!(url.text, "https://example.com/b.png?x=1#frag");
    assert_eq!(url.path, "/b.png");
    assert!(RemoteUrl::parse("assets/a.png").is_none());
    assert!(RemoteUrl::parse("").is_none());
}

#[test]
fn links_are_remote_only_with_a_web_scheme() {
    assert!(matches!(classify("https://host/b.svg"), LinkKind::Remote(_)));
    assert!(matches!(classify("http://host/b.svg"), LinkKind::Remote(_)));
    assert_eq!(classify("./a.png"), LinkKind::Local);
    assert_eq!(classify("a b/ü.png"), LinkKind::Local);
    assert_eq!(classify("//host/a.png"), LinkKind::Local);
    assert_eq!(classify("data:image/png;base64,AAAA"), LinkKind::Local);
    assert_eq!(classify("ftp://host/a.png"), LinkKind::Local);
    assert_eq!(classify("mailto:someone@example.com"), LinkKind::Local);
    // a URL of another scheme is told from a path into the book
    assert!(is_foreign_link("data:image/png;base64,AAAA"));
    assert!(is_foreign_link("ftp://host/a.png"));
    assert!(is_foreign_link("mailto:someone@example.com"));
    assert!(!is_foreign_link("https://host/b.svg"));
    assert!(!is_foreign_link("./a.png"));
    assert!(!is_foreign_link("a b/ü.png"));
    assert!(!is_foreign_link(""));
}

#[test]
fn mime_follows_the_extension() {
    assert_eq!(guess_mime_of_path(PathStyle::Slash, "/a/b/logo.png"), "image/png");
    assert_eq!(guess_mime_of_path(PathStyle::Slash, "/a/b/logo.SVG"), "image/svg+xml");
    assert_eq!(guess_mime_of_path(PathStyle::Slash, "/a/b/logo"), "application/octet-stream");
    assert_eq!(guess_mime_of_path(PathStyle::Slash, "/a.png/logo"), "application/octet-stream");
    assert_eq!(guess_mime_of_path(PathStyle::Backslash, "C:\\a\\style.css"), "text/css");
}

#[test]
fn remote_asset_lies_in_the_cache_under_its_hashed_name() {
    let link = "https://www.rust-lang.org/static/images/rust-logo-blk.svg";
    let url = RemoteUrl::parse(link).unwrap();
    let asset = Asset::from_url(PathStyle::Slash, link, url.clone(), "/tmp/x/../book/epub");
    assert_eq!(asset.original_link, link);
    assert_eq!(asset.filename, "b20b2723e874918.svg");
    assert_eq!(asset.location_on_disk, "/tmp/book/epub/b20b2723e874918.svg");
    assert_eq!(asset.mimetype, "image/svg+xml");
    assert_eq!(asset.source, AssetKind::Remote(url));

    let bare = "https://avatars.githubusercontent.com/u/274803?v=4";
    let asset = Asset::from_url(PathStyle::Slash, bare, RemoteUrl::parse(bare).unwrap(), "out");
    assert_eq!(asset.filename, "4dbdb25800b6fa1b");
    assert_eq!(asset.location_on_disk, "out/4dbdb25800b6fa1b");
    assert_eq!(asset.mimetype, "application/octet-stream");
}

#[test]
fn local_asset_is_named_by_its_path_below_the_source_directory() {
    let asset = Asset::from_local(
        PathStyle::Slash,
        "../images/./logo.png",
        "/book/src",
        "part/chapter.md",
        chapter_file(),
        &found_file("/book/src/images/logo.png"),
    )
    .unwrap();
    assert_eq!(
        Asset::candidate(PathStyle::Slash, "../images/./logo.png", "/book/src", "part/chapter.md", chapter_file()),
        "/book/src/images/logo.png"
    );
    assert_eq!(asset.original_link, "../images/./logo.png");
    assert_eq!(asset.filename, "images/logo.png");
    assert_eq!(asset.location_on_disk, "/book/src/images/logo.png");
    assert_eq!(asset.mimetype, "image/png");
    assert_eq!(asset.source, AssetKind::Local("../images/./logo.png".to_string()));

    let windows = Asset::from_local(
        PathStyle::Backslash,
        "..\\images\\logo.png",
        "C:\\book\\src",
        "part\\chapter.md",
        chapter_file(),
        &found_file("C:\\book\\src\\images\\logo.png"),
    )
    .unwrap();
    assert_eq!(windows.filename, "images/logo.png");
}

#[test]
fn readme_chapter_that_became_index_counts_as_a_file() {
    let renamed = ChapterProbe { exists: false, is_file: false };
    assert_eq!(
        Asset::candidate(PathStyle::Slash, "a.png", "/book/src", "part/index.md", renamed),
        "/book/src/part/a.png"
    );
    assert_eq!(
        Asset::candidate(PathStyle::Slash, "a.png", "/book/src", "part/other.md", renamed),
        "/book/src/part/other.md/a.png"
    );
    let directory = ChapterProbe { exists: true, is_file: false };
    assert_eq!(
        Asset::candidate(PathStyle::Slash, "a.png", "/book/src", "part/index.md", directory),
        "/book/src/part/index.md/a.png"
    );
}

#[test]
fn local_asset_failures() {
    let not_found = Asset::from_local(
        PathStyle::Slash,
        "a.png",
        "/book/src",
        "ch.md",
        chapter_file(),
        &TargetProbe::Missing("No such file or directory (os error 2)".to_string()),
    );
    match not_found {
        Err(EpubError::AssetFileNotFound(m)) => assert_eq!(
            m,
            "Asset was not found: 'a.png' by '/book/src/a.png', error = No such file or directory (os error 2)"
        ),
        other => panic!("{:?}", other),
    }
    let directory = TargetProbe::Found {
        location: "/book/src/a.png".to_string(),
        is_file: false,
        is_symlink: false,
    };
    assert!(matches!(
        Asset::from_local(PathStyle::Slash, "a.png", "/book/src", "ch.md", chapter_file(), &directory),
        Err(EpubError::AssetFile(p)) if p == "/book/src/a.png"
    ));
    let symlink = TargetProbe::Found {
        location: "/book/src/a.png".to_string(),
        is_file: true,
        is_symlink: true,
    };
    assert!(matches!(
        Asset::from_local(PathStyle::Slash, "a.png", "/book/src", "ch.md", chapter_file(), &symlink),
        Err(EpubError::AssetFile(_))
    ));
    assert!(matches!(
        Asset::from_local(
            PathStyle::Slash,
            "../a.png",
            "/book/src",
            "ch.md",
            chapter_file(),
            &found_file("/book/a.png")
        ),
        Err(EpubError::AssetOutsideSrcDir(p)) if p == "/book/a.png"
    ));
    // the link stays below the source directory, the file it leads to does not
    assert!(matches!(
        Asset::from_local(
            PathStyle::Slash,
            "linked/a.png",
            "/book/src",
            "ch.md",
            chapter_file(),
            &found_file("/elsewhere/a.png")
        ),
        Err(EpubError::AssetOutsideSrcDir(p)) if p == "/elsewhere/a.png"
    ));
    // the file lies below the source directory, the link's own path does not
    assert!(matches!(
        Asset::from_local(
            PathStyle::Slash,
            "../back/a.png",
            "/book/src",
            "ch.md",
            chapter_file(),
            &found_file("/book/src/a.png")
        ),
        Err(EpubError::AssetOutsideSrcDir(p)) if p == "/book/back/a.png"
    ));
}

#[test]
#[should_panic(expected = "Asset was not found")]
fn test_find_asset_fail_when_chapter_dir_not_exist() {
    let e = Asset::from_local(
        PathStyle::Backslash,
        "a.png",
        "tests\\dummy\\src",
        "ch\\a.md",
        missing_chapter(),
        &TargetProbe::Missing("The system cannot find the path specified. (os error 3)".to_string()),
    )
    .unwrap_err();
    match e {
        EpubError::AssetFileNotFound(m) => panic!("{}", m),
        other => panic!("{:?}", other),
    }
}

#[test]
#[should_panic(expected = "Asset was not found")]
fn test_find_asset_fail_when_chapter_dir_not_exist_linux() {
    let e = Asset::from_local(
        PathStyle::Slash,
        "a.png",
        "tests/long_book_example/src",
        "ch/a.md",
        missing_chapter(),
        &TargetProbe::Missing("No such file or directory (os error 2)".to_string()),
    )
    .unwrap_err();
    match e {
        EpubError::AssetFileNotFound(m) => panic!("{}", m),
        other => panic!("{:?}", other),
    }
}

#[test]
#[should_panic(
    expected = "Asset was not found: 'wikimedia' by 'tests/long_book_example/third_party/a.md/wikimedia', error = No such file or directory (os error 2)"
)]
fn test_find_asset_fail_when_it_is_a_dir() {
    let e = Asset::from_local(
        PathStyle::Slash,
        "wikimedia",
        "tests/long_book_example",
        "third_party/a.md",
        missing_chapter(),
        &TargetProbe::Missing("No such file or directory (os error 2)".to_string()),
    )
    .unwrap_err();
    match e {
        EpubError::AssetFileNotFound(m) => panic!("{}", m),
        other => panic!("{:?}", other),
    }
}

#[test]
#[should_panic(
    expected = "Asset was not found: 'wikimedia' by 'tests\\dummy\\third_party\\a.md\\wikimedia', error = The system cannot find the path specified. (os error 3)"
)]
fn test_find_asset_fail_when_it_is_a_dir_windows() {
    let e = Asset::from_local(
        PathStyle::Backslash,
        "wikimedia",
        "tests\\dummy",
        "third_party\\a.md",
        missing_chapter(),
        &TargetProbe::Missing("The system cannot find the path specified. (os error 3)".to_string()),
    )
    .unwrap_err();
    match e {
        EpubError::AssetFileNotFound(m) => panic!("{}", m),
        other => panic!("{:?}", other),
    }
}

#[test]
fn resource_test_compute_asset_path_by_src_and_link_to_full_path() {
    let book_source_root_dir = "/work/tests/long_book_example/src";
    let book_chapter_dir = join(PathStyle::Slash, book_source_root_dir, "chapter_1.md");

    let link = "./asset1.jpg";
    let asset_path = Asset::compute_asset_path_by_src_and_link(
        PathStyle::Slash,
        link,
        &book_chapter_dir,
        chapter_file(),
    );
    let normalized_link = normalize_path(PathStyle::Slash, link);
    let full_path = join(PathStyle::Slash, &asset_path, &normalized_link);
    assert_eq!(
        full_path,
        join(PathStyle::Slash, "/work/tests/long_book_example/src", "asset1.jpg")
    );
}

#[test]
fn resource_test_remove_prefixes() {
    let upper_folder_paths_now = upper_folder_paths(PathStyle::Slash);
    let link_string = String::from("assets/verify.jpeg");
    let link_string = Asset::remove_prefixes(link_string, &upper_folder_paths_now);
    assert_eq!("assets/verify.jpeg", link_string);

    let link_string = String::from("/assets/verify.jpeg");
    let link_string = Asset::remove_prefixes(link_string, &upper_folder_paths_now);
    assert_eq!("assets/verify.jpeg", link_string);

    let link_string = String::from("../../assets/verify.jpeg");
    let link_string = Asset::remove_prefixes(link_string, &upper_folder_paths_now);
    assert_eq!("../assets/verify.jpeg", link_string);
    let new_link = Asset::remove_prefixes(link_string, &upper_folder_paths_now);
    assert_eq!("assets/verify.jpeg", new_link);

    let upper_folder_path = &[UPPER_PARENT_LINUX, UPPER_PARENT, MAIN_SEPARATOR_STR, "/"];
    let link_string = String::from("assets/verify.jpeg");
    let link_string = Asset::remove_prefixes(link_string, upper_folder_path);
    assert_eq!("assets/verify.jpeg", link_string);

    let link_string = String::from("/assets/verify.jpeg");
    let link_string = Asset::remove_prefixes(link_string, upper_folder_path);
    assert_eq!("assets/verify.jpeg", link_string);

    let link_string = String::from("../../assets/verify.jpeg");
    let link_string = Asset::remove_prefixes(link_string, upper_folder_path);
    assert_eq!("../assets/verify.jpeg", link_string);
    let new_link = Asset::remove_prefixes(link_string, upper_folder_path);
    assert_eq!("assets/verify.jpeg", new_link);
}

#[test]
fn resource_test_remove_prefixes_windows() {
    let upper_folder_paths_now = upper_folder_paths(PathStyle::Backslash);
    let link_string = String::from("assets\\verify.jpeg");
    let link_string = Asset::remove_prefixes(link_string, &upper_folder_paths_now);
    assert_eq!("assets\\verify.jpeg", link_string);

    let link_string = String::from("\\assets\\verify.jpeg");
    let link_string = Asset::remove_prefixes(link_string, &upper_folder_paths_now);
    assert_eq!("assets\\verify.jpeg", link_string);

    let link_string = String::from("..\\..\\assets\\verify.jpeg");
    let link_string = Asset::remove_prefixes(link_string, &upper_folder_paths_now);
    assert_eq!("..\\assets\\verify.jpeg", link_string);
    let new_link = Asset::remove_prefixes(link_string, &upper_folder_paths_now);
    assert_eq!("assets\\verify.jpeg", new_link);

    let upper_folder_path = &["../", "..\\", "\\", "/"];
    let link_string = String::from("assets\\verify.jpeg");
    let link_string = Asset::remove_prefixes(link_string, upper_folder_path);
    assert_eq!("assets\\verify.jpeg", link_string);

    let link_string = String::from("/assets\\verify.jpeg");
    let link_string = Asset::remove_prefixes(link_string, upper_folder_path);
    assert_eq!("assets\\verify.jpeg", link_string);

    let link_string = String::from("..\\..\\assets\\verify.jpeg");
    let link_string = Asset::remove_prefixes(link_string, upper_folder_path);
    assert_eq!("..\\assets\\verify.jpeg", link_string);
    let new_link = Asset::remove_prefixes(link_string, upper_folder_path);
    assert_eq!("assets\\verify.jpeg", new_link);
}

#[test]
fn resource_test_compute_asset_path_by_src_and_link() {
    let style = PathStyle::Slash;
    let mut book_or_chapter_src = "media/book/src";

    let mut link = "./asset1.jpg";
    assert_eq!(root_and_link(style, link, book_or_chapter_src), "media/book/src/asset1.jpg");

    link = "asset1.jpg";
    assert_eq!(root_and_link(style, link, book_or_chapter_src), "media/book/src/asset1.jpg");

    link = "../upper/assets/asset1.jpg";
    assert_eq!(
        root_and_link(style, link, book_or_chapter_src),
        "media/book/upper/assets/asset1.jpg"
    );

    link = "assets/asset1.jpg";
    assert_eq!(
        root_and_link(style, link, book_or_chapter_src),
        "media/book/src/assets/asset1.jpg"
    );

    link = "./assets/asset1.jpg";
    assert_eq!(
        root_and_link(style, link, book_or_chapter_src),
        "media/book/src/assets/asset1.jpg"
    );

    book_or_chapter_src = "media/book/src/chapter1";

    link = "../assets/asset1.jpg";
    assert_eq!(
        root_and_link(style, link, book_or_chapter_src),
        "media/book/src/assets/asset1.jpg"
    );

    book_or_chapter_src = "media/book/src/chapter1/inner";
    link = "../../assets/asset1.jpg";
    assert_eq!(
        root_and_link(style, link, book_or_chapter_src),
        "media/book/src/assets/asset1.jpg"
    );
}

#[test]
fn resource_test_compute_asset_path_by_src_and_link_windows() {
    let style = PathStyle::Backslash;
    let mut book_or_chapter_src = "media\\book\\src";

    let mut link = ".\\asset1.jpg";
    assert_eq!(root_and_link(style, link, book_or_chapter_src), "media\\book\\src\\asset1.jpg");

    link = "asset1.jpg";
    assert_eq!(root_and_link(style, link, book_or_chapter_src), "media\\book\\src\\asset1.jpg");

    link = "..\\upper\\assets\\asset1.jpg";
    assert_eq!(
        root_and_link(style, link, book_or_chapter_src),
        "media\\book\\upper\\assets\\asset1.jpg"
    );

    link = "assets\\asset1.jpg";
    assert_eq!(
        root_and_link(style, link, book_or_chapter_src),
        "media\\book\\src\\assets\\asset1.jpg"
    );

    link = ".\\assets\\asset1.jpg";
    assert_eq!(
        root_and_link(style, link, book_or_chapter_src),
        "media\\book\\src\\assets\\asset1.jpg"
    );

    book_or_chapter_src = "media\\book\\src\\chapter1";

    link = "..\\assets\\asset1.jpg";
    assert_eq!(
        root_and_link(style, link, book_or_chapter_src),
        "media\\book\\src\\assets\\asset1.jpg"
    );

    book_or_chapter_src = "media\\book\\src\\chapter1\\inner";
    link = "..\\..\\assets\\asset1.jpg";
    assert_eq!(
        root_and_link(style, link, book_or_chapter_src),
        "media\\book\\src\\assets\\asset1.jpg"
    );
}

#[test]
fn test_incorrect_compute_asset_path_by_src_and_link() {
    let style = PathStyle::Slash;
    let book_or_chapter_src = "media/book/src";

    let link = "/assets/asset1.jpg";
    assert_eq!(root_and_link(style, link, book_or_chapter_src), "/assets/asset1.jpg");

    let link = "/../assets/asset1.jpg";
    assert_eq!(root_and_link(style, link, book_or_chapter_src), "/assets/asset1.jpg");
}

#[test]
fn test_incorrect_compute_asset_path_by_src_and_link_windows() {
    let style = PathStyle::Backslash;
    let book_or_chapter_src = "media\\book\\src";

    let link = "\\assets\\asset1.jpg";
    assert_eq!(
        components(style, &root_and_link(style, link, book_or_chapter_src)),
        components(style, "/assets/asset1.jpg")
    );

    let link = "\\..\\assets/asset1.jpg";
    assert_eq!(
        components(style, &root_and_link(style, link, book_or_chapter_src)),
        components(style, "/assets/asset1.jpg")
    );
}

#[test]
fn climbing_stops_at_the_root() {
    let root = Asset::compute_asset_path_by_src_and_link(
        PathStyle::Slash,
        "../../../../x.png",
        "/a/b.md",
        chapter_file(),
    );
    assert_eq!(root, "/");
    let none = Asset::compute_asset_path_by_src_and_link(
        PathStyle::Slash,
        "",
        "a/b",
        missing_chapter(),
    );
    assert_eq!(none, "a/b");
}

#[test]
fn updated_fields_replace_the_three_fields_only() {
    let link = "https://host/pic";
    let asset = Asset::from_url(PathStyle::Slash, link, RemoteUrl::parse(link).unwrap(), "/out");
    let updated = asset.with_updated_fields(UpdatedAssetData {
        mimetype: "image/jpeg".to_string(),
        location_on_disk: "/out/x.jpg".to_string(),
        filename: "x.jpg".to_string(),
    });
    assert_eq!(updated.original_link, link);
    assert_eq!(updated.source, asset.source);
    assert_eq!(updated.mimetype, "image/jpeg");
    assert_eq!(updated.location_on_disk, "/out/x.jpg");
    assert_eq!(updated.filename, "x.jpg");
    assert_eq!(asset.duplicate(), asset);
    let d = UpdatedAssetData::default();
    assert_eq!(d.mimetype, "plain/txt");
    assert_eq!(d.filename, "");
    assert_eq!(d.location_on_disk, "");
}
