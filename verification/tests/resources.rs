use mdbook_epub::asset::{
    hash_link, upper_folder_paths, Asset, AssetKind, ChapterProbe, RemoteUrl, TargetProbe,
};
use mdbook_epub::book::{BookItem, Chapter};
use mdbook_epub::paths::{components, join, normalize_path, PathStyle};
use mdbook_epub::resource::{
    chapter_links, chapter_locations, find, find_assets_in_markdown, local_targets, Discovery,
};

const DUMMY_ROOT: &str = "/work/tests/dummy";
const DUMMY_SRC: &str = "/work/tests/dummy/src";

fn dummy_chapter(content: &str, path: Option<&str>) -> Vec<BookItem> {
    vec![BookItem::Chapter(Chapter {
        name: "Chapter 1".to_string(),
        content: content.to_string(),
        number: Some(vec![1]),
        sub_items: vec![],
        path: path.map(|p| p.to_string()),
    })]
}

/// Discovery over the dummy book, whose files are exactly `files`.
fn find_in_dummy(items: &Vec<BookItem>, dest: &str, files: &[&str]) -> Discovery {
    let style = PathStyle::Slash;
    let chapters = chapter_links(items);
    let chapter_probes: Vec<ChapterProbe> = chapter_locations(style, &chapters, DUMMY_SRC)
        .iter()
        .map(|_| ChapterProbe { exists: true, is_file: true })
        .collect();
    let probes: Vec<Vec<Option<TargetProbe>>> =
        local_targets(style, &chapters, DUMMY_SRC, &chapter_probes)
            .iter()
            .map(|row| {
                row.iter()
                    .map(|t| {
                        t.as_ref().map(|p| {
                            let location = normalize_path(style, p);
                            if files.contains(&location.as_str()) {
                                TargetProbe::Found { location, is_file: true, is_symlink: false }
                            } else {
                                TargetProbe::Missing(
                                    "No such file or directory (os error 2)".to_string(),
                                )
                            }
                        })
                    })
                    .collect()
            })
            .collect();
    find(style, &chapters, DUMMY_SRC, dest, &chapter_probes, &probes)
}

fn joined_with_link(style: PathStyle, link: &str, chapter_dir: &str) -> String {
    let probe = ChapterProbe { exists: false, is_file: false };
    let asset_path = Asset::compute_asset_path_by_src_and_link(style, link, chapter_dir, probe);
    let normalized_link = normalize_path(style, link);
    join(style, &asset_path, &normalized_link)
}

#[test]
fn resources_test_find_images() {
    let parent_dir = DUMMY_SRC;
    let upper_parent_dir = DUMMY_ROOT;
    let src =
        "![Image 1](./rust-logo.png)\n[a link](to/nowhere) ![Image 2][2]\n\n[2]: reddit.svg\n\
        \n\n<img alt=\"Rust Logo in html\" src=\"reddit.svg\" class=\"center\" style=\"width: 20%;\" />\n\n\
        \n\n![Image 4](assets/rust-logo.png)\n[a link](to/nowhere)
        ![Image 4](../third_party/wikimedia/Epub_logo_color.svg)\n[a link](to/nowhere)";
    let style = PathStyle::Slash;
    let should_be = vec![
        join(style, upper_parent_dir, "third_party/wikimedia/Epub_logo_color.svg"),
        join(style, parent_dir, "rust-logo.png"),
        join(style, parent_dir, "assets/rust-logo.png"),
        join(style, parent_dir, "reddit.svg"),
    ];

    let got = find_assets_in_markdown(src)
        .into_iter()
        .map(|a| normalize_path(style, &join(style, parent_dir, &a)))
        .collect::<Vec<_>>();

    assert_eq!(got, should_be);
}

#[test]
fn find_local_asset() {
    let link = "./rust-logo.png";
    // link and link2 - are the same asset
    let link2 = "assets/rust-logo.png";
    // not_found_link3 path won't be found because it's outside of src/
    let not_found_link3 = "../third_party/wikimedia/Epub_logo_color.svg";

    let items = dummy_chapter(
        &format!("# Chapter 1\r\n\r\n![Image]({link})\r\n![Image]({link2})\r\n![Image]({not_found_link3})"),
        Some("chapter_1.md"),
    );
    let found = find_in_dummy(
        &items,
        "/tmp/mdbook-epub",
        &[
            "/work/tests/dummy/src/rust-logo.png",
            "/work/tests/dummy/src/assets/rust-logo.png",
            "/work/tests/dummy/third_party/wikimedia/Epub_logo_color.svg",
        ],
    );
    let assets = found.assets;
    assert!(assets.len() == 2);

    fn assert_asset(a: &Asset, link: &str) {
        let style = PathStyle::Slash;
        let link_as_path = normalize_path(style, link);
        let filename = link_as_path.as_str();
        let absolute_location = join(style, DUMMY_SRC, &link_as_path);
        let source = AssetKind::Local(link.to_string());
        let should_be = Asset::new(style, link, filename, &absolute_location, source);
        assert_eq!(*a, should_be);
    }
    assert_asset(assets.get(link).unwrap(), link);
    assert_asset(assets.get(link2).unwrap(), link2);
}

#[test]
fn find_remote_asset() {
    let link = "https://www.rust-lang.org/static/images/rust-logo-blk.svg";
    let link2 = "https://www.rust-lang.org/static/images/rust-logo-blk.png";
    let link_parsed = RemoteUrl::parse(link).unwrap();
    let link_parsed2 = RemoteUrl::parse(link2).unwrap();
    let temp = "/tmp/mdbook-epub";
    let items = dummy_chapter(
        &format!("# Chapter 1\r\n\r\n![Image]({link})\r\n<a href=\"\"><img  src=\"{link2}\"></a>"),
        Some("chapter_1.md"),
    );

    let assets = find_in_dummy(&items, temp, &[]).assets;
    assert!(assets.len() == 2);

    for value in assets.assets().iter() {
        match &value.source {
            AssetKind::Remote(internal_url) => {
                let key_to_remove = value.location_on_disk.as_str();
                let filename = if key_to_remove.contains(".svg") {
                    hash_link(&link_parsed)
                } else {
                    hash_link(&link_parsed2)
                };
                let absolute_location = join(PathStyle::Slash, temp, &filename);
                let source = AssetKind::Remote(internal_url.clone());
                let should_be = Asset::new(
                    PathStyle::Slash,
                    &value.original_link,
                    &filename,
                    &absolute_location,
                    source,
                );
                assert_eq!(*value, should_be);
            }
            _ => {
                // only remote urls are processed here for simplicity
                panic!("Should not be here... only remote urls are used here")
            }
        }
    }
}

#[test]
fn find_draft_chapter_without_error() {
    let items = dummy_chapter("", None);
    assert!(find_in_dummy(&items, "/tmp/mdbook-epub", &[]).assets.is_empty());
}

#[test]
fn resources_test_compute_asset_path_by_src_and_link_to_full_path() {
    let book_source_root_dir = DUMMY_SRC;
    let book_chapter_dir = join(PathStyle::Slash, book_source_root_dir, "chapter_1.md");

    let link = "./asset1.jpg";
    let asset_path = Asset::compute_asset_path_by_src_and_link(
        PathStyle::Slash,
        link,
        &book_chapter_dir,
        ChapterProbe { exists: true, is_file: true },
    );
    let normalized_link = normalize_path(PathStyle::Slash, link);
    let full_path = join(PathStyle::Slash, &asset_path, &normalized_link);
    assert_eq!(full_path, join(PathStyle::Slash, DUMMY_SRC, "asset1.jpg"));
}

#[test]
fn resources_test_remove_prefixes() {
    let upper = upper_folder_paths(PathStyle::Slash);
    let link_string = String::from("assets/verify.jpeg");
    let link_string = Asset::remove_prefixes(link_string, &upper);
    assert_eq!("assets/verify.jpeg", link_string);

    let link_string = String::from("/assets/verify.jpeg");
    let link_string = Asset::remove_prefixes(link_string, &upper);
    assert_eq!("assets/verify.jpeg", link_string);

    let link_string = String::from("../../assets/verify.jpeg");
    let link_string = Asset::remove_prefixes(link_string, &upper);
    assert_eq!("../assets/verify.jpeg", link_string);
    let new_link = Asset::remove_prefixes(link_string, &upper);
    assert_eq!("assets/verify.jpeg", new_link);

    let upper_folder_path = &["../", "../", "/", "/"];
    let link_string = String::from("assets/verify.jpeg");
    let link_string = Asset::remove_prefixes(link_string, upper_folder_path);
    assert_eq!("assets/verify.jpeg", link_string);

    let link_string = String::from("/assets/verify.jpeg");
    let link_string = Asset::remove_prefixes(link_string, upper_folder_path);
    assert_eq!("assets/verify.jpeg", link_string);

    let link_string = String::from("../../assets/verify.jpeg");
    let link_string = Asset::remove_prefixes(link_string, upper_folder_path);
    assert_eq!("../assets/verify.jpeg", link_string);
    let new_link = Asset::remove_prefixes(link_string, upper_folder_path);
    assert_eq!("assets/verify.jpeg", new_link);
}

#[test]
fn resources_test_remove_prefixes_windows() {
    let upper = upper_folder_paths(PathStyle::Backslash);
    let link_string = String::from("assets\\verify.jpeg");
    let link_string = Asset::remove_prefixes(link_string, &upper);
    assert_eq!("assets\\verify.jpeg", link_string);

    let link_string = String::from("\\assets\\verify.jpeg");
    let link_string = Asset::remove_prefixes(link_string, &upper);
    assert_eq!("assets\\verify.jpeg", link_string);

    let link_string = String::from("..\\..\\assets\\verify.jpeg");
    let link_string = Asset::remove_prefixes(link_string, &upper);
    assert_eq!("..\\assets\\verify.jpeg", link_string);
    let new_link = Asset::remove_prefixes(link_string, &upper);
    assert_eq!("assets\\verify.jpeg", new_link);

    let upper_folder_path = &["../", "..\\", "\\", "/"];
    let link_string = String::from("assets\\verify.jpeg");
    let link_string = Asset::remove_prefixes(link_string, upper_folder_path);
    assert_eq!("assets\\verify.jpeg", link_string);

    let link_string = String::from("/assets\\verify.jpeg");
    let link_string = Asset::remove_prefixes(link_string, upper_folder_path);
    assert_eq!("assets\\verify.jpeg", link_string);

    let link_string = String::from("..\\..\\assets\\verify.jpeg");
    let link_string = Asset::remove_prefixes(link_string, upper_folder_path);
    assert_eq!("..\\assets\\verify.jpeg", link_string);
    let new_link = Asset::remove_prefixes(link_string, upper_folder_path);
    assert_eq!("assets\\verify.jpeg", new_link);
}

#[test]
fn resources_test_compute_asset_path_by_src_and_link() {
    let style = PathStyle::Slash;
    let mut book_or_chapter_src = "media/book/src";

    let mut link = "./asset1.jpg";
    assert_eq!(joined_with_link(style, link, book_or_chapter_src), "media/book/src/asset1.jpg");

    link = "asset1.jpg";
    assert_eq!(joined_with_link(style, link, book_or_chapter_src), "media/book/src/asset1.jpg");

    link = "../upper/assets/asset1.jpg";
    assert_eq!(
        joined_with_link(style, link, book_or_chapter_src),
        "media/book/upper/assets/asset1.jpg"
    );

    link = "assets/asset1.jpg";
    assert_eq!(
        joined_with_link(style, link, book_or_chapter_src),
        "media/book/src/assets/asset1.jpg"
    );

    link = "./assets/asset1.jpg";
    assert_eq!(
        joined_with_link(style, link, book_or_chapter_src),
        "media/book/src/assets/asset1.jpg"
    );

    book_or_chapter_src = "media/book/src/chapter1";

    link = "../assets/asset1.jpg";
    assert_eq!(
        joined_with_link(style, link, book_or_chapter_src),
        "media/book/src/assets/asset1.jpg"
    );

    book_or_chapter_src = "media/book/src/chapter1/inner";
    link = "../../assets/asset1.jpg";
    assert_eq!(
        joined_with_link(style, link, book_or_chapter_src),
        "media/book/src/assets/asset1.jpg"
    );
}

#[test]
fn resources_test_compute_asset_path_by_src_and_link_windows() {
    let style = PathStyle::Backslash;
    let mut book_or_chapter_src = "media\\book\\src";

    let mut link = ".\\asset1.jpg";
    assert_eq!(joined_with_link(style, link, book_or_chapter_src), "media\\book\\src\\asset1.jpg");

    link = "asset1.jpg";
    assert_eq!(joined_with_link(style, link, book_or_chapter_src), "media\\book\\src\\asset1.jpg");

    link = "..\\upper\\assets\\asset1.jpg";
    assert_eq!(
        joined_with_link(style, link, book_or_chapter_src),
        "media\\book\\upper\\assets\\asset1.jpg"
    );

    link = "assets\\asset1.jpg";
    assert_eq!(
        joined_with_link(style, link, book_or_chapter_src),
        "media\\book\\src\\assets\\asset1.jpg"
    );

    link = ".\\assets\\asset1.jpg";
    assert_eq!(
        joined_with_link(style, link, book_or_chapter_src),
        "media\\book\\src\\assets\\asset1.jpg"
    );

    book_or_chapter_src = "media\\book\\src\\chapter1";

    link = "..\\assets\\asset1.jpg";
    assert_eq!(
        joined_with_link(style, link, book_or_chapter_src),
        "media\\book\\src\\assets\\asset1.jpg"
    );

    book_or_chapter_src = "media\\book\\src\\chapter1\\inner";
    link = "..\\..\\assets\\asset1.jpg";
    assert_eq!(
        joined_with_link(style, link, book_or_chapter_src),
        "media\\book\\src\\assets\\asset1.jpg"
    );
}

#[test]
fn incorrect_compute_asset_path_by_src_and_link() {
    let style = PathStyle::Slash;
    let book_or_chapter_src = "media/book/src";

    let link = "/assets/asset1.jpg";
    assert_eq!(joined_with_link(style, link, book_or_chapter_src), "/assets/asset1.jpg");

    let link = "/../assets/asset1.jpg";
    assert_eq!(joined_with_link(style, link, book_or_chapter_src), "/assets/asset1.jpg");
}

#[test]
fn incorrect_compute_asset_path_by_src_and_link_windows() {
    let style = PathStyle::Backslash;
    let book_or_chapter_src = "media\\book\\src";

    let link = "\\assets\\asset1.jpg";
    assert_eq!(
        components(style, &joined_with_link(style, link, book_or_chapter_src)),
        components(style, "/assets/asset1.jpg")
    );

    let link = "\\..\\assets/asset1.jpg";
    assert_eq!(
        components(style, &joined_with_link(style, link, book_or_chapter_src)),
        components(style, "/assets/asset1.jpg")
    );
}
