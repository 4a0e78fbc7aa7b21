use mdbook_epub::config::Config;
use mdbook_epub::errors::EpubError;
use mdbook_epub::paths::PathStyle;
use mdbook_epub::table::AssetTable;
use mdbook_epub::asset::{Asset, AssetKind};
use mdbook_epub::{file_io, output_filename, path_io, version_check};

fn io_error() -> std::io::Error {
    std::io::Error::new(std::io::ErrorKind::NotFound, "gone")
}

#[test]
fn io_results_are_told_apart() {
    let ok: Result<u8, std::io::Error> = Ok(7);
    assert_eq!(file_io(ok, "open", "/a/b").unwrap(), 7);
    match file_io::<u8>(Err(io_error()), "open", "/a/b") {
        Err(EpubError::AssetFileIo { action, path, source }) => {
            assert_eq!(action, "open");
            assert_eq!(path, "/a/b");
            assert_eq!(source.kind(), std::io::ErrorKind::NotFound);
        }
        other => panic!("{:?}", other),
    }
    let ok: Result<&str, std::io::Error> = Ok("x");
    assert_eq!(path_io(ok, "/p").unwrap(), "x");
    match path_io::<u8>(Err(io_error()), "/p") {
        Err(EpubError::AssetPathIo { path, source }) => {
            assert_eq!(path, "/p");
            assert_eq!(source.to_string(), "gone");
        }
        other => panic!("{:?}", other),
    }
}

#[test]
fn version_must_lie_in_the_same_minor_line() {
    assert!(version_check("0.5.4", "0.5.4").is_ok());
    assert!(version_check("0.5.4", "0.5.9").is_ok());
    assert!(matches!(
        version_check("0.5.4", "0.6.0"),
        Err(EpubError::IncompatibleVersion(want, got)) if want == "0.5.4" && got == "0.6.0"
    ));
    assert!(matches!(version_check("0.5.4", "0.5.3"), Err(EpubError::IncompatibleVersion(_, _))));
    assert!(matches!(version_check("0.5.4", "not a version"), Err(EpubError::Semver(_))));
    assert!(matches!(version_check("??", "0.5.4"), Err(EpubError::Semver(_))));
}

#[test]
fn output_file_is_named_after_the_title() {
    let s = PathStyle::Slash;
    assert_eq!(output_filename(s, "/out/epub", Some("DummyBook")).unwrap(), "/out/epub/DummyBook.epub");
    assert_eq!(output_filename(s, "/out/epub", Some("My Book")).unwrap(), "/out/epub/My Book.epub");
    assert_eq!(output_filename(s, "/out/epub", Some("Vol.1")).unwrap(), "/out/epub/Vol.epub");
    assert_eq!(output_filename(s, "/out/epub", None).unwrap(), "/out/epub/book.epub");
    assert_eq!(output_filename(PathStyle::Backslash, "C:\\out", None).unwrap(), "C:\\out\\book.epub");
    assert!(matches!(
        output_filename(s, "/out/epub", Some("a/b")),
        Err(EpubError::EpubBookNameOrPath(t)) if t == "a/b"
    ));
}

#[test]
fn configuration_defaults() {
    let c = Config::default();
    assert!(c.use_default_css);
    assert!(c.additional_css.is_empty());
    assert!(c.index_template.is_none());
    assert!(c.cover_image.is_none());
    assert!(c.additional_resources.is_empty());
    assert!(!c.no_section_label);
    assert!(!c.curly_quotes);
    assert!(!c.footnote_backrefs);
    assert!(c.epub_version.is_none());
    assert_eq!(c.clone().rooted_at(PathStyle::Slash, "/book"), c);
    let mut with_template = Config::default();
    with_template.index_template = Some("theme/index.hbs".to_string());
    with_template.curly_quotes = true;
    let rooted = with_template.rooted_at(PathStyle::Slash, "/book");
    assert_eq!(rooted.index_template.as_deref(), Some("/book/theme/index.hbs"));
    assert!(rooted.curly_quotes);
}

#[test]
fn table_keeps_one_asset_for_each_link() {
    let asset = |link: &str, name: &str| Asset {
        original_link: link.to_string(),
        location_on_disk: format!("/src/{}", name),
        filename: name.to_string(),
        mimetype: "image/png".to_string(),
        source: AssetKind::Local(link.to_string()),
    };
    let mut table = AssetTable::new();
    assert!(table.is_empty());
    assert!(table.get("a").is_none());
    table.insert(asset("a", "one"));
    table.insert(asset("b", "two"));
    assert!(!table.insert_if_vacant(asset("a", "three")));
    assert!(table.insert_if_vacant(asset("c", "four")));
    assert_eq!(table.len(), 3);
    assert_eq!(table.get("a").unwrap().filename, "one");
    table.insert(asset("a", "five"));
    assert_eq!(table.len(), 3);
    assert_eq!(table.get("a").unwrap().filename, "five");
    assert!(table.contains_key("c"));
    assert!(!table.contains_key("d"));
    let order: Vec<&str> = table.assets().iter().map(|a| a.original_link.as_str()).collect();
    assert_eq!(order, vec!["a", "b", "c"]);
}
