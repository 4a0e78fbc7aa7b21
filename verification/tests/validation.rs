use mdbook_epub::errors::EpubError;
use mdbook_epub::validation::{
    is_valid_filename, validate_config_epub_version, validate_config_title_file_name,
    EpubVersion,
};

#[test]
fn test_valid_filenames() {
    assert!(is_valid_filename("file.txt"));
    assert!(is_valid_filename("hello_world"));
    assert!(is_valid_filename("my-document.md"));
    assert!(is_valid_filename("data_123"));
    assert!(is_valid_filename("my-document.md_data_123"));
}

#[test]
fn test_invalid_filenames() {
    assert!(!is_valid_filename("")); // Empty string
    assert!(!is_valid_filename("CON")); // Reserved Windows names
    assert!(!is_valid_filename("NUL"));
    assert!(!is_valid_filename("COM1"));
    assert!(!is_valid_filename("LPT1"));
    assert!(!is_valid_filename("file:name.txt")); // Forbidden characters
    assert!(!is_valid_filename("hello/world"));
    assert!(!is_valid_filename("book / name"));
    assert!(!is_valid_filename("book // name"));
    assert!(!is_valid_filename("some\\path"));
    assert!(!is_valid_filename("this\0hasnull")); // Null character
    assert!(!is_valid_filename(&"a".repeat(256))); // Too long filename
}

#[test]
fn filename_limits() {
    assert!(is_valid_filename(&"a".repeat(255)));
    assert!(!is_valid_filename(&"é".repeat(128)));
    assert!(is_valid_filename(&"é".repeat(127)));
    assert!(!is_valid_filename("con"));
    assert!(!is_valid_filename("Lpt9"));
    assert!(is_valid_filename("COM0"));
    assert!(is_valid_filename("CONSOLE"));
    assert!(is_valid_filename("My Book"));
}

#[test]
fn epub_version_is_two_or_three() {
    assert_eq!(validate_config_epub_version(None).unwrap(), None);
    assert_eq!(validate_config_epub_version(Some(2)).unwrap(), Some(EpubVersion::V20));
    assert_eq!(validate_config_epub_version(Some(3)).unwrap(), Some(EpubVersion::V30));
    match validate_config_epub_version(Some(42)) {
        Err(EpubError::EpubDocCreate(m)) => {
            assert_eq!(m, "Unsupported epub version specified in book.toml: 42")
        }
        other => panic!("{:?}", other),
    }
}

#[test]
fn title_must_be_a_file_name() {
    assert_eq!(validate_config_title_file_name(Some("DummyBook")).unwrap(), "DummyBook");
    assert!(matches!(
        validate_config_title_file_name(Some("a/b")),
        Err(EpubError::EpubBookNameOrPath(t)) if t == "a/b"
    ));
    assert!(matches!(
        validate_config_title_file_name(None),
        Err(EpubError::EpubBookNameOrPath(t)) if t.is_empty()
    ));
}
