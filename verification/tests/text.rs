use mdbook_epub::text::{
    chars_of, decimal_string, hex_string, replace_all, same_text, starts_with, string_of,
};

#[test]
fn test_replace_non_ascii() {
    let source = r#"<body>
    <p><img src="https://github.com/sunface/rust-course/blob/main/assets/studyrust公众号.png?raw=true" />   <img src="4dbdb25800b6fa1b.4bdfd0c7-bf6a-4016-86ea-79b13ae5ef90" alt="Image" /></p>
"#;
    let source = source.to_string();
    let content = replace_all(
        &source,
        "https://github.com/sunface/rust-course/blob/main/assets/studyrust公众号.png?raw=true",
        "b270cb6837d41f98.png",
    );
    println!("{}", &content);
    let original = "<img src=\"b270cb6837d41f98.png\"".to_string();
    assert!(content.contains(original.as_str()));
}

#[test]
fn replace_all_agrees_with_the_standard_library() {
    let cases = [
        ("", "", "x"),
        ("abc", "", "-"),
        ("aaaa", "aa", "b"),
        ("aaa", "aa", "b"),
        ("abcabc", "bc", ""),
        ("abc", "abcd", "x"),
        ("abc", "abc", "xyz"),
        ("a.b.c", ".", ".."),
        ("héllo wörld", "ö", "oe"),
    ];
    for (s, pat, with) in cases {
        assert_eq!(replace_all(s, pat, with), s.replace(pat, with), "{:?}", (s, pat, with));
    }
}

#[test]
fn numbers_are_written_without_leading_zeros() {
    assert_eq!(decimal_string(0), "0");
    assert_eq!(decimal_string(7), "7");
    assert_eq!(decimal_string(10), "10");
    assert_eq!(decimal_string(1234567890), "1234567890");
    assert_eq!(decimal_string(u64::MAX), "18446744073709551615");
    assert_eq!(hex_string(0), "0");
    assert_eq!(hex_string(255), "ff");
    assert_eq!(hex_string(0xb20b2723e874918), "b20b2723e874918");
    assert_eq!(hex_string(u64::MAX), "ffffffffffffffff");
}

#[test]
fn chars_round_trip() {
    let s = "naïve ✓ text";
    assert_eq!(string_of(&chars_of(s)), s);
    assert!(same_text("abc", "abc"));
    assert!(!same_text("abc", "abd"));
    assert!(!same_text("abc", "ab"));
    assert!(starts_with("../a", "../"));
    assert!(!starts_with("..", "../"));
    assert!(starts_with("abc", ""));
}
