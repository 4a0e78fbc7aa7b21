use mdbook_epub::asset::{hash_link, Asset, AssetKind, RemoteUrl};
use mdbook_epub::book::{BookItem, Chapter};
use mdbook_epub::config::Config;
use mdbook_epub::errors::EpubError;
use mdbook_epub::filters::asset_link::AssetRemoteLinkFilter;
use mdbook_epub::generator::{
    add_chapter, has_partial, additional_resource_candidates, chapter_body, chapter_level, chapter_title,
    check_template, cover_image_candidates, filter_tokens, generate_chapters, populate_metadata,
    render_chapter, stylesheet_candidates, stylesheet_path, wrap_in_template, BookMeta, Rendered,
};
use mdbook_epub::paths::PathStyle;
use mdbook_epub::resource::{chapter_links, find};
use mdbook_epub::table::AssetTable;
use mdbook_epub::token::{push_html, tokenize, Token};

const TEMPLATE: &str = "<html><head><title>{{title}}</title><link href=\"{{stylesheet}}\"/></head><body{{#if epub_version_3}} class=\"v3\"{{/if}}>{{{body}}}</body></html>";

fn chapter(name: &str, content: &str, number: Vec<u32>, path: Option<&str>, sub_items: Vec<BookItem>) -> Chapter {
    Chapter {
        name: name.to_string(),
        content: content.to_string(),
        number: Some(number),
        sub_items,
        path: path.map(|p| p.to_string()),
    }
}

#[test]
fn test_render_assets() {
    let links = ["local.webp", "http://server/remote.svg", "http://server/link.png"];
    let root = "/tmp/x/mdbook-epub";
    let mut assets = AssetTable::new();
    assets.insert(Asset {
        original_link: links[0].to_string(),
        location_on_disk: format!("{}/src/{}", root, links[0]),
        filename: links[0].to_string(),
        mimetype: "image/webp".to_string(),
        source: AssetKind::Local(links[0].to_string()),
    });
    let url = RemoteUrl::parse(links[1]).unwrap();
    let hashed_filename = hash_link(&url);
    let hashed_path = format!("cache/{}", hashed_filename);
    assets.insert(Asset {
        original_link: links[1].to_string(),
        location_on_disk: format!("{}/book/{}", root, hashed_path),
        filename: hashed_path,
        mimetype: "image/svg+xml".to_string(),
        source: AssetKind::Remote(url),
    });
    let markdown_str = format!(
        "Chapter 1\n\
        =====\n\n\
        * [link]({})\n\
        * ![Local Image]({})\n\
        * <img alt=\"Remote Image\" src=\"{}\" >\n",
        links[2], links[0], links[1]
    );

    let filter = AssetRemoteLinkFilter::new(&assets, 0);
    let events: Vec<Token> = tokenize(&markdown_str).into_iter().map(|ev| filter.apply(ev)).collect();
    let html_buf = push_html(&events);

    assert_eq!(
        html_buf,
        format!(
            "<h1>Chapter 1</h1>\n\
            <ul>\n\
            <li><a href=\"{}\">link</a></li>\n\
            <li><img src=\"{}\" alt=\"Local Image\" /></li>\n\
            <li><img alt=\"Remote Image\" src=\"cache/{}\" >\n\
            </li>\n\
            </ul>\n",
            links[2], links[0], hashed_filename
        )
    );
}

#[test]
fn test_render_remote_assets_in_sub_chapter() {
    let link = "https://mdbook.epub/dummy.svg";
    let dest_dir = "/tmp/x/mdbook-epub";
    let ch1_1 = chapter(
        "subchapter",
        &format!("# Subchapter\n\n![Image]({link})"),
        vec![1, 1],
        Some("chapter_1/subchapter.md"),
        vec![],
    );
    let ch1 = chapter(
        "Chapter 1",
        &format!("# Chapter 1\n\n![Image]({link})"),
        vec![1],
        Some("chapter_1/index.md"),
        vec![BookItem::Chapter(ch1_1)],
    );
    let ch2 = chapter(
        "Chapter 2",
        &format!("# Chapter 2\n\n![Image]({link})"),
        vec![2],
        Some("chapter_2.md"),
        vec![],
    );
    let items = vec![BookItem::Chapter(ch1), BookItem::Chapter(ch2)];
    let style = PathStyle::Slash;
    let found = find(style, &chapter_links(&items), "src", dest_dir, &Vec::new(), &Vec::new());
    let assets = found.assets;
    assert_eq!(assets.len(), 1);
    let config = Config::default();

    let pat = |heading: &str, prefix: &str| {
        format!("<h1>{heading}</h1>\n<p><img src=\"{prefix}811c431d49ec880b.svg\"")
    };
    if let BookItem::Chapter(ref ch) = items[0] {
        let rendered: String = render_chapter(style, &config, &assets, TEMPLATE, ch).unwrap();
        assert!(rendered.contains(&pat("Chapter 1", "../")));

        if let BookItem::Chapter(ref sub_ch) = ch.sub_items[0] {
            let sub_rendered = render_chapter(style, &config, &assets, TEMPLATE, sub_ch).unwrap();
            assert!(sub_rendered.contains(&pat("Subchapter", "../")));
        } else {
            panic!();
        }
    } else {
        panic!();
    }
    if let BookItem::Chapter(ref ch) = items[1] {
        let rendered: String = render_chapter(style, &config, &assets, TEMPLATE, ch).unwrap();
        assert!(rendered.contains(&pat("Chapter 2", "")));
    } else {
        panic!();
    }
}

#[test]
fn chapter_is_wrapped_in_the_template() {
    let ch = chapter("One & <Two>", "Hello *you*", vec![1], Some("a/b/one.md"), vec![]);
    let mut config = Config::default();
    let html = render_chapter(PathStyle::Slash, &config, &AssetTable::new(), TEMPLATE, &ch).unwrap();
    assert_eq!(
        html,
        "<html><head><title>One &amp; &lt;Two&gt;</title><link href=\"../../stylesheet.css\"/></head><body><p>Hello <em>you</em></p>\n</body></html>"
    );
    config.epub_version = Some(3);
    let html = render_chapter(PathStyle::Slash, &config, &AssetTable::new(), TEMPLATE, &ch).unwrap();
    assert!(html.contains("<body class=\"v3\">"));
    assert!(matches!(
        render_chapter(PathStyle::Slash, &config, &AssetTable::new(), "{{#if}", &ch),
        Err(EpubError::Render(_))
    ));
    assert!(check_template(TEMPLATE).is_ok());
    assert!(matches!(check_template("{{#if}"), Err(EpubError::TemplateParse)));
    assert_eq!(wrap_in_template("{{title}}|{{{body}}}|{{stylesheet}}|{{epub_version_3}}", "t", "<b>", "s.css", true).unwrap(), "t|<b>|s.css|true");
}

#[test]
fn draft_chapter_is_not_rendered() {
    let ch = chapter("Draft", "", vec![1], None, vec![]);
    match render_chapter(PathStyle::Slash, &Config::default(), &AssetTable::new(), TEMPLATE, &ch) {
        Err(EpubError::ContentFileNotFound(m)) => {
            assert_eq!(m, "Draft chapter: 'Draft' could not be rendered.")
        }
        other => panic!("{:?}", other),
    }
    let rootless = chapter("Root", "", vec![1], Some("/"), vec![]);
    match render_chapter(PathStyle::Slash, &Config::default(), &AssetTable::new(), TEMPLATE, &rootless) {
        Err(EpubError::ContentFileNotFound(m)) => {
            assert_eq!(m, "No directory found for the chapter's path = '/'")
        }
        other => panic!("{:?}", other),
    }
}

#[test]
fn curly_quotes_and_footnotes_follow_the_configuration() {
    let text = "He said \"hi\"[^n].\n\n```\nlet s = \"str\";\n```\n\n[^n]: The 'note'.\n";
    let tokens = tokenize(text);
    let plain = filter_tokens(false, false, &AssetTable::new(), 0, &tokens);
    assert!(plain.footnotes.is_none());
    assert_eq!(plain.body, tokens);

    let filtered = filter_tokens(true, true, &AssetTable::new(), 0, &tokens);
    let body = push_html(&filtered.body);
    assert_eq!(
        body,
        "<p>He said “hi”<sup class=\"footnote-reference\" id=\"fr-n-1\"><a href=\"#fn-n\">[1]</a></sup>.</p>\n<pre><code>let s = \"str\";\n</code></pre>\n"
    );
    let notes = push_html(&filtered.footnotes.unwrap());
    assert_eq!(
        notes,
        "<div class=\"footnote-definition\" id=\"fn-n\" epub:type=\"footnote\"><p><span class=\"footnote-definition-label\">[1]</span> The ‘note’. <a href=\"#fr-n-1\">↩</a></p>\n</div>\n"
    );
    assert_eq!(
        chapter_body(&body, Some(&notes)),
        format!("{}<div class=\"footnotes\" epub:type=\"footnotes\">\n{}</div>\n", body, notes)
    );
    assert_eq!(chapter_body("x", None), "x");

    let mut config = Config::default();
    config.footnote_backrefs = true;
    assert!(!config.footnote_backrefs_enabled());
    config.epub_version = Some(3);
    assert!(config.footnote_backrefs_enabled());
    config.epub_version = Some(2);
    assert!(!config.footnote_backrefs_enabled());
}

#[test]
fn footnotes_defined_in_another_order_are_written_in_reference_order() {
    let text = "See[^1] and[^2].\n\n[^2]: Second footnote\n\n[^1]: First footnote\n";
    let filtered = filter_tokens(false, true, &AssetTable::new(), 0, &tokenize(text));
    let notes = push_html(&filtered.footnotes.unwrap());
    let first = notes.find("First footnote").unwrap();
    let second = notes.find("Second footnote").unwrap();
    assert!(first < second);
    assert!(notes.find("[1]</span> First footnote").is_some());
    assert!(notes.find("[2]</span> Second footnote").is_some());
}

#[test]
fn stylesheet_path_climbs_to_the_root() {
    assert_eq!(stylesheet_path(0), "stylesheet.css");
    assert_eq!(stylesheet_path(1), "../stylesheet.css");
    assert_eq!(stylesheet_path(3), "../../../stylesheet.css");
}

#[test]
fn titles_and_levels() {
    let ch = chapter("Intro", "", vec![1, 2, 3], Some("a.md"), vec![]);
    assert_eq!(chapter_title(false, &ch), "1.2.3. Intro");
    assert_eq!(chapter_title(true, &ch), "Intro");
    assert_eq!(chapter_level(&ch), 2);
    let top = chapter("Top", "", vec![10], Some("a.md"), vec![]);
    assert_eq!(chapter_title(false, &top), "10. Top");
    assert_eq!(chapter_level(&top), 0);
    let empty = chapter("E", "", vec![], Some("a.md"), vec![]);
    assert_eq!(chapter_title(false, &empty), "0 E");
    assert_eq!(chapter_level(&empty), -1);
    let mut unnumbered = chapter("Preface", "", vec![], Some("a.md"), vec![]);
    unnumbered.number = None;
    assert_eq!(chapter_title(false, &unnumbered), "Preface");
    assert_eq!(chapter_level(&unnumbered), 0);
}

#[test]
fn chapters_are_listed_in_order_and_failures_are_skipped() {
    let items = vec![
        BookItem::PartTitle("Part I".to_string()),
        BookItem::Chapter(chapter(
            "One",
            "# One",
            vec![1],
            Some("one/index.md"),
            vec![
                BookItem::Chapter(chapter("Deep", "deep", vec![1, 1], Some("one/deep.md"), vec![])),
                BookItem::Separator,
                BookItem::Chapter(chapter(
                    "Draft",
                    "",
                    vec![1, 2],
                    None,
                    vec![BookItem::Chapter(chapter("Lost", "x", vec![1, 2, 1], Some("one/lost.md"), vec![]))],
                )),
            ],
        )),
        BookItem::Chapter(chapter("Two", "two", vec![2], Some("two.md"), vec![])),
    ];
    let rendered = generate_chapters(PathStyle::Slash, &Config::default(), &AssetTable::new(), "{{{body}}}", &items);
    let listed: Vec<(&str, &str, i32, bool)> = rendered
        .entries
        .iter()
        .map(|e| (e.path.as_str(), e.title.as_str(), e.level, e.first))
        .collect();
    assert_eq!(
        listed,
        vec![
            ("one/index.html", "1. One", 0, true),
            ("one/deep.html", "1.1. Deep", 1, false),
            ("two.html", "2. Two", 0, false),
        ]
    );
    assert_eq!(rendered.entries[0].content, "<h1>One</h1>\n");
    let skipped: Vec<&str> = rendered.skipped.iter().map(|s| s.name.as_str()).collect();
    assert_eq!(skipped, vec!["Draft"]);
    assert!(matches!(rendered.skipped[0].error, EpubError::ContentFileNotFound(_)));

    let drafts = vec![BookItem::Chapter(chapter("D", "", vec![1], None, vec![]))];
    let rendered = generate_chapters(PathStyle::Slash, &Config::default(), &AssetTable::new(), "{{{body}}}", &drafts);
    assert!(rendered.entries.is_empty());
    assert_eq!(rendered.skipped.len(), 1);

    let mut out = Rendered { entries: Vec::new(), skipped: Vec::new() };
    let ch = chapter("Bad", "x", vec![1], Some("bad.md"), vec![]);
    add_chapter(&mut out, PathStyle::Slash, &Config::default(), &AssetTable::new(), "{{#if}", &ch, true);
    assert!(out.entries.is_empty());
    assert_eq!(out.skipped.len(), 1);
}

#[test]
fn metadata_in_order() {
    let pair = |k: &str, v: &str| (k.to_string(), v.to_string());
    let bare = BookMeta { title: None, description: None, authors: vec![], language: None };
    assert_eq!(
        populate_metadata(&bare),
        vec![pair("generator", "mdbook-epub"), pair("generator", "mdbook-epub"), pair("lang", "en")]
    );
    let full = BookMeta {
        title: Some("T".to_string()),
        description: Some("D".to_string()),
        authors: vec!["A".to_string(), "B".to_string(), "C".to_string()],
        language: Some("fr".to_string()),
    };
    assert_eq!(
        populate_metadata(&full),
        vec![
            pair("generator", "mdbook-epub"),
            pair("title", "T"),
            pair("description", "D"),
            pair("author", "A, B, C"),
            pair("generator", "mdbook-epub"),
            pair("lang", "fr"),
        ]
    );
    let one = BookMeta { title: None, description: None, authors: vec!["Solo".to_string()], language: None };
    assert_eq!(populate_metadata(&one)[1], pair("author", "Solo"));
}

#[test]
fn files_of_the_configuration_are_looked_for_in_order() {
    let s = PathStyle::Slash;
    assert_eq!(
        additional_resource_candidates(s, "fonts/a.ttf", "/book", "src"),
        vec!["fonts/a.ttf".to_string(), "/book/src/fonts/a.ttf".to_string(), "/book/fonts/a.ttf".to_string()]
    );
    assert_eq!(
        cover_image_candidates(s, "cover.png", "/book", "src"),
        vec!["cover.png".to_string(), "/book/src/cover.png".to_string()]
    );
    assert_eq!(
        stylesheet_candidates(s, "extra.css", "/book"),
        vec!["extra.css".to_string(), "/book/extra.css".to_string()]
    );
}

#[test]
fn tokens_render_as_the_events_they_stand_for() {
    let text = "# Title\n\nSome *text* with `code`, a [link](http://x/y \"t\") and ![img](a.png \"pic\").\n\n\
        > quote\n\n- [x] done\n- [ ] open\n\n| a | b |\n|---|:-:|\n| 1 | 2 |\n\n```rust\nfn main() {}\n```\n\n\
        <div class=\"x\">raw</div>\n\ninline <b>html</b> and ~~strike~~ and a note[^n].\n\n[^n]: The note.\n\n---\n";
    let mut options = pulldown_cmark::Options::empty();
    options.insert(pulldown_cmark::Options::ENABLE_TABLES);
    options.insert(pulldown_cmark::Options::ENABLE_FOOTNOTES);
    options.insert(pulldown_cmark::Options::ENABLE_STRIKETHROUGH);
    options.insert(pulldown_cmark::Options::ENABLE_TASKLISTS);
    let mut direct = String::new();
    pulldown_cmark::html::push_html(&mut direct, pulldown_cmark::Parser::new_ext(text, options));
    let tokens = tokenize(text);
    assert_eq!(push_html(&tokens), direct);
    assert!(tokens.iter().any(|t| matches!(t, Token::Text(s) if s == "Some ")));
    assert!(tokens.iter().any(|t| matches!(t, Token::StartImage { dest_url, .. } if dest_url == "a.png")));
    assert!(tokens.iter().any(|t| matches!(t, Token::FootnoteReference(n) if n == "n")));
    assert!(tokens.iter().any(|t| matches!(t, Token::StartFootnoteDefinition(n) if n == "n")));
    assert!(tokens.iter().any(|t| matches!(t, Token::StartCodeBlock(_))));
    assert!(tokens.iter().any(|t| matches!(t, Token::Other(_))));
}

#[test]
fn template_that_includes_a_partial_is_refused() {
    for template in [
        "{{> index}}",
        "{{#if title}}{{> index}}{{/if}}",
        "{{~> index}}",
        "{{#> layout}}x{{/layout}}",
        "{{ ~ # > layout}}x{{/layout}}",
        "{{\n\t>index}}",
        "{{#*inline \"me\"}}{{> me}}{{/inline}}{{> me}}",
        "{{{> x}}",
        "a{{>b",
    ] {
        assert!(has_partial(template), "{:?}", template);
        assert!(matches!(check_template(template), Err(EpubError::TemplateParse)));
        assert!(matches!(
            wrap_in_template(template, "t", "b", "s", false),
            Err(EpubError::TemplateParse)
        ));
    }
    for template in [
        "",
        "{{title}}",
        "{{{body}}}",
        "{{#if title}}>{{/if}}",
        "a > b {{title}} > c",
        "{{!-- > --}}",
        "{ {> x}}",
        "{{title>}}",
        "{{",
        "{{~#",
        TEMPLATE,
    ] {
        assert!(!has_partial(template), "{:?}", template);
    }
    let ch = chapter("One", "text", vec![1], Some("one.md"), vec![]);
    assert!(matches!(
        render_chapter(
            PathStyle::Slash,
            &Config::default(),
            &AssetTable::new(),
            "{{#if title}}{{> index}}{{/if}}",
            &ch
        ),
        Err(EpubError::TemplateParse)
    ));
    let items = vec![BookItem::Chapter(ch)];
    let rendered = generate_chapters(
        PathStyle::Slash,
        &Config::default(),
        &AssetTable::new(),
        "{{> index}}",
        &items,
    );
    assert!(rendered.entries.is_empty());
    assert!(matches!(rendered.skipped[0].error, EpubError::TemplateParse));
}
