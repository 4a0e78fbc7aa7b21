use mdbook_epub::filters::footnote::{FootnoteCount, FootnoteFilter};
use mdbook_epub::token::{tokenize, Token};

fn parse_markdown_with_footnotes(input: &str) -> Vec<Token> {
    let mut footnote_filter = FootnoteFilter::new(true);
    tokenize(input).into_iter().filter_map(|event| footnote_filter.apply(event)).collect()
}

fn html_of(tokens: &[Token]) -> Vec<String> {
    tokens
        .iter()
        .filter_map(|t| match t {
            Token::Html(h) => Some(h.clone()),
            _ => None,
        })
        .collect()
}

#[test]
fn test_simple_footnote() {
    let input = "This is a[^1] footnote.\n\n[^1]: Simple footnote content";
    let events = parse_markdown_with_footnotes(input);

    // Check that the main text contains an HTML link to the footnote
    let footnote_ref = events
        .iter()
        .find(|e| matches!(e, Token::Html(html) if html.contains("class=\"footnote-reference\"")));
    assert!(footnote_ref.is_some());

    if let Some(Token::Html(html)) = footnote_ref {
        assert!(html.contains("href=\"#fn-1\""));
        assert!(html.contains("[1]"));
    }
}

#[test]
fn test_multiple_references_to_same_footnote() {
    let input = "First ref[^a] and second ref[^a].\n\n[^a]: Footnote content";
    let mut filter = FootnoteFilter::new(true);
    let mut events = Vec::new();

    // We collect all events
    for event in tokenize(input) {
        if let Some(e) = filter.apply(event) {
            events.push(e);
        }
    }

    // We check that both references exist and have different ids
    let refs: Vec<_> = events
        .iter()
        .filter(|e| matches!(e, Token::Html(html) if html.contains("footnote-reference")))
        .collect();

    assert_eq!(refs.len(), 2);

    if let (Token::Html(first), Token::Html(second)) = (&refs[0], &refs[1]) {
        assert!(first.contains("id=\"fr-a-1\""));
        assert!(second.contains("id=\"fr-a-2\""));
    }
}

#[test]
fn test_footnote_definition() {
    let mut filter = FootnoteFilter::new(true);

    // Simulating the definition of a footnote
    filter.apply(Token::StartFootnoteDefinition("test".to_string()));
    filter.apply(Token::Text("Footnote content".to_string()));
    filter.apply(Token::EndFootnoteDefinition);

    assert!(!filter.is_empty());

    // Check that the definition is saved
    let footnotes = &filter.footnotes;
    assert_eq!(footnotes.len(), 1);

    let definition = &footnotes[0];
    assert!(matches!(definition.first(), Some(Token::StartFootnoteDefinition(_))));
}

#[test]
fn test_unused_footnote_removal() {
    let mut filter = FootnoteFilter::new(true);

    // Adding a footnote definition without referencing it
    filter.apply(Token::StartFootnoteDefinition("unused".to_string()));
    filter.apply(Token::Text("Unused content".to_string()));
    filter.apply(Token::EndFootnoteDefinition);

    // Check that retain removes unused footnotes
    filter.retain();
    assert!(filter.footnotes.is_empty());
}

#[test]
fn test_footnote_sorting() {
    let input = r#"First[^1] then[^2].

[^2]: Second footnote
[^1]: First footnote"#;
    let mut filter = FootnoteFilter::new(true);

    // Processing input data
    for event in tokenize(input) {
        filter.apply(event);
    }

    // Let's make sure we have footnote
    assert!(!filter.is_empty());

    // Sorting footnotes
    filter.sort_by_cached_key();

    // Get sorted events
    let sorted_footnotes = filter.get_events();

    // We check the order by content
    let first_content_pos = sorted_footnotes
        .iter()
        .position(|e| matches!(e, Token::Text(text) if text.contains("First footnote")))
        .expect("First footnote not found");
    let second_content_pos = sorted_footnotes
        .iter()
        .position(|e| matches!(e, Token::Text(text) if text.contains("Second footnote")))
        .expect("Second footnote not found");

    assert!(
        first_content_pos < second_content_pos,
        "First footnote (pos={}) should appear before second footnote (pos={})",
        first_content_pos,
        second_content_pos
    );
}

#[test]
fn reference_link_has_the_exact_text() {
    let mut filter = FootnoteFilter::new(true);
    let first = filter.apply(Token::FootnoteReference("feet".to_string()));
    assert_eq!(
        first,
        Some(Token::Html(
            "<sup class=\"footnote-reference\" id=\"fr-feet-1\"><a href=\"#fn-feet\">[1]</a></sup>"
                .to_string()
        ))
    );
    let other = filter.apply(Token::FootnoteReference("x".to_string()));
    assert_eq!(
        other,
        Some(Token::Html(
            "<sup class=\"footnote-reference\" id=\"fr-x-1\"><a href=\"#fn-x\">[2]</a></sup>"
                .to_string()
        ))
    );
    let again = filter.apply(Token::FootnoteReference("feet".to_string()));
    assert_eq!(
        again,
        Some(Token::Html(
            "<sup class=\"footnote-reference\" id=\"fr-feet-2\"><a href=\"#fn-feet\">[1]</a></sup>"
                .to_string()
        ))
    );
    assert_eq!(
        filter.footnote_numbers,
        vec![
            FootnoteCount { name: "feet".to_string(), uses: 2 },
            FootnoteCount { name: "x".to_string(), uses: 1 },
        ]
    );
}

#[test]
fn disabled_filter_hands_everything_on() {
    let mut filter = FootnoteFilter::new(false);
    for token in [
        Token::StartFootnoteDefinition("a".to_string()),
        Token::Text("t".to_string()),
        Token::FootnoteReference("a".to_string()),
        Token::EndFootnoteDefinition,
    ] {
        assert_eq!(filter.apply(token.clone()), Some(token));
    }
    assert!(filter.is_empty());
    assert!(filter.footnote_numbers.is_empty());
}

#[test]
fn tokens_inside_a_definition_are_buffered() {
    let mut filter = FootnoteFilter::new(true);
    assert_eq!(filter.apply(Token::StartFootnoteDefinition("a".to_string())), None);
    assert_eq!(filter.apply(Token::StartParagraph), None);
    assert_eq!(filter.apply(Token::Text("see".to_string())), None);
    assert_eq!(filter.apply(Token::FootnoteReference("b".to_string())), None);
    assert_eq!(filter.apply(Token::EndParagraph), None);
    assert!(filter.is_empty());
    assert_eq!(filter.apply(Token::EndFootnoteDefinition), None);
    assert!(!filter.is_empty());
    assert_eq!(filter.in_footnote.len(), 0);
    assert_eq!(
        filter.footnotes[0],
        vec![
            Token::StartFootnoteDefinition("a".to_string()),
            Token::StartParagraph,
            Token::Text("see".to_string()),
            Token::Html(
                "<sup class=\"footnote-reference\" id=\"fr-b-1\"><a href=\"#fn-b\">[1]</a></sup>"
                    .to_string()
            ),
            Token::EndParagraph,
            Token::EndFootnoteDefinition,
        ]
    );
    let text = Token::Text("after".to_string());
    assert_eq!(filter.apply(text.clone()), Some(text));
    // an end without a start changes nothing
    assert_eq!(filter.apply(Token::EndFootnoteDefinition), None);
    assert_eq!(filter.footnotes.len(), 1);
}

#[test]
fn definitions_are_written_with_label_and_back_references() {
    let mut filter = FootnoteFilter::new(true);
    for token in tokenize("five[^feet] and six[^feet].\n\n[^feet]: A foot.\n\n    More.\n") {
        filter.apply(token);
    }
    assert!(filter.retain() == false);
    filter.sort_by_cached_key();
    let out = filter.get_events();
    let html = html_of(&out);
    assert_eq!(
        html,
        vec![
            "<div class=\"footnote-definition\" id=\"fn-feet\" epub:type=\"footnote\">".to_string(),
            "<p><span class=\"footnote-definition-label\">[1]</span> ".to_string(),
            "<p>".to_string(),
            " <a href=\"#fr-feet-1\">↩</a> <a href=\"#fr-feet-2\">↩2</a></p>\n".to_string(),
            "</div>\n".to_string(),
        ]
    );
    assert!(matches!(&out[2], Token::Text(t) if t == "A foot."));
    assert!(matches!(&out[3], Token::EndParagraph));
}

#[test]
fn definition_without_paragraph_gets_back_references_at_its_end() {
    let mut filter = FootnoteFilter::new(true);
    filter.apply(Token::FootnoteReference("n".to_string()));
    filter.apply(Token::StartFootnoteDefinition("n".to_string()));
    filter.apply(Token::Text("bare".to_string()));
    filter.apply(Token::EndFootnoteDefinition);
    let out = filter.get_events();
    assert_eq!(
        out,
        vec![
            Token::Html(
                "<div class=\"footnote-definition\" id=\"fn-n\" epub:type=\"footnote\">".to_string()
            ),
            Token::Text("bare".to_string()),
            Token::Html(" <a href=\"#fr-n-1\">↩</a></div>\n".to_string()),
        ]
    );
}

#[test]
fn footnotes_follow_the_order_of_first_reference() {
    let input = "x[^1] y[^2] z[^1].\n\n[^2]: two\n\n[^3]: three\n\n[^1]: one\n";
    let mut filter = FootnoteFilter::new(true);
    for token in tokenize(input) {
        filter.apply(token);
    }
    assert_eq!(filter.footnotes.len(), 3);
    assert!(filter.retain());
    assert_eq!(filter.footnotes.len(), 2);
    filter.sort_by_cached_key();
    let names: Vec<String> = filter
        .footnotes
        .iter()
        .map(|d| match &d[0] {
            Token::StartFootnoteDefinition(n) => n.clone(),
            other => panic!("{:?}", other),
        })
        .collect();
    assert_eq!(names, vec!["1".to_string(), "2".to_string()]);
    let out = filter.get_events();
    assert!(!out.iter().any(|t| matches!(t, Token::Text(s) if s.contains("three"))));
    assert!(!html_of(&out).iter().any(|h| h.contains("fn-3")));
}

#[test]
fn unreferenced_footnote_leaves_no_block() {
    let mut filter = FootnoteFilter::new(true);
    for token in tokenize("Plain text.\n\n[^lonely]: never used\n") {
        filter.apply(token);
    }
    assert!(!filter.is_empty());
    assert!(filter.retain());
    filter.sort_by_cached_key();
    assert!(filter.get_events().is_empty());
}
