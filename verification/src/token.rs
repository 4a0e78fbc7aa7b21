//! The tokens of a chapter: what the markdown tokenizer hands out, in the
//! shape the content filters read and write.

use vstd::prelude::*;
use pulldown_cmark::{CowStr, Event, Options, Parser, Tag, TagEnd};

verus! {

/// One event of `pulldown_cmark`, carried through as it came.
#[verifier::external_type_specification]
#[verifier::external_body]
pub struct ExEvent<'a>(pulldown_cmark::Event<'a>);

/// `Clone` of `pulldown_cmark::Event`, which the crate derives: the copy
/// equals the original.
pub assume_specification<'a>[ <pulldown_cmark::Event<'a> as Clone>::clone ](
    e: &pulldown_cmark::Event<'a>,
) -> (r: pulldown_cmark::Event<'a>)
    ensures
        r == *e,
;

/// One token of a chapter. The filters read the variants with fields of
/// their own; everything else passes through them inside [`Token::Other`].
#[derive(Debug, Clone, PartialEq)]
pub enum Token {
    /// Running text.
    Text(String),
    /// A block of raw HTML.
    Html(String),
    /// Raw HTML inside a line.
    InlineHtml(String),
    /// A reference to the footnote of that name.
    FootnoteReference(String),
    /// The start of the definition of the footnote of that name.
    StartFootnoteDefinition(String),
    /// The end of a footnote definition.
    EndFootnoteDefinition,
    /// The start of a paragraph.
    StartParagraph,
    /// The end of a paragraph.
    EndParagraph,
    /// The start of a code block; the event says of which kind.
    StartCodeBlock(Event<'static>),
    /// The end of a code block.
    EndCodeBlock,
    /// The start of an image that points at `dest_url`; the event holds the
    /// image's other attributes.
    StartImage { dest_url: String, event: Event<'static> },
    /// Any other event.
    Other(Event<'static>),
}

/// A token as a mathematical value: texts are sequences of chars.
pub enum TokenView {
    /// Running text.
    Text(Seq<char>),
    /// A block of raw HTML.
    Html(Seq<char>),
    /// Raw HTML inside a line.
    InlineHtml(Seq<char>),
    /// A reference to the footnote of that name.
    FootnoteReference(Seq<char>),
    /// The start of the definition of the footnote of that name.
    StartFootnoteDefinition(Seq<char>),
    /// The end of a footnote definition.
    EndFootnoteDefinition,
    /// The start of a paragraph.
    StartParagraph,
    /// The end of a paragraph.
    EndParagraph,
    /// The start of a code block.
    StartCodeBlock(Event<'static>),
    /// The end of a code block.
    EndCodeBlock,
    /// The start of an image.
    StartImage { dest_url: Seq<char>, event: Event<'static> },
    /// Any other event.
    Other(Event<'static>),
}

impl View for Token {
    type V = TokenView;

    open spec fn view(&self) -> TokenView {
        match self {
            Token::Text(s) => TokenView::Text(s@),
            Token::Html(s) => TokenView::Html(s@),
            Token::InlineHtml(s) => TokenView::InlineHtml(s@),
            Token::FootnoteReference(s) => TokenView::FootnoteReference(s@),
            Token::StartFootnoteDefinition(s) => TokenView::StartFootnoteDefinition(s@),
            Token::EndFootnoteDefinition => TokenView::EndFootnoteDefinition,
            Token::StartParagraph => TokenView::StartParagraph,
            Token::EndParagraph => TokenView::EndParagraph,
            Token::StartCodeBlock(e) => TokenView::StartCodeBlock(*e),
            Token::EndCodeBlock => TokenView::EndCodeBlock,
            Token::StartImage { dest_url, event } => TokenView::StartImage {
                dest_url: dest_url@,
                event: *event,
            },
            Token::Other(e) => TokenView::Other(*e),
        }
    }
}

/// The views of a list of tokens.
pub open spec fn token_views(ts: Seq<Token>) -> Seq<TokenView> {
    Seq::new(ts.len(), |i: int| ts[i]@)
}

impl Token {
    /// A copy of this token.
    pub fn duplicate(&self) -> (r: Token)
        ensures
            r == *self,
    {
        match self {
            Token::Text(s) => Token::Text(s.clone()),
            Token::Html(s) => Token::Html(s.clone()),
            Token::InlineHtml(s) => Token::InlineHtml(s.clone()),
            Token::FootnoteReference(s) => Token::FootnoteReference(s.clone()),
            Token::StartFootnoteDefinition(s) => Token::StartFootnoteDefinition(s.clone()),
            Token::EndFootnoteDefinition => Token::EndFootnoteDefinition,
            Token::StartParagraph => Token::StartParagraph,
            Token::EndParagraph => Token::EndParagraph,
            Token::StartCodeBlock(e) => Token::StartCodeBlock(e.clone()),
            Token::EndCodeBlock => Token::EndCodeBlock,
            Token::StartImage { dest_url, event } => Token::StartImage {
                dest_url: dest_url.clone(),
                event: event.clone(),
            },
            Token::Other(e) => Token::Other(e.clone()),
        }
    }
}

/// Copies of the tokens, in order.
pub fn duplicate_all(tokens: &Vec<Token>) -> (r: Vec<Token>)
    ensures
        r@ == tokens@,
{
    let mut out: Vec<Token> = Vec::new();
    let mut i: usize = 0;
    while i < tokens.len()
        invariant
            i <= tokens.len(),
            out@ == tokens@.take(i as int),
        decreases tokens.len() - i,
    {
        out.push(tokens[i].duplicate());
        assert(out@ =~= tokens@.take(i + 1));
        i = i + 1;
    }
    assert(tokens@.take(tokens.len() as int) =~= tokens@);
    out
}

/// Whether the token consists of a text and nothing else.
pub open spec fn is_written(t: TokenView) -> bool {
    t is Text || t is Html || t is InlineHtml || t is FootnoteReference
        || t is StartFootnoteDefinition
}

/// The event of `pulldown_cmark` that is made of a token's own fields: the
/// variant that the token names, with the token's text as its text; for an
/// image, the image of the token's event with the token's destination in
/// the place of its own.
pub uninterp spec fn event_for(token: TokenView) -> Event<'static>;

/// The event that a token stands for: the event it carries, where it
/// carries one whole; otherwise the event made of its fields.
pub open spec fn stood_for(t: TokenView) -> Event<'static> {
    match t {
        TokenView::StartCodeBlock(e) => e,
        TokenView::Other(e) => e,
        _ => event_for(t),
    }
}

/// The token for an event of `pulldown_cmark` that consists of a text: the
/// variants are told apart and the text is moved over. Any other event
/// gives `None`. A token that is given consists of a text, and the event
/// made of it is the event it came from: the same variant with the same
/// chars, which is how `pulldown_cmark` compares events.
#[verifier::external_body]
fn written_token(event: &Event<'static>) -> (r: Option<Token>)
    ensures
        match r {
            Some(t) => is_written(t@) && event_for(t@) == *event,
            None => true,
        },
{
    match event.clone() {
        Event::Text(s) => Some(Token::Text(s.into_string())),
        Event::Html(s) => Some(Token::Html(s.into_string())),
        Event::InlineHtml(s) => Some(Token::InlineHtml(s.into_string())),
        Event::FootnoteReference(s) => Some(Token::FootnoteReference(s.into_string())),
        Event::Start(Tag::FootnoteDefinition(s)) => Some(
            Token::StartFootnoteDefinition(s.into_string())),
        _ => None,
    }
}

/// The token for an event of `pulldown_cmark` that opens or closes
/// something: the variants the filters read are told apart, an image's
/// destination is moved over, and any other event is kept whole. The token
/// never consists of a text, and it stands for the event it came from: a
/// token that carries an event carries that event, a token without fields
/// names its variant, and an image holds the destination of its own event.
#[verifier::external_body]
fn framing_token(event: &Event<'static>) -> (r: Token)
    ensures
        !is_written(r@),
        stood_for(r@) == *event,
{
    match event.clone() {
        Event::End(TagEnd::FootnoteDefinition) => Token::EndFootnoteDefinition,
        Event::Start(Tag::Paragraph) => Token::StartParagraph,
        Event::End(TagEnd::Paragraph) => Token::EndParagraph,
        Event::End(TagEnd::CodeBlock) => Token::EndCodeBlock,
        e @ Event::Start(Tag::CodeBlock(_)) => Token::StartCodeBlock(e),
        Event::Start(Tag::Image { dest_url, .. }) => Token::StartImage {
            dest_url: dest_url.into_string(), event: event.clone() },
        other => Token::Other(other),
    }
}

/// The event of `pulldown_cmark` for a token that consists of a text, the
/// reverse of [`written_token`]: the variant that the token names, with the
/// token's text. The result is the named function of the token.
#[verifier::external_body]
fn written_event(token: &Token) -> (r: Event<'static>)
    requires
        token is Text || token is Html || token is InlineHtml || token is FootnoteReference
            || token is StartFootnoteDefinition,
    ensures
        r == event_for(token@),
{
    match token.clone() {
        Token::Text(s) => Event::Text(s.into()),
        Token::Html(s) => Event::Html(s.into()),
        Token::InlineHtml(s) => Event::InlineHtml(s.into()),
        Token::FootnoteReference(s) => Event::FootnoteReference(s.into()),
        Token::StartFootnoteDefinition(s) => Event::Start(Tag::FootnoteDefinition(s.into())),
        _ => Event::SoftBreak,
    }
}

/// The event of `pulldown_cmark` for a token without fields, the reverse of
/// [`framing_token`] on those: the variant that the token names. The result
/// is the named function of the token.
#[verifier::external_body]
fn framing_event(token: &Token) -> (r: Event<'static>)
    requires
        token is EndFootnoteDefinition || token is StartParagraph || token is EndParagraph
            || token is EndCodeBlock,
    ensures
        r == event_for(token@),
{
    match token {
        Token::EndFootnoteDefinition => Event::End(TagEnd::FootnoteDefinition),
        Token::StartParagraph => Event::Start(Tag::Paragraph),
        Token::EndParagraph => Event::End(TagEnd::Paragraph),
        Token::EndCodeBlock => Event::End(TagEnd::CodeBlock),
        _ => Event::SoftBreak,
    }
}

/// The image event with its destination replaced by `dest_url` and every
/// other attribute kept; an event that starts no image is handed back as it
/// is. The result is the named function of the image token with that
/// destination and that event.
#[verifier::external_body]
fn image_event(dest_url: &str, event: &Event<'static>) -> (r: Event<'static>)
    ensures
        r == event_for(TokenView::StartImage { dest_url: dest_url@, event: *event }),
{
    match event.clone() {
        Event::Start(Tag::Image { link_type, title, id, .. }) => Event::Start(
            Tag::Image { link_type, dest_url: CowStr::from(dest_url.to_string()), title, id }),
        other => other,
    }
}

/// The token that stands for an event of `pulldown_cmark`: a token of text
/// for an event that consists of a text, otherwise a token that names the
/// event's variant or carries the event whole. Either way the token stands
/// for the event it was made from.
fn token_of(event: &Event<'static>) -> (r: Token)
    ensures
        stood_for(r@) == *event,
{
    match written_token(event) {
        Some(t) => t,
        None => framing_token(event),
    }
}

/// The event of `pulldown_cmark` that a token stands for: the event it
/// carries, where it carries one whole; otherwise the event made of its
/// fields.
fn event_of(token: &Token) -> (r: Event<'static>)
    ensures
        r == stood_for(token@),
{
    match token {
        Token::StartCodeBlock(e) => e.clone(),
        Token::Other(e) => e.clone(),
        Token::StartImage { dest_url, event } => image_event(dest_url.as_str(), event),
        Token::EndFootnoteDefinition => framing_event(token),
        Token::StartParagraph => framing_event(token),
        Token::EndParagraph => framing_event(token),
        Token::EndCodeBlock => framing_event(token),
        _ => written_event(token),
    }
}

/// The tokens that the tokenizer makes of a markdown text, with tables,
/// footnotes, strikethrough and task lists switched on.
pub uninterp spec fn markdown_tokens(text: Seq<char>) -> Seq<TokenView>;

/// `pulldown_cmark::Parser::new_ext` on the text, with tables, footnotes,
/// strikethrough and task lists switched on, run to its end; every event is
/// made to own its text and is handed out as the token that stands for it.
/// The result is the named function of the text.
#[verifier::external_body]
fn parse_tokens(text: &str) -> (r: Vec<Token>)
    ensures
        token_views(r@) == markdown_tokens(text@),
{
    let mut options = Options::empty();
    options.insert(Options::ENABLE_TABLES);
    options.insert(Options::ENABLE_FOOTNOTES);
    options.insert(Options::ENABLE_STRIKETHROUGH);
    options.insert(Options::ENABLE_TASKLISTS);
    Parser::new_ext(text, options).map(|event| token_of(&event.into_static())).collect()
}

/// The HTML that `pulldown_cmark` renders a sequence of tokens to.
pub uninterp spec fn html_of(tokens: Seq<TokenView>) -> Seq<char>;

/// `pulldown_cmark::html::push_html` on an empty string, fed with the
/// events that the tokens stand for. The result is the named function of
/// the tokens.
#[verifier::external_body]
fn render_tokens(tokens: &Vec<Token>) -> (r: String)
    ensures
        r@ == html_of(token_views(tokens@)),
{
    let mut out = String::new();
    pulldown_cmark::html::push_html(&mut out, tokens.iter().map(|token| event_of(token)));
    out
}

/// The tokens of a chapter's markdown text, in order.
pub fn tokenize(text: &str) -> (r: Vec<Token>)
    ensures
        token_views(r@) == markdown_tokens(text@),
{
    parse_tokens(text)
}

/// The HTML that the tokens render to.
pub fn push_html(tokens: &Vec<Token>) -> (r: String)
    ensures
        r@ == html_of(token_views(tokens@)),
{
    render_tokens(tokens)
}

} // verus!
