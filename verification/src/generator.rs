//! Rendering: a chapter's tokens through the filters and into HTML, and the
//! walk over the book that renders every chapter in turn.

use vstd::prelude::*;
use crate::book::{BookItem, Chapter};
use crate::config::Config;
use crate::errors::EpubError;
use crate::filters::asset_link::{relinked, AssetRemoteLinkFilter};
use crate::filters::footnote::{
    all_emitted, in_reference_order, used_only, FootnoteFilter, Footnotes,
};
use crate::filters::quote_converter::QuoteConverterFilter;
use crate::asset::AssetView;
use crate::paths::{
    climb, component_count, extended, parent, parent_of, parts, push_climb, with_extension,
    PathStyle,
};
use crate::table::AssetTable;
use crate::text::{decimal, framed, push_decimal, push_str, string_of};
use crate::token::{html_of, markdown_tokens, push_html, token_views, tokenize, Token, TokenView};

verus! {

/// What a book says of itself.
#[derive(Debug, Clone, PartialEq, Eq)]
pub struct BookMeta {
    /// The book's title.
    pub title: Option<String>,
    /// A description of the book.
    pub description: Option<String>,
    /// The book's authors.
    pub authors: Vec<String>,
    /// The book's language.
    pub language: Option<String>,
}

/// The names, with `, ` between them.
pub open spec fn joined_names(names: Seq<String>) -> Seq<char>
    decreases names.len(),
{
    if names.len() == 0 {
        Seq::<char>::empty()
    } else if names.len() == 1 {
        names[0]@
    } else {
        joined_names(names.drop_last()) + ", "@ + names.last()@
    }
}

/// The metadata of the document, as keys and values in the order in which
/// they are handed to the container: the generator, the title, the
/// description and the authors as far as the book has them, the generator
/// once more, and the language, which is `en` unless the book names one.
pub open spec fn metadata_of(meta: BookMeta) -> Seq<(Seq<char>, Seq<char>)> {
    seq![("generator"@, "mdbook-epub"@)] + (match meta.title {
        Some(t) => seq![("title"@, t@)],
        None => Seq::<(Seq<char>, Seq<char>)>::empty(),
    }) + (match meta.description {
        Some(d) => seq![("description"@, d@)],
        None => Seq::<(Seq<char>, Seq<char>)>::empty(),
    }) + (if meta.authors@.len() > 0 {
        seq![("author"@, joined_names(meta.authors@))]
    } else {
        Seq::<(Seq<char>, Seq<char>)>::empty()
    }) + seq![("generator"@, "mdbook-epub"@)] + seq![
        (
            "lang"@,
            match meta.language {
                Some(l) => l@,
                None => "en"@,
            },
        ),
    ]
}

/// The views of a list of keys and values.
pub open spec fn pair_views(ps: Seq<(String, String)>) -> Seq<(Seq<char>, Seq<char>)> {
    Seq::new(ps.len(), |i: int| (ps[i].0@, ps[i].1@))
}

/// The names, with `, ` between them.
fn join_names(names: &Vec<String>) -> (r: String)
    ensures
        r@ == joined_names(names@),
{
    let mut out: Vec<char> = Vec::new();
    let mut i: usize = 0;
    assert(names@.take(0) =~= Seq::<String>::empty());
    while i < names.len()
        invariant
            i <= names.len(),
            out@ == joined_names(names@.take(i as int)),
        decreases names.len() - i,
    {
        proof {
            assert(names@.take(i + 1).drop_last() =~= names@.take(i as int));
            assert(names@.take(i + 1).last() == names@[i as int]);
            assert(names@.take(i + 1)[0] == names@[0]);
        }
        if i > 0 {
            push_str(&mut out, ", ");
        }
        push_str(&mut out, names[i].as_str());
        assert(out@ =~= joined_names(names@.take(i + 1)));
        i = i + 1;
    }
    assert(names@.take(names.len() as int) =~= names@);
    string_of(&out)
}

/// The metadata of the document: see [`metadata_of`].
pub fn populate_metadata(meta: &BookMeta) -> (r: Vec<(String, String)>)
    ensures
        pair_views(r@) == metadata_of(*meta),
{
    let mut out: Vec<(String, String)> = Vec::new();
    out.push(("generator".to_owned(), "mdbook-epub".to_owned()));
    match &meta.title {
        Some(t) => {
            out.push(("title".to_owned(), t.clone()));
        },
        None => {},
    }
    match &meta.description {
        Some(d) => {
            out.push(("description".to_owned(), d.clone()));
        },
        None => {},
    }
    if meta.authors.len() > 0 {
        out.push(("author".to_owned(), join_names(&meta.authors)));
    }
    out.push(("generator".to_owned(), "mdbook-epub".to_owned()));
    match &meta.language {
        Some(l) => {
            out.push(("lang".to_owned(), l.clone()));
        },
        None => {
            out.push(("lang".to_owned(), "en".to_owned()));
        },
    }
    assert(pair_views(out@) =~= metadata_of(*meta));
    out
}

/// How far the filters have come with a chapter.
pub struct Chain {
    /// The state of the quote filter.
    pub quotes: QuoteConverterFilter,
    /// The state of the footnote filter.
    pub notes: Footnotes,
    /// The tokens of the chapter's body so far.
    pub body: Seq<TokenView>,
}

/// The filters before the first token of a chapter.
pub open spec fn chain_start(curly_quotes: bool, backrefs: bool) -> Chain {
    Chain {
        quotes: QuoteConverterFilter { enabled: curly_quotes, convert_text: true },
        notes: Footnotes {
            closed: Seq::<Seq<TokenView>>::empty(),
            open: Seq::<Seq<TokenView>>::empty(),
            counts: Seq::<crate::filters::footnote::Counted>::empty(),
            enabled: backrefs,
        },
        body: Seq::<TokenView>::empty(),
    }
}

/// The filters after one more token: the token goes through the quote
/// filter, then through the asset link filter, then through the footnote
/// filter, and what that hands on joins the body.
pub open spec fn chain_step(c: Chain, table: Seq<AssetView>, depth: nat, t: TokenView) -> Chain {
    let linked = relinked(table, depth, c.quotes.converted(t));
    Chain {
        quotes: c.quotes.after(t),
        notes: c.notes.after(linked),
        body: match c.notes.passed(linked) {
            Some(out) => c.body.push(out),
            None => c.body,
        },
    }
}

/// The filters after the first `k` tokens of a chapter.
pub open spec fn chain_after(
    curly_quotes: bool,
    backrefs: bool,
    table: Seq<AssetView>,
    depth: nat,
    ts: Seq<TokenView>,
    k: nat,
) -> Chain
    decreases k,
{
    if k == 0 || k > ts.len() {
        chain_start(curly_quotes, backrefs)
    } else {
        chain_step(
            chain_after(curly_quotes, backrefs, table, depth, ts, (k - 1) as nat),
            table,
            depth,
            ts[k - 1],
        )
    }
}

/// The footnotes that follow a chapter's body: none while no definition is
/// complete; otherwise the definitions that were referred to, in the order
/// of their first references, written out.
pub open spec fn footnotes_of(notes: Footnotes) -> Option<Seq<TokenView>> {
    if notes.closed.len() == 0 {
        None
    } else {
        Some(
            all_emitted(
                notes.counts,
                in_reference_order(notes.counts, used_only(notes.counts, notes.closed)),
            ),
        )
    }
}

/// The tokens of a chapter once filtered.
#[derive(Debug)]
pub struct FilteredChapter {
    /// The tokens of the chapter's body.
    pub body: Vec<Token>,
    /// The tokens of the footnotes that follow the body, if there are any.
    pub footnotes: Option<Vec<Token>>,
}

/// Runs the tokens of a chapter through the filters, in their fixed order,
/// and collects the footnotes at the end.
pub fn filter_tokens(
    curly_quotes: bool,
    backrefs: bool,
    assets: &AssetTable,
    depth: usize,
    tokens: &Vec<Token>,
) -> (r: FilteredChapter)
    ensures
        token_views(r.body@) == chain_after(
            curly_quotes,
            backrefs,
            assets@,
            depth as nat,
            token_views(tokens@),
            tokens@.len(),
        ).body,
        match footnotes_of(
            chain_after(
                curly_quotes,
                backrefs,
                assets@,
                depth as nat,
                token_views(tokens@),
                tokens@.len(),
            ).notes,
        ) {
            Some(f) => r.footnotes matches Some(v) && token_views(v@) == f,
            None => r.footnotes is None,
        },
{
    let ghost ts = token_views(tokens@);
    let mut quote_converter = QuoteConverterFilter::new(curly_quotes);
    let asset_link_filter = AssetRemoteLinkFilter::new(assets, depth);
    let mut footnote_filter = FootnoteFilter::new(backrefs);
    let mut body: Vec<Token> = Vec::new();
    let mut i: usize = 0;
    proof {
        assert(footnote_filter@.closed =~= Seq::<Seq<TokenView>>::empty());
        assert(footnote_filter@.open =~= Seq::<Seq<TokenView>>::empty());
        assert(footnote_filter@.counts =~= Seq::<crate::filters::footnote::Counted>::empty());
        assert(footnote_filter@ == chain_start(curly_quotes, backrefs).notes);
        assert(token_views(body@) =~= chain_start(curly_quotes, backrefs).body);
    }
    while i < tokens.len()
        invariant
            i <= tokens.len(),
            ts == token_views(tokens@),
            asset_link_filter.assets == assets,
            asset_link_filter.depth == depth,
            quote_converter == chain_after(
                curly_quotes,
                backrefs,
                assets@,
                depth as nat,
                ts,
                i as nat,
            ).quotes,
            footnote_filter@ == chain_after(
                curly_quotes,
                backrefs,
                assets@,
                depth as nat,
                ts,
                i as nat,
            ).notes,
            token_views(body@) == chain_after(
                curly_quotes,
                backrefs,
                assets@,
                depth as nat,
                ts,
                i as nat,
            ).body,
        decreases tokens.len() - i,
    {
        let ghost before = token_views(body@);
        assert(ts[i as int] == tokens@[i as int]@);
        let token = tokens[i].duplicate();
        let quoted = quote_converter.apply(token);
        let linked = asset_link_filter.apply(quoted);
        match footnote_filter.apply(linked) {
            Some(out) => {
                body.push(out);
                assert(token_views(body@) =~= before.push(out@));
            },
            None => {},
        }
        i = i + 1;
    }
    let footnotes = if !footnote_filter.is_empty() {
        footnote_filter.retain();
        footnote_filter.sort_by_cached_key();
        Some(footnote_filter.get_events())
    } else {
        None
    };
    FilteredChapter { body, footnotes }
}

/// The HTML of a chapter: the body, followed by the footnotes inside their
/// block where there are any.
pub open spec fn body_with_footnotes(body: Seq<char>, footnotes: Option<Seq<char>>) -> Seq<char> {
    match footnotes {
        Some(f) => body + "<div class=\"footnotes\" epub:type=\"footnotes\">\n"@ + f
            + "</div>\n"@,
        None => body,
    }
}

/// Executable form of [`body_with_footnotes`].
pub fn chapter_body(body: &str, footnotes: Option<&str>) -> (r: String)
    ensures
        r@ == body_with_footnotes(
            body@,
            match footnotes {
                Some(f) => Some(f@),
                None => None,
            },
        ),
{
    let mut out: Vec<char> = Vec::new();
    push_str(&mut out, body);
    match footnotes {
        Some(f) => {
            push_str(&mut out, "<div class=\"footnotes\" epub:type=\"footnotes\">\n");
            push_str(&mut out, f);
            push_str(&mut out, "</div>\n");
            assert(out@ =~= body_with_footnotes(body@, Some(f@)));
        },
        None => {
            assert(out@ =~= body@);
        },
    }
    string_of(&out)
}

/// The path from a chapter `depth` directories deep to the stylesheet at
/// the container's root.
pub open spec fn stylesheet_at(depth: nat) -> Seq<char> {
    climb(depth) + "stylesheet.css"@
}

/// Executable form of [`stylesheet_at`].
pub fn stylesheet_path(depth: usize) -> (r: String)
    ensures
        r@ == stylesheet_at(depth as nat),
{
    let mut out: Vec<char> = Vec::new();
    push_climb(&mut out, depth);
    push_str(&mut out, "stylesheet.css");
    assert(out@ =~= stylesheet_at(depth as nat));
    string_of(&out)
}

/// Whether `handlebars` accepts the text as a template.
pub uninterp spec fn valid_template(template: Seq<char>) -> bool;

/// `handlebars::Handlebars::register_template_string` on a fresh registry:
/// whether the text compiles as a template. The result is the named
/// function of the text.
#[verifier::external_body]
fn template_compiles(template: &str) -> (r: bool)
    ensures
        r == valid_template(template@),
{
    handlebars::Handlebars::new().register_template_string("index", template).is_ok()
}

/// Whether a char may stand between the opening braces of a tag and the
/// `>` that makes the tag include a partial: white space, the `~` that
/// trims white space, and the `#` that opens a block.
pub open spec fn before_partial_mark(c: char) -> bool {
    c == ' ' || c == '\t' || c == '\n' || c == '\r' || c == '~' || c == '#'
}

/// Whether the text from `j` on goes on to a `>` over such chars only.
pub open spec fn reaches_partial_mark(t: Seq<char>, j: int) -> bool
    decreases t.len() - j,
{
    if j < 0 || j >= t.len() {
        false
    } else if t[j] == '>' {
        true
    } else if before_partial_mark(t[j]) {
        reaches_partial_mark(t, j + 1)
    } else {
        false
    }
}

/// Whether a tag that includes a partial opens at `i`: two opening braces,
/// then a `>` after nothing but white space, `~` and `#`.
pub open spec fn partial_at(t: Seq<char>, i: int) -> bool {
    0 <= i && i + 1 < t.len() && t[i] == '{' && t[i + 1] == '{' && reaches_partial_mark(t, i + 2)
}

/// Whether the template includes a partial anywhere, or holds text that
/// reads like such a tag. A template may include itself through a partial
/// without end, so such templates are not rendered.
pub open spec fn includes_partial(t: Seq<char>) -> bool {
    exists|i: int| partial_at(t, i)
}

/// Executable form of [`reaches_partial_mark`].
fn goes_on_to_partial_mark(t: &Vec<char>, from: usize) -> (r: bool)
    ensures
        r == reaches_partial_mark(t@, from as int),
{
    let mut j: usize = from;
    while j < t.len()
        invariant
            reaches_partial_mark(t@, j as int) == reaches_partial_mark(t@, from as int),
        decreases t.len() - j,
    {
        if t[j] == '>' {
            return true;
        }
        let c = t[j];
        if !(c == ' ' || c == '\t' || c == '\n' || c == '\r' || c == '~' || c == '#') {
            return false;
        }
        j = j + 1;
    }
    false
}

/// Executable form of [`includes_partial`].
pub fn has_partial(template: &str) -> (r: bool)
    ensures
        r == includes_partial(template@),
{
    let t = crate::text::chars_of(template);
    let mut i: usize = 0;
    while i < t.len()
        invariant
            t@ == template@,
            forall|k: int| 0 <= k < i ==> !partial_at(t@, k),
        decreases t.len() - i,
    {
        if t[i] == '{' && i + 1 < t.len() && t[i + 1] == '{' {
            if goes_on_to_partial_mark(&t, i + 2) {
                assert(partial_at(t@, i as int));
                return true;
            }
        }
        i = i + 1;
    }
    assert forall|k: int| !partial_at(t@, k) by {
        if partial_at(t@, k) {
            assert(k < t.len());
        }
    }
    false
}

/// Refuses a chapter template that is not a valid template, and one that
/// includes a partial.
pub fn check_template(template: &str) -> (r: Result<(), EpubError>)
    ensures
        valid_template(template@) && !includes_partial(template@) ==> r is Ok,
        !valid_template(template@) || includes_partial(template@) ==> r matches Err(
            EpubError::TemplateParse,
        ),
{
    if has_partial(template) {
        Err(EpubError::TemplateParse)
    } else if template_compiles(template) {
        Ok(())
    } else {
        Err(EpubError::TemplateParse)
    }
}

/// What `handlebars` renders the template to for a chapter with the given
/// title, body and stylesheet path, or nothing where it fails.
pub uninterp spec fn template_output(
    template: Seq<char>,
    title: Seq<char>,
    body: Seq<char>,
    stylesheet: Seq<char>,
    epub_version_3: bool,
) -> Option<Seq<char>>;

/// `handlebars::Handlebars::render` of the template, registered on a fresh
/// registry, with the variables `title`, `body`, `stylesheet` and
/// `epub_version_3`. The result is the named function of the arguments. A
/// template that includes a partial is left out: `handlebars` lets a
/// template include itself from inside a block, to no end.
#[verifier::external_body]
fn render_index(template: &str, title: &str, body: &str, stylesheet: &str, epub_version_3: bool) -> (r:
    Result<String, handlebars::RenderError>)
    requires
        !includes_partial(template@),
    ensures
        r is Ok == template_output(template@, title@, body@, stylesheet@, epub_version_3) is Some,
        r is Ok ==> r->Ok_0@ == template_output(
            template@,
            title@,
            body@,
            stylesheet@,
            epub_version_3,
        )->0,
{
    let mut hbs = handlebars::Handlebars::new();
    hbs.register_template_string("index", template)?;
    let mut ctx = serde_json::Map::new();
    ctx.insert("epub_version_3".to_string(), serde_json::Value::Bool(epub_version_3));
    ctx.insert("title".to_string(), serde_json::Value::String(title.to_string()));
    ctx.insert("body".to_string(), serde_json::Value::String(body.to_string()));
    ctx.insert("stylesheet".to_string(), serde_json::Value::String(stylesheet.to_string()));
    hbs.render("index", &ctx)
}

/// A chapter's HTML wrapped in the template. A template that includes a
/// partial is refused with [`EpubError::TemplateParse`]; any other template
/// is rendered, and where that fails the error is [`EpubError::Render`].
pub fn wrap_in_template(
    template: &str,
    title: &str,
    body: &str,
    stylesheet: &str,
    epub_version_3: bool,
) -> (r: Result<String, EpubError>)
    ensures
        includes_partial(template@) ==> r matches Err(EpubError::TemplateParse),
        !includes_partial(template@) ==> match template_output(
            template@,
            title@,
            body@,
            stylesheet@,
            epub_version_3,
        ) {
            Some(html) => r matches Ok(s) && s@ == html,
            None => r matches Err(EpubError::Render(_)),
        },
{
    if has_partial(template) {
        return Err(EpubError::TemplateParse);
    }
    match render_index(template, title, body, stylesheet, epub_version_3) {
        Ok(s) => Ok(s),
        Err(e) => Err(EpubError::Render(e)),
    }
}

/// The message for a draft chapter.
pub open spec fn draft_message(name: Seq<char>) -> Seq<char> {
    "Draft chapter: '"@ + name + "' could not be rendered."@
}

/// The message for a chapter whose path lies in no directory.
pub open spec fn no_directory_message(path: Seq<char>) -> Seq<char> {
    "No directory found for the chapter's path = '"@ + path + "'"@
}

/// Why a chapter could not be rendered.
pub enum RenderFailure {
    /// The chapter has no content to render: it is a draft, or its path lies
    /// in no directory; holds the message.
    NoContent(Seq<char>),
    /// The template includes a partial and was not rendered.
    Refused,
    /// The template could not be rendered.
    Template,
}

/// The failure that an error of rendering stands for.
pub open spec fn render_failure_of(e: EpubError) -> Option<RenderFailure> {
    match e {
        EpubError::ContentFileNotFound(m) => Some(RenderFailure::NoContent(m@)),
        EpubError::TemplateParse => Some(RenderFailure::Refused),
        EpubError::Render(_) => Some(RenderFailure::Template),
        _ => None,
    }
}

/// How many directories a chapter at `path` lies below the container's
/// root: the number of components of the directory that holds it.
pub open spec fn depth_of(style: PathStyle, path: Seq<char>) -> nat {
    match parent_of(style, path) {
        Some(dir) => parts(style, dir).len(),
        None => 0,
    }
}

/// The HTML of a chapter's body: its tokens filtered for the chapter's
/// depth and rendered, followed by the footnotes where there are any.
pub open spec fn chapter_html(
    style: PathStyle,
    config: Config,
    table: Seq<AssetView>,
    content: Seq<char>,
    path: Seq<char>,
) -> Seq<char> {
    let chain = chain_after(
        config.curly_quotes,
        config.wants_footnote_backrefs(),
        table,
        depth_of(style, path),
        markdown_tokens(content),
        markdown_tokens(content).len(),
    );
    body_with_footnotes(
        html_of(chain.body),
        match footnotes_of(chain.notes) {
            Some(f) => Some(html_of(f)),
            None => None,
        },
    )
}

/// What rendering a chapter comes to.
///
/// A draft, and a chapter whose path lies in no directory, cannot be
/// rendered. Any other chapter is its body wrapped in the template, with
/// the chapter's name as title and the stylesheet as seen from the
/// chapter's depth; a template that includes a partial is refused, and
/// otherwise the chapter fails only where the template does.
pub open spec fn rendered_chapter(
    style: PathStyle,
    config: Config,
    table: Seq<AssetView>,
    template: Seq<char>,
    ch: Chapter,
) -> Result<Seq<char>, RenderFailure> {
    match ch.path {
        None => Err(RenderFailure::NoContent(draft_message(ch.name@))),
        Some(p) => match parent_of(style, p@) {
            None => Err(RenderFailure::NoContent(no_directory_message(p@))),
            Some(_) => if includes_partial(template) {
                Err(RenderFailure::Refused)
            } else {
                match template_output(
                    template,
                    ch.name@,
                    chapter_html(style, config, table, ch.content@, p@),
                    stylesheet_at(depth_of(style, p@)),
                    config.epub_version == Some(3u8),
                ) {
                    Some(html) => Ok(html),
                    None => Err(RenderFailure::Template),
                }
            },
        },
    }
}

/// Render the chapter into its fully formed HTML representation: see
/// [`rendered_chapter`]. A draft and a chapter without a directory give
/// [`EpubError::ContentFileNotFound`], a template that includes a partial
/// gives [`EpubError::TemplateParse`], a failing template gives
/// [`EpubError::Render`].
pub fn render_chapter(
    style: PathStyle,
    config: &Config,
    assets: &AssetTable,
    template: &str,
    ch: &Chapter,
) -> (r: Result<String, EpubError>)
    ensures
        match rendered_chapter(style, *config, assets@, template@, *ch) {
            Ok(html) => r matches Ok(s) && s@ == html,
            Err(f) => r matches Err(e) && render_failure_of(e) == Some(f),
        },
{
    let path = match &ch.path {
        Some(p) => p,
        None => {
            return Err(
                EpubError::ContentFileNotFound(
                    framed("Draft chapter: '", ch.name.as_str(), "' could not be rendered."),
                ),
            );
        },
    };
    let chapter_dir = match parent(style, path.as_str()) {
        Some(d) => d,
        None => {
            return Err(
                EpubError::ContentFileNotFound(
                    framed("No directory found for the chapter's path = '", path.as_str(), "'"),
                ),
            );
        },
    };
    let ch_depth = component_count(style, chapter_dir.as_str());
    let tokens = tokenize(ch.content.as_str());
    let filtered = filter_tokens(
        config.curly_quotes,
        config.footnote_backrefs_enabled(),
        assets,
        ch_depth,
        &tokens,
    );
    let body_html = push_html(&filtered.body);
    let body = match &filtered.footnotes {
        Some(f) => {
            let notes_html = push_html(f);
            chapter_body(body_html.as_str(), Some(notes_html.as_str()))
        },
        None => chapter_body(body_html.as_str(), None),
    };
    let stylesheet = stylesheet_path(ch_depth);
    let epub_version_3 = match config.epub_version {
        Some(v) => v == 3,
        None => false,
    };
    wrap_in_template(
        template,
        ch.name.as_str(),
        body.as_str(),
        stylesheet.as_str(),
        epub_version_3,
    )
}

/// How a section number is written: every number followed by `.`, or `0`
/// for a number without parts.
pub open spec fn section_text(number: Seq<u32>) -> Seq<char>
    decreases number.len(),
{
    if number.len() == 0 {
        "0"@
    } else if number.len() == 1 {
        decimal(number[0] as nat) + "."@
    } else {
        section_text(number.drop_last()) + decimal(number.last() as nat) + "."@
    }
}

/// The title under which a chapter is listed: its name, after its section
/// number and a space where it has a number and section labels are wanted.
pub open spec fn entry_title(no_section_label: bool, number: Option<Vec<u32>>, name: Seq<char>) -> Seq<
    char,
> {
    match number {
        Some(n) => if no_section_label {
            name
        } else {
            section_text(n@) + " "@ + name
        },
        None => name,
    }
}

/// The level at which a chapter is listed: one less than the parts of its
/// section number, 0 for a chapter without a number. The count of parts is
/// taken no higher than the largest level.
pub open spec fn entry_level(number: Option<Vec<u32>>) -> int {
    match number {
        Some(n) => if n@.len() > i32::MAX {
            i32::MAX - 1
        } else {
            n@.len() - 1
        },
        None => 0,
    }
}

/// A chapter as it is handed to the container.
#[derive(Debug, Clone, PartialEq, Eq)]
pub struct ContentEntry {
    /// The chapter's path in the container.
    pub path: String,
    /// The title under which the chapter is listed.
    pub title: String,
    /// The chapter's HTML.
    pub content: String,
    /// The level at which the chapter is listed.
    pub level: i32,
    /// Whether this is the first chapter of the book: the start of the
    /// text.
    pub first: bool,
}

/// A chapter that was left out.
#[derive(Debug)]
pub struct SkippedChapter {
    /// The chapter's name.
    pub name: String,
    /// Why it was left out.
    pub error: EpubError,
}

/// The chapters of a book, rendered.
#[derive(Debug)]
pub struct Rendered {
    /// The chapters to hand to the container, in order.
    pub entries: Vec<ContentEntry>,
    /// The chapters that were left out, in order.
    pub skipped: Vec<SkippedChapter>,
}

/// A chapter as it is handed to the container, as a mathematical value.
pub struct EntryView {
    /// The chapter's path in the container.
    pub path: Seq<char>,
    /// The title under which the chapter is listed.
    pub title: Seq<char>,
    /// The chapter's HTML.
    pub content: Seq<char>,
    /// The level at which the chapter is listed.
    pub level: int,
    /// Whether this is the first chapter of the book.
    pub first: bool,
}

impl View for ContentEntry {
    type V = EntryView;

    open spec fn view(&self) -> EntryView {
        EntryView {
            path: self.path@,
            title: self.title@,
            content: self.content@,
            level: self.level as int,
            first: self.first,
        }
    }
}

/// The views of a list of entries.
pub open spec fn entry_views(es: Seq<ContentEntry>) -> Seq<EntryView> {
    Seq::new(es.len(), |i: int| es[i]@)
}

/// A chapter that was left out, as a mathematical value: its name and why
/// it could not be rendered.
pub struct SkippedView {
    /// The chapter's name.
    pub name: Seq<char>,
    /// The failure that the recorded error stands for.
    pub failure: Option<RenderFailure>,
}

/// The chapters that were left out, each with the failure recorded for it.
pub open spec fn skipped_views(ss: Seq<SkippedChapter>) -> Seq<SkippedView> {
    Seq::new(
        ss.len(),
        |i: int| SkippedView { name: ss[i].name@, failure: render_failure_of(ss[i].error) },
    )
}

/// What rendering a part of a book comes to.
pub struct Outcome {
    /// The chapters to hand to the container, in order.
    pub entries: Seq<EntryView>,
    /// The chapters that were left out, in order, each with the failure
    /// that rendering it came to.
    pub skipped: Seq<SkippedView>,
}

/// How a rendered chapter is listed: under its path with the extension
/// `html`, with its title and level.
pub open spec fn entry_of(
    style: PathStyle,
    no_section_label: bool,
    ch: Chapter,
    html: Seq<char>,
    first: bool,
) -> EntryView {
    EntryView {
        path: match ch.path {
            Some(p) => extended(style, p@, "html"@),
            None => Seq::<char>::empty(),
        },
        title: entry_title(no_section_label, ch.number, ch.name@),
        content: html,
        level: entry_level(ch.number),
        first,
    }
}

/// What rendering a chapter and the chapters nested in it comes to.
///
/// A chapter that cannot be rendered is left out together with the
/// chapters nested in it. A chapter that is rendered is listed before the
/// chapters nested in it, none of which is the first chapter of the book.
pub open spec fn chapter_outcome(
    style: PathStyle,
    config: Config,
    table: Seq<AssetView>,
    template: Seq<char>,
    ch: Chapter,
    first: bool,
) -> Outcome
    decreases ch,
{
    match rendered_chapter(style, config, table, template, ch) {
        Err(f) => Outcome {
            entries: Seq::<EntryView>::empty(),
            skipped: seq![SkippedView { name: ch.name@, failure: Some(f) }],
        },
        Ok(html) => Outcome {
            entries: seq![entry_of(style, config.no_section_label, ch, html, first)]
                + nested_outcome(style, config, table, template, ch.sub_items@).entries,
            skipped: nested_outcome(style, config, table, template, ch.sub_items@).skipped,
        },
    }
}

/// What rendering the chapters among nested items comes to, in order.
pub open spec fn nested_outcome(
    style: PathStyle,
    config: Config,
    table: Seq<AssetView>,
    template: Seq<char>,
    items: Seq<BookItem>,
) -> Outcome
    decreases items,
{
    if items.len() == 0 {
        Outcome { entries: Seq::<EntryView>::empty(), skipped: Seq::<SkippedView>::empty() }
    } else {
        let init = nested_outcome(style, config, table, template, items.drop_last());
        match items.last() {
            BookItem::Chapter(ch) => Outcome {
                entries: init.entries + chapter_outcome(
                    style,
                    config,
                    table,
                    template,
                    ch,
                    false,
                ).entries,
                skipped: init.skipped + chapter_outcome(
                    style,
                    config,
                    table,
                    template,
                    ch,
                    false,
                ).skipped,
            },
            _ => init,
        }
    }
}

/// Whether a chapter is among the items.
pub open spec fn has_chapter(items: Seq<BookItem>) -> bool {
    exists|i: int| 0 <= i < items.len() && #[trigger] items[i] is Chapter
}

/// What rendering a book comes to: its chapters in the order of the walk,
/// the first chapter at the top level marked as the first of the book.
pub open spec fn book_outcome(
    style: PathStyle,
    config: Config,
    table: Seq<AssetView>,
    template: Seq<char>,
    items: Seq<BookItem>,
) -> Outcome
    decreases items.len(),
{
    if items.len() == 0 {
        Outcome { entries: Seq::<EntryView>::empty(), skipped: Seq::<SkippedView>::empty() }
    } else {
        let init = book_outcome(style, config, table, template, items.drop_last());
        match items.last() {
            BookItem::Chapter(ch) => Outcome {
                entries: init.entries + chapter_outcome(
                    style,
                    config,
                    table,
                    template,
                    ch,
                    !has_chapter(items.drop_last()),
                ).entries,
                skipped: init.skipped + chapter_outcome(
                    style,
                    config,
                    table,
                    template,
                    ch,
                    !has_chapter(items.drop_last()),
                ).skipped,
            },
            _ => init,
        }
    }
}

/// The title under which a chapter is listed.
pub fn chapter_title(no_section_label: bool, ch: &Chapter) -> (r: String)
    ensures
        r@ == entry_title(no_section_label, ch.number, ch.name@),
{
    match &ch.number {
        Some(n) => {
            if no_section_label {
                ch.name.clone()
            } else {
                let mut out: Vec<char> = Vec::new();
                if n.len() == 0 {
                    push_str(&mut out, "0");
                } else {
                    let mut i: usize = 0;
                    while i < n.len()
                        invariant
                            i <= n.len(),
                            n.len() > 0,
                            i == 0 ==> out@.len() == 0,
                            i > 0 ==> out@ == section_text(n@.take(i as int)),
                        decreases n.len() - i,
                    {
                        proof {
                            assert(n@.take(i + 1).drop_last() =~= n@.take(i as int));
                            assert(n@.take(i + 1).last() == n@[i as int]);
                            assert(n@.take(i + 1)[0] == n@[0]);
                        }
                        let ghost before = out@;
                        push_decimal(&mut out, n[i] as u64);
                        push_str(&mut out, ".");
                        assert(out@ =~= before + decimal(n@[i as int] as nat) + "."@);
                        i = i + 1;
                    }
                    assert(n@.take(n.len() as int) =~= n@);
                }
                push_str(&mut out, " ");
                push_str(&mut out, ch.name.as_str());
                assert(out@ =~= entry_title(no_section_label, ch.number, ch.name@));
                string_of(&out)
            }
        },
        None => ch.name.clone(),
    }
}

/// The level at which a chapter is listed.
pub fn chapter_level(ch: &Chapter) -> (r: i32)
    ensures
        r == entry_level(ch.number),
{
    match &ch.number {
        Some(n) => {
            if n.len() > 0x7fff_ffff {
                0x7fff_fffe
            } else {
                (n.len() as i32) - 1
            }
        },
        None => 0,
    }
}

/// Renders a chapter and the chapters nested in it, and adds them to what
/// was rendered before: see [`chapter_outcome`]. A chapter that cannot be
/// rendered is recorded as skipped, with the error that rendering it gave;
/// this is no failure of the book.
pub fn add_chapter(
    out: &mut Rendered,
    style: PathStyle,
    config: &Config,
    assets: &AssetTable,
    template: &str,
    ch: &Chapter,
    is_first: bool,
)
    ensures
        entry_views(final(out).entries@) == entry_views(old(out).entries@) + chapter_outcome(
            style,
            *config,
            assets@,
            template@,
            *ch,
            is_first,
        ).entries,
        skipped_views(final(out).skipped@) == skipped_views(old(out).skipped@) + chapter_outcome(
            style,
            *config,
            assets@,
            template@,
            *ch,
            is_first,
        ).skipped,
    decreases ch,
{
    let ghost entries0 = entry_views(out.entries@);
    let ghost skipped0 = skipped_views(out.skipped@);
    let rendered = match render_chapter(style, config, assets, template, ch) {
        Ok(html) => html,
        Err(error) => {
            out.skipped.push(SkippedChapter { name: ch.name.clone(), error });
            assert(skipped_views(out.skipped@) =~= skipped0 + seq![
                SkippedView { name: ch.name@, failure: render_failure_of(error) },
            ]);
            assert(entry_views(out.entries@) =~= entries0 + Seq::<EntryView>::empty());
            return ;
        },
    };
    let content_path = match &ch.path {
        Some(p) => p,
        None => {
            return ;
        },
    };
    let entry = ContentEntry {
        path: with_extension(style, content_path.as_str(), "html"),
        title: chapter_title(config.no_section_label, ch),
        content: rendered,
        level: chapter_level(ch),
        first: is_first,
    };
    let ghost listed = entry_of(style, config.no_section_label, *ch, rendered@, is_first);
    assert(entry@ == listed);
    out.entries.push(entry);
    assert(entry_views(out.entries@) =~= entries0 + seq![listed]);
    let ghost items = ch.sub_items@;
    let mut i: usize = 0;
    proof {
        assert(items.take(0) =~= Seq::<BookItem>::empty());
        assert(entry_views(out.entries@) =~= entries0 + seq![listed] + nested_outcome(
            style,
            *config,
            assets@,
            template@,
            items.take(0),
        ).entries);
        assert(skipped_views(out.skipped@) =~= skipped0 + nested_outcome(
            style,
            *config,
            assets@,
            template@,
            items.take(0),
        ).skipped);
    }
    while i < ch.sub_items.len()
        invariant
            i <= ch.sub_items.len(),
            items == ch.sub_items@,
            entry_views(out.entries@) == entries0 + seq![listed] + nested_outcome(
                style,
                *config,
                assets@,
                template@,
                items.take(i as int),
            ).entries,
            skipped_views(out.skipped@) == skipped0 + nested_outcome(
                style,
                *config,
                assets@,
                template@,
                items.take(i as int),
            ).skipped,
        decreases ch.sub_items.len() - i,
    {
        proof {
            assert(items.take(i + 1).drop_last() =~= items.take(i as int));
            assert(items.take(i + 1).last() == items[i as int]);
        }
        let ghost before_entries = entry_views(out.entries@);
        let ghost before_skipped = skipped_views(out.skipped@);
        match &ch.sub_items[i] {
            BookItem::Chapter(sub_ch) => {
                add_chapter(out, style, config, assets, template, sub_ch, false);
                proof {
                    let init = nested_outcome(
                        style,
                        *config,
                        assets@,
                        template@,
                        items.take(i as int),
                    );
                    let sub = chapter_outcome(
                        style,
                        *config,
                        assets@,
                        template@,
                        *sub_ch,
                        false,
                    );
                    assert(entries0 + seq![listed] + init.entries + sub.entries =~= entries0
                        + seq![listed] + (init.entries + sub.entries));
                    assert(skipped0 + init.skipped + sub.skipped =~= skipped0 + (init.skipped
                        + sub.skipped));
                }
            },
            _ => {},
        }
        i = i + 1;
    }
    proof {
        assert(items.take(ch.sub_items.len() as int) =~= items);
        let nested = nested_outcome(style, *config, assets@, template@, items);
        assert(entries0 + seq![listed] + nested.entries =~= entries0 + (seq![listed]
            + nested.entries));
    }
}

/// A chapter is among the first `n + 1` items if one is among the first
/// `n` or the next item is one.
proof fn lemma_has_chapter_step(items: Seq<BookItem>, n: int)
    requires
        0 <= n < items.len(),
    ensures
        has_chapter(items.take(n + 1)) == (has_chapter(items.take(n)) || items[n] is Chapter),
{
    let longer = items.take(n + 1);
    let shorter = items.take(n);
    if has_chapter(longer) {
        let k = choose|k: int| 0 <= k < longer.len() && #[trigger] longer[k] is Chapter;
        if k < n {
            assert(shorter[k] is Chapter);
        }
    }
    if has_chapter(shorter) {
        let k = choose|k: int| 0 <= k < shorter.len() && #[trigger] shorter[k] is Chapter;
        assert(longer[k] is Chapter);
    }
    if items[n] is Chapter {
        assert(longer[n] is Chapter);
    }
}

/// Renders the chapters of a book in the order of the walk: depth first,
/// each chapter before the chapters nested in it: see [`book_outcome`].
/// The first chapter at the top level is marked as the first chapter of
/// the book. A chapter that cannot be rendered is skipped without failing
/// the book.
pub fn generate_chapters(
    style: PathStyle,
    config: &Config,
    assets: &AssetTable,
    template: &str,
    items: &Vec<BookItem>,
) -> (r: Rendered)
    ensures
        entry_views(r.entries@) == book_outcome(
            style,
            *config,
            assets@,
            template@,
            items@,
        ).entries,
        skipped_views(r.skipped@) == book_outcome(
            style,
            *config,
            assets@,
            template@,
            items@,
        ).skipped,
{
    let mut out = Rendered { entries: Vec::new(), skipped: Vec::new() };
    let mut seen_chapter = false;
    let mut i: usize = 0;
    proof {
        assert(items@.take(0) =~= Seq::<BookItem>::empty());
        assert(entry_views(out.entries@) =~= Seq::<EntryView>::empty());
        assert(skipped_views(out.skipped@) =~= Seq::<SkippedView>::empty());
        assert(!has_chapter(items@.take(0)));
    }
    while i < items.len()
        invariant
            i <= items.len(),
            seen_chapter == has_chapter(items@.take(i as int)),
            entry_views(out.entries@) == book_outcome(
                style,
                *config,
                assets@,
                template@,
                items@.take(i as int),
            ).entries,
            skipped_views(out.skipped@) == book_outcome(
                style,
                *config,
                assets@,
                template@,
                items@.take(i as int),
            ).skipped,
        decreases items.len() - i,
    {
        proof {
            assert(items@.take(i + 1).drop_last() =~= items@.take(i as int));
            assert(items@.take(i + 1).last() == items@[i as int]);
        }
        proof {
            lemma_has_chapter_step(items@, i as int);
        }
        match &items[i] {
            BookItem::Chapter(ch) => {
                add_chapter(&mut out, style, config, assets, template, ch, !seen_chapter);
                seen_chapter = true;
            },
            _ => {},
        }
        i = i + 1;
    }
    assert(items@.take(items.len() as int) =~= items@);
    out
}

/// Where a file named in the configuration is looked for, in this order:
/// at the path as given, then under the book's source directory if
/// `in_src` says so, then under the book's root if `in_root` says so.
pub open spec fn candidates_of(
    style: PathStyle,
    path: Seq<char>,
    root: Seq<char>,
    src: Seq<char>,
    in_src: bool,
    in_root: bool,
) -> Seq<Seq<char>> {
    seq![path] + (if in_src {
        seq![crate::paths::joined(style, crate::paths::joined(style, root, src), path)]
    } else {
        Seq::<Seq<char>>::empty()
    }) + (if in_root {
        seq![crate::paths::joined(style, root, path)]
    } else {
        Seq::<Seq<char>>::empty()
    })
}

/// The places to try for a file named in the configuration.
fn candidates(
    style: PathStyle,
    path: &str,
    root: &str,
    src: &str,
    in_src: bool,
    in_root: bool,
) -> (r: Vec<String>)
    ensures
        crate::html::string_views(r@) == candidates_of(
            style,
            path@,
            root@,
            src@,
            in_src,
            in_root,
        ),
{
    let mut out: Vec<String> = Vec::new();
    out.push(path.to_owned());
    if in_src {
        let base = crate::paths::join(style, root, src);
        out.push(crate::paths::join(style, base.as_str(), path));
    }
    if in_root {
        out.push(crate::paths::join(style, root, path));
    }
    assert(crate::html::string_views(out@) =~= candidates_of(
        style,
        path@,
        root@,
        src@,
        in_src,
        in_root,
    ));
    out
}

/// Where an additional resource is looked for: at its path, under the
/// book's source directory, under the book's root.
pub fn additional_resource_candidates(style: PathStyle, path: &str, root: &str, src: &str) -> (r:
    Vec<String>)
    ensures
        crate::html::string_views(r@) == candidates_of(style, path@, root@, src@, true, true),
{
    candidates(style, path, root, src, true, true)
}

/// Where the cover image is looked for: at its path, under the book's
/// source directory.
pub fn cover_image_candidates(style: PathStyle, path: &str, root: &str, src: &str) -> (r: Vec<
    String,
>)
    ensures
        crate::html::string_views(r@) == candidates_of(style, path@, root@, src@, true, false),
{
    candidates(style, path, root, src, true, false)
}

/// Where an additional stylesheet is looked for: at its path, under the
/// book's root.
pub fn stylesheet_candidates(style: PathStyle, path: &str, root: &str) -> (r: Vec<String>)
    ensures
        crate::html::string_views(r@) == candidates_of(style, path@, root@, root@, false, true),
{
    candidates(style, path, root, root, false, true)
}

} // verus!
