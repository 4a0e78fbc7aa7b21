//! Footnotes collected over a chapter and written out at its end, numbered
//! in the order in which they were first referred to, each with links back
//! to the places that refer to it.

use vstd::prelude::*;
use vstd::seq_lib::{lemma_multiset_commutative, to_multiset_build};
use crate::text::{decimal, push_decimal, push_str, same_text, string_of};
use crate::token::{duplicate_all, token_views, Token, TokenView};

verus! {

/// How often the footnote of a name was referred to, as a mathematical
/// value.
pub struct Counted {
    /// The footnote's name.
    pub name: Seq<char>,
    /// How often it was referred to.
    pub uses: nat,
}

/// How often the footnote of a name was referred to. The footnote's number
/// is the place of its entry in the list, counted from one.
#[derive(Debug, Clone, PartialEq, Eq)]
pub struct FootnoteCount {
    /// The footnote's name.
    pub name: String,
    /// How often it was referred to.
    pub uses: usize,
}

impl View for FootnoteCount {
    type V = Counted;

    open spec fn view(&self) -> Counted {
        Counted { name: self.name@, uses: self.uses as nat }
    }
}

/// The state of a footnote filter as a mathematical value.
pub struct Footnotes {
    /// The definitions that are complete, in the order of the text.
    pub closed: Seq<Seq<TokenView>>,
    /// The definitions that are being read, the innermost last.
    pub open: Seq<Seq<TokenView>>,
    /// The footnotes referred to so far, in the order of their first
    /// reference.
    pub counts: Seq<Counted>,
    /// Whether the filter does anything at all.
    pub enabled: bool,
}

/// The views of a list of token lists.
pub open spec fn block_views(bs: Seq<Vec<Token>>) -> Seq<Seq<TokenView>> {
    Seq::new(bs.len(), |i: int| token_views(bs[i]@))
}

/// The views of a list of counts.
pub open spec fn count_views(cs: Seq<FootnoteCount>) -> Seq<Counted> {
    Seq::new(cs.len(), |i: int| cs[i]@)
}

/// Where the first entry of that name stands, or the length of the list if
/// there is none.
pub open spec fn index_of(counts: Seq<Counted>, name: Seq<char>) -> int
    decreases counts.len(),
{
    if counts.len() == 0 {
        0
    } else if counts[0].name == name {
        0
    } else {
        1 + index_of(counts.drop_first(), name)
    }
}

/// The number of the footnote of that name: its place in the order of first
/// references, counted from one; 0 for a footnote never referred to.
pub open spec fn number_of(counts: Seq<Counted>, name: Seq<char>) -> nat {
    if index_of(counts, name) < counts.len() {
        (index_of(counts, name) + 1) as nat
    } else {
        0
    }
}

/// How often the footnote of that name was referred to.
pub open spec fn uses_of(counts: Seq<Counted>, name: Seq<char>) -> nat {
    if 0 <= index_of(counts, name) < counts.len() {
        counts[index_of(counts, name)].uses
    } else {
        0
    }
}

/// One more use, up to the largest number a counter holds.
pub open spec fn bumped(uses: nat) -> nat {
    if uses < usize::MAX {
        uses + 1
    } else {
        uses
    }
}

/// The counts after one more reference to the footnote of that name: its
/// counter goes up, or a new entry with one use is added at the end.
pub open spec fn referenced(counts: Seq<Counted>, name: Seq<char>) -> Seq<Counted> {
    if 0 <= index_of(counts, name) < counts.len() {
        counts.update(
            index_of(counts, name),
            Counted { name, uses: bumped(counts[index_of(counts, name)].uses) },
        )
    } else {
        counts.push(Counted { name, uses: 1 })
    }
}

/// The superscript link that stands for a reference in the text: `number`
/// is the footnote's number and `use_index` says which of the references
/// to that footnote this is.
pub open spec fn reference_html(name: Seq<char>, number: nat, use_index: nat) -> Seq<char> {
    "<sup class=\"footnote-reference\" id=\"fr-"@ + name + "-"@ + decimal(use_index)
        + "\"><a href=\"#fn-"@ + name + "\">["@ + decimal(number) + "]</a></sup>"@
}

/// The token that a reference to the footnote of that name becomes, given
/// the counts before it.
pub open spec fn reference_token(counts: Seq<Counted>, name: Seq<char>) -> TokenView {
    TokenView::Html(
        reference_html(
            name,
            number_of(referenced(counts, name), name),
            uses_of(referenced(counts, name), name),
        ),
    )
}

/// The open definitions with `t` added to the innermost.
pub open spec fn buffered(open: Seq<Seq<TokenView>>, t: TokenView) -> Seq<Seq<TokenView>> {
    open.drop_last().push(open.last().push(t))
}

impl Footnotes {
    /// The state after `t` went through the filter.
    ///
    /// The start of a definition opens a buffer that holds it; the end of a
    /// definition closes the innermost buffer, which then joins the
    /// complete definitions; a reference is counted; and while a buffer is
    /// open, every other token, and the link a reference becomes, is added
    /// to the innermost.
    pub open spec fn after(self, t: TokenView) -> Footnotes {
        if !self.enabled {
            self
        } else {
            match t {
                TokenView::StartFootnoteDefinition(_) => Footnotes {
                    closed: self.closed,
                    open: self.open.push(seq![t]),
                    counts: self.counts,
                    enabled: self.enabled,
                },
                TokenView::EndFootnoteDefinition => if self.open.len() > 0 {
                    Footnotes {
                        closed: self.closed.push(self.open.last().push(t)),
                        open: self.open.drop_last(),
                        counts: self.counts,
                        enabled: self.enabled,
                    }
                } else {
                    self
                },
                TokenView::FootnoteReference(name) => Footnotes {
                    closed: self.closed,
                    open: if self.open.len() > 0 {
                        buffered(self.open, reference_token(self.counts, name))
                    } else {
                        self.open
                    },
                    counts: referenced(self.counts, name),
                    enabled: self.enabled,
                },
                _ => if self.open.len() > 0 {
                    Footnotes {
                        closed: self.closed,
                        open: buffered(self.open, t),
                        counts: self.counts,
                        enabled: self.enabled,
                    }
                } else {
                    self
                },
            }
        }
    }

    /// What the filter hands on for `t`: everything while it is disabled;
    /// otherwise nothing of a definition and nothing while a definition is
    /// being read, the superscript link for a reference in the text, and
    /// every other token as it is.
    pub open spec fn passed(self, t: TokenView) -> Option<TokenView> {
        if !self.enabled {
            Some(t)
        } else {
            match t {
                TokenView::StartFootnoteDefinition(_) => None,
                TokenView::EndFootnoteDefinition => None,
                TokenView::FootnoteReference(name) => if self.open.len() > 0 {
                    None
                } else {
                    Some(reference_token(self.counts, name))
                },
                _ => if self.open.len() > 0 {
                    None
                } else {
                    Some(t)
                },
            }
        }
    }
}

/// The name of the footnote that a definition defines: that of its first
/// token, if that starts a definition.
pub open spec fn definition_name(def: Seq<TokenView>) -> Option<Seq<char>> {
    if def.len() == 0 {
        None
    } else {
        match def[0] {
            TokenView::StartFootnoteDefinition(n) => Some(n),
            _ => None,
        }
    }
}

/// Whether the definition's footnote was referred to at least once.
pub open spec fn is_used(counts: Seq<Counted>, def: Seq<TokenView>) -> bool {
    match definition_name(def) {
        Some(n) => uses_of(counts, n) != 0,
        None => false,
    }
}

/// The definitions whose footnotes were referred to, in their order.
pub open spec fn used_only(counts: Seq<Counted>, defs: Seq<Seq<TokenView>>) -> Seq<Seq<TokenView>>
    decreases defs.len(),
{
    if defs.len() == 0 {
        Seq::<Seq<TokenView>>::empty()
    } else if is_used(counts, defs.last()) {
        used_only(counts, defs.drop_last()).push(defs.last())
    } else {
        used_only(counts, defs.drop_last())
    }
}

/// The number a definition is ordered by: that of its footnote, 0 where it
/// has none.
pub open spec fn key_of(counts: Seq<Counted>, def: Seq<TokenView>) -> nat {
    match definition_name(def) {
        Some(n) => number_of(counts, n),
        None => 0,
    }
}

/// The definitions ordered by the number `k`, in their order.
pub open spec fn with_key(counts: Seq<Counted>, defs: Seq<Seq<TokenView>>, k: nat) -> Seq<
    Seq<TokenView>,
>
    decreases defs.len(),
{
    if defs.len() == 0 {
        Seq::<Seq<TokenView>>::empty()
    } else if key_of(counts, defs.last()) == k {
        with_key(counts, defs.drop_last(), k).push(defs.last())
    } else {
        with_key(counts, defs.drop_last(), k)
    }
}

/// The definitions ordered by the numbers 0 to `k`: those of each number
/// together, the numbers rising, and within a number the order kept.
pub open spec fn up_to_key(counts: Seq<Counted>, defs: Seq<Seq<TokenView>>, k: nat) -> Seq<
    Seq<TokenView>,
>
    decreases k,
{
    if k == 0 {
        with_key(counts, defs, 0)
    } else {
        up_to_key(counts, defs, (k - 1) as nat) + with_key(counts, defs, k)
    }
}

/// The definitions in the order of the first references to their
/// footnotes; definitions of one footnote keep their order.
pub open spec fn in_reference_order(counts: Seq<Counted>, defs: Seq<Seq<TokenView>>) -> Seq<
    Seq<TokenView>,
> {
    up_to_key(counts, defs, counts.len())
}

/// The opening tag of a definition's block.
pub open spec fn definition_html(name: Seq<char>) -> Seq<char> {
    "<div class=\"footnote-definition\" id=\"fn-"@ + name + "\" epub:type=\"footnote\">"@
}

/// The start of the paragraph that carries the footnote's number.
pub open spec fn label_html(number: nat) -> Seq<char> {
    "<p><span class=\"footnote-definition-label\">["@ + decimal(number) + "]</span> "@
}

/// The link back to one reference: the first is a bare arrow, the later
/// ones carry their number.
pub open spec fn backref_html(name: Seq<char>, usage: nat) -> Seq<char> {
    if usage == 1 {
        " <a href=\"#fr-"@ + name + "-"@ + decimal(usage) + "\">\u{21a9}</a>"@
    } else {
        " <a href=\"#fr-"@ + name + "-"@ + decimal(usage) + "\">\u{21a9}"@ + decimal(usage)
            + "</a>"@
    }
}

/// The links back to the first `count` references, in order.
pub open spec fn backrefs(name: Seq<char>, count: nat) -> Seq<char>
    decreases count,
{
    if count == 0 {
        Seq::<char>::empty()
    } else {
        backrefs(name, (count - 1) as nat) + backref_html(name, count)
    }
}

/// What is known while a definition is written out.
pub struct Emitting {
    /// The name of the footnote being written.
    pub name: Seq<char>,
    /// Whether the links back were written.
    pub written_backrefs: bool,
    /// The numbers that label a paragraph so far.
    pub labelled: Seq<nat>,
    /// What was written so far.
    pub out: Seq<TokenView>,
}

/// The state after the token at place `i` of a definition of `len` tokens
/// was written out.
///
/// The start of the definition becomes the opening tag of its block. The
/// first paragraph starts with the footnote's number. The links back are
/// written once, at an end of a paragraph or of the definition that is the
/// last token or the one before it; a later end of the definition only
/// closes the block. Every other token is written as it is.
pub open spec fn emit_step(
    counts: Seq<Counted>,
    len: nat,
    i: nat,
    t: TokenView,
    s: Emitting,
) -> Emitting {
    match t {
        TokenView::StartParagraph => if s.labelled.contains(number_of(counts, s.name)) {
            Emitting {
                name: s.name,
                written_backrefs: s.written_backrefs,
                labelled: s.labelled,
                out: s.out.push(TokenView::Html("<p>"@)),
            }
        } else {
            Emitting {
                name: s.name,
                written_backrefs: s.written_backrefs,
                labelled: s.labelled.push(number_of(counts, s.name)),
                out: s.out.push(TokenView::Html(label_html(number_of(counts, s.name)))),
            }
        },
        TokenView::StartFootnoteDefinition(name) => Emitting {
            name: name,
            written_backrefs: false,
            labelled: s.labelled,
            out: s.out.push(TokenView::Html(definition_html(name))),
        },
        TokenView::EndFootnoteDefinition => if !s.written_backrefs && i + 2 >= len {
            Emitting {
                name: s.name,
                written_backrefs: true,
                labelled: s.labelled,
                out: s.out.push(
                    TokenView::Html(backrefs(s.name, uses_of(counts, s.name)) + "</div>\n"@),
                ),
            }
        } else {
            Emitting {
                name: s.name,
                written_backrefs: s.written_backrefs,
                labelled: s.labelled,
                out: s.out.push(TokenView::Html("</div>\n"@)),
            }
        },
        TokenView::EndParagraph => if !s.written_backrefs && i + 2 >= len {
            Emitting {
                name: s.name,
                written_backrefs: true,
                labelled: s.labelled,
                out: s.out.push(
                    TokenView::Html(backrefs(s.name, uses_of(counts, s.name)) + "</p>\n"@),
                ),
            }
        } else {
            Emitting {
                name: s.name,
                written_backrefs: s.written_backrefs,
                labelled: s.labelled,
                out: s.out.push(t),
            }
        },
        _ => Emitting {
            name: s.name,
            written_backrefs: s.written_backrefs,
            labelled: s.labelled,
            out: s.out.push(t),
        },
    }
}

/// The state after the first `k` tokens of a definition were written out.
pub open spec fn emit_prefix(counts: Seq<Counted>, def: Seq<TokenView>, k: nat) -> Emitting
    decreases k,
{
    if k == 0 || k > def.len() {
        Emitting {
            name: Seq::<char>::empty(),
            written_backrefs: false,
            labelled: Seq::<nat>::empty(),
            out: Seq::<TokenView>::empty(),
        }
    } else {
        emit_step(
            counts,
            def.len(),
            (k - 1) as nat,
            def[k - 1],
            emit_prefix(counts, def, (k - 1) as nat),
        )
    }
}

/// One definition written out.
pub open spec fn emitted(counts: Seq<Counted>, def: Seq<TokenView>) -> Seq<TokenView> {
    emit_prefix(counts, def, def.len()).out
}

/// The definitions written out, one after the other.
pub open spec fn all_emitted(counts: Seq<Counted>, defs: Seq<Seq<TokenView>>) -> Seq<TokenView>
    decreases defs.len(),
{
    if defs.len() == 0 {
        Seq::<TokenView>::empty()
    } else {
        all_emitted(counts, defs.drop_last()) + emitted(counts, defs.last())
    }
}

/// Reusable footnote filter.
#[derive(Debug)]
pub struct FootnoteFilter {
    /// The definitions that are complete, in the order of the text.
    pub footnotes: Vec<Vec<Token>>,
    /// The definitions that are being read, the innermost last.
    pub in_footnote: Vec<Vec<Token>>,
    /// The footnotes referred to so far, in the order of their first
    /// reference.
    pub footnote_numbers: Vec<FootnoteCount>,
    /// Whether the filter does anything at all.
    pub is_enabled: bool,
}

impl View for FootnoteFilter {
    type V = Footnotes;

    open spec fn view(&self) -> Footnotes {
        Footnotes {
            closed: block_views(self.footnotes@),
            open: block_views(self.in_footnote@),
            counts: count_views(self.footnote_numbers@),
            enabled: self.is_enabled,
        }
    }
}

/// Where the first entry of that name stands, or the length of the list.
fn find_count(counts: &Vec<FootnoteCount>, name: &str) -> (r: usize)
    ensures
        r == index_of(count_views(counts@), name@),
        r <= counts.len(),
        r < counts.len() ==> counts@[r as int].name@ == name@,
{
    let ghost cs = count_views(counts@);
    let mut i: usize = 0;
    assert(cs.skip(0) =~= cs);
    while i < counts.len()
        invariant
            i <= counts.len(),
            cs == count_views(counts@),
            index_of(cs, name@) == i + index_of(cs.skip(i as int), name@),
        decreases counts.len() - i,
    {
        assert(cs.skip(i as int)[0] == counts@[i as int]@);
        assert(cs.skip(i as int).drop_first() =~= cs.skip(i + 1));
        if same_text(counts[i].name.as_str(), name) {
            return i;
        }
        i = i + 1;
    }
    assert(cs.skip(counts.len() as int) =~= Seq::<Counted>::empty());
    i
}

/// The superscript link for a reference, as a token.
fn reference_link(name: &str, number: usize, use_index: usize) -> (r: Token)
    ensures
        r@ == TokenView::Html(reference_html(name@, number as nat, use_index as nat)),
{
    let mut out: Vec<char> = Vec::new();
    push_str(&mut out, "<sup class=\"footnote-reference\" id=\"fr-");
    push_str(&mut out, name);
    push_str(&mut out, "-");
    push_decimal(&mut out, use_index as u64);
    push_str(&mut out, "\"><a href=\"#fn-");
    push_str(&mut out, name);
    push_str(&mut out, "\">[");
    push_decimal(&mut out, number as u64);
    push_str(&mut out, "]</a></sup>");
    assert(out@ =~= reference_html(name@, number as nat, use_index as nat));
    Token::Html(string_of(&out))
}

/// A token of raw HTML with the given text.
fn html_token(text: &Vec<char>) -> (r: Token)
    ensures
        r@ == TokenView::Html(text@),
{
    Token::Html(string_of(text))
}

/// Appends the links back to the first `count` references.
fn push_backrefs(out: &mut Vec<char>, name: &str, count: usize)
    ensures
        final(out)@ == old(out)@ + backrefs(name@, count as nat),
{
    let mut u: usize = 0;
    assert(out@ =~= old(out)@ + backrefs(name@, 0));
    while u < count
        invariant
            u <= count,
            out@ == old(out)@ + backrefs(name@, u as nat),
        decreases count - u,
    {
        u = u + 1;
        let ghost before = out@;
        push_str(out, " <a href=\"#fr-");
        push_str(out, name);
        push_str(out, "-");
        push_decimal(out, u as u64);
        if u == 1 {
            push_str(out, "\">\u{21a9}</a>");
        } else {
            push_str(out, "\">\u{21a9}");
            push_decimal(out, u as u64);
            push_str(out, "</a>");
        }
        assert(out@ =~= before + backref_html(name@, u as nat));
        assert(before + backref_html(name@, u as nat) =~= old(out)@ + backrefs(name@, u as nat));
    }
}

/// Whether `n` is among the numbers.
fn has_number(list: &Vec<usize>, n: usize) -> (r: bool)
    ensures
        r == list@.map_values(|x: usize| x as nat).contains(n as nat),
{
    let ghost ns = list@.map_values(|x: usize| x as nat);
    let mut i: usize = 0;
    while i < list.len()
        invariant
            i <= list.len(),
            ns == list@.map_values(|x: usize| x as nat),
            forall|k: int| 0 <= k < i ==> ns[k] != n as nat,
        decreases list.len() - i,
    {
        if list[i] == n {
            assert(ns[i as int] == n as nat);
            return true;
        }
        i = i + 1;
    }
    false
}

impl FootnoteFilter {
    /// A filter at the start of a chapter: nothing read, nothing counted.
    pub fn new(is_enabled: bool) -> (r: Self)
        ensures
            r@.closed.len() == 0,
            r@.open.len() == 0,
            r@.counts.len() == 0,
            r@.enabled == is_enabled,
    {
        Self {
            footnotes: Vec::new(),
            in_footnote: Vec::new(),
            footnote_numbers: Vec::new(),
            is_enabled,
        }
    }

    /// Filters one token: see [`Footnotes::after`] for what the filter
    /// keeps and [`Footnotes::passed`] for what it hands on.
    pub fn apply(&mut self, event: Token) -> (r: Option<Token>)
        ensures
            final(self)@ == old(self)@.after(event@),
            match r {
                Some(t) => old(self)@.passed(event@) == Some(t@),
                None => old(self)@.passed(event@) is None,
            },
    {
        if !self.is_enabled {
            return Some(event);
        }
        match event {
            Token::StartFootnoteDefinition(name) => {
                let ghost before = block_views(self.in_footnote@);
                let mut block: Vec<Token> = Vec::new();
                block.push(Token::StartFootnoteDefinition(name));
                assert(token_views(block@) =~= seq![event@]);
                self.in_footnote.push(block);
                assert(block_views(self.in_footnote@) =~= before.push(seq![event@]));
                None
            },
            Token::EndFootnoteDefinition => {
                self.move_from_in_to_footnotes(Token::EndFootnoteDefinition);
                None
            },
            Token::FootnoteReference(name) => {
                let ghost before = count_views(self.footnote_numbers@);
                let i = find_count(&self.footnote_numbers, name.as_str());
                let number: usize;
                let uses: usize;
                if i < self.footnote_numbers.len() {
                    let old_uses = self.footnote_numbers[i].uses;
                    uses = if old_uses < usize::MAX {
                        old_uses + 1
                    } else {
                        old_uses
                    };
                    number = i + 1;
                    self.footnote_numbers.set(i, FootnoteCount { name: name.clone(), uses });
                    assert(count_views(self.footnote_numbers@) =~= referenced(before, name@));
                } else {
                    self.footnote_numbers.push(FootnoteCount { name: name.clone(), uses: 1 });
                    uses = 1;
                    number = self.footnote_numbers.len();
                    assert(count_views(self.footnote_numbers@) =~= referenced(before, name@));
                }
                proof {
                    let after = referenced(before, name@);
                    lemma_index_after_reference(before, name@);
                    assert(number_of(after, name@) == number);
                    assert(uses_of(after, name@) == uses);
                }
                let html = reference_link(name.as_str(), number, uses);
                if self.in_footnote.len() == 0 {
                    Some(html)
                } else {
                    self.replace_last_in_footnote(html);
                    None
                }
            },
            other => {
                if self.in_footnote.len() > 0 {
                    self.replace_last_in_footnote(other);
                    None
                } else {
                    Some(other)
                }
            },
        }
    }

    /// Whether no definition is complete.
    pub fn is_empty(&self) -> (r: bool)
        ensures
            r == (self@.closed.len() == 0),
    {
        self.footnotes.len() == 0
    }

    /// Closes the innermost open definition with `event` and adds it to the
    /// complete ones; with no definition open, nothing happens.
    pub fn move_from_in_to_footnotes(&mut self, event: Token)
        ensures
            final(self)@.counts == old(self)@.counts,
            final(self)@.enabled == old(self)@.enabled,
            old(self)@.open.len() > 0 ==> final(self)@.open == old(self)@.open.drop_last()
                && final(self)@.closed == old(self)@.closed.push(
                old(self)@.open.last().push(event@),
            ),
            old(self)@.open.len() == 0 ==> final(self)@ == old(self)@,
    {
        let ghost open = block_views(self.in_footnote@);
        let ghost closed = block_views(self.footnotes@);
        match self.in_footnote.pop() {
            None => {},
            Some(mut vector) => {
                let ghost last = token_views(vector@);
                assert(last == open.last());
                vector.push(event);
                assert(token_views(vector@) =~= last.push(event@));
                self.footnotes.push(vector);
                assert(block_views(self.in_footnote@) =~= open.drop_last());
                assert(block_views(self.footnotes@) =~= closed.push(last.push(event@)));
            },
        }
    }

    /// Adds `event` to the innermost open definition; with no definition
    /// open, nothing happens.
    pub fn replace_last_in_footnote(&mut self, event: Token)
        ensures
            final(self)@.counts == old(self)@.counts,
            final(self)@.enabled == old(self)@.enabled,
            final(self)@.closed == old(self)@.closed,
            old(self)@.open.len() > 0 ==> final(self)@.open == buffered(
                old(self)@.open,
                event@,
            ),
            old(self)@.open.len() == 0 ==> final(self)@.open == old(self)@.open,
    {
        let ghost open = block_views(self.in_footnote@);
        match self.in_footnote.pop() {
            None => {
                assert(block_views(self.in_footnote@) =~= open);
            },
            Some(mut vector) => {
                let ghost last = token_views(vector@);
                assert(last == open.last());
                vector.push(event);
                assert(token_views(vector@) =~= last.push(event@));
                self.in_footnote.push(vector);
                assert(block_views(self.in_footnote@) =~= buffered(open, event@));
            },
        }
    }

    /// The name of the footnote a definition defines, if it starts as a
    /// definition does.
    fn name_of(def: &Vec<Token>) -> (r: Option<&String>)
        ensures
            match r {
                Some(n) => definition_name(token_views(def@)) == Some(n@),
                None => definition_name(token_views(def@)) is None,
            },
    {
        if def.len() == 0 {
            return None;
        }
        assert(token_views(def@)[0] == def@[0]@);
        match &def[0] {
            Token::StartFootnoteDefinition(name) => Some(name),
            _ => None,
        }
    }

    /// The number a definition is ordered by.
    fn key(&self, def: &Vec<Token>) -> (r: usize)
        ensures
            r == key_of(self@.counts, token_views(def@)),
            r <= self.footnote_numbers.len(),
    {
        match Self::name_of(def) {
            Some(name) => {
                let i = find_count(&self.footnote_numbers, name.as_str());
                if i < self.footnote_numbers.len() {
                    i + 1
                } else {
                    0
                }
            },
            None => 0,
        }
    }

    /// Whether a definition's footnote was referred to at least once.
    fn used(&self, def: &Vec<Token>) -> (r: bool)
        ensures
            r == is_used(self@.counts, token_views(def@)),
    {
        match Self::name_of(def) {
            Some(name) => {
                let i = find_count(&self.footnote_numbers, name.as_str());
                if i < self.footnote_numbers.len() {
                    assert(count_views(self.footnote_numbers@)[i as int]
                        == self.footnote_numbers@[i as int]@);
                    self.footnote_numbers[i].uses != 0
                } else {
                    false
                }
            },
            None => false,
        }
    }

    /// Drops every complete definition whose footnote was never referred
    /// to; says whether any was dropped.
    pub fn retain(&mut self) -> (r: bool)
        ensures
            final(self)@.closed == used_only(old(self)@.counts, old(self)@.closed),
            final(self)@.open == old(self)@.open,
            final(self)@.counts == old(self)@.counts,
            final(self)@.enabled == old(self)@.enabled,
            r == (final(self)@.closed.len() != old(self)@.closed.len()),
    {
        let ghost defs = block_views(self.footnotes@);
        let ghost counts = self@.counts;
        let original_len = self.footnotes.len();
        let mut kept: Vec<Vec<Token>> = Vec::new();
        let mut i: usize = 0;
        assert(block_views(kept@) =~= used_only(counts, defs.take(0)));
        while i < self.footnotes.len()
            invariant
                i <= self.footnotes.len(),
                defs == block_views(self.footnotes@),
                counts == self@.counts,
                *self == *old(self),
                block_views(kept@) == used_only(counts, defs.take(i as int)),
            decreases self.footnotes.len() - i,
        {
            proof {
                assert(defs.take(i + 1).drop_last() =~= defs.take(i as int));
                assert(defs.take(i + 1).last() == token_views(self.footnotes@[i as int]@));
            }
            let ghost before = block_views(kept@);
            if self.used(&self.footnotes[i]) {
                let copy = duplicate_all(&self.footnotes[i]);
                kept.push(copy);
                assert(block_views(kept@) =~= before.push(defs[i as int]));
            }
            i = i + 1;
        }
        assert(defs.take(self.footnotes.len() as int) =~= defs);
        let changed = kept.len() != original_len;
        self.footnotes = kept;
        changed
    }

    /// Appends to `out` copies of the definitions ordered by the number
    /// `k`.
    fn push_with_key(&self, out: &mut Vec<Vec<Token>>, k: usize)
        ensures
            block_views(final(out)@) == block_views(old(out)@) + with_key(
                self@.counts,
                self@.closed,
                k as nat,
            ),
    {
        let ghost defs = block_views(self.footnotes@);
        let ghost counts = self@.counts;
        let ghost start = block_views(out@);
        let mut i: usize = 0;
        assert(block_views(out@) =~= start + with_key(counts, defs.take(0), k as nat));
        while i < self.footnotes.len()
            invariant
                i <= self.footnotes.len(),
                defs == block_views(self.footnotes@),
                counts == self@.counts,
                block_views(out@) == start + with_key(counts, defs.take(i as int), k as nat),
            decreases self.footnotes.len() - i,
        {
            proof {
                assert(defs.take(i + 1).drop_last() =~= defs.take(i as int));
                assert(defs.take(i + 1).last() == token_views(self.footnotes@[i as int]@));
            }
            let ghost before = block_views(out@);
            if self.key(&self.footnotes[i]) == k {
                let copy = duplicate_all(&self.footnotes[i]);
                out.push(copy);
                assert(block_views(out@) =~= before.push(defs[i as int]));
                assert(before.push(defs[i as int]) =~= start + with_key(
                    counts,
                    defs.take(i as int),
                    k as nat,
                ).push(defs[i as int]));
            }
            i = i + 1;
        }
        assert(defs.take(self.footnotes.len() as int) =~= defs);
    }

    /// Puts the complete definitions in the order of the first references
    /// to their footnotes; definitions of one footnote keep their order.
    pub fn sort_by_cached_key(&mut self)
        ensures
            final(self)@.closed == in_reference_order(old(self)@.counts, old(self)@.closed),
            final(self)@.open == old(self)@.open,
            final(self)@.counts == old(self)@.counts,
            final(self)@.enabled == old(self)@.enabled,
    {
        let ghost defs = block_views(self.footnotes@);
        let ghost counts = self@.counts;
        let mut sorted: Vec<Vec<Token>> = Vec::new();
        self.push_with_key(&mut sorted, 0);
        assert(block_views(sorted@) =~= up_to_key(counts, defs, 0));
        let n = self.footnote_numbers.len();
        let mut k: usize = 0;
        while k < n
            invariant
                k <= n,
                n == self.footnote_numbers.len(),
                defs == block_views(self.footnotes@),
                counts == self@.counts,
                *self == *old(self),
                block_views(sorted@) == up_to_key(counts, defs, k as nat),
            decreases n - k,
        {
            k = k + 1;
            self.push_with_key(&mut sorted, k);
        }
        assert(counts.len() == n);
        self.footnotes = sorted;
    }

    /// Appends to `out` one definition written out.
    fn push_definition(&self, out: &mut Vec<Token>, def: &Vec<Token>)
        ensures
            token_views(final(out)@) == token_views(old(out)@) + emitted(
                self@.counts,
                token_views(def@),
            ),
    {
        let ghost counts = self@.counts;
        let ghost d = token_views(def@);
        let ghost start = token_views(out@);
        let fl_len = def.len();
        let mut name: String = String::new();
        let mut has_written_backrefs = false;
        let mut written_footnote_numbers: Vec<usize> = Vec::new();
        let mut i: usize = 0;
        assert(token_views(out@) =~= start + emit_prefix(counts, d, 0).out);
        while i < def.len()
            invariant
                i <= def.len(),
                fl_len == def.len(),
                d == token_views(def@),
                counts == self@.counts,
                name@ == emit_prefix(counts, d, i as nat).name,
                has_written_backrefs == emit_prefix(counts, d, i as nat).written_backrefs,
                written_footnote_numbers@.map_values(|x: usize| x as nat) == emit_prefix(
                    counts,
                    d,
                    i as nat,
                ).labelled,
                token_views(out@) == start + emit_prefix(counts, d, i as nat).out,
            decreases def.len() - i,
        {
            let ghost s = emit_prefix(counts, d, i as nat);
            let ghost before = token_views(out@);
            let ghost labelled = written_footnote_numbers@.map_values(|x: usize| x as nat);
            assert(d[i as int] == def@[i as int]@);
            let next: Token = match &def[i] {
                Token::StartParagraph => {
                    let at = find_count(&self.footnote_numbers, name.as_str());
                    let fn_number: usize = if at < self.footnote_numbers.len() {
                        at + 1
                    } else {
                        0
                    };
                    let mut text: Vec<char> = Vec::new();
                    if has_number(&written_footnote_numbers, fn_number) {
                        push_str(&mut text, "<p>");
                        assert(text@ =~= "<p>"@);
                    } else {
                        written_footnote_numbers.push(fn_number);
                        assert(written_footnote_numbers@.map_values(|x: usize| x as nat)
                            =~= labelled.push(fn_number as nat));
                        push_str(&mut text, "<p><span class=\"footnote-definition-label\">[");
                        push_decimal(&mut text, fn_number as u64);
                        push_str(&mut text, "]</span> ");
                        assert(text@ =~= label_html(fn_number as nat));
                    }
                    html_token(&text)
                },
                Token::StartFootnoteDefinition(current_name) => {
                    name = current_name.clone();
                    has_written_backrefs = false;
                    let mut text: Vec<char> = Vec::new();
                    push_str(&mut text, "<div class=\"footnote-definition\" id=\"fn-");
                    push_str(&mut text, name.as_str());
                    push_str(&mut text, "\" epub:type=\"footnote\">");
                    assert(text@ =~= definition_html(name@));
                    html_token(&text)
                },
                Token::EndFootnoteDefinition => {
                    let mut text: Vec<char> = Vec::new();
                    if !has_written_backrefs && fl_len - i <= 2 {
                        let at = find_count(&self.footnote_numbers, name.as_str());
                        let usage_count: usize = if at < self.footnote_numbers.len() {
                            assert(counts[at as int] == self.footnote_numbers@[at as int]@);
                            self.footnote_numbers[at].uses
                        } else {
                            0
                        };
                        push_backrefs(&mut text, name.as_str(), usage_count);
                        has_written_backrefs = true;
                    }
                    push_str(&mut text, "</div>\n");
                    assert(text@ =~= emit_step(counts, fl_len as nat, i as nat, d[i as int], s).out.last()->Html_0);
                    html_token(&text)
                },
                Token::EndParagraph => {
                    if !has_written_backrefs && fl_len - i <= 2 {
                        let mut text: Vec<char> = Vec::new();
                        let at = find_count(&self.footnote_numbers, name.as_str());
                        let usage_count: usize = if at < self.footnote_numbers.len() {
                            assert(counts[at as int] == self.footnote_numbers@[at as int]@);
                            self.footnote_numbers[at].uses
                        } else {
                            0
                        };
                        push_backrefs(&mut text, name.as_str(), usage_count);
                        has_written_backrefs = true;
                        push_str(&mut text, "</p>\n");
                        assert(text@ =~= backrefs(name@, usage_count as nat) + "</p>\n"@);
                        html_token(&text)
                    } else {
                        Token::EndParagraph
                    }
                },
                other => other.duplicate(),
            };
            out.push(next);
            proof {
                let s2 = emit_step(counts, fl_len as nat, i as nat, d[i as int], s);
                assert(emit_prefix(counts, d, (i + 1) as nat) == s2);
                assert(next@ == s2.out.last());
                assert(s2.out =~= s.out.push(next@));
                assert(token_views(out@) =~= before.push(next@));
                assert(before.push(next@) =~= start + s2.out);
            }
            i = i + 1;
        }
    }

    /// The complete definitions written out, one after the other: each a
    /// block with the footnote's number in its first paragraph and the
    /// links back to its references at its end.
    pub fn get_events(&self) -> (r: Vec<Token>)
        ensures
            token_views(r@) == all_emitted(self@.counts, self@.closed),
    {
        let ghost defs = block_views(self.footnotes@);
        let ghost counts = self@.counts;
        let mut out: Vec<Token> = Vec::new();
        let mut i: usize = 0;
        assert(token_views(out@) =~= all_emitted(counts, defs.take(0)));
        while i < self.footnotes.len()
            invariant
                i <= self.footnotes.len(),
                defs == block_views(self.footnotes@),
                counts == self@.counts,
                token_views(out@) == all_emitted(counts, defs.take(i as int)),
            decreases self.footnotes.len() - i,
        {
            proof {
                assert(defs.take(i + 1).drop_last() =~= defs.take(i as int));
                assert(defs.take(i + 1).last() == token_views(self.footnotes@[i as int]@));
            }
            self.push_definition(&mut out, &self.footnotes[i]);
            i = i + 1;
        }
        assert(defs.take(self.footnotes.len() as int) =~= defs);
        out
    }
}

/// After a reference to a footnote, its entry stands where it stood, or at
/// the end if it is new; the entries before it are untouched.
pub proof fn lemma_index_after_reference(counts: Seq<Counted>, name: Seq<char>)
    ensures
        0 <= index_of(counts, name) <= counts.len(),
        index_of(referenced(counts, name), name) == index_of(counts, name),
        index_of(counts, name) < counts.len() ==> counts[index_of(counts, name)].name == name,
    decreases counts.len(),
{
    let after = referenced(counts, name);
    if counts.len() == 0 {
        assert(after =~= seq![Counted { name, uses: 1 }]);
    } else if counts[0].name == name {
    } else {
        let rest = counts.drop_first();
        lemma_index_after_reference(rest, name);
        assert(after[0] == counts[0]);
        assert(after.drop_first() =~= referenced(rest, name));
    }
}

/// The definitions ordered by the number `k` are definitions of the list,
/// and `k` is the number of each.
pub proof fn lemma_with_key(counts: Seq<Counted>, defs: Seq<Seq<TokenView>>, k: nat)
    ensures
        forall|i: int|
            0 <= i < with_key(counts, defs, k).len() ==> key_of(
                counts,
                #[trigger] with_key(counts, defs, k)[i],
            ) == k && defs.contains(with_key(counts, defs, k)[i]),
    decreases defs.len(),
{
    if defs.len() > 0 {
        let front = defs.drop_last();
        lemma_with_key(counts, front, k);
        let w = with_key(counts, defs, k);
        assert forall|i: int| 0 <= i < w.len() implies key_of(counts, #[trigger] w[i]) == k
            && defs.contains(w[i]) by {
            if i < with_key(counts, front, k).len() {
                let d = with_key(counts, front, k)[i];
                assert(w[i] == d);
                let j = choose|j: int| 0 <= j < front.len() && front[j] == d;
                assert(defs[j] == d);
            } else {
                assert(w[i] == defs[defs.len() - 1]);
            }
        }
    }
}

/// Footnotes are written in the order of their first references: in the
/// ordered list the numbers never fall, and every entry is one of the
/// definitions that were there before.
pub proof fn reference_order_is_sorted(counts: Seq<Counted>, defs: Seq<Seq<TokenView>>, k: nat)
    ensures
        forall|i: int, j: int|
            0 <= i <= j < up_to_key(counts, defs, k).len() ==> key_of(
                counts,
                #[trigger] up_to_key(counts, defs, k)[i],
            ) <= key_of(counts, #[trigger] up_to_key(counts, defs, k)[j]),
        forall|i: int|
            0 <= i < up_to_key(counts, defs, k).len() ==> key_of(
                counts,
                #[trigger] up_to_key(counts, defs, k)[i],
            ) <= k && defs.contains(up_to_key(counts, defs, k)[i]),
    decreases k,
{
    lemma_with_key(counts, defs, k);
    let w = with_key(counts, defs, k);
    let u = up_to_key(counts, defs, k);
    if k > 0 {
        reference_order_is_sorted(counts, defs, (k - 1) as nat);
        let v = up_to_key(counts, defs, (k - 1) as nat);
        assert(u == v + w);
        assert forall|i: int| 0 <= i < u.len() implies key_of(counts, #[trigger] u[i]) <= k
            && defs.contains(u[i]) by {
            if i < v.len() {
                assert(u[i] == v[i]);
            } else {
                assert(u[i] == w[i - v.len()]);
            }
        }
        assert forall|i: int, j: int| 0 <= i <= j < u.len() implies key_of(
            counts,
            #[trigger] u[i],
        ) <= key_of(counts, #[trigger] u[j]) by {
            if j < v.len() {
                assert(u[i] == v[i] && u[j] == v[j]);
            } else if i < v.len() {
                assert(u[i] == v[i] && u[j] == w[j - v.len()]);
            } else {
                assert(u[i] == w[i - v.len()] && u[j] == w[j - v.len()]);
            }
        }
    } else {
        assert(u == w);
    }
}

/// A footnote that is defined but never referred to leaves nothing behind:
/// every definition that is kept was referred to, and where none was,
/// nothing is written out at all.
pub proof fn unreferenced_definitions_are_dropped(counts: Seq<Counted>, defs: Seq<Seq<TokenView>>)
    ensures
        forall|i: int|
            0 <= i < used_only(counts, defs).len() ==> is_used(
                counts,
                #[trigger] used_only(counts, defs)[i],
            ) && defs.contains(used_only(counts, defs)[i]),
        (forall|i: int| 0 <= i < defs.len() ==> !is_used(counts, #[trigger] defs[i]))
            ==> used_only(counts, defs).len() == 0 && all_emitted(
            counts,
            used_only(counts, defs),
        ).len() == 0,
    decreases defs.len(),
{
    if defs.len() > 0 {
        let front = defs.drop_last();
        unreferenced_definitions_are_dropped(counts, front);
        let u = used_only(counts, defs);
        assert forall|i: int| 0 <= i < u.len() implies is_used(counts, #[trigger] u[i])
            && defs.contains(u[i]) by {
            if i < used_only(counts, front).len() {
                let d = used_only(counts, front)[i];
                assert(u[i] == d);
                let j = choose|j: int| 0 <= j < front.len() && front[j] == d;
                assert(defs[j] == d);
            } else {
                assert(u[i] == defs[defs.len() - 1]);
            }
        }
        if forall|i: int| 0 <= i < defs.len() ==> !is_used(counts, #[trigger] defs[i]) {
            assert forall|i: int| 0 <= i < front.len() implies !is_used(
                counts,
                #[trigger] front[i],
            ) by {
                assert(front[i] == defs[i]);
            }
            assert(!is_used(counts, defs[defs.len() - 1]));
        }
    }
}

/// A reference to one footnote leaves the place of every footnote that was
/// referred to before as it was.
pub proof fn lemma_index_kept(counts: Seq<Counted>, name: Seq<char>, other: Seq<char>)
    requires
        index_of(counts, other) < counts.len(),
    ensures
        index_of(referenced(counts, name), other) == index_of(counts, other),
    decreases counts.len(),
{
    let after = referenced(counts, name);
    lemma_index_after_reference(counts, name);
    if counts.len() > 0 {
        if counts[0].name == other {
            assert(after[0].name == other);
        } else {
            let rest = counts.drop_first();
            lemma_index_after_reference(rest, name);
            if counts[0].name == name {
                assert(after[0].name == name);
                assert(after.drop_first() =~= rest);
            } else {
                lemma_index_kept(rest, name, other);
                assert(after[0] == counts[0]);
                assert(after.drop_first() =~= referenced(rest, name));
            }
        }
    }
}

/// Footnotes are numbered in the order of their first references: a
/// reference changes the number of no footnote that has one, and a
/// footnote referred to for the first time gets the next number, which is
/// greater than every number given before.
pub proof fn numbers_follow_first_reference(
    counts: Seq<Counted>,
    name: Seq<char>,
    other: Seq<char>,
)
    ensures
        number_of(counts, other) != 0 ==> number_of(referenced(counts, name), other) == number_of(
            counts,
            other,
        ),
        number_of(counts, name) == 0 ==> number_of(referenced(counts, name), name) == counts.len()
            + 1,
        number_of(counts, name) == 0 && number_of(counts, other) != 0 ==> number_of(counts, other)
            < number_of(referenced(counts, name), name),
{
    lemma_index_after_reference(counts, name);
    lemma_index_after_reference(counts, other);
    if index_of(counts, other) < counts.len() {
        lemma_index_kept(counts, name, other);
    }
}

/// One more definition adds itself to the ordered list, and nothing else,
/// where its number is among those the list is ordered by.
pub proof fn lemma_order_adds_one(
    counts: Seq<Counted>,
    defs: Seq<Seq<TokenView>>,
    d: Seq<TokenView>,
    k: nat,
)
    ensures
        up_to_key(counts, defs.push(d), k).to_multiset() == if key_of(counts, d) <= k {
            up_to_key(counts, defs, k).to_multiset().insert(d)
        } else {
            up_to_key(counts, defs, k).to_multiset()
        },
    decreases k,
{
    let more = defs.push(d);
    assert(more.drop_last() =~= defs);
    assert(more.last() == d);
    let w = with_key(counts, defs, k);
    let w_more = with_key(counts, more, k);
    if key_of(counts, d) == k {
        assert(w_more == w.push(d));
        to_multiset_build(w, d);
    } else {
        assert(w_more == w);
    }
    if k > 0 {
        let before = up_to_key(counts, defs, (k - 1) as nat);
        let before_more = up_to_key(counts, more, (k - 1) as nat);
        lemma_order_adds_one(counts, defs, d, (k - 1) as nat);
        lemma_multiset_commutative(before, w);
        lemma_multiset_commutative(before_more, w_more);
        if key_of(counts, d) <= k - 1 {
            assert(before.to_multiset().insert(d).add(w.to_multiset()) =~= before.to_multiset().add(
                w.to_multiset(),
            ).insert(d));
        } else if key_of(counts, d) == k {
            assert(before.to_multiset().add(w.to_multiset().insert(d))
                =~= before.to_multiset().add(w.to_multiset()).insert(d));
        }
    }
}

/// Nothing ordered is nothing.
pub proof fn lemma_order_of_nothing(counts: Seq<Counted>, k: nat)
    ensures
        up_to_key(counts, Seq::<Seq<TokenView>>::empty(), k) == Seq::<Seq<TokenView>>::empty(),
    decreases k,
{
    if k > 0 {
        lemma_order_of_nothing(counts, (k - 1) as nat);
    }
    assert(up_to_key(counts, Seq::<Seq<TokenView>>::empty(), k) =~= Seq::<Seq<TokenView>>::empty());
}

/// Ordering the definitions loses none and adds none: the ordered list
/// holds every definition as often as the list before did.
pub proof fn reference_order_keeps_every_definition(
    counts: Seq<Counted>,
    defs: Seq<Seq<TokenView>>,
)
    ensures
        in_reference_order(counts, defs).to_multiset() == defs.to_multiset(),
        in_reference_order(counts, defs).len() == defs.len(),
    decreases defs.len(),
{
    if defs.len() == 0 {
        lemma_order_of_nothing(counts, counts.len());
        assert(defs =~= Seq::<Seq<TokenView>>::empty());
    } else {
        let front = defs.drop_last();
        let d = defs.last();
        assert(front.push(d) =~= defs);
        reference_order_keeps_every_definition(counts, front);
        lemma_order_adds_one(counts, front, d, counts.len());
        match definition_name(d) {
            Some(n) => {
                lemma_index_after_reference(counts, n);
            },
            None => {},
        }
        assert(key_of(counts, d) <= counts.len());
        to_multiset_build(front, d);
    }
    in_reference_order(counts, defs).to_multiset_ensures();
    defs.to_multiset_ensures();
}

} // verus!
