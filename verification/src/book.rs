//! The book: chapters in order, some with chapters of their own.

use vstd::prelude::*;

verus! {

/// One chapter of a book.
#[derive(Debug, PartialEq, Eq)]
pub struct Chapter {
    /// The chapter's name.
    pub name: String,
    /// The chapter's contents: markdown text.
    pub content: String,
    /// The chapter's section number, if it has one: `1.2.3` as 1, 2, 3.
    pub number: Option<Vec<u32>>,
    /// Nested items.
    pub sub_items: Vec<BookItem>,
    /// The chapter's location, relative to the book's source directory.
    /// A draft chapter has none.
    pub path: Option<String>,
}

/// One item of a book.
#[derive(Debug, PartialEq, Eq)]
pub enum BookItem {
    /// A chapter, with the chapters nested in it.
    Chapter(Chapter),
    /// A separator between sections.
    Separator,
    /// The title of a part.
    PartTitle(String),
}

/// The chapters among the items and inside them, each before the chapters
/// nested in it, in the order of the book.
pub open spec fn chapters_of(items: Seq<BookItem>) -> Seq<Chapter>
    decreases items,
{
    if items.len() == 0 {
        Seq::<Chapter>::empty()
    } else {
        chapters_of(items.drop_last()) + chapters_in(items.last())
    }
}

/// The chapters that an item holds: a chapter and the chapters inside it.
pub open spec fn chapters_in(item: BookItem) -> Seq<Chapter>
    decreases item,
{
    match item {
        BookItem::Chapter(ch) => seq![ch] + chapters_of(ch.sub_items@),
        _ => Seq::<Chapter>::empty(),
    }
}

/// Appends to `out` the chapters among the items and inside them.
pub fn collect_chapters<'a>(items: &'a Vec<BookItem>, out: &mut Vec<&'a Chapter>)
    ensures
        final(out)@.map_values(|c: &Chapter| *c) == old(out)@.map_values(|c: &Chapter| *c)
            + chapters_of(items@),
    decreases items,
{
    let ghost start = out@.map_values(|c: &Chapter| *c);
    let mut i: usize = 0;
    assert(items@.take(0) =~= Seq::<BookItem>::empty());
    assert(out@.map_values(|c: &Chapter| *c) =~= start + chapters_of(items@.take(0)));
    while i < items.len()
        invariant
            i <= items.len(),
            out@.map_values(|c: &Chapter| *c) == start + chapters_of(items@.take(i as int)),
        decreases items.len() - i,
    {
        proof {
            assert(items@.take(i + 1).drop_last() =~= items@.take(i as int));
            assert(items@.take(i + 1).last() == items@[i as int]);
        }
        let ghost before = out@.map_values(|c: &Chapter| *c);
        match &items[i] {
            BookItem::Chapter(ch) => {
                out.push(ch);
                assert(out@.map_values(|c: &Chapter| *c) =~= before + seq![*ch]);
                collect_chapters(&ch.sub_items, out);
                assert(out@.map_values(|c: &Chapter| *c) =~= before + chapters_in(
                    items@[i as int],
                ));
            },
            _ => {
                assert(out@.map_values(|c: &Chapter| *c) =~= before + chapters_in(
                    items@[i as int],
                ));
            },
        }
        assert(start + chapters_of(items@.take(i as int)) + chapters_in(items@[i as int])
            =~= start + chapters_of(items@.take(i + 1)));
        i = i + 1;
    }
    assert(items@.take(items.len() as int) =~= items@);
}

/// The chapters of a book in the order in which they are visited: depth
/// first, each chapter before the chapters nested in it.
pub fn chapters_in_order<'a>(items: &'a Vec<BookItem>) -> (r: Vec<&'a Chapter>)
    ensures
        r@.map_values(|c: &Chapter| *c) == chapters_of(items@),
{
    let mut out: Vec<&'a Chapter> = Vec::new();
    collect_chapters(items, &mut out);
    assert(out@.map_values(|c: &Chapter| *c) =~= chapters_of(items@));
    out
}

} // verus!
