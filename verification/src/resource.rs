//! Discovery: the walk over a book's chapters that finds every asset a
//! chapter links to and records it in the table.
//!
//! The file system is not touched here. What it says of a chapter's path
//! and of the place a link leads to comes in as probes, one for every
//! chapter and one for every local link, in the order in which
//! [`chapter_locations`] and [`local_targets`] list what is to be probed.

use vstd::prelude::*;
use crate::asset::{
    classify, failure_of, foreign_link, is_foreign_link, local_candidate, local_outcome,
    parsed_url, remote_asset, remote_link, Asset, AssetView, ChapterProbe, Failure, LinkKind,
    TargetProbe, TargetView,
};
use crate::book::{chapters_in_order, chapters_of, BookItem, Chapter};
use crate::errors::EpubError;
use crate::html::{
    find_assets_in_nested_html_tags, image_sources, nodes_of, parsed_nodes, string_views,
};
use crate::paths::{join, joined, PathStyle};
use crate::table::{put, put_new, AssetTable};
use crate::text::{chars_of, compare, precedes, Order};
use crate::token::{markdown_tokens, token_views, tokenize, Token, TokenView};

verus! {

/// The links that one token holds: the destination of an image, or the
/// sources of the images in a fragment of raw HTML that parses.
pub open spec fn token_links(t: TokenView) -> Seq<Seq<char>> {
    match t {
        TokenView::StartImage { dest_url, event } => seq![dest_url],
        TokenView::Html(h) => match parsed_nodes(h, "src"@) {
            Some(ns) => image_sources(ns),
            None => Seq::<Seq<char>>::empty(),
        },
        TokenView::InlineHtml(h) => match parsed_nodes(h, "src"@) {
            Some(ns) => image_sources(ns),
            None => Seq::<Seq<char>>::empty(),
        },
        _ => Seq::<Seq<char>>::empty(),
    }
}

/// The links that the tokens hold, in order, repetitions included.
pub open spec fn all_links(ts: Seq<TokenView>) -> Seq<Seq<char>>
    decreases ts.len(),
{
    if ts.len() == 0 {
        Seq::<Seq<char>>::empty()
    } else {
        all_links(ts.drop_last()) + token_links(ts.last())
    }
}

/// Whether each text comes before the next in the order of strings.
pub open spec fn rising(v: Seq<Seq<char>>) -> bool {
    forall|i: int| 0 <= i < v.len() - 1 ==> precedes(#[trigger] v[i], v[i + 1])
}

/// A text is in a list with one more text if it is in the list or is that
/// text.
pub proof fn lemma_contains_push(v: Seq<Seq<char>>, x: Seq<char>, y: Seq<char>)
    ensures
        v.push(x).contains(y) <==> (v.contains(y) || y == x),
{
    let w = v.push(x);
    if w.contains(y) {
        let j = choose|j: int| 0 <= j < w.len() && w[j] == y;
        if j < v.len() {
            assert(v[j] == y);
        }
    }
    if v.contains(y) {
        let j = choose|j: int| 0 <= j < v.len() && v[j] == y;
        assert(w[j] == y);
    }
    if y == x {
        assert(w[v.len() as int] == y);
    }
}

/// A text is in two lists put together if it is in one of them.
pub proof fn lemma_contains_add(a: Seq<Seq<char>>, b: Seq<Seq<char>>, y: Seq<char>)
    ensures
        (a + b).contains(y) <==> (a.contains(y) || b.contains(y)),
{
    if (a + b).contains(y) {
        let j = choose|j: int| 0 <= j < (a + b).len() && (a + b)[j] == y;
        if j < a.len() {
            assert(a[j] == y);
        } else {
            assert(b[j - a.len()] == y);
        }
    }
    if a.contains(y) {
        let j = choose|j: int| 0 <= j < a.len() && a[j] == y;
        assert((a + b)[j] == y);
    }
    if b.contains(y) {
        let j = choose|j: int| 0 <= j < b.len() && b[j] == y;
        assert((a + b)[j + a.len()] == y);
    }
}

/// Puts `x` in its place in a rising list, unless it is there already.
fn insert_sorted(v: &mut Vec<String>, x: String)
    requires
        rising(string_views(old(v)@)),
    ensures
        rising(string_views(final(v)@)),
        forall|y: Seq<char>|
            #[trigger] string_views(final(v)@).contains(y) <==> (string_views(old(v)@).contains(
                y,
            ) || y == x@),
{
    let ghost before = string_views(v@);
    let t = chars_of(x.as_str());
    let mut k: usize = 0;
    while k < v.len()
        invariant
            k <= v.len(),
            t@ == x@,
            *v == *old(v),
            before == string_views(v@),
            rising(before),
            k > 0 ==> precedes(before[k - 1], x@),
            forall|j: int| 0 <= j < k ==> before[j] != x@,
        decreases v.len() - k,
    {
        let c = chars_of(v[k].as_str());
        assert(before[k as int] == v@[k as int]@);
        match compare(&c, &t) {
            Order::Before => {
                k = k + 1;
            },
            Order::Same => {
                return ;
            },
            Order::After => {
                v.insert(k, x);
                proof {
                    let now = string_views(v@);
                    assert(now =~= before.insert(k as int, x@));
                    assert forall|i: int| 0 <= i < now.len() - 1 implies precedes(
                        #[trigger] now[i],
                        now[i + 1],
                    ) by {
                        if i < k - 1 {
                            assert(now[i] == before[i] && now[i + 1] == before[i + 1]);
                        } else if i == k - 1 {
                            assert(now[i] == before[i] && now[i + 1] == x@);
                        } else if i == k {
                            assert(now[i] == x@ && now[i + 1] == before[i]);
                        } else {
                            assert(now[i] == before[i - 1] && now[i + 1] == before[i]);
                        }
                    }
                    assert forall|y: Seq<char>| #[trigger] now.contains(y) <==> (before.contains(
                        y,
                    ) || y == x@) by {
                        if now.contains(y) {
                            let i = choose|i: int| 0 <= i < now.len() && now[i] == y;
                            if i < k {
                                assert(before[i] == y);
                            } else if i > k {
                                assert(before[i - 1] == y);
                            }
                        }
                        if before.contains(y) {
                            let i = choose|i: int| 0 <= i < before.len() && before[i] == y;
                            if i < k {
                                assert(now[i] == y);
                            } else {
                                assert(now[i + 1] == y);
                            }
                        }
                        if y == x@ {
                            assert(now[k as int] == y);
                        }
                    }
                }
                return ;
            },
        }
    }
    v.push(x);
    proof {
        let now = string_views(v@);
        assert(now =~= before.push(x@));
        assert forall|i: int| 0 <= i < now.len() - 1 implies precedes(
            #[trigger] now[i],
            now[i + 1],
        ) by {
            if i < before.len() - 1 {
                assert(now[i] == before[i] && now[i + 1] == before[i + 1]);
            } else {
                assert(now[i] == before[i] && now[i + 1] == x@);
            }
        }
        assert forall|y: Seq<char>| #[trigger] now.contains(y) <==> (before.contains(y) || y
            == x@) by {
            if now.contains(y) {
                let i = choose|i: int| 0 <= i < now.len() && now[i] == y;
                if i < before.len() {
                    assert(before[i] == y);
                }
            }
            if before.contains(y) {
                let i = choose|i: int| 0 <= i < before.len() && before[i] == y;
                assert(now[i] == y);
            }
            if y == x@ {
                assert(now[before.len() as int] == y);
            }
        }
    }
}

/// Puts every one of `xs` in its place in a rising list.
fn insert_all_sorted(v: &mut Vec<String>, xs: &Vec<String>)
    requires
        rising(string_views(old(v)@)),
    ensures
        rising(string_views(final(v)@)),
        forall|y: Seq<char>|
            #[trigger] string_views(final(v)@).contains(y) <==> (string_views(old(v)@).contains(
                y,
            ) || string_views(xs@).contains(y)),
{
    let ghost start = string_views(v@);
    let ghost all = string_views(xs@);
    let mut i: usize = 0;
    while i < xs.len()
        invariant
            i <= xs.len(),
            all == string_views(xs@),
            rising(string_views(v@)),
            forall|y: Seq<char>|
                #[trigger] string_views(v@).contains(y) <==> (start.contains(y) || all.take(
                    i as int,
                ).contains(y)),
        decreases xs.len() - i,
    {
        let ghost before = string_views(v@);
        insert_sorted(v, xs[i].clone());
        proof {
            let now = string_views(v@);
            let x = xs@[i as int]@;
            assert(all[i as int] == x);
            assert(all.take(i + 1) =~= all.take(i as int).push(x));
            let longer = all.take(i + 1);
            let shorter = all.take(i as int);
            assert forall|y: Seq<char>| #[trigger] now.contains(y) <==> (start.contains(y)
                || longer.contains(y)) by {
                assert(now.contains(y) <==> (before.contains(y) || y == x));
                assert(before.contains(y) <==> (start.contains(y) || shorter.contains(y)));
                lemma_contains_push(shorter, x, y);
            }
        }
        i = i + 1;
    }
    assert(all.take(xs.len() as int) =~= all);
}

/// The links of one token.
fn links_of_token(token: &Token) -> (r: Vec<String>)
    ensures
        string_views(r@) == token_links(token@),
{
    match token {
        Token::StartImage { dest_url, event } => {
            let mut v: Vec<String> = Vec::new();
            v.push(dest_url.clone());
            assert(string_views(v@) =~= seq![dest_url@]);
            v
        },
        Token::Html(html) => match nodes_of(html.as_str()) {
            Some(ns) => find_assets_in_nested_html_tags(&ns),
            None => {
                let v: Vec<String> = Vec::new();
                assert(string_views(v@) =~= Seq::<Seq<char>>::empty());
                v
            },
        },
        Token::InlineHtml(html) => match nodes_of(html.as_str()) {
            Some(ns) => find_assets_in_nested_html_tags(&ns),
            None => {
                let v: Vec<String> = Vec::new();
                assert(string_views(v@) =~= Seq::<Seq<char>>::empty());
                v
            },
        },
        _ => {
            let v: Vec<String> = Vec::new();
            assert(string_views(v@) =~= Seq::<Seq<char>>::empty());
            v
        },
    }
}

/// The asset links among the tokens of a chapter: the destination of every
/// image and the source of every `img` in raw HTML, each once, in the order
/// of strings.
pub fn find_assets_in_tokens(tokens: &Vec<Token>) -> (r: Vec<String>)
    ensures
        rising(string_views(r@)),
        forall|y: Seq<char>|
            #[trigger] string_views(r@).contains(y) <==> all_links(token_views(tokens@)).contains(
                y,
            ),
{
    let ghost ts = token_views(tokens@);
    let mut found: Vec<String> = Vec::new();
    let mut i: usize = 0;
    assert(all_links(ts.take(0)) =~= Seq::<Seq<char>>::empty());
    while i < tokens.len()
        invariant
            i <= tokens.len(),
            ts == token_views(tokens@),
            rising(string_views(found@)),
            forall|y: Seq<char>|
                #[trigger] string_views(found@).contains(y) <==> all_links(
                    ts.take(i as int),
                ).contains(y),
        decreases tokens.len() - i,
    {
        let links = links_of_token(&tokens[i]);
        let ghost before = string_views(found@);
        insert_all_sorted(&mut found, &links);
        proof {
            assert(ts.take(i + 1).drop_last() =~= ts.take(i as int));
            assert(ts.take(i + 1).last() == tokens@[i as int]@);
            let a = all_links(ts.take(i as int));
            let b = string_views(links@);
            assert(all_links(ts.take(i + 1)) == a + b);
            let now = string_views(found@);
            assert forall|y: Seq<char>| #[trigger] now.contains(y) <==> (a + b).contains(y) by {
                assert(now.contains(y) <==> (before.contains(y) || b.contains(y)));
                assert(before.contains(y) <==> a.contains(y));
                lemma_contains_add(a, b, y);
            }
        }
        i = i + 1;
    }
    assert(ts.take(tokens.len() as int) =~= ts);
    found
}

/// Whether `links` are the asset links of a chapter's text: each link among
/// the text's tokens once, and no other, in the order of strings.
pub open spec fn is_link_list(links: Seq<Seq<char>>, content: Seq<char>) -> bool {
    &&& rising(links)
    &&& forall|y: Seq<char>|
        #[trigger] links.contains(y) <==> all_links(markdown_tokens(content)).contains(y)
}

/// Look up resources in chapter md content: the asset links among its
/// tokens, each once, in the order of strings.
pub fn find_assets_in_markdown(chapter_src_content: &str) -> (r: Vec<String>)
    ensures
        is_link_list(string_views(r@), chapter_src_content@),
{
    let tokens = tokenize(chapter_src_content);
    find_assets_in_tokens(&tokens)
}

/// A chapter that has a file, with the asset links found in it.
#[derive(Debug, Clone, PartialEq, Eq)]
pub struct ChapterLinks {
    /// The chapter's name.
    pub name: String,
    /// The chapter's location, relative to the book's source directory.
    pub path: String,
    /// The asset links of the chapter, each once.
    pub links: Vec<String>,
}

/// The chapters that have a file, in their order: drafts are left out.
pub open spec fn with_files(chs: Seq<Chapter>) -> Seq<Chapter>
    decreases chs.len(),
{
    if chs.len() == 0 {
        Seq::<Chapter>::empty()
    } else if chs.last().path is Some {
        with_files(chs.drop_last()).push(chs.last())
    } else {
        with_files(chs.drop_last())
    }
}

/// Whether `links` stands for the chapter `ch`: it has the chapter's name
/// and path, and its links are the asset links of the chapter's text.
pub open spec fn stands_for(links: ChapterLinks, ch: Chapter) -> bool {
    &&& links.name@ == ch.name@
    &&& ch.path is Some
    &&& links.path@ == ch.path->0@
    &&& is_link_list(string_views(links.links@), ch.content@)
}

/// The chapters of a book that have a file, in the order of the walk, each
/// with the asset links found in its text. A draft chapter is passed over;
/// the chapters nested in it are not.
pub fn chapter_links(items: &Vec<BookItem>) -> (r: Vec<ChapterLinks>)
    ensures
        r@.len() == with_files(chapters_of(items@)).len(),
        forall|i: int|
            0 <= i < r@.len() ==> stands_for(#[trigger] r@[i], with_files(chapters_of(items@))[i]),
{
    let chapters = chapters_in_order(items);
    let ghost chs = chapters@.map_values(|c: &Chapter| *c);
    let mut out: Vec<ChapterLinks> = Vec::new();
    let mut i: usize = 0;
    assert(chs.take(0) =~= Seq::<Chapter>::empty());
    while i < chapters.len()
        invariant
            i <= chapters.len(),
            chs == chapters@.map_values(|c: &Chapter| *c),
            out@.len() == with_files(chs.take(i as int)).len(),
            forall|k: int|
                0 <= k < out@.len() ==> stands_for(
                    #[trigger] out@[k],
                    with_files(chs.take(i as int))[k],
                ),
        decreases chapters.len() - i,
    {
        proof {
            assert(chs.take(i + 1).drop_last() =~= chs.take(i as int));
            assert(chs.take(i + 1).last() == *chapters@[i as int]);
        }
        let ch = chapters[i];
        match &ch.path {
            Some(path) => {
                let links = find_assets_in_markdown(ch.content.as_str());
                out.push(ChapterLinks { name: ch.name.clone(), path: path.clone(), links });
            },
            None => {},
        }
        i = i + 1;
    }
    assert(chs.take(chapters.len() as int) =~= chs);
    out
}

/// Where the chapters lie on disk: each chapter's path under the book's
/// source directory. These are the places to probe for
/// [`ChapterProbe`]s.
pub fn chapter_locations(style: PathStyle, chapters: &Vec<ChapterLinks>, src_dir: &str) -> (r: Vec<
    String,
>)
    ensures
        r@.len() == chapters@.len(),
        forall|i: int|
            0 <= i < r@.len() ==> (#[trigger] r@[i])@ == joined(
                style,
                src_dir@,
                chapters@[i].path@,
            ),
{
    let mut out: Vec<String> = Vec::new();
    let mut i: usize = 0;
    while i < chapters.len()
        invariant
            i <= chapters.len(),
            out@.len() == i,
            forall|k: int|
                0 <= k < i ==> (#[trigger] out@[k])@ == joined(
                    style,
                    src_dir@,
                    chapters@[k].path@,
                ),
        decreases chapters.len() - i,
    {
        out.push(join(style, src_dir, chapters[i].path.as_str()));
        i = i + 1;
    }
    out
}

/// What is known of the chapter at `i`; of a chapter that was not probed,
/// nothing: it neither exists nor is a file.
pub open spec fn chapter_probe_at(probes: Seq<ChapterProbe>, i: int) -> ChapterProbe {
    if 0 <= i < probes.len() {
        probes[i]
    } else {
        ChapterProbe { exists: false, is_file: false }
    }
}

/// Executable form of [`chapter_probe_at`].
pub fn chapter_probe(probes: &Vec<ChapterProbe>, i: usize) -> (r: ChapterProbe)
    ensures
        r == chapter_probe_at(probes@, i as int),
{
    if i < probes.len() {
        probes[i]
    } else {
        ChapterProbe { exists: false, is_file: false }
    }
}

/// Where the local links of the chapters lead on disk, before the file
/// system has a say: for every chapter and every link of it, the place to
/// probe for a [`TargetProbe`], or nothing for a link that is a URL.
pub fn local_targets(
    style: PathStyle,
    chapters: &Vec<ChapterLinks>,
    src_dir: &str,
    chapter_probes: &Vec<ChapterProbe>,
) -> (r: Vec<Vec<Option<String>>>)
    ensures
        r@.len() == chapters@.len(),
        forall|i: int|
            0 <= i < r@.len() ==> (#[trigger] r@[i])@.len() == chapters@[i].links@.len(),
        forall|i: int, j: int|
            0 <= i < r@.len() && 0 <= j < r@[i]@.len() ==> if remote_link(
                chapters@[i].links@[j]@,
            ) || foreign_link(chapters@[i].links@[j]@) {
                (#[trigger] r@[i]@[j]) is None
            } else {
                r@[i]@[j] matches Some(p) && p@ == local_candidate(
                    style,
                    chapters@[i].links@[j]@,
                    src_dir@,
                    chapters@[i].path@,
                    chapter_probe_at(chapter_probes@, i),
                )
            },
{
    let mut out: Vec<Vec<Option<String>>> = Vec::new();
    let mut i: usize = 0;
    while i < chapters.len()
        invariant
            i <= chapters.len(),
            out@.len() == i,
            forall|a: int|
                0 <= a < i ==> (#[trigger] out@[a])@.len() == chapters@[a].links@.len(),
            forall|a: int, b: int|
                0 <= a < i && 0 <= b < out@[a]@.len() ==> if remote_link(
                    chapters@[a].links@[b]@,
                ) || foreign_link(chapters@[a].links@[b]@) {
                    (#[trigger] out@[a]@[b]) is None
                } else {
                    out@[a]@[b] matches Some(p) && p@ == local_candidate(
                        style,
                        chapters@[a].links@[b]@,
                        src_dir@,
                        chapters@[a].path@,
                        chapter_probe_at(chapter_probes@, a),
                    )
                },
        decreases chapters.len() - i,
    {
        let ch = &chapters[i];
        let probe = chapter_probe(chapter_probes, i);
        let mut row: Vec<Option<String>> = Vec::new();
        let mut j: usize = 0;
        while j < ch.links.len()
            invariant
                j <= ch.links.len(),
                row@.len() == j,
                probe == chapter_probe_at(chapter_probes@, i as int),
                *ch == chapters@[i as int],
                forall|b: int|
                    0 <= b < j ==> if remote_link(ch.links@[b]@) || foreign_link(
                        ch.links@[b]@,
                    ) {
                        (#[trigger] row@[b]) is None
                    } else {
                        row@[b] matches Some(p) && p@ == local_candidate(
                            style,
                            ch.links@[b]@,
                            src_dir@,
                            ch.path@,
                            probe,
                        )
                    },
            decreases ch.links.len() - j,
        {
            let link = ch.links[j].as_str();
            match classify(link) {
                LinkKind::Remote(_) => {
                    row.push(None);
                },
                LinkKind::Local => {
                    if is_foreign_link(link) {
                        row.push(None);
                    } else {
                        row.push(
                            Some(Asset::candidate(style, link, src_dir, ch.path.as_str(), probe)),
                        );
                    }
                },
            }
            j = j + 1;
        }
        out.push(row);
        i = i + 1;
    }
    out
}

/// What is known of the place that the link at `j` leads to; of a place
/// that was not probed, that nothing was found there.
pub open spec fn target_at(probes: Seq<Option<TargetProbe>>, j: int) -> TargetView {
    if 0 <= j < probes.len() {
        match probes[j] {
            Some(p) => p@,
            None => TargetView::Missing("not probed"@),
        }
    } else {
        TargetView::Missing("not probed"@)
    }
}

/// The probes of the chapter at `i`, or none.
pub open spec fn targets_at(probes: Seq<Vec<Option<TargetProbe>>>, i: int) -> Seq<
    Option<TargetProbe>,
> {
    if 0 <= i < probes.len() {
        probes[i]@
    } else {
        Seq::<Option<TargetProbe>>::empty()
    }
}

/// How far the discovery of one chapter has come.
pub struct Found {
    /// The table so far.
    pub table: Seq<AssetView>,
    /// Why the chapter's discovery was given up, if it was.
    pub failure: Option<Failure>,
}

/// The table after one link of a chapter was resolved, and the failure if
/// it could not be.
///
/// A remote link puts its asset in the table, in the place of an earlier
/// asset of the same link. A link that is a URL of another scheme, such as
/// an image embedded as `data:`, names no file and is passed over. A local
/// link that resolves puts its asset in the table unless the link is known
/// already. A local link that leads out of the source directory is passed
/// over. Any other local link that does not resolve is a failure.
pub open spec fn link_step(
    style: PathStyle,
    table: Seq<AssetView>,
    link: Seq<char>,
    src_dir: Seq<char>,
    dest_dir: Seq<char>,
    chapter_path: Seq<char>,
    chapter: ChapterProbe,
    target: TargetView,
) -> Found {
    if remote_link(link) {
        Found {
            table: put(table, remote_asset(style, link, parsed_url(link)->0, dest_dir)),
            failure: None,
        }
    } else if foreign_link(link) {
        Found { table, failure: None }
    } else {
        match local_outcome(style, link, src_dir, chapter_path, chapter, target) {
            Ok(a) => Found { table: put_new(table, a), failure: None },
            Err(Failure::Outside(_)) => Found { table, failure: None },
            Err(f) => Found { table, failure: Some(f) },
        }
    }
}

/// The table after the first `k` links of a chapter were resolved. After a
/// failure the rest of the chapter's links are not looked at.
pub open spec fn chapter_found(
    style: PathStyle,
    table: Seq<AssetView>,
    chapter: ChapterLinks,
    src_dir: Seq<char>,
    dest_dir: Seq<char>,
    probe: ChapterProbe,
    targets: Seq<Option<TargetProbe>>,
    k: nat,
) -> Found
    decreases k,
{
    if k == 0 || k > chapter.links@.len() {
        Found { table, failure: None }
    } else {
        let before = chapter_found(
            style,
            table,
            chapter,
            src_dir,
            dest_dir,
            probe,
            targets,
            (k - 1) as nat,
        );
        if before.failure is Some {
            before
        } else {
            link_step(
                style,
                before.table,
                chapter.links@[k - 1]@,
                src_dir,
                dest_dir,
                chapter.path@,
                probe,
                target_at(targets, k - 1),
            )
        }
    }
}

/// What discovery has come to.
pub struct Discovered {
    /// The assets found.
    pub table: Seq<AssetView>,
    /// The chapters whose discovery was given up, by name, each with the
    /// reason.
    pub failures: Seq<(Seq<char>, Failure)>,
}

/// What discovery comes to over the first `n` chapters. A chapter whose
/// discovery fails keeps what was found before the failure, and the walk
/// goes on with the next chapter.
pub open spec fn discovered(
    style: PathStyle,
    chapters: Seq<ChapterLinks>,
    src_dir: Seq<char>,
    dest_dir: Seq<char>,
    chapter_probes: Seq<ChapterProbe>,
    target_probes: Seq<Vec<Option<TargetProbe>>>,
    n: nat,
) -> Discovered
    decreases n,
{
    if n == 0 || n > chapters.len() {
        Discovered {
            table: Seq::<AssetView>::empty(),
            failures: Seq::<(Seq<char>, Failure)>::empty(),
        }
    } else {
        let before = discovered(
            style,
            chapters,
            src_dir,
            dest_dir,
            chapter_probes,
            target_probes,
            (n - 1) as nat,
        );
        let found = chapter_found(
            style,
            before.table,
            chapters[n - 1],
            src_dir,
            dest_dir,
            chapter_probe_at(chapter_probes, n - 1),
            targets_at(target_probes, n - 1),
            chapters[n - 1].links@.len(),
        );
        Discovered {
            table: found.table,
            failures: match found.failure {
                Some(f) => before.failures.push((chapters[n - 1].name@, f)),
                None => before.failures,
            },
        }
    }
}

/// A chapter whose discovery was given up.
#[derive(Debug)]
pub struct ChapterFailure {
    /// The chapter's name.
    pub chapter: String,
    /// Why its discovery was given up.
    pub error: EpubError,
}

/// The outcome of discovery.
#[derive(Debug)]
pub struct Discovery {
    /// The assets found, by link.
    pub assets: AssetTable,
    /// The chapters whose discovery was given up.
    pub failures: Vec<ChapterFailure>,
}

/// Whether the failures are those of the model, in order.
pub open spec fn same_failures(fs: Seq<ChapterFailure>, model: Seq<(Seq<char>, Failure)>) -> bool {
    &&& fs.len() == model.len()
    &&& forall|i: int|
        0 <= i < fs.len() ==> (#[trigger] fs[i]).chapter@ == model[i].0 && failure_of(fs[i].error)
            == Some(model[i].1)
}

/// The probe of the link at `j`, or that nothing was found.
fn target_probe(probes: &Vec<Vec<Option<TargetProbe>>>, i: usize, j: usize) -> (r: TargetProbe)
    ensures
        r@ == target_at(targets_at(probes@, i as int), j as int),
{
    if i < probes.len() {
        let row = &probes[i];
        if j < row.len() {
            match &row[j] {
                Some(p) => {
                    return match p {
                        TargetProbe::Missing(why) => TargetProbe::Missing(why.clone()),
                        TargetProbe::Found { location, is_file, is_symlink } => TargetProbe::Found {
                            location: location.clone(),
                            is_file: *is_file,
                            is_symlink: *is_symlink,
                        },
                    };
                },
                None => {},
            }
        }
    }
    TargetProbe::Missing("not probed".to_owned())
}

/// Find all resources in book and put them into the table. The key is a
/// link, the value is the asset it resolves to: see [`discovered`].
pub fn find(
    style: PathStyle,
    chapters: &Vec<ChapterLinks>,
    src_dir: &str,
    dest_dir: &str,
    chapter_probes: &Vec<ChapterProbe>,
    target_probes: &Vec<Vec<Option<TargetProbe>>>,
) -> (r: Discovery)
    ensures
        r.assets@ == discovered(
            style,
            chapters@,
            src_dir@,
            dest_dir@,
            chapter_probes@,
            target_probes@,
            chapters@.len(),
        ).table,
        same_failures(
            r.failures@,
            discovered(
                style,
                chapters@,
                src_dir@,
                dest_dir@,
                chapter_probes@,
                target_probes@,
                chapters@.len(),
            ).failures,
        ),
{
    let mut assets = AssetTable::new();
    let mut failures: Vec<ChapterFailure> = Vec::new();
    let mut i: usize = 0;
    assert(assets@ =~= Seq::<AssetView>::empty());
    while i < chapters.len()
        invariant
            i <= chapters.len(),
            assets@ == discovered(
                style,
                chapters@,
                src_dir@,
                dest_dir@,
                chapter_probes@,
                target_probes@,
                i as nat,
            ).table,
            same_failures(
                failures@,
                discovered(
                    style,
                    chapters@,
                    src_dir@,
                    dest_dir@,
                    chapter_probes@,
                    target_probes@,
                    i as nat,
                ).failures,
            ),
        decreases chapters.len() - i,
    {
        let ch = &chapters[i];
        let probe = chapter_probe(chapter_probes, i);
        let ghost start = assets@;
        let ghost targets = targets_at(target_probes@, i as int);
        let ghost old_failures = failures@;
        let mut failure: Option<EpubError> = None;
        let mut j: usize = 0;
        while j < ch.links.len() && failure.is_none()
            invariant
                j <= ch.links.len(),
                i < chapters.len(),
                *ch == chapters@[i as int],
                probe == chapter_probe_at(chapter_probes@, i as int),
                targets == targets_at(target_probes@, i as int),
                failure is None ==> chapter_found(
                    style,
                    start,
                    *ch,
                    src_dir@,
                    dest_dir@,
                    probe,
                    targets,
                    j as nat,
                ) == (Found { table: assets@, failure: None }),
                failure is Some ==> failure_of(failure->0) is Some && chapter_found(
                    style,
                    start,
                    *ch,
                    src_dir@,
                    dest_dir@,
                    probe,
                    targets,
                    j as nat,
                ) == (Found { table: assets@, failure: failure_of(failure->0) }),
            decreases ch.links.len() - j + (if failure is None { 1int } else { 0int }),
        {
            let link = ch.links[j].as_str();
            match classify(link) {
                LinkKind::Remote(url) => {
                    let asset = Asset::from_url(style, link, url, dest_dir);
                    assets.insert(asset);
                },
                LinkKind::Local => if !is_foreign_link(link) {
                    let target = target_probe(target_probes, i, j);
                    match Asset::from_local(style, link, src_dir, ch.path.as_str(), probe, &target) {
                        Ok(asset) => {
                            assets.insert_if_vacant(asset);
                        },
                        Err(e) => {
                            match e {
                                EpubError::AssetOutsideSrcDir(_) => {},
                                other => {
                                    failure = Some(other);
                                },
                            }
                        },
                    }
                },
            }
            j = j + 1;
        }
        proof {
            lemma_chapter_found_stops(
                style,
                start,
                *ch,
                src_dir@,
                dest_dir@,
                probe,
                targets,
                j as nat,
                ch.links@.len(),
            );
        }
        match failure {
            Some(e) => {
                failures.push(ChapterFailure { chapter: ch.name.clone(), error: e });
            },
            None => {},
        }
        i = i + 1;
    }
    Discovery { assets, failures }
}

/// Once a chapter's discovery has failed, it stays as it is.
pub proof fn lemma_chapter_found_stops(
    style: PathStyle,
    table: Seq<AssetView>,
    chapter: ChapterLinks,
    src_dir: Seq<char>,
    dest_dir: Seq<char>,
    probe: ChapterProbe,
    targets: Seq<Option<TargetProbe>>,
    j: nat,
    k: nat,
)
    requires
        j <= k <= chapter.links@.len(),
        j < k ==> chapter_found(style, table, chapter, src_dir, dest_dir, probe, targets, j).failure
            is Some,
    ensures
        chapter_found(style, table, chapter, src_dir, dest_dir, probe, targets, k) == chapter_found(
            style,
            table,
            chapter,
            src_dir,
            dest_dir,
            probe,
            targets,
            j,
        ),
    decreases k - j,
{
    if j < k {
        lemma_chapter_found_stops(
            style,
            table,
            chapter,
            src_dir,
            dest_dir,
            probe,
            targets,
            j,
            (k - 1) as nat,
        );
    }
}

} // verus!
