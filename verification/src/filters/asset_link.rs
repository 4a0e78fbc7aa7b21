//! Image links rewritten to the names the assets carry in the container.

use vstd::prelude::*;
use pulldown_cmark::Event;
use crate::asset::{
    asset_root, chapter_dir, climbed, hashed_name, lemma_hashed_name_is_clean, local_asset,
    local_candidate, local_outcome, markers, parsed_url, remote_asset, without_first_prefix,
    Asset, AssetView, ChapterProbe, Failure, TargetView,
};
use crate::html::{
    find_assets_in_nested_html_tags, image_sources, node_views, nodes_of, parsed_nodes,
    string_views, HtmlNode, NodeView,
};
use crate::paths::{
    bare_name, clean_name, climb, has_no_prefix_in_name, joined, lemma_parts_of_joined_name,
    lemma_parts_of_name, lemma_parts_well_formed, lemma_round_trip, lemma_segment_parts_one,
    lemma_segments_append_plain, lemma_segments_append_separator, lemma_segments_of_plain,
    normal_form, normalized, parts, plain, popped, push_climb, rendered, rootless, segment_parts,
    segments, slash_form, stripped, to_slash_form, well_formed, Part, PathStyle,
};
use crate::table::{lookup, AssetTable};
use crate::text::{has_prefix, push_str, replace_all, replaced, same_text, string_of};
use crate::token::{Token, TokenView};

verus! {

/// The path that leads from a chapter `depth` directories below the
/// container's root to the file `path` in the container: the path written
/// with `/`, without a root, after `../` for every level. A bare file name
/// that belongs to no asset is the one exception: it is left alone.
pub open spec fn path_prefix(style: PathStyle, depth: nat, path: Seq<char>, has_asset: bool) -> Seq<
    char,
> {
    if bare_name(style, slash_form(style, path)) && !has_asset {
        slash_form(style, path)
    } else {
        climb(depth) + slash_form(style, path)
    }
}

/// Executable form of [`path_prefix`]; an asset counts only by being there.
pub fn compute_path_prefix(style: PathStyle, depth: usize, path: &str, asset: Option<&Asset>) -> (r:
    String)
    ensures
        r@ == path_prefix(style, depth as nat, path@, asset is Some),
{
    let filename = to_slash_form(style, path);
    if has_no_prefix_in_name(style, filename.as_str()) && asset.is_none() {
        filename
    } else {
        let mut out: Vec<char> = Vec::new();
        push_climb(&mut out, depth);
        push_str(&mut out, filename.as_str());
        assert(out@ =~= climb(depth as nat) + filename@);
        string_of(&out)
    }
}

/// `../` written `depth` times is `3 * depth` chars long, and each stretch
/// of three is `../`.
pub proof fn climb_is_levels(depth: nat)
    ensures
        climb(depth).len() == 3 * depth,
        forall|i: int|
            0 <= i < depth ==> #[trigger] climb(depth).subrange(3 * i, 3 * i + 3) == seq![
                '.',
                '.',
                '/',
            ],
    decreases depth,
{
    if depth > 0 {
        let before = climb((depth - 1) as nat);
        climb_is_levels((depth - 1) as nat);
        assert forall|i: int| 0 <= i < depth implies #[trigger] climb(depth).subrange(
            3 * i,
            3 * i + 3,
        ) == seq!['.', '.', '/'] by {
            if i < depth - 1 {
                assert(climb(depth).subrange(3 * i, 3 * i + 3) =~= before.subrange(
                    3 * i,
                    3 * i + 3,
                ));
            } else {
                assert(climb(depth).subrange(3 * i, 3 * i + 3) =~= seq!['.', '.', '/']);
            }
        }
    }
}

/// A path in the container's own spelling is its own container form:
/// writing it out again changes nothing.
pub proof fn slash_form_is_stable(style: PathStyle, path: Seq<char>)
    ensures
        slash_form(PathStyle::Slash, slash_form(style, path)) == slash_form(style, path),
{
    let ps = parts(style, path);
    let rs = rootless(ps);
    lemma_parts_well_formed(style, path);
    assert(well_formed(PathStyle::Slash, rs)) by {
        assert forall|i: int| 0 <= i < rs.len() implies match #[trigger] rs[i] {
            Part::Root => i == 0,
            Part::Cur => i == 0,
            Part::Parent => true,
            Part::Name(n) => clean_name(PathStyle::Slash, n),
        } by {
            if ps.len() > 0 && ps[0] is Root {
                assert(rs[i] == ps[i + 1]);
                match ps[i + 1] {
                    Part::Name(n) => {
                        assert(clean_name(style, n));
                    },
                    _ => {},
                }
            } else {
                assert(rs[i] == ps[i]);
                match ps[i] {
                    Part::Name(n) => {
                        assert(clean_name(style, n));
                    },
                    _ => {},
                }
            }
        }
    }
    lemma_round_trip(PathStyle::Slash, rs);
    if rs.len() > 0 {
        if ps.len() > 0 && ps[0] is Root {
            assert(rs[0] == ps[1]);
        } else {
            assert(rs[0] == ps[0]);
        }
        assert(!(rs[0] is Root));
    }
}

/// What the prefix does to a file name that belongs to an asset: at depth 0
/// the name, in the container's spelling, stays as it is; at depth `n` it
/// follows exactly `n` times `../`, whatever chars the name holds and
/// whether or not it begins with `..` itself.
pub proof fn path_prefix_prepends_levels(style: PathStyle, depth: nat, path: Seq<char>)
    ensures
        path_prefix(style, 0, path, true) == slash_form(style, path),
        path_prefix(style, depth, path, true) == climb(depth) + slash_form(style, path),
        path_prefix(style, depth, path, true).len() == 3 * depth + slash_form(style, path).len(),
        path_prefix(PathStyle::Slash, 0, slash_form(style, path), true) == slash_form(
            style,
            path,
        ),
{
    climb_is_levels(depth);
    slash_form_is_stable(style, path);
    assert(climb(0) + slash_form(style, path) =~= slash_form(style, path));
}

/// Where an image points once filtered: at the container path of the asset
/// found under its destination, or where it pointed before if the table
/// holds no such asset.
pub open spec fn image_target(table: Seq<AssetView>, depth: nat, dest: Seq<char>) -> Seq<char> {
    match lookup(table, dest) {
        Some(a) => path_prefix(PathStyle::Slash, depth, a.filename, true),
        None => dest,
    }
}

/// One link, seen from chapters at two different depths, is rewritten from
/// the same asset of the table to two different paths: each the asset's
/// container name after as many `../` as the chapter lies deep.
pub proof fn image_target_follows_depth(table: Seq<AssetView>, link: Seq<char>, d1: nat, d2: nat)
    requires
        lookup(table, link) is Some,
        d1 != d2,
    ensures
        image_target(table, d1, link) == climb(d1) + slash_form(
            PathStyle::Slash,
            lookup(table, link)->0.filename,
        ),
        image_target(table, d2, link) == climb(d2) + slash_form(
            PathStyle::Slash,
            lookup(table, link)->0.filename,
        ),
        image_target(table, d1, link) != image_target(table, d2, link),
{
    climb_is_levels(d1);
    climb_is_levels(d2);
    let f = slash_form(PathStyle::Slash, lookup(table, link)->0.filename);
    assert((climb(d1) + f).len() != (climb(d2) + f).len());
}

/// The links without repetitions, each where it first stood.
pub open spec fn without_repeats(links: Seq<Seq<char>>) -> Seq<Seq<char>>
    decreases links.len(),
{
    if links.len() == 0 {
        Seq::<Seq<char>>::empty()
    } else {
        let init = without_repeats(links.drop_last());
        if init.contains(links.last()) {
            init
        } else {
            init.push(links.last())
        }
    }
}

/// The text with every occurrence of each link that the table knows
/// replaced by the asset's container path, one link after the other.
pub open spec fn rewritten(table: Seq<AssetView>, depth: nat, content: Seq<char>, links: Seq<Seq<char>>) -> Seq<
    char,
>
    decreases links.len(),
{
    if links.len() == 0 {
        content
    } else {
        let so_far = rewritten(table, depth, content, links.drop_last());
        match lookup(table, links.last()) {
            Some(a) => replaced(
                so_far,
                links.last(),
                path_prefix(PathStyle::Slash, depth, a.filename, true),
            ),
            None => so_far,
        }
    }
}

/// A fragment of HTML once filtered: left alone if it does not parse,
/// otherwise rewritten for the sources of its images.
pub open spec fn html_rewritten(
    table: Seq<AssetView>,
    depth: nat,
    html: Seq<char>,
    nodes: Option<Seq<NodeView>>,
) -> Seq<char> {
    match nodes {
        Some(ns) => rewritten(table, depth, html, without_repeats(image_sources(ns))),
        None => html,
    }
}

/// A token once filtered: an image points at its asset, raw HTML has the
/// sources of its images rewritten, any other token is unchanged.
pub open spec fn relinked(table: Seq<AssetView>, depth: nat, t: TokenView) -> TokenView {
    match t {
        TokenView::StartImage { dest_url, event } => TokenView::StartImage {
            dest_url: image_target(table, depth, dest_url),
            event,
        },
        TokenView::Html(h) => TokenView::Html(
            html_rewritten(table, depth, h, parsed_nodes(h, "src"@)),
        ),
        TokenView::InlineHtml(h) => TokenView::InlineHtml(
            html_rewritten(table, depth, h, parsed_nodes(h, "src"@)),
        ),
        _ => t,
    }
}

/// Whether `x` is among the strings.
fn holds(list: &Vec<String>, x: &str) -> (r: bool)
    ensures
        r == string_views(list@).contains(x@),
{
    let mut i: usize = 0;
    while i < list.len()
        invariant
            i <= list.len(),
            forall|k: int| 0 <= k < i ==> string_views(list@)[k] != x@,
        decreases list.len() - i,
    {
        if same_text(list[i].as_str(), x) {
            assert(string_views(list@)[i as int] == x@);
            return true;
        }
        i = i + 1;
    }
    false
}

/// The links without repetitions, each where it first stood.
pub fn remove_repeats(links: &Vec<String>) -> (r: Vec<String>)
    ensures
        string_views(r@) == without_repeats(string_views(links@)),
{
    let ghost all = string_views(links@);
    let mut out: Vec<String> = Vec::new();
    let mut i: usize = 0;
    assert(string_views(out@) =~= without_repeats(all.take(0)));
    while i < links.len()
        invariant
            i <= links.len(),
            all == string_views(links@),
            string_views(out@) == without_repeats(all.take(i as int)),
        decreases links.len() - i,
    {
        proof {
            assert(all.take(i + 1).drop_last() =~= all.take(i as int));
            assert(all.take(i + 1).last() == links@[i as int]@);
        }
        let ghost before = string_views(out@);
        if !holds(&out, links[i].as_str()) {
            out.push(links[i].clone());
            assert(string_views(out@) =~= before.push(links@[i as int]@));
        }
        i = i + 1;
    }
    assert(all.take(links.len() as int) =~= all);
    out
}

/// Filter is used for replacing the links of images by the names the assets
/// carry in the container, as seen from a chapter at a given depth.
pub struct AssetRemoteLinkFilter<'a> {
    /// The book's assets, by link.
    pub assets: &'a AssetTable,
    /// How many directories the chapter lies below the container's root.
    pub depth: usize,
}

impl<'a> AssetRemoteLinkFilter<'a> {
    /// A filter for a chapter at `depth`.
    pub fn new(assets: &'a AssetTable, depth: usize) -> (r: Self)
        ensures
            r.assets == assets,
            r.depth == depth,
    {
        Self { assets, depth }
    }

    /// Filters one token: see [`relinked`].
    pub fn apply(&self, token: Token) -> (r: Token)
        ensures
            r@ == relinked(self.assets@, self.depth as nat, token@),
    {
        match token {
            Token::StartImage { dest_url, event } => self.handle_image_tag(dest_url, event),
            Token::Html(html) => Token::Html(self.handle_html(html.as_str())),
            Token::InlineHtml(html) => Token::InlineHtml(self.handle_html(html.as_str())),
            other => other,
        }
    }

    /// The image with its destination replaced by the container path of the
    /// asset found under it; an image that the table does not know is left
    /// as it is.
    pub fn handle_image_tag(&self, dest_url: String, event: Event<'static>) -> (r: Token)
        ensures
            r@ == (TokenView::StartImage {
                dest_url: image_target(self.assets@, self.depth as nat, dest_url@),
                event,
            }),
    {
        match self.assets.get(dest_url.as_str()) {
            Some(asset) => {
                let new = compute_path_prefix(
                    PathStyle::Slash,
                    self.depth,
                    asset.filename.as_str(),
                    Some(asset),
                );
                Token::StartImage { dest_url: new, event }
            },
            None => Token::StartImage { dest_url, event },
        }
    }

    /// The fragment with the sources of its images rewritten, for the tree
    /// that was read out of it before; `None` stands for a fragment that
    /// does not parse.
    pub fn rewrite_html(&self, html: &str, nodes: Option<&Vec<HtmlNode>>) -> (r: String)
        ensures
            r@ == html_rewritten(
                self.assets@,
                self.depth as nat,
                html@,
                match nodes {
                    Some(ns) => Some(node_views(ns@)),
                    None => None,
                },
            ),
    {
        match nodes {
            None => html.to_owned(),
            Some(ns) => {
                let found = find_assets_in_nested_html_tags(ns);
                let links = remove_repeats(&found);
                let ghost all = string_views(links@);
                let mut content: String = html.to_owned();
                let mut i: usize = 0;
                assert(all.take(0) =~= Seq::<Seq<char>>::empty());
                while i < links.len()
                    invariant
                        i <= links.len(),
                        all == string_views(links@),
                        content@ == rewritten(
                            self.assets@,
                            self.depth as nat,
                            html@,
                            all.take(i as int),
                        ),
                    decreases links.len() - i,
                {
                    proof {
                        assert(all.take(i + 1).drop_last() =~= all.take(i as int));
                        assert(all.take(i + 1).last() == links@[i as int]@);
                    }
                    match self.assets.get(links[i].as_str()) {
                        Some(asset) => {
                            let new = compute_path_prefix(
                                PathStyle::Slash,
                                self.depth,
                                asset.filename.as_str(),
                                Some(asset),
                            );
                            content = replace_all(
                                content.as_str(),
                                links[i].as_str(),
                                new.as_str(),
                            );
                        },
                        None => {},
                    }
                    i = i + 1;
                }
                assert(all.take(links.len() as int) =~= all);
                content
            },
        }
    }

    /// The fragment with the sources of its images rewritten: every `img`
    /// in it, nested ones included, whose `src` the table knows.
    pub fn handle_html(&self, html: &str) -> (r: String)
        ensures
            r@ == html_rewritten(
                self.assets@,
                self.depth as nat,
                html@,
                parsed_nodes(html@, "src"@),
            ),
    {
        match nodes_of(html) {
            Some(ns) => self.rewrite_html(html, Some(&ns)),
            None => self.rewrite_html(html, None),
        }
    }
}

/// An image with a remote link, seen from a chapter at the container's
/// root, points at the asset's name in the cache: the hexadecimal hash of
/// the URL with the extension of the URL's path, and no `../` before it.
pub proof fn remote_image_at_the_root_points_at_its_cache_name(
    style: PathStyle,
    table: Seq<AssetView>,
    link: Seq<char>,
    dest_dir: Seq<char>,
)
    requires
        parsed_url(link) is Some,
        lookup(table, link) == Some(remote_asset(style, link, parsed_url(link)->0, dest_dir)),
    ensures
        image_target(table, 0, link) == hashed_name(parsed_url(link)->0),
{
    let name = hashed_name(parsed_url(link)->0);
    lemma_hashed_name_is_clean(parsed_url(link)->0);
    lemma_parts_of_name(PathStyle::Slash, name);
    assert(climb(0) + name =~= name);
}

/// A link of the form `./name` is `name` once normalized, and begins with
/// no marker that would make it climb.
pub proof fn lemma_link_beside_the_chapter(style: PathStyle, name: Seq<char>, root: Seq<char>)
    requires
        clean_name(style, name),
    ensures
        normalized(style, seq!['.', '/'] + name) == name,
        climbed(style, seq!['.', '/'] + name, root) == root,
{
    let link = seq!['.', '/'] + name;
    let dot = seq!['.'];
    let e = Seq::<char>::empty();
    assert(plain(style, dot));
    lemma_segments_of_plain(style, dot);
    lemma_segments_append_separator(style, dot, '/');
    assert(dot.push('/') =~= seq!['.', '/']);
    lemma_segments_append_plain(style, seq!['.', '/'], name);
    let s1 = seq![dot].push(e);
    assert(s1.drop_last() =~= seq![dot]);
    assert(s1.last() + name =~= name);
    let s2 = seq![dot].push(name);
    assert(segments(style, link) == s2);
    assert(s2.drop_last() =~= seq![dot]);
    lemma_segment_parts_one(dot);
    assert(segment_parts(s2) == seq![Part::Cur].push(Part::Name(name)));
    assert(link[0] == '.');
    let ps = parts(style, link);
    assert(ps =~= seq![Part::Cur, Part::Name(name)]);
    assert(normal_form(ps) =~= seq![Part::Name(name)]) by {
        reveal_with_fuel(normal_form, 3);
        assert(ps.drop_last() =~= seq![Part::Cur]);
        assert(seq![Part::Cur].drop_last() =~= Seq::<Part>::empty());
        assert(Seq::<Part>::empty().push(Part::Name(name)) =~= seq![Part::Name(name)]);
    }
    assert(without_first_prefix(link, markers(style)) == link) by {
        reveal_with_fuel(without_first_prefix, 5);
        let ms = markers(style);
        assert(link[1] == '/');
        assert forall|k: int| 0 <= k < ms.len() implies !has_prefix(link, #[trigger] ms[k]) by {
            if has_prefix(link, ms[k]) {
                let m = ms[k];
                assert(link.subrange(0, m.len() as int)[0] == m[0]);
                if m.len() > 1 {
                    assert(link.subrange(0, m.len() as int)[1] == m[1]);
                }
            }
        }
        assert(ms.drop_first()[0] == ms[1]);
        assert(ms.drop_first().drop_first()[0] == ms[2]);
        if style == PathStyle::Backslash {
            assert(ms.drop_first().drop_first().drop_first()[0] == ms[3]);
        }
    }
}

/// An image that links to a file beside its chapter, for a chapter that
/// lies in the book's source directory itself, resolves to an asset named
/// by the file's name alone, and is rewritten to that name: the link
/// `./name`, found as a regular file below the source directory, gives
/// `name`, with no `../` and no directory before it.
pub proof fn local_image_beside_its_chapter_points_at_its_name(
    style: PathStyle,
    table: Seq<AssetView>,
    src_dir: Seq<char>,
    chapter_name: Seq<char>,
    name: Seq<char>,
    location: Seq<char>,
)
    requires
        clean_name(style, chapter_name),
        clean_name(style, name),
        stripped(style, location, src_dir) is Some,
    ensures
        local_outcome(
            style,
            seq!['.', '/'] + name,
            src_dir,
            chapter_name,
            ChapterProbe { exists: true, is_file: true },
            TargetView::Found { location, is_file: true, is_symlink: false },
        ) == Ok::<AssetView, Failure>(local_asset(style, seq!['.', '/'] + name, location, name)),
        local_asset(style, seq!['.', '/'] + name, location, name).filename == name,
        lookup(table, seq!['.', '/'] + name) == Some(
            local_asset(style, seq!['.', '/'] + name, location, name),
        ) ==> image_target(table, 0, seq!['.', '/'] + name) == name,
{
    let link = seq!['.', '/'] + name;
    let probe = ChapterProbe { exists: true, is_file: true };
    let chapter = joined(style, src_dir, chapter_name);
    let source = parts(style, src_dir);
    // the chapter's directory is the source directory
    lemma_parts_of_joined_name(style, src_dir, chapter_name);
    assert(source.push(Part::Name(chapter_name)).drop_last() =~= source);
    let dir = rendered(style, source);
    assert(popped(style, chapter) == dir);
    assert(chapter_dir(style, chapter, probe) == dir);
    // the link does not climb, and names the file
    lemma_link_beside_the_chapter(style, name, dir);
    assert(asset_root(style, link, chapter, probe) == dir);
    let candidate = local_candidate(style, link, src_dir, chapter_name, probe);
    assert(candidate == joined(style, dir, name));
    // so the link's path is the file's name below the source directory
    lemma_parts_of_joined_name(style, dir, name);
    lemma_parts_well_formed(style, src_dir);
    lemma_round_trip(style, source);
    let full = source.push(Part::Name(name));
    assert(parts(style, candidate) == full);
    assert(full.take(source.len() as int) =~= source);
    assert(full.skip(source.len() as int) =~= seq![Part::Name(name)]);
    assert(stripped(style, candidate, src_dir) == Some(name));
    lemma_parts_of_name(style, name);
    // and seen from the root, the image points at that name
    assert(clean_name(PathStyle::Slash, name)) by {
        assert forall|i: int| 0 <= i < name.len() implies !PathStyle::Slash.separates(
            #[trigger] name[i],
        ) by {
            assert(!style.separates(name[i]));
        }
    }
    lemma_parts_of_name(PathStyle::Slash, name);
    assert(climb(0) + name =~= name);
}

} // verus!
