//! Path algebra on text: splitting a path into components, collapsing `.`
//! and `..`, joining, stripping a prefix, and re-basing a file name for a
//! chapter that lies some levels below the container root.
//!
//! Nothing here touches a file system. A path is a string read under a
//! [`PathStyle`]; every operation is defined on the path's components.

use vstd::prelude::*;
use crate::text::{chars_of, push_all, push_str, same_text, string_of, substring};

verus! {

/// The two separator conventions a path text can follow.
#[derive(Clone, Copy, Debug, PartialEq, Eq, Structural)]
pub enum PathStyle {
    /// Only `/` separates components.
    Slash,
    /// Both `\` and `/` separate components; `\` is written on output.
    /// A drive designator is not recognised: `C:` is an ordinary name.
    Backslash,
}

impl PathStyle {
    /// Whether `c` separates components under this convention.
    pub open spec fn separates(self, c: char) -> bool {
        c == '/' || (self == PathStyle::Backslash && c == '\\')
    }

    /// The separator written on output.
    pub open spec fn separator_char(self) -> char {
        if self == PathStyle::Backslash {
            '\\'
        } else {
            '/'
        }
    }

    /// Executable form of [`PathStyle::separates`].
    pub fn is_separator(self, c: char) -> (r: bool)
        ensures
            r == self.separates(c),
    {
        c == '/' || (self == PathStyle::Backslash && c == '\\')
    }

    /// Executable form of [`PathStyle::separator_char`].
    pub fn separator(self) -> (c: char)
        ensures
            c == self.separator_char(),
            self.separates(c),
    {
        if self == PathStyle::Backslash {
            '\\'
        } else {
            '/'
        }
    }
}

/// One component of a path, as a mathematical value.
pub enum Part {
    /// The root: the path began with a separator.
    Root,
    /// A leading `.`.
    Cur,
    /// A `..`.
    Parent,
    /// Any other name.
    Name(Seq<char>),
}

/// One component of a path.
#[derive(Debug, PartialEq, Eq)]
pub enum Component {
    /// The root: the path began with a separator.
    RootDir,
    /// A leading `.`.
    CurDir,
    /// A `..`.
    ParentDir,
    /// Any other name.
    Normal(String),
}

impl View for Component {
    type V = Part;

    open spec fn view(&self) -> Part {
        match self {
            Component::RootDir => Part::Root,
            Component::CurDir => Part::Cur,
            Component::ParentDir => Part::Parent,
            Component::Normal(n) => Part::Name(n@),
        }
    }
}

impl Component {
    /// A copy of this component.
    pub fn duplicate(&self) -> (r: Component)
        ensures
            r@ == self@,
    {
        match self {
            Component::RootDir => Component::RootDir,
            Component::CurDir => Component::CurDir,
            Component::ParentDir => Component::ParentDir,
            Component::Normal(n) => Component::Normal(n.clone()),
        }
    }
}

/// The views of a list of components.
pub open spec fn part_views(cs: Seq<Component>) -> Seq<Part> {
    Seq::new(cs.len(), |i: int| cs[i]@)
}

/// The text between separators, empty pieces included: `a//b` gives `a`,
/// the empty text and `b`. There is always at least one piece.
pub open spec fn segments(style: PathStyle, s: Seq<char>) -> Seq<Seq<char>>
    decreases s.len(),
{
    if s.len() == 0 {
        seq![Seq::<char>::empty()]
    } else {
        let init = segments(style, s.drop_last());
        if style.separates(s.last()) {
            init.push(Seq::<char>::empty())
        } else {
            init.drop_last().push(init.last().push(s.last()))
        }
    }
}

/// What one piece of text contributes: nothing when it is empty or a `.`
/// that does not lead the path, otherwise a component.
pub open spec fn segment_part(seg: Seq<char>, leading: bool) -> Option<Part> {
    if seg.len() == 0 {
        None
    } else if seg == seq!['.'] {
        if leading {
            Some(Part::Cur)
        } else {
            None
        }
    } else if seg == seq!['.', '.'] {
        Some(Part::Parent)
    } else {
        Some(Part::Name(seg))
    }
}

/// The components that a list of pieces spells.
pub open spec fn segment_parts(segs: Seq<Seq<char>>) -> Seq<Part>
    decreases segs.len(),
{
    if segs.len() == 0 {
        Seq::<Part>::empty()
    } else {
        let init = segment_parts(segs.drop_last());
        match segment_part(segs.last(), segs.len() == 1) {
            Some(p) => init.push(p),
            None => init,
        }
    }
}

/// Whether the path begins with a separator.
pub open spec fn rooted(style: PathStyle, s: Seq<char>) -> bool {
    s.len() > 0 && style.separates(s[0])
}

/// The root component of a rooted path, or nothing.
pub open spec fn root_part(style: PathStyle, s: Seq<char>) -> Seq<Part> {
    if rooted(style, s) {
        seq![Part::Root]
    } else {
        Seq::<Part>::empty()
    }
}

/// The components of a path. Repeated separators and a trailing separator
/// count for nothing, and `.` counts only where it leads the path.
pub open spec fn parts(style: PathStyle, s: Seq<char>) -> Seq<Part> {
    root_part(style, s) + segment_parts(segments(style, s))
}

/// How one component is written.
pub open spec fn part_text(style: PathStyle, p: Part) -> Seq<char> {
    match p {
        Part::Root => seq![style.separator_char()],
        Part::Cur => seq!['.'],
        Part::Parent => seq!['.', '.'],
        Part::Name(n) => n,
    }
}

/// The path text that spells the given components: each written out, with
/// one separator between neighbours and none after a root.
pub open spec fn rendered(style: PathStyle, ps: Seq<Part>) -> Seq<char>
    decreases ps.len(),
{
    if ps.len() == 0 {
        Seq::<char>::empty()
    } else if ps.len() == 1 {
        part_text(style, ps[0])
    } else {
        let init = rendered(style, ps.drop_last());
        if ps[ps.len() - 2] is Root {
            init + part_text(style, ps.last())
        } else {
            init + seq![style.separator_char()] + part_text(style, ps.last())
        }
    }
}

/// The components left after `.` is dropped and each `..` has removed the
/// name before it. A `..` with no name before it is dropped without effect,
/// and nothing is ever removed from a root.
pub open spec fn normal_form(ps: Seq<Part>) -> Seq<Part>
    decreases ps.len(),
{
    if ps.len() == 0 {
        Seq::<Part>::empty()
    } else {
        let init = normal_form(ps.drop_last());
        match ps.last() {
            Part::Root => seq![Part::Root],
            Part::Cur => init,
            Part::Parent => if init.len() > 0 && init.last() is Name {
                init.drop_last()
            } else {
                init
            },
            Part::Name(n) => init.push(Part::Name(n)),
        }
    }
}

/// The normal form of a path, as text.
pub open spec fn normalized(style: PathStyle, s: Seq<char>) -> Seq<char> {
    rendered(style, normal_form(parts(style, s)))
}

/// There is always at least one piece of text.
pub proof fn lemma_segments_nonempty(style: PathStyle, s: Seq<char>)
    ensures
        segments(style, s).len() >= 1,
    decreases s.len(),
{
    if s.len() > 0 {
        lemma_segments_nonempty(style, s.drop_last());
    }
}

/// The components of a path.
pub fn components(style: PathStyle, path: &str) -> (r: Vec<Component>)
    ensures
        part_views(r@) == parts(style, path@),
{
    let text = chars_of(path);
    let mut out: Vec<Component> = Vec::new();
    if text.len() > 0 && style.is_separator(text[0]) {
        out.push(Component::RootDir);
    }
    assert(part_views(out@) =~= root_part(style, text@));
    let ghost mut done: Seq<Seq<char>> = Seq::empty();
    let mut first = true;
    let mut start: usize = 0;
    let mut i: usize = 0;
    assert(text@.take(0) =~= Seq::<char>::empty());
    assert(segments(style, text@.take(0)) =~= done.push(text@.subrange(0, 0)));
    assert(part_views(out@) =~= root_part(style, text@) + segment_parts(done));
    while i < text.len()
        invariant
            start <= i <= text.len(),
            first == (done.len() == 0),
            segments(style, text@.take(i as int)) == done.push(
                text@.subrange(start as int, i as int),
            ),
            part_views(out@) == root_part(style, text@) + segment_parts(done),
        decreases text.len() - i,
    {
        proof {
            assert(text@.take(i + 1).drop_last() =~= text@.take(i as int));
            assert(text@.take(i + 1).last() == text@[i as int]);
        }
        if style.is_separator(text[i]) {
            flush(&mut out, &text, start, i, first, Ghost(root_part(style, text@)), Ghost(done));
            proof {
                done = done.push(text@.subrange(start as int, i as int));
                assert(text@.subrange(i + 1, i + 1) =~= Seq::<char>::empty());
            }
            first = false;
            start = i + 1;
        } else {
            proof {
                let cur = text@.subrange(start as int, i as int);
                assert(done.push(cur).drop_last() =~= done);
                assert(cur.push(text@[i as int]) =~= text@.subrange(start as int, i + 1));
            }
        }
        i = i + 1;
    }
    assert(text@.take(text.len() as int) =~= text@);
    flush(&mut out, &text, start, i, first, Ghost(root_part(style, text@)), Ghost(done));
    out
}

/// Appends to `out` what the piece `text[start..end]` contributes.
fn flush(
    out: &mut Vec<Component>,
    text: &Vec<char>,
    start: usize,
    end: usize,
    first: bool,
    Ghost(root): Ghost<Seq<Part>>,
    Ghost(done): Ghost<Seq<Seq<char>>>,
)
    requires
        start <= end <= text.len(),
        first == (done.len() == 0),
        part_views(old(out)@) == root + segment_parts(done),
    ensures
        part_views(final(out)@) == root + segment_parts(
            done.push(text@.subrange(start as int, end as int)),
        ),
{
    let ghost seg = text@.subrange(start as int, end as int);
    proof {
        assert(done.push(seg).drop_last() =~= done);
    }
    let len = end - start;
    if len == 0 {
    } else if len == 1 && text[start] == '.' {
        assert(seg =~= seq!['.']);
        if first {
            out.push(Component::CurDir);
            assert(part_views(out@) =~= (root + segment_parts(done)).push(Part::Cur));
            assert((root + segment_parts(done)).push(Part::Cur) =~= root + segment_parts(
                done,
            ).push(Part::Cur));
        }
    } else if len == 2 && text[start] == '.' && text[start + 1] == '.' {
        assert(seg =~= seq!['.', '.']);
        out.push(Component::ParentDir);
        assert(part_views(out@) =~= (root + segment_parts(done)).push(Part::Parent));
        assert((root + segment_parts(done)).push(Part::Parent) =~= root + segment_parts(
            done,
        ).push(Part::Parent));
    } else {
        proof {
            if seg == seq!['.'] {
                assert(seg.len() == 1 && seg[0] == '.');
            }
            if seg == seq!['.', '.'] {
                assert(seg.len() == 2 && seg[0] == '.' && seg[1] == '.');
            }
        }
        let name = substring(text, start, end);
        out.push(Component::Normal(name));
        assert(part_views(out@) =~= (root + segment_parts(done)).push(Part::Name(seg)));
        assert((root + segment_parts(done)).push(Part::Name(seg)) =~= root + segment_parts(
            done,
        ).push(Part::Name(seg)));
    }
}

/// Appends to `out` how the component is written.
fn push_part(style: PathStyle, out: &mut Vec<char>, c: &Component)
    ensures
        final(out)@ == old(out)@ + part_text(style, c@),
{
    match c {
        Component::RootDir => {
            out.push(style.separator());
            assert(out@ =~= old(out)@ + part_text(style, c@));
        },
        Component::CurDir => {
            out.push('.');
            assert(out@ =~= old(out)@ + part_text(style, c@));
        },
        Component::ParentDir => {
            out.push('.');
            out.push('.');
            assert(out@ =~= old(out)@ + part_text(style, c@));
        },
        Component::Normal(n) => {
            let t = chars_of(n.as_str());
            push_all(out, &t);
        },
    }
}

/// The path text that spells the given components.
pub fn render(style: PathStyle, cs: &Vec<Component>) -> (r: String)
    ensures
        r@ == rendered(style, part_views(cs@)),
{
    let mut out: Vec<char> = Vec::new();
    let mut i: usize = 0;
    let ghost ps = part_views(cs@);
    while i < cs.len()
        invariant
            i <= cs.len(),
            ps == part_views(cs@),
            out@ == rendered(style, ps.take(i as int)),
        decreases cs.len() - i,
    {
        proof {
            assert(ps.take(i + 1).drop_last() =~= ps.take(i as int));
            assert(ps.take(i + 1).last() == cs@[i as int]@);
        }
        if i > 0 {
            let after_root = match &cs[i - 1] {
                Component::RootDir => true,
                _ => false,
            };
            assert(ps.take(i + 1)[i - 1] == cs@[i - 1]@);
            if !after_root {
                out.push(style.separator());
            }
        }
        push_part(style, &mut out, &cs[i]);
        assert(out@ =~= rendered(style, ps.take(i + 1)));
        i = i + 1;
    }
    assert(ps.take(cs.len() as int) =~= ps);
    string_of(&out)
}

/// The normal form of a list of components.
pub fn normalize_components(cs: &Vec<Component>) -> (r: Vec<Component>)
    ensures
        part_views(r@) == normal_form(part_views(cs@)),
{
    let mut out: Vec<Component> = Vec::new();
    let mut i: usize = 0;
    let ghost ps = part_views(cs@);
    assert(part_views(out@) =~= normal_form(ps.take(0)));
    while i < cs.len()
        invariant
            i <= cs.len(),
            ps == part_views(cs@),
            part_views(out@) == normal_form(ps.take(i as int)),
        decreases cs.len() - i,
    {
        proof {
            assert(ps.take(i + 1).drop_last() =~= ps.take(i as int));
            assert(ps.take(i + 1).last() == cs@[i as int]@);
        }
        let ghost before = part_views(out@);
        match &cs[i] {
            Component::RootDir => {
                out = Vec::new();
                out.push(Component::RootDir);
                assert(part_views(out@) =~= seq![Part::Root]);
            },
            Component::CurDir => {},
            Component::ParentDir => {
                let n = out.len();
                if n > 0 {
                    let is_name = match &out[n - 1] {
                        Component::Normal(_) => true,
                        _ => false,
                    };
                    assert(before.last() == out@[n - 1]@);
                    if is_name {
                        out.pop();
                        assert(part_views(out@) =~= before.drop_last());
                    }
                }
            },
            Component::Normal(name) => {
                out.push(Component::Normal(name.clone()));
                assert(part_views(out@) =~= before.push(Part::Name(name@)));
            },
        }
        i = i + 1;
    }
    assert(ps.take(cs.len() as int) =~= ps);
    out
}

/// The path with `.` dropped and each `..` resolved against the name before
/// it, written under the same convention. No file system is consulted.
pub fn normalize_path(style: PathStyle, path: &str) -> (r: String)
    ensures
        r@ == normalized(style, path@),
{
    let cs = components(style, path);
    let nf = normalize_components(&cs);
    render(style, &nf)
}


/// `rel` placed under `base`: a rooted `rel` stands alone; otherwise it
/// follows `base`, after one separator unless `base` is empty or ends in one.
pub open spec fn joined(style: PathStyle, base: Seq<char>, rel: Seq<char>) -> Seq<char> {
    if rooted(style, rel) {
        rel
    } else if base.len() == 0 || style.separates(base.last()) {
        base + rel
    } else {
        base + seq![style.separator_char()] + rel
    }
}

/// Executable form of [`joined`].
pub fn join(style: PathStyle, base: &str, rel: &str) -> (r: String)
    ensures
        r@ == joined(style, base@, rel@),
{
    let b = chars_of(base);
    let t = chars_of(rel);
    if t.len() > 0 && style.is_separator(t[0]) {
        return string_of(&t);
    }
    let mut out: Vec<char> = Vec::new();
    push_all(&mut out, &b);
    assert(out@ =~= b@);
    if b.len() > 0 && !style.is_separator(b[b.len() - 1]) {
        out.push(style.separator());
    }
    push_all(&mut out, &t);
    assert(out@ =~= joined(style, base@, rel@));
    string_of(&out)
}

/// The components of the directory that holds the last component, if the
/// path has one: neither an empty path nor a bare root does.
pub open spec fn parent_parts(ps: Seq<Part>) -> Option<Seq<Part>> {
    if ps.len() == 0 || ps.last() is Root {
        None
    } else {
        Some(ps.drop_last())
    }
}

/// The path without its last component, where it has a parent.
pub open spec fn parent_of(style: PathStyle, s: Seq<char>) -> Option<Seq<char>> {
    match parent_parts(parts(style, s)) {
        Some(ps) => Some(rendered(style, ps)),
        None => None,
    }
}

/// Executable form of [`parent_of`].
pub fn parent(style: PathStyle, path: &str) -> (r: Option<String>)
    ensures
        r is Some == parent_of(style, path@) is Some,
        r is Some ==> r->0@ == parent_of(style, path@)->0,
{
    let mut cs = components(style, path);
    let ghost ps = part_views(cs@);
    let n = cs.len();
    if n == 0 {
        return None;
    }
    let at_root = match &cs[n - 1] {
        Component::RootDir => true,
        _ => false,
    };
    assert(ps.last() == cs@[n - 1]@);
    if at_root {
        return None;
    }
    cs.pop();
    assert(part_views(cs@) =~= ps.drop_last());
    Some(render(style, &cs))
}

/// The path with its last component removed; a path without a parent is
/// left as it is.
pub open spec fn popped(style: PathStyle, s: Seq<char>) -> Seq<char> {
    match parent_of(style, s) {
        Some(p) => p,
        None => s,
    }
}

/// Executable form of [`popped`].
pub fn pop(style: PathStyle, path: &str) -> (r: String)
    ensures
        r@ == popped(style, path@),
{
    match parent(style, path) {
        Some(p) => p,
        None => path.to_owned(),
    }
}

/// Whether the two components are the same.
pub fn same_component(a: &Component, b: &Component) -> (r: bool)
    ensures
        r == (a@ == b@),
{
    match (a, b) {
        (Component::RootDir, Component::RootDir) => true,
        (Component::CurDir, Component::CurDir) => true,
        (Component::ParentDir, Component::ParentDir) => true,
        (Component::Normal(x), Component::Normal(y)) => same_text(x.as_str(), y.as_str()),
        _ => false,
    }
}

/// Copies of the components `cs[from..to]`.
fn copy_range(cs: &Vec<Component>, from: usize, to: usize) -> (r: Vec<Component>)
    requires
        from <= to <= cs.len(),
    ensures
        part_views(r@) == part_views(cs@).subrange(from as int, to as int),
{
    let ghost ps = part_views(cs@);
    let mut rest: Vec<Component> = Vec::new();
    let mut j: usize = from;
    assert(part_views(rest@) =~= ps.subrange(from as int, j as int));
    while j < to
        invariant
            from <= j <= to <= cs.len(),
            ps == part_views(cs@),
            part_views(rest@) == ps.subrange(from as int, j as int),
        decreases to - j,
    {
        let ghost before = part_views(rest@);
        rest.push(cs[j].duplicate());
        assert(ps[j as int] == cs@[j as int]@);
        assert(part_views(rest@) =~= before.push(ps[j as int]));
        assert(before.push(ps[j as int]) =~= ps.subrange(from as int, j + 1));
        j = j + 1;
    }
    rest
}

/// Whether `a` is an initial stretch of `b`.
pub open spec fn begins(b: Seq<Part>, a: Seq<Part>) -> bool {
    a.len() <= b.len() && b.take(a.len() as int) == a
}

/// What is left of the path below `base`, if the components of `base` lead
/// those of the path.
pub open spec fn stripped(style: PathStyle, s: Seq<char>, base: Seq<char>) -> Option<Seq<char>> {
    if begins(parts(style, s), parts(style, base)) {
        Some(rendered(style, parts(style, s).skip(parts(style, base).len() as int)))
    } else {
        None
    }
}

/// Executable form of [`stripped`].
pub fn strip_prefix(style: PathStyle, path: &str, base: &str) -> (r: Option<String>)
    ensures
        r is Some == stripped(style, path@, base@) is Some,
        r is Some ==> r->0@ == stripped(style, path@, base@)->0,
{
    let cs = components(style, path);
    let bs = components(style, base);
    let ghost ps = part_views(cs@);
    let ghost qs = part_views(bs@);
    if bs.len() > cs.len() {
        return None;
    }
    let mut i: usize = 0;
    while i < bs.len()
        invariant
            i <= bs.len() <= cs.len(),
            ps == part_views(cs@),
            qs == part_views(bs@),
            ps == parts(style, path@),
            qs == parts(style, base@),
            ps.take(i as int) == qs.take(i as int),
        decreases bs.len() - i,
    {
        assert(ps[i as int] == cs@[i as int]@);
        assert(qs[i as int] == bs@[i as int]@);
        if !same_component(&cs[i], &bs[i]) {
            assert(ps.take(qs.len() as int)[i as int] != qs[i as int]);
            return None;
        }
        assert(ps.take(i + 1) =~= ps.take(i as int).push(ps[i as int]));
        assert(qs.take(i + 1) =~= qs.take(i as int).push(qs[i as int]));
        i = i + 1;
    }
    assert(qs.take(bs.len() as int) =~= qs);
    assert(qs.len() == bs.len() && ps.len() == cs.len());
    let rest = copy_range(&cs, bs.len(), cs.len());
    assert(ps.subrange(bs.len() as int, cs.len() as int) =~= ps.skip(bs.len() as int));
    Some(render(style, &rest))
}

/// The last component, where it is a name.
pub open spec fn file_name_of(ps: Seq<Part>) -> Option<Seq<char>> {
    if ps.len() == 0 {
        None
    } else {
        match ps.last() {
            Part::Name(n) => Some(n),
            _ => None,
        }
    }
}

/// Where the last `.` of `n` stands, or -1.
pub open spec fn last_dot(n: Seq<char>) -> int
    decreases n.len(),
{
    if n.len() == 0 {
        -1
    } else if n.last() == '.' {
        n.len() - 1
    } else {
        last_dot(n.drop_last())
    }
}

/// What follows the last `.` of a file name. A name without a `.`, or with
/// its only `.` in front, has no extension.
pub open spec fn extension_of_name(n: Seq<char>) -> Option<Seq<char>> {
    if last_dot(n) <= 0 {
        None
    } else {
        Some(n.skip(last_dot(n) + 1))
    }
}

/// The file name without its extension and the `.` before it.
pub open spec fn stem_of_name(n: Seq<char>) -> Seq<char> {
    if last_dot(n) <= 0 {
        n
    } else {
        n.take(last_dot(n))
    }
}

/// The extension of the path's file name.
pub open spec fn extension_of(style: PathStyle, s: Seq<char>) -> Option<Seq<char>> {
    match file_name_of(parts(style, s)) {
        Some(n) => extension_of_name(n),
        None => None,
    }
}

/// Where the last `.` of `n` stands, if it has one.
fn find_last_dot(n: &Vec<char>) -> (r: Option<usize>)
    ensures
        match r {
            Some(d) => d == last_dot(n@) && d < n.len(),
            None => last_dot(n@) == -1,
        },
{
    let mut i: usize = n.len();
    assert(n@.take(n.len() as int) =~= n@);
    while i > 0
        invariant
            i <= n.len(),
            last_dot(n@) == last_dot(n@.take(i as int)),
        decreases i,
    {
        assert(n@.take(i as int).last() == n@[i - 1]);
        assert(n@.take(i as int).drop_last() =~= n@.take(i - 1));
        if n[i - 1] == '.' {
            return Some(i - 1);
        }
        i = i - 1;
    }
    None
}

/// The extension of the path's file name, if it has one.
pub fn extension(style: PathStyle, path: &str) -> (r: Option<String>)
    ensures
        r is Some == extension_of(style, path@) is Some,
        r is Some ==> r->0@ == extension_of(style, path@)->0,
{
    let cs = components(style, path);
    let n = cs.len();
    if n == 0 {
        return None;
    }
    assert(part_views(cs@).last() == cs@[n - 1]@);
    match &cs[n - 1] {
        Component::Normal(name) => {
            let t = chars_of(name.as_str());
            match find_last_dot(&t) {
                Some(d) => {
                    if d == 0 {
                        None
                    } else {
                        let e = substring(&t, d + 1, t.len());
                        assert(t@.subrange(d + 1, t.len() as int) =~= t@.skip(d + 1));
                        Some(e)
                    }
                },
                None => None,
            }
        },
        _ => None,
    }
}

/// The new file name when the extension of `n` is replaced by `ext`; an
/// empty `ext` leaves the stem alone.
pub open spec fn renamed(n: Seq<char>, ext: Seq<char>) -> Seq<char> {
    if ext.len() == 0 {
        stem_of_name(n)
    } else {
        stem_of_name(n) + seq!['.'] + ext
    }
}

/// The path with the extension of its file name replaced by `ext`. A path
/// without a file name is left as it is.
pub open spec fn extended(style: PathStyle, s: Seq<char>, ext: Seq<char>) -> Seq<char> {
    match file_name_of(parts(style, s)) {
        Some(n) => rendered(
            style,
            parts(style, s).drop_last().push(Part::Name(renamed(n, ext))),
        ),
        None => s,
    }
}

/// Executable form of [`extended`].
pub fn with_extension(style: PathStyle, path: &str, ext: &str) -> (r: String)
    ensures
        r@ == extended(style, path@, ext@),
{
    let mut cs = components(style, path);
    let ghost ps = part_views(cs@);
    let n = cs.len();
    if n == 0 {
        return path.to_owned();
    }
    assert(ps.last() == cs@[n - 1]@);
    let last = cs.pop().unwrap();
    assert(part_views(cs@) =~= ps.drop_last());
    match last {
        Component::Normal(name) => {
            let t = chars_of(name.as_str());
            let stem_end = match find_last_dot(&t) {
                Some(d) => if d == 0 {
                    t.len()
                } else {
                    d
                },
                None => t.len(),
            };
            let mut out: Vec<char> = Vec::new();
            let mut i: usize = 0;
            while i < stem_end
                invariant
                    i <= stem_end <= t.len(),
                    out@ == t@.take(i as int),
                decreases stem_end - i,
            {
                out.push(t[i]);
                i = i + 1;
            }
            assert(t@.take(t.len() as int) =~= t@);
            assert(out@ == stem_of_name(t@));
            let e = chars_of(ext);
            if e.len() > 0 {
                out.push('.');
                push_all(&mut out, &e);
            }
            assert(out@ =~= renamed(t@, ext@));
            cs.push(Component::Normal(string_of(&out)));
            assert(part_views(cs@) =~= ps.drop_last().push(Part::Name(renamed(t@, ext@))));
            render(style, &cs)
        },
        _ => path.to_owned(),
    }
}

/// How many components the path has.
pub fn component_count(style: PathStyle, path: &str) -> (r: usize)
    ensures
        r == parts(style, path@).len(),
{
    let cs = components(style, path);
    assert(part_views(cs@).len() == cs@.len());
    cs.len()
}

/// Whether the path's last component is the name `name`.
pub open spec fn named(style: PathStyle, s: Seq<char>, name: Seq<char>) -> bool {
    file_name_of(parts(style, s)) == Some(name)
}

/// Executable form of [`named`].
pub fn ends_with_name(style: PathStyle, path: &str, name: &str) -> (r: bool)
    ensures
        r == named(style, path@, name@),
{
    let cs = components(style, path);
    let n = cs.len();
    if n == 0 {
        return false;
    }
    assert(part_views(cs@).last() == cs@[n - 1]@);
    match &cs[n - 1] {
        Component::Normal(x) => same_text(x.as_str(), name),
        _ => false,
    }
}

/// Whether the path is a single name, with nothing before it.
pub open spec fn bare_name(style: PathStyle, s: Seq<char>) -> bool {
    parts(style, s).len() == 1 && parts(style, s)[0] is Name
}

/// Whether the path is a file name alone: one component, and that a name.
/// A leading `.`, `..` or separator each count as a prefix.
pub fn has_no_prefix_in_name(style: PathStyle, path: &str) -> (r: bool)
    ensures
        r == bare_name(style, path@),
{
    let cs = components(style, path);
    assert(part_views(cs@).len() == cs@.len());
    if cs.len() != 1 {
        return false;
    }
    assert(part_views(cs@)[0] == cs@[0]@);
    match &cs[0] {
        Component::Normal(_) => true,
        _ => false,
    }
}

/// The components without a leading root.
pub open spec fn rootless(ps: Seq<Part>) -> Seq<Part> {
    if ps.len() > 0 && ps[0] is Root {
        ps.drop_first()
    } else {
        ps
    }
}

/// The path as it is written inside the container: its components, the
/// root left out, with `/` between them.
pub open spec fn slash_form(style: PathStyle, s: Seq<char>) -> Seq<char> {
    rendered(PathStyle::Slash, rootless(parts(style, s)))
}

/// Executable form of [`slash_form`].
pub fn to_slash_form(style: PathStyle, path: &str) -> (r: String)
    ensures
        r@ == slash_form(style, path@),
{
    let cs = components(style, path);
    let ghost ps = part_views(cs@);
    let mut j: usize = 0;
    if cs.len() > 0 {
        assert(ps[0] == cs@[0]@);
        match &cs[0] {
            Component::RootDir => {
                j = 1;
            },
            _ => {},
        }
    }
    assert(ps.len() == cs.len());
    let rest = copy_range(&cs, j, cs.len());
    proof {
        if j == 0 {
            assert(ps.subrange(0, cs.len() as int) =~= ps);
        } else {
            assert(ps.subrange(1, cs.len() as int) =~= ps.drop_first());
        }
    }
    render(PathStyle::Slash, &rest)
}

/// `../` written `depth` times.
pub open spec fn climb(depth: nat) -> Seq<char>
    decreases depth,
{
    if depth == 0 {
        Seq::<char>::empty()
    } else {
        climb((depth - 1) as nat) + seq!['.', '.', '/']
    }
}

/// Appends `../` to `out`, `depth` times.
pub fn push_climb(out: &mut Vec<char>, depth: usize)
    ensures
        final(out)@ == old(out)@ + climb(depth as nat),
{
    let mut i: usize = 0;
    assert(out@ =~= old(out)@ + climb(0));
    while i < depth
        invariant
            i <= depth,
            out@ == old(out)@ + climb(i as nat),
        decreases depth - i,
    {
        let ghost before = out@;
        push_str(out, "../");
        proof {
            reveal_strlit("../");
            assert("../"@ =~= seq!['.', '.', '/']);
            assert(before + seq!['.', '.', '/'] =~= old(out)@ + climb((i + 1) as nat));
        }
        i = i + 1;
    }
}

/// Whether no char of `t` is a separator.
pub open spec fn plain(style: PathStyle, t: Seq<char>) -> bool {
    forall|i: int| 0 <= i < t.len() ==> !style.separates(#[trigger] t[i])
}

/// Whether `n` can stand as a name: not empty, neither `.` nor `..`, and
/// free of separators.
pub open spec fn clean_name(style: PathStyle, n: Seq<char>) -> bool {
    &&& n.len() > 0
    &&& n != seq!['.']
    &&& n != seq!['.', '.']
    &&& plain(style, n)
}

/// Whether the components can be those of a path: a root or a `.` only in
/// first place, and every name clean.
pub open spec fn well_formed(style: PathStyle, ps: Seq<Part>) -> bool {
    forall|i: int|
        0 <= i < ps.len() ==> match #[trigger] ps[i] {
            Part::Root => i == 0,
            Part::Cur => i == 0,
            Part::Parent => true,
            Part::Name(n) => clean_name(style, n),
        }
}

/// Whether the components are in normal form: names only, after at most a
/// root.
pub open spec fn settled(style: PathStyle, ps: Seq<Part>) -> bool {
    forall|i: int|
        0 <= i < ps.len() ==> match #[trigger] ps[i] {
            Part::Root => i == 0,
            Part::Cur => false,
            Part::Parent => false,
            Part::Name(n) => clean_name(style, n),
        }
}

/// Text without separators, appended to a path, lengthens the last piece.
pub proof fn lemma_segments_append_plain(style: PathStyle, x: Seq<char>, t: Seq<char>)
    requires
        plain(style, t),
    ensures
        segments(style, x + t) == segments(style, x).drop_last().push(
            segments(style, x).last() + t,
        ),
    decreases t.len(),
{
    let sx = segments(style, x);
    lemma_segments_nonempty(style, x);
    if t.len() == 0 {
        assert(x + t =~= x);
        assert(sx.last() + t =~= sx.last());
        assert(sx.drop_last().push(sx.last()) =~= sx);
    } else {
        let t0 = t.drop_last();
        assert(plain(style, t0)) by {
            assert forall|i: int| 0 <= i < t0.len() implies !style.separates(#[trigger] t0[i]) by {
                assert(t0[i] == t[i]);
            }
        }
        lemma_segments_append_plain(style, x, t0);
        assert((x + t).drop_last() =~= x + t0);
        assert((x + t).last() == t.last());
        assert(!style.separates(t[t.len() - 1]));
        let mid = sx.drop_last().push(sx.last() + t0);
        assert(mid.drop_last() =~= sx.drop_last());
        assert(mid.last().push(t.last()) =~= sx.last() + t);
    }
}

/// A separator appended to a path opens a new, empty piece.
pub proof fn lemma_segments_append_separator(style: PathStyle, x: Seq<char>, c: char)
    requires
        style.separates(c),
    ensures
        segments(style, x.push(c)) == segments(style, x).push(Seq::<char>::empty()),
{
    assert(x.push(c).drop_last() =~= x);
}

/// No piece of text holds a separator.
pub proof fn lemma_segments_plain(style: PathStyle, s: Seq<char>)
    ensures
        forall|k: int| 0 <= k < segments(style, s).len() ==> plain(style, #[trigger] segments(style, s)[k]),
    decreases s.len(),
{
    if s.len() > 0 {
        lemma_segments_plain(style, s.drop_last());
        lemma_segments_nonempty(style, s.drop_last());
    }
}

/// A rooted path has an empty first piece and at least two pieces.
pub proof fn lemma_segments_rooted(style: PathStyle, s: Seq<char>)
    requires
        rooted(style, s),
    ensures
        segments(style, s).len() >= 2,
        segments(style, s)[0].len() == 0,
    decreases s.len(),
{
    if s.len() == 1 {
        assert(s.drop_last() =~= Seq::<char>::empty());
        assert(s.last() == s[0]);
    } else {
        assert(s.drop_last()[0] == s[0]);
        lemma_segments_rooted(style, s.drop_last());
    }
}

/// What a list of separator-free pieces spells: never a root, clean names,
/// and a `.` only from a first piece that is `.`.
pub proof fn lemma_segment_parts_shape(style: PathStyle, segs: Seq<Seq<char>>)
    requires
        forall|k: int| 0 <= k < segs.len() ==> plain(style, #[trigger] segs[k]),
    ensures
        well_formed(style, segment_parts(segs)),
        forall|i: int|
            0 <= i < segment_parts(segs).len() ==> !(#[trigger] segment_parts(segs)[i] is Root),
        forall|i: int|
            0 <= i < segment_parts(segs).len() && #[trigger] segment_parts(segs)[i] is Cur
                ==> segs.len() > 0 && segs[0] == seq!['.'],
    decreases segs.len(),
{
    if segs.len() > 0 {
        let front = segs.drop_last();
        assert forall|k: int| 0 <= k < front.len() implies plain(style, #[trigger] front[k]) by {
            assert(front[k] == segs[k]);
        }
        lemma_segment_parts_shape(style, front);
        if segs.len() == 1 {
            assert(front =~= Seq::<Seq<char>>::empty());
        } else {
            assert(front[0] == segs[0]);
        }
    }
}

/// The components of any path are well formed.
pub proof fn lemma_parts_well_formed(style: PathStyle, s: Seq<char>)
    ensures
        well_formed(style, parts(style, s)),
{
    let segs = segments(style, s);
    lemma_segments_plain(style, s);
    lemma_segment_parts_shape(style, segs);
    let sp = segment_parts(segs);
    let ps = parts(style, s);
    if rooted(style, s) {
        lemma_segments_rooted(style, s);
        assert forall|i: int| 0 <= i < ps.len() implies match #[trigger] ps[i] {
            Part::Root => i == 0,
            Part::Cur => i == 0,
            Part::Parent => true,
            Part::Name(n) => clean_name(style, n),
        } by {
            if i > 0 {
                assert(ps[i] == sp[i - 1]);
                if sp[i - 1] is Cur {
                    assert(segs[0] == seq!['.']);
                    assert(seq!['.'].len() == 1);
                }
            }
        }
    } else {
        assert(ps =~= sp);
    }
}

/// A well-formed, non-empty list is written as non-empty text that begins
/// as its first component does.
pub proof fn lemma_rendered_head(style: PathStyle, ps: Seq<Part>)
    requires
        well_formed(style, ps),
        ps.len() > 0,
    ensures
        rendered(style, ps).len() > 0,
        part_text(style, ps[0]).len() > 0,
        rendered(style, ps)[0] == part_text(style, ps[0])[0],
        rooted(style, rendered(style, ps)) == (ps[0] is Root),
    decreases ps.len(),
{
    let head = part_text(style, ps[0]);
    match ps[0] {
        Part::Root => {},
        Part::Cur => {},
        Part::Parent => {},
        Part::Name(n) => {
            assert(clean_name(style, n));
            assert(!style.separates(n[0]));
        },
    }
    if ps.len() > 1 {
        let front = ps.drop_last();
        assert(well_formed(style, front)) by {
            assert forall|i: int| 0 <= i < front.len() implies match #[trigger] front[i] {
                Part::Root => i == 0,
                Part::Cur => i == 0,
                Part::Parent => true,
                Part::Name(n) => clean_name(style, n),
            } by {
                assert(front[i] == ps[i]);
            }
        }
        assert(front[0] == ps[0]);
        lemma_rendered_head(style, front);
    }
}

/// The components spelled by a single piece of text.
pub proof fn lemma_segment_parts_one(t: Seq<char>)
    ensures
        segment_parts(seq![t]) == match segment_part(t, true) {
            Some(p) => seq![p],
            None => Seq::<Part>::empty(),
        },
{
    reveal_with_fuel(segment_parts, 2);
    assert(seq![t].drop_last() =~= Seq::<Seq<char>>::empty());
    assert(Seq::<Part>::empty().push(Part::Cur) =~= seq![Part::Cur]);
    assert(Seq::<Part>::empty().push(Part::Parent) =~= seq![Part::Parent]);
    assert(Seq::<Part>::empty().push(Part::Name(t)) =~= seq![Part::Name(t)]);
}

/// The components spelled by an empty piece followed by one more.
pub proof fn lemma_segment_parts_two(t: Seq<char>)
    ensures
        segment_parts(seq![Seq::<char>::empty(), t]) == match segment_part(t, false) {
            Some(p) => seq![p],
            None => Seq::<Part>::empty(),
        },
{
    let e = Seq::<char>::empty();
    lemma_segment_parts_one(e);
    assert(seq![e, t].drop_last() =~= seq![e]);
    assert(Seq::<Part>::empty().push(Part::Parent) =~= seq![Part::Parent]);
    assert(Seq::<Part>::empty().push(Part::Name(t)) =~= seq![Part::Name(t)]);
}

/// Separator-free text is a single piece.
pub proof fn lemma_segments_of_plain(style: PathStyle, t: Seq<char>)
    requires
        plain(style, t),
    ensures
        segments(style, t) == seq![t],
{
    let e = Seq::<char>::empty();
    lemma_segments_append_plain(style, e, t);
    assert(e + t =~= t);
    assert(segments(style, e) =~= seq![e]);
    assert(seq![e].drop_last().push(seq![e].last() + t) =~= seq![t]);
}

/// A lone separator is an empty piece on each side.
pub proof fn lemma_segments_of_separator(style: PathStyle, c: char)
    requires
        style.separates(c),
    ensures
        segments(style, seq![c]) == seq![Seq::<char>::empty(), Seq::<char>::empty()],
{
    let e = Seq::<char>::empty();
    lemma_segments_append_separator(style, e, c);
    assert(e.push(c) =~= seq![c]);
    assert(segments(style, e) =~= seq![e]);
    assert(seq![e].push(e) =~= seq![e, e]);
}

/// Writing well-formed components and reading the text back gives the same
/// components.
pub proof fn lemma_round_trip(style: PathStyle, ps: Seq<Part>)
    requires
        well_formed(style, ps),
    ensures
        parts(style, rendered(style, ps)) == ps,
    decreases ps.len(),
{
    let r = rendered(style, ps);
    let e = Seq::<char>::empty();
    if ps.len() == 0 {
        lemma_segment_parts_one(e);
        assert(segments(style, r) =~= seq![e]);
        assert(parts(style, r) =~= ps);
    } else if ps.len() == 1 {
        let t = part_text(style, ps[0]);
        match ps[0] {
            Part::Root => {
                lemma_segments_of_separator(style, style.separator_char());
                lemma_segment_parts_two(e);
                assert(parts(style, r) =~= ps);
            },
            _ => {
                assert(plain(style, t)) by {
                    match ps[0] {
                        Part::Name(n) => {
                            assert(clean_name(style, n));
                        },
                        _ => {},
                    }
                }
                lemma_segments_of_plain(style, t);
                lemma_segment_parts_one(t);
                lemma_rendered_head(style, ps);
                match ps[0] {
                    Part::Name(n) => {
                        assert(clean_name(style, n));
                    },
                    Part::Parent => {
                        assert(t != seq!['.']) by {
                            assert(t.len() == 2);
                            assert(seq!['.'].len() == 1);
                        }
                    },
                    _ => {},
                }
                assert(segment_part(t, true) == Some(ps[0]));
                assert(parts(style, r) =~= ps);
            },
        }
    } else {
        let front = ps.drop_last();
        let last = ps.last();
        let t = part_text(style, last);
        assert(well_formed(style, front)) by {
            assert forall|i: int| 0 <= i < front.len() implies match #[trigger] front[i] {
                Part::Root => i == 0,
                Part::Cur => i == 0,
                Part::Parent => true,
                Part::Name(n) => clean_name(style, n),
            } by {
                assert(front[i] == ps[i]);
            }
        }
        lemma_round_trip(style, front);
        lemma_rendered_head(style, front);
        lemma_rendered_head(style, ps);
        let rf = rendered(style, front);
        let sf = segments(style, rf);
        lemma_segments_nonempty(style, rf);
        assert(ps[ps.len() - 1] == last);
        assert(!(last is Root) && !(last is Cur));
        assert(plain(style, t) && t.len() > 0 && t != seq!['.']) by {
            match last {
                Part::Name(n) => {
                    assert(clean_name(style, n));
                },
                Part::Parent => {
                    assert(t.len() == 2);
                    assert(seq!['.'].len() == 1);
                },
                _ => {},
            }
        }
        assert(segment_part(t, false) == Some(last)) by {
            match last {
                Part::Name(n) => {
                    assert(clean_name(style, n));
                },
                _ => {},
            }
        }
        assert(front[0] == ps[0]);
        if ps[ps.len() - 2] is Root {
            assert(ps.len() == 2);
            assert(front.len() == 1);
            assert(rf =~= seq![style.separator_char()]);
            assert(r == rf + t);
            lemma_segments_append_plain(style, rf, t);
            lemma_segments_of_separator(style, style.separator_char());
            assert(sf.drop_last().push(sf.last() + t) =~= seq![e, t]);
            lemma_segment_parts_two(t);
            assert(ps =~= seq![Part::Root, last]);
            assert(parts(style, r) =~= ps);
        } else {
            let sep = style.separator_char();
            assert(r == rf + seq![sep] + t);
            assert(rf + seq![sep] =~= rf.push(sep));
            lemma_segments_append_separator(style, rf, sep);
            lemma_segments_append_plain(style, rf.push(sep), t);
            let s1 = sf.push(e);
            assert(s1.drop_last() =~= sf);
            assert(s1.last() + t =~= t);
            let s2 = sf.push(t);
            assert(segments(style, r) == s2);
            assert(s2.drop_last() =~= sf);
            assert(segment_parts(s2) == segment_parts(sf).push(last));
            assert(rooted(style, r) == rooted(style, rf)) by {
                assert(r[0] == rf[0]);
            }
            assert(parts(style, r) =~= (root_part(style, rf) + segment_parts(sf)).push(last));
            assert(front.push(last) =~= ps);
        }
    }
}

/// The normal form of well-formed components is settled.
pub proof fn lemma_normal_form_settled(style: PathStyle, ps: Seq<Part>)
    requires
        well_formed(style, ps),
    ensures
        settled(style, normal_form(ps)),
    decreases ps.len(),
{
    if ps.len() > 0 {
        let front = ps.drop_last();
        assert(well_formed(style, front)) by {
            assert forall|i: int| 0 <= i < front.len() implies match #[trigger] front[i] {
                Part::Root => i == 0,
                Part::Cur => i == 0,
                Part::Parent => true,
                Part::Name(n) => clean_name(style, n),
            } by {
                assert(front[i] == ps[i]);
            }
        }
        lemma_normal_form_settled(style, front);
        let init = normal_form(front);
        let nf = normal_form(ps);
        assert(ps[ps.len() - 1] == ps.last());
        match ps.last() {
            Part::Root => {
                assert(ps.len() == 1);
            },
            Part::Cur => {},
            Part::Parent => {
                if init.len() > 0 && init.last() is Name {
                    assert forall|i: int| 0 <= i < nf.len() implies match #[trigger] nf[i] {
                        Part::Root => i == 0,
                        Part::Cur => false,
                        Part::Parent => false,
                        Part::Name(n) => clean_name(style, n),
                    } by {
                        assert(nf[i] == init[i]);
                    }
                }
            },
            Part::Name(n) => {
                lemma_normal_form_rootless(front);
                assert forall|i: int| 0 <= i < nf.len() implies match #[trigger] nf[i] {
                    Part::Root => i == 0,
                    Part::Cur => false,
                    Part::Parent => false,
                    Part::Name(n) => clean_name(style, n),
                } by {
                    if i < init.len() {
                        assert(nf[i] == init[i]);
                    }
                }
            },
        }
    }
}

/// A root is never found past the first place of a normal form.
pub proof fn lemma_normal_form_rootless(ps: Seq<Part>)
    ensures
        forall|i: int| 0 < i < normal_form(ps).len() ==> !(#[trigger] normal_form(ps)[i] is Root),
    decreases ps.len(),
{
    if ps.len() > 0 {
        lemma_normal_form_rootless(ps.drop_last());
    }
}

/// Settled components are their own normal form.
pub proof fn lemma_normal_form_fixed(style: PathStyle, ps: Seq<Part>)
    requires
        settled(style, ps),
    ensures
        normal_form(ps) == ps,
    decreases ps.len(),
{
    if ps.len() > 0 {
        let front = ps.drop_last();
        assert(settled(style, front)) by {
            assert forall|i: int| 0 <= i < front.len() implies match #[trigger] front[i] {
                Part::Root => i == 0,
                Part::Cur => false,
                Part::Parent => false,
                Part::Name(n) => clean_name(style, n),
            } by {
                assert(front[i] == ps[i]);
            }
        }
        lemma_normal_form_fixed(style, front);
        assert(ps[ps.len() - 1] == ps.last());
        match ps.last() {
            Part::Root => {
                assert(ps.len() == 1);
                assert(ps =~= seq![Part::Root]);
            },
            Part::Name(n) => {
                assert(front.push(Part::Name(n)) =~= ps);
            },
            _ => {},
        }
    }
}

/// Normalizing is idempotent: a normalized path is its own normal form.
pub proof fn normalize_idempotent(style: PathStyle, path: Seq<char>)
    ensures
        normalized(style, normalized(style, path)) == normalized(style, path),
{
    let nf = normal_form(parts(style, path));
    lemma_parts_well_formed(style, path);
    lemma_normal_form_settled(style, parts(style, path));
    assert(well_formed(style, nf)) by {
        assert forall|i: int| 0 <= i < nf.len() implies match #[trigger] nf[i] {
            Part::Root => i == 0,
            Part::Cur => i == 0,
            Part::Parent => true,
            Part::Name(n) => clean_name(style, n),
        } by {}
    }
    lemma_round_trip(style, nf);
    lemma_normal_form_fixed(style, nf);
}

/// A clean name placed under a path adds itself as the last component.
pub proof fn lemma_parts_of_joined_name(style: PathStyle, d: Seq<char>, n: Seq<char>)
    requires
        clean_name(style, n),
    ensures
        parts(style, joined(style, d, n)) == parts(style, d).push(Part::Name(n)),
{
    let e = Seq::<char>::empty();
    let j = joined(style, d, n);
    let s = segments(style, d);
    assert(!style.separates(n[0]));
    assert(!rooted(style, n));
    assert(segment_part(n, true) == Some(Part::Name(n)));
    assert(segment_part(n, false) == Some(Part::Name(n)));
    lemma_segments_nonempty(style, d);
    if d.len() == 0 {
        assert(j =~= n);
        assert(d =~= e);
        lemma_segments_of_plain(style, n);
        lemma_segment_parts_one(n);
        lemma_segment_parts_one(e);
        assert(segments(style, e) =~= seq![e]);
        assert(parts(style, d) =~= Seq::<Part>::empty());
        assert(parts(style, j) =~= parts(style, d).push(Part::Name(n)));
    } else if style.separates(d.last()) {
        let t = segments(style, d.drop_last());
        lemma_segments_nonempty(style, d.drop_last());
        assert(s == t.push(e));
        assert(s.drop_last() =~= t);
        assert(j == d + n);
        lemma_segments_append_plain(style, d, n);
        assert(s.last() + n =~= n);
        let sj = t.push(n);
        assert(segments(style, j) == sj);
        assert(sj.drop_last() =~= t);
        assert(segment_parts(s) == segment_parts(t));
        assert(segment_parts(sj) == segment_parts(t).push(Part::Name(n)));
        assert(j[0] == d[0]);
        assert(parts(style, j) =~= parts(style, d).push(Part::Name(n)));
    } else {
        let sep = style.separator_char();
        assert(j == d + seq![sep] + n);
        assert(d + seq![sep] =~= d.push(sep));
        lemma_segments_append_separator(style, d, sep);
        lemma_segments_append_plain(style, d.push(sep), n);
        let s1 = s.push(e);
        assert(s1.drop_last() =~= s);
        assert(s1.last() + n =~= n);
        let sj = s.push(n);
        assert(segments(style, j) == sj);
        assert(sj.drop_last() =~= s);
        assert(segment_parts(sj) == segment_parts(s).push(Part::Name(n)));
        assert(j[0] == d[0]);
        assert(parts(style, j) =~= parts(style, d).push(Part::Name(n)));
    }
}

/// A clean name alone is one component, and is its own container form.
pub proof fn lemma_parts_of_name(style: PathStyle, n: Seq<char>)
    requires
        clean_name(style, n),
    ensures
        parts(style, n) == seq![Part::Name(n)],
        rendered(style, seq![Part::Name(n)]) == n,
        slash_form(style, n) == n,
{
    lemma_parts_of_joined_name(style, Seq::<char>::empty(), n);
    assert(joined(style, Seq::<char>::empty(), n) =~= n);
    lemma_segment_parts_one(Seq::<char>::empty());
    assert(segments(style, Seq::<char>::empty()) =~= seq![Seq::<char>::empty()]);
    assert(parts(style, Seq::<char>::empty()) =~= Seq::<Part>::empty());
    assert(Seq::<Part>::empty().push(Part::Name(n)) =~= seq![Part::Name(n)]);
}

/// A file that lies two or more levels above a directory does not lie
/// below it: going up `levels` directories and then down to `name` leads
/// out of the directory.
pub proof fn lemma_above_is_not_below(
    style: PathStyle,
    ps: Seq<Part>,
    levels: nat,
    name: Seq<char>,
)
    requires
        well_formed(style, ps),
        2 <= levels <= ps.len(),
        clean_name(style, name),
    ensures
        stripped(
            style,
            rendered(style, ps.take(ps.len() - levels).push(Part::Name(name))),
            rendered(style, ps),
        ) is None,
{
    let q = ps.take(ps.len() - levels).push(Part::Name(name));
    assert(well_formed(style, q)) by {
        assert forall|i: int| 0 <= i < q.len() implies match #[trigger] q[i] {
            Part::Root => i == 0,
            Part::Cur => i == 0,
            Part::Parent => true,
            Part::Name(n) => clean_name(style, n),
        } by {
            if i < q.len() - 1 {
                assert(q[i] == ps[i]);
            }
        }
    }
    lemma_round_trip(style, q);
    lemma_round_trip(style, ps);
}

/// The last dot of a text stands inside the text, if there is one.
pub proof fn lemma_last_dot_bounds(n: Seq<char>)
    ensures
        -1 <= last_dot(n) < n.len(),
    decreases n.len(),
{
    if n.len() > 0 {
        lemma_last_dot_bounds(n.drop_last());
    }
}

/// The extension of a path holds no separator.
pub proof fn lemma_extension_is_plain(style: PathStyle, path: Seq<char>)
    requires
        extension_of(style, path) is Some,
    ensures
        plain(style, extension_of(style, path)->0),
{
    lemma_parts_well_formed(style, path);
    let ps = parts(style, path);
    let n = file_name_of(ps)->0;
    assert(ps[ps.len() - 1] == Part::Name(n));
    assert(clean_name(style, n));
    lemma_last_dot_bounds(n);
    let e = extension_of(style, path)->0;
    assert forall|i: int| 0 <= i < e.len() implies !style.separates(#[trigger] e[i]) by {
        assert(e[i] == n[i + last_dot(n) + 1]);
    }
}

} // verus!
