//! The tree of a fragment of raw HTML, and the images in it.

use vstd::prelude::*;
use crate::text::same_text;

verus! {

/// One node of `html_parser`, read only where it is taken apart.
#[verifier::external_type_specification]
#[verifier::external_body]
pub struct ExNode(html_parser::Node);

/// A node of an HTML fragment as a mathematical value.
pub enum NodeView {
    /// Running text.
    Text(Seq<char>),
    /// A comment.
    Comment(Seq<char>),
    /// An element with the nodes inside it.
    Element { name: Seq<char>, attribute: Option<Seq<char>>, children: Seq<NodeView> },
}

/// A node of an HTML fragment.
#[derive(Debug, PartialEq, Eq)]
pub enum HtmlNode {
    /// Running text.
    Text(String),
    /// A comment.
    Comment(String),
    /// An element.
    Element {
        /// The element's tag name.
        name: String,
        /// The value of the one attribute that was asked for, where the
        /// element has it with a value.
        attribute: Option<String>,
        /// The nodes inside the element, in the order of the text.
        children: Vec<HtmlNode>,
    },
}

/// The view of a node.
pub open spec fn node_view(node: HtmlNode) -> NodeView
    decreases node,
{
    match node {
        HtmlNode::Text(t) => NodeView::Text(t@),
        HtmlNode::Comment(t) => NodeView::Comment(t@),
        HtmlNode::Element { name, attribute, children } => NodeView::Element {
            name: name@,
            attribute: match attribute {
                Some(a) => Some(a@),
                None => None,
            },
            children: node_views(children@),
        },
    }
}

/// The views of a list of nodes.
pub open spec fn node_views(nodes: Seq<HtmlNode>) -> Seq<NodeView>
    decreases nodes,
{
    if nodes.len() == 0 {
        Seq::<NodeView>::empty()
    } else {
        node_views(nodes.drop_last()).push(node_view(nodes.last()))
    }
}

impl View for HtmlNode {
    type V = NodeView;

    open spec fn view(&self) -> NodeView {
        node_view(*self)
    }
}

/// What `html_parser` makes of a fragment: nothing where it does not parse,
/// otherwise the nodes at its top, each with the nodes inside it, and of
/// every element the value of the attribute `key`.
pub uninterp spec fn parsed_nodes(html: Seq<char>, key: Seq<char>) -> Option<Seq<NodeView>>;

/// A node of `html_parser` as a node of this library, one for one: the
/// kind, the text of a text or a comment, and of an element the name, the
/// value found under `key` in its attributes, and its children, each taken
/// the same way. Nothing is claimed of the result.
#[verifier::external_body]
fn node_of(node: &html_parser::Node, key: &str) -> HtmlNode {
    match node {
        html_parser::Node::Text(t) => HtmlNode::Text(t.clone()),
        html_parser::Node::Comment(t) => HtmlNode::Comment(t.clone()),
        html_parser::Node::Element(e) => HtmlNode::Element {
            name: e.name.clone(),
            attribute: e.attributes.get(key).cloned().flatten(),
            children: e.children.iter().map(|child| node_of(child, key)).collect(),
        },
    }
}

/// `html_parser::Dom::parse` on the fragment, and of a fragment that parses
/// the children of the document, each as a node of this library. The
/// result is the named function of the text and the key.
#[verifier::external_body]
fn parse_nodes(html: &str, key: &str) -> (r: Option<Vec<HtmlNode>>)
    ensures
        r is Some == parsed_nodes(html@, key@) is Some,
        r is Some ==> node_views(r->0@) == parsed_nodes(html@, key@)->0,
{
    let dom = html_parser::Dom::parse(html).ok()?;
    Some(dom.children.iter().map(|node| node_of(node, key)).collect())
}

/// The tree of an HTML fragment, if it parses, with the `src` attribute of
/// every element.
pub fn nodes_of(html: &str) -> (r: Option<Vec<HtmlNode>>)
    ensures
        r is Some == parsed_nodes(html@, "src"@) is Some,
        r is Some ==> node_views(r->0@) == parsed_nodes(html@, "src"@)->0,
{
    parse_nodes(html, "src")
}

/// The source of the image that a node is: the attribute of an element
/// named `img` that has one.
pub open spec fn own_source(node: NodeView) -> Seq<Seq<char>> {
    match node {
        NodeView::Element { name, attribute, children } => match attribute {
            Some(a) => if name == "img"@ {
                seq![a]
            } else {
                Seq::<Seq<char>>::empty()
            },
            None => Seq::<Seq<char>>::empty(),
        },
        _ => Seq::<Seq<char>>::empty(),
    }
}

/// The sources of the images in a node: its own, then those of the nodes
/// inside it, however deep, in the order of the text.
pub open spec fn node_sources(node: NodeView) -> Seq<Seq<char>>
    decreases node,
{
    match node {
        NodeView::Element { name, attribute, children } => own_source(node) + image_sources(
            children,
        ),
        _ => Seq::<Seq<char>>::empty(),
    }
}

/// The sources of the images in a list of nodes, in the order of the text.
pub open spec fn image_sources(nodes: Seq<NodeView>) -> Seq<Seq<char>>
    decreases nodes,
{
    if nodes.len() == 0 {
        Seq::<Seq<char>>::empty()
    } else {
        image_sources(nodes.drop_last()) + node_sources(nodes.last())
    }
}

/// The views of a list of strings.
pub open spec fn string_views(ss: Seq<String>) -> Seq<Seq<char>> {
    Seq::new(ss.len(), |i: int| ss[i]@)
}

/// Appends to `out` the sources of the images in the nodes.
pub fn collect_sources(nodes: &Vec<HtmlNode>, out: &mut Vec<String>)
    ensures
        string_views(final(out)@) == string_views(old(out)@) + image_sources(node_views(nodes@)),
    decreases nodes,
{
    let ghost start = string_views(out@);
    let mut i: usize = 0;
    proof {
        assert(nodes@.take(0) =~= Seq::<HtmlNode>::empty());
        assert(string_views(out@) =~= start + image_sources(node_views(nodes@.take(0))));
    }
    while i < nodes.len()
        invariant
            i <= nodes.len(),
            string_views(out@) == start + image_sources(node_views(nodes@.take(i as int))),
        decreases nodes.len() - i,
    {
        proof {
            assert(nodes@.take(i + 1).drop_last() =~= nodes@.take(i as int));
            assert(nodes@.take(i + 1).last() == nodes@[i as int]);
        }
        let ghost before = string_views(out@);
        let ghost node = node_view(nodes@[i as int]);
        match &nodes[i] {
            HtmlNode::Element { name, attribute, children } => {
                match attribute {
                    Some(a) => {
                        if same_text(name.as_str(), "img") {
                            out.push(a.clone());
                            assert(string_views(out@) =~= before + seq![a@]);
                        }
                    },
                    None => {},
                }
                assert(string_views(out@) =~= before + own_source(node));
                collect_sources(children, out);
                assert(string_views(out@) =~= before + node_sources(node));
            },
            _ => {
                assert(string_views(out@) =~= before + node_sources(node));
            },
        }
        proof {
            let shorter = node_views(nodes@.take(i as int));
            let longer = node_views(nodes@.take(i + 1));
            assert(longer == shorter.push(node));
            assert(longer.drop_last() =~= shorter);
            assert(image_sources(longer) == image_sources(shorter) + node_sources(node));
            assert(start + image_sources(shorter) + node_sources(node) =~= start + image_sources(
                longer,
            ));
        }
        i = i + 1;
    }
    assert(nodes@.take(nodes.len() as int) =~= nodes@);
}

/// Look up resources in the nodes of an HTML fragment: the `src` of every
/// `img`, nested ones included, in the order of the text.
pub fn find_assets_in_nested_html_tags(nodes: &Vec<HtmlNode>) -> (r: Vec<String>)
    ensures
        string_views(r@) == image_sources(node_views(nodes@)),
{
    let mut found: Vec<String> = Vec::new();
    collect_sources(nodes, &mut found);
    assert(string_views(found@) =~= image_sources(node_views(nodes@)));
    found
}

} // verus!
