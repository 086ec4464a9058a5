//! Documents as trees, and the rewriting of their links.
use vstd::prelude::*;
use vstd::string::*;

use crate::text::chars_of;

verus! {

/// An attribute of an element: its local name and its value.
#[derive(Debug)]
pub struct Attribute {
    pub name: String,
    pub value: String,
}

/// What a node is: an element with its local name and attributes, or
/// anything else (text, a comment, the document itself).
#[derive(Debug)]
pub enum NodeKind {
    Element { name: String, attrs: Vec<Attribute> },
    Other,
}

/// A node of a document with the nodes below it, in document order.
#[derive(Debug)]
pub struct Node {
    pub kind: NodeKind,
    pub children: Vec<Node>,
}

/// An attribute as plain text.
pub ghost struct AttributeView {
    pub name: Seq<char>,
    pub value: Seq<char>,
}

/// A node's kind as plain text.
pub ghost enum KindView {
    Element { name: Seq<char>, attrs: Seq<AttributeView> },
    Other,
}

/// A node as plain text.
pub ghost struct NodeView {
    pub kind: KindView,
    pub children: Seq<NodeView>,
}

impl View for Attribute {
    type V = AttributeView;

    open spec fn view(&self) -> AttributeView {
        AttributeView { name: self.name@, value: self.value@ }
    }
}

/// The attributes of a vector as plain text.
pub open spec fn attribute_views(attrs: Seq<Attribute>) -> Seq<AttributeView> {
    attrs.map_values(|attr: Attribute| attr@)
}

impl View for NodeKind {
    type V = KindView;

    open spec fn view(&self) -> KindView {
        match self {
            NodeKind::Element { name, attrs } => KindView::Element {
                name: name@,
                attrs: attribute_views(attrs@),
            },
            NodeKind::Other => KindView::Other,
        }
    }
}

/// A node as plain text.
pub open spec fn node_view(node: Node) -> NodeView
    decreases node,
{
    NodeView { kind: node.kind@, children: node_views(node.children@) }
}

/// The nodes of a sequence as plain text.
pub open spec fn node_views(nodes: Seq<Node>) -> Seq<NodeView>
    decreases nodes,
{
    if nodes.len() == 0 {
        Seq::empty()
    } else {
        node_views(nodes.drop_last()).push(node_view(nodes.last()))
    }
}

impl View for Node {
    type V = NodeView;

    open spec fn view(&self) -> NodeView {
        node_view(*self)
    }
}

/// An ASCII capital letter as its small letter; any other character as it
/// is.
pub open spec fn ascii_lower(c: char) -> char {
    if 'A' <= c <= 'Z' {
        ((c as int) + 32) as char
    } else {
        c
    }
}

/// The two texts are equal but for the case of their ASCII letters.
pub open spec fn same_ignoring_ascii_case(a: Seq<char>, b: Seq<char>) -> bool {
    &&& a.len() == b.len()
    &&& forall|i: int| 0 <= i < a.len() ==> ascii_lower(#[trigger] a[i]) == ascii_lower(b[i])
}

fn to_ascii_lower(c: char) -> (lower: char)
    ensures
        lower == ascii_lower(c),
{
    if 'A' <= c && c <= 'Z' {
        ((c as u8) + 32) as char
    } else {
        c
    }
}

/// Whether two texts are equal but for the case of their ASCII letters.
pub fn eq_ignore_ascii_case(a: &str, b: &str) -> (same: bool)
    ensures
        same == same_ignoring_ascii_case(a@, b@),
{
    let left = chars_of(a);
    let right = chars_of(b);
    if left.len() != right.len() {
        return false;
    }
    let mut i: usize = 0;
    while i < left.len()
        invariant
            i <= left@.len(),
            left@ == a@,
            right@ == b@,
            left@.len() == right@.len(),
            forall|j: int| 0 <= j < i ==> ascii_lower(#[trigger] left@[j]) == ascii_lower(right@[j]),
        decreases left@.len() - i,
    {
        if to_ascii_lower(left[i]) != to_ascii_lower(right[i]) {
            assert(ascii_lower(a@[i as int]) != ascii_lower(b@[i as int]));
            return false;
        }
        i += 1;
    }
    true
}

/// The element is an anchor or a link: its name is `a` or `link`, in any
/// case.
pub open spec fn carries_links(name: Seq<char>) -> bool {
    same_ignoring_ascii_case(name, "a"@) || same_ignoring_ascii_case(name, "link"@)
}

/// The attribute is a reference: its name is `href`, in any case.
pub open spec fn is_reference(name: Seq<char>) -> bool {
    same_ignoring_ascii_case(name, "href"@)
}

/// A reference as it is after rewriting: one that starts at the root of the
/// server gets the server's address in front; any other stays.
pub open spec fn absolute_reference(value: Seq<char>, server_url: Seq<char>) -> Seq<char> {
    if value.len() > 0 && value[0] == '/' {
        server_url + value
    } else {
        value
    }
}

/// An attribute of an anchor or link after rewriting.
pub open spec fn fixed_attribute(attr: AttributeView, server_url: Seq<char>) -> AttributeView {
    if is_reference(attr.name) {
        AttributeView { name: attr.name, value: absolute_reference(attr.value, server_url) }
    } else {
        attr
    }
}

/// A node's kind after rewriting: the references of anchors and links are
/// made absolute, everything else stays.
pub open spec fn fixed_kind(kind: KindView, server_url: Seq<char>) -> KindView {
    match kind {
        KindView::Element { name, attrs } => if carries_links(name) {
            KindView::Element {
                name,
                attrs: attrs.map_values(|attr: AttributeView| fixed_attribute(attr, server_url)),
            }
        } else {
            kind
        },
        KindView::Other => kind,
    }
}

/// A document after rewriting: every node's kind is fixed, and the shape of
/// the tree stays.
pub open spec fn fixed(node: NodeView, server_url: Seq<char>) -> NodeView
    decreases node,
{
    NodeView {
        kind: fixed_kind(node.kind, server_url),
        children: fixed_all(node.children, server_url),
    }
}

/// The nodes of a sequence after rewriting.
pub open spec fn fixed_all(nodes: Seq<NodeView>, server_url: Seq<char>) -> Seq<NodeView>
    decreases nodes,
{
    if nodes.len() == 0 {
        Seq::empty()
    } else {
        fixed_all(nodes.drop_last(), server_url).push(fixed(nodes.last(), server_url))
    }
}

/// Rewriting keeps the number of nodes at every level, and rewrites each in
/// its place.
pub proof fn lemma_fixed_all(nodes: Seq<NodeView>, server_url: Seq<char>)
    ensures
        fixed_all(nodes, server_url).len() == nodes.len(),
        forall|i: int|
            0 <= i < nodes.len() ==> #[trigger] fixed_all(nodes, server_url)[i] == fixed(
                nodes[i],
                server_url,
            ),
    decreases nodes.len(),
{
    if nodes.len() > 0 {
        lemma_fixed_all(nodes.drop_last(), server_url);
    }
}

/// The views of a sequence of nodes, node by node.
pub proof fn lemma_node_views(nodes: Seq<Node>)
    ensures
        node_views(nodes).len() == nodes.len(),
        forall|i: int| 0 <= i < nodes.len() ==> #[trigger] node_views(nodes)[i] == node_view(nodes[i]),
    decreases nodes.len(),
{
    if nodes.len() > 0 {
        lemma_node_views(nodes.drop_last());
    }
}

/// Makes one reference absolute.
pub fn fix_reference(value: String, server_url: &str) -> (fixed: String)
    ensures
        fixed@ == absolute_reference(value@, server_url@),
{
    let chars = chars_of(value.as_str());
    if chars.len() > 0 && chars[0] == '/' {
        let mut fixed = String::from_str(server_url);
        fixed.append(value.as_str());
        fixed
    } else {
        value
    }
}

/// Rewrites the attributes of an anchor or link.
fn fix_attributes(attrs: Vec<Attribute>, server_url: &str) -> (fixed: Vec<Attribute>)
    ensures
        attribute_views(fixed@) == attribute_views(attrs@).map_values(
            |attr: AttributeView| fixed_attribute(attr, server_url@),
        ),
{
    let ghost all = attribute_views(attrs@);
    let ghost wanted = all.map_values(|attr: AttributeView| fixed_attribute(attr, server_url@));
    let mut fixed: Vec<Attribute> = Vec::new();
    proof {
        assert(attribute_views(fixed@) =~= wanted.take(0));
    }
    for attr in it: attrs
        invariant
            all == attribute_views(it.seq()),
            wanted == all.map_values(|attr: AttributeView| fixed_attribute(attr, server_url@)),
            attribute_views(fixed@) == wanted.take(it.index() as int),
    {
        let ghost k = it.index() as int;
        let ghost before = attribute_views(fixed@);
        assert(all[k] == attr@);
        let done = if eq_ignore_ascii_case(attr.name.as_str(), "href") {
            Attribute { name: attr.name, value: fix_reference(attr.value, server_url) }
        } else {
            attr
        };
        assert(done@ == wanted[k]);
        fixed.push(done);
        assert(attribute_views(fixed@) =~= before.push(wanted[k]));
        assert(wanted.take(k + 1) =~= wanted.take(k).push(wanted[k]));
    }
    assert(wanted.take(wanted.len() as int) =~= wanted);
    fixed
}

/// Rewrites a node's kind.
fn fix_kind(kind: NodeKind, server_url: &str) -> (fixed: NodeKind)
    ensures
        fixed@ == fixed_kind(kind@, server_url@),
{
    match kind {
        NodeKind::Element { name, attrs } => {
            if eq_ignore_ascii_case(name.as_str(), "a") || eq_ignore_ascii_case(
                name.as_str(),
                "link",
            ) {
                NodeKind::Element { name, attrs: fix_attributes(attrs, server_url) }
            } else {
                NodeKind::Element { name, attrs }
            }
        },
        NodeKind::Other => NodeKind::Other,
    }
}

/// Makes the root-relative references of a document absolute: in every
/// anchor and link, a `href` that starts with `/` gets `server_url` in
/// front. Each node is rewritten before the nodes below it.
pub fn fix_html_references(node: Node, server_url: &str) -> (fixed: Node)
    ensures
        fixed@ == crate::dom::fixed(node@, server_url@),
    decreases node,
{
    let Node { kind, children } = node;
    let kind = fix_kind(kind, server_url);
    let ghost below = children@;
    let mut done: Vec<Node> = Vec::new();
    proof {
        assert(node_views(below.take(0)) =~= Seq::empty());
    }
    for child in it: children
        invariant
            below == it.seq(),
            below == node.children@,
            node_views(done@) == fixed_all(node_views(below.take(it.index() as int)), server_url@),
    {
        let ghost k = it.index() as int;
        proof {
            assert(below[k] == child);
            assert(below.take(k + 1).drop_last() =~= below.take(k));
            assert(below.take(k + 1).last() == child);
            lemma_node_views(below.take(k));
        }
        let ghost before = done@;
        let rewritten = fix_html_references(child, server_url);
        done.push(rewritten);
        proof {
            assert(done@.drop_last() =~= before);
            let seen = node_views(below.take(k + 1));
            assert(seen.drop_last() =~= node_views(below.take(k)));
        }
    }
    proof {
        assert(below.take(below.len() as int) =~= below);
    }
    Node { kind, children: done }
}

} // verus!
