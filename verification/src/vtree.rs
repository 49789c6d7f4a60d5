//! Ways to obtain a tree description: the two builders, and the reading of
//! markup text.

use crate::dom::Origin;
use crate::props::{ascending, Entry, PropertyMap};
use crate::vnode::{AbstractVNode, BasicVNode, Description};
use vstd::prelude::*;

verus! {

/// What `build_element` is given.
pub struct BuildElementOptions {
    pub tag: String,
    pub props: PropertyMap,
    pub style: PropertyMap,
    pub children: Vec<AbstractVNode>,
}

/// The description of an element with the given tag, attributes, style and children.
pub fn build_element(opt: BuildElementOptions) -> (tree: AbstractVNode)
    ensures
        tree.node@ == (Description {
            origin: Origin::Element(opt.tag@),
            props: opt.props@,
            style: opt.style@,
        }),
        tree.node.text is None,
        tree.node.tag is Some,
        tree.children@ == opt.children@,
{
    let mut node = BasicVNode::new_element(opt.tag.as_str());
    node.props = opt.props;
    node.style = opt.style;
    AbstractVNode { node, children: opt.children }
}

/// The description of a text without children.
pub fn build_text(t: &str) -> (tree: AbstractVNode)
    ensures
        tree.wf(),
        tree.node@ == (Description {
            origin: Origin::Text(t@),
            props: Seq::empty(),
            style: Seq::empty(),
        }),
        tree.node.tag is None,
        tree.node.text is Some,
        tree.children@ == Seq::<AbstractVNode>::empty(),
{
    AbstractVNode::new(BasicVNode::new_text(t))
}

/// What one node of a parsed document holds.
pub enum RawData {
    Text(String),
    Comment,
    /// The element's name, and its attributes in document order.
    Element(String, Vec<(String, String)>),
}

/// One node of a parsed document: its content, and the positions of its
/// parent, its first child and its next sibling in the list of all nodes.
pub struct RawNode {
    pub data: RawData,
    pub parent: Option<usize>,
    pub first_child: Option<usize>,
    pub next: Option<usize>,
}

/// The nodes that the HTML parser yields for a text.
pub uninterp spec fn parsed_document(html: Seq<char>) -> Seq<RawNode>;

/// `select::document::Document::from_read` on the bytes of `html`: the list
/// of nodes of the parsed document, each with its content and its links as
/// the parser left them. The parse is a function of the text alone. No node
/// is returned where the parser reports an error.
#[verifier::external_body]
fn read_document(html: &str) -> (nodes: Vec<RawNode>)
    ensures
        nodes@ == parsed_document(html@),
{
    match select::document::Document::from_read(html.as_bytes()) {
        Ok(doc) => doc.nodes.iter().map(|n| RawNode {
            parent: n.parent, first_child: n.first_child, next: n.next,
            data: match n.data {
                select::node::Data::Text(ref t) => RawData::Text(String::from(t)),
                select::node::Data::Comment(_) => RawData::Comment,
                select::node::Data::Element(ref name, ref attrs) => RawData::Element(
                    name.local.to_string(),
                    attrs.iter().map(|a| (a.0.local.to_string(), String::from(&a.1))).collect()),
            },
        }).collect(),
        Err(_) => Vec::new(),
    }
}

/// A link counts where it leads forward, to a later node of the list.
pub open spec fn forward_link(nodes: Seq<RawNode>, from: int, link: Option<usize>) -> Option<int> {
    match link {
        Some(id) => if from < id < nodes.len() {
            Some(id as int)
        } else {
            None
        },
        None => None,
    }
}

/// The positions reached from `link` by following the links to the next
/// sibling, as long as they lead forward.
pub open spec fn sibling_chain(nodes: Seq<RawNode>, from: int, link: Option<usize>) -> Seq<int>
    decreases nodes.len() - from,
{
    match forward_link(nodes, from, link) {
        Some(id) => seq![id] + sibling_chain(nodes, id, nodes[id].next),
        None => Seq::empty(),
    }
}

/// The positions of the children of the node at `root`, in order.
pub open spec fn child_ids(nodes: Seq<RawNode>, root: int) -> Seq<int> {
    sibling_chain(nodes, root, nodes[root].first_child)
}

/// The value that the last of `attrs` with key `key` gives it, if any does.
pub open spec fn last_value(attrs: Seq<(String, String)>, key: Seq<char>) -> Option<Seq<char>>
    decreases attrs.len(),
{
    if attrs.len() == 0 {
        None
    } else if attrs.last().0@ == key {
        Some(attrs.last().1@)
    } else {
        last_value(attrs.drop_last(), key)
    }
}

/// The mapping `m` holds exactly the attributes `attrs`, a later attribute
/// overriding an earlier one of the same key.
pub open spec fn holds_attrs(m: Seq<Entry>, attrs: Seq<(String, String)>) -> bool {
    &&& ascending(m)
    &&& forall|e: Entry| m.contains(e) <==> last_value(attrs, e.0) == Some(e.1)
}

/// The tree `tree` describes the node at `root` of a parsed document and all
/// that is below it: an element by its name, attributes and children, a
/// text by its content, a comment as an empty text.
pub open spec fn renders(tree: &AbstractVNode, nodes: Seq<RawNode>, root: int) -> bool
    decreases tree,
{
    match nodes[root].data {
        RawData::Text(t) => {
            &&& tree.node@ == (Description {
                origin: Origin::Text(t@),
                props: Seq::empty(),
                style: Seq::empty(),
            })
            &&& tree.children@.len() == 0
        },
        RawData::Comment => {
            &&& tree.node@ == (Description {
                origin: Origin::Text(Seq::empty()),
                props: Seq::empty(),
                style: Seq::empty(),
            })
            &&& tree.children@.len() == 0
        },
        RawData::Element(name, attrs) => {
            &&& tree.node@.origin == Origin::Element(name@)
            &&& holds_attrs(tree.node@.props, attrs@)
            &&& tree.node@.style == Seq::<Entry>::empty()
            &&& tree.children@.len() == child_ids(nodes, root).len()
            &&& forall|i: int|
                0 <= i < tree.children@.len() ==> renders(
                    #[trigger] &tree.children@[i],
                    nodes,
                    child_ids(nodes, root)[i],
                )
        },
    }
}

/// Follows `link` from position `from` where it leads forward.
fn follow(nodes: &Vec<RawNode>, from: usize, link: Option<usize>) -> (to: Option<usize>)
    ensures
        match to {
            Some(id) => forward_link(nodes@, from as int, link) == Some(id as int),
            None => forward_link(nodes@, from as int, link) is None,
        },
{
    match link {
        Some(id) => if from < id && id < nodes.len() {
            Some(id)
        } else {
            None
        },
        None => None,
    }
}

/// Collects attributes into a mapping, a later one overriding an earlier
/// one of the same key.
fn collect_attrs(attrs: &Vec<(String, String)>) -> (m: PropertyMap)
    ensures
        holds_attrs(m@, attrs@),
{
    let mut m = PropertyMap::new();
    let mut i: usize = 0;
    while i < attrs.len()
        invariant
            i <= attrs@.len(),
            holds_attrs(m@, attrs@.take(i as int)),
        decreases attrs@.len() - i,
    {
        let ghost before = m@;
        let ghost done = attrs@.take(i as int);
        m.insert(attrs[i].0.clone(), attrs[i].1.clone());
        proof {
            let next = attrs@.take(i + 1);
            assert(next.drop_last() =~= done);
            assert(next.last() == attrs@[i as int]);
            assert forall|e: Entry| m@.contains(e) <==> last_value(next, e.0) == Some(e.1) by {
                if e.0 != attrs@[i as int].0@ {
                    assert(before.contains(e) <==> last_value(done, e.0) == Some(e.1));
                }
            }
        }
        i += 1;
    }
    assert(attrs@.take(i as int) =~= attrs@);
    m
}

/// Turns the node at `root` of a parsed document, with all below it, into a
/// tree description.
pub fn transform_node(nodes: &Vec<RawNode>, root: usize) -> (tree: AbstractVNode)
    requires
        root < nodes@.len(),
    ensures
        tree.wf(),
        renders(&tree, nodes@, root as int),
    decreases nodes@.len() - root,
{
    match &nodes[root].data {
        RawData::Text(t) => build_text(t.as_str()),
        RawData::Comment => {
            proof {
                reveal_strlit("");
            }
            let tree = build_text("");
            assert(""@ =~= Seq::<char>::empty());
            tree
        },
        RawData::Element(name, attrs) => {
            let target_props = collect_attrs(attrs);
            let mut children: Vec<AbstractVNode> = Vec::new();
            let mut from = root;
            let mut current_child = follow(nodes, root, nodes[root].first_child);
            let ghost mut link = nodes@[root as int].first_child;
            let ghost mut done = Seq::<int>::empty();
            assert(done + sibling_chain(nodes@, root as int, link) =~= child_ids(
                nodes@,
                root as int,
            ));
            while current_child.is_some()
                invariant
                    root <= from < nodes@.len(),
                    match current_child {
                        Some(id) => forward_link(nodes@, from as int, link) == Some(id as int),
                        None => forward_link(nodes@, from as int, link) is None,
                    },
                    child_ids(nodes@, root as int) == done + sibling_chain(
                        nodes@,
                        from as int,
                        link,
                    ),
                    children@.len() == done.len(),
                    forall|j: int|
                        0 <= j < done.len() ==> (#[trigger] children@[j]).wf() && renders(
                            &children@[j],
                            nodes@,
                            done[j],
                        ),
                decreases nodes@.len() - from,
            {
                let id = current_child.unwrap();
                children.push(transform_node(nodes, id));
                proof {
                    let rest = sibling_chain(nodes@, id as int, nodes@[id as int].next);
                    assert(sibling_chain(nodes@, from as int, link) == seq![id as int] + rest);
                    assert(done + (seq![id as int] + rest) =~= done.push(id as int) + rest);
                    done = done.push(id as int);
                    link = nodes@[id as int].next;
                }
                from = id;
                current_child = follow(nodes, id, nodes[id].next);
            }
            proof {
                assert(child_ids(nodes@, root as int) =~= done);
            }
            build_element(
                BuildElementOptions {
                    tag: name.clone(),
                    props: target_props,
                    style: PropertyMap::new(),
                    children,
                },
            )
        },
    }
}

/// The topmost node above position `i`, as far as the links to the parent
/// lead backward.
pub open spec fn top_of(nodes: Seq<RawNode>, i: int) -> int
    decreases i,
{
    match nodes[i].parent {
        Some(p) => if p < i {
            top_of(nodes, p as int)
        } else {
            i
        },
        None => i,
    }
}

/// Whether the node at `id` is an element named `body`.
pub open spec fn is_body(nodes: Seq<RawNode>, id: int) -> bool {
    match nodes[id].data {
        RawData::Element(name, _) => name@ == "body"@,
        _ => false,
    }
}

/// The position of the content of a parsed document: the first child of the
/// element `body`, which is the second child of the topmost node above the
/// first node. `None` where the document has no such node.
pub open spec fn content_id(nodes: Seq<RawNode>) -> Option<int> {
    if nodes.len() == 0 {
        None
    } else {
        let top = top_of(nodes, 0);
        let kids = child_ids(nodes, top);
        if kids.len() >= 2 && is_body(nodes, kids[1]) && child_ids(nodes, kids[1]).len() >= 1 {
            Some(child_ids(nodes, kids[1])[0])
        } else {
            None
        }
    }
}

/// The tree description of the content of a parsed document, if it has any.
pub fn document_content(nodes: &Vec<RawNode>) -> (content: Option<AbstractVNode>)
    ensures
        match content {
            Some(tree) => content_id(nodes@) matches Some(id) && tree.wf() && renders(
                &tree,
                nodes@,
                id,
            ),
            None => content_id(nodes@) is None,
        },
{
    if nodes.len() == 0 {
        return None;
    }
    let mut root: usize = 0;
    while nodes[root].parent.is_some() && nodes[root].parent.unwrap() < root
        invariant
            root < nodes@.len(),
            top_of(nodes@, 0) == top_of(nodes@, root as int),
        decreases root,
    {
        root = nodes[root].parent.unwrap();
    }
    proof {
        reveal_with_fuel(sibling_chain, 3);
    }
    let first = match follow(nodes, root, nodes[root].first_child) {
        Some(id) => id,
        None => return None,
    };
    let body = match follow(nodes, first, nodes[first].next) {
        Some(id) => id,
        None => return None,
    };
    let named_body = match &nodes[body].data {
        RawData::Element(name, _) => *name == "body".to_string(),
        _ => false,
    };
    if !named_body {
        return None;
    }
    match follow(nodes, body, nodes[body].first_child) {
        Some(id) => Some(transform_node(nodes, id)),
        None => None,
    }
}

/// Reads markup text and returns the tree description of its content: the
/// first node inside the document's body. `None` where there is none.
pub fn parse_html(html: &str) -> (content: Option<AbstractVNode>)
    ensures
        match content {
            Some(tree) => content_id(parsed_document(html@)) matches Some(id) && tree.wf()
                && renders(&tree, parsed_document(html@), id),
            None => content_id(parsed_document(html@)) is None,
        },
{
    let nodes = read_document(html);
    document_content(&nodes)
}

} // verus!
