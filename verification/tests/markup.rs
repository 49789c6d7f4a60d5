use vdom::props::PropertyMap;
use vdom::vnode::{AbstractVNode, BasicVNode};
use vdom::vtree::{
    build_element, build_text, document_content, parse_html, transform_node, BuildElementOptions,
    RawData, RawNode,
};

fn pmap(pairs: &[(&str, &str)]) -> PropertyMap {
    let mut m = PropertyMap::new();
    for (k, v) in pairs {
        m.insert(k.to_string(), v.to_string());
    }
    m
}

fn element(tag: &str, props: &[(&str, &str)], children: Vec<AbstractVNode>) -> AbstractVNode {
    build_element(BuildElementOptions {
        tag: tag.to_string(),
        props: pmap(props),
        style: PropertyMap::new(),
        children,
    })
}

fn raw(data: RawData, parent: Option<usize>, first_child: Option<usize>, next: Option<usize>) -> RawNode {
    RawNode { data, parent, first_child, next }
}

fn raw_element(name: &str, attrs: &[(&str, &str)]) -> RawData {
    RawData::Element(
        name.to_string(),
        attrs.iter().map(|(k, v)| (k.to_string(), v.to_string())).collect(),
    )
}

#[test]
fn test_parse_html() {
    let output = parse_html(r#"<div id="aaa"><p>Hello world</p></div>"#).unwrap();
    let expected = build_element(BuildElementOptions {
        tag: "div".to_string(),
        props: pmap(&[("id", "aaa")]),
        style: pmap(&[]),
        children: vec![build_element(BuildElementOptions {
            tag: "p".to_string(),
            props: pmap(&[]),
            style: pmap(&[]),
            children: vec![build_text("Hello world")],
        })],
    });
    assert!(output == expected);
}

#[test]
fn builders_and_markup_agree() {
    let parsed = parse_html("<div id=\"abc\"><p>Hello world</p></div>").unwrap();
    let built = element("div", &[("id", "abc")], vec![element("p", &[], vec![build_text("Hello world")])]);
    assert_eq!(parsed, built);
}

#[test]
fn markup_comment_becomes_empty_text() {
    let parsed = parse_html("<ul class=\"x\" id=\"y\"><!-- note --><li>a</li>b</ul>").unwrap();
    let built = element(
        "ul",
        &[("class", "x"), ("id", "y")],
        vec![build_text(""), element("li", &[], vec![build_text("a")]), build_text("b")],
    );
    assert_eq!(parsed, built);
}

#[test]
fn markup_without_content_has_no_tree() {
    assert!(parse_html("").is_none());
}

#[test]
fn markup_content_is_the_first_node_of_the_body() {
    assert_eq!(parse_html("<p>a</p><p>b</p>").unwrap(), element("p", &[], vec![build_text("a")]));
    assert_eq!(parse_html("just text").unwrap(), build_text("just text"));
}

#[test]
fn builders_make_single_nodes() {
    let t = build_text("x");
    assert_eq!(t.node, BasicVNode::new_text("x"));
    assert!(t.children.is_empty());
    assert_eq!(t.node.text.as_deref(), Some("x"));
    assert!(t.node.tag.is_none());
    let e = BasicVNode::new_element("div");
    assert_eq!(e.tag.as_deref(), Some("div"));
    assert!(e.text.is_none());
    assert_eq!(e.props.len(), 0);
    assert_eq!(e.style.len(), 0);
    let mut tree = AbstractVNode::new(e);
    tree.append_child(build_text("a"));
    tree.append_child(build_text("b"));
    assert_eq!(tree, element("div", &[], vec![build_text("a"), build_text("b")]));
}

fn sample_document() -> Vec<RawNode> {
    vec![
        raw(raw_element("html", &[]), None, Some(1), None),
        raw(raw_element("head", &[]), Some(0), None, Some(2)),
        raw(raw_element("body", &[]), Some(0), Some(3), None),
        raw(raw_element("div", &[("id", "1"), ("class", "c"), ("id", "2")]), Some(2), Some(4), Some(6)),
        raw(RawData::Text("hi".to_string()), Some(3), None, Some(5)),
        raw(RawData::Comment, Some(3), None, None),
        raw(raw_element("p", &[]), Some(2), None, None),
    ]
}

#[test]
fn transform_follows_the_links() {
    let nodes = sample_document();
    let expected = element("div", &[("class", "c"), ("id", "2")], vec![build_text("hi"), build_text("")]);
    assert_eq!(transform_node(&nodes, 3), expected);
    assert_eq!(transform_node(&nodes, 4), build_text("hi"));
    assert_eq!(transform_node(&nodes, 5), build_text(""));
    assert_eq!(document_content(&nodes).unwrap(), expected);
}

#[test]
fn transform_stops_at_a_link_that_does_not_lead_forward() {
    let nodes = vec![
        raw(raw_element("a", &[]), None, Some(1), None),
        raw(raw_element("b", &[]), Some(0), Some(1), Some(0)),
        raw(raw_element("c", &[]), Some(0), Some(9), Some(2)),
    ];
    assert_eq!(transform_node(&nodes, 0), element("a", &[], vec![element("b", &[], vec![])]));
    assert_eq!(transform_node(&nodes, 2), element("c", &[], vec![]));
}

#[test]
fn content_needs_a_body_with_a_child() {
    assert!(document_content(&Vec::new()).is_none());
    let mut nodes = sample_document();
    nodes[2].first_child = None;
    assert!(document_content(&nodes).is_none());
    let mut nodes = sample_document();
    nodes[2].data = raw_element("main", &[]);
    assert!(document_content(&nodes).is_none());
    let mut nodes = sample_document();
    nodes[1].next = None;
    assert!(document_content(&nodes).is_none());
    let mut nodes = sample_document();
    nodes[0].first_child = None;
    assert!(document_content(&nodes).is_none());
}
