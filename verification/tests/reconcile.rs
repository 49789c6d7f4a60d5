use vdom::dom::{LoggedAction, LoggedNode};
use vdom::props::PropertyMap;
use vdom::vnode::{AbstractVNode, InternalVNode};
use vdom::vtree::{build_element, build_text, BuildElementOptions};

fn pmap(pairs: &[(&str, &str)]) -> PropertyMap {
    let mut m = PropertyMap::new();
    for (k, v) in pairs {
        m.insert(k.to_string(), v.to_string());
    }
    m
}

fn element(tag: &str, props: &[(&str, &str)], style: &[(&str, &str)], children: Vec<AbstractVNode>) -> AbstractVNode {
    build_element(BuildElementOptions {
        tag: tag.to_string(),
        props: pmap(props),
        style: pmap(style),
        children,
    })
}

fn tag_of(node: &LoggedNode) -> &str {
    node.tag.as_ref().unwrap().as_str()
}

#[test]
fn test_basic_conversion() {
    let root = build_element(BuildElementOptions {
        tag: "div".to_string(),
        props: pmap(&[("id", "abc")]),
        style: pmap(&[]),
        children: vec![build_element(BuildElementOptions {
            tag: "p".to_string(),
            props: pmap(&[]),
            style: pmap(&[]),
            children: vec![build_text("Hello world")],
        })],
    });

    let ivn: InternalVNode<LoggedNode> = InternalVNode::from_abstract(&root);
    let dom_node = ivn.borrow_dom_node();

    assert!(dom_node.text.is_none());
    assert!(dom_node.tag.as_ref().unwrap().as_str() == "div");

    assert!(dom_node.actions.len() == 2);
    if let LoggedAction::SetProperty(ref k, ref v) = dom_node.actions[0] {
        assert!(k.as_str() == "id" && v.as_str() == "abc");
    } else {
        panic!();
    }
    if let LoggedAction::AppendChild(ref c) = dom_node.actions[1] {
        assert!(c.tag.as_ref().unwrap().as_str() == "p");
        if let LoggedAction::AppendChild(ref c) = c.actions[0] {
            assert!(c.text.as_ref().unwrap().as_str() == "Hello world");
        } else {
            panic!();
        }
    } else {
        panic!();
    }
}

#[test]
fn build_applies_properties_then_style_then_children() {
    let root = element(
        "div",
        &[("title", "t"), ("id", "x")],
        &[("width", "1px"), ("color", "red")],
        vec![build_text("a"), element("b", &[], &[], vec![])],
    );
    let ivn: InternalVNode<LoggedNode> = InternalVNode::from_abstract(&root);
    let actions = &ivn.borrow_dom_node().actions;
    assert_eq!(actions.len(), 6);
    assert!(matches!(&actions[0], LoggedAction::SetProperty(k, v) if k == "id" && v == "x"));
    assert!(matches!(&actions[1], LoggedAction::SetProperty(k, v) if k == "title" && v == "t"));
    assert!(matches!(&actions[2], LoggedAction::SetStyle(k, v) if k == "color" && v == "red"));
    assert!(matches!(&actions[3], LoggedAction::SetStyle(k, v) if k == "width" && v == "1px"));
    assert!(matches!(&actions[4], LoggedAction::AppendChild(c) if c.text.as_deref() == Some("a")));
    assert!(matches!(&actions[5], LoggedAction::AppendChild(c) if tag_of(c) == "b" && c.actions.is_empty()));
}

#[test]
fn build_of_text_issues_no_call() {
    let ivn: InternalVNode<LoggedNode> = InternalVNode::from_abstract(&build_text("hi"));
    let node = ivn.into_dom_node();
    assert_eq!(node.text.as_deref(), Some("hi"));
    assert!(node.tag.is_none());
    assert!(node.actions.is_empty());
}

#[test]
fn build_creates_one_instance_per_node() {
    let root = element(
        "ul",
        &[],
        &[],
        vec![
            element("li", &[], &[], vec![build_text("1")]),
            element("li", &[], &[], vec![build_text("2")]),
        ],
    );
    let ivn: InternalVNode<LoggedNode> = InternalVNode::from_abstract(&root);
    fn count(node: &LoggedNode) -> usize {
        let mut n = 1;
        for a in &node.actions {
            if let LoggedAction::AppendChild(c) = a {
                n += count(c);
            }
        }
        n
    }
    assert_eq!(count(ivn.borrow_dom_node()), 5);
    ivn.release();
}

#[test]
fn reconcile_with_equal_tree_issues_no_call() {
    let make = || {
        element(
            "div",
            &[("id", "abc")],
            &[("color", "red")],
            vec![element("p", &[("k", "v")], &[], vec![build_text("Hello")]), build_text("tail")],
        )
    };
    let mut ivn: InternalVNode<LoggedNode> = InternalVNode::from_abstract(&make());
    let before = ivn.borrow_dom_node().actions.len();
    let orphan = ivn.update(&make());
    assert!(orphan.is_none());
    assert_eq!(ivn.borrow_dom_node().actions.len(), before);
    assert_eq!(before, 4);
}

#[test]
fn single_property_change_sets_once() {
    let mut ivn: InternalVNode<LoggedNode> =
        InternalVNode::from_abstract(&element("div", &[("class", "a"), ("id", "x")], &[], vec![]));
    let orphan = ivn.update(&element("div", &[("class", "a"), ("id", "y")], &[], vec![]));
    assert!(orphan.is_none());
    let actions = &ivn.borrow_dom_node().actions;
    assert_eq!(actions.len(), 3);
    assert!(matches!(&actions[2], LoggedAction::SetProperty(k, v) if k == "id" && v == "y"));
}

#[test]
fn single_style_change_sets_once() {
    let mut ivn: InternalVNode<LoggedNode> =
        InternalVNode::from_abstract(&element("div", &[], &[("color", "red")], vec![]));
    assert!(ivn.update(&element("div", &[], &[("color", "blue")], vec![])).is_none());
    let actions = &ivn.borrow_dom_node().actions;
    assert_eq!(actions.len(), 2);
    assert!(matches!(&actions[1], LoggedAction::SetStyle(k, v) if k == "color" && v == "blue"));
}

#[test]
fn property_removal_deletes_once() {
    let mut ivn: InternalVNode<LoggedNode> =
        InternalVNode::from_abstract(&element("div", &[("class", "a"), ("id", "x")], &[("w", "1")], vec![]));
    assert!(ivn.update(&element("div", &[("id", "x")], &[], vec![])).is_none());
    let actions = &ivn.borrow_dom_node().actions;
    assert_eq!(actions.len(), 5);
    assert!(matches!(&actions[3], LoggedAction::RemoveProperty(k) if k == "class"));
    assert!(matches!(&actions[4], LoggedAction::RemoveStyle(k) if k == "w"));
}

#[test]
fn insertions_come_before_removals() {
    let mut ivn: InternalVNode<LoggedNode> =
        InternalVNode::from_abstract(&element("div", &[("a", "1"), ("b", "2")], &[], vec![]));
    assert!(ivn.update(&element("div", &[("b", "3"), ("c", "4")], &[], vec![])).is_none());
    let actions = &ivn.borrow_dom_node().actions;
    assert_eq!(actions.len(), 5);
    assert!(matches!(&actions[2], LoggedAction::SetProperty(k, v) if k == "b" && v == "3"));
    assert!(matches!(&actions[3], LoggedAction::SetProperty(k, v) if k == "c" && v == "4"));
    assert!(matches!(&actions[4], LoggedAction::RemoveProperty(k) if k == "a"));
}

#[test]
fn child_growth_appends_new_children_only() {
    let mut ivn: InternalVNode<LoggedNode> =
        InternalVNode::from_abstract(&element("ul", &[], &[], vec![build_text("0")]));
    let grown = element(
        "ul",
        &[],
        &[],
        vec![build_text("0"), element("li", &[("n", "1")], &[], vec![build_text("x")]), build_text("2")],
    );
    assert!(ivn.update(&grown).is_none());
    let actions = &ivn.borrow_dom_node().actions;
    assert_eq!(actions.len(), 3);
    match &actions[1] {
        LoggedAction::AppendChild(c) => {
            assert_eq!(tag_of(c), "li");
            assert_eq!(c.actions.len(), 2);
            assert!(matches!(&c.actions[0], LoggedAction::SetProperty(k, v) if k == "n" && v == "1"));
            assert!(matches!(&c.actions[1], LoggedAction::AppendChild(t) if t.text.as_deref() == Some("x")));
        }
        _ => panic!(),
    }
    assert!(matches!(&actions[2], LoggedAction::AppendChild(c) if c.text.as_deref() == Some("2")));
    assert!(!actions.iter().any(|a| matches!(a, LoggedAction::RemoveChild(_))));
}

#[test]
fn child_shrink_removes_from_the_last_down() {
    let mut ivn: InternalVNode<LoggedNode> = InternalVNode::from_abstract(&element(
        "ul",
        &[],
        &[],
        vec![build_text("0"), build_text("1"), build_text("2"), build_text("3")],
    ));
    assert!(ivn.update(&element("ul", &[], &[], vec![build_text("0")])).is_none());
    let actions = &ivn.borrow_dom_node().actions;
    assert_eq!(actions.len(), 7);
    assert!(matches!(&actions[4], LoggedAction::RemoveChild(c) if c.text.as_deref() == Some("3")));
    assert!(matches!(&actions[5], LoggedAction::RemoveChild(c) if c.text.as_deref() == Some("2")));
    assert!(matches!(&actions[6], LoggedAction::RemoveChild(c) if c.text.as_deref() == Some("1")));
}

#[test]
fn kind_change_of_a_child_replaces_it() {
    let mut ivn: InternalVNode<LoggedNode> = InternalVNode::from_abstract(&element(
        "div",
        &[],
        &[],
        vec![build_text("keep"), element("div", &[("id", "old")], &[], vec![build_text("x")])],
    ));
    let next = element(
        "div",
        &[],
        &[],
        vec![build_text("keep"), element("span", &[("id", "new")], &[], vec![])],
    );
    assert!(ivn.update(&next).is_none());
    let actions = &ivn.borrow_dom_node().actions;
    assert_eq!(actions.len(), 3);
    match &actions[2] {
        LoggedAction::ReplaceChild(new_child, old_child) => {
            assert_eq!(tag_of(new_child), "span");
            assert_eq!(new_child.actions.len(), 1);
            assert!(matches!(&new_child.actions[0], LoggedAction::SetProperty(k, v) if k == "id" && v == "new"));
            assert_eq!(tag_of(old_child), "div");
            assert_eq!(old_child.actions.len(), 2);
        }
        _ => panic!(),
    }
}

#[test]
fn text_change_replaces_the_node() {
    let mut ivn: InternalVNode<LoggedNode> = InternalVNode::from_abstract(&build_text("old"));
    let orphan = ivn.update(&build_text("new")).unwrap();
    assert_eq!(orphan.text.as_deref(), Some("old"));
    assert!(orphan.actions.is_empty());
    assert_eq!(ivn.borrow_dom_node().text.as_deref(), Some("new"));
}

#[test]
fn root_kind_change_hands_back_the_old_instance() {
    let mut ivn: InternalVNode<LoggedNode> =
        InternalVNode::from_abstract(&element("div", &[("id", "a")], &[], vec![build_text("x")]));
    let orphan = ivn.update(&build_text("plain")).unwrap();
    assert_eq!(tag_of(&orphan), "div");
    assert_eq!(orphan.actions.len(), 2);
    assert_eq!(ivn.borrow_dom_node().text.as_deref(), Some("plain"));
    let back = ivn.update(&element("p", &[], &[], vec![])).unwrap();
    assert_eq!(back.text.as_deref(), Some("plain"));
    assert_eq!(tag_of(ivn.borrow_dom_node()), "p");
}

#[test]
fn swapped_children_are_both_replaced() {
    let mut ivn: InternalVNode<LoggedNode> = InternalVNode::from_abstract(&element(
        "div",
        &[],
        &[],
        vec![element("a", &[], &[], vec![]), element("b", &[], &[], vec![])],
    ));
    let next = element("div", &[], &[], vec![element("b", &[], &[], vec![]), element("a", &[], &[], vec![])]);
    assert!(ivn.update(&next).is_none());
    let actions = &ivn.borrow_dom_node().actions;
    assert_eq!(actions.len(), 4);
    assert!(matches!(&actions[2], LoggedAction::ReplaceChild(n, o) if tag_of(n) == "b" && tag_of(o) == "a"));
    assert!(matches!(&actions[3], LoggedAction::ReplaceChild(n, o) if tag_of(n) == "a" && tag_of(o) == "b"));
}

#[test]
fn nested_change_stays_below() {
    let mut ivn: InternalVNode<LoggedNode> = InternalVNode::from_abstract(&element(
        "div",
        &[],
        &[],
        vec![element("p", &[("id", "1")], &[], vec![])],
    ));
    let next = element("div", &[], &[], vec![element("p", &[("id", "2")], &[], vec![])]);
    assert!(ivn.update(&next).is_none());
    assert_eq!(ivn.borrow_dom_node().actions.len(), 1);
}
