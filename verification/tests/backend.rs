use vdom::dom::{LoggedAction, LoggedNode, Node};
use vdom::vtree::build_text;

#[test]
fn recording_backend_starts_empty() {
    let t = LoggedNode::new_text("hello");
    assert_eq!(t.text.as_deref(), Some("hello"));
    assert!(t.tag.is_none());
    assert!(t.actions.is_empty());
    let e = LoggedNode::new_element("div");
    assert_eq!(e.tag.as_deref(), Some("div"));
    assert!(e.text.is_none());
    assert!(e.actions.is_empty());
}

#[test]
fn recording_backend_keeps_every_call_in_order() {
    let mut parent = LoggedNode::new_element("div");
    let mut child = LoggedNode::new_element("p");
    child.set_property("id", Some("c"));
    let other = LoggedNode::new_text("t");
    parent.set_property("id", Some("abc"));
    parent.set_property("id", None);
    parent.set_style("color", Some(""));
    parent.set_style("color", None);
    parent.append_child(&child);
    parent.replace_child(&other, &child);
    parent.remove_child(&other);
    assert_eq!(parent.actions.len(), 7);
    assert!(matches!(&parent.actions[0], LoggedAction::SetProperty(k, v) if k == "id" && v == "abc"));
    assert!(matches!(&parent.actions[1], LoggedAction::RemoveProperty(k) if k == "id"));
    assert!(matches!(&parent.actions[2], LoggedAction::SetStyle(k, v) if k == "color" && v.is_empty()));
    assert!(matches!(&parent.actions[3], LoggedAction::RemoveStyle(k) if k == "color"));
    assert!(matches!(&parent.actions[4], LoggedAction::AppendChild(c)
        if c.tag.as_deref() == Some("p") && c.actions.len() == 1));
    assert!(matches!(&parent.actions[5], LoggedAction::ReplaceChild(n, o)
        if n.text.as_deref() == Some("t") && o.tag.as_deref() == Some("p")));
    assert!(matches!(&parent.actions[6], LoggedAction::RemoveChild(c) if c.text.as_deref() == Some("t")));
    other.release();
    child.release();
    parent.release();
}

#[test]
fn recorded_child_is_a_snapshot() {
    let mut parent = LoggedNode::new_element("div");
    let mut child = LoggedNode::new_element("p");
    parent.append_child(&child);
    child.set_property("late", Some("1"));
    assert!(matches!(&parent.actions[0], LoggedAction::AppendChild(c) if c.actions.is_empty()));
    assert_eq!(child.actions.len(), 1);
}

#[test]
fn copies_are_deep() {
    let mut parent = LoggedNode::new_element("div");
    parent.append_child(&LoggedNode::new_text("a"));
    parent.set_style("k", Some("v"));
    let copy = parent.duplicate();
    let clone = parent.clone();
    parent.set_style("k", None);
    assert_eq!(copy.actions.len(), 2);
    assert_eq!(clone.actions.len(), 2);
    assert_eq!(copy.tag.as_deref(), Some("div"));
    assert!(matches!(&copy.actions[0], LoggedAction::AppendChild(c) if c.text.as_deref() == Some("a")));
    assert!(matches!(copy.actions[1].duplicate(), LoggedAction::SetStyle(k, v) if k == "k" && v == "v"));
    let tree = build_text("x");
    assert_eq!(tree.duplicate(), tree);
    assert_eq!(tree.clone(), tree);
}
