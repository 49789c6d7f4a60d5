//! The capability a rendering backend has to offer, and the mathematical
//! record by which the engine's contracts speak of the calls made on it.

use vstd::prelude::*;

verus! {

/// What a backend instance was created as.
pub enum Origin {
    /// An immutable text node with this content.
    Text(Seq<char>),
    /// An element with this tag.
    Element(Seq<char>),
}

/// One call received by a backend instance after its creation. A call that
/// names another instance carries that instance's record at the time of the call.
pub enum Call {
    AppendChild(Record),
    RemoveChild(Record),
    /// The new child first, then the child it replaces.
    ReplaceChild(Record, Record),
    /// A key and its new value; `None` deletes the attribute.
    SetProperty(Seq<char>, Option<Seq<char>>),
    /// A key and its new value; `None` deletes the style entry.
    SetStyle(Seq<char>, Option<Seq<char>>),
}

/// All that happened to one backend instance: how it was created, and the
/// calls it has received since, oldest first.
pub struct Record {
    pub origin: Origin,
    pub calls: Seq<Call>,
}

impl Record {
    /// The record of an instance that was just created.
    pub open spec fn fresh(origin: Origin) -> Record {
        Record { origin, calls: Seq::empty() }
    }

    /// This record after one more call.
    pub open spec fn after(self, call: Call) -> Record {
        Record { origin: self.origin, calls: self.calls.push(call) }
    }

    /// This record after a run of further calls.
    pub open spec fn extended(self, calls: Seq<Call>) -> Record {
        Record { origin: self.origin, calls: self.calls + calls }
    }
}

/// The string behind an optional borrowed string.
pub open spec fn opt_text(value: Option<&str>) -> Option<Seq<char>> {
    match value {
        Some(v) => Some(v@),
        None => None,
    }
}

/// A handle into a rendering target. Every operation is assumed to succeed.
/// An instance is created by `new_text` or `new_element`, and given up by
/// `release`, which takes it by value: no instance is released twice or used
/// after its release.
pub trait Node: Sized {
    /// How this instance was created and which calls it has received. A
    /// backend whose methods are verified says here what its state stands
    /// for; one that renders outside the program has nothing to say.
    open spec fn record(&self) -> Record {
        arbitrary()
    }

    /// A fresh text node.
    fn new_text(t: &str) -> (node: Self)
        ensures
            node.record() == Record::fresh(Origin::Text(t@)),
    ;

    /// A fresh element without children, attributes or style.
    fn new_element(tag: &str) -> (node: Self)
        ensures
            node.record() == Record::fresh(Origin::Element(tag@)),
    ;

    /// Appends `child` as the last child.
    fn append_child(&mut self, child: &Self)
        ensures
            final(self).record() == old(self).record().after(Call::AppendChild(child.record())),
    ;

    /// Detaches `child`; does not release it.
    fn remove_child(&mut self, child: &Self)
        ensures
            final(self).record() == old(self).record().after(Call::RemoveChild(child.record())),
    ;

    /// Puts `new_child` in the place of `old_child`; does not release `old_child`.
    fn replace_child(&mut self, new_child: &Self, old_child: &Self)
        ensures
            final(self).record() == old(self).record().after(
                Call::ReplaceChild(new_child.record(), old_child.record()),
            ),
    ;

    /// Sets the attribute `key`, or deletes it where `value` is `None`.
    fn set_property(&mut self, key: &str, value: Option<&str>)
        ensures
            final(self).record() == old(self).record().after(
                Call::SetProperty(key@, opt_text(value)),
            ),
    ;

    /// Sets the style entry `key`, or deletes it where `value` is `None`.
    fn set_style(&mut self, key: &str, value: Option<&str>)
        ensures
            final(self).record() == old(self).record().after(Call::SetStyle(key@, opt_text(value))),
    ;

    /// Gives the instance up.
    fn release(self);
}

/// One call as a `LoggedNode` keeps it. A call that names another node keeps
/// a copy of that node as it was at the time of the call.
#[derive(Debug)]
pub enum LoggedAction {
    AppendChild(LoggedNode),
    RemoveChild(LoggedNode),
    /// The new child first, then the child it replaces.
    ReplaceChild(LoggedNode, LoggedNode),
    SetProperty(String, String),
    SetStyle(String, String),
    /// The attribute under this key was deleted.
    RemoveProperty(String),
    /// The style entry under this key was deleted.
    RemoveStyle(String),
}

/// A backend that renders nothing and keeps every call it receives, so that
/// the calls of a build or of a reconciliation can be enumerated afterwards.
#[derive(Debug)]
pub struct LoggedNode {
    pub text: Option<String>,
    pub tag: Option<String>,
    pub actions: Vec<LoggedAction>,
}

impl LoggedAction {
    /// The call that this action stands for.
    pub open spec fn as_call(&self) -> Call
        decreases self,
    {
        match self {
            LoggedAction::AppendChild(c) => Call::AppendChild(c.as_record()),
            LoggedAction::RemoveChild(c) => Call::RemoveChild(c.as_record()),
            LoggedAction::ReplaceChild(n, o) => Call::ReplaceChild(n.as_record(), o.as_record()),
            LoggedAction::SetProperty(k, v) => Call::SetProperty(k@, Some(v@)),
            LoggedAction::SetStyle(k, v) => Call::SetStyle(k@, Some(v@)),
            LoggedAction::RemoveProperty(k) => Call::SetProperty(k@, None),
            LoggedAction::RemoveStyle(k) => Call::SetStyle(k@, None),
        }
    }

    /// A deep copy.
    pub fn duplicate(&self) -> (copy: LoggedAction)
        ensures
            copy.as_call() == self.as_call(),
        decreases self,
    {
        match self {
            LoggedAction::AppendChild(c) => LoggedAction::AppendChild(c.duplicate()),
            LoggedAction::RemoveChild(c) => LoggedAction::RemoveChild(c.duplicate()),
            LoggedAction::ReplaceChild(n, o) => LoggedAction::ReplaceChild(
                n.duplicate(),
                o.duplicate(),
            ),
            LoggedAction::SetProperty(k, v) => LoggedAction::SetProperty(k.clone(), v.clone()),
            LoggedAction::SetStyle(k, v) => LoggedAction::SetStyle(k.clone(), v.clone()),
            LoggedAction::RemoveProperty(k) => LoggedAction::RemoveProperty(k.clone()),
            LoggedAction::RemoveStyle(k) => LoggedAction::RemoveStyle(k.clone()),
        }
    }
}

impl LoggedNode {
    /// What the node was created as, read off its two fields.
    pub open spec fn origin(&self) -> Origin {
        match (self.text, self.tag) {
            (Some(t), _) => Origin::Text(t@),
            (None, Some(tag)) => Origin::Element(tag@),
            (None, None) => Origin::Element(Seq::empty()),
        }
    }

    /// The record that the node's fields hold.
    pub open spec fn as_record(&self) -> Record
        decreases self,
    {
        Record {
            origin: self.origin(),
            calls: Seq::new(
                self.actions@.len(),
                |i: int|
                    if 0 <= i < self.actions@.len() {
                        self.actions@[i].as_call()
                    } else {
                        arbitrary()
                    },
            ),
        }
    }

    /// A deep copy.
    pub fn duplicate(&self) -> (copy: LoggedNode)
        ensures
            copy.text == self.text,
            copy.tag == self.tag,
            copy.as_record() == self.as_record(),
        decreases self,
    {
        let mut actions: Vec<LoggedAction> = Vec::new();
        let mut i: usize = 0;
        while i < self.actions.len()
            invariant
                i <= self.actions@.len(),
                actions@.len() == i,
                forall|j: int|
                    0 <= j < i ==> (#[trigger] actions@[j]).as_call() == self.actions@[j].as_call(),
            decreases self.actions@.len() - i,
        {
            actions.push(self.actions[i].duplicate());
            i += 1;
        }
        let copy = LoggedNode {
            text: match &self.text {
                Some(t) => Some(t.clone()),
                None => None,
            },
            tag: match &self.tag {
                Some(t) => Some(t.clone()),
                None => None,
            },
            actions,
        };
        assert(copy.as_record().calls =~= self.as_record().calls);
        copy
    }

    /// Keeps one more action.
    fn log(&mut self, action: LoggedAction)
        ensures
            final(self).as_record() == old(self).as_record().after(action.as_call()),
    {
        self.actions.push(action);
        assert(self.as_record().calls =~= old(self).as_record().calls.push(action.as_call()));
    }
}

impl Clone for LoggedAction {
    fn clone(&self) -> (copy: Self)
        ensures
            copy.as_call() == self.as_call(),
    {
        self.duplicate()
    }
}

impl Clone for LoggedNode {
    fn clone(&self) -> (copy: Self)
        ensures
            copy.as_record() == self.as_record(),
    {
        self.duplicate()
    }
}

impl Node for LoggedNode {
    open spec fn record(&self) -> Record {
        self.as_record()
    }

    fn new_text(t: &str) -> (node: Self) {
        let node = LoggedNode { text: Some(t.to_string()), tag: None, actions: Vec::new() };
        assert(node.as_record().calls =~= Seq::<Call>::empty());
        node
    }

    fn new_element(tag: &str) -> (node: Self) {
        let node = LoggedNode { text: None, tag: Some(tag.to_string()), actions: Vec::new() };
        assert(node.as_record().calls =~= Seq::<Call>::empty());
        node
    }

    fn append_child(&mut self, child: &Self) {
        self.log(LoggedAction::AppendChild(child.duplicate()));
    }

    fn remove_child(&mut self, child: &Self) {
        self.log(LoggedAction::RemoveChild(child.duplicate()));
    }

    fn replace_child(&mut self, new_child: &Self, old_child: &Self) {
        self.log(LoggedAction::ReplaceChild(new_child.duplicate(), old_child.duplicate()));
    }

    fn set_property(&mut self, key: &str, value: Option<&str>) {
        match value {
            Some(v) => self.log(LoggedAction::SetProperty(key.to_string(), v.to_string())),
            None => self.log(LoggedAction::RemoveProperty(key.to_string())),
        }
    }

    fn set_style(&mut self, key: &str, value: Option<&str>) {
        match value {
            Some(v) => self.log(LoggedAction::SetStyle(key.to_string(), v.to_string())),
            None => self.log(LoggedAction::RemoveStyle(key.to_string())),
        }
    }

    fn release(self) {
    }
}


} // verus!
