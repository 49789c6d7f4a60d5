//! Tree descriptions, the live tree bound to a backend, and the two
//! algorithms that connect them: build and reconcile.

use crate::dom::{Call, Node, Origin, Record};
use crate::map_diff::{btreemap_insertions, insertions, pairs_view, removals};
use crate::props::{Entry, PropertyMap};
use vstd::prelude::*;

verus! {

/// What one node is: an element with a tag, attributes and style, or a text.
/// Exactly one of `tag` and `text` is set.
#[derive(Clone, Debug, PartialEq, Eq)]
pub struct BasicVNode {
    pub tag: Option<String>,
    pub props: PropertyMap,
    pub style: PropertyMap,
    pub text: Option<String>,
}

/// The mathematical content of a `BasicVNode`.
pub struct Description {
    pub origin: Origin,
    pub props: Seq<Entry>,
    pub style: Seq<Entry>,
}

/// A description with its children: what application code produces anew on
/// every render pass.
#[derive(Debug, PartialEq, Eq)]
pub struct AbstractVNode {
    pub node: BasicVNode,
    pub children: Vec<AbstractVNode>,
}

/// A node of the live tree: the description last applied, the backend
/// instance it owns, and its children.
pub struct InternalVNode<T: Node> {
    node: BasicVNode,
    dom_node: T,
    children: Vec<InternalVNode<T>>,
}

/// The string behind an optional string.
pub open spec fn opt_view(s: Option<String>) -> Option<Seq<char>> {
    match s {
        Some(t) => Some(t@),
        None => None,
    }
}

/// The calls that set (`present`) or delete each of `entries` in turn, as
/// attributes or (`as_style`) as style entries.
pub open spec fn entry_calls(entries: Seq<Entry>, present: bool, as_style: bool) -> Seq<Call> {
    Seq::new(
        entries.len(),
        |i: int|
            {
                let value = if present {
                    Some(entries[i].1)
                } else {
                    None
                };
                if as_style {
                    Call::SetStyle(entries[i].0, value)
                } else {
                    Call::SetProperty(entries[i].0, value)
                }
            },
    )
}

/// The calls that bring a mapping from `previous` to `current`: first every
/// new or changed entry is set, then every vanished key is deleted.
pub open spec fn diff_calls(current: Seq<Entry>, previous: Seq<Entry>, as_style: bool) -> Seq<
    Call,
> {
    entry_calls(insertions(current, previous, true), true, as_style) + entry_calls(
        removals(previous, current),
        false,
        as_style,
    )
}

impl View for BasicVNode {
    type V = Description;

    open spec fn view(&self) -> Description {
        Description { origin: self.origin(), props: self.props@, style: self.style@ }
    }
}

impl BasicVNode {
    /// Exactly one kind is populated, a text carries no attributes or style,
    /// and both mappings are in key order.
    pub open spec fn wf(&self) -> bool {
        &&& (self.tag is Some) != (self.text is Some)
        &&& self.props.wf()
        &&& self.style.wf()
        &&& self.text is Some ==> self.props@.len() == 0 && self.style@.len() == 0
    }

    /// The kind of node described.
    pub open spec fn origin(&self) -> Origin {
        match (self.text, self.tag) {
            (Some(t), _) => Origin::Text(t@),
            (None, Some(tag)) => Origin::Element(tag@),
            (None, None) => Origin::Element(Seq::empty()),
        }
    }

    /// This description is of the kind of `before` and has the attributes
    /// and the style of `a`.
    pub open spec fn retagged(&self, before: &BasicVNode, a: &AbstractVNode) -> bool {
        &&& self.tag == before.tag
        &&& self.text == before.text
        &&& self.props@ == a.node.props@
        &&& self.style@ == a.node.style@
    }

    /// The description of an element without attributes or style.
    pub fn new_element(tag: &str) -> (node: BasicVNode)
        ensures
            node.wf(),
            node.text is None,
            node@ == (Description {
                origin: Origin::Element(tag@),
                props: Seq::empty(),
                style: Seq::empty(),
            }),
    {
        BasicVNode {
            tag: Some(tag.to_string()),
            props: PropertyMap::new(),
            style: PropertyMap::new(),
            text: None,
        }
    }

    /// The description of a text.
    pub fn new_text(t: &str) -> (node: BasicVNode)
        ensures
            node.wf(),
            node.tag is None,
            node@ == (Description {
                origin: Origin::Text(t@),
                props: Seq::empty(),
                style: Seq::empty(),
            }),
    {
        BasicVNode {
            tag: None,
            props: PropertyMap::new(),
            style: PropertyMap::new(),
            text: Some(t.to_string()),
        }
    }

    /// A copy of this description.
    pub fn duplicate(&self) -> (node: BasicVNode)
        ensures
            node@ == self@,
            opt_view(node.tag) == opt_view(self.tag),
            opt_view(node.text) == opt_view(self.text),
            self.wf() ==> node.wf(),
    {
        BasicVNode {
            tag: match &self.tag {
                Some(t) => Some(t.clone()),
                None => None,
            },
            props: self.props.duplicate(),
            style: self.style.duplicate(),
            text: match &self.text {
                Some(t) => Some(t.clone()),
                None => None,
            },
        }
    }
}

impl Clone for AbstractVNode {
    fn clone(&self) -> (copy: Self)
        ensures
            copy.same_tree(self),
    {
        self.duplicate()
    }
}

impl AbstractVNode {
    /// The children that count: a text has none.
    pub open spec fn kids(&self) -> Seq<AbstractVNode> {
        if self.node.text is Some {
            Seq::empty()
        } else {
            self.children@
        }
    }

    /// Every description in the tree is well formed.
    pub open spec fn wf(&self) -> bool
        decreases self,
    {
        &&& self.node.wf()
        &&& self.node.text is None ==> forall|i: int|
            0 <= i < self.children@.len() ==> (#[trigger] self.children@[i]).wf()
    }

    /// The record that a backend instance has once this tree was built on
    /// it: created after the description, then every attribute and every
    /// style entry set in key order, then each child appended, fully built.
    pub open spec fn build_record(&self) -> Record
        decreases self,
    {
        Record {
            origin: self.node.origin(),
            calls: if self.node.text is Some {
                Seq::empty()
            } else {
                entry_calls(self.node.props@, true, false) + entry_calls(
                    self.node.style@,
                    true,
                    true,
                ) + Seq::new(
                    self.children@.len(),
                    |i: int|
                        if 0 <= i < self.children@.len() {
                            Call::AppendChild(self.children@[i].build_record())
                        } else {
                            arbitrary()
                        },
                )
            },
        }
    }

    /// The number of nodes of the tree.
    pub open spec fn size(&self) -> nat
        decreases self, 1nat, 0nat,
    {
        1 + self.size_below(self.kids().len())
    }

    /// The number of nodes under the first `n` children that count.
    pub open spec fn size_below(&self, n: nat) -> nat
        decreases self, 0nat, n,
    {
        if n == 0 || n > self.kids().len() {
            0
        } else {
            self.size_below((n - 1) as nat) + self.kids()[n - 1].size()
        }
    }

    /// Node for node, this tree and `other` hold the same.
    pub open spec fn same_tree(&self, other: &AbstractVNode) -> bool
        decreases self,
    {
        &&& self.node@ == other.node@
        &&& opt_view(self.node.tag) == opt_view(other.node.tag)
        &&& opt_view(self.node.text) == opt_view(other.node.text)
        &&& self.children@.len() == other.children@.len()
        &&& forall|i: int|
            0 <= i < self.children@.len() ==> (#[trigger] self.children@[i]).same_tree(
                &other.children@[i],
            )
    }

    /// A deep copy of the tree.
    pub fn duplicate(&self) -> (copy: AbstractVNode)
        ensures
            copy.same_tree(self),
        decreases self,
    {
        let mut children: Vec<AbstractVNode> = Vec::new();
        let mut i: usize = 0;
        while i < self.children.len()
            invariant
                i <= self.children@.len(),
                children@.len() == i,
                forall|j: int|
                    0 <= j < i ==> (#[trigger] children@[j]).same_tree(&self.children@[j]),
            decreases self.children@.len() - i,
        {
            children.push(self.children[i].duplicate());
            i += 1;
        }
        AbstractVNode { node: self.node.duplicate(), children }
    }

    /// A tree of one node.
    pub fn new(node: BasicVNode) -> (tree: AbstractVNode)
        ensures
            tree.node == node,
            tree.children@ == Seq::<AbstractVNode>::empty(),
    {
        AbstractVNode { node, children: Vec::new() }
    }

    /// Adds `other` as the last child.
    pub fn append_child(&mut self, other: AbstractVNode)
        ensures
            final(self).node == old(self).node,
            final(self).children@ == old(self).children@.push(other),
    {
        self.children.push(other);
    }
}

/// Sets every entry of `map` on `dom_node`, in key order.
fn set_all<T: Node>(dom_node: &mut T, map: &PropertyMap, as_style: bool)
    ensures
        final(dom_node).record() == old(dom_node).record().extended(
            entry_calls(map@, true, as_style),
        ),
{
    let ghost start = dom_node.record();
    let ghost all = entry_calls(map@, true, as_style);
    let mut i: usize = 0;
    assert(start.extended(all.take(0)) == start) by {
        assert(start.calls + all.take(0) =~= start.calls);
    }
    while i < map.len()
        invariant
            i <= map@.len(),
            all == entry_calls(map@, true, as_style),
            dom_node.record() == start.extended(all.take(i as int)),
        decreases map@.len() - i,
    {
        let k = map.key_at(i);
        let v = map.value_at(i);
        if as_style {
            dom_node.set_style(k.as_str(), Some(v.as_str()));
        } else {
            dom_node.set_property(k.as_str(), Some(v.as_str()));
        }
        assert(start.calls + all.take(i + 1) =~= (start.calls + all.take(i as int)).push(
            all[i as int],
        ));
        i += 1;
    }
    assert(all.take(i as int) =~= all);
}

/// Applies each of `pairs` to `dom_node` in turn: sets it (`present`) or
/// deletes its key.
fn apply_pairs<T: Node>(
    dom_node: &mut T,
    pairs: &Vec<(&String, &String)>,
    present: bool,
    as_style: bool,
)
    ensures
        final(dom_node).record() == old(dom_node).record().extended(
            entry_calls(pairs_view(pairs@), present, as_style),
        ),
{
    let ghost start = dom_node.record();
    let ghost all = entry_calls(pairs_view(pairs@), present, as_style);
    let mut i: usize = 0;
    assert(start.extended(all.take(0)) == start) by {
        assert(start.calls + all.take(0) =~= start.calls);
    }
    while i < pairs.len()
        invariant
            i <= pairs@.len(),
            all == entry_calls(pairs_view(pairs@), present, as_style),
            dom_node.record() == start.extended(all.take(i as int)),
        decreases pairs@.len() - i,
    {
        let k = pairs[i].0;
        let v = pairs[i].1;
        let value = if present {
            Some(v.as_str())
        } else {
            None
        };
        if as_style {
            dom_node.set_style(k.as_str(), value);
        } else {
            dom_node.set_property(k.as_str(), value);
        }
        assert(start.calls + all.take(i + 1) =~= (start.calls + all.take(i as int)).push(
            all[i as int],
        ));
        i += 1;
    }
    assert(all.take(i as int) =~= all);
}

/// Brings the attributes, or the style, of `dom_node` from `previous` to
/// `current`.
fn apply_diff<T: Node>(
    dom_node: &mut T,
    current: &PropertyMap,
    previous: &PropertyMap,
    as_style: bool,
)
    requires
        current.wf(),
        previous.wf(),
    ensures
        final(dom_node).record() == old(dom_node).record().extended(
            diff_calls(current@, previous@, as_style),
        ),
{
    let ghost start = dom_node.record();
    let sets = btreemap_insertions(current, previous, true);
    let unsets = btreemap_insertions(previous, current, false);
    apply_pairs(dom_node, &sets, true, as_style);
    apply_pairs(dom_node, &unsets, false, as_style);
    assert(dom_node.record().calls =~= start.calls + diff_calls(current@, previous@, as_style));
}

/// Whether two optional strings hold the same.
fn same_opt(a: &Option<String>, b: &Option<String>) -> (same: bool)
    ensures
        same == (opt_view(*a) == opt_view(*b)),
{
    match (a, b) {
        (Some(x), Some(y)) => *x == *y,
        (None, None) => true,
        _ => false,
    }
}

impl<T: Node> InternalVNode<T> {
    /// The description last applied to this node.
    pub closed spec fn description(&self) -> BasicVNode {
        self.node
    }

    /// The backend instance that this node owns.
    pub closed spec fn instance(&self) -> T {
        self.dom_node
    }

    /// The record of the backend instance that this node owns.
    pub open spec fn record(&self) -> Record {
        self.instance().record()
    }

    /// The child nodes, in order.
    pub closed spec fn kids(&self) -> Seq<InternalVNode<T>> {
        self.children@
    }

    /// The invariant of the live tree: every stored description is well
    /// formed and of the kind that the owned instance was created with, and a
    /// text has no children.
    pub open spec fn wf(&self) -> bool
        decreases self,
    {
        &&& self.description().wf()
        &&& self.record().origin == self.description().origin()
        &&& self.description().text is Some ==> self.kids().len() == 0
        &&& forall|i: int| 0 <= i < self.kids().len() ==> (#[trigger] self.kids()[i]).wf()
    }

    /// This live tree is what building `a` yields: node for node it stores
    /// `a`'s description, and each instance has received exactly the calls of
    /// a build.
    pub open spec fn built_from(&self, a: &AbstractVNode) -> bool
        decreases self,
    {
        &&& self.description()@ == a.node@
        &&& self.record() == a.build_record()
        &&& self.kids().len() == a.kids().len()
        &&& forall|i: int|
            0 <= i < self.kids().len() ==> (#[trigger] self.kids()[i]).built_from(&a.kids()[i])
    }

    /// A child is a smaller tree than its parent.
    pub proof fn lemma_kid_is_smaller(&self, i: int)
        requires
            0 <= i < self.kids().len(),
        ensures
            decreases_to!(self => self.kids()[i]),
    {
    }

    /// This live tree has the shape of `a` and stores, node for node, `a`'s
    /// descriptions.
    pub open spec fn mirrors(&self, a: &AbstractVNode) -> bool
        decreases self,
    {
        &&& self.description()@ == a.node@
        &&& self.kids().len() == a.kids().len()
        &&& forall|i: int|
            0 <= i < self.kids().len() ==> (#[trigger] self.kids()[i]).mirrors(&a.kids()[i])
    }

    /// Node for node, the instances of this tree and of `other` have received
    /// the same calls.
    pub open spec fn same_records(&self, other: &InternalVNode<T>) -> bool
        decreases self,
    {
        &&& self.record() == other.record()
        &&& self.kids().len() == other.kids().len()
        &&& forall|i: int|
            0 <= i < self.kids().len() ==> (#[trigger] self.kids()[i]).same_records(
                &other.kids()[i],
            )
    }

    /// The number of backend instances that the tree owns.
    pub open spec fn instances(&self) -> nat
        decreases self, 1nat, 0nat,
    {
        1 + self.instances_below(self.kids().len())
    }

    /// The number of backend instances that the first `n` children own.
    pub open spec fn instances_below(&self, n: nat) -> nat
        decreases self, 0nat, n,
    {
        if n == 0 || n > self.kids().len() {
            0
        } else {
            self.instances_below((n - 1) as nat) + self.kids()[n - 1].instances()
        }
    }

    /// The calls that detach the children beyond the first `keep`, last child first.
    pub open spec fn removal_calls(&self, keep: int) -> Seq<Call> {
        Seq::new(
            if self.kids().len() > keep {
                (self.kids().len() - keep) as nat
            } else {
                0
            },
            |j: int| Call::RemoveChild(self.kids()[self.kids().len() - 1 - j].record()),
        )
    }

    /// The calls that swap in a rebuilt child at each of the first `upto`
    /// positions where the kind of child has changed, in position order.
    pub open spec fn replace_calls(&self, a: &AbstractVNode, upto: int) -> Seq<Call>
        decreases upto,
    {
        if upto <= 0 {
            Seq::empty()
        } else {
            let rest = self.replace_calls(a, upto - 1);
            let i = upto - 1;
            if self.kids()[i].description().origin() != a.kids()[i].node.origin() {
                rest.push(Call::ReplaceChild(a.kids()[i].build_record(), self.kids()[i].record()))
            } else {
                rest
            }
        }
    }

    /// The calls that append a fresh build of each child of `a` from position
    /// `from` on.
    pub open spec fn append_calls(a: &AbstractVNode, from: int) -> Seq<Call> {
        Seq::new(
            if a.kids().len() > from {
                (a.kids().len() - from) as nat
            } else {
                0
            },
            |j: int| Call::AppendChild(a.kids()[from + j].build_record()),
        )
    }

    /// The calls that the instance of this node receives when the node is
    /// reconciled with a description `a` of the same kind: attribute changes,
    /// style changes, removals of surplus children from the last down,
    /// replacements of children whose kind changed, and appends of new children.
    pub open spec fn update_calls(&self, a: &AbstractVNode) -> Seq<Call> {
        if self.description().text is Some {
            Seq::empty()
        } else {
            let common = if self.kids().len() < a.kids().len() {
                self.kids().len() as int
            } else {
                a.kids().len() as int
            };
            diff_calls(a.node.props@, self.description().props@, false) + diff_calls(
                a.node.style@,
                self.description().style@,
                true,
            ) + self.removal_calls(a.kids().len() as int) + self.replace_calls(a, common)
                + Self::append_calls(a, self.kids().len() as int)
        }
    }

    /// This live tree is what reconciling `before` with `a` yields. Where the
    /// kind of node differs it is a fresh build of `a`. Otherwise it stores
    /// `a`'s description, its instance is that of `before` after exactly the
    /// calls of `update_calls`, and child by child the same holds: a child at
    /// a position that `before` had is reconciled, a child beyond is built.
    pub open spec fn updated(&self, before: &InternalVNode<T>, a: &AbstractVNode) -> bool
        decreases self,
    {
        if before.description().origin() != a.node.origin() {
            self.built_from(a)
        } else {
            &&& self.description()@ == a.node@
            &&& self.record() == before.record().extended(before.update_calls(a))
            &&& self.kids().len() == a.kids().len()
            &&& forall|i: int|
                0 <= i < self.kids().len() ==> if i < before.kids().len() {
                    (#[trigger] self.kids()[i]).updated(&before.kids()[i], &a.kids()[i])
                } else {
                    self.kids()[i].built_from(&a.kids()[i])
                }
        }
    }

    /// Builds the live tree for `root`: one backend instance per node, each
    /// configured and then given its children in order.
    pub fn from_abstract(root: &AbstractVNode) -> (tree: InternalVNode<T>)
        requires
            root.wf(),
        ensures
            tree.wf(),
            tree.built_from(root),
        decreases root,
    {
        match &root.node.text {
            Some(t) => {
                let text_node = T::new_text(t.as_str());
                InternalVNode { node: root.node.duplicate(), dom_node: text_node, children: Vec::new() }
            },
            None => {
                let tag = root.node.tag.as_ref().unwrap();
                let mut dom_node = T::new_element(tag.as_str());
                let mut children: Vec<InternalVNode<T>> = Vec::new();
                set_all(&mut dom_node, &root.node.props, false);
                set_all(&mut dom_node, &root.node.style, true);
                let ghost configured = dom_node.record();
                let ghost appends = Seq::new(
                    root.children@.len(),
                    |i: int|
                        if 0 <= i < root.children@.len() {
                            Call::AppendChild(root.children@[i].build_record())
                        } else {
                            arbitrary()
                        },
                );
                assert(configured.extended(appends.take(0)) == configured) by {
                    assert(configured.calls + appends.take(0) =~= configured.calls);
                }
                let mut i: usize = 0;
                while i < root.children.len()
                    invariant
                        root.wf(),
                        root.node.text is None,
                        i <= root.children@.len(),
                        appends.len() == root.children@.len(),
                        forall|j: int|
                            0 <= j < appends.len() ==> #[trigger] appends[j] == Call::AppendChild(
                                root.children@[j].build_record(),
                            ),
                        dom_node.record() == configured.extended(appends.take(i as int)),
                        children@.len() == i,
                        forall|j: int|
                            0 <= j < i ==> (#[trigger] children@[j]).wf() && children@[j].built_from(
                                &root.children@[j],
                            ),
                    decreases root.children@.len() - i,
                {
                    let child_node: InternalVNode<T> = InternalVNode::from_abstract(
                        &root.children[i],
                    );
                    dom_node.append_child(&child_node.dom_node);
                    children.push(child_node);
                    assert(configured.calls + appends.take(i + 1) =~= (configured.calls
                        + appends.take(i as int)).push(appends[i as int]));
                    i += 1;
                }
                assert(appends.take(i as int) =~= appends);
                let tree = InternalVNode { node: root.node.duplicate(), dom_node, children };
                assert(tree.record().calls =~= root.build_record().calls);
                tree
            },
        }
    }

    /// Releases every backend instance of the tree, children before their parent.
    pub fn release(self)
        decreases self,
    {
        let InternalVNode { node: _, dom_node, children } = self;
        Self::release_all(children);
        dom_node.release();
    }

    /// Releases every backend instance of every tree in `trees`, last tree first.
    fn release_all(trees: Vec<InternalVNode<T>>)
        decreases trees,
    {
        let mut rest = trees;
        while rest.len() > 0
            invariant
                rest@.len() <= trees@.len(),
                forall|j: int| 0 <= j < rest@.len() ==> rest@[j] == trees@[j],
            decreases rest@.len(),
        {
            let ghost k = rest@.len() - 1;
            let last = rest.pop().unwrap();
            proof {
                vstd::std_specs::vec::axiom_vec_index_decreases(trees, k);
                assert(last == trees[k]);
            }
            last.release();
        }
    }

    /// Reconciles this live tree with `root`, which takes its place. Where
    /// the kind of node has changed, the tree is rebuilt and the backend
    /// instance of the old root is handed back, for the caller to detach and
    /// release; the old root's descendants are released here. Otherwise the
    /// instance is kept and brought up to date, and nothing is handed back.
    pub fn update(&mut self, root: &AbstractVNode) -> (orphan: Option<T>)
        requires
            old(self).wf(),
            root.wf(),
        ensures
            final(self).wf(),
            final(self).updated(old(self), root),
            match orphan {
                Some(o) => old(self).description().origin() != root.node.origin() && o == old(
                    self,
                ).instance(),
                None => old(self).description().origin() == root.node.origin(),
            },
        decreases root,
    {
        if !same_opt(&self.node.tag, &root.node.tag) || !same_opt(&self.node.text, &root.node.text) {
            let mut other = Self::from_abstract(root);
            core::mem::swap(self, &mut other);
            let InternalVNode { node: _, dom_node, children } = other;
            Self::release_all(children);
            return Some(dom_node);
        }
        // A text has no attributes, style or children.
        if self.node.text.is_some() {
            assert(self.record().extended(self.update_calls(root)) == self.record()) by {
                assert(self.record().calls + Seq::<Call>::empty() =~= self.record().calls);
            }
            assert(self.node.props@ =~= root.node.props@);
            assert(self.node.style@ =~= root.node.style@);
            return None;
        }
        let ghost before = *self;
        let ghost start = self.dom_node.record();
        apply_diff(&mut self.dom_node, &root.node.props, &self.node.props, false);
        apply_diff(&mut self.dom_node, &root.node.style, &self.node.style, true);
        self.node.props = root.node.props.duplicate();
        self.node.style = root.node.style.duplicate();
        let ghost diffed = self.dom_node.record();
        let ghost removes = before.removal_calls(root.children@.len() as int);

        assert(diffed.extended(removes.take(0)) == diffed) by {
            assert(diffed.calls + removes.take(0) =~= diffed.calls);
        }
        while self.children.len() > root.children.len()
            invariant
                self.node.retagged(&before.node, root),
                self.children@.len() <= before.children@.len(),
                self.children@.len() >= root.children@.len() || self.children@.len()
                    == before.children@.len(),
                self.children@ == before.children@.take(self.children@.len() as int),
                removes == before.removal_calls(root.children@.len() as int),
                self.dom_node.record() == diffed.extended(
                    removes.take(before.children@.len() - self.children@.len()),
                ),
            decreases self.children@.len(),
        {
            let ghost n = before.children@.len() - self.children@.len();
            let last = self.children.pop().unwrap();
            self.dom_node.remove_child(&last.dom_node);
            last.release();
            assert(diffed.calls + removes.take(n + 1) =~= (diffed.calls + removes.take(n)).push(
                removes[n],
            ));
        }
        assert(removes.take(removes.len() as int) =~= removes);
        let ghost removed = self.dom_node.record();
        let ghost common = self.children@.len() as int;

        let mut pos: usize = 0;
        while pos < self.children.len()
            invariant
                before.wf(),
                root.wf(),
                root.node.text is None,
                before.node.text is None,
                self.node.retagged(&before.node, root),
                pos <= self.children@.len() == common <= root.children@.len(),
                common <= before.children@.len(),
                self.dom_node.record() == removed.extended(before.replace_calls(root, pos as int)),
                forall|j: int|
                    0 <= j < pos ==> (#[trigger] self.children@[j]).wf() && self.children@[j].updated(
                        &before.children@[j],
                        &root.children@[j],
                    ),
                forall|j: int| pos <= j < common ==> self.children@[j] == before.children@[j],
            decreases self.children@.len() - pos,
        {
            let ghost so_far = self.children@;
            let ghost repl = before.replace_calls(root, pos as int);
            let orig_dom_node = self.children[pos].update(&root.children[pos]);
            if let Some(orig_dom_node) = orig_dom_node {
                self.dom_node.replace_child(&self.children[pos].dom_node, &orig_dom_node);
                orig_dom_node.release();
                assert(removed.calls + repl.push(
                    Call::ReplaceChild(
                        root.children@[pos as int].build_record(),
                        before.children@[pos as int].record(),
                    ),
                ) =~= (removed.calls + repl).push(
                    Call::ReplaceChild(
                        root.children@[pos as int].build_record(),
                        before.children@[pos as int].record(),
                    ),
                ));
            }
            pos += 1;
        }
        let ghost replaced = self.dom_node.record();
        let ghost appends = Self::append_calls(root, common);
        assert(replaced.extended(appends.take(0)) == replaced) by {
            assert(replaced.calls + appends.take(0) =~= replaced.calls);
        }
        while pos < root.children.len()
            invariant
                root.wf(),
                root.node.text is None,
                self.node.retagged(&before.node, root),
                0 <= common <= pos <= root.children@.len(),
                self.children@.len() == pos,
                appends == Self::append_calls(root, common),
                self.dom_node.record() == replaced.extended(appends.take(pos - common)),
                forall|j: int|
                    0 <= j < common ==> (#[trigger] self.children@[j]).wf()
                        && self.children@[j].updated(&before.children@[j], &root.children@[j]),
                forall|j: int|
                    common <= j < pos ==> (#[trigger] self.children@[j]).wf()
                        && self.children@[j].built_from(&root.children@[j]),
            decreases root.children@.len() - pos,
        {
            let new_node = Self::from_abstract(&root.children[pos]);
            self.dom_node.append_child(&new_node.dom_node);
            self.children.push(new_node);
            assert(replaced.calls + appends.take(pos + 1 - common) =~= (replaced.calls
                + appends.take(pos - common)).push(appends[pos - common]));
            pos += 1;
        }
        assert(appends.take(pos - common) =~= appends);
        assert(root.kids() == root.children@);
        assert(self.dom_node.record().calls =~= start.calls + before.update_calls(root));
        None
    }

    /// Gives up the tree, returning the backend instance of its root.
    pub fn into_dom_node(self) -> (dom_node: T)
        ensures
            dom_node == self.instance(),
    {
        self.dom_node
    }

    /// The backend instance of the root.
    pub fn borrow_dom_node(&self) -> (dom_node: &T)
        ensures
            *dom_node == self.instance(),
    {
        &self.dom_node
    }
}

} // verus!
