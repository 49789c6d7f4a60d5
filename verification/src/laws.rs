//! What holds of build and reconcile on every tree: the laws that relate
//! the calls issued to the change between two descriptions.

use crate::dom::{Call, Node};
use crate::map_diff::{
    lemma_single_key_removal, lemma_single_value_change, lemma_unchanged_map_has_no_diff,
};
use crate::props::Entry;
use crate::vnode::{diff_calls, entry_calls, AbstractVNode, InternalVNode};
use vstd::prelude::*;

verus! {

/// The children of `before` and of `a` agree in number and, position by
/// position, in kind.
pub open spec fn same_child_kinds<T: Node>(before: &InternalVNode<T>, a: &AbstractVNode) -> bool {
    &&& before.kids().len() == a.kids().len()
    &&& forall|i: int|
        0 <= i < before.kids().len() ==> (#[trigger] before.kids()[i]).description().origin()
            == a.kids()[i].node.origin()
}

/// A fresh build has the shape and the descriptions of the tree it was built from.
pub proof fn lemma_built_tree_mirrors<T: Node>(tree: &InternalVNode<T>, a: &AbstractVNode)
    requires
        tree.built_from(a),
    ensures
        tree.mirrors(a),
    decreases tree,
{
    assert forall|i: int| 0 <= i < tree.kids().len() implies (#[trigger] tree.kids()[i]).mirrors(
        &a.kids()[i],
    ) by {
        tree.lemma_kid_is_smaller(i);
        lemma_built_tree_mirrors(&tree.kids()[i], &a.kids()[i]);
    }
}

/// After a reconciliation the live tree has the shape and the descriptions
/// of the tree it was reconciled with, whatever it was before.
pub proof fn lemma_reconciled_tree_mirrors<T: Node>(
    after: &InternalVNode<T>,
    before: &InternalVNode<T>,
    a: &AbstractVNode,
)
    requires
        after.updated(before, a),
    ensures
        after.mirrors(a),
    decreases after,
{
    if before.description().origin() != a.node.origin() {
        lemma_built_tree_mirrors(after, a);
    } else {
        assert forall|i: int| 0 <= i < after.kids().len() implies (
        #[trigger] after.kids()[i]).mirrors(&a.kids()[i]) by {
            after.lemma_kid_is_smaller(i);
            if i < before.kids().len() {
                lemma_reconciled_tree_mirrors(&after.kids()[i], &before.kids()[i], &a.kids()[i]);
            } else {
                lemma_built_tree_mirrors(&after.kids()[i], &a.kids()[i]);
            }
        }
    }
}

/// A live tree that mirrors a description owns as many backend instances
/// under its first `n` children as the description has nodes there.
proof fn lemma_instances_below<T: Node>(tree: &InternalVNode<T>, a: &AbstractVNode, n: nat)
    requires
        tree.mirrors(a),
        n <= tree.kids().len(),
    ensures
        tree.instances_below(n) == a.size_below(n),
    decreases tree, 0nat, n,
{
    if n > 0 {
        lemma_instances_below(tree, a, (n - 1) as nat);
        tree.lemma_kid_is_smaller(n - 1);
        lemma_one_instance_per_node(&tree.kids()[n - 1], &a.kids()[n - 1]);
    }
}

/// A live tree that mirrors a description of `n` nodes owns exactly `n`
/// backend instances: one was created for each node, and each is there to
/// be released once. This holds of a fresh build and after every reconciliation.
pub proof fn lemma_one_instance_per_node<T: Node>(tree: &InternalVNode<T>, a: &AbstractVNode)
    requires
        tree.mirrors(a),
    ensures
        tree.instances() == a.size(),
    decreases tree, 1nat, 0nat,
{
    lemma_instances_below(tree, a, tree.kids().len());
}

/// Where no child among the first `upto` changes its kind, no child is replaced.
pub proof fn lemma_no_kind_change_no_replacement<T: Node>(
    before: &InternalVNode<T>,
    a: &AbstractVNode,
    upto: int,
)
    requires
        upto <= before.kids().len(),
        upto <= a.kids().len(),
        forall|i: int|
            0 <= i < upto ==> (#[trigger] before.kids()[i]).description().origin()
                == a.kids()[i].node.origin(),
    ensures
        before.replace_calls(a, upto) == Seq::<Call>::empty(),
    decreases upto,
{
    if upto > 0 {
        lemma_no_kind_change_no_replacement(before, a, upto - 1);
        assert(before.kids()[upto - 1].description().origin() == a.kids()[upto - 1].node.origin());
    }
}

/// Where the children keep their number and their kinds, an element
/// receives only the calls that bring its attributes and its style up to date.
pub proof fn lemma_calls_without_child_changes<T: Node>(before: &InternalVNode<T>, a: &AbstractVNode)
    requires
        before.description().text is None,
        same_child_kinds(before, a),
    ensures
        before.update_calls(a) == diff_calls(a.node.props@, before.description().props@, false)
            + diff_calls(a.node.style@, before.description().style@, true),
{
    lemma_no_kind_change_no_replacement(before, a, before.kids().len() as int);
    assert(before.update_calls(a) =~= diff_calls(
        a.node.props@,
        before.description().props@,
        false,
    ) + diff_calls(a.node.style@, before.description().style@, true));
}

/// An unchanged mapping costs no call.
pub proof fn lemma_unchanged_map_costs_nothing(m: Seq<Entry>, as_style: bool)
    requires
        crate::props::ascending(m),
    ensures
        diff_calls(m, m, as_style) == Seq::<Call>::empty(),
{
    lemma_unchanged_map_has_no_diff(m);
    assert(diff_calls(m, m, as_style) =~= Seq::<Call>::empty());
}

/// Reconciling a node with a description equal to the one it stores, over
/// children of unchanged number and kinds, issues no call on its instance.
pub proof fn lemma_equal_description_issues_no_call<T: Node>(
    before: &InternalVNode<T>,
    a: &AbstractVNode,
)
    requires
        before.wf(),
        before.description()@ == a.node@,
        same_child_kinds(before, a),
    ensures
        before.update_calls(a) == Seq::<Call>::empty(),
{
    if before.description().text is None {
        lemma_calls_without_child_changes(before, a);
        lemma_unchanged_map_costs_nothing(a.node.props@, false);
        lemma_unchanged_map_costs_nothing(a.node.style@, true);
    }
}

/// Reconciling a live tree with a description that is structurally equal to
/// what the tree stores issues no call at all: node for node, every
/// instance is left with the record it had.
pub proof fn lemma_noop_reconcile<T: Node>(
    after: &InternalVNode<T>,
    before: &InternalVNode<T>,
    a: &AbstractVNode,
)
    requires
        before.wf(),
        before.mirrors(a),
        after.updated(before, a),
    ensures
        after.same_records(before),
    decreases after,
{
    assert forall|i: int| 0 <= i < before.kids().len() implies (
    #[trigger] before.kids()[i]).description().origin() == a.kids()[i].node.origin() by {
        assert(before.kids()[i].mirrors(&a.kids()[i]));
    }
    lemma_equal_description_issues_no_call(before, a);
    assert(before.record().calls + Seq::<Call>::empty() =~= before.record().calls);
    assert forall|i: int| 0 <= i < after.kids().len() implies (
    #[trigger] after.kids()[i]).same_records(&before.kids()[i]) by {
        after.lemma_kid_is_smaller(i);
        assert(before.kids()[i].wf());
        assert(before.kids()[i].mirrors(&a.kids()[i]));
        lemma_noop_reconcile(&after.kids()[i], &before.kids()[i], &a.kids()[i]);
    }
}

/// Changing the value under one attribute key, and nothing else, issues
/// exactly one call on the node's instance: the attribute is set to its new value.
pub proof fn lemma_single_property_change<T: Node>(
    before: &InternalVNode<T>,
    a: &AbstractVNode,
    i: int,
    value: Seq<char>,
)
    requires
        before.wf(),
        before.description().text is None,
        same_child_kinds(before, a),
        0 <= i < before.description().props@.len(),
        value != before.description().props@[i].1,
        a.node.props@ == before.description().props@.update(
            i,
            (before.description().props@[i].0, value),
        ),
        a.node.style@ == before.description().style@,
    ensures
        before.update_calls(a) == seq![
            Call::SetProperty(before.description().props@[i].0, Some(value)),
        ],
{
    let previous = before.description().props@;
    lemma_calls_without_child_changes(before, a);
    lemma_single_value_change(previous, i, value);
    lemma_unchanged_map_costs_nothing(a.node.style@, true);
    assert(diff_calls(a.node.props@, previous, false) =~= seq![
        Call::SetProperty(previous[i].0, Some(value)),
    ]);
    assert(before.update_calls(a) =~= seq![Call::SetProperty(previous[i].0, Some(value))]);
}

/// Changing the value under one style key, and nothing else, issues exactly
/// one call on the node's instance: the style entry is set to its new value.
pub proof fn lemma_single_style_change<T: Node>(
    before: &InternalVNode<T>,
    a: &AbstractVNode,
    i: int,
    value: Seq<char>,
)
    requires
        before.wf(),
        before.description().text is None,
        same_child_kinds(before, a),
        0 <= i < before.description().style@.len(),
        value != before.description().style@[i].1,
        a.node.style@ == before.description().style@.update(
            i,
            (before.description().style@[i].0, value),
        ),
        a.node.props@ == before.description().props@,
    ensures
        before.update_calls(a) == seq![
            Call::SetStyle(before.description().style@[i].0, Some(value)),
        ],
{
    let previous = before.description().style@;
    lemma_calls_without_child_changes(before, a);
    lemma_single_value_change(previous, i, value);
    lemma_unchanged_map_costs_nothing(a.node.props@, false);
    assert(diff_calls(a.node.style@, previous, true) =~= seq![
        Call::SetStyle(previous[i].0, Some(value)),
    ]);
    assert(before.update_calls(a) =~= seq![Call::SetStyle(previous[i].0, Some(value))]);
}

/// Dropping one attribute key, and changing nothing else, issues exactly
/// one call on the node's instance: the attribute is deleted.
pub proof fn lemma_property_removal<T: Node>(before: &InternalVNode<T>, a: &AbstractVNode, i: int)
    requires
        before.wf(),
        before.description().text is None,
        same_child_kinds(before, a),
        0 <= i < before.description().props@.len(),
        a.node.props@ == before.description().props@.remove(i),
        a.node.style@ == before.description().style@,
    ensures
        before.update_calls(a) == seq![
            Call::SetProperty(before.description().props@[i].0, None),
        ],
{
    let previous = before.description().props@;
    lemma_calls_without_child_changes(before, a);
    lemma_single_key_removal(previous, i);
    lemma_unchanged_map_costs_nothing(a.node.style@, true);
    assert(diff_calls(a.node.props@, previous, false) =~= seq![
        Call::SetProperty(previous[i].0, None),
    ]);
    assert(before.update_calls(a) =~= seq![Call::SetProperty(previous[i].0, None)]);
}

/// Every call that puts a rebuilt child in place is a replacement.
pub proof fn lemma_replace_calls_are_replacements<T: Node>(
    before: &InternalVNode<T>,
    a: &AbstractVNode,
    upto: int,
)
    ensures
        forall|k: int|
            0 <= k < before.replace_calls(a, upto).len() ==> (
            #[trigger] before.replace_calls(a, upto)[k]) is ReplaceChild,
    decreases upto,
{
    if upto > 0 {
        lemma_replace_calls_are_replacements(before, a, upto - 1);
    }
}

/// Growing an element from `N` to `M` children appends exactly `M - N` freshly
/// built children, the new ones in order, and detaches none.
pub proof fn lemma_child_growth<T: Node>(
    after: &InternalVNode<T>,
    before: &InternalVNode<T>,
    a: &AbstractVNode,
)
    requires
        before.description().text is None,
        before.description().origin() == a.node.origin(),
        before.kids().len() < a.kids().len(),
        after.updated(before, a),
    ensures
        InternalVNode::<T>::append_calls(a, before.kids().len() as int).len() == a.kids().len()
            - before.kids().len(),
        forall|j: int|
            0 <= j < a.kids().len() - before.kids().len() ==> #[trigger] InternalVNode::<
                T,
            >::append_calls(a, before.kids().len() as int)[j] == Call::AppendChild(
                a.kids()[before.kids().len() + j].build_record(),
            ),
        forall|i: int|
            before.kids().len() <= i < a.kids().len() ==> (#[trigger] after.kids()[i]).built_from(
                &a.kids()[i],
            ),
        forall|k: int|
            0 <= k < before.update_calls(a).len() ==> !(
            #[trigger] before.update_calls(a)[k] is RemoveChild),
{
    let n = before.kids().len() as int;
    lemma_replace_calls_are_replacements(before, a, n);
    assert(before.removal_calls(a.kids().len() as int) =~= Seq::<Call>::empty());
}

/// Shrinking an element from `N` to `M` children detaches exactly `N - M`
/// children, those at positions `N - 1` down to `M` in that order, and appends none.
pub proof fn lemma_child_shrink<T: Node>(before: &InternalVNode<T>, a: &AbstractVNode)
    requires
        before.description().text is None,
        before.kids().len() > a.kids().len(),
    ensures
        before.removal_calls(a.kids().len() as int).len() == before.kids().len() - a.kids().len(),
        forall|j: int|
            0 <= j < before.kids().len() - a.kids().len() ==> #[trigger] before.removal_calls(
                a.kids().len() as int,
            )[j] == Call::RemoveChild(before.kids()[before.kids().len() - 1 - j].record()),
        forall|k: int|
            0 <= k < before.update_calls(a).len() ==> !(
            #[trigger] before.update_calls(a)[k] is AppendChild),
{
    let m = a.kids().len() as int;
    lemma_replace_calls_are_replacements(before, a, m);
    assert(InternalVNode::<T>::append_calls(a, before.kids().len() as int) =~= Seq::<
        Call,
    >::empty());
}

/// Where exactly the child at position `i` among the first `upto` changes
/// its kind, exactly one replacement is issued: the fresh build of the new
/// child goes in the place of the old child's instance, as it was.
pub proof fn lemma_single_replacement<T: Node>(
    before: &InternalVNode<T>,
    a: &AbstractVNode,
    upto: int,
    i: int,
)
    requires
        0 <= i < upto,
        upto <= before.kids().len(),
        upto <= a.kids().len(),
        before.kids()[i].description().origin() != a.kids()[i].node.origin(),
        forall|j: int|
            0 <= j < upto && j != i ==> (#[trigger] before.kids()[j]).description().origin()
                == a.kids()[j].node.origin(),
    ensures
        before.replace_calls(a, upto) == seq![
            Call::ReplaceChild(a.kids()[i].build_record(), before.kids()[i].record()),
        ],
    decreases upto,
{
    if upto - 1 == i {
        lemma_no_kind_change_no_replacement(before, a, upto - 1);
        assert(before.replace_calls(a, upto) =~= seq![
            Call::ReplaceChild(a.kids()[i].build_record(), before.kids()[i].record()),
        ]);
    } else {
        lemma_single_replacement(before, a, upto - 1, i);
        assert(before.kids()[upto - 1].description().origin() == a.kids()[upto - 1].node.origin());
    }
}

/// A child whose kind changes at a position that stays is rebuilt in full,
/// and, where no other child changes, the parent's instance receives
/// exactly one call: the replacement of the old child's instance, untouched,
/// by the new one.
pub proof fn lemma_kind_change_replace<T: Node>(
    after: &InternalVNode<T>,
    before: &InternalVNode<T>,
    a: &AbstractVNode,
    i: int,
)
    requires
        before.wf(),
        before.description()@ == a.node@,
        before.kids().len() == a.kids().len(),
        0 <= i < before.kids().len(),
        before.kids()[i].description().origin() != a.kids()[i].node.origin(),
        forall|j: int|
            0 <= j < before.kids().len() && j != i ==> (
            #[trigger] before.kids()[j]).description().origin() == a.kids()[j].node.origin(),
        after.updated(before, a),
    ensures
        after.kids()[i].built_from(&a.kids()[i]),
        before.update_calls(a) == seq![
            Call::ReplaceChild(a.kids()[i].build_record(), before.kids()[i].record()),
        ],
{
    assert(after.kids()[i].updated(&before.kids()[i], &a.kids()[i]));
    lemma_single_replacement(before, a, before.kids().len() as int, i);
    lemma_unchanged_map_costs_nothing(a.node.props@, false);
    lemma_unchanged_map_costs_nothing(a.node.style@, true);
    assert(before.update_calls(a) =~= seq![
        Call::ReplaceChild(a.kids()[i].build_record(), before.kids()[i].record()),
    ]);
}

} // verus!
