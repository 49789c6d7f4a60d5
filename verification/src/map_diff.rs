//! The one comparison of two ordered mappings that the reconciler needs: which
//! entries of one mapping are new, or changed, with respect to another.

use crate::props::{ascending, has_key, lemma_ascending_distinct, Entry, PropertyMap};
use vstd::prelude::*;

verus! {

/// Whether entry `e` has to be issued when going from `previous` to the mapping
/// that holds `e`: its key is absent from `previous`, or, where modifications
/// count, `previous` holds another value under it.
pub open spec fn differs(e: Entry, previous: Seq<Entry>, include_modification: bool) -> bool {
    !has_key(previous, e.0) || (include_modification && !previous.contains(e))
}

/// The entries of `current`, in its key order, that differ from `previous`.
pub open spec fn insertions(
    current: Seq<Entry>,
    previous: Seq<Entry>,
    include_modification: bool,
) -> Seq<Entry> {
    current.filter(|e: Entry| differs(e, previous, include_modification))
}

/// The entries of `previous` whose key `current` no longer holds.
pub open spec fn removals(previous: Seq<Entry>, current: Seq<Entry>) -> Seq<Entry> {
    insertions(previous, current, false)
}

/// The mathematical entries behind a list of borrowed pairs.
pub open spec fn pairs_view(pairs: Seq<(&String, &String)>) -> Seq<Entry> {
    pairs.map_values(|p: (&String, &String)| (p.0@, p.1@))
}

/// Returns, in `new_map`'s key order, every entry of `new_map` whose key is
/// absent from `old_map` or, if `include_modification` is set, present there
/// with a different value.
pub fn btreemap_insertions<'a>(
    new_map: &'a PropertyMap,
    old_map: &'a PropertyMap,
    include_modification: bool,
) -> (found: Vec<(&'a String, &'a String)>)
    requires
        old_map.wf(),
    ensures
        pairs_view(found@) == insertions(new_map@, old_map@, include_modification),
{
    let mut found: Vec<(&'a String, &'a String)> = Vec::new();
    let ghost pred = |e: Entry| differs(e, old_map@, include_modification);
    let mut i: usize = 0;
    proof {
        reveal(Seq::filter);
        assert(new_map@.take(0).filter(pred) =~= Seq::<Entry>::empty());
        assert(pairs_view(found@) =~= Seq::<Entry>::empty());
    }
    while i < new_map.len()
        invariant
            i <= new_map@.len(),
            old_map.wf(),
            pred == |e: Entry| differs(e, old_map@, include_modification),
            pairs_view(found@) == new_map@.take(i as int).filter(pred),
        decreases new_map@.len() - i,
    {
        let k = new_map.key_at(i);
        let v = new_map.value_at(i);
        let ghost e = new_map@[i as int];
        let need_insert = match old_map.get(k) {
            Some(old_value) => {
                proof {
                    let j = choose|j: int|
                        0 <= j < old_map@.len() && old_map@[j] == (k@, old_value@);
                    assert(old_map@[j].0 == e.0);
                    if old_map@.contains(e) {
                        let j2 = choose|j2: int| 0 <= j2 < old_map@.len() && old_map@[j2] == e;
                        lemma_ascending_distinct(old_map@, j, j2);
                    }
                    if old_value@ == v@ {
                        assert(old_map@[j] == e);
                    }
                }
                include_modification && *old_value != *v
            },
            None => true,
        };
        assert(need_insert == pred(e));
        proof {
            assert(new_map@.take(i + 1) =~= new_map@.take(i as int).push(e));
            new_map@.take(i as int).lemma_filter_push(e, pred);
        }
        if need_insert {
            let ghost before = found@;
            found.push((k, v));
            assert(pairs_view(found@) =~= pairs_view(before).push(e));
        }
        i += 1;
    }
    assert(new_map@.take(i as int) =~= new_map@);
    found
}

/// A filter that exactly one position passes keeps exactly that element.
proof fn lemma_filter_single(s: Seq<Entry>, pred: spec_fn(Entry) -> bool, i: int)
    requires
        0 <= i < s.len(),
        pred(s[i]),
        forall|j: int| 0 <= j < s.len() && j != i ==> !pred(#[trigger] s[j]),
    ensures
        s.filter(pred) == seq![s[i]],
    decreases s.len(),
{
    let rest = s.drop_last();
    assert(s =~= rest.push(s.last()));
    rest.lemma_filter_push(s.last(), pred);
    if i == s.len() - 1 {
        lemma_filter_none(rest, pred);
        assert(rest.filter(pred).push(s.last()) =~= seq![s[i]]);
    } else {
        assert(rest[i] == s[i]);
        lemma_filter_single(rest, pred, i);
    }
}

/// A filter that no position passes keeps nothing.
proof fn lemma_filter_none(s: Seq<Entry>, pred: spec_fn(Entry) -> bool)
    requires
        forall|j: int| 0 <= j < s.len() ==> !pred(#[trigger] s[j]),
    ensures
        s.filter(pred) == Seq::<Entry>::empty(),
    decreases s.len(),
{
    reveal(Seq::filter);
    if s.len() > 0 {
        let rest = s.drop_last();
        assert(s =~= rest.push(s.last()));
        rest.lemma_filter_push(s.last(), pred);
        lemma_filter_none(rest, pred);
    } else {
        assert(s.filter(pred) =~= Seq::<Entry>::empty());
    }
}

/// Comparing a mapping with itself yields nothing to set and nothing to remove.
pub proof fn lemma_unchanged_map_has_no_diff(m: Seq<Entry>)
    requires
        ascending(m),
    ensures
        insertions(m, m, true) == Seq::<Entry>::empty(),
        removals(m, m) == Seq::<Entry>::empty(),
{
    assert forall|j: int| 0 <= j < m.len() implies !differs(#[trigger] m[j], m, true) by {
        assert(m[j].0 == m[j].0);
    }
    lemma_filter_none(m, |e: Entry| differs(e, m, true));
    assert forall|j: int| 0 <= j < m.len() implies !differs(#[trigger] m[j], m, false) by {
        assert(m[j].0 == m[j].0);
    }
    lemma_filter_none(m, |e: Entry| differs(e, m, false));
}

/// Changing the value under one key yields exactly that entry, with its new
/// value, to set, and nothing to remove.
pub proof fn lemma_single_value_change(previous: Seq<Entry>, i: int, value: Seq<char>)
    requires
        ascending(previous),
        0 <= i < previous.len(),
        value != previous[i].1,
    ensures
        insertions(previous.update(i, (previous[i].0, value)), previous, true) == seq![
            (previous[i].0, value),
        ],
        removals(previous, previous.update(i, (previous[i].0, value))) == Seq::<Entry>::empty(),
{
    let current = previous.update(i, (previous[i].0, value));
    let set_pred = |e: Entry| differs(e, previous, true);
    assert forall|j: int| 0 <= j < current.len() && j != i implies !set_pred(
        #[trigger] current[j],
    ) by {
        assert(previous[j] == current[j]);
    }
    assert(set_pred(current[i])) by {
        if previous.contains(current[i]) {
            let j = choose|j: int| 0 <= j < previous.len() && previous[j] == current[i];
            lemma_ascending_distinct(previous, i, j);
        }
    }
    lemma_filter_single(current, set_pred, i);
    let gone_pred = |e: Entry| differs(e, current, false);
    assert forall|j: int| 0 <= j < previous.len() implies !gone_pred(#[trigger] previous[j]) by {
        assert(current[j].0 == previous[j].0);
    }
    lemma_filter_none(previous, gone_pred);
}

/// Dropping one key yields exactly that entry to remove, and nothing to set.
pub proof fn lemma_single_key_removal(previous: Seq<Entry>, i: int)
    requires
        ascending(previous),
        0 <= i < previous.len(),
    ensures
        insertions(previous.remove(i), previous, true) == Seq::<Entry>::empty(),
        removals(previous, previous.remove(i)) == seq![previous[i]],
{
    let current = previous.remove(i);
    let set_pred = |e: Entry| differs(e, previous, true);
    assert forall|j: int| 0 <= j < current.len() implies !set_pred(#[trigger] current[j]) by {
        if j < i {
            assert(previous[j] == current[j]);
        } else {
            assert(previous[j + 1] == current[j]);
        }
    }
    lemma_filter_none(current, set_pred);
    let gone_pred = |e: Entry| differs(e, current, false);
    assert forall|j: int| 0 <= j < previous.len() && j != i implies !gone_pred(
        #[trigger] previous[j],
    ) by {
        if j < i {
            assert(current[j].0 == previous[j].0);
        } else {
            assert(current[j - 1].0 == previous[j].0);
        }
    }
    assert(gone_pred(previous[i])) by {
        if has_key(current, previous[i].0) {
            let j = choose|j: int| 0 <= j < current.len() && current[j].0 == previous[i].0;
            if j < i {
                lemma_ascending_distinct(previous, i, j);
            } else {
                lemma_ascending_distinct(previous, i, j + 1);
            }
        }
    }
    lemma_filter_single(previous, gone_pred, i);
}

} // verus!
