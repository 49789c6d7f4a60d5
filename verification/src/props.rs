//! An ordered string-to-string mapping: entries are kept in strictly ascending
//! key order, so that a key occurs at most once and iteration is lexicographic.

use vstd::prelude::*;

verus! {

/// One key with its value, as mathematical strings.
pub type Entry = (Seq<char>, Seq<char>);

/// Lexicographic order on strings by code point.
pub open spec fn str_lt(a: Seq<char>, b: Seq<char>) -> bool
    decreases a.len(),
{
    if b.len() == 0 {
        false
    } else if a.len() == 0 {
        true
    } else if a[0] != b[0] {
        a[0] < b[0]
    } else {
        str_lt(a.drop_first(), b.drop_first())
    }
}

/// No string is below itself.
pub proof fn lemma_str_lt_irreflexive(a: Seq<char>)
    ensures
        !str_lt(a, a),
    decreases a.len(),
{
    if a.len() > 0 {
        lemma_str_lt_irreflexive(a.drop_first());
    }
}

/// The order is transitive.
pub proof fn lemma_str_lt_transitive(a: Seq<char>, b: Seq<char>, c: Seq<char>)
    requires
        str_lt(a, b),
        str_lt(b, c),
    ensures
        str_lt(a, c),
    decreases a.len(),
{
    if a.len() > 0 && b.len() > 0 && c.len() > 0 && a[0] == b[0] && b[0] == c[0] {
        lemma_str_lt_transitive(a.drop_first(), b.drop_first(), c.drop_first());
    }
}

/// Two strings of which neither is below the other are the same string.
pub proof fn lemma_str_lt_connected(a: Seq<char>, b: Seq<char>)
    requires
        !str_lt(a, b),
        !str_lt(b, a),
    ensures
        a == b,
    decreases a.len(),
{
    if a.len() > 0 && b.len() > 0 {
        lemma_str_lt_connected(a.drop_first(), b.drop_first());
        assert(a =~= seq![a[0]] + a.drop_first());
        assert(b =~= seq![b[0]] + b.drop_first());
    } else {
        assert(a =~= b);
    }
}

/// Keys strictly ascending from first to last.
pub open spec fn ascending(m: Seq<Entry>) -> bool {
    forall|i: int, j: int| 0 <= i < j < m.len() ==> str_lt(#[trigger] m[i].0, #[trigger] m[j].0)
}

/// Whether some entry of `m` has key `k`.
pub open spec fn has_key(m: Seq<Entry>, k: Seq<char>) -> bool {
    exists|i: int| 0 <= i < m.len() && #[trigger] m[i].0 == k
}

/// In an ascending sequence the keys are pairwise distinct.
pub proof fn lemma_ascending_distinct(m: Seq<Entry>, i: int, j: int)
    requires
        ascending(m),
        0 <= i < m.len(),
        0 <= j < m.len(),
        m[i].0 == m[j].0,
    ensures
        i == j,
{
    lemma_str_lt_irreflexive(m[i].0);
    if i < j {
        assert(str_lt(m[i].0, m[j].0));
    } else if j < i {
        assert(str_lt(m[j].0, m[i].0));
    }
}

/// `str`'s `<`: the standard library orders strings lexicographically by
/// their bytes, which for UTF-8 is the order of their code points.
#[verifier::external_body]
fn str_less(a: &str, b: &str) -> (r: bool)
    ensures
        r == str_lt(a@, b@),
{
    a < b
}

/// A string-to-string mapping iterated in ascending key order.
#[derive(Clone, Debug, PartialEq, Eq)]
pub struct PropertyMap {
    entries: Vec<(String, String)>,
}

impl View for PropertyMap {
    type V = Seq<Entry>;

    closed spec fn view(&self) -> Seq<Entry> {
        self.entries@.map_values(|e: (String, String)| (e.0@, e.1@))
    }
}

impl PropertyMap {
    /// The invariant of the type: keys strictly ascending.
    pub open spec fn wf(&self) -> bool {
        ascending(self@)
    }

    /// The empty mapping.
    pub fn new() -> (m: PropertyMap)
        ensures
            m@ == Seq::<Entry>::empty(),
            m.wf(),
    {
        let m = PropertyMap { entries: Vec::new() };
        assert(m@ =~= Seq::<Entry>::empty());
        m
    }

    /// The number of entries.
    pub fn len(&self) -> (n: usize)
        ensures
            n == self@.len(),
    {
        self.entries.len()
    }

    /// The key at position `i` of the key order.
    pub fn key_at(&self, i: usize) -> (k: &String)
        requires
            i < self@.len(),
        ensures
            k@ == self@[i as int].0,
    {
        &self.entries[i].0
    }

    /// The value at position `i` of the key order.
    pub fn value_at(&self, i: usize) -> (v: &String)
        requires
            i < self@.len(),
        ensures
            v@ == self@[i as int].1,
    {
        &self.entries[i].1
    }

    /// The value stored under `key`, if any.
    pub fn get(&self, key: &String) -> (found: Option<&String>)
        ensures
            match found {
                Some(v) => self@.contains((key@, v@)),
                None => !has_key(self@, key@),
            },
            self.wf() ==> forall|w: Seq<char>|
                self@.contains((key@, w)) ==> (found matches Some(v) && v@ == w),
    {
        let mut i: usize = 0;
        while i < self.entries.len()
            invariant
                i <= self.entries.len(),
                forall|j: int| 0 <= j < i ==> (#[trigger] self@[j]).0 != key@,
            decreases self.entries.len() - i,
        {
            assert(self@[i as int] == (self.entries@[i as int].0@, self.entries@[i as int].1@));
            if self.entries[i].0 == *key {
                proof {
                    if self.wf() {
                        assert forall|w: Seq<char>| self@.contains((key@, w)) implies w
                            == self.entries@[i as int].1@ by {
                            let j = choose|j: int| 0 <= j < self@.len() && self@[j] == (key@, w);
                            lemma_ascending_distinct(self@, i as int, j);
                        }
                    }
                }
                return Some(&self.entries[i].1);
            }
            i += 1;
        }
        proof {
            assert forall|w: Seq<char>| !self@.contains((key@, w)) by {
                if self@.contains((key@, w)) {
                    let j = choose|j: int| 0 <= j < self@.len() && self@[j] == (key@, w);
                    assert(self@[j].0 == key@);
                }
            }
        }
        None
    }

    /// Stores `value` under `key`, in place of an earlier value if there was one.
    pub fn insert(&mut self, key: String, value: String)
        requires
            old(self).wf(),
        ensures
            final(self).wf(),
            forall|e: Entry|
                final(self)@.contains(e) <==> (e == (key@, value@) || (old(self)@.contains(e)
                    && e.0 != key@)),
    {
        let ghost before = self@;
        let ghost fresh = (key@, value@);
        let mut i: usize = 0;
        while i < self.entries.len() && str_less(self.entries[i].0.as_str(), key.as_str())
            invariant
                *self == *old(self),
                i <= self.entries.len(),
                forall|j: int| 0 <= j < i ==> str_lt((#[trigger] self@[j]).0, key@),
            decreases self.entries.len() - i,
        {
            i += 1;
        }
        proof {
            lemma_str_lt_irreflexive(key@);
        }
        if i < self.entries.len() && self.entries[i].0 == key {
            self.entries.set(i, (key, value));
            proof {
                let after = self@;
                assert(after =~= before.update(i as int, fresh));
                assert forall|a: int, b: int| 0 <= a < b < after.len() implies str_lt(
                    #[trigger] after[a].0,
                    #[trigger] after[b].0,
                ) by {
                    assert(str_lt(before[a].0, before[b].0));
                }
                assert forall|e: Entry| after.contains(e) <==> (e == fresh || (before.contains(e)
                    && e.0 != fresh.0)) by {
                    if after.contains(e) {
                        let j = choose|j: int| 0 <= j < after.len() && after[j] == e;
                        if j != i as int {
                            assert(before[j] == e);
                            if e.0 == fresh.0 {
                                lemma_ascending_distinct(before, j, i as int);
                            }
                        }
                    }
                    if e == fresh {
                        assert(after[i as int] == e);
                    }
                    if before.contains(e) && e.0 != fresh.0 {
                        let j = choose|j: int| 0 <= j < before.len() && before[j] == e;
                        assert(after[j] == e);
                    }
                }
            }
        } else {
            proof {
                if (i as int) < before.len() {
                    if !str_lt(key@, before[i as int].0) {
                        lemma_str_lt_connected(before[i as int].0, key@);
                    }
                    assert forall|j: int| i <= j < before.len() implies str_lt(
                        key@,
                        #[trigger] before[j].0,
                    ) by {
                        if j > i {
                            assert(str_lt(before[i as int].0, before[j].0));
                            lemma_str_lt_transitive(key@, before[i as int].0, before[j].0);
                        }
                    }
                }
            }
            self.entries.insert(i, (key, value));
            proof {
                let after = self@;
                assert(after =~= before.insert(i as int, fresh));
                assert forall|a: int, b: int| 0 <= a < b < after.len() implies str_lt(
                    #[trigger] after[a].0,
                    #[trigger] after[b].0,
                ) by {
                    if b < i {
                        assert(str_lt(before[a].0, before[b].0));
                    } else if b == i {
                        assert(str_lt(before[a].0, key@));
                    } else if a < i {
                        assert(str_lt(before[a].0, before[b - 1].0));
                    } else if a == i {
                        assert(str_lt(key@, before[b - 1].0));
                    } else {
                        assert(str_lt(before[a - 1].0, before[b - 1].0));
                    }
                }
                assert forall|e: Entry| after.contains(e) <==> (e == fresh || (before.contains(e)
                    && e.0 != fresh.0)) by {
                    if after.contains(e) {
                        let j = choose|j: int| 0 <= j < after.len() && after[j] == e;
                        if j < i {
                            assert(before[j] == e);
                            assert(str_lt(before[j].0, key@));
                        } else if j > i {
                            assert(before[j - 1] == e);
                            assert(str_lt(key@, before[j - 1].0));
                        }
                    }
                    if e == fresh {
                        assert(after[i as int] == e);
                    }
                    if before.contains(e) && e.0 != fresh.0 {
                        let j = choose|j: int| 0 <= j < before.len() && before[j] == e;
                        if j < i {
                            assert(after[j] == e);
                        } else {
                            assert(after[j + 1] == e);
                        }
                    }
                }
            }
        }
    }

    /// A copy with the same entries.
    pub fn duplicate(&self) -> (m: PropertyMap)
        ensures
            m@ == self@,
    {
        let mut entries: Vec<(String, String)> = Vec::new();
        let mut i: usize = 0;
        while i < self.entries.len()
            invariant
                i <= self.entries.len(),
                entries@.len() == i,
                forall|j: int| 0 <= j < i ==> #[trigger] entries@[j] == self.entries@[j],
            decreases self.entries.len() - i,
        {
            entries.push((self.entries[i].0.clone(), self.entries[i].1.clone()));
            i += 1;
        }
        let m = PropertyMap { entries };
        assert(m@ =~= self@);
        m
    }
}

} // verus!
