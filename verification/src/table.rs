//! An ordered, dual-indexed table: a mapping from names to values that
//! preserves insertion order, looked up either by name (with a caller-chosen
//! case rule) or by slot index.

use vstd::prelude::*;
use crate::text::name_matches;

verus! {

/// The slot of the first entry whose name matches, under the given case rule.
pub open spec fn table_find<T>(s: Seq<(Seq<char>, T)>, name: Seq<char>, case_sensitive: bool) -> Option<int>
    decreases s.len(),
{
    if s.len() == 0 {
        None
    } else if name_matches(s[0].0, name, case_sensitive) {
        Some(0int)
    } else {
        match table_find(s.drop_first(), name, case_sensitive) {
            Some(i) => Some(i + 1),
            None => None,
        }
    }
}

/// A found slot is in range, matches, and is the first that matches.
pub proof fn lemma_table_find_props<T>(s: Seq<(Seq<char>, T)>, name: Seq<char>, case_sensitive: bool)
    ensures
        match table_find(s, name, case_sensitive) {
            Some(i) => 0 <= i < s.len() && name_matches(s[i].0, name, case_sensitive) && forall|j: int|
                0 <= j < i ==> !name_matches(#[trigger] s[j].0, name, case_sensitive),
            None => forall|j: int|
                0 <= j < s.len() ==> !name_matches(#[trigger] s[j].0, name, case_sensitive),
        },
    decreases s.len(),
{
    if s.len() > 0 && !name_matches(s[0].0, name, case_sensitive) {
        let rest = s.drop_first();
        lemma_table_find_props(rest, name, case_sensitive);
        match table_find(rest, name, case_sensitive) {
            Some(i) => {
                assert(table_find(s, name, case_sensitive) == Some(i + 1));
                assert(s[i + 1] == rest[i]);
                assert forall|j: int| 0 <= j < i + 1 implies !name_matches(
                    #[trigger] s[j].0,
                    name,
                    case_sensitive,
                ) by {
                    if j > 0 {
                        assert(s[j] == rest[j - 1]);
                    }
                }
            },
            None => {
                assert forall|j: int| 0 <= j < s.len() implies !name_matches(
                    #[trigger] s[j].0,
                    name,
                    case_sensitive,
                ) by {
                    if j > 0 {
                        assert(s[j] == rest[j - 1]);
                    }
                }
            },
        }
    }
}

/// The converse: the first matching slot is what `table_find` returns.
pub proof fn lemma_table_find_at<T>(
    s: Seq<(Seq<char>, T)>,
    name: Seq<char>,
    case_sensitive: bool,
    i: int,
)
    requires
        0 <= i < s.len(),
        name_matches(s[i].0, name, case_sensitive),
        forall|j: int| 0 <= j < i ==> !name_matches(#[trigger] s[j].0, name, case_sensitive),
    ensures
        table_find(s, name, case_sensitive) == Some(i),
    decreases i,
{
    if i > 0 {
        lemma_table_find_at(s.drop_first(), name, case_sensitive, i - 1);
    }
}

/// No slot matches, so `table_find` comes back empty.
pub proof fn lemma_table_find_none<T>(s: Seq<(Seq<char>, T)>, name: Seq<char>, case_sensitive: bool)
    requires
        forall|j: int| 0 <= j < s.len() ==> !name_matches(#[trigger] s[j].0, name, case_sensitive),
    ensures
        table_find(s, name, case_sensitive) is None,
    decreases s.len(),
{
    if s.len() > 0 {
        lemma_table_find_none(s.drop_first(), name, case_sensitive);
    }
}

/// An ordered table from names to values.
///
/// Slot indices are assigned in insertion order; re-inserting an existing
/// name overwrites the value and keeps the slot.
pub struct PropertyTable<V> {
    entries: Vec<(String, V)>,
}

impl<V: View> View for PropertyTable<V> {
    type V = Seq<(Seq<char>, V::V)>;

    closed spec fn view(&self) -> Seq<(Seq<char>, V::V)> {
        self.entries@.map_values(|e: (String, V)| (e.0@, e.1@))
    }
}

impl<V: View> PropertyTable<V> {
    /// No two slots carry the same name.
    pub open spec fn wf(&self) -> bool {
        forall|i: int, j: int| 0 <= i < j < self@.len() ==> self@[i].0 != self@[j].0
    }

    /// Create an empty table.
    pub fn new() -> (r: Self)
        ensures
            r@ == Seq::<(Seq<char>, V::V)>::empty(),
            r.wf(),
    {
        let r = PropertyTable { entries: Vec::new() };
        proof {
            assert(r@ =~= Seq::<(Seq<char>, V::V)>::empty());
        }
        r
    }

    /// The number of slots.
    pub fn len(&self) -> (r: usize)
        ensures
            r == self@.len(),
    {
        self.entries.len()
    }

    /// Insert a value under a name: a new name gets the next slot, an
    /// existing one (under the given case rule) keeps its slot and name and
    /// only the value changes.
    pub fn insert(&mut self, name: String, value: V, case_sensitive: bool)
        requires
            old(self).wf(),
        ensures
            final(self).wf(),
            match table_find(old(self)@, name@, case_sensitive) {
                Some(i) => final(self)@ == old(self)@.update(i, (old(self)@[i].0, value@)),
                None => final(self)@ == old(self)@.push((name@, value@)),
            },
    {
        proof {
            lemma_table_find_props(self@, name@, case_sensitive);
        }
        let n = self.entries.len();
        let mut i: usize = 0;
        while i < n
            invariant
                n == self@.len(),
                i <= n,
                self@ == old(self)@,
                self.wf(),
                forall|j: int| 0 <= j < i ==> !name_matches(#[trigger] self@[j].0, name@, case_sensitive),
            decreases n - i,
        {
            if crate::text::names_equal(self.entries[i].0.as_str(), name.as_str(), case_sensitive) {
                proof {
                    lemma_table_find_at(self@, name@, case_sensitive, i as int);
                }
                let ghost pre = self@;
                let kept = self.entries[i].0.clone();
                self.entries[i] = (kept, value);
                proof {
                    assert(self@ =~= pre.update(i as int, (pre[i as int].0, value@)));
                }
                return ;
            }
            i = i + 1;
        }
        proof {
            lemma_table_find_none(self@, name@, case_sensitive);
        }
        let ghost pre = self@;
        self.entries.push((name, value));
        proof {
            assert(self@ =~= pre.push((name@, value@)));
            lemma_table_find_props(pre, name@, case_sensitive);
        }
    }

    /// Look a value up by name under the given case rule.
    pub fn get(&self, name: &str, case_sensitive: bool) -> (r: Option<&V>)
        ensures
            match table_find(self@, name@, case_sensitive) {
                Some(i) => r matches Some(v) && v@ == self@[i].1,
                None => r is None,
            },
    {
        let n = self.entries.len();
        let mut i: usize = 0;
        while i < n
            invariant
                n == self@.len(),
                i <= n,
                forall|j: int| 0 <= j < i ==> !name_matches(#[trigger] self@[j].0, name@, case_sensitive),
            decreases n - i,
        {
            if crate::text::names_equal(self.entries[i].0.as_str(), name, case_sensitive) {
                proof {
                    lemma_table_find_at(self@, name@, case_sensitive, i as int);
                }
                return Some(&self.entries[i].1);
            }
            i = i + 1;
        }
        proof {
            lemma_table_find_none(self@, name@, case_sensitive);
        }
        None
    }

    /// Look a value up by slot index.
    pub fn get_index(&self, index: usize) -> (r: Option<&V>)
        ensures
            match r {
                Some(v) => index < self@.len() && v@ == self@[index as int].1,
                None => index >= self@.len(),
            },
    {
        if index < self.entries.len() {
            Some(&self.entries[index].1)
        } else {
            None
        }
    }

    /// The name stored at a slot.
    pub fn key_at(&self, index: usize) -> (r: &String)
        requires
            index < self@.len(),
        ensures
            r@ == self@[index as int].0,
    {
        &self.entries[index].0
    }

    /// The value stored at a slot.
    pub fn value_at(&self, index: usize) -> (r: &V)
        requires
            index < self@.len(),
        ensures
            r@ == self@[index as int].1,
    {
        &self.entries[index].1
    }

    /// Append an entry at the next slot unconditionally. Meant for building
    /// fixed tables whose names are known to be distinct; name lookup finds
    /// the first slot of a name either way.
    pub fn append(&mut self, name: String, value: V)
        ensures
            final(self)@ == old(self)@.push((name@, value@)),
    {
        let ghost pre = self@;
        self.entries.push((name, value));
        proof {
            assert(self@ =~= pre.push((name@, value@)));
        }
    }

    /// The slot of a name under the given case rule, if present.
    pub fn find_slot(&self, name: &str, case_sensitive: bool) -> (r: Option<usize>)
        ensures
            match r {
                Some(i) => i < self@.len() && table_find(self@, name@, case_sensitive) == Some(
                    i as int,
                ),
                None => table_find(self@, name@, case_sensitive) is None,
            },
    {
        let n = self.entries.len();
        let mut i: usize = 0;
        while i < n
            invariant
                n == self@.len(),
                i <= n,
                forall|j: int| 0 <= j < i ==> !name_matches(#[trigger] self@[j].0, name@, case_sensitive),
            decreases n - i,
        {
            if crate::text::names_equal(self.entries[i].0.as_str(), name, case_sensitive) {
                proof {
                    lemma_table_find_at(self@, name@, case_sensitive, i as int);
                }
                return Some(i);
            }
            i = i + 1;
        }
        proof {
            lemma_table_find_none(self@, name@, case_sensitive);
        }
        None
    }

    /// Overwrite the value at a slot; the name keeps its place.
    pub fn set_index(&mut self, index: usize, value: V)
        requires
            old(self).wf(),
            index < old(self)@.len(),
        ensures
            final(self).wf(),
            final(self)@ == old(self)@.update(index as int, (old(self)@[index as int].0, value@)),
    {
        let ghost pre = self@;
        let kept = self.entries[index].0.clone();
        self.entries[index] = (kept, value);
        proof {
            assert(self@ =~= pre.update(index as int, (pre[index as int].0, value@)));
        }
    }

    /// Remove the entry of a name; later slots move down one place.
    pub fn remove(&mut self, name: &str, case_sensitive: bool) -> (r: bool)
        requires
            old(self).wf(),
        ensures
            final(self).wf(),
            match table_find(old(self)@, name@, case_sensitive) {
                Some(i) => r && final(self)@ == old(self)@.remove(i),
                None => !r && final(self)@ == old(self)@,
            },
    {
        let n = self.entries.len();
        let mut i: usize = 0;
        while i < n
            invariant
                n == self@.len(),
                i <= n,
                self@ == old(self)@,
                self.wf(),
                forall|j: int| 0 <= j < i ==> !name_matches(#[trigger] self@[j].0, name@, case_sensitive),
            decreases n - i,
        {
            if crate::text::names_equal(self.entries[i].0.as_str(), name, case_sensitive) {
                proof {
                    lemma_table_find_at(self@, name@, case_sensitive, i as int);
                }
                let ghost pre = self@;
                self.entries.remove(i);
                proof {
                    assert(self@ =~= pre.remove(i as int));
                }
                return true;
            }
            i = i + 1;
        }
        proof {
            lemma_table_find_none(self@, name@, case_sensitive);
        }
        false
    }
}

} // verus!
