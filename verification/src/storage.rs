//! The key/value storage backend consumed by persistent shared objects,
//! modeled as an in-memory string map with the backend's protocol:
//! `get_string`, `put_string`, `remove_key`.

use vstd::prelude::*;
use crate::table::{PropertyTable, table_find};

verus! {

/// The storage backend: a map from storage keys to serialized text.
pub struct Storage {
    entries: PropertyTable<String>,
}

impl View for Storage {
    type V = Seq<(Seq<char>, Seq<char>)>;

    closed spec fn view(&self) -> Seq<(Seq<char>, Seq<char>)> {
        self.entries@
    }
}

/// The text stored under a key, if any.
pub open spec fn spec_stored(s: Seq<(Seq<char>, Seq<char>)>, key: Seq<char>) -> Option<Seq<char>> {
    match table_find(s, key, true) {
        Some(i) => Some(s[i].1),
        None => None,
    }
}

impl Storage {
    /// Keys are unique.
    pub open spec fn wf(&self) -> bool {
        forall|i: int, j: int| 0 <= i < j < self@.len() ==> self@[i].0 != self@[j].0
    }

    /// An empty store.
    pub fn new() -> (r: Storage)
        ensures
            r.wf(),
            r@ == Seq::<(Seq<char>, Seq<char>)>::empty(),
    {
        Storage { entries: PropertyTable::new() }
    }

    /// Read the text stored under a key.
    pub fn get_string(&self, key: &str) -> (r: Option<String>)
        ensures
            match r {
                Some(t) => spec_stored(self@, key@) == Some(t@),
                None => spec_stored(self@, key@) is None,
            },
    {
        match self.entries.get(key, true) {
            Some(t) => Some(t.clone()),
            None => None,
        }
    }

    /// Store text under a key, replacing what was there; reports success,
    /// which this in-memory backend always has.
    pub fn put_string(&mut self, key: &str, text: String) -> (r: bool)
        requires
            old(self).wf(),
        ensures
            final(self).wf(),
            r,
            spec_stored(final(self)@, key@) == Some(text@),
            forall|k: Seq<char>|
                k != key@ ==> #[trigger] spec_stored(final(self)@, k) == spec_stored(old(self)@, k),
    {
        let ghost pre = self@;
        self.entries.insert(String::from_str(key), text, true);
        proof {
            lemma_stored_after_insert(pre, self@, key@, text@);
        }
        true
    }

    /// Remove the entry of a key, if present.
    pub fn remove_key(&mut self, key: &str)
        requires
            old(self).wf(),
        ensures
            final(self).wf(),
            spec_stored(final(self)@, key@) is None,
            forall|k: Seq<char>|
                k != key@ ==> #[trigger] spec_stored(final(self)@, k) == spec_stored(old(self)@, k),
    {
        let ghost pre = self@;
        self.entries.remove(key, true);
        proof {
            lemma_stored_after_remove(pre, self@, key@);
        }
    }
}

/// After an exact-key insert, the inserted key maps to the new text and
/// every other key is untouched.
proof fn lemma_stored_after_insert(
    pre: Seq<(Seq<char>, Seq<char>)>,
    post: Seq<(Seq<char>, Seq<char>)>,
    key: Seq<char>,
    text: Seq<char>,
)
    requires
        post == match table_find(pre, key, true) {
            Some(i) => pre.update(i, (pre[i].0, text)),
            None => pre.push((key, text)),
        },
    ensures
        spec_stored(post, key) == Some(text),
        forall|k: Seq<char>| k != key ==> #[trigger] spec_stored(post, k) == spec_stored(pre, k),
    decreases pre.len(),
{
    crate::table::lemma_table_find_props(pre, key, true);
    match table_find(pre, key, true) {
        Some(i) => {
            assert forall|j: int| 0 <= j < post.len() implies post[j].0 == pre[j].0 by {}
            crate::table::lemma_table_find_at(post, key, true, i);
            assert forall|k: Seq<char>| k != key implies #[trigger] spec_stored(post, k)
                == spec_stored(pre, k) by {
                lemma_find_same_keys(pre, post, k);
                crate::table::lemma_table_find_props(pre, k, true);
                if let Some(j) = table_find(pre, k, true) {
                    assert(crate::text::name_matches(pre[j].0, k, true));
                    assert(pre[j].0 == k);
                    assert(j != i);
                }
            }
        },
        None => {
            crate::table::lemma_table_find_at(post, key, true, pre.len() as int);
            assert forall|k: Seq<char>| k != key implies #[trigger] spec_stored(post, k)
                == spec_stored(pre, k) by {
                lemma_find_after_push(pre, key, text, k);
            }
        },
    }
}

/// When the first slot does not match, lookup passes it by.
proof fn lemma_stored_step(s: Seq<(Seq<char>, Seq<char>)>, k: Seq<char>)
    requires
        s.len() > 0,
        !crate::text::name_matches(s[0].0, k, true),
    ensures
        spec_stored(s, k) == spec_stored(s.drop_first(), k),
{
    let rest = s.drop_first();
    match table_find(rest, k, true) {
        Some(i) => {
            crate::table::lemma_table_find_props(rest, k, true);
            assert(rest[i] == s[i + 1]);
        },
        None => {},
    }
}

/// Two tables with the same keys slot for slot find every name at the same
/// slot.
proof fn lemma_find_same_keys(
    pre: Seq<(Seq<char>, Seq<char>)>,
    post: Seq<(Seq<char>, Seq<char>)>,
    k: Seq<char>,
)
    requires
        pre.len() == post.len(),
        forall|j: int| 0 <= j < pre.len() ==> post[j].0 == pre[j].0,
    ensures
        table_find(post, k, true) == table_find(pre, k, true),
    decreases pre.len(),
{
    if pre.len() > 0 {
        assert(post[0].0 == pre[0].0);
        lemma_find_same_keys(pre.drop_first(), post.drop_first(), k);
        assert forall|j: int| 0 <= j < pre.len() - 1 implies post.drop_first()[j].0
            == pre.drop_first()[j].0 by {
            assert(post.drop_first()[j] == post[j + 1]);
            assert(pre.drop_first()[j] == pre[j + 1]);
        }
    }
}

/// Pushing a fresh key does not move where any other key is found.
proof fn lemma_find_after_push(
    pre: Seq<(Seq<char>, Seq<char>)>,
    key: Seq<char>,
    text: Seq<char>,
    k: Seq<char>,
)
    requires
        k != key,
    ensures
        spec_stored(pre.push((key, text)), k) == spec_stored(pre, k),
    decreases pre.len(),
{
    let post = pre.push((key, text));
    if pre.len() == 0 {
        assert(post.len() == 1);
        assert(post[0].0 == key);
        assert(!crate::text::name_matches(post[0].0, k, true));
        assert(post.drop_first() =~= Seq::<(Seq<char>, Seq<char>)>::empty());
        assert(table_find(post.drop_first(), k, true) is None);
        assert(table_find(post, k, true) is None);
    } else {
        if crate::text::name_matches(pre[0].0, k, true) {
            assert(post[0] == pre[0]);
        } else {
            lemma_find_after_push(pre.drop_first(), key, text, k);
            assert(post.drop_first() =~= pre.drop_first().push((key, text)));
            lemma_stored_step(pre, k);
            lemma_stored_step(post, k);
        }
    }
}

/// After removing a key, it is gone and every other key is untouched.
proof fn lemma_stored_after_remove(
    pre: Seq<(Seq<char>, Seq<char>)>,
    post: Seq<(Seq<char>, Seq<char>)>,
    key: Seq<char>,
)
    requires
        forall|i: int, j: int| 0 <= i < j < pre.len() ==> pre[i].0 != pre[j].0,
        post == match table_find(pre, key, true) {
            Some(i) => pre.remove(i),
            None => pre,
        },
    ensures
        spec_stored(post, key) is None,
        forall|k: Seq<char>| k != key ==> #[trigger] spec_stored(post, k) == spec_stored(pre, k),
    decreases pre.len(),
{
    crate::table::lemma_table_find_props(pre, key, true);
    match table_find(pre, key, true) {
        Some(i) => {
            assert forall|j: int| 0 <= j < post.len() implies !crate::text::name_matches(
                #[trigger] post[j].0,
                key,
                true,
            ) by {
                if j < i {
                    assert(post[j] == pre[j]);
                } else {
                    assert(post[j] == pre[j + 1]);
                    assert(pre[i].0 == key);
                    assert(pre[j + 1].0 != pre[i].0);
                }
            }
            crate::table::lemma_table_find_none(post, key, true);
            assert forall|k: Seq<char>| k != key implies #[trigger] spec_stored(post, k)
                == spec_stored(pre, k) by {
                lemma_find_after_remove(pre, key, i, k);
            }
        },
        None => {},
    }
}

/// Removing one key's slot does not change what any other key maps to.
proof fn lemma_find_after_remove(pre: Seq<(Seq<char>, Seq<char>)>, key: Seq<char>, i: int, k: Seq<char>)
    requires
        0 <= i < pre.len(),
        pre[i].0 == key,
        forall|j: int| 0 <= j < i ==> !crate::text::name_matches(#[trigger] pre[j].0, key, true),
        k != key,
    ensures
        spec_stored(pre.remove(i), k) == spec_stored(pre, k),
    decreases pre.len(),
{
    let post = pre.remove(i);
    if i == 0 {
        assert(post =~= pre.drop_first());
        assert(pre[0].0 == key);
        assert(!crate::text::name_matches(pre[0].0, k, true));
        lemma_stored_step(pre, k);
    } else {
        assert(pre.len() > 1);
        assert(post[0] == pre[0]);
        if crate::text::name_matches(pre[0].0, k, true) {
        } else {
            lemma_find_after_remove(pre.drop_first(), key, i - 1, k);
            assert(post.drop_first() =~= pre.drop_first().remove(i - 1));
            lemma_stored_step(pre, k);
            lemma_stored_step(post, k);
        }
    }
}

} // verus!
