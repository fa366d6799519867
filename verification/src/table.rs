//! An insertion-ordered table keyed by connection id.
//!
//! Every table of the hub is one of these: the sessions of a room, the
//! sessions that have joined no room yet, the inputs of a round. A table
//! holds at most one entry per id and remembers the order in which its ids
//! first came in, so that whatever walks it does so in the same order every
//! time.
use vstd::prelude::*;

verus! {

/// Some entry of `s` is keyed by `id`.
pub open spec fn has_id<V>(s: Seq<(usize, V)>, id: usize) -> bool {
    exists|i: int| 0 <= i < s.len() && (#[trigger] s[i]).0 == id
}

/// The place of the entry keyed by `id`, where `s` has one.
pub open spec fn index_of<V>(s: Seq<(usize, V)>, id: usize) -> int {
    choose|i: int| 0 <= i < s.len() && (#[trigger] s[i]).0 == id
}

/// No id keys two entries of `s`.
pub open spec fn distinct_ids<V>(s: Seq<(usize, V)>) -> bool {
    forall|i: int, j: int|
        0 <= i < j < s.len() ==> (#[trigger] s[i]).0 != (#[trigger] s[j]).0
}

/// The ids of `s`, in its order.
pub open spec fn ids_of<V>(s: Seq<(usize, V)>) -> Seq<usize> {
    Seq::new(s.len(), |i: int| s[i].0)
}

/// `s` after `value` was stored under `id`: in the place of the entry that
/// `id` had, or else at the end.
pub open spec fn with_entry<V>(s: Seq<(usize, V)>, id: usize, value: V) -> Seq<(usize, V)> {
    if has_id(s, id) {
        s.update(index_of(s, id), (id, value))
    } else {
        s.push((id, value))
    }
}

/// `s` without the entry keyed by `id`, the others in their order.
pub open spec fn without_id<V>(s: Seq<(usize, V)>, id: usize) -> Seq<(usize, V)> {
    if has_id(s, id) {
        s.remove(index_of(s, id))
    } else {
        s
    }
}

/// The value stored under `id`, if there is one.
pub open spec fn value_of<V>(s: Seq<(usize, V)>, id: usize) -> Option<V> {
    if has_id(s, id) {
        Some(s[index_of(s, id)].1)
    } else {
        None
    }
}

/// In a table without repeated ids, an entry keyed by `id` is the entry
/// that `index_of` names.
pub proof fn lemma_index_of_unique<V>(s: Seq<(usize, V)>, id: usize, i: int)
    requires
        distinct_ids(s),
        0 <= i < s.len(),
        s[i].0 == id,
    ensures
        has_id(s, id),
        index_of(s, id) == i,
{
    let j = index_of(s, id);
    assert(0 <= j < s.len() && s[j].0 == id);
    if j < i {
        assert(s[j].0 != s[i].0);
    } else if i < j {
        assert(s[i].0 != s[j].0);
    }
}

/// Storing a value keeps the ids distinct, and the table then has `id`.
pub proof fn lemma_with_entry<V>(s: Seq<(usize, V)>, id: usize, value: V)
    requires
        distinct_ids(s),
    ensures
        distinct_ids(with_entry(s, id, value)),
        has_id(with_entry(s, id, value), id),
        value_of(with_entry(s, id, value), id) == Some(value),
        with_entry(s, id, value).len() == s.len() + if has_id(s, id) { 0int } else { 1int },
        forall|other: usize|
            other != id ==> has_id(with_entry(s, id, value), other) == has_id(s, other),
        forall|other: usize|
            other != id ==> #[trigger] value_of(with_entry(s, id, value), other) == value_of(
                s,
                other,
            ),
{
    let t = with_entry(s, id, value);
    let at = if has_id(s, id) { index_of(s, id) } else { s.len() as int };
    assert(0 <= at < t.len() && t[at] == (id, value));
    assert forall|i: int, j: int| 0 <= i < j < t.len() implies (#[trigger] t[i]).0 != (
    #[trigger] t[j]).0 by {
        if has_id(s, id) {
            assert(s[index_of(s, id)].0 == id);
            assert(s[i].0 != s[j].0);
        } else {
            if j < s.len() {
                assert(s[i].0 != s[j].0);
            } else {
                assert(s[i].0 != id);
            }
        }
    }
    lemma_index_of_unique(t, id, at);
    assert forall|other: usize| other != id implies has_id(t, other) == has_id(s, other) by {
        if has_id(s, other) {
            let k = index_of(s, other);
            assert(t[k].0 == other);
        }
        if has_id(t, other) {
            let k = index_of(t, other);
            assert(s[k].0 == other);
        }
    }
    assert forall|other: usize| other != id implies #[trigger] value_of(t, other) == value_of(
        s,
        other,
    ) by {
        if has_id(s, other) {
            let k = index_of(s, other);
            assert(t[k].0 == other);
            lemma_index_of_unique(t, other, k);
        }
    }
}

/// Taking an id out keeps the ids distinct, and the table then lacks `id`.
pub proof fn lemma_without_id<V>(s: Seq<(usize, V)>, id: usize)
    requires
        distinct_ids(s),
    ensures
        distinct_ids(without_id(s, id)),
        !has_id(without_id(s, id), id),
        without_id(s, id).len() == s.len() - if has_id(s, id) { 1int } else { 0int },
        forall|other: usize|
            other != id ==> has_id(without_id(s, id), other) == has_id(s, other),
        forall|other: usize|
            other != id ==> #[trigger] value_of(without_id(s, id), other) == value_of(s, other),
{
    let t = without_id(s, id);
    if has_id(s, id) {
        let at = index_of(s, id);
        assert(s[at].0 == id);
        assert forall|i: int| 0 <= i < t.len() implies (#[trigger] t[i]) == s[if i < at {
            i
        } else {
            i + 1
        }] by {}
        assert forall|i: int, j: int| 0 <= i < j < t.len() implies (#[trigger] t[i]).0 != (
        #[trigger] t[j]).0 by {
            let si = if i < at { i } else { i + 1 };
            let sj = if j < at { j } else { j + 1 };
            assert(s[si].0 != s[sj].0);
        }
        if has_id(t, id) {
            let k = index_of(t, id);
            let sk = if k < at { k } else { k + 1 };
            assert(t[k] == s[sk]);
            if sk < at {
                assert(s[sk].0 != s[at].0);
            } else {
                assert(s[at].0 != s[sk].0);
            }
        }
        assert forall|other: usize| other != id implies has_id(t, other) == has_id(s, other) by {
            if has_id(s, other) {
                let k = index_of(s, other);
                let tk = if k < at { k } else { k - 1 };
                assert(t[tk] == s[k]);
            }
            if has_id(t, other) {
                let k = index_of(t, other);
                let sk = if k < at { k } else { k + 1 };
                assert(t[k] == s[sk]);
                assert(s[sk].0 == other);
            }
        }
        assert forall|other: usize| other != id implies #[trigger] value_of(t, other) == value_of(
            s,
            other,
        ) by {
            if has_id(s, other) {
                let k = index_of(s, other);
                let tk = if k < at { k } else { k - 1 };
                assert(t[tk] == s[k]);
                lemma_index_of_unique(t, other, tk);
            }
        }
    } else {
        assert(t == s);
    }
}

/// The entries of a table as the contracts see them: each value by its view.
pub open spec fn entries_view<V: View>(entries: Seq<(usize, V)>) -> Seq<(usize, V::V)> {
    Seq::new(entries.len(), |i: int| (entries[i].0, entries[i].1@))
}

/// A table from connection ids to values of `V`. Its view is the sequence
/// of its entries, each an id with the view of the value stored under it.
pub struct IdMap<V> {
    entries: Vec<(usize, V)>,
}

impl<V: View> View for IdMap<V> {
    type V = Seq<(usize, V::V)>;

    closed spec fn view(&self) -> Seq<(usize, V::V)> {
        entries_view(self.entries@)
    }
}

impl<V: View> IdMap<V> {
    /// The table's invariant: no id has two entries.
    pub open spec fn wf(&self) -> bool {
        distinct_ids(self@)
    }

    /// The empty table.
    pub fn new() -> (table: Self)
        ensures
            table.wf(),
            table@ =~= Seq::<(usize, V::V)>::empty(),
    {
        IdMap { entries: Vec::new() }
    }

    /// The number of entries.
    pub fn len(&self) -> (n: usize)
        ensures
            n == self@.len(),
    {
        self.entries.len()
    }

    /// Whether the table has no entry.
    pub fn is_empty(&self) -> (empty: bool)
        ensures
            empty == (self@.len() == 0),
    {
        self.entries.len() == 0
    }

    /// The place of the entry keyed by `id`: the first one, should the
    /// invariant not hold.
    pub fn position(&self, id: usize) -> (place: Option<usize>)
        ensures
            match place {
                Some(i) => i < self@.len() && self@[i as int].0 == id && forall|k: int|
                    0 <= k < i ==> (#[trigger] self@[k]).0 != id,
                None => !has_id(self@, id),
            },
            self.wf() ==> match place {
                Some(i) => has_id(self@, id) && i == index_of(self@, id),
                None => true,
            },
    {
        let mut i: usize = 0;
        while i < self.entries.len()
            invariant
                i <= self.entries@.len(),
                forall|k: int| 0 <= k < i ==> (#[trigger] self@[k]).0 != id,
            decreases self.entries@.len() - i,
        {
            if self.entries[i].0 == id {
                proof {
                    if self.wf() {
                        lemma_index_of_unique(self@, id, i as int);
                    }
                }
                return Some(i);
            }
            i = i + 1;
        }
        None
    }

    /// Whether an entry is keyed by `id`.
    pub fn contains_key(&self, id: usize) -> (found: bool)
        ensures
            found == has_id(self@, id),
    {
        self.position(id).is_some()
    }

    /// The id at place `i`.
    pub fn key_at(&self, i: usize) -> (id: usize)
        requires
            i < self@.len(),
        ensures
            id == self@[i as int].0,
    {
        self.entries[i].0
    }

    /// The value at place `i`.
    pub fn value_at(&self, i: usize) -> (value: &V)
        requires
            i < self@.len(),
        ensures
            value@ == self@[i as int].1,
    {
        &self.entries[i].1
    }

    /// The value stored under `id`.
    pub fn get(&self, id: usize) -> (value: Option<&V>)
        requires
            self.wf(),
        ensures
            match value {
                Some(v) => value_of(self@, id) == Some(v@),
                None => value_of(self@, id).is_none(),
            },
    {
        match self.position(id) {
            Some(i) => Some(&self.entries[i].1),
            None => None,
        }
    }

    /// The value at place `i`, to be changed where it stands. The id that
    /// keys it stays, and so does every other entry.
    pub fn value_mut(&mut self, i: usize) -> (value: &mut V)
        requires
            i < old(self)@.len(),
        ensures
            value@ == old(self)@[i as int].1,
            final(self)@ == old(self)@.update(i as int, (old(self)@[i as int].0, final(value)@)),
            old(self).wf() ==> final(self).wf(),
    {
        proof {
            if self.wf() {
                assert forall|v: V::V|
                    distinct_ids(
                        #[trigger] self@.update(i as int, (self@[i as int].0, v)),
                    ) by {
                    let t = self@.update(i as int, (self@[i as int].0, v));
                    assert forall|a: int, b: int| 0 <= a < b < t.len() implies (#[trigger] t[a]).0
                        != (#[trigger] t[b]).0 by {
                        assert(self@[a].0 != self@[b].0);
                    }
                }
            }
        }
        let value = &mut self.entries[i].1;
        proof {
            let id = old(self)@[i as int].0;
            assert(entries_view(old(self).entries@.update(i as int, (id, *final(value))))
                =~= old(self)@.update(i as int, (id, final(value)@)));
        }
        value
    }

    /// Stores `value` under `id`: in the place of the value that `id` had,
    /// which is given back, or else at the end.
    pub fn insert(&mut self, id: usize, value: V) -> (previous: Option<V>)
        requires
            old(self).wf(),
        ensures
            final(self).wf(),
            final(self)@ == with_entry(old(self)@, id, value@),
            match previous {
                Some(v) => value_of(old(self)@, id) == Some(v@),
                None => value_of(old(self)@, id).is_none(),
            },
    {
        proof {
            lemma_with_entry(self@, id, value@);
        }
        match self.position(id) {
            Some(i) => {
                let mut stored = value;
                std::mem::swap(&mut self.entries[i].1, &mut stored);
                assert(self@ =~= with_entry(old(self)@, id, value@));
                Some(stored)
            },
            None => {
                self.entries.push((id, value));
                assert(self@ =~= with_entry(old(self)@, id, value@));
                None
            },
        }
    }

    /// Takes the entry keyed by `id` out and gives back its value. The
    /// other entries keep their order.
    pub fn remove(&mut self, id: usize) -> (removed: Option<V>)
        requires
            old(self).wf(),
        ensures
            final(self).wf(),
            final(self)@ == without_id(old(self)@, id),
            match removed {
                Some(v) => value_of(old(self)@, id) == Some(v@),
                None => value_of(old(self)@, id).is_none(),
            },
    {
        proof {
            lemma_without_id(self@, id);
        }
        match self.position(id) {
            Some(i) => {
                let entry = self.entries.remove(i);
                assert(self@ =~= without_id(old(self)@, id));
                Some(entry.1)
            },
            None => None,
        }
    }

    /// Takes every entry out.
    pub fn clear(&mut self)
        ensures
            final(self).wf(),
            final(self)@ =~= Seq::<(usize, V::V)>::empty(),
    {
        self.entries.clear();
    }

    /// The ids of the table, in its order.
    pub fn keys(&self) -> (ids: Vec<usize>)
        ensures
            ids@ == ids_of(self@),
    {
        let mut ids: Vec<usize> = Vec::new();
        let mut i: usize = 0;
        while i < self.entries.len()
            invariant
                i <= self.entries@.len(),
                ids@ == ids_of(self@.take(i as int)),
            decreases self.entries@.len() - i,
        {
            ids.push(self.entries[i].0);
            assert(ids@ =~= ids_of(self@.take(i + 1)));
            i = i + 1;
        }
        assert(self@.take(i as int) =~= self@);
        ids
    }
}

} // verus!
