//! A small verified association map keyed by native path or handle values
//! (`u64`), with a `Map` view. Entries keep their insertion order, so loops
//! over them are deterministic.

use vstd::prelude::*;

verus! {

/// The map an association sequence denotes; a later entry overrides an
/// earlier one with the same key.
pub open spec fn assoc_view<T>(s: Seq<(u64, T)>) -> Map<u64, T>
    decreases s.len(),
{
    if s.len() == 0 {
        Map::empty()
    } else {
        assoc_view(s.drop_last()).insert(s.last().0, s.last().1)
    }
}

/// A key occurs in the denoted map exactly when some entry holds it.
pub proof fn lemma_assoc_contains<T>(s: Seq<(u64, T)>, k: u64)
    ensures
        assoc_view(s).contains_key(k) <==> exists|i: int| 0 <= i < s.len() && s[i].0 == k,
    decreases s.len(),
{
    if s.len() > 0 {
        lemma_assoc_contains(s.drop_last(), k);
        if s.last().0 != k && assoc_view(s).contains_key(k) {
            let i = choose|i: int| 0 <= i < s.drop_last().len() && s.drop_last()[i].0 == k;
            assert(s[i].0 == k);
        }
        if exists|i: int| 0 <= i < s.len() && s[i].0 == k {
            let i = choose|i: int| 0 <= i < s.len() && s[i].0 == k;
            if i < s.len() - 1 {
                assert(s.drop_last()[i].0 == k);
            }
        }
    }
}

/// No two entries share a key.
pub open spec fn no_dup_keys<T>(s: Seq<(u64, T)>) -> bool {
    forall|i: int, j: int| 0 <= i < j < s.len() ==> s[i].0 != s[j].0
}

/// Under unique keys, the entry holding a key gives that key's value.
pub proof fn lemma_assoc_value_at<T>(s: Seq<(u64, T)>, i: int)
    requires
        no_dup_keys(s),
        0 <= i < s.len(),
    ensures
        assoc_view(s).contains_key(s[i].0),
        assoc_view(s)[s[i].0] == s[i].1,
    decreases s.len(),
{
    lemma_assoc_contains(s, s[i].0);
    if i < s.len() - 1 {
        assert(s.drop_last()[i] == s[i]);
        lemma_assoc_value_at(s.drop_last(), i);
        assert(s.last().0 != s[i].0);
    }
}

/// Appending an entry denotes an insert.
pub proof fn lemma_assoc_push<T>(s: Seq<(u64, T)>, k: u64, v: T)
    ensures
        assoc_view(s.push((k, v))) == assoc_view(s).insert(k, v),
{
    assert(s.push((k, v)).drop_last() =~= s);
}

/// Overwriting the entry that holds a key denotes an insert.
pub proof fn lemma_assoc_update<T>(s: Seq<(u64, T)>, i: int, v: T)
    requires
        no_dup_keys(s),
        0 <= i < s.len(),
    ensures
        assoc_view(s.update(i, (s[i].0, v))) == assoc_view(s).insert(s[i].0, v),
    decreases s.len(),
{
    let k = s[i].0;
    let t = s.update(i, (k, v));
    if i == s.len() - 1 {
        assert(t.drop_last() =~= s.drop_last());
        assert(assoc_view(t) =~= assoc_view(s).insert(k, v));
    } else {
        assert(t.drop_last() =~= s.drop_last().update(i, (k, v)));
        assert(s.drop_last()[i] == s[i]);
        lemma_assoc_update(s.drop_last(), i, v);
        assert(s.last().0 != k);
        assert(t.last() == s.last());
        assert(assoc_view(t) == assoc_view(s.drop_last()).insert(k, v).insert(
            s.last().0,
            s.last().1,
        ));
        assert(assoc_view(s.drop_last()).insert(k, v).insert(s.last().0, s.last().1)
            =~= assoc_view(s.drop_last()).insert(s.last().0, s.last().1).insert(k, v));
    }
}

/// Removing the entry that holds a key denotes a remove.
pub proof fn lemma_assoc_remove<T>(s: Seq<(u64, T)>, i: int)
    requires
        no_dup_keys(s),
        0 <= i < s.len(),
    ensures
        assoc_view(s.remove(i)) == assoc_view(s).remove(s[i].0),
    decreases s.len(),
{
    let k = s[i].0;
    let t = s.remove(i);
    if i == s.len() - 1 {
        assert(t =~= s.drop_last());
        lemma_assoc_contains(s.drop_last(), k);
        assert(forall|j: int|
            0 <= j < s.drop_last().len() ==> s.drop_last()[j] == s[j] && s[j].0 != k);
        assert(assoc_view(t) =~= assoc_view(s).remove(k));
    } else {
        assert(t.drop_last() =~= s.drop_last().remove(i));
        assert(s.drop_last()[i] == s[i]);
        lemma_assoc_remove(s.drop_last(), i);
        assert(t.last() == s.last());
        assert(s.last().0 != k);
        assert(assoc_view(t) == assoc_view(s.drop_last()).remove(k).insert(
            s.last().0,
            s.last().1,
        ));
        assert(assoc_view(s.drop_last()).remove(k).insert(s.last().0, s.last().1)
            =~= assoc_view(s.drop_last()).insert(s.last().0, s.last().1).remove(k));
    }
}

/// An association map from native path or handle values to `T`, with unique
/// keys and deterministic entry order.
#[derive(Debug, Clone)]
pub struct PathMap<T> {
    entries: Vec<(u64, T)>,
}

impl<T> View for PathMap<T> {
    type V = Map<u64, T>;

    closed spec fn view(&self) -> Map<u64, T> {
        assoc_view(self.entries@)
    }
}

impl<T> PathMap<T> {
    /// The entries as a sequence, in insertion order.
    pub closed spec fn seq(&self) -> Seq<(u64, T)> {
        self.entries@
    }

    /// Keys are unique.
    pub closed spec fn wf(&self) -> bool {
        no_dup_keys(self.entries@)
    }

    /// An empty map.
    pub fn new() -> (m: PathMap<T>)
        ensures
            m@ == Map::<u64, T>::empty(),
            m.wf(),
            m.seq() == Seq::<(u64, T)>::empty(),
    {
        PathMap { entries: Vec::new() }
    }

    /// The number of entries.
    pub fn len(&self) -> (n: usize)
        ensures
            n == self.seq().len(),
    {
        self.entries.len()
    }

    /// The entry at one position.
    pub fn entry_at(&self, i: usize) -> (e: &(u64, T))
        requires
            i < self.seq().len(),
        ensures
            *e == self.seq()[i as int],
    {
        &self.entries[i]
    }

    /// Looks a key up.
    pub fn get(&self, k: u64) -> (r: Option<&T>)
        requires
            self.wf(),
        ensures
            match r {
                Some(v) => self@.contains_key(k) && *v == self@[k],
                None => !self@.contains_key(k),
            },
    {
        proof {
            lemma_assoc_contains(self.entries@, k);
        }
        let n = self.entries.len();
        let mut i: usize = 0;
        while i < n
            invariant
                0 <= i <= n,
                n == self.entries@.len(),
                self.wf(),
                self@ == assoc_view(self.entries@),
                forall|j: int| 0 <= j < i ==> self.entries@[j].0 != k,
                self@.contains_key(k) <==> exists|j: int|
                    0 <= j < n && self.entries@[j].0 == k,
            decreases n - i,
        {
            if self.entries[i].0 == k {
                proof {
                    lemma_assoc_value_at(self.entries@, i as int);
                }
                return Some(&self.entries[i].1);
            }
            i = i + 1;
        }
        None
    }

    /// Whether a key is present.
    pub fn contains_key(&self, k: u64) -> (r: bool)
        requires
            self.wf(),
        ensures
            r == self@.contains_key(k),
    {
        self.get(k).is_some()
    }

    /// Binds a key to a value, replacing any earlier binding.
    pub fn insert(&mut self, k: u64, v: T)
        requires
            old(self).wf(),
        ensures
            final(self).wf(),
            final(self)@ == old(self)@.insert(k, v),
            old(self)@.contains_key(k) ==> final(self).seq().len() == old(self).seq().len(),
            !old(self)@.contains_key(k) ==> final(self).seq() == old(self).seq().push((k, v)),
    {
        proof {
            lemma_assoc_contains(self.entries@, k);
        }
        let n = self.entries.len();
        let mut i: usize = 0;
        while i < n
            invariant
                0 <= i <= n,
                n == self.entries@.len(),
                self.wf(),
                self@ == assoc_view(self.entries@),
                self.entries@ == old(self).entries@,
                forall|j: int| 0 <= j < i ==> self.entries@[j].0 != k,
                self@.contains_key(k) <==> exists|j: int|
                    0 <= j < n && self.entries@[j].0 == k,
            decreases n - i,
        {
            if self.entries[i].0 == k {
                proof {
                    lemma_assoc_update(self.entries@, i as int, v);
                }
                self.entries[i] = (k, v);
                return ;
            }
            i = i + 1;
        }
        proof {
            lemma_assoc_push(self.entries@, k, v);
        }
        self.entries.push((k, v));
    }

    /// Removes a key's binding, returning its value if it was present.
    pub fn remove(&mut self, k: u64) -> (r: Option<T>)
        requires
            old(self).wf(),
        ensures
            final(self).wf(),
            final(self)@ == old(self)@.remove(k),
            match r {
                Some(v) => old(self)@.contains_key(k) && v == old(self)@[k],
                None => !old(self)@.contains_key(k) && final(self)@ == old(self)@,
            },
    {
        proof {
            lemma_assoc_contains(self.entries@, k);
        }
        let n = self.entries.len();
        let mut i: usize = 0;
        while i < n
            invariant
                0 <= i <= n,
                n == self.entries@.len(),
                self.wf(),
                self@ == assoc_view(self.entries@),
                self.entries@ == old(self).entries@,
                forall|j: int| 0 <= j < i ==> self.entries@[j].0 != k,
                self@.contains_key(k) <==> exists|j: int|
                    0 <= j < n && self.entries@[j].0 == k,
            decreases n - i,
        {
            if self.entries[i].0 == k {
                proof {
                    lemma_assoc_value_at(self.entries@, i as int);
                    lemma_assoc_remove(self.entries@, i as int);
                }
                let (_, v) = self.entries.remove(i);
                return Some(v);
            }
            i = i + 1;
        }
        proof {
            assert(self@ =~= self@.remove(k));
        }
        None
    }
}

} // verus!
