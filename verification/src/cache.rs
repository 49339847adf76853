//! Small path-keyed caches: a map and a set keyed by text, kept in vectors.
//!
//! The image pipeline keys everything by the path of the image file. The
//! handful of images of a document makes a linear search the simplest store,
//! and one whose contents the verifier can follow: of a hash map keyed by
//! strings it accepts the calls but cannot tell that a key just inserted is
//! there.

use vstd::prelude::*;

verus! {

/// A map from text keys to values.
pub struct PathMap<V> {
    entries: Vec<(String, V)>,
}

/// The map that the first `n` entries stand for; a later entry for a key
/// replaces an earlier one.
pub open spec fn map_upto<V>(entries: Seq<(String, V)>, n: int) -> Map<Seq<char>, V>
    decreases n,
{
    if n <= 0 {
        Map::empty()
    } else {
        map_upto(entries, n - 1).insert(entries[n - 1].0@, entries[n - 1].1)
    }
}

impl<V> View for PathMap<V> {
    type V = Map<Seq<char>, V>;

    closed spec fn view(&self) -> Map<Seq<char>, V> {
        map_upto(self.entries@, self.entries@.len() as int)
    }
}

proof fn lemma_map_upto_push<V>(entries: Seq<(String, V)>, e: (String, V))
    ensures
        map_upto(entries.push(e), entries.len() as int + 1) == map_upto(
            entries,
            entries.len() as int,
        ).insert(e.0@, e.1),
{
    lemma_map_upto_same(entries.push(e), entries, entries.len() as int);
}

proof fn lemma_map_upto_same<V>(a: Seq<(String, V)>, b: Seq<(String, V)>, n: int)
    requires
        n <= a.len(),
        n <= b.len(),
        forall|i: int| 0 <= i < n ==> a[i] == b[i],
    ensures
        map_upto(a, n) == map_upto(b, n),
    decreases n,
{
    if n > 0 {
        lemma_map_upto_same(a, b, n - 1);
    }
}

impl<V> PathMap<V> {
    /// The empty map.
    pub fn new() -> (m: PathMap<V>)
        ensures
            m@ == Map::<Seq<char>, V>::empty(),
    {
        PathMap { entries: Vec::new() }
    }

    /// The index of the last entry for `key`.
    fn position(&self, key: &str) -> (r: Option<usize>)
        ensures
            match r {
                Some(j) => j < self.entries@.len() && self.entries@[j as int].0@ == key@
                    && self@.dom().contains(key@) && self@[key@] == self.entries@[j as int].1,
                None => !self@.dom().contains(key@),
            },
    {
        let n = self.entries.len();
        let mut j = n;
        while j > 0
            invariant
                j <= n,
                n == self.entries@.len(),
                self@.dom().contains(key@) == map_upto(self.entries@, j as int).dom().contains(
                    key@,
                ),
                self@.dom().contains(key@) ==> self@[key@] == map_upto(
                    self.entries@,
                    j as int,
                )[key@],
            decreases j,
        {
            if crate::text::same_str(self.entries[j - 1].0.as_str(), key) {
                return Some(j - 1);
            }
            j -= 1;
        }
        None
    }

    /// Whether the map has a value for `key`.
    pub fn contains_key(&self, key: &str) -> (b: bool)
        ensures
            b == self@.dom().contains(key@),
    {
        self.position(key).is_some()
    }

    /// The value for `key`.
    pub fn get(&self, key: &str) -> (r: Option<&V>)
        ensures
            match r {
                Some(v) => self@.dom().contains(key@) && *v == self@[key@],
                None => !self@.dom().contains(key@),
            },
    {
        match self.position(key) {
            Some(j) => Some(&self.entries[j].1),
            None => None,
        }
    }

    /// Takes out the value for `key`, if there is one.
    pub fn remove(&mut self, key: &str)
        ensures
            final(self)@ == old(self)@.remove(key@),
    {
        let mut kept: Vec<(String, V)> = Vec::new();
        let mut rest: Vec<(String, V)> = Vec::new();
        std::mem::swap(&mut rest, &mut self.entries);
        let ghost all = rest@;
        let ghost n = all.len() as int;
        // take the entries from the back and keep them in reverse order
        let mut back: Vec<(String, V)> = Vec::new();
        while rest.len() > 0
            invariant
                rest@.len() + back@.len() == n,
                forall|i: int| 0 <= i < rest@.len() ==> rest@[i] == all[i],
                forall|i: int| 0 <= i < back@.len() ==> back@[i] == all[n - 1 - i],
            decreases rest.len(),
        {
            let e = rest.pop().unwrap();
            back.push(e);
        }
        let ghost taken = 0int;
        while back.len() > 0
            invariant
                back@.len() + taken == n,
                0 <= taken <= n,
                forall|i: int| 0 <= i < back@.len() ==> back@[i] == all[n - 1 - i],
                map_upto(kept@, kept@.len() as int) == map_upto(all, taken).remove(key@),
            decreases back.len(),
        {
            let e = back.pop().unwrap();
            assert(e == all[taken]);
            if !crate::text::same_str(e.0.as_str(), key) {
                proof {
                    lemma_map_upto_push(kept@, e);
                    assert(map_upto(all, taken).remove(key@).insert(e.0@, e.1) =~= map_upto(
                        all,
                        taken + 1,
                    ).remove(key@));
                }
                kept.push(e);
            } else {
                assert(map_upto(all, taken).remove(key@) =~= map_upto(all, taken + 1).remove(
                    key@,
                ));
            }
            proof {
                taken = taken + 1;
            }
        }
        self.entries = kept;
    }

    /// Sets the value for `key`.
    pub fn insert(&mut self, key: String, value: V)
        ensures
            final(self)@ == old(self)@.insert(key@, value),
    {
        self.remove(key.as_str());
        let e = (key, value);
        proof {
            lemma_map_upto_push(self.entries@, e);
            assert(old(self)@.remove(e.0@).insert(e.0@, e.1) =~= old(self)@.insert(e.0@, e.1));
        }
        self.entries.push(e);
    }

    /// Takes out every value.
    pub fn clear(&mut self)
        ensures
            final(self)@ == Map::<Seq<char>, V>::empty(),
    {
        self.entries = Vec::new();
    }
}

/// A set of text keys.
pub struct PathSet {
    members: PathMap<()>,
}

impl View for PathSet {
    type V = Set<Seq<char>>;

    closed spec fn view(&self) -> Set<Seq<char>> {
        self.members@.dom()
    }
}

impl PathSet {
    /// The empty set.
    pub fn new() -> (s: PathSet)
        ensures
            s@ == Set::<Seq<char>>::empty(),
    {
        let s = PathSet { members: PathMap::new() };
        assert(s@ =~= Set::<Seq<char>>::empty());
        s
    }

    /// Whether `key` is a member.
    pub fn contains(&self, key: &str) -> (b: bool)
        ensures
            b == self@.contains(key@),
    {
        self.members.contains_key(key)
    }

    /// Makes `key` a member.
    pub fn insert(&mut self, key: String)
        ensures
            final(self)@ == old(self)@.insert(key@),
    {
        self.members.insert(key, ());
        assert(self@ =~= old(self)@.insert(key@));
    }

    /// Takes `key` out, if it is a member.
    pub fn remove(&mut self, key: &str)
        ensures
            final(self)@ == old(self)@.remove(key@),
    {
        self.members.remove(key);
        assert(self@ =~= old(self)@.remove(key@));
    }

    /// Takes out every member.
    pub fn clear(&mut self)
        ensures
            final(self)@ == Set::<Seq<char>>::empty(),
    {
        self.members.clear();
        assert(self@ =~= Set::<Seq<char>>::empty());
    }

    /// The members, in no particular order.
    pub fn to_vec(&self) -> (r: Vec<String>)
        ensures
            key_set(r@) == self@,
    {
        let mut r: Vec<String> = Vec::new();
        let n = self.members.entries.len();
        let mut i: usize = 0;
        assert(key_set(r@) =~= Set::<Seq<char>>::empty());
        while i < n
            invariant
                i <= n,
                n == self.members.entries@.len(),
                key_set(r@) == map_upto(self.members.entries@, i as int).dom(),
            decreases n - i,
        {
            let k = self.members.entries[i].0.clone();
            proof {
                lemma_key_set_push(r@, k);
                assert(map_upto(self.members.entries@, i + 1).dom() =~= map_upto(
                    self.members.entries@,
                    i as int,
                ).dom().insert(k@));
            }
            r.push(k);
            i += 1;
        }
        r
    }
}

/// The set of the texts in a list.
pub open spec fn key_set(v: Seq<String>) -> Set<Seq<char>>
    decreases v.len(),
{
    if v.len() == 0 {
        Set::empty()
    } else {
        key_set(v.drop_last()).insert(v.last()@)
    }
}

/// A text added to the list joins the set.
pub proof fn lemma_key_set_push(v: Seq<String>, x: String)
    ensures
        key_set(v.push(x)) == key_set(v).insert(x@),
{
    assert(v.push(x).drop_last() =~= v);
}

} // verus!
