//! An ordered association list from string names to string values, used for
//! request headers, response headers and extracted route parameters.
//!
//! Keys are unique. Inserting under an existing name overwrites the value in
//! place, so the position of the first insertion is preserved and lookups are
//! unambiguous.
use vstd::prelude::*;

verus! {

pub type Pairs = Seq<(Seq<char>, Seq<char>)>;

/// No two entries share a key.
pub open spec fn keys_unique(s: Pairs) -> bool {
    forall|i: int, j: int| 0 <= i < j < s.len() ==> s[i].0 != s[j].0
}

/// Whether some entry has the given key.
pub open spec fn map_has_key(s: Pairs, k: Seq<char>) -> bool {
    exists|i: int| 0 <= i < s.len() && s[i].0 == k
}

/// The position of the first entry with the given key.
pub open spec fn index_of_key(s: Pairs, k: Seq<char>) -> int
    decreases s.len(),
{
    if s.len() == 0 {
        0
    } else if s[0].0 == k {
        0
    } else {
        1 + index_of_key(s.drop_first(), k)
    }
}

/// The value bound to the given key, if any entry has it.
pub open spec fn map_get(s: Pairs, k: Seq<char>) -> Option<Seq<char>> {
    if map_has_key(s, k) {
        Some(s[index_of_key(s, k)].1)
    } else {
        None
    }
}

/// Last-write-wins insertion: an existing entry is overwritten in place,
/// a new key is appended at the end.
pub open spec fn map_insert(s: Pairs, k: Seq<char>, v: Seq<char>) -> Pairs {
    if map_has_key(s, k) {
        s.update(index_of_key(s, k), (k, v))
    } else {
        s.push((k, v))
    }
}

pub proof fn lemma_index_of_key(s: Pairs, k: Seq<char>)
    requires
        map_has_key(s, k),
    ensures
        0 <= index_of_key(s, k) < s.len(),
        s[index_of_key(s, k)].0 == k,
        forall|j: int| 0 <= j < index_of_key(s, k) ==> s[j].0 != k,
    decreases s.len(),
{
    if s.len() > 0 && s[0].0 != k {
        assert(map_has_key(s.drop_first(), k)) by {
            let i = choose|i: int| 0 <= i < s.len() && s[i].0 == k;
            assert(s.drop_first()[i - 1] == s[i]);
        }
        lemma_index_of_key(s.drop_first(), k);
        assert(forall|j: int|
            1 <= j < index_of_key(s, k) ==> s[j].0 == s.drop_first()[j - 1].0 && s[j].0 != k);
    }
}

pub proof fn lemma_map_get_at(s: Pairs, k: Seq<char>, i: int)
    requires
        keys_unique(s),
        0 <= i < s.len(),
        s[i].0 == k,
    ensures
        map_get(s, k) == Some(s[i].1),
        index_of_key(s, k) == i,
{
    lemma_index_of_key(s, k);
    let w = index_of_key(s, k);
    if w < i {
        assert(s[w].0 == s[i].0);
    }
}

/// A position whose key does not occur earlier is the first occurrence of
/// that key.
pub proof fn lemma_index_of_key_at(s: Pairs, k: Seq<char>, i: int)
    requires
        0 <= i < s.len(),
        s[i].0 == k,
        forall|j: int| 0 <= j < i ==> s[j].0 != k,
    ensures
        map_has_key(s, k),
        index_of_key(s, k) == i,
{
    lemma_index_of_key(s, k);
    let w = index_of_key(s, k);
    if w < i {
        assert(s[w].0 != k);
    } else if w > i {
        assert(s[i].0 != k);
    }
}

/// After an insert, the inserted key reads back the inserted value.
pub proof fn lemma_map_insert_get_same(s: Pairs, k: Seq<char>, v: Seq<char>)
    ensures
        map_get(map_insert(s, k, v), k) == Some(v),
{
    let s2 = map_insert(s, k, v);
    if map_has_key(s, k) {
        lemma_index_of_key(s, k);
        let i = index_of_key(s, k);
        assert forall|j: int| 0 <= j < i implies s2[j].0 != k by {
            assert(s2[j] == s[j]);
        }
        lemma_index_of_key_at(s2, k, i);
    } else {
        assert forall|j: int| 0 <= j < s.len() implies s2[j].0 != k by {
            assert(s2[j] == s[j]);
            assert(!(exists|i: int| 0 <= i < s.len() && s[i].0 == k));
        }
        lemma_index_of_key_at(s2, k, s.len() as int);
    }
}

/// An insert leaves the binding of every other key unchanged.
pub proof fn lemma_map_insert_get_other(s: Pairs, k: Seq<char>, v: Seq<char>, k2: Seq<char>)
    requires
        k2 != k,
    ensures
        map_get(map_insert(s, k, v), k2) == map_get(s, k2),
{
    let s2 = map_insert(s, k, v);
    if map_has_key(s, k) {
        lemma_index_of_key(s, k);
    }
    if map_has_key(s, k2) {
        lemma_index_of_key(s, k2);
        let i = index_of_key(s, k2);
        assert(s2[i].0 == k2);
        assert forall|j: int| 0 <= j < i implies s2[j].0 != k2 by {
            if map_has_key(s, k) && j == index_of_key(s, k) {
            } else {
                assert(s2[j] == s[j]);
            }
        }
        lemma_index_of_key_at(s2, k2, i);
        assert(s2[i] == s[i]);
    } else {
        assert(forall|i: int| 0 <= i < s.len() ==> s[i].0 != k2);
        assert forall|j: int| 0 <= j < s2.len() implies s2[j].0 != k2 by {
            if map_has_key(s, k) {
                if j == index_of_key(s, k) {
                } else {
                    assert(s2[j] == s[j]);
                }
            } else {
                if j < s.len() {
                    assert(s2[j] == s[j]);
                } else {
                    assert(s2[j] == (k, v));
                }
            }
        }
        assert(!map_has_key(s2, k2));
    }
}

/// The keys after an insert are the old keys and the inserted one.
pub proof fn lemma_map_insert_has_key(s: Pairs, k: Seq<char>, v: Seq<char>, k2: Seq<char>)
    ensures
        map_has_key(map_insert(s, k, v), k2) == (k2 == k || map_has_key(s, k2)),
{
    let s2 = map_insert(s, k, v);
    if k2 == k {
        lemma_map_insert_get_same(s, k, v);
    } else {
        lemma_map_insert_get_other(s, k, v, k2);
        if map_has_key(s, k2) {
            assert(map_get(s, k2) is Some);
        }
        if map_has_key(s2, k2) {
            assert(map_get(s2, k2) is Some);
        }
    }
}

/// An ordered map from string names to string values with unique keys.
#[derive(Debug)]
pub struct StringMap {
    pub pairs: Vec<(String, String)>,
}

/// The entries of a pair vector, as character sequences.
pub open spec fn pairs_view(pairs: Seq<(String, String)>) -> Pairs {
    pairs.map(|i: int, p: (String, String)| (p.0@, p.1@))
}

impl View for StringMap {
    type V = Pairs;

    open spec fn view(&self) -> Pairs {
        pairs_view(self.pairs@)
    }
}

impl Clone for StringMap {
    /// A clone holds the same entries.
    fn clone(&self) -> (r: Self)
        ensures
            r@ == self@,
    {
        let mut pairs: Vec<(String, String)> = Vec::new();
        let mut i: usize = 0;
        while i < self.pairs.len()
            invariant
                i <= self.pairs.len(),
                pairs_view(pairs@) == self@.subrange(0, i as int),
            decreases self.pairs.len() - i,
        {
            let ghost p0 = pairs@;
            let (k, v) = (self.pairs[i].0.clone(), self.pairs[i].1.clone());
            pairs.push((k, v));
            proof {
                assert(p0.len() == i) by {
                    assert(pairs_view(p0).len() == p0.len());
                    assert(self@.subrange(0, i as int).len() == i);
                }
                assert(k@ == self@[i as int].0);
                assert(v@ == self@[i as int].1);
                assert forall|j: int| 0 <= j < i + 1 implies pairs_view(pairs@)[j] == self@.subrange(
                    0,
                    i + 1 as int,
                )[j] by {
                    if j < i {
                        assert(pairs_view(p0)[j] == self@.subrange(0, i as int)[j]);
                        assert(pairs@[j] == p0[j]);
                    }
                }
                assert(pairs_view(pairs@) =~= self@.subrange(0, i + 1 as int));
            }
            i += 1;
        }
        proof {
            assert(self@.subrange(0, self@.len() as int) =~= self@);
        }
        StringMap { pairs }
    }
}

impl StringMap {
    /// The entries, with every name distinct.
    pub open spec fn wf(&self) -> bool {
        keys_unique(self@)
    }

    /// An empty map.
    pub fn new() -> (r: Self)
        ensures
            r@ == Seq::<(Seq<char>, Seq<char>)>::empty(),
            r.wf(),
    {
        StringMap { pairs: Vec::new() }
    }

    pub fn len(&self) -> (r: usize)
        ensures
            r == self@.len(),
    {
        self.pairs.len()
    }

    /// Binds the name to the value; an existing binding of the same name is
    /// overwritten in place.
    pub fn insert(&mut self, key: String, value: String)
        requires
            old(self).wf(),
        ensures
            final(self).wf(),
            final(self)@ == map_insert(old(self)@, key@, value@),
    {
        let ghost s0 = self@;
        let mut i: usize = 0;
        while i < self.pairs.len()
            invariant
                s0 == old(self)@,
                self@ == s0,
                self.wf(),
                i <= self@.len(),
                forall|j: int| 0 <= j < i ==> self@[j].0 != key@,
            decreases self.pairs.len() - i,
        {
            if crate::text::str_eq(self.pairs[i].0.as_str(), key.as_str()) {
                proof {
                    lemma_map_get_at(s0, key@, i as int);
                }
                self.pairs[i] = (key, value);
                proof {
                    assert(self@ =~= map_insert(s0, key@, value@));
                }
                return ;
            }
            i += 1;
        }
        proof {
            assert(!map_has_key(s0, key@));
        }
        self.pairs.push((key, value));
        proof {
            assert(self@ =~= map_insert(s0, key@, value@));
        }
    }

    /// The value bound to the name, if any.
    pub fn get<'a>(&'a self, key: &str) -> (r: Option<&'a String>)
        requires
            self.wf(),
        ensures
            match r {
                Some(v) => map_get(self@, key@) == Some(v@),
                None => map_get(self@, key@) is None,
            },
    {
        let mut i: usize = 0;
        while i < self.pairs.len()
            invariant
                self.wf(),
                i <= self@.len(),
                forall|j: int| 0 <= j < i ==> self@[j].0 != key@,
            decreases self.pairs.len() - i,
        {
            if crate::text::str_eq(self.pairs[i].0.as_str(), key) {
                proof {
                    lemma_map_get_at(self@, key@, i as int);
                }
                return Some(&self.pairs[i].1);
            }
            i += 1;
        }
        proof {
            assert(!map_has_key(self@, key@));
        }
        None
    }

    /// Whether any entry has the name.
    pub fn contains_key(&self, key: &str) -> (r: bool)
        requires
            self.wf(),
        ensures
            r == map_has_key(self@, key@),
    {
        match self.get(key) {
            Some(_) => true,
            None => false,
        }
    }
}

} // verus!
