//! Small association maps backed by vectors of pairs with pairwise-distinct
//! keys.  Their views are the finite maps they stand for, and the methods are
//! the single-key operations the cluster state needs: read, insert-if-absent,
//! replace, remove.

use vstd::prelude::*;

verus! {

/// The finite map that a pair sequence stands for, keyed by the views of the
/// first components; a later pair wins, and well-formed sequences keep keys
/// pairwise distinct so the question never arises.
pub open spec fn map_of<K: View, V: View>(s: Seq<(K, V)>) -> Map<K::V, V::V>
    decreases s.len(),
{
    if s.len() == 0 {
        Map::empty()
    } else {
        map_of(s.drop_last()).insert(s.last().0@, s.last().1@)
    }
}

/// Pairwise-distinct keys, compared as views.
pub open spec fn distinct_keys<K: View, V>(s: Seq<(K, V)>) -> bool {
    forall|i: int, j: int| 0 <= i < j < s.len() ==> (#[trigger] s[i]).0@ != (#[trigger] s[j]).0@
}

pub(crate) proof fn lemma_map_of_absent<K: View, V: View>(s: Seq<(K, V)>, k: K::V)
    requires
        forall|i: int| 0 <= i < s.len() ==> (#[trigger] s[i]).0@ != k,
    ensures
        !map_of(s).contains_key(k),
    decreases s.len(),
{
    if s.len() > 0 {
        assert(s[s.len() - 1] == s.last());
        lemma_map_of_absent(s.drop_last(), k);
    }
}

pub(crate) proof fn lemma_map_of_index<K: View, V: View>(s: Seq<(K, V)>, i: int)
    requires
        distinct_keys(s),
        0 <= i < s.len(),
    ensures
        map_of(s).contains_key(s[i].0@),
        map_of(s)[s[i].0@] == s[i].1@,
    decreases s.len(),
{
    if i == s.len() - 1 {
        assert(s[i] == s.last());
    } else {
        lemma_map_of_index(s.drop_last(), i);
        assert(s.drop_last()[i] == s[i]);
        assert(s[s.len() - 1] == s.last());
    }
}

pub(crate) proof fn lemma_map_of_dom<K: View, V: View>(s: Seq<(K, V)>, k: K::V)
    requires
        map_of(s).contains_key(k),
    ensures
        exists|i: int| 0 <= i < s.len() && (#[trigger] s[i]).0@ == k,
    decreases s.len(),
{
    if s.len() > 0 {
        if s.last().0@ == k {
            assert(s[s.len() - 1].0@ == k);
        } else {
            lemma_map_of_dom(s.drop_last(), k);
            let i = choose|i: int| 0 <= i < s.drop_last().len()
                && (#[trigger] s.drop_last()[i]).0@ == k;
            assert(s[i].0@ == k);
        }
    }
}

pub(crate) proof fn lemma_map_of_push<K: View, V: View>(s: Seq<(K, V)>, p: (K, V))
    ensures
        map_of(s.push(p)) == map_of(s).insert(p.0@, p.1@),
{
    assert(s.push(p).drop_last() =~= s);
    assert(s.push(p).last() == p);
}

pub(crate) proof fn lemma_map_of_replace<K: View, V: View>(s: Seq<(K, V)>, i: int, p: (K, V))
    requires
        distinct_keys(s),
        0 <= i < s.len(),
        forall|j: int| 0 <= j < s.len() && j != i ==> (#[trigger] s[j]).0@ != p.0@,
    ensures
        map_of(s.update(i, p)) == map_of(s).remove(s[i].0@).insert(p.0@, p.1@),
    decreases s.len(),
{
    let k = s[i].0@;
    let t = s.update(i, p);
    if i == s.len() - 1 {
        assert(t.drop_last() =~= s.drop_last());
        assert(t.last() == p);
        assert(s[i] == s.last());
        assert(forall|j: int| 0 <= j < s.drop_last().len()
            ==> (#[trigger] s.drop_last()[j]).0@ != k);
        lemma_map_of_absent::<K, V>(s.drop_last(), k);
        assert(map_of(s).remove(k) =~= map_of(s.drop_last()));
        assert(map_of(t) == map_of(s.drop_last()).insert(p.0@, p.1@));
    } else {
        assert(forall|j: int| 0 <= j < s.drop_last().len() && j != i
            ==> (#[trigger] s.drop_last()[j]).0@ != p.0@);
        lemma_map_of_replace(s.drop_last(), i, p);
        assert(t.drop_last() =~= s.drop_last().update(i, p));
        assert(t.last() == s.last());
        assert(s[s.len() - 1] == s.last());
        assert(s.drop_last()[i] == s[i]);
        assert(s.last().0@ != k);
        assert(s.last().0@ != p.0@);
        assert(map_of(t)
            == map_of(s.drop_last()).remove(k).insert(p.0@, p.1@).insert(s.last().0@, s.last().1@));
        assert(map_of(s).remove(k).insert(p.0@, p.1@)
            =~= map_of(s.drop_last()).remove(k).insert(p.0@, p.1@).insert(s.last().0@, s.last().1@));
    }
}

pub(crate) proof fn lemma_map_of_swap_remove<K: View, V: View>(s: Seq<(K, V)>, i: int)
    requires
        distinct_keys(s),
        0 <= i < s.len(),
    ensures
        map_of(s.update(i, s.last()).drop_last()) == map_of(s).remove(s[i].0@),
        distinct_keys(s.update(i, s.last()).drop_last()),
    decreases s.len(),
{
    let k = s[i].0@;
    let t = s.update(i, s.last()).drop_last();
    assert(s[s.len() - 1] == s.last());
    if i == s.len() - 1 {
        assert(t =~= s.drop_last());
        assert(forall|j: int| 0 <= j < s.drop_last().len()
            ==> (#[trigger] s.drop_last()[j]).0@ != k);
        lemma_map_of_absent::<K, V>(s.drop_last(), k);
        assert(map_of(s).remove(k) =~= map_of(s.drop_last()));
    } else {
        assert(t =~= s.drop_last().update(i, s.last()));
        assert(forall|j: int| 0 <= j < s.drop_last().len() && j != i
            ==> (#[trigger] s.drop_last()[j]).0@ != s.last().0@);
        lemma_map_of_replace(s.drop_last(), i, s.last());
        assert(s.drop_last()[i] == s[i]);
        assert(s.last().0@ != k);
        assert(forall|j: int| 0 <= j < s.drop_last().len() && j != i
            ==> (#[trigger] s.drop_last()[j]).0@ != k);
        assert(forall|j: int| 0 <= j < s.drop_last().update(i, s.last()).len()
            ==> (#[trigger] s.drop_last().update(i, s.last())[j]).0@ != k);
        lemma_map_of_absent::<K, V>(s.drop_last().update(i, s.last()), k);
        assert(map_of(t) == map_of(s.drop_last()).remove(k).insert(s.last().0@, s.last().1@));
        assert(map_of(s).remove(k)
            =~= map_of(s.drop_last()).remove(k).insert(s.last().0@, s.last().1@));
    }
}

pub(crate) proof fn lemma_map_of_remove_at<K: View, V: View>(s: Seq<(K, V)>, i: int)
    requires
        distinct_keys(s),
        0 <= i < s.len(),
    ensures
        map_of(s.remove(i)) == map_of(s).remove(s[i].0@),
        distinct_keys(s.remove(i)),
    decreases s.len(),
{
    let k = s[i].0@;
    let t = s.remove(i);
    assert(s[s.len() - 1] == s.last());
    assert forall|a: int, b: int| 0 <= a < b < t.len()
        implies (#[trigger] t[a]).0@ != (#[trigger] t[b]).0@ by {
        let a2: int = if a < i { a } else { a + 1 };
        let b2: int = if b < i { b } else { b + 1 };
        assert(t[a] == s[a2]);
        assert(t[b] == s[b2]);
    }
    if i == s.len() - 1 {
        assert(t =~= s.drop_last());
        assert(forall|j: int| 0 <= j < s.drop_last().len()
            ==> (#[trigger] s.drop_last()[j]).0@ != k);
        lemma_map_of_absent::<K, V>(s.drop_last(), k);
        assert(map_of(s).remove(k) =~= map_of(s.drop_last()));
    } else {
        lemma_map_of_remove_at(s.drop_last(), i);
        assert(t.drop_last() =~= s.drop_last().remove(i));
        assert(t.last() == s.last());
        assert(s.drop_last()[i] == s[i]);
        assert(s.last().0@ != k);
        assert(map_of(t)
            == map_of(s.drop_last()).remove(k).insert(s.last().0@, s.last().1@));
        assert(map_of(s).remove(k)
            =~= map_of(s.drop_last()).remove(k).insert(s.last().0@, s.last().1@));
    }
}

pub(crate) proof fn lemma_map_of_dom_len<K: View, V: View>(s: Seq<(K, V)>)
    requires
        distinct_keys(s),
    ensures
        map_of(s).dom().finite(),
        map_of(s).dom().len() == s.len(),
    decreases s.len(),
{
    if s.len() == 0 {
        assert(map_of(s).dom() =~= Set::<K::V>::empty());
    } else {
        lemma_map_of_dom_len(s.drop_last());
        assert(s[s.len() - 1] == s.last());
        assert(forall|i: int| 0 <= i < s.drop_last().len()
            ==> (#[trigger] s.drop_last()[i]).0@ != s.last().0@);
        lemma_map_of_absent::<K, V>(s.drop_last(), s.last().0@);
        assert(map_of(s).dom() =~= map_of(s.drop_last()).dom().insert(s.last().0@));
    }
}

/// An association map from 128-bit identifiers to values.
pub struct IdMap<V> {
    pairs: Vec<(u128, V)>,
}

impl<V: View> View for IdMap<V> {
    type V = Map<u128, V::V>;

    closed spec fn view(&self) -> Map<u128, V::V> {
        map_of(self.pairs@)
    }
}

impl<V: View> IdMap<V> {
    /// Keys pairwise distinct; every operation below keeps this.
    pub closed spec fn wf(&self) -> bool {
        distinct_keys(self.pairs@)
    }

    pub fn new() -> (r: IdMap<V>)
        ensures
            r.wf(),
            r@ == Map::<u128, V::V>::empty(),
    {
        IdMap { pairs: Vec::new() }
    }

    fn find(&self, k: u128) -> (r: Option<usize>)
        ensures
            match r {
                Some(i) => i < self.pairs@.len() && self.pairs@[i as int].0 == k,
                None => forall|j: int| 0 <= j < self.pairs@.len()
                    ==> (#[trigger] self.pairs@[j]).0 != k,
            },
    {
        let mut i: usize = 0;
        while i < self.pairs.len()
            invariant
                i <= self.pairs@.len(),
                forall|j: int| 0 <= j < i ==> (#[trigger] self.pairs@[j]).0 != k,
            decreases self.pairs@.len() - i,
        {
            if self.pairs[i].0 == k {
                return Some(i);
            }
            i = i + 1;
        }
        None
    }

    pub fn contains(&self, k: u128) -> (r: bool)
        requires
            self.wf(),
        ensures
            r == self@.contains_key(k),
    {
        match self.find(k) {
            Some(i) => {
                proof {
                    lemma_map_of_index(self.pairs@, i as int);
                }
                true
            },
            None => {
                proof {
                    lemma_map_of_absent::<u128, V>(self.pairs@, k);
                }
                false
            },
        }
    }

    pub fn get(&self, k: u128) -> (r: Option<&V>)
        requires
            self.wf(),
        ensures
            match r {
                Some(v) => self@.contains_key(k) && v@ == self@[k],
                None => !self@.contains_key(k),
            },
    {
        match self.find(k) {
            Some(i) => {
                proof {
                    lemma_map_of_index(self.pairs@, i as int);
                }
                Some(&self.pairs[i].1)
            },
            None => {
                proof {
                    lemma_map_of_absent::<u128, V>(self.pairs@, k);
                }
                None
            },
        }
    }

    /// Inserts only when the key is absent; says which of the two happened.
    pub fn insert_if_absent(&mut self, k: u128, v: V) -> (fresh: bool)
        requires
            old(self).wf(),
        ensures
            final(self).wf(),
            fresh == !old(self)@.contains_key(k),
            fresh ==> final(self)@ == old(self)@.insert(k, v@),
            !fresh ==> final(self)@ == old(self)@,
    {
        match self.find(k) {
            Some(i) => {
                proof {
                    lemma_map_of_index(self.pairs@, i as int);
                }
                false
            },
            None => {
                proof {
                    lemma_map_of_absent::<u128, V>(self.pairs@, k);
                    lemma_map_of_push(self.pairs@, (k, v));
                }
                self.pairs.push((k, v));
                true
            },
        }
    }

    /// Inserts or replaces.
    pub fn upsert(&mut self, k: u128, v: V)
        requires
            old(self).wf(),
        ensures
            final(self).wf(),
            final(self)@ == old(self)@.insert(k, v@),
    {
        match self.find(k) {
            Some(i) => {
                proof {
                    lemma_map_of_index(self.pairs@, i as int);
                    let s = self.pairs@;
                    assert(forall|j: int| 0 <= j < s.len() && j != i
                        ==> (#[trigger] s[j]).0@ != k@);
                    lemma_map_of_replace(self.pairs@, i as int, (k, v));
                    assert(map_of(s).remove(k).insert(k, v@) =~= map_of(s).insert(k, v@));
                }
                self.pairs.set(i, (k, v));
            },
            None => {
                proof {
                    lemma_map_of_absent::<u128, V>(self.pairs@, k);
                    lemma_map_of_push(self.pairs@, (k, v));
                }
                self.pairs.push((k, v));
            },
        }
    }

    /// Removes and hands the value out, if the key was there.
    pub fn remove(&mut self, k: u128) -> (r: Option<V>)
        requires
            old(self).wf(),
        ensures
            final(self).wf(),
            final(self)@ == old(self)@.remove(k),
            match r {
                Some(v) => old(self)@.contains_key(k) && v@ == old(self)@[k],
                None => !old(self)@.contains_key(k),
            },
    {
        match self.find(k) {
            Some(i) => {
                proof {
                    lemma_map_of_index(self.pairs@, i as int);
                    lemma_map_of_swap_remove(self.pairs@, i as int);
                }
                let p = self.pairs.swap_remove(i);
                Some(p.1)
            },
            None => {
                proof {
                    lemma_map_of_absent::<u128, V>(self.pairs@, k);
                    assert(map_of(self.pairs@).remove(k) =~= map_of(self.pairs@));
                }
                None
            },
        }
    }

    /// Every key once, in some order.
    pub fn keys(&self) -> (r: Vec<u128>)
        requires
            self.wf(),
        ensures
            r@.no_duplicates(),
            forall|k: u128| r@.contains(k) <==> self@.contains_key(k),
            r@.len() == self.len_spec(),
    {
        let mut r: Vec<u128> = Vec::new();
        let mut i: usize = 0;
        while i < self.pairs.len()
            invariant
                i <= self.pairs@.len(),
                r@.len() == i,
                forall|j: int| 0 <= j < i ==> r@[j] == (#[trigger] self.pairs@[j]).0,
            decreases self.pairs@.len() - i,
        {
            r.push(self.pairs[i].0);
            i = i + 1;
        }
        proof {
            assert forall|j: int, l: int| 0 <= j < l < r@.len() implies r@[j] != r@[l] by {
                assert(self.pairs@[j].0 != self.pairs@[l].0);
            }
            assert forall|k: u128| r@.contains(k) implies self@.contains_key(k) by {
                let j = choose|j: int| 0 <= j < r@.len() && r@[j] == k;
                lemma_map_of_index(self.pairs@, j);
            }
            assert forall|k: u128| self@.contains_key(k) implies r@.contains(k) by {
                lemma_map_of_dom::<u128, V>(self.pairs@, k);
                let j = choose|j: int| 0 <= j < self.pairs@.len()
                    && (#[trigger] self.pairs@[j]).0@ == k;
                assert(r@[j] == k);
            }
        }
        r
    }

    /// The number of entries, as a specification value.
    pub closed spec fn len_spec(&self) -> nat {
        self.pairs@.len()
    }

    /// The number of entries.
    pub fn len(&self) -> (r: usize)
        ensures
            r == self.len_spec(),
    {
        self.pairs.len()
    }

    /// The entry count equals the cardinality of the view's domain.
    pub proof fn lemma_dom_len(&self)
        requires
            self.wf(),
        ensures
            self@.dom().finite(),
            self@.dom().len() == self.len_spec(),
    {
        lemma_map_of_dom_len(self.pairs@);
    }
}

/// An association map from byte-string names to values.
pub struct NameMap<V> {
    pairs: Vec<(Vec<u8>, V)>,
}

impl<V: View> View for NameMap<V> {
    type V = Map<Seq<u8>, V::V>;

    closed spec fn view(&self) -> Map<Seq<u8>, V::V> {
        map_of(self.pairs@)
    }
}

impl<V: View> NameMap<V> {
    /// Keys pairwise distinct; every operation below keeps this.
    pub closed spec fn wf(&self) -> bool {
        distinct_keys(self.pairs@)
    }

    pub fn new() -> (r: NameMap<V>)
        ensures
            r.wf(),
            r@ == Map::<Seq<u8>, V::V>::empty(),
    {
        NameMap { pairs: Vec::new() }
    }

    fn find(&self, k: &Vec<u8>) -> (r: Option<usize>)
        ensures
            match r {
                Some(i) => i < self.pairs@.len() && self.pairs@[i as int].0@ == k@,
                None => forall|j: int| 0 <= j < self.pairs@.len()
                    ==> (#[trigger] self.pairs@[j]).0@ != k@,
            },
    {
        let mut i: usize = 0;
        while i < self.pairs.len()
            invariant
                i <= self.pairs@.len(),
                forall|j: int| 0 <= j < i ==> (#[trigger] self.pairs@[j]).0@ != k@,
            decreases self.pairs@.len() - i,
        {
            if bytes_eq(&self.pairs[i].0, k) {
                return Some(i);
            }
            i = i + 1;
        }
        None
    }

    pub fn contains(&self, k: &Vec<u8>) -> (r: bool)
        requires
            self.wf(),
        ensures
            r == self@.contains_key(k@),
    {
        match self.find(k) {
            Some(i) => {
                proof {
                    lemma_map_of_index(self.pairs@, i as int);
                }
                true
            },
            None => {
                proof {
                    lemma_map_of_absent::<Vec<u8>, V>(self.pairs@, k@);
                }
                false
            },
        }
    }

    pub fn get(&self, k: &Vec<u8>) -> (r: Option<&V>)
        requires
            self.wf(),
        ensures
            match r {
                Some(v) => self@.contains_key(k@) && v@ == self@[k@],
                None => !self@.contains_key(k@),
            },
    {
        match self.find(k) {
            Some(i) => {
                proof {
                    lemma_map_of_index(self.pairs@, i as int);
                }
                Some(&self.pairs[i].1)
            },
            None => {
                proof {
                    lemma_map_of_absent::<Vec<u8>, V>(self.pairs@, k@);
                }
                None
            },
        }
    }

    /// Inserts only when the key is absent; says which of the two happened.
    pub fn insert_if_absent(&mut self, k: Vec<u8>, v: V) -> (fresh: bool)
        requires
            old(self).wf(),
        ensures
            final(self).wf(),
            fresh == !old(self)@.contains_key(k@),
            fresh ==> final(self)@ == old(self)@.insert(k@, v@),
            !fresh ==> final(self)@ == old(self)@,
    {
        match self.find(&k) {
            Some(i) => {
                proof {
                    lemma_map_of_index(self.pairs@, i as int);
                }
                false
            },
            None => {
                proof {
                    lemma_map_of_absent::<Vec<u8>, V>(self.pairs@, k@);
                    lemma_map_of_push(self.pairs@, (k, v));
                }
                self.pairs.push((k, v));
                true
            },
        }
    }

    /// The number of entries, as a specification value.
    pub closed spec fn len_spec(&self) -> nat {
        self.pairs@.len()
    }

    /// The number of entries.
    pub fn len(&self) -> (r: usize)
        ensures
            r == self.len_spec(),
    {
        self.pairs.len()
    }
}

/// Byte strings equal exactly when their views are.
pub fn bytes_eq(a: &Vec<u8>, b: &Vec<u8>) -> (r: bool)
    ensures
        r == (a@ == b@),
{
    if a.len() != b.len() {
        return false;
    }
    let mut i: usize = 0;
    while i < a.len()
        invariant
            i <= a@.len(),
            a@.len() == b@.len(),
            forall|j: int| 0 <= j < i ==> a@[j] == b@[j],
        decreases a@.len() - i,
    {
        if a[i] != b[i] {
            return false;
        }
        i = i + 1;
    }
    proof {
        assert(a@ =~= b@);
    }
    true
}

/// A copy of a byte string, equal as a sequence.
pub fn clone_bytes(v: &Vec<u8>) -> (r: Vec<u8>)
    ensures
        r@ == v@,
{
    let mut r: Vec<u8> = Vec::new();
    let mut i: usize = 0;
    while i < v.len()
        invariant
            i <= v@.len(),
            r@ == v@.subrange(0, i as int),
        decreases v@.len() - i,
    {
        r.push(v[i]);
        proof {
            assert(v@.subrange(0, i as int).push(v@[i as int])
                =~= v@.subrange(0, i as int + 1));
        }
        i = i + 1;
    }
    proof {
        assert(v@.subrange(0, v@.len() as int) =~= v@);
    }
    r
}

/// A copy of an identifier list, equal as a sequence.
pub fn clone_ids(v: &Vec<u128>) -> (r: Vec<u128>)
    ensures
        r@ == v@,
{
    let mut r: Vec<u128> = Vec::new();
    let mut i: usize = 0;
    while i < v.len()
        invariant
            i <= v@.len(),
            r@ == v@.subrange(0, i as int),
        decreases v@.len() - i,
    {
        r.push(v[i]);
        proof {
            assert(v@.subrange(0, i as int).push(v@[i as int])
                =~= v@.subrange(0, i as int + 1));
        }
        i = i + 1;
    }
    proof {
        assert(v@.subrange(0, v@.len() as int) =~= v@);
    }
    r
}


} // verus!
