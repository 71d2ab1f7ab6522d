//! The client's side of the data path: the chunking plan that cuts a file
//! into chunks ahead of the placement request, and the bounded cache of
//! chunkserver connections with its least-recently-used eviction.

use vstd::prelude::*;
use vstd::arithmetic::div_mod::{lemma_fundamental_div_mod, lemma_mod_division_less_than_divisor};
use crate::config::MAX_CHUNK_SIZE;
use crate::kvmap::{
    bytes_eq, distinct_keys, lemma_map_of_absent, lemma_map_of_index, lemma_map_of_push,
    lemma_map_of_remove_at, map_of,
};

verus! {

/// How many chunks a file of `file_size` bytes is cut into: none for an
/// empty file, else one per started block of MAX_CHUNK_SIZE bytes.
pub open spec fn spec_chunk_count(file_size: u64) -> int {
    if file_size == 0 {
        0
    } else {
        (file_size - 1) as int / MAX_CHUNK_SIZE as int + 1
    }
}

/// The number of chunks a placement request asks for.
pub fn chunk_count(file_size: u64) -> (n: u64)
    ensures
        n == spec_chunk_count(file_size),
{
    if file_size == 0 {
        0
    } else {
        (file_size - 1) / MAX_CHUNK_SIZE + 1
    }
}

/// The spans a file is cut into: for each chunk its byte offset and its
/// size.  Offsets step by MAX_CHUNK_SIZE; every chunk is full except the
/// last, which takes what remains; together they cover the file exactly.
pub fn chunk_spans(file_size: u64) -> (r: Vec<(u64, u64)>)
    ensures
        r@.len() == spec_chunk_count(file_size),
        forall|i: int| 0 <= i < r@.len()
            ==> (#[trigger] r@[i]).0 == i * (MAX_CHUNK_SIZE as int),
        forall|i: int| 0 <= i < r@.len()
            ==> 0 < (#[trigger] r@[i]).1 <= MAX_CHUNK_SIZE,
        forall|i: int| 0 <= i < r@.len()
            ==> (#[trigger] r@[i]).0 + r@[i].1
                == if i == r@.len() - 1 {
                    file_size as int
                } else {
                    (i + 1) * (MAX_CHUNK_SIZE as int)
                },
{
    let n = chunk_count(file_size);
    let mut r: Vec<(u64, u64)> = Vec::new();
    let mut i: u64 = 0;
    proof {
        if file_size > 0 {
            lemma_fundamental_div_mod((file_size - 1) as int, MAX_CHUNK_SIZE as int);
            lemma_mod_division_less_than_divisor((file_size - 1) as int, MAX_CHUNK_SIZE as int);
            let q = (file_size - 1) as int / MAX_CHUNK_SIZE as int;
            assert((n - 1) * (MAX_CHUNK_SIZE as int) == (MAX_CHUNK_SIZE as int) * q)
                by (nonlinear_arith)
                requires
                    n == q + 1,
            ;
            assert(n * (MAX_CHUNK_SIZE as int) == (MAX_CHUNK_SIZE as int) * q
                + MAX_CHUNK_SIZE as int) by (nonlinear_arith)
                requires
                    n == q + 1,
            ;
            assert(file_size as int <= n * (MAX_CHUNK_SIZE as int));
        }
    }
    while i < n
        invariant
            n == spec_chunk_count(file_size),
            (n - 1) * (MAX_CHUNK_SIZE as int) <= file_size - 1 || n == 0,
            file_size as int <= n * (MAX_CHUNK_SIZE as int),
            i <= n,
            r@.len() == i,
            forall|k: int| 0 <= k < r@.len()
                ==> (#[trigger] r@[k]).0 == k * (MAX_CHUNK_SIZE as int),
            forall|k: int| 0 <= k < r@.len()
                ==> 0 < (#[trigger] r@[k]).1 <= MAX_CHUNK_SIZE,
            forall|k: int| 0 <= k < r@.len()
                ==> (#[trigger] r@[k]).0 + r@[k].1
                    == if k == n - 1 {
                        file_size as int
                    } else {
                        (k + 1) * (MAX_CHUNK_SIZE as int)
                    },
        decreases n - i,
    {
        proof {
            assert(i * (MAX_CHUNK_SIZE as int) <= (n - 1) * (MAX_CHUNK_SIZE as int))
                by (nonlinear_arith)
                requires
                    0 <= i <= n - 1,
            ;
        }
        let offset: u64 = i * MAX_CHUNK_SIZE;
        let remaining: u64 = file_size - offset;
        let size: u64 = if remaining > MAX_CHUNK_SIZE {
            MAX_CHUNK_SIZE
        } else {
            remaining
        };
        proof {
            if i + 1 < n {
                assert((i + 1) * (MAX_CHUNK_SIZE as int) <= (n - 1) * (MAX_CHUNK_SIZE as int))
                    by (nonlinear_arith)
                    requires
                        0 <= i + 1 <= n - 1,
                ;
                assert((i + 1) * (MAX_CHUNK_SIZE as int)
                    == i * (MAX_CHUNK_SIZE as int) + MAX_CHUNK_SIZE as int) by (nonlinear_arith);
                assert(remaining > MAX_CHUNK_SIZE);
            } else {
                assert(i == n - 1);
                assert(n * (MAX_CHUNK_SIZE as int)
                    == (n - 1) * (MAX_CHUNK_SIZE as int) + MAX_CHUNK_SIZE as int)
                    by (nonlinear_arith);
                assert(remaining <= MAX_CHUNK_SIZE);
            }
        }
        r.push((offset, size));
        i = i + 1;
    }
    r
}

/// One cached transport connection: the opaque handle the caller assigned
/// when it dialed, and the moment the entry stops being usable.
#[derive(Debug, Clone, Copy, PartialEq, Eq, Structural)]
pub struct CachedConnection {
    pub conn: u64,
    pub expires_at: u64,
}

impl View for CachedConnection {
    type V = CachedConnection;

    open spec fn view(&self) -> CachedConnection {
        *self
    }
}

/// The client's bounded connection cache, from server location to cached
/// connection, with time-based expiry.  The entry order is the recency
/// order, least recently used first: a hit moves its entry to the back, and
/// when a full cache takes a new location the front entry is evicted.  A
/// connection the transport reports closed is dropped with `invalidate`,
/// after which the caller redials exactly once and stores the fresh handle.
pub struct ConnectionCache {
    entries: Vec<(Vec<u8>, CachedConnection)>,
    capacity: usize,
}

impl ConnectionCache {
    /// The cached connection per location.
    pub closed spec fn contents(&self) -> Map<Seq<u8>, CachedConnection> {
        map_of(self.entries@)
    }

    /// The entries in recency order, least recently used first.
    pub closed spec fn order(&self) -> Seq<(Seq<u8>, CachedConnection)> {
        self.entries@.map_values(|p: (Vec<u8>, CachedConnection)| (p.0@, p.1))
    }

    /// The bound the cache was made with.
    pub closed spec fn capacity_spec(&self) -> nat {
        self.capacity as nat
    }

    /// Distinct locations, never more entries than the bound allows.
    pub closed spec fn wf(&self) -> bool {
        &&& distinct_keys(self.entries@)
        &&& self.entries@.len() <= self.capacity
        &&& self.capacity >= 1
    }

    /// An empty cache bounded at `capacity` entries.
    pub fn new(capacity: usize) -> (r: ConnectionCache)
        requires
            capacity >= 1,
        ensures
            r.wf(),
            r.capacity_spec() == capacity,
            r.contents() == Map::<Seq<u8>, CachedConnection>::empty(),
            r.order() == Seq::<(Seq<u8>, CachedConnection)>::empty(),
    {
        let r = ConnectionCache { entries: Vec::new(), capacity };
        proof {
            assert(r.order() =~= Seq::<(Seq<u8>, CachedConnection)>::empty());
        }
        r
    }

    fn find(&self, loc: &Vec<u8>) -> (r: Option<usize>)
        ensures
            match r {
                Some(i) => i < self.entries@.len() && self.entries@[i as int].0@ == loc@,
                None => forall|j: int| 0 <= j < self.entries@.len()
                    ==> (#[trigger] self.entries@[j]).0@ != loc@,
            },
    {
        let mut i: usize = 0;
        while i < self.entries.len()
            invariant
                i <= self.entries@.len(),
                forall|j: int| 0 <= j < i ==> (#[trigger] self.entries@[j]).0@ != loc@,
            decreases self.entries@.len() - i,
        {
            if bytes_eq(&self.entries[i].0, loc) {
                return Some(i);
            }
            i = i + 1;
        }
        None
    }

    /// A usable cached connection for the location, if one is there: a hit
    /// becomes the most recently used entry; an entry past its expiry is
    /// dropped instead of returned.
    pub fn lookup(&mut self, loc: &Vec<u8>, now: u64) -> (r: Option<u64>)
        requires
            old(self).wf(),
        ensures
            final(self).wf(),
            final(self).capacity_spec() == old(self).capacity_spec(),
            !old(self).contents().contains_key(loc@) ==> {
                &&& r is None
                &&& final(self).contents() == old(self).contents()
                &&& final(self).order() == old(self).order()
            },
            old(self).contents().contains_key(loc@)
                    && now < old(self).contents()[loc@].expires_at ==> {
                &&& r == Some(old(self).contents()[loc@].conn)
                &&& final(self).contents() == old(self).contents()
                &&& exists|i: int| 0 <= i < old(self).order().len()
                    && (#[trigger] old(self).order()[i]).0 == loc@
                    && final(self).order() == old(self).order().remove(i).push(
                        (loc@, old(self).contents()[loc@]),
                    )
            },
            old(self).contents().contains_key(loc@)
                    && now >= old(self).contents()[loc@].expires_at ==> {
                &&& r is None
                &&& final(self).contents() == old(self).contents().remove(loc@)
                &&& exists|i: int| 0 <= i < old(self).order().len()
                    && (#[trigger] old(self).order()[i]).0 == loc@
                    && final(self).order() == old(self).order().remove(i)
            },
    {
        let i = match self.find(loc) {
            None => {
                proof {
                    lemma_map_of_absent::<Vec<u8>, CachedConnection>(self.entries@, loc@);
                }
                return None;
            },
            Some(i) => i,
        };
        let ghost s0 = self.entries@;
        let e: CachedConnection = self.entries[i].1;
        proof {
            lemma_map_of_index(s0, i as int);
            lemma_map_of_remove_at(s0, i as int);
        }
        let pair = self.entries.remove(i);
        proof {
            assert(self.order() =~= old(self).order().remove(i as int)) by {
                assert forall|j: int| 0 <= j < self.entries@.len()
                    implies #[trigger] self.order()[j]
                        == old(self).order().remove(i as int)[j] by {
                    if j < i {
                        assert(self.entries@[j] == s0[j]);
                    } else {
                        assert(self.entries@[j] == s0[j + 1]);
                    }
                }
            }
        }
        if now < e.expires_at {
            proof {
                lemma_map_of_push(self.entries@, (pair.0, pair.1));
                assert(forall|j: int| 0 <= j < self.entries@.len()
                    ==> (#[trigger] self.entries@[j]).0@ != loc@);
            }
            let ghost s1 = self.entries@;
            self.entries.push(pair);
            proof {
                assert(map_of(s0).remove(loc@).insert(loc@, e) =~= map_of(s0));
                assert(self.order() =~= old(self).order().remove(i as int).push((loc@, e))) by {
                    assert forall|j: int| 0 <= j < self.entries@.len()
                        implies #[trigger] self.order()[j]
                            == old(self).order().remove(i as int).push((loc@, e))[j] by {
                        if j < self.entries@.len() - 1 {
                            assert(self.entries@[j] == s1[j]);
                        }
                    }
                }
                assert(old(self).order()[i as int].0 == loc@);
            }
            Some(e.conn)
        } else {
            proof {
                assert(old(self).order()[i as int].0 == loc@);
            }
            None
        }
    }

    /// Records the connection the caller just dialed for the location, as
    /// the most recently used entry.  A full cache first evicts its least
    /// recently used entry to make room for a new location.
    pub fn store(&mut self, loc: Vec<u8>, conn: u64, expires_at: u64)
        requires
            old(self).wf(),
        ensures
            final(self).wf(),
            final(self).capacity_spec() == old(self).capacity_spec(),
            old(self).contents().contains_key(loc@) ==> {
                &&& final(self).contents() == old(self).contents().insert(
                    loc@,
                    CachedConnection { conn, expires_at },
                )
                &&& exists|i: int| 0 <= i < old(self).order().len()
                    && (#[trigger] old(self).order()[i]).0 == loc@
                    && final(self).order() == old(self).order().remove(i).push(
                        (loc@, CachedConnection { conn, expires_at }),
                    )
            },
            !old(self).contents().contains_key(loc@)
                    && old(self).order().len() < old(self).capacity_spec() ==> {
                &&& final(self).contents() == old(self).contents().insert(
                    loc@,
                    CachedConnection { conn, expires_at },
                )
                &&& final(self).order() == old(self).order().push(
                    (loc@, CachedConnection { conn, expires_at }),
                )
            },
            !old(self).contents().contains_key(loc@)
                    && old(self).order().len() == old(self).capacity_spec() ==> {
                &&& final(self).contents() == old(self).contents().remove(
                    old(self).order()[0].0,
                ).insert(loc@, CachedConnection { conn, expires_at })
                &&& final(self).order() == old(self).order().drop_first().push(
                    (loc@, CachedConnection { conn, expires_at }),
                )
            },
    {
        let e = CachedConnection { conn, expires_at };
        let ghost lv = loc@;
        match self.find(&loc) {
            Some(i) => {
                let ghost s0 = self.entries@;
                proof {
                    lemma_map_of_index(s0, i as int);
                    lemma_map_of_remove_at(s0, i as int);
                }
                self.entries.remove(i);
                proof {
                    assert(self.order() =~= old(self).order().remove(i as int)) by {
                        assert forall|j: int| 0 <= j < self.entries@.len()
                            implies #[trigger] self.order()[j]
                                == old(self).order().remove(i as int)[j] by {
                            if j < i {
                                assert(self.entries@[j] == s0[j]);
                            } else {
                                assert(self.entries@[j] == s0[j + 1]);
                            }
                        }
                    }
                    lemma_map_of_push(self.entries@, (loc, e));
                    assert(forall|j: int| 0 <= j < self.entries@.len()
                        ==> (#[trigger] self.entries@[j]).0@ != lv);
                }
                let ghost s1 = self.entries@;
                self.entries.push((loc, e));
                proof {
                    assert(map_of(s0).remove(lv).insert(lv, e)
                        =~= map_of(s0).insert(lv, e));
                    assert(self.order()
                        =~= old(self).order().remove(i as int).push((lv, e))) by {
                        assert forall|j: int| 0 <= j < self.entries@.len()
                            implies #[trigger] self.order()[j]
                                == old(self).order().remove(i as int).push((lv, e))[j] by {
                            if j < self.entries@.len() - 1 {
                                assert(self.entries@[j] == s1[j]);
                            }
                        }
                    }
                    assert(old(self).order()[i as int].0 == lv);
                }
            },
            None => {
                proof {
                    lemma_map_of_absent::<Vec<u8>, CachedConnection>(self.entries@, lv);
                }
                if self.entries.len() == self.capacity {
                    let ghost s0 = self.entries@;
                    proof {
                        lemma_map_of_index(s0, 0);
                        lemma_map_of_remove_at(s0, 0);
                        assert(s0[0].0@ == old(self).order()[0].0);
                    }
                    self.entries.remove(0);
                    proof {
                        assert(self.entries@ =~= s0.drop_first());
                        assert(self.order() =~= old(self).order().drop_first()) by {
                            assert forall|j: int| 0 <= j < self.entries@.len()
                                implies #[trigger] self.order()[j]
                                    == old(self).order().drop_first()[j] by {
                                assert(self.entries@[j] == s0[j + 1]);
                            }
                        }
                    }
                }
                let ghost s1 = self.entries@;
                let ghost pre_order = self.order();
                proof {
                    lemma_map_of_push(s1, (loc, e));
                    assert(forall|j: int| 0 <= j < s1.len()
                        ==> (#[trigger] s1[j]).0@ != lv);
                }
                self.entries.push((loc, e));
                proof {
                    assert(self.order() =~= pre_order.push((lv, e))) by {
                        assert forall|j: int| 0 <= j < self.entries@.len()
                            implies #[trigger] self.order()[j]
                                == pre_order.push((lv, e))[j] by {
                            if j < self.entries@.len() - 1 {
                                assert(self.entries@[j] == s1[j]);
                            }
                        }
                    }
                }
            },
        }
    }

    /// Drops the entry for a location whose connection the transport
    /// reported closed; the caller then redials exactly once.
    pub fn invalidate(&mut self, loc: &Vec<u8>)
        requires
            old(self).wf(),
        ensures
            final(self).wf(),
            final(self).capacity_spec() == old(self).capacity_spec(),
            final(self).contents() == old(self).contents().remove(loc@),
            !old(self).contents().contains_key(loc@) ==> {
                &&& final(self).contents() == old(self).contents()
                &&& final(self).order() == old(self).order()
            },
            old(self).contents().contains_key(loc@) ==> exists|i: int|
                0 <= i < old(self).order().len()
                    && (#[trigger] old(self).order()[i]).0 == loc@
                    && final(self).order() == old(self).order().remove(i),
    {
        match self.find(loc) {
            None => {
                proof {
                    lemma_map_of_absent::<Vec<u8>, CachedConnection>(self.entries@, loc@);
                    assert(map_of(self.entries@).remove(loc@) =~= map_of(self.entries@));
                }
            },
            Some(i) => {
                let ghost s0 = self.entries@;
                proof {
                    lemma_map_of_index(s0, i as int);
                    lemma_map_of_remove_at(s0, i as int);
                }
                self.entries.remove(i);
                proof {
                    assert(self.order() =~= old(self).order().remove(i as int)) by {
                        assert forall|j: int| 0 <= j < self.entries@.len()
                            implies #[trigger] self.order()[j]
                                == old(self).order().remove(i as int)[j] by {
                            if j < i {
                                assert(self.entries@[j] == s0[j]);
                            } else {
                                assert(self.entries@[j] == s0[j + 1]);
                            }
                        }
                    }
                    assert(old(self).order()[i as int].0 == loc@);
                }
            },
        }
    }
}

} // verus!
