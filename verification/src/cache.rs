//! The optional routing cache: a bounded map from metric name to
//! backend index with least-recently-used eviction, used only to skip
//! repeated pattern scans for single-target routing. Disabled unless
//! sized above zero; callers serialize access with one exclusive lock.

use vstd::prelude::*;

use crate::registry::{spec_first_match, BackendRoute, Registry};
use crate::text::str_eq;

verus! {

/// Bounded name-to-backend cache, most recently used first.
pub struct RoutingCache {
    entries: Vec<(String, usize)>,
    capacity: usize,
}

/// Index of the entry holding `name`, if any.
pub open spec fn spec_find_key(entries: Seq<(String, usize)>, name: Seq<char>) -> Option<int>
    decreases entries.len(),
{
    if entries.len() == 0 {
        None
    } else if entries[0].0@ == name {
        Some(0int)
    } else {
        match spec_find_key(entries.subrange(1, entries.len() as int), name) {
            None => None,
            Some(i) => Some(i + 1),
        }
    }
}

/// What `spec_find_key` returns, spelled out.
proof fn lemma_find_key_characterization(entries: Seq<(String, usize)>, name: Seq<char>)
    ensures
        match spec_find_key(entries, name) {
            None => forall|i: int| 0 <= i < entries.len() ==> (#[trigger] entries[i]).0@ != name,
            Some(i) => {
                &&& 0 <= i < entries.len()
                &&& entries[i].0@ == name
                &&& forall|j: int| 0 <= j < i ==> (#[trigger] entries[j]).0@ != name
            },
        },
    decreases entries.len(),
{
    if entries.len() == 0 {
    } else if entries[0].0@ == name {
    } else {
        let tail = entries.subrange(1, entries.len() as int);
        lemma_find_key_characterization(tail, name);
        match spec_find_key(tail, name) {
            None => {
                assert forall|i: int| 0 <= i < entries.len() implies (#[trigger] entries[i]).0@
                    != name by {
                    if i >= 1 {
                        assert(tail[i - 1] == entries[i]);
                    }
                }
            },
            Some(k) => {
                assert(tail[k] == entries[k + 1]);
                assert forall|j: int| 0 <= j < k + 1 implies (#[trigger] entries[j]).0@ != name by {
                    if j >= 1 {
                        assert(tail[j - 1] == entries[j]);
                    }
                }
            },
        }
    }
}

impl RoutingCache {
    pub closed spec fn spec_entries(&self) -> Seq<(String, usize)> {
        self.entries@
    }

    pub closed spec fn spec_capacity(&self) -> usize {
        self.capacity
    }

    /// Well-formed: within capacity, and no name appears twice.
    pub open spec fn spec_wf(&self) -> bool {
        &&& self.spec_entries().len() <= self.spec_capacity()
        &&& forall|i: int, j: int|
            0 <= i < j < self.spec_entries().len() ==> (#[trigger] self.spec_entries()[i]).0@ != (
            #[trigger] self.spec_entries()[j]).0@
    }

    /// An empty cache of the given capacity; capacity zero disables it.
    pub fn new(capacity: usize) -> (c: RoutingCache)
        ensures
            c.spec_wf(),
            c.spec_capacity() == capacity,
            c.spec_entries().len() == 0,
    {
        RoutingCache { entries: Vec::new(), capacity }
    }

    /// Look `name` up; a hit moves its entry to the front (most
    /// recently used) and leaves everything else in order.
    pub fn get(&mut self, name: &str) -> (r: Option<usize>)
        requires
            old(self).spec_wf(),
        ensures
            final(self).spec_wf(),
            final(self).spec_capacity() == old(self).spec_capacity(),
            match spec_find_key(old(self).spec_entries(), name@) {
                None => {
                    &&& r is None
                    &&& final(self).spec_entries() == old(self).spec_entries()
                },
                Some(i) => {
                    &&& r == Some(old(self).spec_entries()[i].1)
                    &&& final(self).spec_entries() == seq![old(self).spec_entries()[i]] + old(
                        self,
                    ).spec_entries().remove(i)
                },
            },
    {
        let ghost ov = self.entries@;
        proof {
            lemma_find_key_characterization(ov, name@);
        }
        let n = self.entries.len();
        let mut p: usize = 0;
        while p < n
            invariant
                n == self.entries@.len(),
                p <= n,
                self.entries@ == ov,
                ov == old(self).spec_entries(),
                old(self).spec_wf(),
                self.capacity == old(self).spec_capacity(),
                forall|j: int| 0 <= j < p ==> (#[trigger] ov[j]).0@ != name@,
            decreases n - p,
        {
            if str_eq(self.entries[p].0.as_str(), name) {
                proof {
                    lemma_find_key_characterization(ov, name@);
                    assert(ov[p as int].0@ == name@);
                    assert(spec_find_key(ov, name@) == Some(p as int)) by {
                        match spec_find_key(ov, name@) {
                            None => {
                                assert(false);
                            },
                            Some(i) => {
                                if i < p as int {
                                    assert(ov[i].0@ != name@);
                                } else if i > p as int {
                                    assert(ov[p as int].0@ != name@);
                                }
                            },
                        }
                    }
                }
                let e = self.entries.remove(p);
                let b = e.1;
                self.entries.insert(0, e);
                proof {
                    let nv = self.entries@;
                    ov.remove_ensures(p as int);
                    ov.remove(p as int).insert_ensures(0, ov[p as int]);
                    assert(nv =~= seq![ov[p as int]] + ov.remove(p as int));
                    assert forall|i: int, j: int| 0 <= i < j < nv.len() implies (
                    #[trigger] nv[i]).0@ != (#[trigger] nv[j]).0@ by {
                        let rm = ov.remove(p as int);
                        if i == 0 {
                            assert(nv[j] == rm[j - 1]);
                            if j - 1 < p as int {
                                assert(rm[j - 1] == ov[j - 1]);
                                assert(ov[j - 1].0@ != name@);
                            } else {
                                assert(rm[j - 1] == ov[j]);
                                if (p as int) < j {
                                    assert(ov[p as int].0@ != ov[j].0@);
                                }
                            }
                        } else {
                            let rm = ov.remove(p as int);
                            let a1 = if i - 1 < p as int {
                                i - 1
                            } else {
                                i
                            };
                            let a2 = if j - 1 < p as int {
                                j - 1
                            } else {
                                j
                            };
                            assert(nv[i] == ov[a1]);
                            assert(nv[j] == ov[a2]);
                        }
                    }
                }
                return Some(b);
            }
            p = p + 1;
        }
        None
    }

    /// Bind `name` to `backend` as the most recent entry, dropping any
    /// older binding of the same name; when over capacity the least
    /// recently used entry falls off the end. With capacity zero this
    /// caches nothing.
    pub fn insert(&mut self, name: &str, backend: usize)
        requires
            old(self).spec_wf(),
        ensures
            final(self).spec_wf(),
            final(self).spec_capacity() == old(self).spec_capacity(),
            old(self).spec_capacity() == 0 ==> final(self).spec_entries()
                == old(self).spec_entries(),
            old(self).spec_capacity() > 0 ==> {
                let purged = match spec_find_key(old(self).spec_entries(), name@) {
                    Some(i) => old(self).spec_entries().remove(i),
                    None => old(self).spec_entries(),
                };
                &&& final(self).spec_entries().len() == (if purged.len() + 1 <= old(
                    self,
                ).spec_capacity() {
                    purged.len() + 1
                } else {
                    old(self).spec_capacity() as nat
                })
                &&& final(self).spec_entries()[0].0@ == name@
                &&& final(self).spec_entries()[0].1 == backend
                &&& forall|j: int|
                    1 <= j < final(self).spec_entries().len()
                        ==> #[trigger] final(self).spec_entries()[j] == purged[j - 1]
            },
    {
        let ghost ov = self.entries@;
        proof {
            lemma_find_key_characterization(ov, name@);
        }
        if self.capacity == 0 {
            return ;
        }
        let n = self.entries.len();
        let mut p: usize = 0;
        let mut found = false;
        while p < n && !found
            invariant
                n == self.entries@.len(),
                p <= n,
                self.entries@ == ov,
                found ==> p < n && ov[p as int].0@ == name@,
                !found ==> forall|j: int| 0 <= j < p ==> (#[trigger] ov[j]).0@ != name@,
            decreases n - p + (if found {
                0int
            } else {
                1int
            }),
        {
            if str_eq(self.entries[p].0.as_str(), name) {
                found = true;
            } else {
                p = p + 1;
            }
        }
        let ghost purged = if found {
            ov.remove(p as int)
        } else {
            ov
        };
        proof {
            if found {
                assert(spec_find_key(ov, name@) == Some(p as int)) by {
                    match spec_find_key(ov, name@) {
                        None => {
                            assert(false);
                        },
                        Some(i) => {
                            if i < p as int {
                                assert(ov[i].0@ != name@);
                            } else if i > p as int {
                                assert(ov[p as int].0@ != name@);
                            }
                        },
                    }
                }
                ov.remove_ensures(p as int);
            } else {
                assert(spec_find_key(ov, name@) is None) by {
                    match spec_find_key(ov, name@) {
                        None => {},
                        Some(i) => {
                            assert(ov[i].0@ != name@);
                        },
                    }
                }
            }
            // purged never holds the key, and keeps distinct keys
            assert forall|i: int| 0 <= i < purged.len() implies (#[trigger] purged[i]).0@
                != name@ by {
                if found {
                    if i < p as int {
                        assert(purged[i] == ov[i]);
                    } else {
                        assert(purged[i] == ov[i + 1]);
                        if (p as int) < i + 1 {
                            assert(ov[p as int].0@ != ov[i + 1].0@ || p as int == i + 1);
                        }
                    }
                }
            }
            assert forall|i: int, j: int| 0 <= i < j < purged.len() implies (
            #[trigger] purged[i]).0@ != (#[trigger] purged[j]).0@ by {
                if found {
                    let a1 = if i < p as int {
                        i
                    } else {
                        i + 1
                    };
                    let a2 = if j < p as int {
                        j
                    } else {
                        j + 1
                    };
                    assert(purged[i] == ov[a1]);
                    assert(purged[j] == ov[a2]);
                }
            }
        }
        if found {
            let _ = self.entries.remove(p);
        }
        self.entries.insert(0, (name.to_owned(), backend));
        proof {
            purged.insert_ensures(0, self.entries@[0]);
            assert(self.entries@ =~= seq![self.entries@[0]] + purged);
            assert(self.entries@[0].0@ == name@);
        }
        if self.entries.len() > self.capacity {
            let ghost before = self.entries@;
            self.entries.truncate(self.capacity);
            proof {
                assert(self.entries@ =~= before.subrange(0, self.capacity as int));
            }
        }
        proof {
            let nv = self.entries@;
            assert(nv[0].0@ == name@ && nv[0].1 == backend);
            assert(forall|j: int| 1 <= j < nv.len() ==> #[trigger] nv[j] == purged[j - 1]);
            assert forall|i: int, j: int| 0 <= i < j < nv.len() implies (#[trigger] nv[i]).0@ != (
            #[trigger] nv[j]).0@ by {
                if i == 0 {
                    assert(nv[j] == purged[j - 1]);
                    assert(purged[j - 1].0@ != name@);
                } else {
                    assert(nv[i] == purged[i - 1]);
                    assert(nv[j] == purged[j - 1]);
                }
            }
        }
    }
}

/// Every cache entry agrees with the registry: its backend index is
/// exactly what a fresh first-match lookup of its name would return.
pub open spec fn spec_cache_consistent(
    entries: Seq<(String, usize)>,
    routes: Seq<BackendRoute>,
) -> bool {
    forall|i: int|
        0 <= i < entries.len() ==> spec_first_match(routes, (#[trigger] entries[i]).0@) == Some(
            entries[i].1 as int,
        )
}

/// Registry lookup through the cache: hit or miss, the answer is
/// exactly what a direct first-match lookup would give, and a
/// consistent cache stays consistent. Only positive lookups are
/// cached.
pub fn cached_lookup(cache: &mut RoutingCache, reg: &Registry, name: &str) -> (r: Option<usize>)
    requires
        old(cache).spec_wf(),
        spec_cache_consistent(old(cache).spec_entries(), reg.spec_routes()),
    ensures
        final(cache).spec_wf(),
        final(cache).spec_capacity() == old(cache).spec_capacity(),
        spec_cache_consistent(final(cache).spec_entries(), reg.spec_routes()),
        match r {
            Some(b) => spec_first_match(reg.spec_routes(), name@) == Some(b as int),
            None => spec_first_match(reg.spec_routes(), name@) is None,
        },
{
    let ghost ov = old(cache).spec_entries();
    match cache.get(name) {
        Some(b) => {
            proof {
                lemma_find_key_characterization(ov, name@);
                let i = spec_find_key(ov, name@)->0;
                assert(ov[i].0@ == name@);
                assert(spec_first_match(reg.spec_routes(), name@) == Some(b as int));
                let nv = cache.spec_entries();
                assert(nv == seq![ov[i]] + ov.remove(i));
                ov.remove_ensures(i);
                assert forall|j: int|
                    0 <= j < nv.len() implies spec_first_match(
                    reg.spec_routes(),
                    (#[trigger] nv[j]).0@,
                ) == Some(nv[j].1 as int) by {
                    if j == 0 {
                        assert(nv[0] == ov[i]);
                    } else {
                        let rm = ov.remove(i);
                        let a = if j - 1 < i {
                            j - 1
                        } else {
                            j
                        };
                        assert(nv[j] == ov[a]);
                    }
                }
            }
            Some(b)
        },
        None => {
            match reg.lookup(name) {
                Some(b) => {
                    let ghost mid = cache.spec_entries();
                    cache.insert(name, b);
                    proof {
                        let nv = cache.spec_entries();
                        if cache.spec_capacity() > 0 {
                            lemma_find_key_characterization(mid, name@);
                            let purged = match spec_find_key(mid, name@) {
                                Some(i) => mid.remove(i),
                                None => mid,
                            };
                            match spec_find_key(mid, name@) {
                                Some(i) => {
                                    mid.remove_ensures(i);
                                },
                                None => {},
                            }
                            assert forall|j: int|
                                0 <= j < nv.len() implies spec_first_match(
                                reg.spec_routes(),
                                (#[trigger] nv[j]).0@,
                            ) == Some(nv[j].1 as int) by {
                                if j == 0 {
                                    assert(nv[0].0@ == name@ && nv[0].1 == b);
                                } else {
                                    assert(nv[j] == purged[j - 1]);
                                    match spec_find_key(mid, name@) {
                                        Some(i) => {
                                            let a = if j - 1 < i {
                                                j - 1
                                            } else {
                                                j
                                            };
                                            assert(purged[j - 1] == mid[a]);
                                        },
                                        None => {},
                                    }
                                }
                            }
                        }
                    }
                    Some(b)
                },
                None => None,
            }
        },
    }
}

} // verus!
