//! The per-directory index map.
//!
//! Maps each canonical label-directory path to the next sample index to
//! assign there. The reconciler builds it once at startup; the session
//! controller then bumps an entry on every record. Its view is a
//! mathematical map from the directory path, as a character sequence, to
//! the next index.

use vstd::prelude::*;

verus! {

/// Mapping from canonical directory path to the next free sample index.
pub struct IndexMap {
    dirs: Vec<String>,
    next: Vec<u32>,
}

impl IndexMap {
    /// Well-formed: one counter per directory, and no directory listed
    /// twice.
    pub closed spec fn wf(self) -> bool {
        &&& self.dirs@.len() == self.next@.len()
        &&& forall|i: int, j: int|
            0 <= i < j < self.dirs@.len() ==> (#[trigger] self.dirs@[i])@ != (
            #[trigger] self.dirs@[j])@
    }

    pub closed spec fn contains_dir(self, d: Seq<char>) -> bool {
        exists|i: int| 0 <= i < self.dirs@.len() && (#[trigger] self.dirs@[i])@ == d
    }

    spec fn dir_index(self, d: Seq<char>) -> int {
        choose|i: int| 0 <= i < self.dirs@.len() && (#[trigger] self.dirs@[i])@ == d
    }

    proof fn lemma_dir_index(self, d: Seq<char>)
        requires
            self.wf(),
            self.contains_dir(d),
        ensures
            0 <= self.dir_index(d) < self.dirs@.len(),
            self.dirs@[self.dir_index(d)]@ == d,
            forall|i: int|
                0 <= i < self.dirs@.len() && (#[trigger] self.dirs@[i])@ == d ==> i
                    == self.dir_index(d),
    {
    }

    /// The directories held, in insertion order.
    pub closed spec fn dirs_seq(self) -> Seq<Seq<char>> {
        self.dirs@.map_values(|s: String| s@)
    }

    /// An empty map.
    pub fn new() -> (r: IndexMap)
        ensures
            r.wf(),
            r@ == Map::<Seq<char>, u32>::empty(),
    {
        let r = IndexMap { dirs: Vec::new(), next: Vec::new() };
        proof {
            assert(r@ =~= Map::<Seq<char>, u32>::empty());
        }
        r
    }

    fn find(&self, dir: &String) -> (r: Option<usize>)
        requires
            self.wf(),
        ensures
            match r {
                Some(i) => 0 <= i < self.dirs@.len() && self.dirs@[i as int]@ == dir@,
                None => !self.contains_dir(dir@),
            },
    {
        let n = self.dirs.len();
        let mut j: usize = 0;
        while j < n
            invariant
                n == self.dirs@.len(),
                j <= n,
                forall|k: int| 0 <= k < j ==> (#[trigger] self.dirs@[k])@ != dir@,
            decreases n - j,
        {
            if self.dirs[j] == *dir {
                return Some(j);
            }
            j += 1;
        }
        None
    }

    /// The next index for `dir`, without changing the map.
    pub fn get(&self, dir: &String) -> (r: Option<u32>)
        requires
            self.wf(),
        ensures
            r is Some <==> self@.contains_key(dir@),
            r matches Some(v) ==> self@[dir@] == v,
    {
        match self.find(dir) {
            Some(i) => {
                proof {
                    assert(self.contains_dir(dir@));
                    self.lemma_dir_index(dir@);
                    assert(self.dir_index(dir@) == i as int);
                }
                Some(self.next[i])
            },
            None => None,
        }
    }

    /// Take the next index for `dir`, defaulting a missing entry to zero,
    /// and advance the stored counter past it.
    pub fn take_next(&mut self, dir: &String) -> (i: u32)
        requires
            old(self).wf(),
            old(self)@.contains_key(dir@) ==> old(self)@[dir@] < u32::MAX,
        ensures
            final(self).wf(),
            i == if old(self)@.contains_key(dir@) {
                old(self)@[dir@]
            } else {
                0u32
            },
            final(self)@ == old(self)@.insert(dir@, (i + 1) as u32),
    {
        let found = self.find(dir);
        match found {
            Some(j) => {
                proof {
                    assert(self.contains_dir(dir@));
                    self.lemma_dir_index(dir@);
                    assert(self.dir_index(dir@) == j as int);
                }
                let i = self.next[j];
                proof {
                    assert(i == self@[dir@]);
                }
                self.next[j] = i + 1;
                proof {
                    let pre = *old(self);
                    assert(self.dirs@ == pre.dirs@);
                    assert(self.wf());
                    assert forall|d: Seq<char>| #[trigger] self.contains_dir(d)
                        <==> pre.contains_dir(d) by {
                        if self.contains_dir(d) {
                            let w = choose|k: int|
                                0 <= k < self.dirs@.len() && (#[trigger] self.dirs@[k])@ == d;
                            assert(pre.dirs@[w]@ == d);
                        }
                        if pre.contains_dir(d) {
                            let w = choose|k: int|
                                0 <= k < pre.dirs@.len() && (#[trigger] pre.dirs@[k])@ == d;
                            assert(self.dirs@[w]@ == d);
                        }
                    }
                    assert(self@ =~= pre@.insert(dir@, (i + 1) as u32)) by {
                        assert forall|d: Seq<char>| self.contains_dir(d) implies self@[d]
                            == pre@.insert(dir@, (i + 1) as u32)[d] by {
                            self.lemma_dir_index(d);
                            pre.lemma_dir_index(d);
                            assert(pre.dirs@[self.dir_index(d)]@ == d);
                            assert(self.dir_index(d) == pre.dir_index(d));
                            if d == dir@ {
                                assert(self.dir_index(d) == j as int);
                            } else {
                                assert(pre.dir_index(d) != j as int);
                            }
                        }
                    }
                }
                i
            },
            None => {
                self.dirs.push(dir.clone());
                self.next.push(1);
                proof {
                    let pre = *old(self);
                    let n = pre.dirs@.len() as int;
                    assert(self.dirs@ == pre.dirs@.push(*dir));
                    assert(self.dirs@[n]@ == dir@);
                    assert(self.wf()) by {
                        assert(forall|k: int|
                            0 <= k < n ==> (#[trigger] self.dirs@[k])@ == pre.dirs@[k]@);
                    }
                    assert(self.contains_dir(dir@));
                    assert(self@ =~= pre@.insert(dir@, 1u32)) by {
                        assert forall|d: Seq<char>| #[trigger] self.contains_dir(d) implies (d
                            == dir@ || pre.contains_dir(d)) by {
                            let w = choose|k: int|
                                0 <= k < self.dirs@.len() && (#[trigger] self.dirs@[k])@ == d;
                            if w < n {
                                assert(pre.dirs@[w]@ == d);
                            }
                        }
                        assert forall|d: Seq<char>| #[trigger] pre.contains_dir(d) implies self.contains_dir(
                            d,
                        ) by {
                            let w = choose|k: int|
                                0 <= k < pre.dirs@.len() && (#[trigger] pre.dirs@[k])@ == d;
                            assert(self.dirs@[w]@ == d);
                        }
                        assert forall|d: Seq<char>| self.contains_dir(d) implies self@[d]
                            == pre@.insert(dir@, 1u32)[d] by {
                            self.lemma_dir_index(d);
                            if d == dir@ {
                                assert(self.dir_index(d) == n);
                            } else {
                                pre.lemma_dir_index(d);
                                assert(pre.dirs@[pre.dir_index(d)]@ == d);
                                assert(self.dirs@[pre.dir_index(d)]@ == d);
                                assert(self.dir_index(d) == pre.dir_index(d));
                            }
                        }
                    }
                }
                0
            },
        }
    }

    /// How many directories the map holds.
    pub fn dir_count(&self) -> (n: usize)
        ensures
            n == self.dirs_seq().len(),
    {
        self.dirs.len()
    }

    /// The directory at position `i`, for walking the map.
    pub fn dir_at(&self, i: usize) -> (r: &String)
        requires
            self.wf(),
            i < self.dirs_seq().len(),
        ensures
            r@ == self.dirs_seq()[i as int],
            self@.contains_key(r@),
    {
        let r = &self.dirs[i];
        proof {
            assert(self.contains_dir(r@));
        }
        r
    }

    /// The next index stored for the directory at position `i`.
    pub fn next_at(&self, i: usize) -> (r: u32)
        requires
            self.wf(),
            i < self.dirs_seq().len(),
        ensures
            r == self@[self.dirs_seq()[i as int]],
    {
        proof {
            let d = self.dirs_seq()[i as int];
            assert(self.dirs@[i as int]@ == d);
            assert(self.contains_dir(d));
            self.lemma_dir_index(d);
            assert(self.dir_index(d) == i as int);
        }
        self.next[i]
    }
}

impl View for IndexMap {
    type V = Map<Seq<char>, u32>;

    closed spec fn view(&self) -> Map<Seq<char>, u32> {
        Map::new(
            |d: Seq<char>| self.contains_dir(d),
            |d: Seq<char>| self.next@[self.dir_index(d)],
        )
    }
}

} // verus!
