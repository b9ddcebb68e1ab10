//! An ordered key-value store of byte strings, the backing of the chain
//! state, with the view of a finite map. Keys are kept sorted, so lookups
//! are binary searches.
use vstd::prelude::*;

use crate::octets::copy_range;
use crate::order::{compare_bytes, lemma_lex_irreflexive, lemma_lex_transitive, lex_lt};

verus! {

/// Byte-string keys mapped to byte-string values, in key order.
pub struct KvStore {
    pairs: Vec<(Vec<u8>, Vec<u8>)>,
    contents: Ghost<Map<Seq<u8>, Seq<u8>>>,
}

impl View for KvStore {
    type V = Map<Seq<u8>, Seq<u8>>;

    closed spec fn view(&self) -> Map<Seq<u8>, Seq<u8>> {
        self.contents@
    }
}

impl KvStore {
    /// Keys are strictly increasing and the pairs hold exactly the contents
    /// of the map.
    pub closed spec fn wf(&self) -> bool {
        &&& forall|i: int, j: int|
            0 <= i < j < self.pairs@.len() ==> lex_lt((#[trigger] self.pairs@[i]).0@, (#[trigger] self.pairs@[j]).0@)
        &&& forall|i: int|
            0 <= i < self.pairs@.len() ==> self.contents@.contains_key((#[trigger] self.pairs@[i]).0@)
                && self.contents@[self.pairs@[i].0@] == self.pairs@[i].1@
        &&& forall|k: Seq<u8>|
            #[trigger] self.contents@.contains_key(k) ==> exists|i: int|
                0 <= i < self.pairs@.len() && (#[trigger] self.pairs@[i]).0@ == k
    }

    pub fn new() -> (r: Self)
        ensures
            r.wf(),
            r@ == Map::<Seq<u8>, Seq<u8>>::empty(),
    {
        KvStore { pairs: Vec::new(), contents: Ghost(Map::empty()) }
    }

    /// The position of `key`, or where it would be inserted.
    fn search(&self, key: &[u8]) -> (r: Result<usize, usize>)
        requires
            self.wf(),
        ensures
            match r {
                Ok(i) => i < self.pairs@.len() && self.pairs@[i as int].0@ == key@,
                Err(p) => {
                    &&& p <= self.pairs@.len()
                    &&& !self@.contains_key(key@)
                    &&& forall|i: int| 0 <= i < p ==> lex_lt((#[trigger] self.pairs@[i]).0@, key@)
                    &&& forall|i: int| p <= i < self.pairs@.len() ==> lex_lt(key@, (#[trigger] self.pairs@[i]).0@)
                },
            },
    {
        let mut lo: usize = 0;
        let mut hi: usize = self.pairs.len();
        while lo < hi
            invariant
                self.wf(),
                lo <= hi <= self.pairs@.len(),
                forall|i: int| 0 <= i < lo ==> lex_lt((#[trigger] self.pairs@[i]).0@, key@),
                forall|i: int| hi <= i < self.pairs@.len() ==> lex_lt(key@, (#[trigger] self.pairs@[i]).0@),
            decreases hi - lo,
        {
            let mid = lo + (hi - lo) / 2;
            let c = compare_bytes(self.pairs[mid].0.as_slice(), key);
            if c == 0 {
                return Ok(mid);
            }
            if c < 0 {
                assert forall|i: int| 0 <= i < mid + 1 implies lex_lt((#[trigger] self.pairs@[i]).0@, key@) by {
                    if i < mid {
                        assert(lex_lt(self.pairs@[i].0@, self.pairs@[mid as int].0@));
                        lemma_lex_transitive(self.pairs@[i].0@, self.pairs@[mid as int].0@, key@);
                    }
                }
                lo = mid + 1;
            } else {
                assert forall|i: int| mid <= i < self.pairs@.len() implies lex_lt(key@, (#[trigger] self.pairs@[i]).0@) by {
                    if i > mid {
                        assert(lex_lt(self.pairs@[mid as int].0@, self.pairs@[i].0@));
                        lemma_lex_transitive(key@, self.pairs@[mid as int].0@, self.pairs@[i].0@);
                    }
                }
                hi = mid;
            }
        }
        proof {
            if self@.contains_key(key@) {
                let i = choose|i: int| 0 <= i < self.pairs@.len() && (#[trigger] self.pairs@[i]).0@ == key@;
                lemma_lex_irreflexive(key@);
            }
        }
        Err(lo)
    }

    /// The value stored under `key`.
    pub fn get(&self, key: &[u8]) -> (r: Option<Vec<u8>>)
        requires
            self.wf(),
        ensures
            match r {
                Some(v) => self@.contains_key(key@) && v@ == self@[key@],
                None => !self@.contains_key(key@),
            },
    {
        match self.search(key) {
            Ok(i) => {
                let v = &self.pairs[i].1;
                Some(copy_range(v.as_slice(), 0, v.len()))
            },
            Err(_) => None,
        }
    }

    /// Whether anything is stored under `key`.
    pub fn contains(&self, key: &[u8]) -> (r: bool)
        requires
            self.wf(),
        ensures
            r == self@.contains_key(key@),
    {
        self.search(key).is_ok()
    }

    /// Stores `value` under `key`, replacing what was there.
    pub fn put(&mut self, key: Vec<u8>, value: Vec<u8>)
        requires
            old(self).wf(),
        ensures
            final(self).wf(),
            final(self)@ == old(self)@.insert(key@, value@),
    {
        let ghost m = self.contents@.insert(key@, value@);
        let ghost kk = key@;
        let ghost before = self.pairs@;
        match self.search(key.as_slice()) {
            Ok(i) => {
                self.pairs.set(i, (key, value));
                self.contents = Ghost(m);
                assert forall|a: int, b: int|
                    0 <= a < b < self.pairs@.len() implies lex_lt((#[trigger] self.pairs@[a]).0@, (#[trigger] self.pairs@[b]).0@) by {
                    assert(lex_lt(before[a].0@, before[b].0@));
                }
                assert forall|j: int| 0 <= j < self.pairs@.len() implies self.contents@.contains_key(
                    (#[trigger] self.pairs@[j]).0@,
                ) && self.contents@[self.pairs@[j].0@] == self.pairs@[j].1@ by {
                    if j != i {
                        assert(self.pairs@[j] == before[j]);
                        if j < i {
                            assert(lex_lt(before[j].0@, before[i as int].0@));
                        } else {
                            assert(lex_lt(before[i as int].0@, before[j].0@));
                        }
                        lemma_lex_irreflexive(kk);
                    }
                }
                assert forall|k: Seq<u8>| #[trigger] self.contents@.contains_key(k) implies exists|j: int|
                    0 <= j < self.pairs@.len() && (#[trigger] self.pairs@[j]).0@ == k by {
                    if k == kk {
                        assert(self.pairs@[i as int].0@ == k);
                    } else {
                        assert(old(self).contents@.contains_key(k));
                        let j = choose|j: int| 0 <= j < before.len() && (#[trigger] before[j]).0@ == k;
                        assert(self.pairs@[j].0@ == k);
                    }
                }
            },
            Err(p) => {
                self.pairs.insert(p, (key, value));
                self.contents = Ghost(m);
                let ghost after = self.pairs@;
                assert forall|a: int, b: int|
                    0 <= a < b < after.len() implies lex_lt((#[trigger] after[a]).0@, (#[trigger] after[b]).0@) by {
                    if b < p {
                        assert(after[a] == before[a] && after[b] == before[b]);
                    } else if b == p {
                        assert(after[a] == before[a]);
                    } else if a < p {
                        assert(after[a] == before[a] && after[b] == before[b - 1]);
                        assert(lex_lt(before[a].0@, kk));
                        assert(lex_lt(kk, before[b - 1].0@));
                        lemma_lex_transitive(before[a].0@, kk, before[b - 1].0@);
                    } else if a == p {
                        assert(after[b] == before[b - 1]);
                    } else {
                        assert(after[a] == before[a - 1] && after[b] == before[b - 1]);
                    }
                }
                assert forall|j: int| 0 <= j < after.len() implies self.contents@.contains_key(
                    (#[trigger] after[j]).0@,
                ) && self.contents@[after[j].0@] == after[j].1@ by {
                    if j != p {
                        let oj = if j < p { j } else { j - 1 };
                        assert(after[j] == before[oj]);
                        if j < p {
                            assert(lex_lt(before[oj].0@, kk));
                        } else {
                            assert(lex_lt(kk, before[oj].0@));
                        }
                        lemma_lex_irreflexive(kk);
                    }
                }
                assert forall|k: Seq<u8>| #[trigger] self.contents@.contains_key(k) implies exists|j: int|
                    0 <= j < after.len() && (#[trigger] after[j]).0@ == k by {
                    if k == kk {
                        assert(after[p as int].0@ == k);
                    } else {
                        assert(old(self).contents@.contains_key(k));
                        let oj = choose|j: int| 0 <= j < before.len() && (#[trigger] before[j]).0@ == k;
                        let j = if oj < p { oj } else { oj + 1 };
                        assert(after[j] == before[oj]);
                    }
                }
            },
        }
    }

    /// Removes whatever is stored under `key`.
    pub fn delete(&mut self, key: &[u8])
        requires
            old(self).wf(),
        ensures
            final(self).wf(),
            final(self)@ == old(self)@.remove(key@),
    {
        let ghost m = self.contents@.remove(key@);
        match self.search(key) {
            Ok(i) => {
                let ghost before = self.pairs@;
                self.pairs.remove(i);
                self.contents = Ghost(m);
                let ghost after = self.pairs@;
                assert forall|a: int, b: int|
                    0 <= a < b < after.len() implies lex_lt((#[trigger] after[a]).0@, (#[trigger] after[b]).0@) by {
                    let oa = if a < i { a } else { a + 1 };
                    let ob = if b < i { b } else { b + 1 };
                    assert(after[a] == before[oa] && after[b] == before[ob]);
                }
                assert forall|j: int| 0 <= j < after.len() implies self.contents@.contains_key(
                    (#[trigger] after[j]).0@,
                ) && self.contents@[after[j].0@] == after[j].1@ by {
                    let oj = if j < i { j } else { j + 1 };
                    assert(after[j] == before[oj]);
                    if oj < i {
                        assert(lex_lt(before[oj].0@, before[i as int].0@));
                    } else {
                        assert(lex_lt(before[i as int].0@, before[oj].0@));
                    }
                    lemma_lex_irreflexive(key@);
                }
                assert forall|k: Seq<u8>| #[trigger] self.contents@.contains_key(k) implies exists|j: int|
                    0 <= j < after.len() && (#[trigger] after[j]).0@ == k by {
                    let oj = choose|j: int| 0 <= j < before.len() && (#[trigger] before[j]).0@ == k;
                    assert(oj != i);
                    let j = if oj < i { oj } else { oj - 1 };
                    assert(after[j] == before[oj]);
                }
            },
            Err(_) => {
                assert(m =~= self.contents@);
            },
        }
    }
}

} // verus!
