use vstd::prelude::*;
use crate::types::Hash256;
use crate::model::{BlockHeader, TotalHeader};
use crate::digests::{header_hash, header_hash_of};

verus! {

/// The in-memory header chain: an append-only map from header hash to
/// `TotalHeader`, plus the hashes in insertion order.
pub struct ChainIndex {
    pub entries: Vec<(Hash256, TotalHeader)>,
    pub recent: Vec<Hash256>,
}

impl ChainIndex {
    /// Keys are the headers' hashes and are unique; every entry but a
    /// genesis has its parent in the index, one number below it; the
    /// recent list carries exactly the keys, oldest first.
    pub open spec fn wf(self) -> bool {
        &&& forall|i: int|
            0 <= i < self.entries@.len() ==> (#[trigger] self.entries@[i].1).wf()
        &&& forall|i: int|
            0 <= i < self.entries@.len() ==> (#[trigger] self.entries@[i].0).wf()
        &&& forall|i: int|
            0 <= i < self.entries@.len() ==> (#[trigger] self.entries@[i].0)@ == header_hash_of(
                self.entries@[i].1.header@,
            )
        &&& forall|i: int, j: int|
            0 <= i < j < self.entries@.len() ==> (#[trigger] self.entries@[i].0)@ != (
            #[trigger] self.entries@[j].0)@
        &&& self.linked()
        &&& self.recent@.len() == self.entries@.len()
        &&& forall|i: int|
            0 <= i < self.entries@.len() ==> (#[trigger] self.recent@[i])@ == self.entries@[i].0@
    }

    /// Entry `i` is a genesis or has its parent in the index, one number
    /// below it.
    pub open spec fn entry_linked(self, i: int) -> bool {
        self.entries@[i].1.header.number.val() == 0 || exists|j: int|
            0 <= j < self.entries@.len() && (#[trigger] self.entries@[j].0)@
                == self.entries@[i].1.header.parent_hash@ && self.entries@[j].1.header.number.val()
                + 1 == self.entries@[i].1.header.number.val()
    }

    /// Every entry is a genesis or extends a stored parent by one.
    #[verifier::opaque]
    pub open spec fn linked(self) -> bool {
        forall|i: int| 0 <= i < self.entries@.len() ==> #[trigger] self.entry_linked(i)
    }

    /// Whether a hash is a key of the index.
    pub open spec fn spec_contains(self, h: Seq<u8>) -> bool {
        exists|i: int| 0 <= i < self.entries@.len() && (#[trigger] self.entries@[i].0)@ == h
    }

    /// The index of a key, where it is present.
    pub open spec fn spec_index_of(self, h: Seq<u8>) -> int {
        choose|i: int| 0 <= i < self.entries@.len() && (#[trigger] self.entries@[i].0)@ == h
    }

    /// A new index holding the genesis entry alone.
    pub fn new(genesis: TotalHeader) -> (r: ChainIndex)
        requires
            genesis.wf(),
            genesis.header.number.val() == 0,
        ensures
            r.wf(),
            r.entries@.len() == 1,
            r.entries@[0].1 == genesis,
    {
        let h = header_hash(&genesis.header);
        let mut entries: Vec<(Hash256, TotalHeader)> = Vec::new();
        let mut recent: Vec<Hash256> = Vec::new();
        recent.push(h.duplicate());
        entries.push((h, genesis));
        let r = ChainIndex { entries, recent };
        proof {
            reveal(ChainIndex::linked);
            assert forall|i: int| 0 <= i < r.entries@.len() implies #[trigger] r.entry_linked(
                i,
            ) by {
                assert(r.entries@[i].1.header.number.val() == 0);
            }
        }
        r
    }

    /// Fetch the entry stored under a hash, or nothing where the hash is
    /// not a key.
    pub fn fetch(&self, hash: &Hash256) -> (r: Option<&TotalHeader>)
        requires
            self.wf(),
        ensures
            r is Some <==> self.spec_contains(hash@),
            r is Some ==> {
                let i = self.spec_index_of(hash@);
                &&& 0 <= i < self.entries@.len()
                &&& r->Some_0 == self.entries@[i].1
                &&& self.entries@[i].0@ == hash@
            },
    {
        let mut i: usize = 0;
        while i < self.entries.len()
            invariant
                self.wf(),
                i <= self.entries@.len(),
                forall|j: int| 0 <= j < i ==> (#[trigger] self.entries@[j].0)@ != hash@,
            decreases self.entries@.len() - i,
        {
            if self.entries[i].0.eq_bytes(hash) {
                proof {
                    assert(self.entries@[i as int].0@ == hash@);
                    let w = self.spec_index_of(hash@);
                    assert(0 <= w < self.entries@.len() && self.entries@[w].0@ == hash@);
                    if w != i as int {
                        assert(self.entries@[w].0@ != self.entries@[i as int].0@);
                    }
                }
                return Some(&self.entries[i].1);
            }
            i += 1;
        }
        None
    }

    /// Whether a hash is already a key of the index.
    pub fn contains_key(&self, hash: &Hash256) -> (r: bool)
        requires
            self.wf(),
        ensures
            r == self.spec_contains(hash@),
    {
        self.fetch(hash).is_some()
    }

    /// Whether the index holds the entry's parent, one number below it.
    #[verifier::rlimit(100)]
    pub fn parent_link_ok(&self, t: &TotalHeader) -> (r: bool)
        requires
            self.wf(),
        ensures
            r == exists|j: int|
                0 <= j < self.entries@.len() && (#[trigger] self.entries@[j].0)@
                    == t.header.parent_hash@ && self.entries@[j].1.header.number.val() + 1
                    == t.header.number.val(),
    {
        let parent = self.fetch(&t.header.parent_hash);
        let parent_ok = match parent {
            Some(p) => {
                proof {
                    p.header.number.lemma_val_bounds_pub();
                }
                if p.header.number.val_fits_after_increment() {
                    t.header.number.eq_val(
                        &p.header.number.checked_add(&crate::u256::Uint256::from_u64(1)),
                    )
                } else {
                    false
                }
            },
            None => false,
        };
        proof {
            if parent_ok {
                let j = self.spec_index_of(t.header.parent_hash@);
                assert(0 <= j < self.entries@.len() && self.entries@[j].0@
                    == t.header.parent_hash@ && self.entries@[j].1.header.number.val() + 1
                    == t.header.number.val());
            } else {
                if exists|j: int|
                    0 <= j < self.entries@.len() && (#[trigger] self.entries@[j].0)@
                        == t.header.parent_hash@ && self.entries@[j].1.header.number.val() + 1
                        == t.header.number.val() {
                    let j = choose|j: int|
                        0 <= j < self.entries@.len() && (#[trigger] self.entries@[j].0)@
                            == t.header.parent_hash@ && self.entries@[j].1.header.number.val() + 1
                            == t.header.number.val();
                    assert(self.spec_contains(t.header.parent_hash@));
                    let w = self.spec_index_of(t.header.parent_hash@);
                    if w != j {
                        assert(self.entries@[w].0@ != self.entries@[j].0@);
                    }
                    t.header.number.lemma_val_bounds_pub();
                    assert(false);
                }
            }
        }
        parent_ok
    }

    /// Insert an entry under its header hash and append the hash to the
    /// recent list. A duplicate key or a dangling parent is refused and
    /// nothing changes.
    #[verifier::rlimit(100)]
    pub fn put(&mut self, t: TotalHeader) -> (r: bool)
        requires
            old(self).wf(),
            t.wf(),
            t.header.number.val() > 0,
        ensures
            final(self).wf(),
            r == (!old(self).spec_contains(header_hash_of(t.header@))
                && exists|j: int|
                0 <= j < old(self).entries@.len() && (#[trigger] old(self).entries@[j].0)@
                    == t.header.parent_hash@ && old(self).entries@[j].1.header.number.val() + 1
                    == t.header.number.val()),
            r ==> final(self).entries@.len() == old(self).entries@.len() + 1
                && final(self).entries@.last().1 == t && final(self).entries@.last().0@
                == header_hash_of(t.header@) && (forall|i: int|
                0 <= i < old(self).entries@.len() ==> #[trigger] final(self).entries@[i]
                    == old(self).entries@[i]),
            !r ==> *final(self) == *old(self),
            final(self).entries@.len() >= old(self).entries@.len(),
    {
        let h = header_hash(&t.header);
        if self.contains_key(&h) {
            return false;
        }
        if !self.parent_link_ok(&t) {
            return false;
        }
        let ghost olds = *self;
        self.recent.push(h.duplicate());
        self.entries.push((h, t));
        proof {
            lemma_append_keeps_wf(olds, *self, t);
        }
        true
    }

    /// Up to the `n` most recent header hashes, newest first.
    pub fn last_hashes(&self, n: usize) -> (r: Vec<Hash256>)
        requires
            self.wf(),
        ensures
            r@.len() == if n <= self.recent@.len() {
                n as int
            } else {
                self.recent@.len() as int
            },
            forall|i: int|
                0 <= i < r@.len() ==> (#[trigger] r@[i])@ == self.recent@[self.recent@.len() - 1
                    - i]@,
    {
        let mut r: Vec<Hash256> = Vec::new();
        let mut i: usize = 0;
        let total = self.recent.len();
        let count = if n <= total {
            n
        } else {
            total
        };
        while i < count
            invariant
                self.wf(),
                total == self.recent@.len(),
                count <= self.recent@.len(),
                i <= count,
                r@.len() == i,
                forall|j: int|
                    0 <= j < i ==> (#[trigger] r@[j])@ == self.recent@[self.recent@.len() - 1
                        - j]@,
            decreases count - i,
        {
            r.push(self.recent[total - 1 - i].duplicate());
            i += 1;
        }
        r
    }
}

/// Appending a fresh, parent-linked entry keeps the index well formed.
proof fn lemma_append_keeps_wf(olds: ChainIndex, news: ChainIndex, t: TotalHeader)
    requires
        olds.wf(),
        t.wf(),
        t.header.number.val() > 0,
        news.entries@.len() == olds.entries@.len() + 1,
        forall|i: int| 0 <= i < olds.entries@.len() ==> #[trigger] news.entries@[i]
            == olds.entries@[i],
        news.entries@.last().1 == t,
        news.entries@.last().0@ == header_hash_of(t.header@),
        news.entries@.last().0.wf(),
        !olds.spec_contains(header_hash_of(t.header@)),
        exists|j: int|
            0 <= j < olds.entries@.len() && (#[trigger] olds.entries@[j].0)@
                == t.header.parent_hash@ && olds.entries@[j].1.header.number.val() + 1
                == t.header.number.val(),
        news.recent@.len() == news.entries@.len(),
        forall|i: int|
            0 <= i < news.entries@.len() ==> (#[trigger] news.recent@[i])@ == news.entries@[i].0@,
    ensures
        news.wf(),
{
    reveal(ChainIndex::linked);
    let n = news.entries@.len() - 1;
    assert forall|i: int, j: int|
        0 <= i < j < news.entries@.len() implies (#[trigger] news.entries@[i].0)@ != (
    #[trigger] news.entries@[j].0)@ by {
        if j == n {
            if news.entries@[i].0@ == news.entries@[n].0@ {
                assert(olds.entries@[i] == news.entries@[i]);
                assert(olds.spec_contains(header_hash_of(t.header@)));
            }
        } else {
            assert(olds.entries@[i] == news.entries@[i]);
            assert(olds.entries@[j] == news.entries@[j]);
        }
    }
    assert forall|i: int| 0 <= i < news.entries@.len() implies #[trigger] news.entry_linked(
        i,
    ) by {
        if i < n {
            assert(olds.entry_linked(i));
            if news.entries@[i].1.header.number.val() != 0 {
                let j = choose|j: int|
                    0 <= j < olds.entries@.len() && (#[trigger] olds.entries@[j].0)@
                        == olds.entries@[i].1.header.parent_hash@
                        && olds.entries@[j].1.header.number.val() + 1
                        == olds.entries@[i].1.header.number.val();
                assert(news.entries@[j] == olds.entries@[j]);
                assert(news.entries@[j].0@ == news.entries@[i].1.header.parent_hash@
                    && news.entries@[j].1.header.number.val() + 1
                    == news.entries@[i].1.header.number.val());
            }
        } else {
            let j = choose|j: int|
                0 <= j < olds.entries@.len() && (#[trigger] olds.entries@[j].0)@
                    == t.header.parent_hash@ && olds.entries@[j].1.header.number.val() + 1
                    == t.header.number.val();
            assert(news.entries@[j] == olds.entries@[j]);
            assert(news.entries@[j].0@ == news.entries@[i].1.header.parent_hash@
                && news.entries@[j].1.header.number.val() + 1
                == news.entries@[i].1.header.number.val());
        }
    }
}

} // verus!
