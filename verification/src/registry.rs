use vstd::prelude::*;

use crate::address::{canonical, sort_pair, AddressKey};

verus! {

/// A registered pair: its two tokens in stored order, and its pool.
pub struct PairEntry {
    token_0: AddressKey,
    token_1: AddressKey,
    pool: AddressKey,
}

/// The key under which an entry is found.
spec fn entry_key(e: PairEntry) -> (Seq<u8>, Seq<u8>) {
    (e.token_0@, e.token_1@)
}

spec fn has_key(s: Seq<PairEntry>, k: (Seq<u8>, Seq<u8>)) -> bool {
    exists|i: int| 0 <= i < s.len() && #[trigger] entry_key(s[i]) == k
}

/// The registered pairs, as a map from the stored order of a token pair to the
/// pool deployed for it.
spec fn entries_map(s: Seq<PairEntry>) -> Map<(Seq<u8>, Seq<u8>), Seq<u8>> {
    Map::new(
        |k: (Seq<u8>, Seq<u8>)| has_key(s, k),
        |k: (Seq<u8>, Seq<u8>)| s[choose|i: int| 0 <= i < s.len() && #[trigger] entry_key(s[i]) == k].pool@,
    )
}

spec fn keys_unique(s: Seq<PairEntry>) -> bool {
    forall|i: int, j: int|
        0 <= i < s.len() && 0 <= j < s.len() && i != j ==> #[trigger] entry_key(s[i]) != #[trigger] entry_key(s[j])
}

/// The pools deployed so far, each under its token pair.
pub struct PairRegistry {
    entries: Vec<PairEntry>,
}

impl View for PairRegistry {
    type V = Map<(Seq<u8>, Seq<u8>), Seq<u8>>;

    closed spec fn view(&self) -> Map<(Seq<u8>, Seq<u8>), Seq<u8>> {
        entries_map(self.entries@)
    }
}

proof fn lemma_unique_lookup(s: Seq<PairEntry>, i: int)
    requires
        keys_unique(s),
        0 <= i < s.len(),
    ensures
        entries_map(s).contains_key(entry_key(s[i])),
        entries_map(s)[entry_key(s[i])] == s[i].pool@,
{
    let k = entry_key(s[i]);
    assert(has_key(s, k));
    let j = choose|j: int| 0 <= j < s.len() && #[trigger] entry_key(s[j]) == k;
    if j != i {
        assert(entry_key(s[i]) != entry_key(s[j]));
    }
}

impl PairRegistry {
    #[verifier::type_invariant]
    spec fn well_formed(self) -> bool {
        keys_unique(self.entries@)
    }

    /// No pair registered.
    pub fn new() -> (r: PairRegistry)
        ensures
            r@ == Map::<(Seq<u8>, Seq<u8>), Seq<u8>>::empty(),
    {
        let r = PairRegistry { entries: Vec::new() };
        assert(r@ =~= Map::<(Seq<u8>, Seq<u8>), Seq<u8>>::empty());
        r
    }

    /// The index of the entry under the key `(t0, t1)`, if there is one.
    fn find(&self, t0: &AddressKey, t1: &AddressKey) -> (r: Option<usize>)
        ensures
            match r {
                Some(i) => i < self.entries@.len() && entry_key(self.entries@[i as int]) == (t0@, t1@),
                None => !has_key(self.entries@, (t0@, t1@)),
            },
    {
        let mut i: usize = 0;
        while i < self.entries.len()
            invariant
                i <= self.entries@.len(),
                forall|j: int| 0 <= j < i ==> #[trigger] entry_key(self.entries@[j]) != (t0@, t1@),
            decreases self.entries@.len() - i,
        {
            let e = &self.entries[i];
            if e.token_0.same_as(t0) && e.token_1.same_as(t1) {
                return Some(i);
            }
            i = i + 1;
        }
        None
    }

    /// The pool registered under the token pair `(t0, t1)` taken in that order.
    pub fn get(&self, t0: &AddressKey, t1: &AddressKey) -> (r: Option<AddressKey>)
        ensures
            match r {
                Some(p) => self@.contains_key((t0@, t1@)) && self@[(t0@, t1@)] == p@,
                None => !self@.contains_key((t0@, t1@)),
            },
    {
        proof {
            use_type_invariant(self);
        }
        match self.find(t0, t1) {
            Some(i) => {
                proof {
                    lemma_unique_lookup(self.entries@, i as int);
                }
                Some(self.entries[i].pool.duplicate())
            },
            None => None,
        }
    }

    /// Registers `pool` for the tokens `a` and `b`, stored in canonical order.
    /// Returns false, and changes nothing, when that pair is registered already.
    pub fn insert(&mut self, a: AddressKey, b: AddressKey, pool: AddressKey) -> (r: bool)
        ensures
            r == !old(self)@.contains_key(canonical(a@, b@)),
            r ==> final(self)@ == old(self)@.insert(canonical(a@, b@), pool@),
            !r ==> final(self)@ == old(self)@,
    {
        proof {
            use_type_invariant(&*self);
        }
        let (t0, t1) = sort_pair(a, b);
        if self.find(&t0, &t1).is_some() {
            return false;
        }
        let ghost old_entries = self.entries@;
        let ghost k = (t0@, t1@);
        let entry = PairEntry { token_0: t0, token_1: t1, pool };
        assert(entry_key(entry) == k);
        assert(keys_unique(old_entries.push(entry))) by {
            let s = old_entries.push(entry);
            assert forall|i: int, j: int|
                0 <= i < s.len() && 0 <= j < s.len() && i != j implies #[trigger] entry_key(s[i]) != #[trigger] entry_key(s[j]) by {
                if i == old_entries.len() as int {
                    assert(s[j] == old_entries[j]);
                } else if j == old_entries.len() as int {
                    assert(s[i] == old_entries[i]);
                } else {
                    assert(s[i] == old_entries[i]);
                    assert(s[j] == old_entries[j]);
                }
            }
        }
        let mut entries: Vec<PairEntry> = Vec::new();
        std::mem::swap(&mut entries, &mut self.entries);
        entries.push(entry);
        self.entries = entries;
        proof {
            let s = self.entries@;
            assert(s == old_entries.push(entry));
            let n = old_entries.len() as int;
            assert forall|q: (Seq<u8>, Seq<u8>)| #[trigger] entries_map(s).contains_key(q)
                == entries_map(old_entries).insert(k, entry.pool@).contains_key(q) by {
                if has_key(s, q) && q != k {
                    let i = choose|i: int| 0 <= i < s.len() && #[trigger] entry_key(s[i]) == q;
                    assert(i != n);
                    assert(s[i] == old_entries[i]);
                }
                if has_key(old_entries, q) {
                    let i = choose|i: int| 0 <= i < old_entries.len() && #[trigger] entry_key(old_entries[i]) == q;
                    assert(s[i] == old_entries[i]);
                }
                if q == k {
                    assert(entry_key(s[n]) == q);
                }
            }
            assert forall|q: (Seq<u8>, Seq<u8>)| #[trigger] entries_map(s).contains_key(q) implies
                entries_map(s)[q] == entries_map(old_entries).insert(k, entry.pool@)[q] by {
                let i = choose|i: int| 0 <= i < s.len() && #[trigger] entry_key(s[i]) == q;
                lemma_unique_lookup(s, i);
                if i < n {
                    assert(s[i] == old_entries[i]);
                    lemma_unique_lookup(old_entries, i);
                    assert(q != k);
                } else {
                    assert(s[i] == entry);
                }
            }
            assert(entries_map(s) =~= entries_map(old_entries).insert(k, entry.pool@));
        }
        true
    }
}

} // verus!
