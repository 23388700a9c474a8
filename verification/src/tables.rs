//! RVA-keyed tables.
//!
//! A table holds pairs of an RVA key and a value, kept strictly sorted by
//! key, so that iterating its entries visits the keys in ascending order
//! and each key appears once.  Writing to a key that is already present
//! replaces the earlier value.

use vstd::prelude::*;

use crate::model::has_key;
use crate::model::keys_sorted;
use crate::model::lemma_put_pos_bounds;
use crate::model::lemma_put_pos_unique;
use crate::model::lemma_sorted_put_sorted;
use crate::model::put_pos;
use crate::model::sorted_put;

verus! {

/// A mapping from RVA to `V`, iterable in ascending key order.
pub struct RvaMap<V> {
    entries: Vec<(u32, V)>,
}

impl<V> RvaMap<V> {
    #[verifier::type_invariant]
    spec fn inv(self) -> bool {
        keys_sorted(self.entries@)
    }
}

impl<V: View> RvaMap<V> {
    /// The table as a sequence of key/value-view pairs, sorted strictly
    /// by key.
    pub closed spec fn seq(self) -> Seq<(u32, V::V)> {
        self.entries@.map_values(|p: (u32, V)| (p.0, p.1@))
    }

    /// The keys of the raw entries are the keys of the viewed sequence.
    proof fn lemma_same_keys(self)
        ensures
            self.seq().len() == self.entries@.len(),
            forall|i: int|
                0 <= i < self.entries@.len() ==> self.seq()[i].0 == self.entries@[i].0
                    && self.seq()[i].1 == self.entries@[i].1@,
    {
    }

    /// The empty table.
    pub fn new() -> (r: Self)
        ensures
            r.seq() == Seq::<(u32, V::V)>::empty(),
    {
        let r = RvaMap { entries: Vec::new() };
        proof {
            assert(r.seq() =~= Seq::<(u32, V::V)>::empty());
        }
        r
    }

    /// Write `k -> v`, replacing any earlier value for `k`.
    pub(crate) fn put(&mut self, k: u32, v: V)
        ensures
            final(self).seq() == sorted_put(old(self).seq(), k, v@),
            keys_sorted(final(self).seq()),
    {
        proof {
            use_type_invariant(&*self);
            self.lemma_same_keys();
        }
        let ghost s0 = self.entries@;
        let mut ents: Vec<(u32, V)> = Vec::new();
        core::mem::swap(&mut ents, &mut self.entries);
        let n = ents.len();
        let mut i: usize = 0;
        while i < n && ents[i].0 < k
            invariant
                0 <= i <= n,
                n == ents@.len(),
                ents@ == s0,
                forall|j: int| 0 <= j < i ==> s0[j].0 < k,
            decreases n - i,
        {
            i += 1;
        }
        proof {
            lemma_put_pos_unique(s0, k, i as int);
            lemma_put_pos_unique(old(self).seq(), k, i as int);
            lemma_sorted_put_sorted(s0, k, v);
        }
        if i < n && ents[i].0 == k {
            ents[i] = (k, v);
        } else {
            ents.insert(i, (k, v));
        }
        proof {
            assert(ents@ == sorted_put(s0, k, v));
        }
        self.entries = ents;
        proof {
            assert(self.seq() =~= sorted_put(old(self).seq(), k, v@));
            lemma_sorted_put_sorted(old(self).seq(), k, v@);
        }
    }

    /// The entries, sorted strictly ascending by key.
    pub fn entries(&self) -> (r: &Vec<(u32, V)>)
        ensures
            r@.len() == self.seq().len(),
            forall|i: int|
                0 <= i < r@.len() ==> r@[i].0 == self.seq()[i].0 && r@[i].1@ == self.seq()[i].1,
            keys_sorted(self.seq()),
    {
        proof {
            use_type_invariant(&*self);
            self.lemma_same_keys();
        }
        &self.entries
    }

    /// The number of entries.
    pub fn len(&self) -> (r: usize)
        ensures
            r == self.seq().len(),
    {
        proof {
            self.lemma_same_keys();
        }
        self.entries.len()
    }

    /// Look up the value for `k`.
    pub fn get(&self, k: u32) -> (r: Option<&V>)
        ensures
            match r {
                Some(v) => exists|i: int|
                    0 <= i < self.seq().len() && self.seq()[i] == (k, v@),
                None => !has_key(self.seq(), k),
            },
    {
        proof {
            use_type_invariant(&*self);
            self.lemma_same_keys();
        }
        let n = self.entries.len();
        let mut i: usize = 0;
        while i < n
            invariant
                0 <= i <= n,
                n == self.entries@.len(),
                forall|j: int| 0 <= j < i ==> self.entries@[j].0 != k,
            decreases n - i,
        {
            if self.entries[i].0 == k {
                proof {
                    assert(self.seq()[i as int] == (k, self.entries@[i as int].1@));
                }
                return Some(&self.entries[i].1);
            }
            i += 1;
        }
        proof {
            assert forall|j: int| 0 <= j < self.seq().len() implies self.seq()[j].0 != k by {
                assert(self.entries@[j].0 != k);
            }
        }
        None
    }
}

} // verus!
