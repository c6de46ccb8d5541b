//! A namespace: a byte-keyed, byte-valued store inside an open vault.
//!
//! All operations work purely in memory against the currently open snapshot;
//! persistence happens only when the owning vault is committed.  Keys are
//! unique within a namespace and insertion overwrites.
use vstd::prelude::*;

use crate::assoc::{map_of, distinct_keys, lemma_map_of_index, lemma_map_of_absent, lemma_map_of_update, lemma_map_of_push, lemma_map_of_remove};

verus! {

/// Equality of two byte slices.
pub fn bytes_eq(a: &[u8], b: &[u8]) -> (r: bool)
    ensures
        r <==> a@ == b@,
{
    if a.len() != b.len() {
        assert(a@.len() != b@.len());
        return false;
    }
    let n = a.len();
    let mut i: usize = 0;
    while i < n
        invariant
            n == a@.len() == b@.len(),
            i <= n,
            forall|j: int| 0 <= j < i ==> a@[j] == b@[j],
        decreases n - i,
    {
        if a[i] != b[i] {
            return false;
        }
        i += 1;
    }
    assert(a@ =~= b@);
    true
}

/// A named key-value container; one of many inside a snapshot.
pub struct Namespace {
    pub entries: Vec<(Vec<u8>, Vec<u8>)>,
}

impl View for Namespace {
    type V = Map<Seq<u8>, Seq<u8>>;

    open spec fn view(&self) -> Map<Seq<u8>, Seq<u8>> {
        map_of(self.model())
    }
}

impl Namespace {
    /// The entries as a sequence of key-value pairs, in storage order.
    pub open spec fn model(&self) -> Seq<(Seq<u8>, Seq<u8>)> {
        self.entries@.map_values(|e: (Vec<u8>, Vec<u8>)| (e.0@, e.1@))
    }

    /// Well-formed: keys are unique.
    pub open spec fn wf(&self) -> bool {
        distinct_keys(self.model())
    }

    /// An empty namespace.
    pub fn new() -> (r: Namespace)
        ensures
            r.wf(),
            r@ == Map::<Seq<u8>, Seq<u8>>::empty(),
            r.model() == Seq::<(Seq<u8>, Seq<u8>)>::empty(),
    {
        let r = Namespace { entries: Vec::new() };
        assert(r.model() =~= Seq::<(Seq<u8>, Seq<u8>)>::empty());
        r
    }

    /// The position of the entry holding the key, if any.
    fn find(&self, key: &[u8]) -> (r: Option<usize>)
        ensures
            match r {
                Some(i) => i < self.model().len() && self.model()[i as int].0 == key@,
                None => forall|j: int| 0 <= j < self.model().len() ==> self.model()[j].0 != key@,
            },
    {
        let n = self.entries.len();
        let mut i: usize = 0;
        while i < n
            invariant
                n == self.entries@.len(),
                i <= n,
                forall|j: int| 0 <= j < i ==> self.model()[j].0 != key@,
            decreases n - i,
        {
            if bytes_eq(self.entries[i].0.as_slice(), key) {
                return Some(i);
            }
            assert(self.model()[i as int].0 != key@);
            i += 1;
        }
        None
    }

    /// The value stored under the key, if any.
    pub fn get(&self, key: &[u8]) -> (r: Option<&Vec<u8>>)
        requires
            self.wf(),
        ensures
            match r {
                Some(v) => self@.contains_key(key@) && v@ == self@[key@],
                None => !self@.contains_key(key@),
            },
    {
        match self.find(key) {
            Some(i) => {
                proof {
                    lemma_map_of_index(self.model(), i as int);
                }
                Some(&self.entries[i].1)
            },
            None => {
                proof {
                    lemma_map_of_absent(self.model(), key@);
                }
                None
            },
        }
    }

    /// Whether the key is present.
    pub fn contains(&self, key: &[u8]) -> (r: bool)
        requires
            self.wf(),
        ensures
            r == self@.contains_key(key@),
    {
        self.get(key).is_some()
    }

    /// Stores the value under the key, overwriting any previous value.
    pub fn insert(&mut self, key: Vec<u8>, value: Vec<u8>)
        requires
            old(self).wf(),
        ensures
            final(self).wf(),
            final(self)@ == old(self)@.insert(key@, value@),
    {
        let ghost m0 = self.model();
        match self.find(key.as_slice()) {
            Some(i) => {
                let ghost v = value@;
                self.entries.set(i, (key, value));
                proof {
                    assert(self.model() =~= m0.update(i as int, (m0[i as int].0, v)));
                    lemma_map_of_update(m0, i as int, v);
                    assert(forall|p: int, q: int|
                        0 <= p < q < self.model().len() ==> self.model()[p].0 == m0[p].0
                            && self.model()[q].0 == m0[q].0);
                }
            },
            None => {
                let ghost k = key@;
                let ghost v = value@;
                self.entries.push((key, value));
                proof {
                    assert(self.model() =~= m0.push((k, v)));
                    lemma_map_of_push(m0, k, v);
                }
            },
        }
    }

    /// Removes the key and its value, if present.
    pub fn delete(&mut self, key: &[u8])
        requires
            old(self).wf(),
        ensures
            final(self).wf(),
            final(self)@ == old(self)@.remove(key@),
    {
        let ghost m0 = self.model();
        match self.find(key) {
            Some(i) => {
                self.entries.remove(i);
                proof {
                    assert(self.model() =~= m0.remove(i as int));
                    lemma_map_of_remove(m0, i as int);
                    assert(forall|p: int, q: int|
                        0 <= p < q < self.model().len() ==> distinct_pair_holds(m0, i as int, p, q));
                }
            },
            None => {
                proof {
                    lemma_map_of_absent(m0, key@);
                    assert(map_of(m0).remove(key@) =~= map_of(m0));
                }
            },
        }
    }

    /// Checks key uniqueness; true exactly when the namespace is well-formed.
    pub fn check_wf(&self) -> (r: bool)
        ensures
            r == self.wf(),
    {
        let n = self.entries.len();
        let mut i: usize = 0;
        while i < n
            invariant
                n == self.entries@.len(),
                i <= n,
                forall|p: int, q: int|
                    0 <= p < q < i ==> (#[trigger] self.model()[p]).0 != (#[trigger] self.model()[q]).0,
            decreases n - i,
        {
            let mut j: usize = 0;
            while j < i
                invariant
                    n == self.entries@.len(),
                    i < n,
                    j <= i,
                    forall|q: int| 0 <= q < j ==> (#[trigger] self.model()[q]).0 != self.model()[i as int].0,
                decreases i - j,
            {
                if bytes_eq(self.entries[j].0.as_slice(), self.entries[i].0.as_slice()) {
                    assert(self.model()[j as int].0 == self.model()[i as int].0);
                    assert(!self.wf());
                    return false;
                }
                j += 1;
            }
            i += 1;
        }
        true
    }

    /// How many entries the namespace holds.
    pub fn len(&self) -> (r: usize)
        ensures
            r == self.model().len(),
    {
        self.entries.len()
    }
}

/// Helper for the distinctness argument after a removal.
pub open spec fn distinct_pair_holds(m0: Seq<(Seq<u8>, Seq<u8>)>, i: int, p: int, q: int) -> bool {
    m0.remove(i)[p].0 != m0.remove(i)[q].0
}

} // verus!
